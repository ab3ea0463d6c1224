use milstian_internet_framework::application_layer::http::request;
use milstian_internet_framework::application_layer::http::response;
use milstian_internet_framework::response::tcp::http::chain::{next, start, Dispatch, Outcome};
use milstian_internet_framework::response::tcp::http::error;
use milstian_internet_framework::response::tcp::http::{Dispatcher, ResponderInterface};
use milstian_internet_framework::response::tcp::{Dispatcher as Gatherer, CHUNK};
use milstian_internet_framework::response::types::http::Dispatcher as PlainDispatcher;
use milstian_internet_framework::text_map::TextMap;
use milstian_internet_framework::transport_layer::TCP;
use milstian_internet_framework::{Application, Config};

fn settings() -> Config {
    Config {
        feedback_error_file: Option::None,
        feedback_info_file: Option::None,
        filesystem_directory_index: "index.htm".to_string(),
        file_not_found_file: "404.htm".to_string(),
        filesystem_root: "/srv/html".to_string(),
        server_host: "localhost".to_string(),
        server_limit: 4,
        server_port: 4040,
        tcp_limit: 1024,
    }
}

/// A responder that claims the requests with a query argument `test`.
struct Routed {
    route: Option<String>,
}

impl ResponderInterface for Routed {
    fn matches(
        &mut self,
        request_message: &request::Message,
        _application: &Application,
        _socket: &str,
        _overflow_bytes: &u64,
    ) -> bool {
        match request_message.request_line.query_arguments.get("test") {
            Some(value) => {
                self.route = Some(value.clone());
                true
            }
            None => false,
        }
    }

    fn respond(
        &self,
        request_message: &request::Message,
        _application: &Application,
        _socket: &str,
        _overflow_bytes: &u64,
    ) -> Result<response::Message, String> {
        match &self.route {
            Some(route) => {
                let mut headers: TextMap<String> = TextMap::new();
                headers.insert("Content-Type".to_string(), "text/html".to_string());
                Ok(response::Message::new(
                    request::Message::get_protocol_text(&request_message.request_line.protocol),
                    "200 OK".to_string(),
                    headers,
                    route.as_bytes().to_vec(),
                ))
            }
            None => Err("No result".to_string()),
        }
    }
}

/// A responder that claims every request and fails to answer.
struct Failing {}

impl ResponderInterface for Failing {
    fn matches(
        &mut self,
        _request_message: &request::Message,
        _application: &Application,
        _socket: &str,
        _overflow_bytes: &u64,
    ) -> bool {
        true
    }

    fn respond(
        &self,
        _request_message: &request::Message,
        _application: &Application,
        _socket: &str,
        _overflow_bytes: &u64,
    ) -> Result<response::Message, String> {
        Err("No result".to_string())
    }
}

#[test]
fn test_matches() {
    let application = Application::new(settings());
    let mut responder = error::Responder::new();
    assert!(responder.matches(
        &request::Message::from_tcp_stream(b"GET /index2.htm HTTP/1.0").unwrap(),
        &application,
        "127.0.0.1:8080",
        &0
    ));
    assert!(responder.matches(
        &request::Message::from_tcp_stream(b"GET /index3.htm HTTP/1.0").unwrap(),
        &application,
        "127.0.0.1:8080",
        &0
    ));
    assert!(responder.matches(
        &request::Message::from_tcp_stream(b"GET /index.htm HTTP/1.1").unwrap(),
        &application,
        "127.0.0.1:8080",
        &0
    ));
}

#[test]
fn test_respond() {
    let application = Application::new(settings());
    let mut responder = error::Responder::new();
    let request =
        request::Message::from_tcp_stream(b"GET /index2.htm HTTP/1.1\r\n\r\n").unwrap();
    let matches = responder.matches(&request, &application, "127.0.0.1:8080", &0);
    assert!(matches);

    let headers: TextMap<String> = TextMap::new();
    let expected_response = response::Message::new(
        "HTTP/1.1".to_string(),
        "500 Internal Server Error".to_string(),
        headers,
        Vec::new(),
    )
    .to_bytes();

    let given_response = responder
        .respond(&request, &application, "127.0.0.1:8080", &0)
        .unwrap()
        .to_bytes();
    assert_eq!(expected_response, given_response);
    assert_eq!(given_response, b"HTTP/1.1 500 Internal Server Error\r\n\r\n".to_vec());
}

#[test]
fn the_dispatcher_keeps_the_request_that_it_read() {
    let application = Application::new(settings());
    let mut dispatcher = Dispatcher::new();
    assert!(dispatcher.request_message.is_none());
    assert!(!dispatcher.matches(b"RANDOM /stuff HTTP/2.5\r\n", &application, "127.0.0.1:8080", &0));
    assert!(dispatcher.request_message.is_none());
    assert!(dispatcher.matches(b"GET /a?test=x HTTP/1.1\r\n\r\n", &application, "127.0.0.1:8080", &0));
    assert_eq!(
        dispatcher.request_message.as_ref().unwrap().request_line.request_uri,
        "/a?test=x"
    );
    assert!(!dispatcher.matches(b"", &application, "127.0.0.1:8080", &0));
    assert!(dispatcher.request_message.is_some());
}

#[test]
fn the_first_responder_that_matches_answers() {
    let application = Application::new(settings());
    let mut dispatcher = Dispatcher::new();
    let request = b"GET /a?test=hello HTTP/1.1\r\nUser-Agent: curl/8.0\r\nReferer: http://localhost/\r\n\r\n";
    assert!(dispatcher.matches(request, &application, "127.0.0.1:8080", &0));
    let responders: Vec<Box<dyn ResponderInterface>> = vec![
        Box::new(Routed { route: None }),
        Box::new(error::Responder::new()),
    ];
    let (bytes, log) = dispatcher
        .respond(request, &application, "127.0.0.1:8080", responders, &0)
        .unwrap();
    assert_eq!(
        bytes,
        b"HTTP/1.1 200 OK\r\nContent-Type: text/html\r\n\r\nhello".to_vec()
    );
    assert_eq!(
        log,
        "HTTP access - \"127.0.0.1:8080\",\"/a?test=hello\",\"curl/8.0\",\"http://localhost/\",\"200 OK\",\"5\""
    );
}

#[test]
fn a_responder_that_does_not_match_is_passed_over() {
    let application = Application::new(settings());
    let mut dispatcher = Dispatcher::new();
    let request = b"GET /a HTTP/1.0\r\n\r\n";
    assert!(dispatcher.matches(request, &application, "[::1]:9", &0));
    let responders: Vec<Box<dyn ResponderInterface>> = vec![
        Box::new(Routed { route: None }),
        Box::new(error::Responder::new()),
        Box::new(Routed { route: None }),
    ];
    let (bytes, log) = dispatcher
        .respond(request, &application, "[::1]:9", responders, &0)
        .unwrap();
    assert_eq!(bytes, b"HTTP/1.0 500 Internal Server Error\r\n\r\n".to_vec());
    assert_eq!(
        log,
        "HTTP access - \"[::1]:9\",\"/a\",\"\",\"\",\"500 Internal Server Error\",\"0\""
    );
}

#[test]
fn a_responder_that_matches_and_fails_is_passed_over() {
    let application = Application::new(settings());
    let mut dispatcher = Dispatcher::new();
    let request = b"GET /a HTTP/1.0\r\n\r\n";
    assert!(dispatcher.matches(request, &application, "127.0.0.1:8080", &0));
    let responders: Vec<Box<dyn ResponderInterface>> =
        vec![Box::new(Failing {}), Box::new(error::Responder::new())];
    let (bytes, _) = dispatcher
        .respond(request, &application, "127.0.0.1:8080", responders, &0)
        .unwrap();
    assert_eq!(bytes, b"HTTP/1.0 500 Internal Server Error\r\n\r\n".to_vec());
}

#[test]
fn a_chain_in_which_no_responder_answers_is_an_error() {
    let application = Application::new(settings());
    let mut dispatcher = Dispatcher::new();
    let request = b"GET /a HTTP/1.0\r\n\r\n";
    assert!(dispatcher.matches(request, &application, "127.0.0.1:8080", &0));
    let responders: Vec<Box<dyn ResponderInterface>> =
        vec![Box::new(Routed { route: None }), Box::new(Failing {})];
    assert_eq!(
        dispatcher
            .respond(request, &application, "127.0.0.1:8080", responders, &0)
            .unwrap_err(),
        "Found no matching HTTP responder"
    );
    assert_eq!(
        dispatcher
            .respond(request, &application, "127.0.0.1:8080", Vec::new(), &0)
            .unwrap_err(),
        "Found no matching HTTP responder"
    );
    let idle = Dispatcher::new();
    let responders: Vec<Box<dyn ResponderInterface>> = vec![Box::new(error::Responder::new())];
    assert_eq!(
        idle.respond(request, &application, "127.0.0.1:8080", responders, &0)
            .unwrap_err(),
        "Found no matching HTTP responder"
    );
}

#[test]
fn the_bytes_and_the_record_of_a_response() {
    let request = request::Message::from_tcp_stream(
        b"POST /upload HTTP/1.1\r\nUser-Agent: Mozilla/5.0 (X11; Linux x86_64), Gecko\r\n\r\n",
    )
    .unwrap();
    let response = response::Message::new(
        "HTTP/1.1".to_string(),
        "404 File Not Found".to_string(),
        TextMap::new(),
        b"0123456789ab".to_vec(),
    );
    let (bytes, log) = Dispatcher::answer(&request, "10.0.0.7:51234", response);
    assert_eq!(bytes, b"HTTP/1.1 404 File Not Found\r\n\r\n0123456789ab".to_vec());
    assert_eq!(
        log,
        "HTTP access - \"10.0.0.7:51234\",\"/upload\",\"Mozilla/5.0 (X11; Linux x86_64), Gecko\",\"\",\"404 File Not Found\",\"12\""
    );
}

#[test]
fn the_other_dispatchers_read_the_same_requests() {
    let config = settings();
    let mut dispatcher = PlainDispatcher::new();
    assert!(dispatcher.request_message.is_none());
    assert!(!dispatcher.matches(b"", &config));
    assert!(dispatcher.matches(b"GET / HTTP/1.0", &config));
    assert_eq!(
        dispatcher.request_message.unwrap().request_line.request_uri,
        "/"
    );
    let mut dispatcher = PlainDispatcher::new();
    assert!(!dispatcher.matches(b"GET / HTTP/9.9", &config));
    assert!(dispatcher.request_message.is_none());
}

#[test]
fn the_first_chunk_is_gathered_up_to_one_byte_beyond_the_limit() {
    let mut buffer: Vec<u8> = Vec::new();
    Gatherer::gather_first(&mut buffer, &[71, 0, 69, 84, 0, 0, 32, 47], 1024);
    assert_eq!(buffer, b"GET /".to_vec());
    let mut buffer: Vec<u8> = Vec::new();
    Gatherer::gather_first(&mut buffer, &[71, 0, 69, 84, 0, 0, 32, 47], 2);
    assert_eq!(buffer, b"GET".to_vec());
    let mut buffer: Vec<u8> = Vec::new();
    Gatherer::gather_first(&mut buffer, &[71, 69, 84], 0);
    assert_eq!(buffer, b"G".to_vec());
    let mut buffer: Vec<u8> = Vec::new();
    Gatherer::gather_first(&mut buffer, &[0, 0, 0], 0);
    assert!(buffer.is_empty());
    let mut buffer: Vec<u8> = Vec::new();
    Gatherer::gather_first(&mut buffer, &[], 5);
    assert!(buffer.is_empty());
}

#[test]
fn a_later_chunk_is_gathered_without_its_nul_bytes() {
    let mut buffer: Vec<u8> = b"GET".to_vec();
    Gatherer::gather(&mut buffer, &[0, 32, 0, 47, 0]);
    assert_eq!(buffer, b"GET /".to_vec());
    Gatherer::gather(&mut buffer, &[]);
    assert_eq!(buffer, b"GET /".to_vec());
}

#[test]
fn more_is_read_after_a_full_chunk_within_the_limit() {
    assert_eq!(CHUNK, 512);
    assert!(Gatherer::reads_on(512, 1024));
    assert!(!Gatherer::reads_on(511, 1024));
    assert!(!Gatherer::reads_on(512, 512));
    assert!(Gatherer::reads_further(512, 1024, 1024));
    assert!(!Gatherer::reads_further(512, 1025, 1024));
    assert!(!Gatherer::reads_further(100, 600, 1024));
}

#[test]
fn a_request_is_too_long_only_after_a_full_chunk() {
    assert!(Gatherer::exceeds(512, 1025, 1024));
    assert!(!Gatherer::exceeds(512, 1024, 1024));
    assert!(!Gatherer::exceeds(100, 1100, 1024));
    assert!(!Gatherer::exceeds(0, 2000, 1024));
}

#[test]
fn the_address_is_host_and_port() {
    assert_eq!(TCP::address(&settings()), "localhost:4040");
    let mut config = settings();
    config.server_host = "127.0.0.1".to_string();
    config.server_port = 0;
    assert_eq!(TCP::address(&config), "127.0.0.1:0");
}

#[test]
fn an_application_keeps_its_settings() {
    let application = Application::new(settings());
    assert_eq!(application.get_config().filesystem_root, "/srv/html");
    assert_eq!(application.get_config().server_port, 4040);
}

#[test]
fn the_chain_asks_each_responder_in_turn() {
    assert!(matches!(start(false, 3), Dispatch::Unmatched));
    assert!(matches!(start(true, 0), Dispatch::Unmatched));
    let state = start(true, 3);
    assert!(matches!(state, Dispatch::Parsed(0)));
    let state = next(state, Outcome::Matches(false), 3);
    assert!(matches!(state, Dispatch::Parsed(1)));
    let state = next(state, Outcome::Matches(true), 3);
    assert!(matches!(state, Dispatch::Matched(1)));
    let state = next(state, Outcome::Responds(Err("No result".to_string())), 3);
    assert!(matches!(state, Dispatch::Parsed(2)));
    let state = next(state, Outcome::Matches(true), 3);
    assert!(matches!(state, Dispatch::Matched(2)));
    let response = response::Message::new(
        "HTTP/1.1".to_string(),
        "200 OK".to_string(),
        TextMap::new(),
        Vec::new(),
    );
    let state = next(state, Outcome::Responds(Ok(response)), 3);
    match &state {
        Dispatch::Responded(response) => assert_eq!(response.status, "200 OK"),
        other => panic!("the dispatch ended with {:?}", other),
    }
    let state = next(state, Outcome::Matches(true), 3);
    assert!(matches!(state, Dispatch::Responded(_)));
    let state = next(Dispatch::Parsed(2), Outcome::Matches(false), 3);
    assert!(matches!(state, Dispatch::Unmatched));
    let state = next(Dispatch::Matched(2), Outcome::Responds(Err("No result".to_string())), 3);
    assert!(matches!(state, Dispatch::Unmatched));
    let state = next(Dispatch::Parsed(0), Outcome::Responds(Err("No result".to_string())), 3);
    assert!(matches!(state, Dispatch::Parsed(0)));
}
