use milstian_internet_framework::request::{
    HttpRequestMessage, HttpRequestMethod, HttpRequestProtocol,
};

#[test]
fn mod_test_get_message_body() {
    let response = HttpRequestMessage::get_message_body("random=abc&hej=def&def");
    assert!(response.is_some());

    let response_unwrapped = response.unwrap();
    assert_eq!(
        response_unwrapped
            .get(&"random".to_string())
            .unwrap()
            .to_string(),
        "abc".to_string()
    );
    assert_eq!(
        response_unwrapped
            .get(&"hej".to_string())
            .unwrap()
            .to_string(),
        "def".to_string()
    );
    assert_eq!(
        response_unwrapped
            .get(&"def".to_string())
            .unwrap()
            .to_string(),
        "1".to_string()
    );
    assert!(response_unwrapped.get(&"defs".to_string()).is_none());

    let response = HttpRequestMessage::get_message_body("");
    assert!(response.is_none());
}

#[test]
fn mod_test_get_header_field() {
    let response = HttpRequestMessage::get_header_field(
        "User-Agent: Mozilla/5.0 (X11; Linux x86_64; rv:12.0) Gecko/20100101 Firefox/12.0\r\n",
    );
    assert!(response.is_some());

    let (key, value) = response.unwrap();
    assert_eq!(key, "User-Agent".to_string());
    assert_eq!(
        value,
        "Mozilla/5.0 (X11; Linux x86_64; rv:12.0) Gecko/20100101 Firefox/12.0".to_string()
    );

    let response = HttpRequestMessage::get_header_field("Cache-Control: no-cache \r\n");
    assert!(response.is_some());

    let (key, value) = response.unwrap();
    assert_eq!(key, "Cache-Control".to_string());
    assert_eq!(value, "no-cache".to_string());

    let response = HttpRequestMessage::get_header_field("Just various text here\r\n");
    assert!(response.is_none());

    let response = HttpRequestMessage::get_header_field("");
    assert!(response.is_none());
}

#[test]
fn mod_test_get_request_line() {
    let response = HttpRequestMessage::get_request_line("POST /random?abc=test HTTP/0.9\r\n");
    assert!(response.is_some());

    let response_unpacked = response.unwrap();
    assert_eq!(response_unpacked.method, HttpRequestMethod::Post);
    assert_eq!(
        response_unpacked.request_uri,
        String::from("/random?abc=test")
    );
    assert_eq!(response_unpacked.request_uri_base, String::from("/random"));
    assert_eq!(response_unpacked.query_string, String::from("abc=test"));
    assert_eq!(
        response_unpacked
            .query_arguments
            .get(&"abc".to_string())
            .unwrap()
            .to_string(),
        String::from("test")
    );
    assert_eq!(response_unpacked.protocol, HttpRequestProtocol::ZeroDotNine);

    let response = HttpRequestMessage::get_request_line("GET / HTTP/1.0\r\n");
    assert!(response.is_some());

    let response_unpacked = response.unwrap();
    assert_eq!(response_unpacked.method, HttpRequestMethod::Get);
    assert_eq!(response_unpacked.request_uri, String::from("/"));
    assert_eq!(response_unpacked.request_uri_base, String::from("/"));
    assert_eq!(response_unpacked.query_string, String::from(""));
    assert_eq!(response_unpacked.protocol, HttpRequestProtocol::OneDotZero);

    let response =
        HttpRequestMessage::get_request_line("HEAD /moradish.html?test&abc=def HTTP/1.1\r\n");
    assert!(response.is_some());

    let response_unpacked = response.unwrap();
    assert_eq!(response_unpacked.method, HttpRequestMethod::Head);
    assert_eq!(
        response_unpacked.request_uri,
        String::from("/moradish.html?test&abc=def")
    );
    assert_eq!(
        response_unpacked.request_uri_base,
        String::from("/moradish.html")
    );
    assert_eq!(response_unpacked.query_string, String::from("test&abc=def"));
    assert_eq!(
        response_unpacked
            .query_arguments
            .get(&"test".to_string())
            .unwrap()
            .to_string(),
        String::from("1")
    );
    assert_eq!(
        response_unpacked
            .query_arguments
            .get(&"abc".to_string())
            .unwrap()
            .to_string(),
        String::from("def")
    );
    assert_eq!(response_unpacked.protocol, HttpRequestProtocol::OneDotOne);

    let response =
        HttpRequestMessage::get_request_line("OPTIONS /random/random2.txt HTTP/2.0\r\n");
    assert!(response.is_some());

    let response_unpacked = response.unwrap();
    assert_eq!(response_unpacked.method, HttpRequestMethod::Options);
    assert_eq!(
        response_unpacked.request_uri,
        String::from("/random/random2.txt")
    );
    assert_eq!(response_unpacked.protocol, HttpRequestProtocol::TwoDotZero);

    let response = HttpRequestMessage::get_request_line("GET / HTTP/2.2\r\n");
    assert!(response.is_none());
}

#[test]
fn mod_from_tcp_stream() {
    let response = HttpRequestMessage::from_tcp_stream(b"GET / HTTP/2.0\r\n");
    assert!(response.is_some());

    let response =
        HttpRequestMessage::from_tcp_stream(b"POST / HTTP/2.0\r\nAgent: Random browser\r\n");
    assert!(response.is_some());

    let response = HttpRequestMessage::from_tcp_stream(b"RANDOM /stuff HTTP/2.5\r\n");
    assert!(response.is_none());

    let response = HttpRequestMessage::from_tcp_stream(b"");
    assert!(response.is_none());
}

#[test]
fn a_plain_request_keeps_its_headers_and_the_arguments_of_its_body() {
    let message = HttpRequestMessage::from_tcp_stream(
        b"POST / HTTP/1.0\r\nAgent: Random browser\r\n\r\ntest=abc",
    )
    .unwrap();
    assert_eq!(message.request_line.method, HttpRequestMethod::Post);
    assert_eq!(message.request_line.protocol, HttpRequestProtocol::OneDotZero);
    assert_eq!(message.headers.len(), 1);
    assert_eq!(message.headers.get("Agent"), Some(&"Random browser".to_string()));
    assert_eq!(message.body.len(), 1);
    assert_eq!(message.body.get("test"), Some(&"abc".to_string()));

    let message = HttpRequestMessage::from_tcp_stream(
        b"POST /a?x=1&y HTTP/1.1\r\nHost: localhost:8888\r\nAccept: text/html; q=0.9\r\nHost: other\r\n\r\na=b\r\n",
    )
    .unwrap();
    assert_eq!(message.request_line.protocol, HttpRequestProtocol::OneDotOne);
    assert_eq!(message.request_line.request_uri_base, "/a");
    assert_eq!(message.request_line.query_string, "x=1&y");
    assert_eq!(message.request_line.query_arguments.get("y"), Some(&"1".to_string()));
    assert_eq!(message.headers.len(), 2);
    assert_eq!(message.headers.get("Host"), Some(&"other".to_string()));
    assert_eq!(message.headers.get("Accept"), Some(&"text/html; q=0.9".to_string()));
    assert_eq!(message.body.get("a"), Some(&"b".to_string()));
}

#[test]
fn a_plain_request_is_read_as_every_request() {
    let message =
        HttpRequestMessage::from_tcp_stream(b"GET / HTTP/1.0\r\nno colon\r\nA: 1\r\n\r\n").unwrap();
    assert_eq!(message.headers.len(), 1);
    let message = HttpRequestMessage::from_tcp_stream(b"/index.html\r\n").unwrap();
    assert_eq!(message.request_line.method, HttpRequestMethod::Get);
    assert_eq!(message.request_line.protocol, HttpRequestProtocol::ZeroDotNine);
    assert_eq!(message.request_line.request_uri, "/index.html");
    assert!(HttpRequestMessage::from_tcp_stream(b"\r\nGET / HTTP/1.0\r\n").is_none());
    assert!(HttpRequestMessage::from_tcp_stream(b"GET /\r\n").is_none());
    let message =
        HttpRequestMessage::from_tcp_stream("GET /gr\u{fc}n HTTP/1.0\r\n".as_bytes()).unwrap();
    assert_eq!(message.request_line.request_uri, "/gr\u{fc}n");
    assert!(HttpRequestMessage::from_tcp_stream(&[71, 69, 84, 32, 47, 32, 0xff]).is_none());
    let message = HttpRequestMessage::from_tcp_stream(b"HEAD / HTTP/1.0\r\n\r\na=b").unwrap();
    assert!(message.body.is_empty());
}

#[test]
fn a_plain_request_line_is_a_request_line() {
    let line = HttpRequestMessage::get_request_line("GET /a? HTTP/1.0").unwrap();
    assert_eq!(line.query_string, "");
    assert!(line.query_arguments.is_empty());
    let line = HttpRequestMessage::get_request_line("/a?b").unwrap();
    assert_eq!(line.method, HttpRequestMethod::Get);
    assert_eq!(line.protocol, HttpRequestProtocol::ZeroDotNine);
    assert_eq!(line.request_uri_base, "/a");
    assert_eq!(line.query_arguments.get("b"), Some(&"1".to_string()));
    assert!(HttpRequestMessage::get_request_line("").is_none());
    assert!(HttpRequestMessage::get_request_line("GET /").is_none());
    let (key, value) = HttpRequestMessage::get_header_field("Accept: a;b , c=d").unwrap();
    assert_eq!(key, "Accept");
    assert_eq!(value, "a; b, c=d");
}
