use milstian_internet_framework::request::http::{RequestMessage, RequestMethod, RequestProtocol};

#[test]
fn http_test_get_message_body() {
    let response = RequestMessage::get_message_body("random=abc&hej=def&def");
    assert!(response.is_some());

    let response_unwrapped = response.unwrap();
    assert_eq!(
        response_unwrapped
            .get(&"random".to_string())
            .unwrap()
            .to_string(),
        "abc".to_string()
    );
    assert_eq!(
        response_unwrapped
            .get(&"hej".to_string())
            .unwrap()
            .to_string(),
        "def".to_string()
    );
    assert_eq!(
        response_unwrapped
            .get(&"def".to_string())
            .unwrap()
            .to_string(),
        "1".to_string()
    );
    assert!(response_unwrapped.get(&"defs".to_string()).is_none());

    let response = RequestMessage::get_message_body("");
    assert!(response.is_none());
}

#[test]
fn http_test_get_header_field() {
    let response = RequestMessage::get_header_field(
        "User-Agent: Mozilla/5.0 (X11; Linux x86_64; rv:12.0) Gecko/20100101 Firefox/12.0\r\n",
    );
    assert!(response.is_some());

    let (key, value) = response.unwrap();
    assert_eq!(key, "User-Agent".to_string());
    assert_eq!(
        value,
        "Mozilla/5.0 (X11; Linux x86_64; rv:12.0) Gecko/20100101 Firefox/12.0".to_string()
    );

    let response = RequestMessage::get_header_field("Cache-Control: no-cache \r\n");
    assert!(response.is_some());

    let (key, value) = response.unwrap();
    assert_eq!(key, "Cache-Control".to_string());
    assert_eq!(value, "no-cache".to_string());

    let response = RequestMessage::get_header_field("Just various text here\r\n");
    assert!(response.is_none());

    let response = RequestMessage::get_header_field("");
    assert!(response.is_none());
}

#[test]
fn http_test_get_request_line() {
    let response = RequestMessage::get_request_line("POST /random?abc=test HTTP/0.9\r\n");
    assert!(response.is_some());

    let response_unpacked = response.unwrap();
    assert_eq!(response_unpacked.method, RequestMethod::Post);
    assert_eq!(
        response_unpacked.request_uri,
        String::from("/random?abc=test")
    );
    assert_eq!(response_unpacked.request_uri_base, String::from("/random"));
    assert_eq!(response_unpacked.query_string, String::from("abc=test"));
    assert_eq!(
        response_unpacked
            .query_arguments
            .get(&"abc".to_string())
            .unwrap()
            .to_string(),
        String::from("test")
    );
    assert_eq!(response_unpacked.protocol, RequestProtocol::ZeroDotNine);

    let response = RequestMessage::get_request_line("GET / HTTP/1.0\r\n");
    assert!(response.is_some());

    let response_unpacked = response.unwrap();
    assert_eq!(response_unpacked.method, RequestMethod::Get);
    assert_eq!(response_unpacked.request_uri, String::from("/"));
    assert_eq!(response_unpacked.request_uri_base, String::from("/"));
    assert_eq!(response_unpacked.query_string, String::from(""));
    assert_eq!(response_unpacked.protocol, RequestProtocol::OneDotZero);

    let response =
        RequestMessage::get_request_line("HEAD /moradish.html?test&abc=def HTTP/1.1\r\n");
    assert!(response.is_some());

    let response_unpacked = response.unwrap();
    assert_eq!(response_unpacked.method, RequestMethod::Head);
    assert_eq!(
        response_unpacked.request_uri,
        String::from("/moradish.html?test&abc=def")
    );
    assert_eq!(
        response_unpacked.request_uri_base,
        String::from("/moradish.html")
    );
    assert_eq!(response_unpacked.query_string, String::from("test&abc=def"));
    assert_eq!(
        response_unpacked
            .query_arguments
            .get(&"test".to_string())
            .unwrap()
            .to_string(),
        String::from("1")
    );
    assert_eq!(
        response_unpacked
            .query_arguments
            .get(&"abc".to_string())
            .unwrap()
            .to_string(),
        String::from("def")
    );
    assert_eq!(response_unpacked.protocol, RequestProtocol::OneDotOne);

    let response =
        RequestMessage::get_request_line("OPTIONS /random/random2.txt HTTP/2.0\r\n");
    assert!(response.is_some());

    let response_unpacked = response.unwrap();
    assert_eq!(response_unpacked.method, RequestMethod::Options);
    assert_eq!(
        response_unpacked.request_uri,
        String::from("/random/random2.txt")
    );
    assert_eq!(response_unpacked.protocol, RequestProtocol::TwoDotZero);

    let response = RequestMessage::get_request_line("GET / HTTP/2.2\r\n");
    assert!(response.is_none());
}

#[test]
fn http_from_tcp_stream() {
    // GET request with no headers or body
    let response = RequestMessage::from_tcp_stream(b"GET / HTTP/2.0\r\n");
    assert!(response.is_some());
    let response_unwrapped = response.unwrap();
    assert_eq!(
        response_unwrapped.request_line.method,
        RequestMethod::Get
    );
    assert_eq!(response_unwrapped.request_line.request_uri, "/".to_string());
    assert_eq!(
        response_unwrapped.request_line.protocol,
        RequestProtocol::TwoDotZero
    );

    // POST request with random header
    let response = RequestMessage::from_tcp_stream(
        b"POST / HTTP/1.0\r\nAgent: Random browser\r\n\r\ntest=abc",
    );
    assert!(response.is_some());
    let response_unwrapped = response.unwrap();
    assert_eq!(
        response_unwrapped.request_line.method,
        RequestMethod::Post
    );
    assert_eq!(
        response_unwrapped.request_line.protocol,
        RequestProtocol::OneDotZero
    );
    assert_eq!(
        response_unwrapped
            .headers
            .get(&"Agent".to_string())
            .unwrap()
            .to_string(),
        "Random browser".to_string()
    );
    assert_eq!(
        response_unwrapped
            .body
            .get(&"test".to_string())
            .unwrap()
            .to_string(),
        "abc".to_string()
    );

    // Two invalid  requests
    let response = RequestMessage::from_tcp_stream(b"RANDOM /stuff HTTP/2.5\r\n");
    assert!(response.is_none());
    let response = RequestMessage::from_tcp_stream(b"");
    assert!(response.is_none());

    // Get requests should get their message body parsed
    let response = RequestMessage::from_tcp_stream(b"GET / HTTP/2.0\r\n\r\nabc=123");
    assert!(response.is_some());
    let response_unwrapped = response.unwrap();
    assert_eq!(
        response_unwrapped
            .body
            .get(&"abc".to_string())
            .unwrap()
            .to_string(),
        "123".to_string()
    );

    // HEAD requests should not get their message body parsed
    let response = RequestMessage::from_tcp_stream(b"HEAD / HTTP/2.0\r\n\r\nabc=123");
    assert!(response.is_some());
    let response_unwrapped = response.unwrap();
    assert!(response_unwrapped.body.get(&"abc".to_string()).is_none());

    let response = RequestMessage::from_tcp_stream(b"html/index.html\r\n");
    assert!(response.is_some());
    let response_unwrapped = response.unwrap();
    assert_eq!(
        response_unwrapped.request_line.method,
        RequestMethod::Get
    );
    assert_eq!(
        response_unwrapped.request_line.request_uri,
        "html/index.html".to_string()
    );
    assert_eq!(
        response_unwrapped.request_line.protocol,
        RequestProtocol::ZeroDotNine
    );
}

#[test]
fn the_protocol_is_named_in_full() {
    assert!(RequestMessage::get_request_line("POST /random?abc=test /0.9\r\n").is_none());
    assert!(RequestMessage::get_request_line("GET / /1.0\r\n").is_none());
    assert!(RequestMessage::get_request_line("HEAD /moradish.html?test&abc=def /1.1\r\n").is_none());
    assert!(RequestMessage::get_request_line("OPTIONS /random/random2.txt /2.0\r\n").is_none());
    assert!(RequestMessage::get_request_line("GET / /2.2\r\n").is_none());
    assert!(RequestMessage::from_tcp_stream(b"GET / /2.0\r\n").is_none());
    assert!(RequestMessage::from_tcp_stream(b"POST / /1.0\r\nAgent: Random browser\r\n\r\ntest=abc").is_none());
    assert!(RequestMessage::from_tcp_stream(b"RANDOM /stuff /2.5\r\n").is_none());
    let line = RequestMessage::get_request_line("GET / HTTP/1.0\r\n").unwrap();
    assert_eq!(line.method, RequestMethod::Get);
    assert_eq!(line.protocol, RequestProtocol::OneDotZero);
    assert_eq!(line.request_uri, "/");
    assert_eq!(line.query_string, "");
    assert!(line.query_arguments.is_empty());
}

#[test]
fn a_request_of_text_is_read_as_every_request() {
    let message = RequestMessage::from_tcp_stream(
        b"POST /a?x=1 HTTP/1.1\r\nA: 1\r\nno colon here\r\nAccept: text/html;q=0.9 , */*\r\nA: 2\r\n\r\na=1\r\nb=2&c\r\n",
    )
    .unwrap();
    assert_eq!(message.request_line.protocol, RequestProtocol::OneDotOne);
    assert_eq!(message.request_line.query_arguments.get("x"), Some(&"1".to_string()));
    assert_eq!(message.headers.len(), 2);
    assert_eq!(message.headers.get("A"), Some(&"2".to_string()));
    assert_eq!(
        message.headers.get("Accept"),
        Some(&"text/html; q=0.9, */*".to_string())
    );
    assert_eq!(message.body.len(), 2);
    assert_eq!(message.body.get("b"), Some(&"2".to_string()));
    assert_eq!(message.body.get("c"), Some(&"1".to_string()));
    assert!(message.body.get("a").is_none());
    let message = RequestMessage::from_tcp_stream(b"DELETE / HTTP/1.1\r\n\r\na=1\r\n").unwrap();
    assert!(message.body.is_empty());
    let message = RequestMessage::from_tcp_stream(b"POST / HTTP/1.1\r\nA: 1\r\n").unwrap();
    assert!(message.body.is_empty());
    let message = RequestMessage::from_tcp_stream(
        b"POST / HTTP/1.1\r\nContent-Type: multipart/form-data; boundary=b0\r\n\r\n--b0\r\nContent-Disposition: form-data; name=\"a\"\r\n\r\nx\r\n--b0--\r\n",
    )
    .unwrap();
    assert!(message.body.is_empty());
}

#[test]
fn a_request_of_text_needs_a_request_line() {
    assert!(RequestMessage::from_tcp_stream(b"GET /\r\n").is_none());
    assert!(RequestMessage::from_tcp_stream(b"  \r\n").is_none());
    assert!(RequestMessage::get_request_line("").is_none());
    assert!(RequestMessage::from_tcp_stream(b"GET / HTTP/1.0\r\nno colon\r\n\r\n").is_some());
    let message = RequestMessage::from_tcp_stream("GET /gr\u{fc}n HTTP/1.0\r\n".as_bytes()).unwrap();
    assert_eq!(message.request_line.request_uri, "/gr\u{fc}n");
    let (key, value) = RequestMessage::get_header_field("Accept: a;b , c=d").unwrap();
    assert_eq!(key, "Accept");
    assert_eq!(value, "a; b, c=d");
}

#[test]
fn the_methods_of_a_request_of_text_have_the_same_properties() {
    let methods = [
        RequestMethod::Connect,
        RequestMethod::Delete,
        RequestMethod::Get,
        RequestMethod::Head,
        RequestMethod::Options,
        RequestMethod::Patch,
        RequestMethod::Post,
        RequestMethod::Put,
        RequestMethod::Trace,
        RequestMethod::Invalid,
    ];
    for method in methods.iter() {
        assert_eq!(
            RequestMessage::_method_has_response_body(method),
            *method != RequestMethod::Head
        );
        assert_eq!(
            RequestMessage::_method_is_cacheable(method),
            matches!(method, RequestMethod::Get | RequestMethod::Head | RequestMethod::Post)
        );
        assert_eq!(
            RequestMessage::_method_is_idempotent(method),
            !matches!(method, RequestMethod::Connect | RequestMethod::Patch | RequestMethod::Post)
        );
        assert_eq!(
            RequestMessage::_method_is_safe(method),
            matches!(
                method,
                RequestMethod::Get
                    | RequestMethod::Head
                    | RequestMethod::Options
                    | RequestMethod::Trace
                    | RequestMethod::Invalid
            )
        );
    }
    assert!(RequestMessage::get_query_args_from_string("").is_none());
    assert_eq!(
        RequestMessage::get_query_args_from_string("a=b").unwrap().get("a"),
        Some(&"b".to_string())
    );
}
