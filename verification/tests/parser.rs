use milstian_internet_framework::application_layer::http::request::{
    BodyContentType, HeaderValuePart, HeaderValueParts, Message, Method, Protocol, SettingValence,
};

fn single(message: &Message) -> Vec<(String, String)> {
    match &message.body {
        BodyContentType::SinglePart(arguments) => (0..arguments.len())
            .map(|place| {
                let key = arguments.key_at(place).clone();
                let value = arguments.get(&key).unwrap().clone();
                (key, value)
            })
            .collect(),
        BodyContentType::MultiPart(_) => panic!("the body is in parts"),
    }
}

fn part(message: &Message, name: &str) -> Option<Vec<u8>> {
    match &message.body {
        BodyContentType::MultiPart(parts) => parts.get(name).map(|value| value.body.clone()),
        BodyContentType::SinglePart(_) => panic!("the body is not in parts"),
    }
}

#[test]
fn every_known_method_and_protocol_makes_a_request_line() {
    let methods = [
        ("CONNECT", Method::Connect),
        ("DELETE", Method::Delete),
        ("GET", Method::Get),
        ("HEAD", Method::Head),
        ("OPTIONS", Method::Options),
        ("PATCH", Method::Patch),
        ("POST", Method::Post),
        ("PUT", Method::Put),
        ("TRACE", Method::Trace),
    ];
    let protocols = [
        ("HTTP/0.9", Protocol::V0_9),
        ("HTTP/1.0", Protocol::V1_0),
        ("HTTP/1.1", Protocol::V1_1),
        ("HTTP/2.0", Protocol::V2_0),
    ];
    for (method_text, method) in methods.iter() {
        for (protocol_text, protocol) in protocols.iter() {
            let line = format!("{} /a/b.html?x=1&y {}", method_text, protocol_text);
            let parsed = Message::get_request_line(&line).unwrap();
            assert_eq!(parsed.method, *method);
            assert_eq!(parsed.protocol, *protocol);
            assert_eq!(parsed.request_uri, "/a/b.html?x=1&y");
            assert_eq!(parsed.request_uri_base, "/a/b.html");
            assert_eq!(parsed.query_string, "x=1&y");
            assert_eq!(parsed.query_arguments.get("x"), Some(&"1".to_string()));
            assert_eq!(parsed.query_arguments.get("y"), Some(&"1".to_string()));
            assert_eq!(parsed.query_arguments.len(), 2);
            assert_eq!(Message::get_protocol_text(protocol), *protocol_text);
        }
    }
    assert_eq!(Message::get_protocol_text(&Protocol::Invalid), "INVALID");
}

#[test]
fn the_uri_is_split_at_its_first_question_mark() {
    let parsed = Message::get_request_line("GET /a?b?c=d HTTP/1.1").unwrap();
    assert_eq!(parsed.request_uri_base, "/a");
    assert_eq!(parsed.query_string, "b?c=d");
    assert_eq!(parsed.query_arguments.get("b?c"), Some(&"d".to_string()));
    let parsed = Message::get_request_line("GET /a? HTTP/1.1").unwrap();
    assert_eq!(parsed.request_uri_base, "/a");
    assert_eq!(parsed.query_string, "");
    assert!(parsed.query_arguments.is_empty());
}

#[test]
fn a_request_line_has_three_tokens_or_one() {
    assert!(Message::get_request_line("GET /").is_none());
    assert!(Message::get_request_line("GET / HTTP/1.0 extra").is_none());
    assert!(Message::get_request_line("GET  / HTTP/1.0").is_none());
    assert!(Message::get_request_line("").is_none());
    assert!(Message::get_request_line("   ").is_none());
    assert!(Message::get_request_line("\0\0").is_none());
    assert!(Message::get_request_line("get / HTTP/1.0").is_none());
    assert!(Message::get_request_line("GET / http/1.0").is_none());
    assert!(Message::get_request_line("GET / HTTP/2.2").is_none());
    assert!(Message::get_request_line("RANDOM / HTTP/1.1").is_none());
    let parsed = Message::get_request_line("  /index.html?a=b\0\0 ").unwrap();
    assert_eq!(parsed.method, Method::Get);
    assert_eq!(parsed.protocol, Protocol::V0_9);
    assert_eq!(parsed.request_uri, "/index.html?a=b");
    assert_eq!(parsed.request_uri_base, "/index.html");
    assert_eq!(parsed.query_arguments.get("a"), Some(&"b".to_string()));
}

#[test]
fn later_arguments_overwrite_earlier_ones() {
    let arguments = Message::get_query_args_from_string("a=1&b=2&a=3&c=x=y&&d=").unwrap();
    assert_eq!(arguments.get("a"), Some(&"3".to_string()));
    assert_eq!(arguments.get("b"), Some(&"2".to_string()));
    assert_eq!(arguments.get("c"), Some(&"1".to_string()));
    assert_eq!(arguments.get(""), Some(&"1".to_string()));
    assert_eq!(arguments.get("d"), Some(&"".to_string()));
    assert_eq!(arguments.len(), 5);
    assert!(Message::get_query_args_from_string("").is_none());
}

#[test]
fn a_header_value_has_blocks_and_sub_parts() {
    let (key, value) =
        Message::get_header_field(" Accept : text/html , application/xml;q=0.9, */* ; level = 1 ")
            .unwrap();
    assert_eq!(key, "Accept");
    assert_eq!(value.parts.len(), 3);
    assert!(matches!(&value.parts[0][0], HeaderValuePart::Single(token) if token == "text/html"));
    assert!(matches!(&value.parts[0][1], HeaderValuePart::Single(token) if token == "application/xml"));
    assert!(matches!(&value.parts[1][0], HeaderValuePart::KeyValue(k, v) if k == "q" && v == "0.9"));
    assert!(matches!(&value.parts[1][1], HeaderValuePart::Single(token) if token == "*/*"));
    assert!(matches!(&value.parts[2][0], HeaderValuePart::KeyValue(k, v) if k == "level" && v == "1"));
    assert_eq!(value.to_string(), "text/html, application/xml; q=0.9, */*; level=1");
    assert_eq!(value.get_key_value("q"), Some("0.9".to_string()));
    assert_eq!(value.get_key_value("level"), Some("1".to_string()));
    assert_eq!(value.get_key_value("text/html"), None);
}

#[test]
fn the_first_sub_part_with_a_key_is_looked_up() {
    let (_, value) = Message::get_header_field("X: a=1, b=2; a=3; b=4=5").unwrap();
    assert_eq!(value.get_key_value("a"), Some("1".to_string()));
    assert_eq!(value.get_key_value("b"), Some("2".to_string()));
    let (_, value) = Message::get_header_field("X: a; b; a=x").unwrap();
    assert_eq!(value.get_key_value("a"), Some("x".to_string()));
    let value = HeaderValueParts { parts: Vec::new() };
    assert_eq!(value.get_key_value("a"), None);
    assert_eq!(value.to_string(), "");
}

#[test]
fn a_header_line_is_split_at_its_first_colon() {
    let (key, value) = Message::get_header_field("Host: localhost:8888").unwrap();
    assert_eq!(key, "Host");
    assert_eq!(value.to_string(), "localhost:8888");
    let (key, value) = Message::get_header_field("Empty:").unwrap();
    assert_eq!(key, "Empty");
    assert_eq!(value.to_string(), "");
    let (key, _) = Message::get_header_field(":").unwrap();
    assert_eq!(key, "");
    assert!(Message::get_header_field("   ").is_none());
}

#[test]
fn each_method_has_its_properties() {
    let methods = [
        Method::Connect,
        Method::Delete,
        Method::Get,
        Method::Head,
        Method::Options,
        Method::Patch,
        Method::Post,
        Method::Put,
        Method::Trace,
        Method::Invalid,
    ];
    let body = [
        SettingValence::Yes,
        SettingValence::No,
        SettingValence::Optional,
        SettingValence::No,
        SettingValence::Optional,
        SettingValence::Yes,
        SettingValence::Yes,
        SettingValence::Yes,
        SettingValence::Yes,
        SettingValence::Optional,
    ];
    let response = [true, true, true, false, true, true, true, true, true, true];
    let safe = [false, false, true, true, true, false, false, false, true, true];
    let idempotent = [false, true, true, true, true, false, false, true, true, true];
    let cacheable = [false, false, true, true, false, false, true, false, false, false];
    for place in 0..methods.len() {
        assert_eq!(Message::method_has_request_body(&methods[place]), body[place]);
        assert_eq!(Message::_method_has_response_body(&methods[place]), response[place]);
        assert_eq!(Message::_method_is_safe(&methods[place]), safe[place]);
        assert_eq!(Message::_method_is_idempotent(&methods[place]), idempotent[place]);
        assert_eq!(Message::_method_is_cacheable(&methods[place]), cacheable[place]);
    }
}

#[test]
fn a_request_with_one_line_of_arguments() {
    let message =
        Message::from_tcp_stream(b"POST / HTTP/1.0\r\nAgent: Random browser\r\n\r\ntest=abc")
            .unwrap();
    assert_eq!(message.request_line.method, Method::Post);
    assert_eq!(message.request_line.protocol, Protocol::V1_0);
    assert_eq!(message.headers.len(), 1);
    assert_eq!(message.headers.get("Agent").unwrap().to_string(), "Random browser");
    assert_eq!(single(&message), vec![("test".to_string(), "abc".to_string())]);
}

#[test]
fn a_request_line_with_a_bare_flag() {
    let message = Message::from_tcp_stream(b"HEAD /x.html?test&abc=def HTTP/1.1").unwrap();
    let arguments = &message.request_line.query_arguments;
    assert_eq!(arguments.len(), 2);
    assert_eq!(arguments.get("test"), Some(&"1".to_string()));
    assert_eq!(arguments.get("abc"), Some(&"def".to_string()));
}

#[test]
fn a_body_in_parts_between_boundary_lines() {
    let message = Message::from_tcp_stream(
        b"POST /upload HTTP/1.1\r\nContent-Type: multipart/form-data; boundary=XYZ\r\n\r\n--XYZ\r\nContent-Disposition: form-data; name=\"file\"; filename=\"a.csv\"\r\n\r\na,b\n1,2\r\n--XYZ--\r\n",
    )
    .unwrap();
    assert_eq!(part(&message, "file"), Some(b"a,b\n1,2".to_vec()));
    match &message.body {
        BodyContentType::MultiPart(parts) => {
            assert_eq!(parts.len(), 1);
            let value = parts.get("file").unwrap();
            assert_eq!(
                value.headers.get("Content-Disposition").unwrap().to_string(),
                "form-data; name=\"file\"; filename=\"a.csv\""
            );
            assert_eq!(
                value.headers.get("Content-Disposition").unwrap().get_key_value("filename"),
                Some("\"a.csv\"".to_string())
            );
        }
        BodyContentType::SinglePart(_) => panic!("the body is not in parts"),
    }
}

#[test]
fn a_boundary_line_may_be_the_boundary_alone() {
    let message = Message::from_tcp_stream(
        b"POST /upload HTTP/1.1\r\nContent-Type: multipart/form-data; boundary=XYZ\r\n\r\nXYZ\r\nContent-Disposition: form-data; name=\"file\"; filename=\"a.csv\"\r\n\r\na,b\n1,2\r\nXYZ--\r\n",
    )
    .unwrap();
    assert_eq!(part(&message, "file"), Some(b"a,b\n1,2".to_vec()));
}

#[test]
fn each_boundary_ends_a_part_and_begins_the_next() {
    let message = Message::from_tcp_stream(
        b"POST / HTTP/1.1\r\nContent-Type: multipart/form-data; boundary=b0\r\n\r\n--b0\r\nContent-Disposition: form-data; name=\"one\"\r\n\r\nfirst\r\nline\r\n--b0\r\nContent-Disposition: form-data; name=\"two\"\r\nContent-Type: application/octet-stream\r\n\r\n\xff\xfe\x01\r\n--b0\r\nContent-Disposition: form-data; name=\"three\"\r\n\r\n3\r\n--b0--\r\n",
    )
    .unwrap();
    assert_eq!(part(&message, "one"), Some(b"first\r\nline".to_vec()));
    assert_eq!(part(&message, "two"), Some(vec![0xff, 0xfe, 0x01]));
    assert_eq!(part(&message, "three"), Some(b"3".to_vec()));
}

#[test]
fn a_part_without_a_name_or_without_bytes_is_dropped() {
    let message = Message::from_tcp_stream(
        b"POST / HTTP/1.1\r\nContent-Type: multipart/form-data; boundary=b0\r\n\r\n--b0\r\nContent-Disposition: form-data\r\n\r\nnameless\r\n--b0\r\nContent-Disposition: form-data; name=\"\"\r\n\r\nquoted\r\n--b0\r\nContent-Disposition: form-data; name=\"empty\"\r\n\r\n\r\n--b0\r\nContent-Disposition: form-data; name=\"kept\"\r\n\r\nx\r\n--b0--\r\n",
    )
    .unwrap();
    match &message.body {
        BodyContentType::MultiPart(parts) => {
            assert_eq!(parts.len(), 1);
            assert_eq!(parts.get("kept").unwrap().body, b"x".to_vec());
        }
        BodyContentType::SinglePart(_) => panic!("the body is not in parts"),
    }
}

#[test]
fn a_part_that_no_boundary_ends_is_not_kept() {
    let message = Message::from_tcp_stream(
        b"POST / HTTP/1.1\r\nContent-Type: multipart/form-data; boundary=b0\r\n\r\n--b0\r\nContent-Disposition: form-data; name=\"cut\"\r\n\r\nthe bytes end he",
    )
    .unwrap();
    assert_eq!(part(&message, "cut"), None);
    let message = Message::from_tcp_stream(
        b"POST / HTTP/1.1\r\nContent-Type: multipart/form-data; boundary=b0\r\n\r\n--b0\r\nContent-Disposition: form-data; name=\"cut\"\r\n\r\nab\0cd\r\n--b0--\r\n",
    )
    .unwrap();
    assert_eq!(part(&message, "cut"), None);
}

#[test]
fn a_method_without_a_body_ends_the_request_at_the_blank_line() {
    for method in ["HEAD", "DELETE"].iter() {
        let request = format!(
            "{} / HTTP/1.1\r\nContent-Type: multipart/form-data; boundary=b0\r\n\r\nb0\r\nContent-Disposition: form-data; name=\"a\"\r\n\r\nx\r\nb0--\r\nLate: header\r\n",
            method
        );
        let message = Message::from_tcp_stream(request.as_bytes()).unwrap();
        assert!(single(&message).is_empty());
        assert_eq!(message.headers.len(), 1);
    }
    let message = Message::from_tcp_stream(b"OPTIONS / HTTP/1.1\r\n\r\na=b").unwrap();
    assert_eq!(single(&message), vec![("a".to_string(), "b".to_string())]);
}

#[test]
fn the_last_header_of_a_key_is_kept_and_a_line_without_colon_is_passed_over() {
    let message = Message::from_tcp_stream(
        b"GET / HTTP/1.1\r\nA: 1\r\nno colon here\r\nB: 2\r\nA: 3\r\n\r\n",
    )
    .unwrap();
    assert_eq!(message.headers.len(), 2);
    assert_eq!(message.headers.get("A").unwrap().to_string(), "3");
    assert_eq!(message.headers.get("B").unwrap().to_string(), "2");
}

#[test]
fn a_line_that_is_not_utf8_is_passed_over() {
    let message = Message::from_tcp_stream(
        b"POST / HTTP/1.1\r\nA: 1\r\nBad: \xff\xfe\r\nB: 2\r\n\r\nx=\xff\r\ny=2",
    )
    .unwrap();
    assert_eq!(message.headers.len(), 2);
    assert!(message.headers.get("Bad").is_none());
    assert_eq!(message.headers.get("B").unwrap().to_string(), "2");
    assert_eq!(single(&message), vec![("y".to_string(), "2".to_string())]);
    assert!(Message::from_tcp_stream(b"GET /\xff HTTP/1.1\r\nA: 1\r\n\r\n").is_none());
}

#[test]
fn the_last_body_line_is_the_body() {
    let message =
        Message::from_tcp_stream(b"POST / HTTP/1.1\r\n\r\na=1&b=2\r\n\r\nc=3\r\n").unwrap();
    assert_eq!(single(&message), vec![("c".to_string(), "3".to_string())]);
}

#[test]
fn a_nul_byte_ends_the_request() {
    let message = Message::from_tcp_stream(b"GET / HTTP/1.1\r\nA: 1\r\nB: 2\0\r\nC: 3\r\n\r\n").unwrap();
    assert_eq!(message.headers.len(), 2);
    assert_eq!(message.headers.get("B").unwrap().to_string(), "2");
    let message = Message::from_tcp_stream(b"/path\0GET / HTTP/1.1").unwrap();
    assert_eq!(message.request_line.request_uri, "/path");
    assert_eq!(message.request_line.protocol, Protocol::V0_9);
    assert!(Message::from_tcp_stream(b"\0GET / HTTP/1.1").is_none());
}

#[test]
fn a_first_line_that_is_no_request_line_leaves_no_request() {
    assert!(Message::from_tcp_stream(b"").is_none());
    assert!(Message::from_tcp_stream(b"GET /").is_none());
    assert!(Message::from_tcp_stream(b"GET /\r\n").is_none());
    assert!(Message::from_tcp_stream(b"\r\nGET / HTTP/1.1\r\n").is_none());
    assert!(Message::from_tcp_stream(b"BAD LINE HERE\r\nGET / HTTP/1.1\r\n").is_none());
    assert!(Message::from_tcp_stream(b"GET / HTTP/2.2\r\nHost: a\r\n\r\n").is_none());
    assert!(Message::from_tcp_stream(b"GET / HTTP/1.1\r").is_none());
}

#[test]
fn a_line_feed_alone_ends_no_line() {
    let message = Message::from_tcp_stream(b"GET / HTTP/1.1\n").unwrap();
    assert_eq!(message.request_line.protocol, Protocol::V1_1);
    assert!(Message::from_tcp_stream(b"GET / HTTP/1.1\nHost: a\n\n").is_none());
}

#[test]
fn reading_the_same_bytes_twice_gives_the_same_request() {
    let request: &[u8] = b"POST /a?x=1 HTTP/1.1\r\nContent-Type: multipart/form-data; boundary=b0\r\nB: 2\r\n\r\n--b0\r\nContent-Disposition: form-data; name=\"one\"\r\n\r\nfirst\r\n--b0--\r\n";
    let first = Message::from_tcp_stream(request).unwrap();
    let second = Message::from_tcp_stream(request).unwrap();
    assert_eq!(format!("{:?}", first), format!("{:?}", second));
}

#[test]
fn a_part_may_end_in_an_empty_line() {
    let message = Message::from_tcp_stream(
        b"POST / HTTP/1.1\r\nContent-Type: multipart/form-data; boundary=b0\r\n\r\n--b0\r\nContent-Disposition: form-data; name=\"text\"\r\n\r\nline one\r\nline two\r\n\r\n--b0--\r\n",
    )
    .unwrap();
    assert_eq!(part(&message, "text"), Some(b"line one\r\nline two\r\n".to_vec()));
}

#[test]
fn a_boundary_after_a_line_feed_alone_ends_no_part() {
    let message = Message::from_tcp_stream(
        b"POST / HTTP/1.1\r\nContent-Type: multipart/form-data; boundary=b0\r\n\r\n--b0\r\nContent-Disposition: form-data; name=\"text\"\r\n\r\na\rb\n--b0\nc\r\n--b0--\r\n",
    )
    .unwrap();
    assert_eq!(part(&message, "text"), Some(b"a\rb\n--b0\nc".to_vec()));
}

#[test]
fn a_line_that_only_begins_like_the_boundary_is_part_of_the_bytes() {
    let message = Message::from_tcp_stream(
        b"POST / HTTP/1.1\r\nContent-Type: multipart/form-data; boundary=bound\r\n\r\n--bound\r\nContent-Disposition: form-data; name=\"text\"\r\n\r\n--bou\r\nbo\r\n-\r\n--bound--\r\n",
    )
    .unwrap();
    assert_eq!(part(&message, "text"), Some(b"--bou\r\nbo\r\n-".to_vec()));
}

#[test]
fn a_header_value_is_read_as_it_was_written() {
    let lines = [
        "Content-Type: multipart/form-data; boundary=XYZ",
        "Accept: text/html, application/xml; q=0.9, */*; level=1",
        "Content-Disposition: form-data; name=\"file\"; filename=\"a=b.csv\"",
        "X-Empty: ",
        "X-One: a",
        "Cache-Control: no-cache",
    ];
    for line in lines.iter() {
        let (key, value) = Message::get_header_field(line).unwrap();
        let written = format!("{}: {}", key, value.to_string());
        let (key_again, value_again) = Message::get_header_field(&written).unwrap();
        assert_eq!(key_again, key);
        assert_eq!(format!("{:?}", value_again), format!("{:?}", value), "{}", line);
        assert_eq!(value_again.to_string(), value.to_string());
    }
}

#[test]
fn each_map_of_a_request_holds_each_key_once() {
    let message = Message::from_tcp_stream(
        b"POST /a?x=1&x=2&y HTTP/1.1\r\nA: 1\r\nB: 2\r\nA: 3\r\n\r\nk=1&k=2&l=3",
    )
    .unwrap();
    assert_eq!(message.headers.len(), 2);
    assert_eq!(message.request_line.query_arguments.len(), 2);
    assert_eq!(message.request_line.query_arguments.get("x"), Some(&"2".to_string()));
    assert_eq!(
        single(&message),
        vec![
            ("k".to_string(), "2".to_string()),
            ("l".to_string(), "3".to_string())
        ]
    );
    let message = Message::from_tcp_stream(
        b"POST / HTTP/1.1\r\nContent-Type: multipart/form-data; boundary=b0\r\n\r\n--b0\r\nContent-Disposition: form-data; name=\"a\"\r\nX: 1\r\nX: 2\r\n\r\nfirst\r\n--b0\r\nContent-Disposition: form-data; name=\"a\"\r\n\r\nsecond\r\n--b0--\r\n",
    )
    .unwrap();
    match &message.body {
        BodyContentType::MultiPart(parts) => {
            assert_eq!(parts.len(), 1);
            assert_eq!(parts.get("a").unwrap().body, b"second".to_vec());
        }
        BodyContentType::SinglePart(_) => panic!("the body is not in parts"),
    }
    let (_, value) = Message::get_query_args_from_multipart_blob(
        b"Content-Disposition: form-data; name=\"a\"\r\nX: 1\r\nX: 2\r\n\r\nbody",
    )
    .unwrap();
    assert_eq!(value.headers.len(), 2);
    assert_eq!(value.headers.get("X").unwrap().to_string(), "2");
}
