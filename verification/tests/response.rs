use milstian_internet_framework::application_layer::http::response::Message;
use milstian_internet_framework::text_map::TextMap;
use milstian_internet_framework::transport_protocol::http::response::Message as TextMessage;

fn headers_of(pairs: &[(&str, &str)]) -> TextMap<String> {
    let mut headers: TextMap<String> = TextMap::new();
    for (key, value) in pairs.iter() {
        headers.insert(key.to_string(), value.to_string());
    }
    headers
}

#[test]
fn bytes_hold_status_line_sorted_headers_blank_line_and_body() {
    let mut message = Message::new(
        "HTTP/1.1".to_string(),
        "200 OK".to_string(),
        headers_of(&[("ETag", "17"), ("Content-Type", "text/html"), ("Cache-Control", "max-age=2592000")]),
        b"<p>hi</p>".to_vec(),
    );
    assert_eq!(
        message.to_bytes(),
        b"HTTP/1.1 200 OK\r\nCache-Control: max-age=2592000\r\nContent-Type: text/html\r\nETag: 17\r\n\r\n<p>hi</p>".to_vec()
    );
}

#[test]
fn bytes_without_headers_keep_the_blank_line() {
    let mut message = Message::new(
        "HTTP/1.0".to_string(),
        "500 Internal Server Error".to_string(),
        TextMap::new(),
        Vec::new(),
    );
    assert_eq!(
        message.to_bytes(),
        b"HTTP/1.0 500 Internal Server Error\r\n\r\n".to_vec()
    );
}

#[test]
fn bytes_do_not_depend_on_the_order_of_writing() {
    let mut first = Message::new(
        "HTTP/1.1".to_string(),
        "200 OK".to_string(),
        headers_of(&[("b", "2"), ("a", "1"), ("c", "3")]),
        b"x".to_vec(),
    );
    let mut second = Message::new(
        "HTTP/1.1".to_string(),
        "200 OK".to_string(),
        headers_of(&[("c", "0"), ("a", "1"), ("b", "2"), ("c", "3")]),
        b"x".to_vec(),
    );
    assert_eq!(first.to_bytes(), second.to_bytes());
}

#[test]
fn the_body_is_sent_as_it_is() {
    let body: Vec<u8> = vec![0, 159, 146, 150, 255, 13, 10];
    let mut message = Message::new(
        "HTTP/1.1".to_string(),
        "200 OK".to_string(),
        TextMap::new(),
        body.clone(),
    );
    let mut expected = b"HTTP/1.1 200 OK\r\n\r\n".to_vec();
    expected.extend_from_slice(&body);
    assert_eq!(message.to_bytes(), expected);
    assert_eq!(message.body, body);
    assert_eq!(message.status, "200 OK");
    assert_eq!(message.to_bytes(), expected);
}

#[test]
fn the_first_line_of_the_bytes_is_protocol_and_status() {
    let mut message = Message::new(
        "HTTP/1.1".to_string(),
        "404 File Not Found".to_string(),
        headers_of(&[("Content-Length", "0")]),
        Vec::new(),
    );
    let bytes = message.to_bytes();
    let end = bytes.windows(2).position(|pair| pair == b"\r\n").unwrap();
    assert_eq!(&bytes[..end], b"HTTP/1.1 404 File Not Found");
}

#[test]
fn the_head_as_text_ends_in_a_blank_line_where_there_are_headers() {
    let message = Message::new(
        "HTTP/1.1".to_string(),
        "200 OK".to_string(),
        headers_of(&[("b", "2"), ("a", "1")]),
        b"body".to_vec(),
    );
    assert_eq!(message._header_to_string(), "HTTP/1.1 200 OK\r\na: 1\r\nb: 2\r\n\r\n");
    let bare = Message::new("HTTP/1.1".to_string(), "200 OK".to_string(), TextMap::new(), Vec::new());
    assert_eq!(bare._header_to_string(), "HTTP/1.1 200 OK\r\n");
}

#[test]
fn the_response_as_text_holds_a_body_of_valid_utf8() {
    let message = Message::new(
        "HTTP/1.1".to_string(),
        "200 OK".to_string(),
        headers_of(&[("b", "2"), ("a", "1")]),
        "Grüße".as_bytes().to_vec(),
    );
    assert_eq!(message._to_string(), "HTTP/1.1 200 OK\r\na: 1\r\nb: 2\r\n\r\nGrüße");
    let binary = Message::new(
        "HTTP/1.1".to_string(),
        "200 OK".to_string(),
        TextMap::new(),
        vec![0xff, 0xfe],
    );
    assert_eq!(binary._to_string(), "HTTP/1.1 200 OK\r\n\r\n");
}

#[test]
fn a_response_of_text_has_a_blank_line_before_its_body() {
    let message = TextMessage::new(
        "HTTP/1.1".to_string(),
        "200 OK".to_string(),
        headers_of(&[("Last-Modified", "x"), ("Content-Length", "4"), ("Content-Type", "text/html")]),
        "body".to_string(),
    );
    assert_eq!(
        message.to_string(),
        "HTTP/1.1 200 OK\r\nContent-Length: 4\r\nContent-Type: text/html\r\nLast-Modified: x\r\n\r\nbody"
    );
    let bare = TextMessage::new(
        "HTTP/1.1".to_string(),
        "200 OK".to_string(),
        TextMap::new(),
        "body".to_string(),
    );
    assert_eq!(bare.to_string(), "HTTP/1.1 200 OK\r\n\r\nbody");
    let hi = TextMessage::new(
        "HTTP/1.1".to_string(),
        "200 OK".to_string(),
        TextMap::new(),
        "hi".to_string(),
    );
    assert_eq!(hi.to_string(), "HTTP/1.1 200 OK\r\n\r\nhi");
}
