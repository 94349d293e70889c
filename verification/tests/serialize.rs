use http_server::http::Response;

#[test]
fn status_line_and_blank_line_only() {
    let resp = Response::new(404, "Not Found".to_string());
    assert_eq!(resp.into_bytes(), b"HTTP/1.1 404 Not Found\r\n\r\n".to_vec());
}

#[test]
fn content_length_inserted_for_nonempty_body() {
    let resp = Response::new(200, "OK".to_string()).body(b"abc".to_vec());
    assert_eq!(resp.into_bytes(), b"HTTP/1.1 200 OK\r\nContent-Length: 3\r\n\r\nabc".to_vec());
}

#[test]
fn explicit_content_length_not_overwritten() {
    let resp = Response::new(200, "OK".to_string())
        .header("Content-Length", "10".to_string())
        .body(b"abc".to_vec());
    assert_eq!(resp.into_bytes(), b"HTTP/1.1 200 OK\r\nContent-Length: 10\r\n\r\nabc".to_vec());
}

#[test]
fn empty_body_gets_no_content_length() {
    let resp = Response::new(201, "Created".to_string());
    let bytes = resp.into_bytes();
    let text = String::from_utf8(bytes).unwrap();
    assert!(!text.contains("Content-Length"));
}

#[test]
fn headers_serialized_in_insertion_order() {
    let resp = Response::new(200, "OK".to_string())
        .header("A", "1".to_string())
        .header("B", "2".to_string())
        .body(b"x".to_vec());
    assert_eq!(
        resp.into_bytes(),
        b"HTTP/1.1 200 OK\r\nA: 1\r\nB: 2\r\nContent-Length: 1\r\n\r\nx".to_vec()
    );
}

#[test]
fn setting_a_header_twice_keeps_one_entry() {
    let resp = Response::new(200, "OK".to_string())
        .header("A", "1".to_string())
        .header("A", "2".to_string());
    assert_eq!(resp.into_bytes(), b"HTTP/1.1 200 OK\r\nA: 2\r\n\r\n".to_vec());
}

#[test]
fn serializing_equal_responses_is_deterministic() {
    let build = || {
        Response::new(200, "OK".to_string())
            .header("Content-Type", "text/plain".to_string())
            .body(b"hello".to_vec())
    };
    assert_eq!(build().into_bytes(), build().into_bytes());
}

#[test]
fn connection_close_can_be_added() {
    let mut resp = Response::new(200, "OK".to_string());
    resp.add_connection_close_header();
    assert_eq!(resp.into_bytes(), b"HTTP/1.1 200 OK\r\nConnection: close\r\n\r\n".to_vec());
}
