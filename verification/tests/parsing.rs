use http_server::http::{headers_get, HttpError, ParseOutcome, Request};

fn parse_done(input: &[u8], eof: bool) -> (Request, usize) {
    match Request::new(&input.to_vec(), eof) {
        Ok(ParseOutcome::Done(req, used)) => (req, used),
        other => panic!("expected a parsed request, got {:?}", discriminant_name(&other)),
    }
}

fn discriminant_name(r: &Result<ParseOutcome, HttpError>) -> &'static str {
    match r {
        Ok(ParseOutcome::Incomplete) => "Incomplete",
        Ok(ParseOutcome::Closed) => "Closed",
        Ok(ParseOutcome::Done(..)) => "Done",
        Err(HttpError::MalformedRequestLine) => "MalformedRequestLine",
        Err(HttpError::IncompleteBody) => "IncompleteBody",
        Err(HttpError::EncodingFailed) => "EncodingFailed",
    }
}

#[test]
fn simple_get_parses() {
    let input = b"GET / HTTP/1.1\r\nHost: example\r\n\r\n";
    let (req, used) = parse_done(input, false);
    assert_eq!(req.method, b"GET".to_vec());
    assert_eq!(req.path, b"/".to_vec());
    assert_eq!(req.http_version, b"HTTP/1.1".to_vec());
    assert_eq!(req.body, Vec::<u8>::new());
    assert_eq!(used, input.len());
    let host = headers_get(&req.headers, &b"host".to_vec());
    assert_eq!(host, Some(&b"example".to_vec()));
}

#[test]
fn request_line_with_extra_spaces_parses() {
    let input = b"GET   /abc   HTTP/1.1  \r\n\r\n";
    let (req, _) = parse_done(input, false);
    assert_eq!(req.method, b"GET".to_vec());
    assert_eq!(req.path, b"/abc".to_vec());
    assert_eq!(req.http_version, b"HTTP/1.1".to_vec());
}

#[test]
fn too_few_tokens_is_malformed() {
    let input = b"GET /\r\n\r\n".to_vec();
    assert!(matches!(Request::new(&input, false), Err(HttpError::MalformedRequestLine)));
    let input = b"\r\n\r\n".to_vec();
    assert!(matches!(Request::new(&input, false), Err(HttpError::MalformedRequestLine)));
}

#[test]
fn empty_buffer_is_incomplete_then_closed() {
    let input: Vec<u8> = Vec::new();
    assert!(matches!(Request::new(&input, false), Ok(ParseOutcome::Incomplete)));
    assert!(matches!(Request::new(&input, true), Ok(ParseOutcome::Closed)));
}

#[test]
fn unterminated_headers_incomplete_until_eof() {
    let input = b"GET / HTTP/1.1\r\nHost: a\r\n".to_vec();
    assert!(matches!(Request::new(&input, false), Ok(ParseOutcome::Incomplete)));
    assert!(matches!(Request::new(&input, true), Err(HttpError::MalformedRequestLine)));
}

#[test]
fn body_length_is_exactly_content_length() {
    let input = b"POST /files/a HTTP/1.1\r\nContent-Length: 5\r\n\r\nhelloEXTRA";
    let (req, used) = parse_done(input, false);
    assert_eq!(req.body, b"hello".to_vec());
    assert_eq!(used, input.len() - 5);
}

#[test]
fn short_body_incomplete_then_fails_at_eof() {
    let input = b"POST /files/a HTTP/1.1\r\nContent-Length: 5\r\n\r\nhel".to_vec();
    assert!(matches!(Request::new(&input, false), Ok(ParseOutcome::Incomplete)));
    assert!(matches!(Request::new(&input, true), Err(HttpError::IncompleteBody)));
}

#[test]
fn unparseable_content_length_means_empty_body() {
    let input = b"POST /x HTTP/1.1\r\nContent-Length: five\r\n\r\nhello";
    let (req, used) = parse_done(input, false);
    assert_eq!(req.body, Vec::<u8>::new());
    assert_eq!(used, input.len() - 5);
}

#[test]
fn overflowing_content_length_means_empty_body() {
    let input = b"POST /x HTTP/1.1\r\nContent-Length: 99999999999999999999999\r\n\r\nhello";
    let (req, used) = parse_done(input, false);
    assert_eq!(req.body, Vec::<u8>::new());
    assert_eq!(used, input.len() - 5);
}

#[test]
fn header_keys_lowercased_values_trimmed() {
    let input = b"GET / HTTP/1.1\r\nUser-Agent:   foo/1.0  \r\n\r\n";
    let (req, _) = parse_done(input, false);
    let ua = headers_get(&req.headers, &b"user-agent".to_vec());
    assert_eq!(ua, Some(&b"foo/1.0".to_vec()));
}

#[test]
fn duplicate_header_last_write_wins() {
    let input = b"GET / HTTP/1.1\r\nHost: one\r\nHOST: two\r\n\r\n";
    let (req, _) = parse_done(input, false);
    let host = headers_get(&req.headers, &b"host".to_vec());
    assert_eq!(host, Some(&b"two".to_vec()));
}

#[test]
fn line_without_colon_is_ignored() {
    let input = b"GET / HTTP/1.1\r\nnonsense line\r\nHost: a\r\n\r\n";
    let (req, _) = parse_done(input, false);
    assert_eq!(req.headers.len(), 1);
    assert_eq!(headers_get(&req.headers, &b"host".to_vec()), Some(&b"a".to_vec()));
}

#[test]
fn connection_close_header_detected() {
    let input = b"GET / HTTP/1.1\r\nConnection: close\r\n\r\n";
    let (req, _) = parse_done(input, false);
    assert!(req.connection_close_exist());

    let input = b"GET / HTTP/1.1\r\nConnection: keep-alive\r\n\r\n";
    let (req, _) = parse_done(input, false);
    assert!(!req.connection_close_exist());

    let input = b"GET / HTTP/1.1\r\n\r\n";
    let (req, _) = parse_done(input, false);
    assert!(!req.connection_close_exist());
}

#[test]
fn two_requests_on_one_buffer_parse_in_turn() {
    let mut buffer = b"GET /echo/one HTTP/1.1\r\n\r\nGET /echo/two HTTP/1.1\r\n\r\n".to_vec();
    let (first, used) = parse_done(&buffer, false);
    assert_eq!(first.path, b"/echo/one".to_vec());
    buffer.drain(..used);
    let (second, used2) = parse_done(&buffer, false);
    assert_eq!(second.path, b"/echo/two".to_vec());
    assert_eq!(used2, buffer.len());
}

#[test]
fn first_request_unchanged_by_later_bytes() {
    let head = b"GET /echo/abc HTTP/1.1\r\n\r\n";
    let (req1, used1) = parse_done(head, false);
    let mut longer = head.to_vec();
    longer.extend_from_slice(b"GET / HTTP/1.1\r\n\r\n");
    let (req2, used2) = parse_done(&longer, false);
    assert_eq!(used1, used2);
    assert_eq!(req1.path, req2.path);
    assert_eq!(req1.method, req2.method);
}
