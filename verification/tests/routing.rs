use http_server::connection::{respond, ConnState};
use http_server::handler::{
    file_get_response, file_post_response, handle_request, DispatchStep,
};
use http_server::http::{ParseOutcome, Request, Response};

fn parse(input: &[u8]) -> Request {
    match Request::new(&input.to_vec(), false) {
        Ok(ParseOutcome::Done(req, _)) => req,
        _ => panic!("test request did not parse"),
    }
}

fn respond_of(input: &[u8]) -> Response {
    match handle_request(&parse(input)) {
        Ok(DispatchStep::Respond(resp)) => resp,
        _ => panic!("expected a direct response"),
    }
}

/// The body: everything after the first blank line.
fn body_of(wire: &[u8]) -> Vec<u8> {
    let pos = wire
        .windows(4)
        .position(|w| w == b"\r\n\r\n")
        .expect("no blank line in response");
    wire[pos + 4..].to_vec()
}

fn head_of(wire: &[u8]) -> String {
    let pos = wire.windows(4).position(|w| w == b"\r\n\r\n").unwrap();
    String::from_utf8(wire[..pos + 4].to_vec()).unwrap()
}

#[test]
fn root_route_is_empty_200() {
    let bytes = respond_of(b"GET / HTTP/1.1\r\n\r\n").into_bytes();
    assert_eq!(bytes, b"HTTP/1.1 200 OK\r\n\r\n".to_vec());
}

#[test]
fn unknown_route_is_404() {
    let bytes = respond_of(b"GET /nowhere HTTP/1.1\r\n\r\n").into_bytes();
    assert_eq!(bytes, b"HTTP/1.1 404 Not Found\r\n\r\n".to_vec());
    let bytes = respond_of(b"DELETE /echo/x HTTP/1.1\r\n\r\n").into_bytes();
    assert_eq!(bytes, b"HTTP/1.1 404 Not Found\r\n\r\n".to_vec());
}

#[test]
fn echo_body_is_the_path_remainder() {
    let bytes = respond_of(b"GET /echo/abc HTTP/1.1\r\n\r\n").into_bytes();
    assert_eq!(
        bytes,
        b"HTTP/1.1 200 OK\r\nContent-Type: text/plain\r\nContent-Length: 3\r\n\r\nabc".to_vec()
    );
}

#[test]
fn echo_with_gzip_negotiation_compresses() {
    let bytes =
        respond_of(b"GET /echo/hello-gzip HTTP/1.1\r\nAccept-Encoding: gzip\r\n\r\n").into_bytes();
    let head = head_of(&bytes);
    assert!(head.starts_with("HTTP/1.1 200 OK\r\n"));
    assert!(head.contains("Content-Encoding: gzip\r\n"));
    assert!(head.contains("Content-Type: text/plain\r\n"));
    let body = body_of(&bytes);
    assert_ne!(body, b"hello-gzip".to_vec());
    let mut decoder = flate2::read::GzDecoder::new(body.as_slice());
    let mut decoded = Vec::new();
    std::io::Read::read_to_end(&mut decoder, &mut decoded).unwrap();
    assert_eq!(decoded, b"hello-gzip".to_vec());
}

#[test]
fn gzip_echo_of_empty_payload_decodes_to_empty() {
    let bytes =
        respond_of(b"GET /echo/ HTTP/1.1\r\nAccept-Encoding: gzip, deflate\r\n\r\n").into_bytes();
    let body = body_of(&bytes);
    let mut decoder = flate2::read::GzDecoder::new(body.as_slice());
    let mut decoded = Vec::new();
    std::io::Read::read_to_end(&mut decoder, &mut decoded).unwrap();
    assert_eq!(decoded, Vec::<u8>::new());
}

#[test]
fn echo_without_gzip_token_stays_plain() {
    let bytes =
        respond_of(b"GET /echo/abc HTTP/1.1\r\nAccept-Encoding: deflate\r\n\r\n").into_bytes();
    let head = head_of(&bytes);
    assert!(!head.contains("Content-Encoding"));
    assert_eq!(body_of(&bytes), b"abc".to_vec());
}

#[test]
fn user_agent_is_reflected() {
    let bytes =
        respond_of(b"GET /user-agent HTTP/1.1\r\nUser-Agent: foo/1.0\r\n\r\n").into_bytes();
    assert_eq!(
        bytes,
        b"HTTP/1.1 200 OK\r\nContent-Type: text/plain\r\nContent-Length: 7\r\n\r\nfoo/1.0"
            .to_vec()
    );
}

#[test]
fn absent_user_agent_reflects_empty() {
    let bytes = respond_of(b"GET /user-agent HTTP/1.1\r\n\r\n").into_bytes();
    assert_eq!(bytes, b"HTTP/1.1 200 OK\r\nContent-Type: text/plain\r\n\r\n".to_vec());
}

#[test]
fn file_get_names_the_file() {
    match handle_request(&parse(b"GET /files/notes.txt HTTP/1.1\r\n\r\n")) {
        Ok(DispatchStep::ReadFile(name)) => assert_eq!(name, b"notes.txt".to_vec()),
        _ => panic!("expected a file read"),
    }
}

#[test]
fn missing_file_is_404() {
    let bytes = file_get_response(None).into_bytes();
    assert_eq!(bytes, b"HTTP/1.1 404 Not Found\r\n\r\n".to_vec());
}

#[test]
fn files_round_trip_returns_written_bytes() {
    let name;
    let contents;
    match handle_request(&parse(b"POST /files/a.txt HTTP/1.1\r\nContent-Length: 5\r\n\r\nhello")) {
        Ok(DispatchStep::WriteFile(n, data)) => {
            name = n;
            contents = data;
        },
        _ => panic!("expected a file write"),
    }
    assert_eq!(name, b"a.txt".to_vec());
    assert_eq!(contents, b"hello".to_vec());
    let created = file_post_response().into_bytes();
    assert_eq!(created, b"HTTP/1.1 201 Created\r\n\r\n".to_vec());

    let bytes = file_get_response(Some(contents)).into_bytes();
    assert_eq!(
        bytes,
        b"HTTP/1.1 200 OK\r\nContent-Type: application/octet-stream\r\nContent-Length: 5\r\n\r\nhello"
            .to_vec()
    );
}

#[test]
fn connection_close_marks_closing_and_adds_header() {
    let req = parse(b"GET / HTTP/1.1\r\nConnection: close\r\n\r\n");
    let resp = Response::new(200, "OK".to_string());
    let (bytes, state) = respond(&req, resp);
    assert_eq!(state, ConnState::Closing);
    assert_eq!(bytes, b"HTTP/1.1 200 OK\r\nConnection: close\r\n\r\n".to_vec());
}

#[test]
fn without_close_connection_stays_active() {
    let req = parse(b"GET / HTTP/1.1\r\n\r\n");
    let resp = Response::new(200, "OK".to_string());
    let (bytes, state) = respond(&req, resp);
    assert_eq!(state, ConnState::Active);
    assert_eq!(bytes, b"HTTP/1.1 200 OK\r\n\r\n".to_vec());
}

#[test]
fn two_cycles_on_one_connection_are_independent() {
    let mut buffer = Vec::new();
    buffer.extend_from_slice(b"GET /echo/first HTTP/1.1\r\n\r\n");
    buffer.extend_from_slice(b"GET /echo/second HTTP/1.1\r\n\r\n");

    let mut wire_out = Vec::new();
    let mut states = Vec::new();
    while !buffer.is_empty() {
        let (req, used) = match Request::new(&buffer, false) {
            Ok(ParseOutcome::Done(req, used)) => (req, used),
            _ => panic!("request did not parse"),
        };
        buffer.drain(..used);
        let resp = match handle_request(&req) {
            Ok(DispatchStep::Respond(resp)) => resp,
            _ => panic!("expected a direct response"),
        };
        let (bytes, state) = respond(&req, resp);
        wire_out.push(bytes);
        states.push(state);
    }
    assert_eq!(states, vec![ConnState::Active, ConnState::Active]);
    assert_eq!(body_of(&wire_out[0]), b"first".to_vec());
    assert_eq!(body_of(&wire_out[1]), b"second".to_vec());
}
