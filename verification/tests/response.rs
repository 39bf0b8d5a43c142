use server::http::{ParseError, Request, Response, StatusCode};
use server::server::{bad_request, Handler, Server};

#[test]
fn ok_with_body_on_the_wire() {
    let response = Response::new(StatusCode::Success, Some("OK".to_string()));
    let mut out = Vec::new();
    response.send(&mut out);
    assert_eq!(out, b"HTTP/1.1 200 OK\r\n\r\nOK".to_vec());
}

#[test]
fn not_found_without_body_on_the_wire() {
    let response = Response::new(StatusCode::NotFound, None);
    let mut out = Vec::new();
    response.send(&mut out);
    assert_eq!(out, b"HTTP/1.1 404 Not Found\r\n\r\n".to_vec());
}

#[test]
fn bad_request_on_the_wire() {
    let response = Response::new(StatusCode::BadRequest, Some("<h1>no</h1>".to_string()));
    let mut out = Vec::new();
    response.send(&mut out);
    assert_eq!(out, b"HTTP/1.1 400 Bad Request\r\n\r\n<h1>no</h1>".to_vec());
}

#[test]
fn send_appends_and_can_be_repeated() {
    let response = Response::new(StatusCode::Success, Some("h\u{e9}".to_string()));
    let mut out = b"x".to_vec();
    response.send(&mut out);
    response.send(&mut out);
    let once = "HTTP/1.1 200 OK\r\n\r\nh\u{e9}";
    assert_eq!(out, format!("x{}{}", once, once).into_bytes());
}

#[test]
fn status_codes_and_reason_phrases() {
    assert_eq!(StatusCode::Success.code(), 200);
    assert_eq!(StatusCode::BadRequest.code(), 400);
    assert_eq!(StatusCode::NotFound.code(), 404);
    assert_eq!(StatusCode::Success.reason_phrase(), "OK");
    assert_eq!(StatusCode::BadRequest.reason_phrase(), "Bad Request");
    assert_eq!(StatusCode::NotFound.reason_phrase(), "Not Found");
}

#[test]
fn server_keeps_its_address() {
    let server = Server::new("127.0.0.1:8080".to_string());
    assert_eq!(server.addr(), "127.0.0.1:8080");
}

struct Echo;

impl Handler for Echo {
    fn handle_request(&mut self, request: &Request) -> Response {
        Response::new(StatusCode::Success, Some(request.path().to_string()))
    }
}

#[test]
fn default_bad_request_answer() {
    let mut out = Vec::new();
    Echo.handle_bad_request(&ParseError::InvalidMethod).send(&mut out);
    assert_eq!(out, b"HTTP/1.1 400 Bad Request\r\n\r\n".to_vec());
    let mut out = Vec::new();
    bad_request().send(&mut out);
    assert_eq!(out, b"HTTP/1.1 400 Bad Request\r\n\r\n".to_vec());
}

#[test]
fn handler_answers_a_parsed_request() {
    let request = Request::try_from(&b"GET /hello HTTP/1.1\r\n"[..]).unwrap();
    let mut out = Vec::new();
    Echo.handle_request(&request).send(&mut out);
    assert_eq!(out, b"HTTP/1.1 200 OK\r\n\r\n/hello".to_vec());
}
