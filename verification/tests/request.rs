use server::http::method::MethodError;
use server::http::request::get_next_word;
use server::http::{Method, ParseError, QueryStringValue, Request};

fn single<'a>(value: Option<&'a QueryStringValue<'a>>) -> &'a str {
    match value {
        Some(QueryStringValue::Single(s)) => s,
        other => panic!("expected a single value, got {:?}", other),
    }
}

#[test]
fn parses_search_request_with_query() {
    let buf = b"GET /search?name=abc&sort=1 HTTP/1.1\r\n\r\n";
    let request = Request::try_from(&buf[..]).unwrap();
    assert_eq!(*request.method(), Method::GET);
    assert_eq!(request.path(), "/search");
    let query = request.query_string().unwrap();
    assert_eq!(single(query.get("name")), "abc");
    assert_eq!(single(query.get("sort")), "1");
    assert!(query.get("other").is_none());
}

#[test]
fn rejects_other_protocol_version() {
    let buf = b"GET /x HTTP/1.0\r\n\r\n";
    assert_eq!(Request::try_from(&buf[..]).unwrap_err(), ParseError::InvalidProtocol);
}

#[test]
fn rejects_non_utf8_buffer() {
    let buf = [b'G', b'E', b'T', b' ', b'/', 0xff, b' ', b'H', b'T', b'T', b'P', b'/', b'1', b'.', b'1', b'\r', b'\n'];
    assert_eq!(Request::try_from(&buf[..]).unwrap_err(), ParseError::InvalidEncoding);
}

#[test]
fn rejects_non_utf8_buffer_that_has_too_few_tokens() {
    let buf = [0xc3u8, 0x28];
    assert_eq!(Request::try_from(&buf[..]).unwrap_err(), ParseError::InvalidEncoding);
}

#[test]
fn rejects_non_utf8_after_the_request_line() {
    let buf = b"GET / HTTP/1.1\r\n\xff";
    assert_eq!(Request::try_from(&buf[..]).unwrap_err(), ParseError::InvalidEncoding);
}

#[test]
fn rejects_fewer_than_three_tokens() {
    assert_eq!(Request::try_from(&b""[..]).unwrap_err(), ParseError::InvalidRequest);
    assert_eq!(Request::try_from(&b"GET"[..]).unwrap_err(), ParseError::InvalidRequest);
    assert_eq!(Request::try_from(&b"GET /"[..]).unwrap_err(), ParseError::InvalidRequest);
    assert_eq!(Request::try_from(&b"GET / HTTP/1.1"[..]).unwrap_err(), ParseError::InvalidRequest);
}

#[test]
fn tokenization_comes_before_the_protocol_check() {
    assert_eq!(Request::try_from(&b"GET / HTTP/1.0"[..]).unwrap_err(), ParseError::InvalidRequest);
}

#[test]
fn protocol_check_comes_before_the_method_check() {
    assert_eq!(Request::try_from(&b"FETCH / HTTP/2\r\n"[..]).unwrap_err(), ParseError::InvalidProtocol);
}

#[test]
fn rejects_unknown_method() {
    assert_eq!(Request::try_from(&b"FETCH / HTTP/1.1\r\n"[..]).unwrap_err(), ParseError::InvalidMethod);
    assert_eq!(Request::try_from(&b"get / HTTP/1.1\r\n"[..]).unwrap_err(), ParseError::InvalidMethod);
}

#[test]
fn protocol_token_may_end_at_a_space() {
    let request = Request::try_from(&b"POST /a HTTP/1.1 trailing"[..]).unwrap();
    assert_eq!(*request.method(), Method::POST);
    assert_eq!(request.path(), "/a");
    assert!(request.query_string().is_none());
}

#[test]
fn carriage_return_delimits_like_a_space() {
    let request = Request::try_from(&b"PUT\r/a\rHTTP/1.1\r"[..]).unwrap();
    assert_eq!(*request.method(), Method::PUT);
    assert_eq!(request.path(), "/a");
}

#[test]
fn headers_and_body_are_ignored() {
    let buf = b"DELETE /items/7 HTTP/1.1\r\nHost: example\r\n\r\nbody text";
    let request = Request::try_from(&buf[..]).unwrap();
    assert_eq!(*request.method(), Method::DELETE);
    assert_eq!(request.path(), "/items/7");
    assert!(request.query_string().is_none());
}

#[test]
fn path_is_split_at_the_first_question_mark() {
    let request = Request::try_from(&b"GET /a?b?c=d HTTP/1.1\r\n"[..]).unwrap();
    assert_eq!(request.path(), "/a");
    let query = request.query_string().unwrap();
    assert_eq!(single(query.get("b?c")), "d");
}

#[test]
fn empty_query_fragment_is_present() {
    let request = Request::try_from(&b"GET /a? HTTP/1.1\r\n"[..]).unwrap();
    assert_eq!(request.path(), "/a");
    let query = request.query_string().unwrap();
    assert_eq!(single(query.get("")), "");
}

#[test]
fn non_ascii_text_is_split_at_the_delimiter() {
    let buf = "GET /caf\u{e9}?q=\u{fc}ber HTTP/1.1\r\n".as_bytes();
    let request = Request::try_from(buf).unwrap();
    assert_eq!(request.path(), "/caf\u{e9}");
    assert_eq!(single(request.query_string().unwrap().get("q")), "\u{fc}ber");
}

#[test]
fn accessors_borrow_from_the_buffer() {
    let buf = b"GET /search?name=abc HTTP/1.1\r\n\r\n".to_vec();
    let request = Request::try_from(&buf[..]).unwrap();
    let start = buf.as_ptr() as usize;
    let path = request.path();
    assert_eq!(path.as_ptr() as usize, start + 4);
    assert_eq!(path.len(), 7);
    let value = single(request.query_string().unwrap().get("name"));
    assert_eq!(value.as_ptr() as usize, start + 17);
}

#[test]
fn next_word_splits_at_first_space_or_carriage_return() {
    assert_eq!(get_next_word("GET /users HTTP/1.1"), Some(("GET", "/users HTTP/1.1")));
    assert_eq!(get_next_word("HTTP/1.1\r\n"), Some(("HTTP/1.1", "\n")));
    assert_eq!(get_next_word(" x"), Some(("", "x")));
    assert_eq!(get_next_word("nodelimiter"), None);
    assert_eq!(get_next_word(""), None);
}

#[test]
fn every_method_is_read_from_its_name() {
    let all = [
        ("GET", Method::GET),
        ("DELETE", Method::DELETE),
        ("POST", Method::POST),
        ("PUT", Method::PUT),
        ("HEAD", Method::HEAD),
        ("CONNECT", Method::CONNECT),
        ("OPTIONS", Method::OPTIONS),
        ("TRACE", Method::TRACE),
        ("PATCH", Method::PATCH),
    ];
    for (name, method) in all {
        assert_eq!(Method::from_str(name), Ok(method));
        assert_eq!(method.as_str(), name);
    }
}

#[test]
fn method_match_is_exact() {
    assert_eq!(Method::from_str("get"), Err(MethodError));
    assert_eq!(Method::from_str(" GET"), Err(MethodError));
    assert_eq!(Method::from_str("GETS"), Err(MethodError));
    assert_eq!(Method::from_str(""), Err(MethodError));
}

#[test]
fn each_error_has_its_message() {
    assert_eq!(ParseError::InvalidRequest.message(), "Invalid Request");
    assert_eq!(ParseError::InvalidEncoding.message(), "Invalid Encoding");
    assert_eq!(ParseError::InvalidProtocol.message(), "Invalid Protocol");
    assert_eq!(ParseError::InvalidMethod.message(), "Invalid Method");
}

#[test]
fn method_error_becomes_invalid_method() {
    assert_eq!(ParseError::from(MethodError), ParseError::InvalidMethod);
}

#[test]
fn utf8_error_becomes_invalid_encoding() {
    let bad = [0xffu8];
    let e = std::str::from_utf8(&bad).unwrap_err();
    assert_eq!(ParseError::from(e), ParseError::InvalidEncoding);
}
