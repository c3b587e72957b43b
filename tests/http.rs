use steam_login::handler::handle_request;
use steam_login::request::{absorb_chunk, parse_query, ParseError, Request, CHUNK_SIZE};
use steam_login::response::{decimal_string, status_string, Response};

fn pairs(v: &[(&str, &str)]) -> Vec<(Vec<u8>, Vec<u8>)> {
    v.iter().map(|(k, v)| (k.as_bytes().to_vec(), v.as_bytes().to_vec())).collect()
}

fn sorted(mut v: Vec<(Vec<u8>, Vec<u8>)>) -> Vec<(Vec<u8>, Vec<u8>)> {
    v.sort();
    v
}

#[test]
fn status_phrases_are_exact() {
    assert_eq!(status_string(200), "200 Ok");
    assert_eq!(status_string(204), "204 No Content");
    assert_eq!(status_string(400), "400 Bad Request");
    assert_eq!(status_string(500), "500 Internal Server Error");
    assert_eq!(status_string(418), "418 Unknown");
    assert_eq!(status_string(0), "0 Unknown");
    assert_eq!(status_string(65535), "65535 Unknown");
}

#[test]
fn decimal_has_no_leading_zeros() {
    assert_eq!(decimal_string(0), "0");
    assert_eq!(decimal_string(7), "7");
    assert_eq!(decimal_string(10), "10");
    assert_eq!(decimal_string(1024), "1024");
}

#[test]
fn resolve_empty_204() {
    let r = Response::text(204, "", None);
    assert_eq!(
        Response::resolve(&r),
        "HTTP/1.1 204 No Content\r\nContent-Type: plain/text\r\nContent-Length: 0\r\n\r\n"
    );
}

#[test]
fn resolve_unknown_status_with_extra_headers() {
    let extra = vec![
        ("X-A".to_string(), "1".to_string()),
        ("X-A".to_string(), "2".to_string()),
    ];
    let r = Response::text(418, "teapot", Some(extra));
    assert_eq!(
        Response::resolve(&r),
        "HTTP/1.1 418 Unknown\r\nContent-Type: plain/text\r\nContent-Length: 6\r\nX-A: 1\r\nX-A: 2\r\n\r\nteapot"
    );
}

#[test]
fn content_length_counts_bytes() {
    let r = Response::text(200, "é", None);
    assert_eq!(
        Response::resolve(&r),
        "HTTP/1.1 200 Ok\r\nContent-Type: plain/text\r\nContent-Length: 2\r\n\r\né"
    );
}

#[test]
fn query_last_value_wins() {
    let q = parse_query(b"a=1&b=2&a=3");
    assert_eq!(sorted(q), pairs(&[("a", "3"), ("b", "2")]));
}

#[test]
fn query_is_not_decoded() {
    let q = parse_query(b"code=a%20b&state=x=y&flag&=e");
    assert_eq!(
        sorted(q),
        pairs(&[("", "e"), ("code", "a%20b"), ("state", "x=y")])
    );
}

#[test]
fn query_empty() {
    assert!(parse_query(b"").is_empty());
}

#[test]
fn parse_full_request() {
    let raw = b"POST /cb?x=1&y=2 HTTP/1.1\r\nHost: localhost\r\nX-Test: a: b\r\nHost: other\r\n\r\nline1\r\nline2";
    let req = Request::new(raw).unwrap();
    assert_eq!(req.method, b"POST".to_vec());
    assert_eq!(req.path, b"/cb".to_vec());
    assert_eq!(sorted(req.query), pairs(&[("x", "1"), ("y", "2")]));
    assert_eq!(
        sorted(req.headers),
        pairs(&[("Host", "other"), ("X-Test", "a: b")])
    );
    assert_eq!(req.content, b"line1\r\nline2".to_vec());
}

#[test]
fn parse_keeps_question_marks_in_query() {
    let req = Request::new(b"GET /?a=b?c HTTP/1.1\r\n\r\n").unwrap();
    assert_eq!(req.path, b"/".to_vec());
    assert_eq!(req.query, pairs(&[("a", "b?c")]));
}

#[test]
fn parse_errors() {
    assert_eq!(Request::new(b"").unwrap_err(), ParseError::MissingMethod);
    assert_eq!(Request::new(b"   \r\n\r\n").unwrap_err(), ParseError::MissingMethod);
    assert_eq!(Request::new(b"GET\r\n\r\n").unwrap_err(), ParseError::MissingTarget);
    assert_eq!(
        Request::new(b"GET / HTTP/1.1\r\nHost: x\r\n").unwrap_err(),
        ParseError::MissingBlankLine
    );
    assert_eq!(
        Request::new(b"GET / HTTP/1.1").unwrap_err(),
        ParseError::MissingBlankLine
    );
    assert_eq!(
        Request::new(b"GET /\xff HTTP/1.1\r\n\r\n").unwrap_err(),
        ParseError::InvalidText
    );
}

#[test]
fn callback_is_captured_with_204() {
    let out = handle_request(b"GET /?code=abc&state=xyz HTTP/1.1\r\nHost: x\r\n\r\n");
    assert_eq!(
        out.response,
        "HTTP/1.1 204 No Content\r\nContent-Type: plain/text\r\nContent-Length: 0\r\n\r\n"
    );
    assert_eq!(
        sorted(out.captured.unwrap()),
        pairs(&[("code", "abc"), ("state", "xyz")])
    );
}

#[test]
fn other_path_is_bad_request() {
    let out = handle_request(b"GET /favicon.ico HTTP/1.1\r\n\r\n");
    assert_eq!(
        out.response,
        "HTTP/1.1 400 Bad Request\r\nContent-Type: plain/text\r\nContent-Length: 0\r\n\r\n"
    );
    assert!(out.captured.is_none());
}

#[test]
fn other_method_is_bad_request() {
    let out = handle_request(b"POST / HTTP/1.1\r\n\r\n");
    assert!(out.response.starts_with("HTTP/1.1 400 Bad Request\r\n"));
    assert!(out.captured.is_none());
}

#[test]
fn unparsable_request_gets_500() {
    let out = handle_request(b"GET / HTTP/1.1\r\n");
    assert_eq!(
        out.response,
        "HTTP/1.1 500 Internal Server Error\r\nContent-Type: plain/text\r\nContent-Length: 5\r\n\r\nError"
    );
    assert!(out.captured.is_none());
}

#[test]
fn short_chunk_ends_reading() {
    let mut received = b"GE".to_vec();
    let full = vec![b'x'; CHUNK_SIZE];
    assert!(!absorb_chunk(&mut received, &full));
    assert_eq!(received.len(), 2 + CHUNK_SIZE);
    assert!(absorb_chunk(&mut received, b"T"));
    assert_eq!(received.len(), 3 + CHUNK_SIZE);
    assert_eq!(received[received.len() - 1], b'T');
    assert!(absorb_chunk(&mut received, b""));
}
