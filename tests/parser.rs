use rust_web_server::head::{find_head_end, ParseError};
use rust_web_server::header::Headers;
use rust_web_server::request::{body_length, parse_request, Request};
use rust_web_server::uri::QueryParams;

fn parse(text: &str) -> Result<(Request, usize), ParseError> {
    parse_request(&text.as_bytes().to_vec())
}

#[test]
fn parses_get_with_headers() {
    let (req, used) = parse("GET /hello HTTP/1.1\r\nHost: x\r\n\r\n").unwrap();
    assert_eq!(req.method, "GET");
    assert_eq!(req.path, "/hello");
    assert_eq!(req.get_headers(), &vec!["Host: x".to_string()]);
    assert_eq!(req.body(), None);
    assert_eq!(used, 32);
}

#[test]
fn parses_query_of_target() {
    let (req, _) = parse("GET /search?q=cats&page=2 HTTP/1.1\r\n\r\n").unwrap();
    assert_eq!(req.path, "/search");
    assert_eq!(req.query_params.get("q").unwrap(), "cats");
    assert_eq!(req.query_params.get("page").unwrap(), "2");
}

#[test]
fn reads_declared_body() {
    let (req, used) = parse("POST /echo HTTP/1.1\r\nContent-Length: 5\r\n\r\nhello").unwrap();
    assert_eq!(req.body(), Some(&b"hello".to_vec()));
    assert_eq!(used, 47);
}

#[test]
fn length_header_name_is_case_insensitive() {
    let msg = "POST /x HTTP/1.1\r\ncontent-length: 3\r\n\r\nabc";
    let (req, used) = parse(msg).unwrap();
    assert_eq!(req.body(), Some(&b"abc".to_vec()));
    assert_eq!(used, msg.len());
    let (req, _) = parse("POST /x HTTP/1.1\r\nCONTENT-LENGTH:\t2 \r\n\r\nab").unwrap();
    assert_eq!(req.body(), Some(&b"ab".to_vec()));
}

#[test]
fn consumes_head_and_body_and_no_more() {
    let head = "POST /x HTTP/1.1\r\nContent-Length: 4\r\n\r\n";
    let msg = format!("{head}abcdGET /next HTTP/1.1\r\n\r\n");
    let (req, used) = parse(&msg).unwrap();
    assert_eq!(used, head.len() + 4);
    assert_eq!(req.body(), Some(&b"abcd".to_vec()));
}

#[test]
fn head_end_is_found_at_blank_line() {
    let d = b"GET / HTTP/1.1\r\nA: b\r\n\r\nrest".to_vec();
    assert_eq!(find_head_end(&d), Some(22));
    assert_eq!(body_length(&d), Ok(0));
}

#[test]
fn empty_length_value_is_zero() {
    let (req, used) = parse("POST /x HTTP/1.1\r\nContent-Length: \r\n\r\n").unwrap();
    assert_eq!(req.body(), None);
    assert_eq!(used, 38);
}

#[test]
fn first_length_header_wins() {
    let d = b"POST /x HTTP/1.1\r\nContent-Length: 1\r\nContent-Length: 9\r\n\r\nz".to_vec();
    assert_eq!(body_length(&d), Ok(1));
}

#[test]
fn eof_before_blank_line_fails() {
    assert_eq!(parse("GET / HTTP/1.1\r\nHost: x\r\n").err(), Some(ParseError::UnexpectedEof));
    assert_eq!(parse("").err(), Some(ParseError::UnexpectedEof));
}

#[test]
fn head_that_is_not_utf8_fails() {
    let mut d = b"GET /".to_vec();
    d.push(0xff);
    d.extend_from_slice(b" HTTP/1.1\r\n\r\n");
    assert_eq!(parse_request(&d).err(), Some(ParseError::InvalidText));
}

#[test]
fn short_request_line_fails() {
    assert_eq!(parse("GET\r\n\r\n").err(), Some(ParseError::MalformedRequestLine));
    assert_eq!(parse("\r\n").err(), Some(ParseError::MalformedRequestLine));
    assert_eq!(parse(" /x HTTP/1.1\r\n\r\n").err(), Some(ParseError::MalformedRequestLine));
}

#[test]
fn request_line_without_version_is_accepted() {
    let (req, _) = parse("GET /a\r\n\r\n").unwrap();
    assert_eq!(req.method, "GET");
    assert_eq!(req.path, "/a");
}

#[test]
fn non_numeric_length_fails() {
    let e = parse("POST /x HTTP/1.1\r\nContent-Length: abc\r\n\r\n").err();
    assert_eq!(e, Some(ParseError::BadContentLength));
    let e = parse("POST /x HTTP/1.1\r\nContent-Length: 99999999999999999999999\r\n\r\n").err();
    assert_eq!(e, Some(ParseError::BadContentLength));
}

#[test]
fn short_body_fails() {
    let e = parse("POST /x HTTP/1.1\r\nContent-Length: 10\r\n\r\nabc").err();
    assert_eq!(e, Some(ParseError::TruncatedBody));
}

#[test]
fn header_lines_keep_raw_form() {
    let (req, _) = parse("GET / HTTP/1.1\nX-A:  1\r\nx-b: 2\n\r\n").unwrap();
    assert_eq!(req.get_headers(), &vec!["X-A:  1".to_string(), "x-b: 2".to_string()]);
}

#[test]
fn new_request_has_no_body() {
    let req = Request::new("GET".to_string(), "/".to_string(), QueryParams::new(), vec![]);
    assert_eq!(req.body(), None);
    assert!(req.get_headers().is_empty());
}

#[test]
fn headers_lookup_ignores_case_and_trims_value() {
    let h = Headers {
        items: vec![
            "Content-Type: text/html".to_string(),
            "Host: localhost:8080".to_string(),
            "host: other".to_string(),
            "NoColon".to_string(),
        ],
    };
    assert_eq!(h.get("Content-Type"), Some("text/html"));
    assert_eq!(h.get("content-type"), Some("text/html"));
    assert_eq!(h.get("HOST"), Some("localhost:8080"));
    assert_eq!(h.get("NoColon"), None);
    assert_eq!(h.get("Accept"), None);
}
