use http::{HttpResponse, ParseError, ReasonPharse, Status, Version};
use std::collections::HashMap;

fn headers_of(r: &HttpResponse) -> HashMap<String, String> {
    r.headers.iter().cloned().collect()
}

#[test]
fn parse_twice_gives_equal_results() {
    let text = "HTTP/1.1 400 BadRequest!\r\nA: 1\r\nB: 2\r\n\r\nbody";
    let a = HttpResponse::parse(text);
    let b = HttpResponse::parse(text);
    assert_eq!(a, b);
    assert!(a.is_ok());
}

#[test]
fn two_distinct_headers_both_kept() {
    let r = HttpResponse::parse("HTTP/1.1 200 Ok!\r\nA: 1\r\nB: 2\r\n\r\n").unwrap();
    let h = headers_of(&r);
    assert_eq!(h.len(), 2);
    assert_eq!(h.get("A").map(|s| s.as_str()), Some(" 1"));
    assert_eq!(h.get("B").map(|s| s.as_str()), Some(" 2"));
    assert_eq!(r.headers.len(), 2);
}

#[test]
fn repeated_header_later_value_wins() {
    let r = HttpResponse::parse("HTTP/1.1 200 Ok!\r\nA: 1\r\nB: 2\r\nA: 3\r\n\r\n").unwrap();
    let h = headers_of(&r);
    assert_eq!(h.len(), 2);
    assert_eq!(h.get("A").map(|s| s.as_str()), Some(" 3"));
    assert_eq!(r.headers.len(), 2);
}

#[test]
fn two_token_status_line_is_malformed() {
    assert_eq!(HttpResponse::parse("HTTP/2.0 200"), Err(ParseError::MalformedStatusLine));
    assert_eq!(
        HttpResponse::parse("HTTP/2.0 200\r\nLocation: /x\r\n\r\nbody"),
        Err(ParseError::MalformedStatusLine)
    );
}

#[test]
fn malformed_later_status_line_fails_whole_parse() {
    assert_eq!(
        HttpResponse::parse("HTTP/1.1 200 Ok!\r\n\r\nbody\r\nHTTP"),
        Err(ParseError::MalformedStatusLine)
    );
}

#[test]
fn empty_text_gives_unset_fields() {
    let r = HttpResponse::parse("").unwrap();
    assert_eq!(r.version, Version::Uninitialized);
    assert_eq!(r.status, Status::Uninitialized);
    assert_eq!(r.reason, ReasonPharse::Uninitialized);
    assert!(r.headers.is_empty());
    assert_eq!(r.msg_body, "");
}

#[test]
fn last_body_line_wins() {
    let r = HttpResponse::parse("HTTP/1.1 200 Ok!\n\nfirst\nsecond\n").unwrap();
    assert_eq!(r.version, Version::V1_1);
    assert_eq!(r.msg_body, "second");
    assert!(r.headers.is_empty());
}

#[test]
fn last_status_line_wins() {
    let r = HttpResponse::parse("HTTP/1.1 200 Ok!\r\nHTTP/2.0 500 InternalServerError!\r\n").unwrap();
    assert_eq!(r.version, Version::V2_0);
    assert_eq!(r.status, Status::FiveHundred);
    assert_eq!(r.reason, ReasonPharse::InternalServerError);
}

#[test]
fn unknown_status_tokens_are_absorbed() {
    let r = HttpResponse::parse("HTTP/3 302 Found\r\n\r\n").unwrap();
    assert_eq!(r.version, Version::Uninitialized);
    assert_eq!(r.status, Status::Uninitialized);
    assert_eq!(r.reason, ReasonPharse::Uninitialized);
}

#[test]
fn line_with_marker_and_colon_is_status_line() {
    let r = HttpResponse::parse("X-Proto: HTTP/1.1 200 Ok!\r\n").unwrap();
    assert!(r.headers.is_empty());
    assert_eq!(r.version, Version::Uninitialized);
    assert_eq!(r.status, Status::Uninitialized);
    assert_eq!(r.reason, ReasonPharse::Uninitialized);
}

#[test]
fn header_value_with_colons_kept_whole() {
    let r = HttpResponse::parse("HTTP/1.1 200 Ok!\r\nHost: a:80\r\n").unwrap();
    assert_eq!(headers_of(&r).get("Host").map(|s| s.as_str()), Some(" a:80"));
}

#[test]
fn header_lookup_by_name() {
    let r = HttpResponse::parse("HTTP/1.1 200 Ok!\r\nA: 1\r\nB: 2\r\nA: 3\r\n\r\nbody").unwrap();
    assert_eq!(r.header("A"), Some(" 3".to_string()));
    assert_eq!(r.header("B"), Some(" 2".to_string()));
    assert_eq!(r.header("a"), None);
    assert_eq!(r.header("C"), None);
}
