use http::{process_header_line, process_response_line, ReasonPharse, Status, Version};
use http::text::{split_lines, split_whitespace, str_eq};

#[test]
fn header_line_keeps_leading_space() {
    let (k, v) = process_header_line("Location: /local-path");
    assert_eq!(k, "Location");
    assert_eq!(v, " /local-path");
}

#[test]
fn header_line_splits_at_first_colon_only() {
    let (k, v) = process_header_line("Host: example.com:8080");
    assert_eq!(k, "Host");
    assert_eq!(v, " example.com:8080");
}

#[test]
fn header_line_without_value() {
    let (k, v) = process_header_line("Empty:");
    assert_eq!(k, "Empty");
    assert_eq!(v, "");
}

#[test]
fn header_line_without_colon() {
    let (k, v) = process_header_line("NoSeparator");
    assert_eq!(k, "NoSeparator");
    assert_eq!(v, "");
}

#[test]
fn response_line_three_tokens() {
    let r = process_response_line("HTTP/1.1 400 BadRequest!");
    assert_eq!(r, (Version::V1_1, Status::FourHundred, ReasonPharse::BadRequest));
}

#[test]
fn response_line_runs_of_whitespace() {
    let r = process_response_line("  HTTP/2.0\t\t500   InternalServerError! extra");
    assert_eq!(r, (Version::V2_0, Status::FiveHundred, ReasonPharse::InternalServerError));
}

#[test]
fn response_line_unknown_tokens() {
    let r = process_response_line("HTTP/1.0 404 NotFound!");
    assert_eq!(r, (Version::Uninitialized, Status::Uninitialized, ReasonPharse::Uninitialized));
}

#[test]
fn lines_strip_crlf_and_lf() {
    assert_eq!(split_lines("a\r\nb\nc"), vec!["a", "b", "c"]);
    assert_eq!(split_lines("a\n\nb\n"), vec!["a", "", "b"]);
    assert_eq!(split_lines("\n"), vec![""]);
    assert_eq!(split_lines(""), Vec::<String>::new());
}

#[test]
fn lines_keep_lone_trailing_carriage_return() {
    assert_eq!(split_lines("a\r"), vec!["a\r"]);
    assert_eq!(split_lines("a\r\r\n"), vec!["a\r"]);
}

#[test]
fn words_split_on_unicode_whitespace() {
    assert_eq!(split_whitespace(" a\tb\u{a0}c\u{3000}d  "), vec!["a", "b", "c", "d"]);
    assert_eq!(split_whitespace("x\u{2028}y"), vec!["x", "y"]);
    assert_eq!(split_whitespace("   "), Vec::<String>::new());
    assert_eq!(split_whitespace("a-b_c"), vec!["a-b_c"]);
}

#[test]
fn str_eq_compares_characters() {
    assert!(str_eq("abc", "abc"));
    assert!(!str_eq("abc", "abd"));
    assert!(!str_eq("abc", "ab"));
    assert!(str_eq("", ""));
}
