use mws::error::RequestError;
use mws::parse::{parse_content_length, parse_request};

fn peer() -> String {
    "203.0.113.9".to_string()
}

#[test]
fn parse_full_request_with_body() {
    let input = b"POST /submit HTTP/1.1\r\nHost: example.org\r\nContent-Length: 5\r\n\r\nhello".to_vec();
    let (req, used) = parse_request(&input, peer()).unwrap();
    assert_eq!(req.method, "POST");
    assert_eq!(req.path, "/submit");
    assert_eq!(req.version, "HTTP/1.1");
    assert_eq!(req.body, b"hello".to_vec());
    assert_eq!(used, input.len());
    assert_eq!(req.headers.get("Host"), Some("example.org".to_string()));
    assert_eq!(req.headers.get("Content-Length"), Some("5".to_string()));
}

#[test]
fn parse_body_is_exactly_declared_bytes() {
    // More bytes are on the wire than the declared five: the body is
    // exactly the declared five and the rest stays unread.
    let input = b"PUT /x HTTP/1.1\r\nContent-Length: 5\r\n\r\nabcdeEXTRA".to_vec();
    let (req, used) = parse_request(&input, peer()).unwrap();
    assert_eq!(req.body, b"abcde".to_vec());
    assert_eq!(used, input.len() - 5);
}

#[test]
fn parse_without_content_length_leaves_body_empty() {
    let input = b"GET / HTTP/1.1\r\n\r\nleftover-bytes".to_vec();
    let (req, used) = parse_request(&input, peer()).unwrap();
    assert_eq!(req.method, "GET");
    assert_eq!(req.path, "/");
    assert!(req.body.is_empty());
    // The request ends right after the blank line; what follows is unread.
    assert_eq!(used, b"GET / HTTP/1.1\r\n\r\n".len());
}

#[test]
fn parse_zero_content_length() {
    let input = b"GET / HTTP/1.1\r\nContent-Length: 0\r\n\r\n".to_vec();
    let (req, used) = parse_request(&input, peer()).unwrap();
    assert!(req.body.is_empty());
    assert_eq!(used, input.len());
}

#[test]
fn parse_missing_terminator_is_malformed_request_line() {
    let input = b"GET / HTTP/1.1".to_vec();
    let err = parse_request(&input, peer()).unwrap_err();
    assert!(matches!(err, RequestError::MalformedRequestLine));
}

#[test]
fn parse_request_line_without_space_is_missing_method() {
    let input = b"NOSPACES\r\n\r\n".to_vec();
    let err = parse_request(&input, peer()).unwrap_err();
    assert!(matches!(err, RequestError::MissingMethod));
}

#[test]
fn parse_request_line_with_one_space_is_missing_version_or_path() {
    let input = b"GET /only\r\n\r\n".to_vec();
    let err = parse_request(&input, peer()).unwrap_err();
    assert!(matches!(err, RequestError::MissingVersionOrPath));
}

#[test]
fn parse_path_with_spaces_keeps_version_intact() {
    // The split for the version is at the last space, so a path
    // holding spaces survives.
    let input = b"GET /a b c HTTP/1.1\r\n\r\n".to_vec();
    let (req, _) = parse_request(&input, peer()).unwrap();
    assert_eq!(req.method, "GET");
    assert_eq!(req.path, "/a b c");
    assert_eq!(req.version, "HTTP/1.1");
}

#[test]
fn parse_header_without_separator_is_malformed_header() {
    let input = b"GET / HTTP/1.1\r\nBadHeader\r\n\r\n".to_vec();
    let err = parse_request(&input, peer()).unwrap_err();
    match err {
        RequestError::MalformedHeader(line) => assert_eq!(line, "BadHeader"),
        _ => panic!("wrong error class"),
    }
}

#[test]
fn parse_header_needs_space_after_colon() {
    let input = b"GET / HTTP/1.1\r\nKey:no-space\r\n\r\n".to_vec();
    let err = parse_request(&input, peer()).unwrap_err();
    assert!(matches!(err, RequestError::MalformedHeader(_)));
}

#[test]
fn parse_non_numeric_content_length_is_invalid() {
    let input = b"GET / HTTP/1.1\r\nContent-Length: abc\r\n\r\n".to_vec();
    let err = parse_request(&input, peer()).unwrap_err();
    assert!(matches!(err, RequestError::InvalidContentLength));
}

#[test]
fn parse_empty_content_length_is_invalid() {
    let input = b"GET / HTTP/1.1\r\nContent-Length: \r\n\r\n".to_vec();
    let err = parse_request(&input, peer()).unwrap_err();
    assert!(matches!(err, RequestError::InvalidContentLength));
}

#[test]
fn parse_huge_content_length_is_invalid() {
    let input = b"GET / HTTP/1.1\r\nContent-Length: 99999999999999999999999999\r\n\r\n".to_vec();
    let err = parse_request(&input, peer()).unwrap_err();
    assert!(matches!(err, RequestError::InvalidContentLength));
}

#[test]
fn parse_truncated_body_is_io_error() {
    let input = b"GET / HTTP/1.1\r\nContent-Length: 10\r\n\r\nabc".to_vec();
    let err = parse_request(&input, peer()).unwrap_err();
    assert!(matches!(err, RequestError::IoError));
}

#[test]
fn parse_unterminated_headers_is_io_error() {
    // The blank line never arrives.
    let input = b"GET / HTTP/1.1\r\nHost: a\r\n".to_vec();
    let err = parse_request(&input, peer()).unwrap_err();
    assert!(matches!(err, RequestError::IoError));
}

#[test]
fn parse_duplicate_header_overwrites() {
    let input = b"GET / HTTP/1.1\r\nX-Tag: one\r\nX-Tag: two\r\n\r\n".to_vec();
    let (req, _) = parse_request(&input, peer()).unwrap();
    assert_eq!(req.headers.get("X-Tag"), Some("two".to_string()));
    assert_eq!(req.headers.len(), 1);
}

#[test]
fn parse_content_length_lookup_is_case_sensitive() {
    // The body is read only for the header stored exactly as
    // `Content-Length`; a differently-cased key is just another header.
    let input = b"GET / HTTP/1.1\r\ncontent-length: 4\r\n\r\nabcd".to_vec();
    let (req, used) = parse_request(&input, peer()).unwrap();
    assert!(req.body.is_empty());
    assert_eq!(used, input.len() - 4);
}

#[test]
fn content_length_values() {
    assert_eq!(parse_content_length("0"), Some(0));
    assert_eq!(parse_content_length("42"), Some(42));
    assert_eq!(parse_content_length("007"), Some(7));
    assert_eq!(parse_content_length(""), None);
    assert_eq!(parse_content_length("4 2"), None);
    assert_eq!(parse_content_length("-1"), None);
    assert_eq!(parse_content_length("+1"), None);
    assert_eq!(parse_content_length("12a"), None);
    assert_eq!(parse_content_length("99999999999999999999999999"), None);
}

#[test]
fn line_step_accumulates_until_carriage_return() {
    let mut line = String::new();
    assert!(!mws::parse::line_step(&mut line, b'h'));
    assert!(!mws::parse::line_step(&mut line, b'i'));
    assert!(mws::parse::line_step(&mut line, b'\r'));
    assert_eq!(line, "hi");
}

#[test]
fn parse_error_descriptions() {
    assert_eq!(
        RequestError::MissingMethod.describe(),
        "could not parse method"
    );
    assert_eq!(
        RequestError::MalformedHeader("x".to_string()).describe(),
        "could not parse header"
    );
}

#[test]
fn parse_terminator_second_byte_is_not_checked() {
    // The byte after a carriage return is read and discarded without
    // being inspected, so any byte may stand in for the line feed.
    let input = b"GET / HTTP/1.1\rX\rY".to_vec();
    let (req, used) = parse_request(&input, peer()).unwrap();
    assert_eq!(req.method, "GET");
    assert_eq!(req.headers.len(), 0);
    assert_eq!(used, input.len());
}

#[test]
fn parse_carriage_return_at_end_is_malformed_request_line() {
    // The terminator's second byte never arrives.
    let input = b"GET / HTTP/1.1\r".to_vec();
    let err = parse_request(&input, peer()).unwrap_err();
    assert!(matches!(err, RequestError::MalformedRequestLine));
}

#[test]
fn parse_trailing_space_gives_empty_version() {
    let input = b"GET / \r\n\r\n".to_vec();
    let (req, _) = parse_request(&input, peer()).unwrap();
    assert_eq!(req.method, "GET");
    assert_eq!(req.path, "/");
    assert_eq!(req.version, "");
}

#[test]
fn parse_leading_space_gives_empty_method() {
    let input = b" / HTTP/1.1\r\n\r\n".to_vec();
    let (req, _) = parse_request(&input, peer()).unwrap();
    assert_eq!(req.method, "");
    assert_eq!(req.path, "/");
    assert_eq!(req.version, "HTTP/1.1");
}
