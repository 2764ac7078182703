use bytes::Bytes;
use rashin::http_interface::{HTTPHeader, ParseResult};
use rashin::parse_request_line::{parse_http_request_line, RequestLineState};
use rashin::parse_utility::Cursor;

#[test]
fn get_request_for_root() {
    let buf = Bytes::from("GET / HTTP/1.1\r\n");
    let mut cursor = Cursor::new(&buf);
    let mut header = HTTPHeader::new();
    let result = parse_http_request_line(&mut cursor, &mut header, RequestLineState::Start);
    assert!(matches!(result, ParseResult::Complete));
    assert_eq!(header.method(&buf), "GET");
    assert_eq!(header.path(&buf), "/");
    assert_eq!(header.protocol(&buf), "HTTP/1.1");
}

#[test]
fn get_request_for_index_html() {
    let buf = Bytes::from("GET /index.html HTTP/1.1\r\n");
    let mut cursor = Cursor::new(&buf);
    let mut header = HTTPHeader::new();
    let result = parse_http_request_line(&mut cursor, &mut header, RequestLineState::Start);
    assert!(matches!(result, ParseResult::Complete));
    assert_eq!(header.method(&buf), "GET");
    assert_eq!(header.path(&buf), "/index.html");
    assert_eq!(header.protocol(&buf), "HTTP/1.1");
}

#[test]
fn get_request_for_root_lf() {
    let buf = Bytes::from("GET / HTTP/1.1\n");
    let mut cursor = Cursor::new(&buf);
    let mut header = HTTPHeader::new();
    let result = parse_http_request_line(&mut cursor, &mut header, RequestLineState::Start);
    assert!(matches!(result, ParseResult::Complete));
    assert_eq!(header.method(&buf), "GET");
    assert_eq!(header.path(&buf), "/");
    assert_eq!(header.protocol(&buf), "HTTP/1.1");
}

#[test]
fn get_request_for_root_with_head_crlf() {
    let buf = Bytes::from("\r\n\rGET / HTTP/1.1\n");
    let mut cursor = Cursor::new(&buf);
    let mut header = HTTPHeader::new();
    let result = parse_http_request_line(&mut cursor, &mut header, RequestLineState::Start);
    assert!(matches!(result, ParseResult::Complete));
    assert_eq!(header.method(&buf), "GET");
    assert_eq!(header.path(&buf), "/");
    assert_eq!(header.protocol(&buf), "HTTP/1.1");
}

#[test]
fn invalid_space_request_should_failed() {
    let buf = Bytes::from("GET   /   HTTP/1.1\n");
    let mut cursor = Cursor::new(&buf);
    let mut header = HTTPHeader::new();
    let result = parse_http_request_line(&mut cursor, &mut header, RequestLineState::Start);
    assert!(matches!(result, ParseResult::Error));
}

#[test]
fn no_path_request_should_failed() {
    let buf = Bytes::from("GET HTTP/1.1\n");
    let mut cursor = Cursor::new(&buf);
    let mut header = HTTPHeader::new();
    let result = parse_http_request_line(&mut cursor, &mut header, RequestLineState::Start);
    assert!(matches!(result, ParseResult::Error));
}

#[test]
fn unknown_protocol_should_failed() {
    let buf = Bytes::from("GET / SMTP/1.1\n");
    let mut cursor = Cursor::new(&buf);
    let mut header = HTTPHeader::new();
    let result = parse_http_request_line(&mut cursor, &mut header, RequestLineState::Start);
    assert!(matches!(result, ParseResult::Error));
}

#[test]
fn unnecessary_suffix_should_failed() {
    let buf = Bytes::from("GET / HTTP/1.1xxx\n");
    let mut cursor = Cursor::new(&buf);
    let mut header = HTTPHeader::new();
    let result = parse_http_request_line(&mut cursor, &mut header, RequestLineState::Start);
    assert!(matches!(result, ParseResult::Error));
}

#[test]
fn lf_and_crlf_give_the_same_offsets() {
    let lf = Bytes::from("GET / HTTP/1.1\n");
    let crlf = Bytes::from("GET / HTTP/1.1\r\n");
    let mut h1 = HTTPHeader::new();
    let mut h2 = HTTPHeader::new();
    let r1 = parse_http_request_line(&mut Cursor::new(&lf), &mut h1, RequestLineState::Start);
    let r2 = parse_http_request_line(&mut Cursor::new(&crlf), &mut h2, RequestLineState::Start);
    assert_eq!(r1, ParseResult::Complete);
    assert_eq!(r2, ParseResult::Complete);
    assert_eq!((h1.method_start, h1.method_end), (h2.method_start, h2.method_end));
    assert_eq!((h1.path_start, h1.path_end), (h2.path_start, h2.path_end));
    assert_eq!((h1.protocol_start, h1.protocol_end), (h2.protocol_start, h2.protocol_end));
    assert_eq!((h1.path_start, h1.path_end), (4, 5));
    assert_eq!((h1.protocol_start, h1.protocol_end), (6, 14));
}

#[test]
fn noise_shifts_the_offsets_only() {
    let buf = b"\r\n\rGET / HTTP/1.1\n";
    let mut cursor = Cursor::new(buf);
    let mut header = HTTPHeader::new();
    let result = parse_http_request_line(&mut cursor, &mut header, RequestLineState::Start);
    assert_eq!(result, ParseResult::Complete);
    assert_eq!((header.method_start, header.method_end), (3, 6));
    assert_eq!(cursor.position(), buf.len());
}

#[test]
fn two_spaces_after_path_fail() {
    let buf = b"GET /  HTTP/1.1\r\n";
    let mut header = HTTPHeader::new();
    let result = parse_http_request_line(&mut Cursor::new(buf), &mut header, RequestLineState::Start);
    assert_eq!(result, ParseResult::Error);
}

#[test]
fn two_spaces_after_method_fail() {
    let buf = b"GET  HTTP/1.1\n";
    let mut header = HTTPHeader::new();
    let mut cursor = Cursor::new(buf);
    let result = parse_http_request_line(&mut cursor, &mut header, RequestLineState::Start);
    assert_eq!(result, ParseResult::Error);
    assert_eq!(cursor.position(), 5);
}

#[test]
fn leading_space_leaves_no_method() {
    let buf = b" GET / HTTP/1.1\n";
    let mut header = HTTPHeader::new();
    let result = parse_http_request_line(&mut Cursor::new(buf), &mut header, RequestLineState::Start);
    assert_eq!(result, ParseResult::Error);
    let buf = b"\r\n / HTTP/1.1\n";
    let result = parse_http_request_line(&mut Cursor::new(buf), &mut HTTPHeader::new(), RequestLineState::Start);
    assert_eq!(result, ParseResult::Error);
}

#[test]
fn control_byte_in_path_fails() {
    let buf = b"GET /a\tb HTTP/1.1\n";
    let mut header = HTTPHeader::new();
    let result = parse_http_request_line(&mut Cursor::new(buf), &mut header, RequestLineState::Start);
    assert_eq!(result, ParseResult::Error);
}

#[test]
fn cr_without_lf_fails() {
    let buf = b"GET / HTTP/1.1\rx";
    let mut header = HTTPHeader::new();
    let result = parse_http_request_line(&mut Cursor::new(buf), &mut header, RequestLineState::Start);
    assert_eq!(result, ParseResult::Error);
}

#[test]
fn protocol_mismatch_in_last_byte_fails() {
    let buf = b"GET / HTTP/1.0\r\n";
    let mut header = HTTPHeader::new();
    let result = parse_http_request_line(&mut Cursor::new(buf), &mut header, RequestLineState::Start);
    assert_eq!(result, ParseResult::Error);
}

#[test]
fn empty_input_waits_in_start() {
    let buf: &[u8] = b"";
    let mut header = HTTPHeader::new();
    let mut cursor = Cursor::new(buf);
    let result = parse_http_request_line(&mut cursor, &mut header, RequestLineState::Start);
    assert_eq!(result, ParseResult::Again(RequestLineState::Start));
    assert_eq!(cursor.position(), 0);
}

#[test]
fn partial_line_resumes_where_it_stopped() {
    let first = b"GET /ind".to_vec();
    let mut header = HTTPHeader::new();
    let mut cursor = Cursor::new(&first);
    let result = parse_http_request_line(&mut cursor, &mut header, RequestLineState::Start);
    assert_eq!(result, ParseResult::Again(RequestLineState::Path));
    let saved = cursor.position();
    assert_eq!(saved, 8);

    let full = b"GET /index.html HTTP/1.1\r\n".to_vec();
    let mut cursor = Cursor::new(&full);
    cursor.set_position(saved);
    let result = parse_http_request_line(&mut cursor, &mut header, RequestLineState::Path);
    assert_eq!(result, ParseResult::Complete);
    assert_eq!(header.method(&full), "GET");
    assert_eq!(header.path(&full), "/index.html");
    assert_eq!(header.protocol(&full), "HTTP/1.1");
}

#[test]
fn partial_protocol_resumes() {
    let first = b"GET / HTT".to_vec();
    let mut header = HTTPHeader::new();
    let mut cursor = Cursor::new(&first);
    let result = parse_http_request_line(&mut cursor, &mut header, RequestLineState::Start);
    assert_eq!(result, ParseResult::Again(RequestLineState::Protocol));
    let full = b"GET / HTTP/1.1\r\n".to_vec();
    let mut cursor2 = Cursor::new(&full);
    cursor2.set_position(cursor.position());
    let result = parse_http_request_line(&mut cursor2, &mut header, RequestLineState::Protocol);
    assert_eq!(result, ParseResult::Complete);
    assert_eq!(header.protocol(&full), "HTTP/1.1");
}
