use bytes::Bytes;
use rashin::http_interface::{Field, HTTPHeader, ParseResult};
use rashin::parse_request_header::{
    parse_http_request_header, process_reserved_header, resume_http_request_header,
    RequestHeaderState,
};
use rashin::parse_utility::Cursor;

#[test]
fn parse_request_header_parse_host_header_successfully() {
    let mut field = Field::new();
    let buf = Bytes::from("Host: localhost:8080\r\n");
    let mut cursor = Cursor::new(&buf);
    let result = parse_http_request_header(&mut cursor, &mut field);
    assert!(matches!(result, ParseResult::Complete));
    assert_eq!(field.name(&buf), "Host");
    assert_eq!(field.value(&buf), "localhost:8080");
}

#[test]
fn parse_header_with_ows_successfully() {
    let mut field = Field::new();
    let buf = Bytes::from("Host:     localhost:8080      \r\n");
    let mut cursor = Cursor::new(&buf);
    let result = parse_http_request_header(&mut cursor, &mut field);

    assert!(matches!(result, ParseResult::Complete));
    assert_eq!(field.name(&buf), "Host");
    assert_eq!(field.value(&buf), "localhost:8080");
}

#[test]
fn parse_header_end_with_lf_successfully() {
    let mut field = Field::new();
    let buf = Bytes::from("Host: localhost:8080\n");
    let mut cursor = &mut Cursor::new(&buf);
    let result = parse_http_request_header(&mut cursor, &mut field);
    assert!(matches!(result, ParseResult::Complete));
    assert_eq!(field.name(&buf), "Host");
    assert_eq!(field.value(&buf), "localhost:8080");
}

#[test]
fn parse_consecutive_headers_successfully() {
    let mut field = Field::new();
    let buf = Bytes::from("Host: localhost:8080\r\nContentType: text-html\r\n");
    let mut cursor = Cursor::new(&buf);

    let result1 = parse_http_request_header(&mut cursor, &mut field);
    assert!(matches!(result1, ParseResult::Complete));
    assert_eq!(field.name(&buf), "Host");
    assert_eq!(field.value(&buf), "localhost:8080");

    let result2 = parse_http_request_header(&mut cursor, &mut field);
    assert!(matches!(result2, ParseResult::Complete));
    assert_eq!(field.name(&buf), "ContentType");
    assert_eq!(field.value(&buf), "text-html");
}

#[test]
fn parse_paused_input_successfully() {
    let mut field = Field::new();
    let mut buf = "Host: local".as_bytes().to_vec();
    let mut cursor = Cursor::new(&mut buf);

    let result1 = parse_http_request_header(&mut cursor, &mut field);
    assert!(matches!(result1, ParseResult::Again(RequestHeaderState::FieldValue)));
    assert_eq!(field.name(cursor.get_ref()), "Host");
}

#[test]
fn parse_empty_line_crlf() {
    let mut field = Field::new();
    let buf = Bytes::from("\r\n");
    let mut cursor = Cursor::new(&buf);
    let result = parse_http_request_header(&mut cursor, &mut field);
    assert!(field.is_separator);
    assert!(matches!(result, ParseResult::Complete));
}

#[test]
fn parse_empty_line_lf() {
    let mut field = Field::new();
    let buf = Bytes::from("\n");
    let mut cursor = Cursor::new(&buf);
    let result = parse_http_request_header(&mut cursor, &mut field);
    assert!(field.is_separator);
    assert!(matches!(result, ParseResult::Complete));
}

#[test]
fn single_trailing_space_is_trimmed() {
    let mut field = Field::new();
    let buf = b"Host: localhost:8080 \r\n";
    let result = parse_http_request_header(&mut Cursor::new(buf), &mut field);
    assert_eq!(result, ParseResult::Complete);
    assert_eq!(field.value(buf), "localhost:8080");
}

#[test]
fn inner_single_whitespace_is_kept() {
    let mut field = Field::new();
    let buf = b"Accept: a b\tc\n";
    let result = parse_http_request_header(&mut Cursor::new(buf), &mut field);
    assert_eq!(result, ParseResult::Complete);
    assert_eq!(field.name(buf), "Accept");
    assert_eq!(field.value(buf), "a b\tc");
}

#[test]
fn two_inner_spaces_fail() {
    let mut field = Field::new();
    let buf = b"Accept: a  b\r\n";
    let result = parse_http_request_header(&mut Cursor::new(buf), &mut field);
    assert_eq!(result, ParseResult::Error);
}

#[test]
fn non_token_name_fails() {
    let mut field = Field::new();
    let buf = b"Ho st: x\r\n";
    let result = parse_http_request_header(&mut Cursor::new(buf), &mut field);
    assert_eq!(result, ParseResult::Error);
    let buf = b"(Host): x\r\n";
    let result = parse_http_request_header(&mut Cursor::new(buf), &mut Field::new());
    assert_eq!(result, ParseResult::Error);
}

#[test]
fn empty_value_fails() {
    let mut field = Field::new();
    let buf = b"Host: \r\n";
    let result = parse_http_request_header(&mut Cursor::new(buf), &mut field);
    assert_eq!(result, ParseResult::Error);
}

#[test]
fn cr_then_other_byte_fails() {
    let mut field = Field::new();
    let buf = b"Host: x\rx";
    let result = parse_http_request_header(&mut Cursor::new(buf), &mut field);
    assert_eq!(result, ParseResult::Error);
    let mut blank = Field::new();
    let result = parse_http_request_header(&mut Cursor::new(b"\rx"), &mut blank);
    assert_eq!(result, ParseResult::Error);
    assert!(blank.is_separator);
}

#[test]
fn paused_value_resumes() {
    let mut field = Field::new();
    let first = b"Host: local".to_vec();
    let mut cursor = Cursor::new(&first);
    let result = parse_http_request_header(&mut cursor, &mut field);
    assert_eq!(result, ParseResult::Again(RequestHeaderState::FieldValue));
    let full = b"Host: localhost:8080   \r\n".to_vec();
    let mut cursor2 = Cursor::new(&full);
    cursor2.set_position(cursor.position());
    let result = resume_http_request_header(&mut cursor2, &mut field, RequestHeaderState::FieldValue);
    assert_eq!(result, ParseResult::Complete);
    assert_eq!(field.name(&full), "Host");
    assert_eq!(field.value(&full), "localhost:8080");
    assert_eq!(cursor2.position(), full.len());
}

#[test]
fn paused_after_cr_resumes_in_end() {
    let mut field = Field::new();
    let first = b"Host: x\r".to_vec();
    let mut cursor = Cursor::new(&first);
    let result = parse_http_request_header(&mut cursor, &mut field);
    assert_eq!(result, ParseResult::Again(RequestHeaderState::End));
    let full = b"Host: x\r\n".to_vec();
    let mut cursor2 = Cursor::new(&full);
    cursor2.set_position(cursor.position());
    let result = resume_http_request_header(&mut cursor2, &mut field, RequestHeaderState::End);
    assert_eq!(result, ParseResult::Complete);
    assert_eq!(field.value(&full), "x");
}

#[test]
fn reserved_header_hook_keeps_the_header() {
    let mut header = HTTPHeader::new();
    process_reserved_header(&mut header, "Host", "localhost");
    assert_eq!(header.field_size, 0);
    assert_eq!(header.fields.len(), 0);
}
