use rashin::http_interface::{Field, HTTPHeader, ParseResult};
use rashin::parse_request_header::parse_http_request_header;
use rashin::parse_request_line::{parse_http_request_line, RequestLineState};
use rashin::parse_utility::Cursor;
use rashin::request::{parse_request, RequestStatus};

#[test]
fn http_parse_host_header_successfully() {
    let buf = "\
        GET / HTTP/1.1\r\n\
        Host: localhost:8080\r\n\
        "
    .as_bytes()
    .to_vec();
    let mut cursor = Cursor::new(&buf);

    let mut http_header = HTTPHeader::new();
    {
        let result = parse_http_request_line(&mut cursor, &mut http_header, RequestLineState::Start);
        assert!(matches!(result, ParseResult::Complete));
        assert_eq!(http_header.method(&buf), "GET");
    }

    {
        let mut field = Field::new();
        let result = parse_http_request_header(&mut cursor, &mut field);
        assert!(matches!(result, ParseResult::Complete));
        assert_eq!(field.name(&buf), "Host");
        assert_eq!(field.value(&buf), "localhost:8080");
    }
}

#[test]
fn whole_request_is_complete() {
    let buf = b"GET /index.html HTTP/1.1\r\nHost: localhost:8080\r\nAccept: */*\r\n\r\n";
    let request = parse_request(buf);
    assert_eq!(request.status, RequestStatus::Complete);
    assert_eq!(request.header.path(buf), "/index.html");
    assert_eq!(request.header.field_size, 2);
    assert_eq!(request.header.fields.len(), 2);
    assert_eq!(request.header.fields[0].name(buf), "Host");
    assert_eq!(request.header.fields[0].value(buf), "localhost:8080");
    assert_eq!(request.header.fields[1].name(buf), "Accept");
    assert_eq!(request.header.fields[1].value(buf), "*/*");
}

#[test]
fn request_without_blank_line_is_incomplete() {
    let buf = b"GET / HTTP/1.1\r\nHost: localhost:8080\r\n";
    let request = parse_request(buf);
    assert_eq!(request.status, RequestStatus::Incomplete);
    assert_eq!(request.header.fields.len(), 1);
}

#[test]
fn request_with_broken_line_is_malformed() {
    let request = parse_request(b"GET / SMTP/1.1\r\n\r\n");
    assert_eq!(request.status, RequestStatus::Malformed);
    assert_eq!(request.header.fields.len(), 0);
    let request = parse_request(b"GET / HTTP/1.1\r\nHost localhost\r\n\r\n");
    assert_eq!(request.status, RequestStatus::Malformed);
    assert_eq!(request.header.fields.len(), 0);
}

#[test]
fn empty_request_is_incomplete() {
    let request = parse_request(b"");
    assert_eq!(request.status, RequestStatus::Incomplete);
}
