use rashin::parse_utility::{is_tchar, is_vchar, read_byte, Cursor, ReadResult};

#[test]
fn read_byte_steps_through_the_buffer() {
    let buf = b"ab";
    let mut cursor = Cursor::new(buf);
    assert_eq!(read_byte(&mut cursor), ReadResult::Byte(b'a'));
    assert_eq!(cursor.position(), 1);
    assert_eq!(read_byte(&mut cursor), ReadResult::Byte(b'b'));
    assert_eq!(read_byte(&mut cursor), ReadResult::Again);
    assert_eq!(cursor.position(), 2);
}

#[test]
fn read_byte_past_the_end_stays() {
    let buf = b"ab";
    let mut cursor = Cursor::new(buf);
    cursor.set_position(9);
    assert_eq!(read_byte(&mut cursor), ReadResult::Again);
    assert_eq!(cursor.position(), 9);
}

#[test]
fn token_characters() {
    for b in b"!#$%&'*+-.^_`|~09azAZ" {
        assert!(is_tchar(*b), "{}", *b as char);
    }
    for b in b" \"(),/:;<=>?@[\\]{}\r\n\t" {
        assert!(!is_tchar(*b), "{}", *b as char);
    }
    assert!(!is_tchar(0x7f));
    assert!(!is_tchar(0x80));
}

#[test]
fn visible_characters() {
    assert!(is_vchar(b'!'));
    assert!(is_vchar(b'~'));
    assert!(is_vchar(b':'));
    assert!(!is_vchar(b' '));
    assert!(!is_vchar(b'\t'));
    assert!(!is_vchar(0x7f));
    assert!(!is_vchar(0xc3));
}
