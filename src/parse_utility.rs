use vstd::prelude::*;
use vstd::string::StringSliceAdditionalSpecFns;
use vstd::utf8::valid_utf8;

verus! {

pub const CR: u8 = 0x0d;

pub const LF: u8 = 0x0a;

pub const SP: u8 = 0x20;

pub const HTAB: u8 = 0x09;

/// A read position over a borrowed byte buffer.
///
/// The position may stand past the end of the buffer; reading there yields
/// no byte. A parser that must wait for more input keeps the position, and
/// resumes over a longer buffer with `set_position`.
pub struct Cursor<'a> {
    pub buf: &'a [u8],
    pub pos: usize,
}

impl<'a> Cursor<'a> {
    pub fn new(buf: &'a [u8]) -> (r: Cursor<'a>)
        ensures
            r.buf@ == buf@,
            r.pos == 0,
    {
        Cursor { buf, pos: 0 }
    }

    pub fn position(&self) -> (r: usize)
        ensures
            r == self.pos,
    {
        self.pos
    }

    pub fn set_position(&mut self, pos: usize)
        ensures
            final(self).pos == pos,
            final(self).buf@ == old(self).buf@,
    {
        self.pos = pos;
    }

    pub fn get_ref(&self) -> (r: &'a [u8])
        ensures
            r@ == self.buf@,
    {
        self.buf
    }
}

/// What one attempt to read a byte gave.
#[derive(Clone, Copy, Debug, PartialEq, Eq)]
pub enum ReadResult {
    /// The byte read.
    Byte(u8),
    /// No byte is there yet.
    Again,
    /// The source failed; a buffer never does.
    Error,
}

/// Reads the byte under the cursor and steps past it; at or past the end of
/// the buffer nothing is read and the cursor stays where it is.
pub fn read_byte(cursor: &mut Cursor) -> (r: ReadResult)
    ensures
        final(cursor).buf@ == old(cursor).buf@,
        old(cursor).pos < old(cursor).buf@.len() ==> r == ReadResult::Byte(old(cursor).buf@[old(cursor).pos as int])
            && final(cursor).pos == old(cursor).pos + 1,
        old(cursor).pos >= old(cursor).buf@.len() ==> r == ReadResult::Again && final(cursor).pos == old(cursor).pos,
{
    if cursor.pos < cursor.buf.len() {
        let b = cursor.buf[cursor.pos];
        cursor.pos = cursor.pos + 1;
        ReadResult::Byte(b)
    } else {
        ReadResult::Again
    }
}

pub open spec fn spec_is_alphanumeric(b: u8) -> bool {
    (0x30 <= b && b <= 0x39) || (0x41 <= b && b <= 0x5a) || (0x61 <= b && b <= 0x7a)
}

/// Token characters of RFC 9110:
/// `!#$%&'*+-.^_`|~`, digits and letters.
pub open spec fn spec_is_tchar(b: u8) -> bool {
    spec_is_alphanumeric(b) || b == 0x21 || b == 0x23 || b == 0x24 || b == 0x25 || b == 0x26
        || b == 0x27 || b == 0x2a || b == 0x2b || b == 0x2d || b == 0x2e || b == 0x5e || b == 0x5f
        || b == 0x60 || b == 0x7c || b == 0x7e
}

/// Visible characters of RFC 9110: graphic ASCII, `!` through `~`.
pub open spec fn spec_is_vchar(b: u8) -> bool {
    0x21 <= b && b <= 0x7e
}

/// Whitespace allowed around and inside a field value.
pub open spec fn spec_is_ws(b: u8) -> bool {
    b == SP || b == HTAB
}

/// Checks whether a byte is a token character (`tchar`), the class of the
/// bytes of a field name.
pub fn is_tchar(byte: u8) -> (r: bool)
    ensures
        r == spec_is_tchar(byte),
{
    if (0x30 <= byte && byte <= 0x39) || (0x41 <= byte && byte <= 0x5a) || (0x61 <= byte && byte
        <= 0x7a) {
        return true;
    }
    match byte {
        0x21 | 0x23 | 0x24 | 0x25 | 0x26 | 0x27 | 0x2a | 0x2b | 0x2d | 0x2e | 0x5e | 0x5f | 0x60
        | 0x7c | 0x7e => true,
        _ => false,
    }
}

/// Checks whether a byte is a visible character (`VCHAR`).
pub fn is_vchar(byte: u8) -> (r: bool)
    ensures
        r == spec_is_vchar(byte),
{
    0x21 <= byte && byte <= 0x7e
}

/// Relies on std::str::from_utf8: it accepts exactly the valid UTF-8
/// sequences, and the string it gives holds the same bytes.
#[verifier::external_body]
pub(crate) fn utf8_str<'a>(bytes: &'a [u8]) -> (r: Option<&'a str>)
    ensures
        r.is_some() <==> valid_utf8(bytes@),
        r matches Some(s) ==> s.spec_bytes() == bytes@,
{
    std::str::from_utf8(bytes).ok()
}

} // verus!
