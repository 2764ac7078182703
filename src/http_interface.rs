use vstd::prelude::*;
use vstd::string::StringSliceAdditionalSpecFns;
use vstd::utf8::valid_utf8;

use crate::parse_utility::utf8_str;

verus! {

/// The outcome of one parse step.
///
/// `Again(s)`: the input ran out; resume in state `s` once more bytes are
/// there. `Advance(s)`: a part is finished; go on in state `s`.
/// `Complete`: the whole element is finished. `Error`: the input breaks the
/// grammar, and the element is given up.
#[derive(Clone, Copy, Debug, PartialEq, Eq)]
pub enum ParseResult<T> {
    Again(T),
    Advance(T),
    Complete,
    Error,
}

/// The bytes of a span, where it lies inside the buffer.
pub open spec fn span_bytes(buf: Seq<u8>, start: nat, end: nat) -> Seq<u8> {
    buf.subrange(start as int, end as int)
}

pub open spec fn span_in(buf: Seq<u8>, start: usize, end: usize) -> bool {
    start <= end && end <= buf.len()
}

/// What a request-line parse has recorded: offsets of the method, the path
/// and the protocol.
pub struct LineSpans {
    pub method_start: nat,
    pub method_end: nat,
    pub path_start: nat,
    pub path_end: nat,
    pub protocol_start: nat,
    pub protocol_end: nat,
}

/// One header line: a name and a value, or the blank line that ends the
/// header section.
#[derive(Clone, Copy, Debug)]
pub struct Field {
    pub is_separator: bool,
    pub name_start: usize,
    pub name_end: usize,
    pub value_start: usize,
    pub value_end: usize,
}

pub struct FieldView {
    pub is_separator: bool,
    pub name_start: nat,
    pub name_end: nat,
    pub value_start: nat,
    pub value_end: nat,
}

impl View for Field {
    type V = FieldView;

    open spec fn view(&self) -> FieldView {
        FieldView {
            is_separator: self.is_separator,
            name_start: self.name_start as nat,
            name_end: self.name_end as nat,
            value_start: self.value_start as nat,
            value_end: self.value_end as nat,
        }
    }
}

/// The request line and the header fields of one request, as offsets into the
/// buffer that holds the request.
pub struct HTTPHeader {
    pub method_start: usize,
    pub method_end: usize,
    pub path_start: usize,
    pub path_end: usize,
    pub protocol_start: usize,
    pub protocol_end: usize,
    pub field_size: usize,
    pub fields: Vec<Field>,
}

impl HTTPHeader {
    /// `field_size` counts the recorded fields.
    pub open spec fn wf(&self) -> bool {
        self.field_size == self.fields@.len()
    }

    pub open spec fn spans(&self) -> LineSpans {
        LineSpans {
            method_start: self.method_start as nat,
            method_end: self.method_end as nat,
            path_start: self.path_start as nat,
            path_end: self.path_end as nat,
            protocol_start: self.protocol_start as nat,
            protocol_end: self.protocol_end as nat,
        }
    }

    pub open spec fn field_views(&self) -> Seq<FieldView> {
        self.fields@.map_values(|f: Field| f@)
    }

    pub fn new() -> (r: HTTPHeader)
        ensures
            r.wf(),
            r.spans() == (LineSpans {
                method_start: 0,
                method_end: 0,
                path_start: 0,
                path_end: 0,
                protocol_start: 0,
                protocol_end: 0,
            }),
            r.fields@.len() == 0,
    {
        HTTPHeader {
            method_start: 0,
            method_end: 0,
            path_start: 0,
            path_end: 0,
            protocol_start: 0,
            protocol_end: 0,
            field_size: 0,
            fields: Vec::new(),
        }
    }

    /// The method, read from the buffer that was parsed.
    pub fn method<'a>(&self, buffer: &'a [u8]) -> (r: &'a str)
        requires
            span_in(buffer@, self.method_start, self.method_end),
            valid_utf8(span_bytes(buffer@, self.method_start as nat, self.method_end as nat)),
        ensures
            r.spec_bytes() == span_bytes(buffer@, self.method_start as nat, self.method_end as nat),
    {
        span_str(buffer, self.method_start, self.method_end)
    }

    /// The path, read from the buffer that was parsed.
    pub fn path<'a>(&self, buffer: &'a [u8]) -> (r: &'a str)
        requires
            span_in(buffer@, self.path_start, self.path_end),
            valid_utf8(span_bytes(buffer@, self.path_start as nat, self.path_end as nat)),
        ensures
            r.spec_bytes() == span_bytes(buffer@, self.path_start as nat, self.path_end as nat),
    {
        span_str(buffer, self.path_start, self.path_end)
    }

    /// The protocol, read from the buffer that was parsed.
    pub fn protocol<'a>(&self, buffer: &'a [u8]) -> (r: &'a str)
        requires
            span_in(buffer@, self.protocol_start, self.protocol_end),
            valid_utf8(span_bytes(buffer@, self.protocol_start as nat, self.protocol_end as nat)),
        ensures
            r.spec_bytes() == span_bytes(
                buffer@,
                self.protocol_start as nat,
                self.protocol_end as nat,
            ),
    {
        span_str(buffer, self.protocol_start, self.protocol_end)
    }

    /// Appends a parsed field.
    pub fn add_field(&mut self, field: Field)
        requires
            old(self).wf(),
            old(self).fields@.len() < usize::MAX,
        ensures
            final(self).wf(),
            final(self).fields@ == old(self).fields@.push(field),
            final(self).spans() == old(self).spans(),
    {
        self.fields.push(field);
        self.field_size = self.field_size + 1;
    }
}

impl Field {
    pub fn new() -> (r: Field)
        ensures
            r@ == (FieldView {
                is_separator: false,
                name_start: 0,
                name_end: 0,
                value_start: 0,
                value_end: 0,
            }),
    {
        Field { is_separator: false, name_start: 0, name_end: 0, value_start: 0, value_end: 0 }
    }

    /// The field name, read from the buffer that was parsed.
    pub fn name<'a>(&self, buffer: &'a [u8]) -> (r: &'a str)
        requires
            span_in(buffer@, self.name_start, self.name_end),
            valid_utf8(span_bytes(buffer@, self.name_start as nat, self.name_end as nat)),
        ensures
            r.spec_bytes() == span_bytes(buffer@, self.name_start as nat, self.name_end as nat),
    {
        span_str(buffer, self.name_start, self.name_end)
    }

    /// The field value, read from the buffer that was parsed.
    pub fn value<'a>(&self, buffer: &'a [u8]) -> (r: &'a str)
        requires
            span_in(buffer@, self.value_start, self.value_end),
            valid_utf8(span_bytes(buffer@, self.value_start as nat, self.value_end as nat)),
        ensures
            r.spec_bytes() == span_bytes(buffer@, self.value_start as nat, self.value_end as nat),
    {
        span_str(buffer, self.value_start, self.value_end)
    }
}

fn span_str<'a>(buffer: &'a [u8], start: usize, end: usize) -> (r: &'a str)
    requires
        span_in(buffer@, start, end),
        valid_utf8(span_bytes(buffer@, start as nat, end as nat)),
    ensures
        r.spec_bytes() == span_bytes(buffer@, start as nat, end as nat),
{
    let bytes = &buffer[start..end];
    match utf8_str(bytes) {
        Some(s) => s,
        None => {
            proof {
                assert(false);
            }
            ""
        },
    }
}

} // verus!
