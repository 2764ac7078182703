use vstd::prelude::*;

use crate::http_interface::{Field, FieldView, HTTPHeader, LineSpans, ParseResult};
use crate::parse_request_header::{
    field_at,
    field_line,
    is_field_name,
    is_plain_value,
    law_blank_line_separator,
    lemma_field_accepted,
};
use crate::parse_request_line::{
    is_method,
    is_path,
    lemma_line_accepted,
    line_end,
    line_spans_at,
    request_line,
};
use crate::parse_request_header::{
    field_run,
    lemma_field_run_progress,
    parse_http_request_header,
    RequestHeaderState,
};
use crate::parse_request_line::{
    lemma_line_run_progress,
    line_run,
    parse_http_request_line,
    RequestLineState,
};
use crate::parse_utility::Cursor;

verus! {

/// How far the request in a buffer could be read.
#[derive(Clone, Copy, Debug, PartialEq, Eq)]
pub enum RequestStatus {
    /// The request line and the header section, up to its blank line.
    Complete,
    /// The bytes end before the header section does.
    Incomplete,
    /// The bytes break the grammar.
    Malformed,
}

/// A request read from a buffer: how far it got, and what was recorded.
pub struct Request {
    pub status: RequestStatus,
    pub header: HTTPHeader,
}

pub open spec fn blank_field() -> FieldView {
    FieldView { is_separator: false, name_start: 0, name_end: 0, value_start: 0, value_end: 0 }
}

pub open spec fn zero_spans() -> LineSpans {
    LineSpans {
        method_start: 0,
        method_end: 0,
        path_start: 0,
        path_end: 0,
        protocol_start: 0,
        protocol_end: 0,
    }
}

/// The header lines of a buffer from `pos` on.
pub struct HeaderScan {
    pub fields: Seq<FieldView>,
    pub status: RequestStatus,
}

/// Reads header lines from `pos` on, each with a fresh field, until the
/// blank line (complete), the end of the bytes (incomplete) or a broken line
/// (malformed).
pub open spec fn header_scan(buf: Seq<u8>, pos: nat) -> HeaderScan
    decreases buf.len() - pos,
{
    let out = field_run(buf, pos, RequestHeaderState::Start, blank_field());
    match out.result {
        ParseResult::Complete => {
            if out.field.is_separator {
                HeaderScan { fields: seq![], status: RequestStatus::Complete }
            } else if pos < out.pos <= buf.len() {
                // always the case (`lemma_field_run_progress`); it bounds the recursion
                let rest = header_scan(buf, out.pos);
                HeaderScan { fields: seq![out.field] + rest.fields, status: rest.status }
            } else {
                HeaderScan { fields: seq![out.field], status: RequestStatus::Malformed }
            }
        },
        ParseResult::Again(_) => HeaderScan { fields: seq![], status: RequestStatus::Incomplete },
        _ => HeaderScan { fields: seq![], status: RequestStatus::Malformed },
    }
}

/// What reading a whole buffer as a request gives.
pub struct RequestScan {
    pub status: RequestStatus,
    pub spans: LineSpans,
    pub fields: Seq<FieldView>,
}

/// The request line from the start of the buffer, then, where it completes,
/// the header lines after it.
pub open spec fn request_scan(buf: Seq<u8>) -> RequestScan {
    let line = line_run(buf, 0, RequestLineState::Start, zero_spans());
    match line.result {
        ParseResult::Complete => {
            let rest = header_scan(buf, line.pos);
            RequestScan { status: rest.status, spans: line.spans, fields: rest.fields }
        },
        ParseResult::Again(_) => RequestScan {
            status: RequestStatus::Incomplete,
            spans: line.spans,
            fields: seq![],
        },
        _ => RequestScan { status: RequestStatus::Malformed, spans: line.spans, fields: seq![] },
    }
}

/// Reads the request at the start of `buf`: its request line, then its
/// header lines up to the blank line.
pub fn parse_request(buf: &[u8]) -> (r: Request)
    ensures
        r.header.wf(),
        r.status == request_scan(buf@).status,
        r.header.spans() == request_scan(buf@).spans,
        r.header.field_views() == request_scan(buf@).fields,
{
    let ghost scan = request_scan(buf@);
    let mut cursor = Cursor::new(buf);
    let mut header = HTTPHeader::new();
    proof {
        lemma_line_run_progress(buf@, 0, RequestLineState::Start, zero_spans());
    }
    let line = parse_http_request_line(&mut cursor, &mut header, RequestLineState::Start);
    match line {
        ParseResult::Complete => {},
        ParseResult::Again(_) => {
            return Request { status: RequestStatus::Incomplete, header };
        },
        _ => {
            return Request { status: RequestStatus::Malformed, header };
        },
    }
    assert(header.field_views() =~= seq![]);
    let mut status = RequestStatus::Malformed;
    loop
        invariant_except_break
            header.field_views() + header_scan(buf@, cursor.pos as nat).fields == scan.fields,
            header_scan(buf@, cursor.pos as nat).status == scan.status,
        invariant
            cursor.buf@ == buf@,
            cursor.pos <= buf@.len(),
            header.wf(),
            header.spans() == scan.spans,
            header.fields@.len() <= cursor.pos,
        ensures
            header.field_views() == scan.fields,
            status == scan.status,
        decreases buf@.len() - cursor.pos,
    {
        let ghost pos0 = cursor.pos as nat;
        let mut field = Field::new();
        let result = parse_http_request_header(&mut cursor, &mut field);
        proof {
            lemma_field_run_progress(buf@, pos0, RequestHeaderState::Start, blank_field());
        }
        match result {
            ParseResult::Complete => {
                if field.is_separator {
                    assert(header.field_views() =~= header.field_views() + seq![]);
                    status = RequestStatus::Complete;
                    break ;
                }
                let ghost before = header.field_views();
                header.add_field(field);
                assert(header.field_views() =~= before.push(field@));
                assert(before.push(field@) + header_scan(buf@, cursor.pos as nat).fields =~= before
                    + (seq![field@] + header_scan(buf@, cursor.pos as nat).fields));
            },
            ParseResult::Again(_) => {
                assert(header.field_views() =~= header.field_views() + seq![]);
                status = RequestStatus::Incomplete;
                break ;
            },
            _ => {
                assert(header.field_views() =~= header.field_views() + seq![]);
                status = RequestStatus::Malformed;
                break ;
            },
        }
    }
    Request { status, header }
}

/// A request made of a request line, one header field and the blank line is
/// read as complete, whatever follows it: the offsets of its request line
/// and its one field are recorded.
pub proof fn law_request_recognized(
    m: Seq<u8>,
    p: Seq<u8>,
    crlf1: bool,
    name: Seq<u8>,
    k: nat,
    value: Seq<u8>,
    w: nat,
    crlf2: bool,
    crlf3: bool,
    rest: Seq<u8>,
)
    requires
        is_method(m),
        is_path(p),
        is_field_name(name),
        is_plain_value(value),
    ensures
        ({
            let line = request_line(m, p, crlf1);
            let buf = line + field_line(name, k, value, w, crlf2) + line_end(crlf3) + rest;
            let scan = request_scan(buf);
            &&& scan.status == RequestStatus::Complete
            &&& scan.spans == line_spans_at(0, m.len(), p.len())
            &&& scan.fields == seq![field_at(blank_field(), line.len(), name.len(), k, value.len())]
        }),
{
    let e = Seq::<u8>::empty();
    let line = request_line(m, p, crlf1);
    let fl = field_line(name, k, value, w, crlf2);
    let eol = line_end(crlf3);
    let buf = line + fl + eol + rest;
    lemma_line_accepted(e, m, p, crlf1, fl + eol + rest, zero_spans());
    assert(e + line + (fl + eol + rest) =~= buf);
    lemma_field_accepted(line, name, k, value, w, crlf2, eol + rest, blank_field());
    assert(line + fl + (eol + rest) =~= buf);
    law_blank_line_separator(line + fl, crlf3, rest, blank_field());
    let l1 = line.len();
    let l2 = l1 + fl.len();
    let first = field_run(buf, l1, RequestHeaderState::Start, blank_field());
    assert(first.pos == l2);
    let tail = header_scan(buf, l2);
    assert(tail.fields =~= seq![]);
    assert(header_scan(buf, l1).fields =~= seq![first.field] + tail.fields);
}

} // verus!
