use vstd::prelude::*;

use crate::http_interface::{span_bytes, HTTPHeader, LineSpans, ParseResult};
use crate::parse_utility::{read_byte, spec_is_vchar, Cursor, ReadResult, CR, LF, SP};

verus! {

/// Where a request-line parse stands.
#[derive(Clone, Copy, Debug, PartialEq, Eq)]
pub enum RequestLineState {
    Start,
    Method,
    Path,
    Protocol,
    End,
}

/// The one protocol token that is accepted: `HTTP/1.1`.
pub open spec fn protocol_token() -> Seq<u8> {
    seq![0x48u8, 0x54u8, 0x54u8, 0x50u8, 0x2fu8, 0x31u8, 0x2eu8, 0x31u8]
}

/// Where a request-line parse ends: its result, the cursor position after
/// it, and the offsets it recorded.
pub struct LineOutcome {
    pub result: ParseResult<RequestLineState>,
    pub pos: nat,
    pub spans: LineSpans,
}

pub open spec fn line_stop(result: ParseResult<RequestLineState>, pos: nat, spans: LineSpans) -> LineOutcome {
    LineOutcome { result, pos, spans }
}

/// The request-line state machine, run over `buf` from `pos` in state `st`
/// with the offsets `h` recorded so far, one byte at a time:
///
/// - `Start` skips CR and LF; the first other byte opens the method, unless
///   it is a space: the method cannot be empty.
/// - `Method` runs to the first space, which closes the method and opens
///   the path.
/// - `Path` takes visible characters up to the next space, which closes the
///   path and opens the protocol; any other byte is an error, and so is a
///   space where the path should begin: the path cannot be empty.
/// - `Protocol` matches `HTTP/1.1` byte by byte; the eighth byte closes it.
/// - `End` takes LF, or CR then LF, and completes; anything else is an error.
///
/// Where the bytes run out the run stops with `Again` in the state it was in.
pub open spec fn line_run(buf: Seq<u8>, pos: nat, st: RequestLineState, h: LineSpans) -> LineOutcome
    decreases buf.len() - pos,
{
    if pos >= buf.len() {
        line_stop(ParseResult::Again(st), pos, h)
    } else {
        let b = buf[pos as int];
        let next = (pos + 1) as nat;
        match st {
            RequestLineState::Start => {
                if b == CR || b == LF {
                    line_run(buf, next, RequestLineState::Start, h)
                } else if b == SP {
                    line_stop(ParseResult::Error, next, h)
                } else {
                    line_run(buf, next, RequestLineState::Method, LineSpans { method_start: pos, ..h })
                }
            },
            RequestLineState::Method => {
                if b == SP {
                    line_run(
                        buf,
                        next,
                        RequestLineState::Path,
                        LineSpans { method_end: pos, path_start: next, ..h },
                    )
                } else {
                    line_run(buf, next, RequestLineState::Method, h)
                }
            },
            RequestLineState::Path => {
                if b == SP {
                    if pos == h.path_start {
                        line_stop(ParseResult::Error, next, h)
                    } else {
                        line_run(
                            buf,
                            next,
                            RequestLineState::Protocol,
                            LineSpans { path_end: pos, protocol_start: next, ..h },
                        )
                    }
                } else if spec_is_vchar(b) {
                    line_run(buf, next, RequestLineState::Path, h)
                } else {
                    line_stop(ParseResult::Error, next, h)
                }
            },
            RequestLineState::Protocol => {
                let off = pos - h.protocol_start;
                if 0 <= off < 8 && b == protocol_token()[off] {
                    if off == 7 {
                        line_run(buf, next, RequestLineState::End, LineSpans { protocol_end: next, ..h })
                    } else {
                        line_run(buf, next, RequestLineState::Protocol, h)
                    }
                } else {
                    line_stop(ParseResult::Error, next, h)
                }
            },
            RequestLineState::End => {
                if b == LF {
                    line_stop(ParseResult::Complete, next, h)
                } else if b == CR {
                    if next >= buf.len() {
                        line_stop(ParseResult::Again(RequestLineState::End), next, h)
                    } else if buf[next as int] == LF {
                        line_stop(ParseResult::Complete, next + 1, h)
                    } else {
                        line_stop(ParseResult::Error, next + 1, h)
                    }
                } else {
                    line_stop(ParseResult::Error, next, h)
                }
            },
        }
    }
}

/// One step of the request-line state machine: state `st` run from `pos`
/// until it is left. The step ends with `Advance` to the next state, at the
/// position after the byte that left `st` and with the offsets recorded
/// there; or it ends as `line_run` does, with `Complete`, `Error`, or
/// `Again(st)` where the bytes run out.
pub open spec fn line_step(buf: Seq<u8>, pos: nat, st: RequestLineState, h: LineSpans) -> LineOutcome
    decreases buf.len() - pos,
{
    if pos >= buf.len() {
        line_stop(ParseResult::Again(st), pos, h)
    } else {
        let b = buf[pos as int];
        let next = (pos + 1) as nat;
        match st {
            RequestLineState::Start => {
                if b == CR || b == LF {
                    line_step(buf, next, RequestLineState::Start, h)
                } else if b == SP {
                    line_stop(ParseResult::Error, next, h)
                } else {
                    line_stop(
                        ParseResult::Advance(RequestLineState::Method),
                        next,
                        LineSpans { method_start: pos, ..h },
                    )
                }
            },
            RequestLineState::Method => {
                if b == SP {
                    line_stop(
                        ParseResult::Advance(RequestLineState::Path),
                        next,
                        LineSpans { method_end: pos, path_start: next, ..h },
                    )
                } else {
                    line_step(buf, next, RequestLineState::Method, h)
                }
            },
            RequestLineState::Path => {
                if b == SP {
                    if pos == h.path_start {
                        line_stop(ParseResult::Error, next, h)
                    } else {
                        line_stop(
                            ParseResult::Advance(RequestLineState::Protocol),
                            next,
                            LineSpans { path_end: pos, protocol_start: next, ..h },
                        )
                    }
                } else if spec_is_vchar(b) {
                    line_step(buf, next, RequestLineState::Path, h)
                } else {
                    line_stop(ParseResult::Error, next, h)
                }
            },
            RequestLineState::Protocol => {
                let off = pos - h.protocol_start;
                if 0 <= off < 8 && b == protocol_token()[off] {
                    if off == 7 {
                        line_stop(
                            ParseResult::Advance(RequestLineState::End),
                            next,
                            LineSpans { protocol_end: next, ..h },
                        )
                    } else {
                        line_step(buf, next, RequestLineState::Protocol, h)
                    }
                } else {
                    line_stop(ParseResult::Error, next, h)
                }
            },
            RequestLineState::End => {
                if b == LF {
                    line_stop(ParseResult::Complete, next, h)
                } else if b == CR {
                    if next >= buf.len() {
                        line_stop(ParseResult::Again(RequestLineState::End), next, h)
                    } else if buf[next as int] == LF {
                        line_stop(ParseResult::Complete, next + 1, h)
                    } else {
                        line_stop(ParseResult::Error, next + 1, h)
                    }
                } else {
                    line_stop(ParseResult::Error, next, h)
                }
            },
        }
    }
}

/// A request-line run never moves backwards nor past the end of the bytes,
/// and where there is a byte to read it moves forwards.
pub proof fn lemma_line_run_progress(buf: Seq<u8>, pos: nat, st: RequestLineState, h: LineSpans)
    requires
        pos <= buf.len(),
    ensures
        pos <= line_run(buf, pos, st, h).pos <= buf.len(),
        pos < buf.len() ==> pos < line_run(buf, pos, st, h).pos,
    decreases buf.len() - pos,
{
    if pos < buf.len() {
        let b = buf[pos as int];
        let next = (pos + 1) as nat;
        match st {
            RequestLineState::Start => {
                if b == CR || b == LF {
                    lemma_line_run_progress(buf, next, RequestLineState::Start, h);
                } else if b != SP {
                    lemma_line_run_progress(buf, next, RequestLineState::Method, LineSpans { method_start: pos, ..h });
                }
            },
            RequestLineState::Method => {
                if b == SP {
                    lemma_line_run_progress(buf, next, RequestLineState::Path, LineSpans { method_end: pos, path_start: next, ..h });
                } else {
                    lemma_line_run_progress(buf, next, RequestLineState::Method, h);
                }
            },
            RequestLineState::Path => {
                if b == SP && pos != h.path_start {
                    lemma_line_run_progress(buf, next, RequestLineState::Protocol, LineSpans { path_end: pos, protocol_start: next, ..h });
                } else if b != SP && spec_is_vchar(b) {
                    lemma_line_run_progress(buf, next, RequestLineState::Path, h);
                }
            },
            RequestLineState::Protocol => {
                let off = pos - h.protocol_start;
                if 0 <= off < 8 && b == protocol_token()[off] {
                    if off == 7 {
                        lemma_line_run_progress(buf, next, RequestLineState::End, LineSpans { protocol_end: next, ..h });
                    } else {
                        lemma_line_run_progress(buf, next, RequestLineState::Protocol, h);
                    }
                }
            },
            RequestLineState::End => {},
        }
    }
}

/// A step from `(pos0, st0, h0)` to `(pos1, h1)` with result `r` agrees with
/// the run: it either stops where the run stops, or advances to a
/// configuration from which the run goes on the same.
spec fn line_step_agrees(
    buf: Seq<u8>,
    pos0: nat,
    st0: RequestLineState,
    h0: LineSpans,
    r: ParseResult<RequestLineState>,
    pos1: nat,
    h1: LineSpans,
) -> bool {
    match r {
        ParseResult::Advance(s) => pos0 < pos1 <= buf.len() && line_run(buf, pos0, st0, h0)
            == line_run(buf, pos1, s, h1),
        _ => line_run(buf, pos0, st0, h0) == line_stop(r, pos1, h1),
    }
}

/// A step agrees with the run: it stops where the run stops, or it advances
/// to a configuration from which the run goes on the same.
proof fn lemma_line_step_run(buf: Seq<u8>, pos: nat, st: RequestLineState, h: LineSpans)
    ensures
        ({
            let step = line_step(buf, pos, st, h);
            line_step_agrees(buf, pos, st, h, step.result, step.pos, step.spans)
        }),
    decreases buf.len() - pos,
{
    if pos < buf.len() {
        let b = buf[pos as int];
        let next = (pos + 1) as nat;
        match st {
            RequestLineState::Start => {
                if b == CR || b == LF {
                    lemma_line_step_run(buf, next, RequestLineState::Start, h);
                }
            },
            RequestLineState::Method => {
                if b != SP {
                    lemma_line_step_run(buf, next, RequestLineState::Method, h);
                }
            },
            RequestLineState::Path => {
                if b != SP && spec_is_vchar(b) {
                    lemma_line_step_run(buf, next, RequestLineState::Path, h);
                }
            },
            RequestLineState::Protocol => {
                let off = pos - h.protocol_start;
                if 0 <= off < 7 && b == protocol_token()[off] {
                    lemma_line_step_run(buf, next, RequestLineState::Protocol, h);
                }
            },
            RequestLineState::End => {},
        }
    }
}

/// Parses a request line from the cursor on, starting in `state`.
///
/// The parse goes on until it completes, fails, or runs out of bytes; in the
/// last case it returns `Again` with the state to resume in, and the cursor
/// stands after the last byte, so that a later call over a longer buffer, at
/// the same position and with the same header, carries on where this one
/// stopped.
pub fn parse_http_request_line(
    cursor: &mut Cursor,
    header: &mut HTTPHeader,
    state: RequestLineState,
) -> (r: ParseResult<RequestLineState>)
    ensures
        ({
            let out = line_run(old(cursor).buf@, old(cursor).pos as nat, state, old(header).spans());
            &&& r == out.result
            &&& final(cursor).pos == out.pos
            &&& final(header).spans() == out.spans
        }),
        final(cursor).buf@ == old(cursor).buf@,
        final(header).fields@ == old(header).fields@,
        final(header).field_size == old(header).field_size,
{
    let ghost buf = cursor.buf@;
    let ghost out = line_run(buf, cursor.pos as nat, state, header.spans());
    let mut st = state;
    loop
        invariant
            cursor.buf@ == buf,
            buf == old(cursor).buf@,
            out == line_run(buf, old(cursor).pos as nat, state, old(header).spans()),
            line_run(buf, cursor.pos as nat, st, header.spans()) == out,
            header.fields@ == old(header).fields@,
            header.field_size == old(header).field_size,
        decreases buf.len() - cursor.pos,
    {
        let ghost p0 = cursor.pos as nat;
        let ghost h0 = header.spans();
        proof {
            lemma_line_step_run(buf, p0, st, h0);
        }
        let result = match st {
            RequestLineState::Start => parse_start(cursor, header),
            RequestLineState::Method => parse_method(cursor, header),
            RequestLineState::Path => parse_path(cursor, header),
            RequestLineState::Protocol => parse_protocol(cursor, header),
            RequestLineState::End => parse_end(cursor, header),
        };
        match result {
            ParseResult::Advance(next) => {
                st = next;
            },
            _ => {
                return result;
            },
        }
    }
}

fn parse_start(cursor: &mut Cursor, header: &mut HTTPHeader) -> (r: ParseResult<RequestLineState>)
    ensures
        line_step(old(cursor).buf@, old(cursor).pos as nat, RequestLineState::Start, old(header).spans())
            == line_stop(r, final(cursor).pos as nat, final(header).spans()),
        final(cursor).buf@ == old(cursor).buf@,
        final(header).fields@ == old(header).fields@,
        final(header).field_size == old(header).field_size,
{
    let ghost buf = cursor.buf@;
    let ghost pos0 = cursor.pos as nat;
    let ghost h0 = header.spans();
    loop
        invariant
            cursor.buf@ == buf,
            buf == old(cursor).buf@,
            pos0 == old(cursor).pos,
            h0 == old(header).spans(),
            pos0 <= cursor.pos,
            *header == *old(header),
            line_step(buf, cursor.pos as nat, RequestLineState::Start, h0) == line_step(
                buf,
                pos0,
                RequestLineState::Start,
                h0,
            ),
        decreases buf.len() - cursor.pos,
    {
        let read = read_byte(cursor);
        match read {
            ReadResult::Byte(c) => {
                if c == CR || c == LF {
                    continue;
                } else if c == SP {
                    return ParseResult::Error;
                } else {
                    header.method_start = cursor.position() - 1;
                    return ParseResult::Advance(RequestLineState::Method);
                }
            },
            ReadResult::Again => {
                return ParseResult::Again(RequestLineState::Start);
            },
            ReadResult::Error => {
                return ParseResult::Error;
            },
        }
    }
}

fn parse_method(cursor: &mut Cursor, header: &mut HTTPHeader) -> (r: ParseResult<RequestLineState>)
    ensures
        line_step(old(cursor).buf@, old(cursor).pos as nat, RequestLineState::Method, old(header).spans())
            == line_stop(r, final(cursor).pos as nat, final(header).spans()),
        final(cursor).buf@ == old(cursor).buf@,
        final(header).fields@ == old(header).fields@,
        final(header).field_size == old(header).field_size,
{
    let ghost buf = cursor.buf@;
    let ghost pos0 = cursor.pos as nat;
    let ghost h0 = header.spans();
    loop
        invariant
            cursor.buf@ == buf,
            buf == old(cursor).buf@,
            pos0 == old(cursor).pos,
            h0 == old(header).spans(),
            pos0 <= cursor.pos,
            *header == *old(header),
            line_step(buf, cursor.pos as nat, RequestLineState::Method, h0) == line_step(
                buf,
                pos0,
                RequestLineState::Method,
                h0,
            ),
        decreases buf.len() - cursor.pos,
    {
        let read = read_byte(cursor);
        match read {
            ReadResult::Byte(c) => {
                if c == SP {
                    header.method_end = cursor.position() - 1;
                    header.path_start = cursor.position();
                    return ParseResult::Advance(RequestLineState::Path);
                }
            },
            ReadResult::Again => {
                return ParseResult::Again(RequestLineState::Method);
            },
            ReadResult::Error => {
                return ParseResult::Error;
            },
        }
    }
}

fn parse_path(cursor: &mut Cursor, header: &mut HTTPHeader) -> (r: ParseResult<RequestLineState>)
    ensures
        line_step(old(cursor).buf@, old(cursor).pos as nat, RequestLineState::Path, old(header).spans())
            == line_stop(r, final(cursor).pos as nat, final(header).spans()),
        final(cursor).buf@ == old(cursor).buf@,
        final(header).fields@ == old(header).fields@,
        final(header).field_size == old(header).field_size,
{
    let ghost buf = cursor.buf@;
    let ghost pos0 = cursor.pos as nat;
    let ghost h0 = header.spans();
    loop
        invariant
            cursor.buf@ == buf,
            buf == old(cursor).buf@,
            pos0 == old(cursor).pos,
            h0 == old(header).spans(),
            pos0 <= cursor.pos,
            *header == *old(header),
            line_step(buf, cursor.pos as nat, RequestLineState::Path, h0) == line_step(
                buf,
                pos0,
                RequestLineState::Path,
                h0,
            ),
        decreases buf.len() - cursor.pos,
    {
        let read = read_byte(cursor);
        match read {
            ReadResult::Byte(c) => {
                if c == SP {
                    if cursor.position() - 1 == header.path_start {
                        return ParseResult::Error;
                    }
                    header.path_end = cursor.position() - 1;
                    header.protocol_start = cursor.position();
                    return ParseResult::Advance(RequestLineState::Protocol);
                }
                if !(0x21 <= c && c <= 0x7e) {
                    return ParseResult::Error;
                }
            },
            ReadResult::Again => {
                return ParseResult::Again(RequestLineState::Path);
            },
            ReadResult::Error => {
                return ParseResult::Error;
            },
        }
    }
}

/// The byte that `HTTP/1.1` holds at `i`.
fn protocol_byte(i: usize) -> (r: u8)
    requires
        i < 8,
    ensures
        r == protocol_token()[i as int],
{
    match i {
        0 => 0x48,
        1 => 0x54,
        2 => 0x54,
        3 => 0x50,
        4 => 0x2f,
        5 => 0x31,
        6 => 0x2e,
        _ => 0x31,
    }
}

fn parse_protocol(cursor: &mut Cursor, header: &mut HTTPHeader) -> (r: ParseResult<RequestLineState>)
    ensures
        line_step(old(cursor).buf@, old(cursor).pos as nat, RequestLineState::Protocol, old(header).spans())
            == line_stop(r, final(cursor).pos as nat, final(header).spans()),
        final(cursor).buf@ == old(cursor).buf@,
        final(header).fields@ == old(header).fields@,
        final(header).field_size == old(header).field_size,
{
    let ghost buf = cursor.buf@;
    let ghost pos0 = cursor.pos as nat;
    let ghost h0 = header.spans();
    loop
        invariant
            cursor.buf@ == buf,
            buf == old(cursor).buf@,
            pos0 == old(cursor).pos,
            h0 == old(header).spans(),
            pos0 <= cursor.pos,
            *header == *old(header),
            line_step(buf, cursor.pos as nat, RequestLineState::Protocol, h0) == line_step(
                buf,
                pos0,
                RequestLineState::Protocol,
                h0,
            ),
        decreases buf.len() - cursor.pos,
    {
        let read = read_byte(cursor);
        let c = match read {
            ReadResult::Byte(c) => c,
            ReadResult::Again => {
                return ParseResult::Again(RequestLineState::Protocol);
            },
            ReadResult::Error => {
                return ParseResult::Error;
            },
        };
        let at = cursor.position() - 1;
        if at < header.protocol_start {
            return ParseResult::Error;
        }
        let offset = at - header.protocol_start;
        if offset >= 8 || c != protocol_byte(offset) {
            return ParseResult::Error;
        }
        if offset == 7 {
            header.protocol_end = cursor.position();
            return ParseResult::Advance(RequestLineState::End);
        }
    }
}

/// The line ends with LF, or with CR and LF.
fn parse_end(cursor: &mut Cursor, header: &mut HTTPHeader) -> (r: ParseResult<RequestLineState>)
    ensures
        line_step(old(cursor).buf@, old(cursor).pos as nat, RequestLineState::End, old(header).spans())
            == line_stop(r, final(cursor).pos as nat, final(header).spans()),
        final(cursor).buf@ == old(cursor).buf@,
        *final(header) == *old(header),
{
    let read1 = read_byte(cursor);
    let c1 = match read1 {
        ReadResult::Byte(c) => c,
        ReadResult::Again => {
            return ParseResult::Again(RequestLineState::End);
        },
        ReadResult::Error => {
            return ParseResult::Error;
        },
    };
    if c1 == LF {
        return ParseResult::Complete;
    }
    if c1 == CR {
        let read2 = read_byte(cursor);
        let c2 = match read2 {
            ReadResult::Byte(c) => c,
            ReadResult::Again => {
                return ParseResult::Again(RequestLineState::End);
            },
            ReadResult::Error => {
                return ParseResult::Error;
            },
        };
        if c2 == LF {
            return ParseResult::Complete;
        }
        return ParseResult::Error;
    }
    ParseResult::Error
}

/// CR and LF only: what may stand before a request line.
pub open spec fn is_noise(s: Seq<u8>) -> bool {
    forall|i: int| 0 <= i < s.len() ==> s[i] == CR || s[i] == LF
}

/// A method token as the parser reads it: one or more bytes, no spaces,
/// and a first byte that is not CR or LF (those are skipped as noise).
pub open spec fn is_method(m: Seq<u8>) -> bool {
    &&& m.len() > 0
    &&& m[0] != CR && m[0] != LF
    &&& forall|i: int| 0 <= i < m.len() ==> m[i] != SP
}

/// A path: one or more visible characters (so no spaces).
pub open spec fn is_path(p: Seq<u8>) -> bool {
    &&& p.len() > 0
    &&& forall|i: int| 0 <= i < p.len() ==> spec_is_vchar(p[i])
}

/// The line end: CR LF, or LF alone.
pub open spec fn line_end(crlf: bool) -> Seq<u8> {
    if crlf {
        seq![CR, LF]
    } else {
        seq![LF]
    }
}

/// `M SP P SP HTTP/1.1` and the line end.
pub open spec fn request_line(m: Seq<u8>, p: Seq<u8>, crlf: bool) -> Seq<u8> {
    m + seq![SP] + p + seq![SP] + protocol_token() + line_end(crlf)
}

/// The offsets of a request line `M SP P SP HTTP/1.1` that starts at `n`,
/// with a method of `ml` bytes and a path of `pl` bytes.
pub open spec fn line_spans_at(n: nat, ml: nat, pl: nat) -> LineSpans {
    LineSpans {
        method_start: n,
        method_end: n + ml,
        path_start: n + ml + 1,
        path_end: n + ml + 1 + pl,
        protocol_start: n + ml + pl + 2,
        protocol_end: n + ml + pl + 10,
    }
}

proof fn lemma_start_run(buf: Seq<u8>, pos: nat, q: nat, h: LineSpans)
    requires
        pos <= q < buf.len(),
        forall|i: int| pos <= i < q ==> buf[i] == CR || buf[i] == LF,
        buf[q as int] != CR && buf[q as int] != LF && buf[q as int] != SP,
    ensures
        line_run(buf, pos, RequestLineState::Start, h) == line_run(
            buf,
            q + 1,
            RequestLineState::Method,
            LineSpans { method_start: q, ..h },
        ),
    decreases q - pos,
{
    if pos < q {
        lemma_start_run(buf, pos + 1, q, h);
    }
}

proof fn lemma_method_run(buf: Seq<u8>, pos: nat, q: nat, h: LineSpans)
    requires
        pos <= q < buf.len(),
        forall|i: int| pos <= i < q ==> buf[i] != SP,
        buf[q as int] == SP,
    ensures
        line_run(buf, pos, RequestLineState::Method, h) == line_run(
            buf,
            q + 1,
            RequestLineState::Path,
            LineSpans { method_end: q, path_start: q + 1, ..h },
        ),
    decreases q - pos,
{
    if pos < q {
        lemma_method_run(buf, pos + 1, q, h);
    }
}

proof fn lemma_path_run(buf: Seq<u8>, pos: nat, q: nat, h: LineSpans)
    requires
        pos <= q < buf.len(),
        q != h.path_start,
        forall|i: int| pos <= i < q ==> spec_is_vchar(buf[i]),
        buf[q as int] == SP,
    ensures
        line_run(buf, pos, RequestLineState::Path, h) == line_run(
            buf,
            q + 1,
            RequestLineState::Protocol,
            LineSpans { path_end: q, protocol_start: q + 1, ..h },
        ),
    decreases q - pos,
{
    if pos < q {
        lemma_path_run(buf, pos + 1, q, h);
    }
}

proof fn lemma_protocol_run(buf: Seq<u8>, pos: nat, h: LineSpans)
    requires
        h.protocol_start <= pos < h.protocol_start + 8,
        h.protocol_start + 8 <= buf.len(),
        forall|j: int| 0 <= j < 8 ==> buf[h.protocol_start + j] == protocol_token()[j],
    ensures
        line_run(buf, pos, RequestLineState::Protocol, h) == line_run(
            buf,
            h.protocol_start + 8,
            RequestLineState::End,
            LineSpans { protocol_end: h.protocol_start + 8, ..h },
        ),
    decreases h.protocol_start + 8 - pos,
{
    let off = pos - h.protocol_start;
    assert(buf[pos as int] == protocol_token()[off]);
    if off < 7 {
        lemma_protocol_run(buf, pos + 1, h);
    }
}

/// Runs the method and the path of a request line, after noise, up to the
/// first byte of its protocol.
proof fn lemma_line_to_protocol(noise: Seq<u8>, m: Seq<u8>, p: Seq<u8>, tail: Seq<u8>, h: LineSpans)
    requires
        is_noise(noise),
        is_method(m),
        is_path(p),
    ensures
        ({
            let buf = noise + (m + seq![SP] + p + seq![SP] + tail);
            let n = noise.len();
            line_run(buf, 0, RequestLineState::Start, h) == line_run(
                buf,
                n + m.len() + p.len() + 2,
                RequestLineState::Protocol,
                LineSpans { protocol_end: h.protocol_end, ..line_spans_at(n, m.len(), p.len()) },
            )
        }),
{
    let line = m + seq![SP] + p + seq![SP] + tail;
    let buf = noise + line;
    let n = noise.len();
    let ml = m.len();
    let pl = p.len();
    assert(forall|i: int| 0 <= i < line.len() ==> buf[n + i] == line[i]);
    assert(forall|i: int| 0 <= i < ml ==> line[i] == m[i]);
    assert(line[ml as int] == SP);
    assert(forall|i: int| 0 <= i < pl ==> line[ml + 1 + i] == p[i]);
    assert(line[(ml + 1 + pl) as int] == SP);
    let h1 = LineSpans { method_start: n, ..h };
    assert(m[0] != SP);
    lemma_start_run(buf, 0, n, h);
    assert forall|i: int| n + 1 <= i < n + ml implies buf[i] != SP by {
        assert(buf[i] == line[i - n]);
    }
    let h2 = LineSpans { method_end: (n + ml) as nat, path_start: (n + ml + 1) as nat, ..h1 };
    lemma_method_run(buf, n + 1, (n + ml) as nat, h1);
    assert forall|i: int| n + ml + 1 <= i < n + ml + 1 + pl implies spec_is_vchar(buf[i]) by {
        assert(buf[i] == line[i - n]);
        assert(line[i - n] == p[i - n - ml - 1]);
    }
    lemma_path_run(buf, (n + ml + 1) as nat, (n + ml + 1 + pl) as nat, h2);
}

/// Runs a well-formed request line, after noise and before anything else,
/// from the start of the buffer up to the line end.
proof fn lemma_line_prefix(noise: Seq<u8>, m: Seq<u8>, p: Seq<u8>, tail: Seq<u8>, h: LineSpans)
    requires
        is_noise(noise),
        is_method(m),
        is_path(p),
    ensures
        ({
            let buf = noise + (m + seq![SP] + p + seq![SP] + protocol_token() + tail);
            let n = noise.len();
            line_run(buf, 0, RequestLineState::Start, h) == line_run(
                buf,
                n + m.len() + p.len() + 10,
                RequestLineState::End,
                line_spans_at(n, m.len(), p.len()),
            )
        }),
{
    let rest = protocol_token() + tail;
    let line = m + seq![SP] + p + seq![SP] + rest;
    assert(m + seq![SP] + p + seq![SP] + protocol_token() + tail =~= line);
    let buf = noise + line;
    let n = noise.len();
    let ml = m.len();
    let pl = p.len();
    let ps = n + ml + pl + 2;
    lemma_line_to_protocol(noise, m, p, rest, h);
    let h3 = LineSpans { protocol_end: h.protocol_end, ..line_spans_at(n, ml, pl) };
    assert forall|j: int| 0 <= j < 8 implies buf[h3.protocol_start + j] == protocol_token()[j] by {
        assert(buf[ps + j] == line[ml + pl + 2 + j]);
        assert(line[ml + pl + 2 + j] == rest[j]);
    }
    lemma_protocol_run(buf, ps as nat, h3);
    assert(LineSpans { protocol_end: (ps + 8) as nat, ..h3 } == line_spans_at(n, ml, pl));
}

/// Runs a well-formed request line, after noise and before anything else:
/// it completes right after its line end, with the offsets of its method,
/// path and protocol.
pub proof fn lemma_line_accepted(
    noise: Seq<u8>,
    m: Seq<u8>,
    p: Seq<u8>,
    crlf: bool,
    rest: Seq<u8>,
    h: LineSpans,
)
    requires
        is_noise(noise),
        is_method(m),
        is_path(p),
    ensures
        ({
            let buf = noise + request_line(m, p, crlf) + rest;
            let n = noise.len();
            line_run(buf, 0, RequestLineState::Start, h) == line_stop(
                ParseResult::Complete,
                n + request_line(m, p, crlf).len(),
                line_spans_at(n, m.len(), p.len()),
            )
        }),
{
    let tail = line_end(crlf) + rest;
    let line = m + seq![SP] + p + seq![SP] + protocol_token() + tail;
    assert(noise + request_line(m, p, crlf) + rest =~= noise + line);
    assert(line[(m.len() + p.len() + 10) as int] == tail[0]);
    lemma_line_prefix(noise, m, p, tail, h);
    let buf = noise + line;
    let e = noise.len() + m.len() + p.len() + 10;
    assert(buf[e as int] == tail[0]);
    if crlf {
        assert(buf[(e + 1) as int] == tail[1]);
    }
}

/// The bytes between a request line's offsets are its method, its path and
/// `HTTP/1.1`.
proof fn lemma_line_span_bytes(noise: Seq<u8>, m: Seq<u8>, p: Seq<u8>, crlf: bool, rest: Seq<u8>)
    ensures
        ({
            let buf = noise + request_line(m, p, crlf) + rest;
            let s = line_spans_at(noise.len(), m.len(), p.len());
            &&& span_bytes(buf, s.method_start, s.method_end) == m
            &&& span_bytes(buf, s.path_start, s.path_end) == p
            &&& span_bytes(buf, s.protocol_start, s.protocol_end) == protocol_token()
        }),
{
    let buf = noise + request_line(m, p, crlf) + rest;
    let s = line_spans_at(noise.len(), m.len(), p.len());
    assert(span_bytes(buf, s.method_start, s.method_end) =~= m);
    assert(span_bytes(buf, s.path_start, s.path_end) =~= p);
    assert(span_bytes(buf, s.protocol_start, s.protocol_end) =~= protocol_token());
}

/// A request line `M SP P SP HTTP/1.1 CRLF`, with `M` and `P` non-empty and
/// free of spaces, `P` printable and `M` starting with a byte other than CR
/// or LF, completes, and its offsets select `M`, `P` and `HTTP/1.1`.
pub proof fn law_request_line_tokens(m: Seq<u8>, p: Seq<u8>, h: LineSpans)
    requires
        is_method(m),
        is_path(p),
    ensures
        ({
            let buf = request_line(m, p, true);
            let out = line_run(buf, 0, RequestLineState::Start, h);
            &&& out.result == ParseResult::<RequestLineState>::Complete
            &&& out.pos == buf.len()
            &&& span_bytes(buf, out.spans.method_start, out.spans.method_end) == m
            &&& span_bytes(buf, out.spans.path_start, out.spans.path_end) == p
            &&& span_bytes(buf, out.spans.protocol_start, out.spans.protocol_end)
                == protocol_token()
        }),
{
    let e = Seq::<u8>::empty();
    lemma_line_accepted(e, m, p, true, e, h);
    lemma_line_span_bytes(e, m, p, true, e);
    assert(e + request_line(m, p, true) + e =~= request_line(m, p, true));
}

/// A request line that ends in LF alone parses as the same line ending in
/// CR LF: both complete, with the same offsets, whatever follows them.
pub proof fn law_lf_ends_line_as_crlf(m: Seq<u8>, p: Seq<u8>, rest: Seq<u8>, h: LineSpans)
    requires
        is_method(m),
        is_path(p),
    ensures
        ({
            let lf = line_run(request_line(m, p, false) + rest, 0, RequestLineState::Start, h);
            let crlf = line_run(request_line(m, p, true) + rest, 0, RequestLineState::Start, h);
            &&& lf.result == ParseResult::<RequestLineState>::Complete
            &&& crlf.result == ParseResult::<RequestLineState>::Complete
            &&& lf.spans == crlf.spans
        }),
{
    let e = Seq::<u8>::empty();
    lemma_line_accepted(e, m, p, false, rest, h);
    lemma_line_accepted(e, m, p, true, rest, h);
    assert(e + request_line(m, p, false) + rest =~= request_line(m, p, false) + rest);
    assert(e + request_line(m, p, true) + rest =~= request_line(m, p, true) + rest);
}

/// CR and LF bytes before a request line are skipped: the line completes
/// as it does without them, and its offsets, moved by the length of the
/// noise, select the same method, path and protocol.
pub proof fn law_leading_noise_skipped(
    noise: Seq<u8>,
    m: Seq<u8>,
    p: Seq<u8>,
    crlf: bool,
    h: LineSpans,
)
    requires
        is_noise(noise),
        is_method(m),
        is_path(p),
    ensures
        ({
            let bare = request_line(m, p, crlf);
            let buf = noise + bare;
            let with_noise = line_run(buf, 0, RequestLineState::Start, h);
            let without = line_run(bare, 0, RequestLineState::Start, h);
            let a = with_noise.spans;
            let b = without.spans;
            &&& with_noise.result == ParseResult::<RequestLineState>::Complete
            &&& without.result == ParseResult::<RequestLineState>::Complete
            &&& span_bytes(buf, a.method_start, a.method_end) == span_bytes(
                bare,
                b.method_start,
                b.method_end,
            )
            &&& span_bytes(buf, a.path_start, a.path_end) == span_bytes(
                bare,
                b.path_start,
                b.path_end,
            )
            &&& span_bytes(buf, a.protocol_start, a.protocol_end) == span_bytes(
                bare,
                b.protocol_start,
                b.protocol_end,
            )
        }),
{
    let e = Seq::<u8>::empty();
    lemma_line_accepted(noise, m, p, crlf, e, h);
    lemma_line_span_bytes(noise, m, p, crlf, e);
    lemma_line_accepted(e, m, p, crlf, e, h);
    lemma_line_span_bytes(e, m, p, crlf, e);
    assert(noise + request_line(m, p, crlf) + e =~= noise + request_line(m, p, crlf));
    assert(e + request_line(m, p, crlf) + e =~= request_line(m, p, crlf));
}

proof fn lemma_protocol_mismatch(buf: Seq<u8>, pos: nat, h: LineSpans, i: nat)
    requires
        i < 8,
        h.protocol_start <= pos <= h.protocol_start + i,
        h.protocol_start + i < buf.len(),
        forall|j: int| 0 <= j < i ==> buf[h.protocol_start + j] == protocol_token()[j],
        buf[(h.protocol_start + i) as int] != protocol_token()[i as int],
    ensures
        line_run(buf, pos, RequestLineState::Protocol, h).result == ParseResult::<
            RequestLineState,
        >::Error,
    decreases h.protocol_start + i - pos,
{
    if pos < h.protocol_start + i {
        assert(buf[pos as int] == protocol_token()[pos - h.protocol_start]);
        lemma_protocol_mismatch(buf, pos + 1, h, i);
    }
}

/// A request line whose protocol token differs from `HTTP/1.1` fails: here
/// the token agrees with `HTTP/1.1` on its first `i` bytes and then has a
/// byte `c` that `HTTP/1.1` does not have there.
pub proof fn law_unknown_protocol_rejected(
    noise: Seq<u8>,
    m: Seq<u8>,
    p: Seq<u8>,
    i: nat,
    c: u8,
    rest: Seq<u8>,
    h: LineSpans,
)
    requires
        is_noise(noise),
        is_method(m),
        is_path(p),
        i < 8,
        c != protocol_token()[i as int],
    ensures
        line_run(
            noise + m + seq![SP] + p + seq![SP] + protocol_token().subrange(0, i as int) + seq![c]
                + rest,
            0,
            RequestLineState::Start,
            h,
        ).result == ParseResult::<RequestLineState>::Error,
{
    let tail = protocol_token().subrange(0, i as int) + seq![c] + rest;
    let buf = noise + (m + seq![SP] + p + seq![SP] + tail);
    assert(noise + m + seq![SP] + p + seq![SP] + protocol_token().subrange(0, i as int) + seq![c]
        + rest =~= buf);
    lemma_line_to_protocol(noise, m, p, tail, h);
    let n = noise.len();
    let ps = n + m.len() + p.len() + 2;
    let h3 = LineSpans { protocol_end: h.protocol_end, ..line_spans_at(n, m.len(), p.len()) };
    assert(forall|j: int| 0 <= j < tail.len() ==> buf[ps + j] == tail[j]);
    assert(tail[i as int] == c);
    lemma_protocol_mismatch(buf, ps as nat, h3, i);
}

/// A request line with a second space right after the one that ends the
/// path fails: the protocol cannot start with a space.
pub proof fn law_extra_spaces_rejected(
    noise: Seq<u8>,
    m: Seq<u8>,
    p: Seq<u8>,
    rest: Seq<u8>,
    h: LineSpans,
)
    requires
        is_noise(noise),
        is_method(m),
        is_path(p),
    ensures
        line_run(
            noise + m + seq![SP] + p + seq![SP] + seq![SP] + rest,
            0,
            RequestLineState::Start,
            h,
        ).result == ParseResult::<RequestLineState>::Error,
{
    let tail = seq![SP] + rest;
    let buf = noise + (m + seq![SP] + p + seq![SP] + tail);
    assert(noise + m + seq![SP] + p + seq![SP] + seq![SP] + rest =~= buf);
    lemma_line_to_protocol(noise, m, p, tail, h);
    let n = noise.len();
    let ps = n + m.len() + p.len() + 2;
    let h3 = LineSpans { protocol_end: h.protocol_end, ..line_spans_at(n, m.len(), p.len()) };
    assert(buf[ps as int] == tail[0]);
    lemma_protocol_mismatch(buf, ps as nat, h3, 0);
}

/// A request line with anything but CR or LF right after `HTTP/1.1` fails.
pub proof fn law_trailing_garbage_rejected(
    noise: Seq<u8>,
    m: Seq<u8>,
    p: Seq<u8>,
    g: u8,
    rest: Seq<u8>,
    h: LineSpans,
)
    requires
        is_noise(noise),
        is_method(m),
        is_path(p),
        g != CR && g != LF,
    ensures
        line_run(
            noise + m + seq![SP] + p + seq![SP] + protocol_token() + seq![g] + rest,
            0,
            RequestLineState::Start,
            h,
        ).result == ParseResult::<RequestLineState>::Error,
{
    let tail = seq![g] + rest;
    let line = m + seq![SP] + p + seq![SP] + protocol_token() + tail;
    let buf = noise + line;
    assert(noise + m + seq![SP] + p + seq![SP] + protocol_token() + seq![g] + rest =~= buf);
    lemma_line_prefix(noise, m, p, tail, h);
    let e = noise.len() + m.len() + p.len() + 10;
    assert(line[(m.len() + p.len() + 10) as int] == tail[0]);
    assert(buf[e as int] == g);
}

proof fn lemma_skip_noise(buf: Seq<u8>, pos: nat, q: nat, h: LineSpans)
    requires
        pos <= q <= buf.len(),
        forall|i: int| pos <= i < q ==> buf[i] == CR || buf[i] == LF,
    ensures
        line_run(buf, pos, RequestLineState::Start, h) == line_run(
            buf,
            q,
            RequestLineState::Start,
            h,
        ),
    decreases q - pos,
{
    if pos < q {
        lemma_skip_noise(buf, pos + 1, q, h);
    }
}

/// A request line whose method is empty fails: after the noise, a space
/// cannot open the method.
pub proof fn law_empty_method_rejected(noise: Seq<u8>, rest: Seq<u8>, h: LineSpans)
    requires
        is_noise(noise),
    ensures
        line_run(noise + seq![SP] + rest, 0, RequestLineState::Start, h).result
            == ParseResult::<RequestLineState>::Error,
{
    let buf = noise + seq![SP] + rest;
    let n = noise.len();
    assert(forall|i: int| 0 <= i < n ==> buf[i] == noise[i]);
    assert(buf[n as int] == SP);
    lemma_skip_noise(buf, 0, n, h);
}

/// A request line whose path is empty fails: two spaces in a row after the
/// method leave no path, and a space where the path should begin is an
/// error.
pub proof fn law_empty_path_rejected(noise: Seq<u8>, m: Seq<u8>, rest: Seq<u8>, h: LineSpans)
    requires
        is_noise(noise),
        is_method(m),
    ensures
        line_run(noise + m + seq![SP] + seq![SP] + rest, 0, RequestLineState::Start, h).result
            == ParseResult::<RequestLineState>::Error,
{
    let line = m + seq![SP] + seq![SP] + rest;
    let buf = noise + line;
    assert(noise + m + seq![SP] + seq![SP] + rest =~= buf);
    let n = noise.len();
    let ml = m.len();
    assert(forall|i: int| 0 <= i < line.len() ==> buf[n + i] == line[i]);
    assert(forall|i: int| 0 <= i < ml ==> line[i] == m[i]);
    assert(line[ml as int] == SP);
    assert(line[(ml + 1) as int] == SP);
    assert(m[0] != SP);
    lemma_start_run(buf, 0, n, h);
    let h1 = LineSpans { method_start: n, ..h };
    assert forall|i: int| n + 1 <= i < n + ml implies buf[i] != SP by {
        assert(buf[i] == line[i - n]);
    }
    lemma_method_run(buf, n + 1, (n + ml) as nat, h1);
    assert(buf[(n + ml + 1) as int] == SP);
}

} // verus!
