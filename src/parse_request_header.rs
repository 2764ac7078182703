use vstd::prelude::*;

use crate::http_interface::{span_bytes, Field, FieldView, HTTPHeader, ParseResult};
use crate::parse_request_line::line_end;
use crate::parse_utility::{
    is_tchar,
    is_vchar,
    read_byte,
    spec_is_tchar,
    spec_is_vchar,
    spec_is_ws,
    Cursor,
    ReadResult,
    CR,
    HTAB,
    LF,
    SP,
};

verus! {

/// Where a header-field parse stands.
#[derive(Clone, Copy, Debug, PartialEq, Eq)]
pub enum RequestHeaderState {
    Start,
    FieldName,
    OWS1,
    FieldValue,
    OWS2,
    End,
}

/// Ends a field name.
pub const COLON: u8 = 0x3a;

/// Where a header-field parse ends: its result, the cursor position after
/// it, and the field as it was left.
pub struct FieldOutcome {
    pub result: ParseResult<RequestHeaderState>,
    pub pos: nat,
    pub field: FieldView,
}

pub open spec fn field_stop(
    result: ParseResult<RequestHeaderState>,
    pos: nat,
    field: FieldView,
) -> FieldOutcome {
    FieldOutcome { result, pos, field }
}

/// Whether the byte before `pos` is whitespace: inside a value, whether the
/// value has an open run of whitespace.
pub open spec fn after_ws(buf: Seq<u8>, pos: nat) -> bool {
    0 < pos <= buf.len() && spec_is_ws(buf[pos - 1])
}

/// The header-field state machine, run over `buf` from `pos` in state `st`
/// with the field `f` as recorded so far, one byte at a time:
///
/// - `Start`: CR marks the blank line and waits for its LF; LF alone marks
///   the blank line and completes; a token character opens the name.
/// - `FieldName` takes token characters up to `:`, which closes the name.
/// - `OWS1` skips spaces; the first visible character opens the value.
/// - `FieldValue` takes visible characters and single whitespace bytes. The
///   first whitespace byte of a run marks the end of the value; a second one
///   in a row moves to `OWS2`. CR or LF closes the value (where no run of
///   whitespace is open, at the line end) and goes to `End` or completes.
/// - `OWS2` skips spaces, then takes CR (to `End`) or LF (complete).
/// - `End` takes the LF after a CR and completes.
///
/// Any other byte is an error. Where the bytes run out the run stops with
/// `Again` in the state it was in.
pub open spec fn field_run(buf: Seq<u8>, pos: nat, st: RequestHeaderState, f: FieldView) -> FieldOutcome
    decreases buf.len() - pos,
{
    if pos >= buf.len() {
        field_stop(ParseResult::Again(st), pos, f)
    } else {
        let b = buf[pos as int];
        let next = (pos + 1) as nat;
        match st {
            RequestHeaderState::Start => {
                if b == CR {
                    field_run(buf, next, RequestHeaderState::End, FieldView { is_separator: true, ..f })
                } else if b == LF {
                    field_stop(ParseResult::Complete, next, FieldView { is_separator: true, ..f })
                } else if spec_is_tchar(b) {
                    field_run(buf, next, RequestHeaderState::FieldName, FieldView { name_start: pos, ..f })
                } else {
                    field_stop(ParseResult::Error, next, f)
                }
            },
            RequestHeaderState::FieldName => {
                if b == COLON {
                    field_run(buf, next, RequestHeaderState::OWS1, FieldView { name_end: pos, ..f })
                } else if spec_is_tchar(b) {
                    field_run(buf, next, RequestHeaderState::FieldName, f)
                } else {
                    field_stop(ParseResult::Error, next, f)
                }
            },
            RequestHeaderState::OWS1 => {
                if b == SP {
                    field_run(buf, next, RequestHeaderState::OWS1, f)
                } else if spec_is_vchar(b) {
                    field_run(buf, next, RequestHeaderState::FieldValue, FieldView { value_start: pos, ..f })
                } else {
                    field_stop(ParseResult::Error, next, f)
                }
            },
            RequestHeaderState::FieldValue => {
                let open_ws = after_ws(buf, pos);
                let closed = if open_ws { f } else { FieldView { value_end: pos, ..f } };
                if b == CR {
                    field_run(buf, next, RequestHeaderState::End, closed)
                } else if b == LF {
                    field_stop(ParseResult::Complete, next, closed)
                } else if spec_is_ws(b) {
                    if open_ws {
                        field_run(buf, next, RequestHeaderState::OWS2, f)
                    } else {
                        field_run(buf, next, RequestHeaderState::FieldValue, closed)
                    }
                } else if spec_is_vchar(b) {
                    field_run(buf, next, RequestHeaderState::FieldValue, f)
                } else {
                    field_stop(ParseResult::Error, next, f)
                }
            },
            RequestHeaderState::OWS2 => {
                if b == SP {
                    field_run(buf, next, RequestHeaderState::OWS2, f)
                } else if b == CR {
                    field_run(buf, next, RequestHeaderState::End, f)
                } else if b == LF {
                    field_stop(ParseResult::Complete, next, f)
                } else {
                    field_stop(ParseResult::Error, next, f)
                }
            },
            RequestHeaderState::End => {
                if b == LF {
                    field_stop(ParseResult::Complete, next, f)
                } else {
                    field_stop(ParseResult::Error, next, f)
                }
            },
        }
    }
}

/// One step of the header-field state machine: state `st` run from `pos`
/// until it is left. The step ends with `Advance` to the next state, at the
/// position after the byte that left `st` and with the field as recorded
/// there; or it ends as `field_run` does, with `Complete`, `Error`, or
/// `Again(st)` where the bytes run out.
pub open spec fn field_step(buf: Seq<u8>, pos: nat, st: RequestHeaderState, f: FieldView) -> FieldOutcome
    decreases buf.len() - pos,
{
    if pos >= buf.len() {
        field_stop(ParseResult::Again(st), pos, f)
    } else {
        let b = buf[pos as int];
        let next = (pos + 1) as nat;
        match st {
            RequestHeaderState::Start => {
                if b == CR {
                    field_stop(
                        ParseResult::Advance(RequestHeaderState::End),
                        next,
                        FieldView { is_separator: true, ..f },
                    )
                } else if b == LF {
                    field_stop(ParseResult::Complete, next, FieldView { is_separator: true, ..f })
                } else if spec_is_tchar(b) {
                    field_stop(
                        ParseResult::Advance(RequestHeaderState::FieldName),
                        next,
                        FieldView { name_start: pos, ..f },
                    )
                } else {
                    field_stop(ParseResult::Error, next, f)
                }
            },
            RequestHeaderState::FieldName => {
                if b == COLON {
                    field_stop(
                        ParseResult::Advance(RequestHeaderState::OWS1),
                        next,
                        FieldView { name_end: pos, ..f },
                    )
                } else if spec_is_tchar(b) {
                    field_step(buf, next, RequestHeaderState::FieldName, f)
                } else {
                    field_stop(ParseResult::Error, next, f)
                }
            },
            RequestHeaderState::OWS1 => {
                if b == SP {
                    field_step(buf, next, RequestHeaderState::OWS1, f)
                } else if spec_is_vchar(b) {
                    field_stop(
                        ParseResult::Advance(RequestHeaderState::FieldValue),
                        next,
                        FieldView { value_start: pos, ..f },
                    )
                } else {
                    field_stop(ParseResult::Error, next, f)
                }
            },
            RequestHeaderState::FieldValue => {
                let open_ws = after_ws(buf, pos);
                let closed = if open_ws { f } else { FieldView { value_end: pos, ..f } };
                if b == CR {
                    field_stop(ParseResult::Advance(RequestHeaderState::End), next, closed)
                } else if b == LF {
                    field_stop(ParseResult::Complete, next, closed)
                } else if spec_is_ws(b) {
                    if open_ws {
                        field_stop(ParseResult::Advance(RequestHeaderState::OWS2), next, f)
                    } else {
                        field_step(buf, next, RequestHeaderState::FieldValue, closed)
                    }
                } else if spec_is_vchar(b) {
                    field_step(buf, next, RequestHeaderState::FieldValue, f)
                } else {
                    field_stop(ParseResult::Error, next, f)
                }
            },
            RequestHeaderState::OWS2 => {
                if b == SP {
                    field_step(buf, next, RequestHeaderState::OWS2, f)
                } else if b == CR {
                    field_stop(ParseResult::Advance(RequestHeaderState::End), next, f)
                } else if b == LF {
                    field_stop(ParseResult::Complete, next, f)
                } else {
                    field_stop(ParseResult::Error, next, f)
                }
            },
            RequestHeaderState::End => {
                if b == LF {
                    field_stop(ParseResult::Complete, next, f)
                } else {
                    field_stop(ParseResult::Error, next, f)
                }
            },
        }
    }
}

/// A header-field run never moves backwards nor past the end of the bytes,
/// and where there is a byte to read it moves forwards.
pub proof fn lemma_field_run_progress(buf: Seq<u8>, pos: nat, st: RequestHeaderState, f: FieldView)
    requires
        pos <= buf.len(),
    ensures
        pos <= field_run(buf, pos, st, f).pos <= buf.len(),
        pos < buf.len() ==> pos < field_run(buf, pos, st, f).pos,
    decreases buf.len() - pos,
{
    if pos < buf.len() {
        let b = buf[pos as int];
        let next = (pos + 1) as nat;
        match st {
            RequestHeaderState::Start => {
                if b == CR {
                    lemma_field_run_progress(buf, next, RequestHeaderState::End, FieldView { is_separator: true, ..f });
                } else if b != LF && spec_is_tchar(b) {
                    lemma_field_run_progress(buf, next, RequestHeaderState::FieldName, FieldView { name_start: pos, ..f });
                }
            },
            RequestHeaderState::FieldName => {
                if b == COLON {
                    lemma_field_run_progress(buf, next, RequestHeaderState::OWS1, FieldView { name_end: pos, ..f });
                } else if spec_is_tchar(b) {
                    lemma_field_run_progress(buf, next, RequestHeaderState::FieldName, f);
                }
            },
            RequestHeaderState::OWS1 => {
                if b == SP {
                    lemma_field_run_progress(buf, next, RequestHeaderState::OWS1, f);
                } else if spec_is_vchar(b) {
                    lemma_field_run_progress(buf, next, RequestHeaderState::FieldValue, FieldView { value_start: pos, ..f });
                }
            },
            RequestHeaderState::FieldValue => {
                let open_ws = after_ws(buf, pos);
                let closed = if open_ws { f } else { FieldView { value_end: pos, ..f } };
                if b == CR {
                    lemma_field_run_progress(buf, next, RequestHeaderState::End, closed);
                } else if b == LF {
                } else if spec_is_ws(b) {
                    if open_ws {
                        lemma_field_run_progress(buf, next, RequestHeaderState::OWS2, f);
                    } else {
                        lemma_field_run_progress(buf, next, RequestHeaderState::FieldValue, closed);
                    }
                } else if spec_is_vchar(b) {
                    lemma_field_run_progress(buf, next, RequestHeaderState::FieldValue, f);
                }
            },
            RequestHeaderState::OWS2 => {
                if b == SP {
                    lemma_field_run_progress(buf, next, RequestHeaderState::OWS2, f);
                } else if b == CR {
                    lemma_field_run_progress(buf, next, RequestHeaderState::End, f);
                }
            },
            RequestHeaderState::End => {},
        }
    }
}

/// A step from `(pos0, st0, f0)` to `(pos1, f1)` with result `r` agrees with
/// the run: it either stops where the run stops, or advances to a
/// configuration from which the run goes on the same.
spec fn field_step_agrees(
    buf: Seq<u8>,
    pos0: nat,
    st0: RequestHeaderState,
    f0: FieldView,
    r: ParseResult<RequestHeaderState>,
    pos1: nat,
    f1: FieldView,
) -> bool {
    match r {
        ParseResult::Advance(s) => pos0 < pos1 <= buf.len() && field_run(buf, pos0, st0, f0)
            == field_run(buf, pos1, s, f1),
        _ => field_run(buf, pos0, st0, f0) == field_stop(r, pos1, f1),
    }
}

/// A step agrees with the run: it stops where the run stops, or it advances
/// to a configuration from which the run goes on the same.
proof fn lemma_field_step_run(buf: Seq<u8>, pos: nat, st: RequestHeaderState, f: FieldView)
    ensures
        ({
            let step = field_step(buf, pos, st, f);
            field_step_agrees(buf, pos, st, f, step.result, step.pos, step.field)
        }),
    decreases buf.len() - pos,
{
    if pos < buf.len() {
        let b = buf[pos as int];
        let next = (pos + 1) as nat;
        match st {
            RequestHeaderState::FieldName => {
                if b != COLON && spec_is_tchar(b) {
                    lemma_field_step_run(buf, next, RequestHeaderState::FieldName, f);
                }
            },
            RequestHeaderState::OWS1 => {
                if b == SP {
                    lemma_field_step_run(buf, next, RequestHeaderState::OWS1, f);
                }
            },
            RequestHeaderState::FieldValue => {
                let open_ws = after_ws(buf, pos);
                let closed = if open_ws { f } else { FieldView { value_end: pos, ..f } };
                if b != CR && b != LF {
                    if spec_is_ws(b) {
                        if !open_ws {
                            lemma_field_step_run(buf, next, RequestHeaderState::FieldValue, closed);
                        }
                    } else if spec_is_vchar(b) {
                        lemma_field_step_run(buf, next, RequestHeaderState::FieldValue, f);
                    }
                }
            },
            RequestHeaderState::OWS2 => {
                if b == SP {
                    lemma_field_step_run(buf, next, RequestHeaderState::OWS2, f);
                }
            },
            _ => {},
        }
    }
}

/// Parses one header line from the cursor on: a field, or the blank line
/// that ends the header section.
pub fn parse_http_request_header(cursor: &mut Cursor, field: &mut Field) -> (r: ParseResult<
    RequestHeaderState,
>)
    ensures
        ({
            let out = field_run(old(cursor).buf@, old(cursor).pos as nat, RequestHeaderState::Start, old(field)@);
            &&& r == out.result
            &&& final(cursor).pos == out.pos
            &&& final(field)@ == out.field
        }),
        final(cursor).buf@ == old(cursor).buf@,
{
    resume_http_request_header(cursor, field, RequestHeaderState::Start)
}

/// Parses one header line from the cursor on, starting in `state`.
///
/// The parse goes on until it completes, fails, or runs out of bytes; in the
/// last case it returns `Again` with the state to resume in, and the cursor
/// stands after the last byte, so that a later call over a longer buffer, at
/// the same position and with the same field, carries on where this one
/// stopped.
pub fn resume_http_request_header(
    cursor: &mut Cursor,
    field: &mut Field,
    state: RequestHeaderState,
) -> (r: ParseResult<RequestHeaderState>)
    ensures
        ({
            let out = field_run(old(cursor).buf@, old(cursor).pos as nat, state, old(field)@);
            &&& r == out.result
            &&& final(cursor).pos == out.pos
            &&& final(field)@ == out.field
        }),
        final(cursor).buf@ == old(cursor).buf@,
{
    let ghost buf = cursor.buf@;
    let ghost out = field_run(buf, cursor.pos as nat, state, field@);
    let mut st = state;
    loop
        invariant
            cursor.buf@ == buf,
            buf == old(cursor).buf@,
            out == field_run(buf, old(cursor).pos as nat, state, old(field)@),
            field_run(buf, cursor.pos as nat, st, field@) == out,
        decreases buf.len() - cursor.pos,
    {
        proof {
            lemma_field_step_run(buf, cursor.pos as nat, st, field@);
        }
        let result = match st {
            RequestHeaderState::Start => parse_start(cursor, field),
            RequestHeaderState::FieldName => parse_name(cursor, field),
            RequestHeaderState::OWS1 => parse_ows_before_value(cursor, field),
            RequestHeaderState::FieldValue => parse_field_value(cursor, field),
            RequestHeaderState::OWS2 => parse_ows_after_value(cursor, field),
            RequestHeaderState::End => parse_end_lf(cursor, field),
        };
        match result {
            ParseResult::Advance(next) => {
                st = next;
            },
            _ => {
                return result;
            },
        }
    }
}

/// Reads the first byte of a line.
fn parse_start(cursor: &mut Cursor, field: &mut Field) -> (r: ParseResult<RequestHeaderState>)
    ensures
        field_step(old(cursor).buf@, old(cursor).pos as nat, RequestHeaderState::Start, old(field)@)
            == field_stop(r, final(cursor).pos as nat, final(field)@),
        final(cursor).buf@ == old(cursor).buf@,
{
    let read = read_byte(cursor);
    match read {
        ReadResult::Byte(c) => {
            if c == CR {
                field.is_separator = true;
                ParseResult::Advance(RequestHeaderState::End)
            } else if c == LF {
                field.is_separator = true;
                ParseResult::Complete
            } else if is_tchar(c) {
                field.name_start = cursor.position() - 1;
                ParseResult::Advance(RequestHeaderState::FieldName)
            } else {
                ParseResult::Error
            }
        },
        ReadResult::Again => ParseResult::Again(RequestHeaderState::Start),
        ReadResult::Error => ParseResult::Error,
    }
}

/// Reads the field name, up to its colon.
fn parse_name(cursor: &mut Cursor, field: &mut Field) -> (r: ParseResult<RequestHeaderState>)
    ensures
        field_step(old(cursor).buf@, old(cursor).pos as nat, RequestHeaderState::FieldName, old(field)@)
            == field_stop(r, final(cursor).pos as nat, final(field)@),
        final(cursor).buf@ == old(cursor).buf@,
{
    let ghost buf = cursor.buf@;
    loop
        invariant
            cursor.buf@ == buf,
            buf == old(cursor).buf@,
            old(cursor).pos <= cursor.pos,
            *field == *old(field),
            field_step(buf, cursor.pos as nat, RequestHeaderState::FieldName, field@) == field_step(
                buf,
                old(cursor).pos as nat,
                RequestHeaderState::FieldName,
                old(field)@,
            ),
        decreases buf.len() - cursor.pos,
    {
        let read = read_byte(cursor);
        match read {
            ReadResult::Byte(c) => {
                if c == COLON {
                    field.name_end = cursor.position() - 1;
                    return ParseResult::Advance(RequestHeaderState::OWS1);
                }
                if !is_tchar(c) {
                    return ParseResult::Error;
                }
            },
            ReadResult::Again => {
                return ParseResult::Again(RequestHeaderState::FieldName);
            },
            ReadResult::Error => {
                return ParseResult::Error;
            },
        }
    }
}

/// Skips the spaces before the value, up to its first byte.
fn parse_ows_before_value(cursor: &mut Cursor, field: &mut Field) -> (r: ParseResult<
    RequestHeaderState,
>)
    ensures
        field_step(old(cursor).buf@, old(cursor).pos as nat, RequestHeaderState::OWS1, old(field)@)
            == field_stop(r, final(cursor).pos as nat, final(field)@),
        final(cursor).buf@ == old(cursor).buf@,
{
    let ghost buf = cursor.buf@;
    loop
        invariant
            cursor.buf@ == buf,
            buf == old(cursor).buf@,
            old(cursor).pos <= cursor.pos,
            *field == *old(field),
            field_step(buf, cursor.pos as nat, RequestHeaderState::OWS1, field@) == field_step(
                buf,
                old(cursor).pos as nat,
                RequestHeaderState::OWS1,
                old(field)@,
            ),
        decreases buf.len() - cursor.pos,
    {
        let read = read_byte(cursor);
        match read {
            ReadResult::Byte(c) => {
                if c == SP {
                    continue;
                }
                if !is_vchar(c) {
                    return ParseResult::Error;
                }
                field.value_start = cursor.position() - 1;
                return ParseResult::Advance(RequestHeaderState::FieldValue);
            },
            ReadResult::Again => {
                return ParseResult::Again(RequestHeaderState::OWS1);
            },
            ReadResult::Error => {
                return ParseResult::Error;
            },
        }
    }
}

/// Reads the field value (RFC 9110):
///
/// field-content = field-vchar [ 1*( SP / HTAB / field-vchar ) field-vchar ]
///
/// Whitespace after the last visible character is left out of the value.
fn parse_field_value(cursor: &mut Cursor, field: &mut Field) -> (r: ParseResult<RequestHeaderState>)
    ensures
        field_step(old(cursor).buf@, old(cursor).pos as nat, RequestHeaderState::FieldValue, old(field)@)
            == field_stop(r, final(cursor).pos as nat, final(field)@),
        final(cursor).buf@ == old(cursor).buf@,
{
    let ghost buf = cursor.buf@;
    let mut prev_ws = 0 < cursor.pos && cursor.pos <= cursor.buf.len() && (cursor.buf[cursor.pos
        - 1] == SP || cursor.buf[cursor.pos - 1] == HTAB);
    loop
        invariant
            cursor.buf@ == buf,
            buf == old(cursor).buf@,
            old(cursor).pos <= cursor.pos,
            prev_ws == after_ws(buf, cursor.pos as nat),
            field_step(buf, cursor.pos as nat, RequestHeaderState::FieldValue, field@) == field_step(
                buf,
                old(cursor).pos as nat,
                RequestHeaderState::FieldValue,
                old(field)@,
            ),
        decreases buf.len() - cursor.pos,
    {
        let read = read_byte(cursor);
        match read {
            ReadResult::Byte(c) => {
                if c == CR || c == LF {
                    if !prev_ws {
                        field.value_end = cursor.position() - 1;
                    }
                    if c == CR {
                        return ParseResult::Advance(RequestHeaderState::End);
                    }
                    return ParseResult::Complete;
                } else if c == SP || c == HTAB {
                    if prev_ws {
                        return ParseResult::Advance(RequestHeaderState::OWS2);
                    }
                    field.value_end = cursor.position() - 1;
                    prev_ws = true;
                } else if is_vchar(c) {
                    prev_ws = false;
                } else {
                    return ParseResult::Error;
                }
            },
            ReadResult::Again => {
                return ParseResult::Again(RequestHeaderState::FieldValue);
            },
            ReadResult::Error => {
                return ParseResult::Error;
            },
        }
    }
}

/// Skips the spaces after the value, up to the line end.
fn parse_ows_after_value(cursor: &mut Cursor, field: &mut Field) -> (r: ParseResult<
    RequestHeaderState,
>)
    ensures
        field_step(old(cursor).buf@, old(cursor).pos as nat, RequestHeaderState::OWS2, old(field)@)
            == field_stop(r, final(cursor).pos as nat, final(field)@),
        final(cursor).buf@ == old(cursor).buf@,
{
    let ghost buf = cursor.buf@;
    loop
        invariant
            cursor.buf@ == buf,
            buf == old(cursor).buf@,
            old(cursor).pos <= cursor.pos,
            *field == *old(field),
            field_step(buf, cursor.pos as nat, RequestHeaderState::OWS2, field@) == field_step(
                buf,
                old(cursor).pos as nat,
                RequestHeaderState::OWS2,
                old(field)@,
            ),
        decreases buf.len() - cursor.pos,
    {
        let read = read_byte(cursor);
        match read {
            ReadResult::Byte(c) => {
                if c == SP {
                    continue;
                }
                if c == CR {
                    return ParseResult::Advance(RequestHeaderState::End);
                }
                if c == LF {
                    return ParseResult::Complete;
                }
                return ParseResult::Error;
            },
            ReadResult::Again => {
                return ParseResult::Again(RequestHeaderState::OWS2);
            },
            ReadResult::Error => {
                return ParseResult::Error;
            },
        }
    }
}

/// Reads the LF that follows a CR at the line end.
fn parse_end_lf(cursor: &mut Cursor, field: &mut Field) -> (r: ParseResult<RequestHeaderState>)
    ensures
        field_step(old(cursor).buf@, old(cursor).pos as nat, RequestHeaderState::End, old(field)@)
            == field_stop(r, final(cursor).pos as nat, final(field)@),
        final(cursor).buf@ == old(cursor).buf@,
{
    let read = read_byte(cursor);
    match read {
        ReadResult::Byte(c) => {
            if c == LF {
                ParseResult::Complete
            } else {
                ParseResult::Error
            }
        },
        ReadResult::Again => ParseResult::Again(RequestHeaderState::End),
        ReadResult::Error => ParseResult::Error,
    }
}

/// The place for header fields that change how a request is handled. No
/// field name is reserved: every field leaves the header as it is.
pub fn process_reserved_header(http_header: &mut HTTPHeader, field_name: &str, field_value: &str)
    ensures
        *final(http_header) == *old(http_header),
{
}

/// `k` spaces.
pub open spec fn spaces(k: nat) -> Seq<u8> {
    Seq::new(k, |i: int| SP)
}

/// A field name: one or more token characters.
pub open spec fn is_field_name(name: Seq<u8>) -> bool {
    &&& name.len() > 0
    &&& forall|i: int| 0 <= i < name.len() ==> spec_is_tchar(name[i])
}

/// A field value without inner whitespace: one or more visible characters.
pub open spec fn is_plain_value(value: Seq<u8>) -> bool {
    &&& value.len() > 0
    &&& forall|i: int| 0 <= i < value.len() ==> spec_is_vchar(value[i])
}

/// `name: value` with `k` spaces before the value, `w` spaces after it, and
/// the line end.
pub open spec fn field_line(name: Seq<u8>, k: nat, value: Seq<u8>, w: nat, crlf: bool) -> Seq<u8> {
    name + seq![COLON] + spaces(k) + value + spaces(w) + line_end(crlf)
}

/// The field recorded for `name: value`, with `k` spaces before the value,
/// on a line that starts at `pos`.
pub open spec fn field_at(f: FieldView, pos: nat, name_len: nat, k: nat, value_len: nat) -> FieldView {
    FieldView {
        is_separator: f.is_separator,
        name_start: pos,
        name_end: pos + name_len,
        value_start: pos + name_len + 1 + k,
        value_end: pos + name_len + 1 + k + value_len,
    }
}

proof fn lemma_name_run(buf: Seq<u8>, pos: nat, q: nat, f: FieldView)
    requires
        pos <= q < buf.len(),
        forall|i: int| pos <= i < q ==> spec_is_tchar(buf[i]),
        buf[q as int] == COLON,
    ensures
        field_run(buf, pos, RequestHeaderState::FieldName, f) == field_run(
            buf,
            q + 1,
            RequestHeaderState::OWS1,
            FieldView { name_end: q, ..f },
        ),
    decreases q - pos,
{
    if pos < q {
        lemma_name_run(buf, pos + 1, q, f);
    }
}

proof fn lemma_ows1_run(buf: Seq<u8>, pos: nat, q: nat, f: FieldView)
    requires
        pos <= q < buf.len(),
        forall|i: int| pos <= i < q ==> buf[i] == SP,
        spec_is_vchar(buf[q as int]),
    ensures
        field_run(buf, pos, RequestHeaderState::OWS1, f) == field_run(
            buf,
            q + 1,
            RequestHeaderState::FieldValue,
            FieldView { value_start: q, ..f },
        ),
    decreases q - pos,
{
    if pos < q {
        lemma_ows1_run(buf, pos + 1, q, f);
    }
}

proof fn lemma_value_run(buf: Seq<u8>, pos: nat, q: nat, f: FieldView)
    requires
        0 < pos <= q < buf.len(),
        forall|i: int| pos - 1 <= i < q ==> spec_is_vchar(buf[i]),
    ensures
        field_run(buf, pos, RequestHeaderState::FieldValue, f) == field_run(
            buf,
            q,
            RequestHeaderState::FieldValue,
            f,
        ),
    decreases q - pos,
{
    if pos < q {
        assert(!after_ws(buf, pos));
        lemma_value_run(buf, pos + 1, q, f);
    }
}

proof fn lemma_ows2_run(buf: Seq<u8>, pos: nat, q: nat, f: FieldView)
    requires
        pos <= q < buf.len(),
        forall|i: int| pos <= i < q ==> buf[i] == SP,
    ensures
        field_run(buf, pos, RequestHeaderState::OWS2, f) == field_run(
            buf,
            q,
            RequestHeaderState::OWS2,
            f,
        ),
    decreases q - pos,
{
    if pos < q {
        lemma_ows2_run(buf, pos + 1, q, f);
    }
}

/// Runs a header line from its start at `pos` through its name, its colon,
/// the spaces before its value and its value.
proof fn lemma_field_head(buf: Seq<u8>, pos: nat, nl: nat, k: nat, vl: nat, f: FieldView)
    requires
        nl > 0,
        vl > 0,
        pos + nl + 1 + k + vl < buf.len(),
        forall|i: int| pos <= i < pos + nl ==> spec_is_tchar(buf[i]),
        buf[(pos + nl) as int] == COLON,
        forall|i: int| pos + nl + 1 <= i < pos + nl + 1 + k ==> buf[i] == SP,
        forall|i: int| pos + nl + 1 + k <= i < pos + nl + 1 + k + vl ==> spec_is_vchar(buf[i]),
    ensures
        field_run(buf, pos, RequestHeaderState::Start, f) == field_run(
            buf,
            pos + nl + 1 + k + vl,
            RequestHeaderState::FieldValue,
            FieldView {
                name_start: pos,
                name_end: pos + nl,
                value_start: pos + nl + 1 + k,
                ..f
            },
        ),
{
    let vs = pos + nl + 1 + k;
    let f1 = FieldView { name_start: pos, ..f };
    assert(field_run(buf, pos, RequestHeaderState::Start, f) == field_run(
        buf,
        pos + 1,
        RequestHeaderState::FieldName,
        f1,
    ));
    lemma_name_run(buf, pos + 1, pos + nl, f1);
    let f2 = FieldView { name_end: pos + nl, ..f1 };
    lemma_ows1_run(buf, pos + nl + 1, vs as nat, f2);
    let f3 = FieldView { value_start: vs as nat, ..f2 };
    lemma_value_run(buf, (vs + 1) as nat, (vs + vl) as nat, f3);
}

/// Runs the end of a header line from the byte after its value: `w` spaces,
/// then the line end. The value ends where the spaces start.
proof fn lemma_field_tail(buf: Seq<u8>, ve: nat, w: nat, crlf: bool, f: FieldView)
    requires
        0 < ve,
        ve + w + line_end(crlf).len() <= buf.len(),
        spec_is_vchar(buf[ve - 1]),
        forall|i: int| ve <= i < ve + w ==> buf[i] == SP,
        forall|i: int| 0 <= i < line_end(crlf).len() ==> buf[ve + w + i] == line_end(crlf)[i],
    ensures
        field_run(buf, ve, RequestHeaderState::FieldValue, f) == field_stop(
            ParseResult::Complete,
            ve + w + line_end(crlf).len(),
            FieldView { value_end: ve, ..f },
        ),
{
    let closed = FieldView { value_end: ve, ..f };
    let el = ve + w;
    let eol = line_end(crlf);
    assert(buf[el as int] == eol[0]);
    if crlf {
        assert(buf[(el + 1) as int] == eol[1]);
    }
    assert(!after_ws(buf, ve));
    if w == 0 {
        if crlf {
            assert(field_run(buf, ve, RequestHeaderState::FieldValue, f) == field_run(
                buf,
                ve + 1,
                RequestHeaderState::End,
                closed,
            ));
        }
    } else {
        assert(buf[ve as int] == SP);
        assert(field_run(buf, ve, RequestHeaderState::FieldValue, f) == field_run(
            buf,
            ve + 1,
            RequestHeaderState::FieldValue,
            closed,
        ));
        assert(after_ws(buf, ve + 1));
        if w == 1 {
            if crlf {
                assert(field_run(buf, ve + 1, RequestHeaderState::FieldValue, closed) == field_run(
                    buf,
                    ve + 2,
                    RequestHeaderState::End,
                    closed,
                ));
            }
        } else {
            assert(buf[(ve + 1) as int] == SP);
            assert(field_run(buf, ve + 1, RequestHeaderState::FieldValue, closed) == field_run(
                buf,
                ve + 2,
                RequestHeaderState::OWS2,
                closed,
            ));
            lemma_ows2_run(buf, ve + 2, el as nat, closed);
            if crlf {
                assert(field_run(buf, el as nat, RequestHeaderState::OWS2, closed) == field_run(
                    buf,
                    el + 1,
                    RequestHeaderState::End,
                    closed,
                ));
            }
        }
    }
}

/// Runs a header line `name: value`, with spaces around the value, that
/// starts at `pos`: it completes right after its line end, with the offsets
/// of the name and of the value without the spaces.
pub proof fn lemma_field_accepted(
    pre: Seq<u8>,
    name: Seq<u8>,
    k: nat,
    value: Seq<u8>,
    w: nat,
    crlf: bool,
    rest: Seq<u8>,
    f: FieldView,
)
    requires
        is_field_name(name),
        is_plain_value(value),
    ensures
        ({
            let line = field_line(name, k, value, w, crlf);
            let buf = pre + line + rest;
            let pos = pre.len();
            field_run(buf, pos, RequestHeaderState::Start, f) == field_stop(
                ParseResult::Complete,
                pos + line.len(),
                field_at(f, pos, name.len(), k, value.len()),
            )
        }),
{
    let line = field_line(name, k, value, w, crlf);
    let buf = pre + line + rest;
    let pos = pre.len();
    let nl = name.len();
    let vl = value.len();
    let eol = line_end(crlf);
    let vs = pos + nl + 1 + k;
    let ve = vs + vl;
    let el = ve + w;
    assert(forall|i: int| 0 <= i < line.len() ==> buf[pos + i] == line[i]);
    assert forall|i: int| pos <= i < pos + nl implies spec_is_tchar(buf[i]) by {
        assert(buf[i] == line[i - pos]);
        assert(line[i - pos] == name[i - pos]);
    }
    assert(buf[(pos + nl) as int] == line[nl as int]);
    assert forall|i: int| pos + nl + 1 <= i < vs implies buf[i] == SP by {
        assert(buf[i] == line[i - pos]);
        assert(line[i - pos] == spaces(k)[i - pos - nl - 1]);
    }
    assert forall|i: int| vs <= i < ve implies spec_is_vchar(buf[i]) by {
        assert(buf[i] == line[i - pos]);
        assert(line[i - pos] == value[i - vs]);
    }
    lemma_field_head(buf, pos, nl, k, vl, f);
    assert forall|i: int| ve <= i < el implies buf[i] == SP by {
        assert(buf[i] == line[i - pos]);
        assert(line[i - pos] == spaces(w)[i - ve]);
    }
    assert forall|i: int| 0 <= i < eol.len() implies buf[el + i] == eol[i] by {
        assert(buf[el + i] == line[el + i - pos]);
    }
    let f3 = FieldView { name_start: pos, name_end: pos + nl, value_start: vs as nat, ..f };
    lemma_field_tail(buf, ve as nat, w, crlf, f3);
}

/// A header line `name: value` completes with the name and the value
/// between its offsets; spaces before and after the value are left out of
/// it.
pub proof fn law_field_trimmed(
    name: Seq<u8>,
    k: nat,
    value: Seq<u8>,
    w: nat,
    crlf: bool,
    f: FieldView,
)
    requires
        is_field_name(name),
        is_plain_value(value),
    ensures
        ({
            let buf = field_line(name, k, value, w, crlf);
            let out = field_run(buf, 0, RequestHeaderState::Start, f);
            &&& out.result == ParseResult::<RequestHeaderState>::Complete
            &&& out.pos == buf.len()
            &&& out.field.is_separator == f.is_separator
            &&& span_bytes(buf, out.field.name_start, out.field.name_end) == name
            &&& span_bytes(buf, out.field.value_start, out.field.value_end) == value
        }),
{
    let e = Seq::<u8>::empty();
    let buf = field_line(name, k, value, w, crlf);
    lemma_field_accepted(e, name, k, value, w, crlf, e, f);
    assert(e + buf + e =~= buf);
    let out = field_run(buf, 0, RequestHeaderState::Start, f);
    assert(span_bytes(buf, out.field.name_start, out.field.name_end) =~= name);
    assert(span_bytes(buf, out.field.value_start, out.field.value_end) =~= value);
}

/// Two header lines in a row, read by two parses that share the cursor (the
/// second starts where the first stopped, with the field the first left),
/// give the two fields in order.
pub proof fn law_consecutive_fields(
    name1: Seq<u8>,
    k1: nat,
    value1: Seq<u8>,
    w1: nat,
    crlf1: bool,
    name2: Seq<u8>,
    k2: nat,
    value2: Seq<u8>,
    w2: nat,
    crlf2: bool,
    f: FieldView,
)
    requires
        is_field_name(name1),
        is_plain_value(value1),
        is_field_name(name2),
        is_plain_value(value2),
    ensures
        ({
            let line1 = field_line(name1, k1, value1, w1, crlf1);
            let buf = line1 + field_line(name2, k2, value2, w2, crlf2);
            let first = field_run(buf, 0, RequestHeaderState::Start, f);
            let second = field_run(buf, first.pos, RequestHeaderState::Start, first.field);
            &&& first.result == ParseResult::<RequestHeaderState>::Complete
            &&& first.pos == line1.len()
            &&& span_bytes(buf, first.field.name_start, first.field.name_end) == name1
            &&& span_bytes(buf, first.field.value_start, first.field.value_end) == value1
            &&& second.result == ParseResult::<RequestHeaderState>::Complete
            &&& second.pos == buf.len()
            &&& span_bytes(buf, second.field.name_start, second.field.name_end) == name2
            &&& span_bytes(buf, second.field.value_start, second.field.value_end) == value2
        }),
{
    let e = Seq::<u8>::empty();
    let line1 = field_line(name1, k1, value1, w1, crlf1);
    let line2 = field_line(name2, k2, value2, w2, crlf2);
    let buf = line1 + line2;
    lemma_field_accepted(e, name1, k1, value1, w1, crlf1, line2, f);
    assert(e + line1 + line2 =~= buf);
    let first = field_run(buf, 0, RequestHeaderState::Start, f);
    lemma_field_accepted(line1, name2, k2, value2, w2, crlf2, e, first.field);
    assert(line1 + line2 + e =~= buf);
    let second = field_run(buf, first.pos, RequestHeaderState::Start, first.field);
    assert(span_bytes(buf, first.field.name_start, first.field.name_end) =~= name1);
    assert(span_bytes(buf, first.field.value_start, first.field.value_end) =~= value1);
    assert(span_bytes(buf, second.field.name_start, second.field.name_end) =~= name2);
    assert(span_bytes(buf, second.field.value_start, second.field.value_end) =~= value2);
}

/// A blank line, CR LF or LF alone, wherever it starts, is the separator
/// that ends the header section: the parse completes right after it and
/// marks the field as the separator.
pub proof fn law_blank_line_separator(pre: Seq<u8>, crlf: bool, rest: Seq<u8>, f: FieldView)
    ensures
        ({
            let buf = pre + line_end(crlf) + rest;
            let out = field_run(buf, pre.len(), RequestHeaderState::Start, f);
            &&& out.result == ParseResult::<RequestHeaderState>::Complete
            &&& out.field.is_separator
            &&& out.pos == pre.len() + line_end(crlf).len()
        }),
{
    let buf = pre + line_end(crlf) + rest;
    let pos = pre.len();
    let sep = FieldView { is_separator: true, ..f };
    assert(buf[pos as int] == line_end(crlf)[0]);
    if crlf {
        assert(buf[(pos + 1) as int] == line_end(crlf)[1]);
        assert(field_run(buf, pos, RequestHeaderState::Start, f) == field_run(
            buf,
            pos + 1,
            RequestHeaderState::End,
            sep,
        ));
    }
}

} // verus!
