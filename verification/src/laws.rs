//! What holds of every line: what the placeholder means, what a failure tells,
//! that a record needs its newline, that buffering does not show, and what
//! survives when a line is read and written back.

use crate::entry::{blank_entry, spec_assign, LogEntryView};
use crate::error::{ErrorKind, ParseError};
use crate::format::{combined_format, LogField};
use crate::number::{is_canonical, lemma_decimal_parsed, spec_parse_int};
use crate::parse::{
    field_scan, field_start, lemma_field_start, spec_entry, spec_fields, spec_records,
};
use crate::reader::BufReader;
use crate::render::{bracketed, line_from, quoted, quoted_or_placeholder, rendered, spec_line};
use crate::token::{
    is_placeholder, lemma_body_used, lemma_braced_len, lemma_plain_len, scanned, spec_tok,
    spec_tok_body, Scan,
};
use vstd::prelude::*;

verus! {

/// The token that the field with the number `i` of the line `s` holds.
pub open spec fn field_text(s: Seq<char>, i: int) -> Seq<char> {
    match field_scan(s, i) {
        Scan::Token { text, .. } => text,
        Scan::Fail { .. } => Seq::empty(),
    }
}

/// The field with the number `i` of the line `s` as it stands there, with
/// its quotes or brackets and without the separator behind it.
pub open spec fn field_raw(s: Seq<char>, i: int) -> Seq<char> {
    let at = field_start(s, i);
    s.subrange(at, at + spec_tok_body(s.skip(at)).used())
}

/// Whether the field with the number `i` of the line `s` begins with `c`.
pub open spec fn field_opens_with(s: Seq<char>, i: int, c: char) -> bool {
    field_start(s, i) < s.len() && s[field_start(s, i)] == c
}

/// Whether the field with the number `i` of the line `s` is a plain token.
pub open spec fn is_plain_field(s: Seq<char>, i: int) -> bool {
    !field_opens_with(s, i, '"') && !field_opens_with(s, i, '[')
}

/// Whether the field with the number `i` of the line `s` is a quoted token
/// or the bare placeholder.
pub open spec fn is_quoted_or_placeholder_field(s: Seq<char>, i: int) -> bool {
    field_opens_with(s, i, '"') || field_raw(s, i) == seq!['-']
}

/// Whether `s` begins with a line of the combined log format: a record can
/// be read from it, and each field has the shape that the format gives it.
/// The source, the two unused fields, the status and the size are plain
/// tokens, the date is bracketed, the request is quoted, and the referer and
/// the user agent are quoted or the bare placeholder.
pub open spec fn is_combined_line(s: Seq<char>) -> bool {
    &&& spec_entry(s, combined_format()) is Ok
    &&& is_plain_field(s, 0)
    &&& is_plain_field(s, 1)
    &&& is_plain_field(s, 2)
    &&& field_opens_with(s, 3, '[')
    &&& field_opens_with(s, 4, '"')
    &&& is_plain_field(s, 5)
    &&& is_plain_field(s, 6)
    &&& is_quoted_or_placeholder_field(s, 7)
    &&& is_quoted_or_placeholder_field(s, 8)
}

/// The record as it stands after the field with the number `i` of `s` has
/// been read into `e`.
spec fn after_field(s: Seq<char>, fmt: Seq<LogField>, i: int, e: LogEntryView) -> LogEntryView {
    match spec_assign(e, fmt[i], field_text(s, i)) {
        Ok(next) => next,
        Err(_) => e,
    }
}

/// Where the fields from number `i` on can be read, the field with the
/// number `i` holds a token that its role accepts, and the rest is read into
/// the record with that token stored in it.
proof fn lemma_fields_step(s: Seq<char>, fmt: Seq<LogField>, i: int, e: LogEntryView)
    requires
        0 <= i < fmt.len(),
        spec_fields(s, fmt, i, e) is Ok,
    ensures
        field_scan(s, i) is Token,
        spec_assign(e, fmt[i], field_text(s, i)) is Ok,
        spec_fields(s, fmt, i + 1, after_field(s, fmt, i, e)) == spec_fields(s, fmt, i, e),
{
}

/// The nine records that reading a line of the combined log format goes
/// through, field after field.
spec fn combined_steps(s: Seq<char>) -> Seq<LogEntryView> {
    let f = combined_format();
    let e0 = blank_entry();
    let e1 = after_field(s, f, 0, e0);
    let e2 = after_field(s, f, 1, e1);
    let e3 = after_field(s, f, 2, e2);
    let e4 = after_field(s, f, 3, e3);
    let e5 = after_field(s, f, 4, e4);
    let e6 = after_field(s, f, 5, e5);
    let e7 = after_field(s, f, 6, e6);
    let e8 = after_field(s, f, 7, e7);
    let e9 = after_field(s, f, 8, e8);
    seq![e0, e1, e2, e3, e4, e5, e6, e7, e8, e9]
}

/// The record that a line of the combined log format is read as holds, for
/// each role, what the field of that role stands for: the tokens of fields
/// 0, 3 and 4 as the source, the date and the request, the integer of field
/// 5 as the status, that of field 6 as the size, and the tokens of fields 7
/// and 8 as the referer and the user agent, where the placeholder stands for
/// an absent value.
pub proof fn lemma_combined_entry(s: Seq<char>)
    requires
        spec_entry(s, combined_format()) is Ok,
    ensures
        ({
            let e = spec_entry(s, combined_format())->Ok_0.0;
            &&& e.source == field_text(s, 0)
            &&& e.date == field_text(s, 3)
            &&& e.request == field_text(s, 4)
            &&& spec_parse_int(field_text(s, 5)) == Some(e.status as i64)
            &&& i64::MIN <= e.status <= i64::MAX
            &&& is_placeholder(field_text(s, 6)) ==> e.size is None
            &&& !is_placeholder(field_text(s, 6)) ==> e.size is Some && spec_parse_int(
                field_text(s, 6),
            ) == Some(e.size->0 as i64) && i64::MIN <= e.size->0 <= i64::MAX
            &&& is_placeholder(field_text(s, 7)) ==> e.referer is None
            &&& !is_placeholder(field_text(s, 7)) ==> e.referer == Some(field_text(s, 7))
            &&& is_placeholder(field_text(s, 8)) ==> e.user_agent is None
            &&& !is_placeholder(field_text(s, 8)) ==> e.user_agent == Some(field_text(s, 8))
            &&& forall|i: int| 0 <= i < 9 ==> (#[trigger] field_scan(s, i)) is Token
        }),
{
    let f = combined_format();
    let steps = combined_steps(s);
    lemma_fields_step(s, f, 0, steps[0]);
    lemma_fields_step(s, f, 1, steps[1]);
    lemma_fields_step(s, f, 2, steps[2]);
    lemma_fields_step(s, f, 3, steps[3]);
    lemma_fields_step(s, f, 4, steps[4]);
    lemma_fields_step(s, f, 5, steps[5]);
    lemma_fields_step(s, f, 6, steps[6]);
    lemma_fields_step(s, f, 7, steps[7]);
    lemma_fields_step(s, f, 8, steps[8]);
}

/// The placeholder `-`, read for the size, the referer or the user agent,
/// is never refused and always leaves the value absent; the other fields of
/// the record stay as they were.
pub proof fn lemma_assign_placeholder(e: LogEntryView)
    ensures
        spec_assign(e, LogField::Size, seq!['-']) == Ok::<LogEntryView, ErrorKind>(
            LogEntryView { size: None, ..e },
        ),
        spec_assign(e, LogField::Referer, seq!['-']) == Ok::<LogEntryView, ErrorKind>(
            LogEntryView { referer: None, ..e },
        ),
        spec_assign(e, LogField::UserAgent, seq!['-']) == Ok::<LogEntryView, ErrorKind>(
            LogEntryView { user_agent: None, ..e },
        ),
{
}

/// A failure inside the fields of a line names a field of the line. Either
/// no token could be read for that field, or its token was refused: then the
/// field is the status or the size, the failure carries the token, and the
/// token is not an integer, nor the placeholder where the field is the size.
/// Returns the number of the field.
pub proof fn lemma_failing_field(s: Seq<char>, fmt: Seq<LogField>, i: int, e: LogEntryView) -> (j:
    int)
    requires
        0 <= i,
        spec_fields(s, fmt, i, e) is Err,
    ensures
        i <= j < fmt.len(),
        ({
            let err = spec_fields(s, fmt, i, e)->Err_0;
            &&& err.role == Some(fmt[j])
            &&& field_scan(s, j) matches Scan::Fail { kind, .. } ==> err.kind == kind && err.token
                is None
            &&& field_scan(s, j) is Token ==> {
                &&& err.token == Some(field_text(s, j))
                &&& spec_parse_int(field_text(s, j)) is None
                &&& fmt[j] == LogField::Status && err.kind == ErrorKind::BadStatus || fmt[j]
                    == LogField::Size && err.kind == ErrorKind::BadSize && !is_placeholder(
                    field_text(s, j),
                )
            }
        }),
    decreases fmt.len() - i,
{
    match field_scan(s, i) {
        Scan::Fail { .. } => i,
        Scan::Token { text, .. } => match spec_assign(e, fmt[i], text) {
            Err(_) => i,
            Ok(next) => lemma_failing_field(s, fmt, i + 1, next),
        },
    }
}

/// In a line whose size field is the placeholder `-`, the size is absent:
/// the record, if the line gives one, has no size, and if the line fails, it
/// is not the size field that fails.
pub proof fn lemma_placeholder_size(s: Seq<char>)
    requires
        is_placeholder(field_text(s, 6)),
    ensures
        spec_entry(s, combined_format()) matches Ok((e, _)) ==> e.size is None,
        spec_entry(s, combined_format()) matches Err(err) ==> err.role != Some(LogField::Size)
            && err.kind != ErrorKind::BadSize,
{
    let f = combined_format();
    if spec_entry(s, f) is Ok {
        lemma_combined_entry(s);
    } else if spec_fields(s, f, 0, blank_entry()) is Err {
        let j = lemma_failing_field(s, f, 0, blank_entry());
        lemma_body_used(s.skip(field_start(s, j)));
    }
}

/// In a line whose referer field is the placeholder `-`, the referer is
/// absent, and so is the user agent where its field is the placeholder.
/// Neither field is ever refused for what its token holds.
pub proof fn lemma_placeholder_referer_user_agent(s: Seq<char>)
    ensures
        spec_entry(s, combined_format()) matches Ok((e, _)) ==> {
            &&& is_placeholder(field_text(s, 7)) ==> e.referer is None
            &&& is_placeholder(field_text(s, 8)) ==> e.user_agent is None
        },
        spec_entry(s, combined_format()) matches Err(err) ==> {
            &&& is_placeholder(field_text(s, 7)) ==> err.role != Some(LogField::Referer)
            &&& is_placeholder(field_text(s, 8)) ==> err.role != Some(LogField::UserAgent)
            &&& err.role == Some(LogField::Referer) || err.role == Some(LogField::UserAgent)
                ==> err.token is None
        },
{
    let f = combined_format();
    if spec_entry(s, f) is Ok {
        lemma_combined_entry(s);
    } else if spec_fields(s, f, 0, blank_entry()) is Err {
        lemma_failing_field(s, f, 0, blank_entry());
    }
}

/// A bracketed field stands in the line as its token between brackets.
pub proof fn lemma_braced_field_raw(s: Seq<char>, i: int)
    requires
        field_opens_with(s, i, '['),
        field_scan(s, i) is Token,
    ensures
        field_raw(s, i) == bracketed(field_text(s, i)),
{
    lemma_field_start(s, i);
    lemma_braced_len(s.skip(field_start(s, i)).skip(1));
}

/// A plain field stands in the line as its token.
pub proof fn lemma_plain_field_raw(s: Seq<char>, i: int)
    requires
        is_plain_field(s, i),
        field_scan(s, i) is Token,
    ensures
        field_raw(s, i) == field_text(s, i),
{
    lemma_field_start(s, i);
    lemma_plain_len(s.skip(field_start(s, i)));
}

/// Reading a line of the combined log format and writing the record back
/// gives a line that holds the date, the status and the size exactly as they
/// stood in the line that was read, character for character. This is stated
/// for lines whose status and size are written in canonical form, without a
/// plus sign or leading zeros: other spellings of a number are read as the
/// same number and written back in canonical form.
pub proof fn lemma_unquoted_fields_survive(s: Seq<char>)
    requires
        is_combined_line(s),
        is_canonical(field_text(s, 5)),
        is_placeholder(field_text(s, 6)) || is_canonical(field_text(s, 6)),
    ensures
        ({
            let e = spec_entry(s, combined_format())->Ok_0.0;
            &&& rendered(e, LogField::Date) == field_raw(s, 3)
            &&& rendered(e, LogField::Status) == field_raw(s, 5)
            &&& rendered(e, LogField::Size) == field_raw(s, 6)
            &&& spec_line(e, combined_format()) == e.source + seq![' ', '-', ' ', '-', ' ']
                + field_raw(s, 3) + seq![' '] + quoted(e.request) + seq![' '] + field_raw(s, 5)
                + seq![' '] + field_raw(s, 6) + seq![' '] + quoted_or_placeholder(e.referer)
                + seq![' '] + quoted_or_placeholder(e.user_agent) + seq!['\n']
        }),
{
    lemma_combined_entry(s);
    lemma_braced_field_raw(s, 3);
    lemma_plain_field_raw(s, 5);
    lemma_plain_field_raw(s, 6);
    lemma_decimal_parsed(field_text(s, 5));
    if !is_placeholder(field_text(s, 6)) {
        lemma_decimal_parsed(field_text(s, 6));
    }
    lemma_combined_line_text(spec_entry(s, combined_format())->Ok_0.0);
}

/// A record is written in the combined log format as its nine fields with
/// one space between two of them and a newline at the end.
pub proof fn lemma_combined_line_text(e: LogEntryView)
    ensures
        spec_line(e, combined_format()) == e.source + seq![' ', '-', ' ', '-', ' '] + rendered(
            e,
            LogField::Date,
        ) + seq![' '] + rendered(e, LogField::Request) + seq![' '] + rendered(e, LogField::Status)
            + seq![' '] + rendered(e, LogField::Size) + seq![' '] + rendered(e, LogField::Referer)
            + seq![' '] + rendered(e, LogField::UserAgent) + seq!['\n'],
{
    assert(combined_format().len() == 9);
    reveal_with_fuel(line_from, 10);
}

/// A record is read only where a newline stands behind its last field: the
/// last character that a record takes up is a newline.
pub proof fn lemma_record_ends_with_newline(s: Seq<char>, fmt: Seq<LogField>)
    ensures
        spec_entry(s, fmt) matches Ok((_, used)) ==> 1 <= used <= s.len() && s[used - 1] == '\n',
{
    lemma_field_start(s, fmt.len() as int);
}

/// Input that does not end in a newline holds a line that is cut short, and
/// reading it fails: no record is made of a line without its newline.
pub proof fn lemma_unended_line_fails(s: Seq<char>, fmt: Seq<LogField>)
    requires
        s.len() > 0,
        s.last() != '\n',
    ensures
        spec_records(s, fmt) is Err,
    decreases s.len(),
{
    lemma_record_ends_with_newline(s, fmt);
    match spec_entry(s, fmt) {
        Err(_) => {},
        Ok((_, used)) => {
            lemma_unended_line_fails(s.skip(used), fmt);
        },
    }
}

/// The source of a record read from a line of the combined log format is
/// never empty.
pub proof fn lemma_source_not_empty(s: Seq<char>)
    requires
        is_combined_line(s),
    ensures
        spec_entry(s, combined_format())->Ok_0.0.source.len() > 0,
{
    lemma_combined_entry(s);
    lemma_body_used(s.skip(field_start(s, 0)));
}

/// It makes no difference to a token where one buffer load ends and the
/// next begins. Take two readers that have the same characters left,
/// whatever the size of their buffers and however many of the characters
/// each holds in its buffer, and read a token from each: both give the same
/// token or fail for the same reason after as many characters, and both
/// have the same characters left afterwards.
pub proof fn lemma_read_tok_ignores_buffering(
    a: BufReader,
    a_after: BufReader,
    a_res: Result<String, ParseError>,
    b: BufReader,
    b_after: BufReader,
    b_res: Result<String, ParseError>,
)
    requires
        a.wf(),
        b.wf(),
        a@ == b@,
        scanned(&a, &a_after, a_res, spec_tok(a@)),
        scanned(&b, &b_after, b_res, spec_tok(b@)),
    ensures
        a_after@ == b_after@,
        a_after.position() - a.position() == b_after.position() - b.position(),
        a_res matches Ok(x) ==> b_res matches Ok(y) && x@ == y@,
        a_res matches Err(x) ==> b_res matches Err(y) && x@.kind == y@.kind && x@.offset
            - a.position() == y@.offset - b.position(),
{
}

} // verus!
