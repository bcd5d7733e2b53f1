//! Reading back what was written: a line made from a record gives the record again.

use crate::entry::{blank_entry, spec_assign, LogEntryView};
use crate::error::{ErrorKind, ParseErrorView};
use crate::format::{combined_format, LogField};
use crate::laws::{is_combined_line, lemma_combined_entry};
use crate::number::{decimal, lemma_decimal_digits, lemma_parse_decimal};
use crate::parse::{field_scan, field_start, lemma_field_start, spec_entry, spec_fields};
use crate::render::{bracketed, escaped, line_from, quoted, rendered, spec_line};
use crate::token::{
    braced_len, is_delimiter, is_placeholder, lemma_braced_len, lemma_plain_len, plain_len,
    spec_quoted, spec_tok, Scan,
};
use vstd::prelude::*;

verus! {

/// Whether `t` can stand in a line as a plain token: it is not empty, it
/// does not begin with a quote or a bracket, and it holds no space and no
/// newline.
pub open spec fn is_plain_token(t: Seq<char>) -> bool {
    &&& t.len() > 0
    &&& t[0] != '"'
    &&& t[0] != '['
    &&& forall|i: int| 0 <= i < t.len() ==> !is_delimiter(#[trigger] t[i])
}

/// Whether `t` can stand between brackets: it holds no closing bracket.
pub open spec fn has_no_bracket(t: Seq<char>) -> bool {
    forall|i: int| 0 <= i < t.len() ==> #[trigger] t[i] != ']'
}

/// Whether the record `e` can be written as a line that gives `e` again: the
/// source can stand as a plain token, the date can stand between brackets,
/// the numbers fit 64 bits, and neither the referer nor the user agent is
/// the text `-`, which a line cannot tell from an absent value.
pub open spec fn is_writable(e: LogEntryView) -> bool {
    &&& is_plain_token(e.source)
    &&& has_no_bracket(e.date)
    &&& i64::MIN <= e.status <= i64::MAX
    &&& e.size matches Some(n) ==> i64::MIN <= n <= i64::MAX
    &&& e.referer != Some(seq!['-'])
    &&& e.user_agent != Some(seq!['-'])
}

/// The record `acc` with the field of the role `role` taken from `e`.
pub open spec fn with_field(acc: LogEntryView, e: LogEntryView, role: LogField) -> LogEntryView {
    match role {
        LogField::Unused => acc,
        LogField::Source => LogEntryView { source: e.source, ..acc },
        LogField::Date => LogEntryView { date: e.date, ..acc },
        LogField::Request => LogEntryView { request: e.request, ..acc },
        LogField::Status => LogEntryView { status: e.status, ..acc },
        LogField::Size => LogEntryView { size: e.size, ..acc },
        LogField::Referer => LogEntryView { referer: e.referer, ..acc },
        LogField::UserAgent => LogEntryView { user_agent: e.user_agent, ..acc },
    }
}

/// The record `acc` with the fields of the roles that `fmt` lists from
/// number `i` on taken from `e`.
pub open spec fn filled(acc: LogEntryView, e: LogEntryView, fmt: Seq<LogField>, i: int) -> LogEntryView
    decreases fmt.len() - i,
{
    if i < 0 || i >= fmt.len() {
        acc
    } else {
        filled(with_field(acc, e, fmt[i]), e, fmt, i + 1)
    }
}

/// A text without spaces and newlines, with a space or a newline behind it,
/// ends as a plain token where the text ends.
proof fn lemma_plain_len_concat(t: Seq<char>, next: Seq<char>)
    requires
        forall|i: int| 0 <= i < t.len() ==> !is_delimiter(#[trigger] t[i]),
        next.len() > 0,
        is_delimiter(next[0]),
    ensures
        plain_len(t + next) == t.len(),
    decreases t.len(),
{
    if t.len() > 0 {
        assert((t + next).skip(1) =~= t.skip(1) + next);
        assert forall|i: int| 0 <= i < t.skip(1).len() implies !is_delimiter(
            #[trigger] t.skip(1)[i],
        ) by {}
        lemma_plain_len_concat(t.skip(1), next);
    }
}

/// A text without a closing bracket, with a closing bracket behind it, ends
/// as a bracketed token where the text ends.
proof fn lemma_braced_len_concat(t: Seq<char>, next: Seq<char>)
    requires
        has_no_bracket(t),
        next.len() > 0,
        next[0] == ']',
    ensures
        braced_len(t + next) == t.len(),
    decreases t.len(),
{
    if t.len() > 0 {
        assert((t + next).skip(1) =~= t.skip(1) + next);
        assert(has_no_bracket(t.skip(1))) by {
            assert forall|i: int| 0 <= i < t.skip(1).len() implies #[trigger] t.skip(1)[i]
                != ']' by {}
        }
        lemma_braced_len_concat(t.skip(1), next);
    }
}

/// An escaped text with a quote behind it is read as the text, whatever
/// follows the quote: escaping loses nothing.
pub proof fn lemma_quoted_concat(t: Seq<char>, next: Seq<char>)
    ensures
        spec_quoted(escaped(t) + seq!['"'] + next) == (Scan::Token {
            text: t,
            used: escaped(t).len() as int + 1,
        }),
    decreases t.len(),
{
    let s = escaped(t) + seq!['"'] + next;
    if t.len() == 0 {
        assert(t =~= Seq::<char>::empty());
    } else {
        let c = t[0];
        let rest = t.skip(1);
        let inner = escaped(rest) + seq!['"'] + next;
        lemma_quoted_concat(rest, next);
        assert(seq![c] + rest =~= t);
        if c == '"' || c == '\\' {
            assert(s.skip(2) =~= inner);
        } else {
            assert(s.skip(1) =~= inner);
        }
    }
}

/// A plain token with a space or a newline behind it is read as itself, and
/// a space behind it is taken with it.
pub proof fn lemma_tok_plain(t: Seq<char>, next: Seq<char>)
    requires
        is_plain_token(t),
        next.len() > 0,
        is_delimiter(next[0]),
    ensures
        spec_tok(t + next) == (Scan::Token {
            text: t,
            used: t.len() + if next[0] == ' ' {
                1int
            } else {
                0int
            },
        }),
{
    lemma_plain_len_concat(t, next);
    assert((t + next).take(t.len() as int) =~= t);
}

/// A text without a closing bracket, written between brackets, is read as
/// itself, and a space behind it is taken with it.
pub proof fn lemma_tok_bracketed(t: Seq<char>, next: Seq<char>)
    requires
        has_no_bracket(t),
        next.len() > 0,
    ensures
        spec_tok(bracketed(t) + next) == (Scan::Token {
            text: t,
            used: bracketed(t).len() + if next[0] == ' ' {
                1int
            } else {
                0int
            },
        }),
{
    let inner = (bracketed(t) + next).skip(1);
    assert(inner =~= t + (seq![']'] + next));
    lemma_braced_len_concat(t, seq![']'] + next);
    assert(inner.take(t.len() as int) =~= t);
}

/// A text written between quotes, escaped, is read as itself, and a space
/// behind it is taken with it.
pub proof fn lemma_tok_quoted(t: Seq<char>, next: Seq<char>)
    requires
        next.len() > 0,
    ensures
        spec_tok(quoted(t) + next) == (Scan::Token {
            text: t,
            used: quoted(t).len() + if next[0] == ' ' {
                1int
            } else {
                0int
            },
        }),
{
    assert((quoted(t) + next).skip(1) =~= escaped(t) + seq!['"'] + next);
    lemma_quoted_concat(t, next);
}

/// An integer is written as a plain token that is not the placeholder.
pub proof fn lemma_decimal_plain(n: int)
    ensures
        is_plain_token(decimal(n)),
        !is_placeholder(decimal(n)),
{
    let t = decimal(n);
    if n < 0 {
        lemma_decimal_digits((-n) as nat);
    } else {
        lemma_decimal_digits(n as nat);
    }
    assert forall|i: int| 0 <= i < t.len() implies !is_delimiter(#[trigger] t[i]) by {}
}

/// A field of a writable record, written with a space or a newline behind
/// it, is read as a token that its role accepts and that stands for the
/// value that was written.
proof fn lemma_tok_rendered(e: LogEntryView, role: LogField, next: Seq<char>, acc: LogEntryView)
    requires
        is_writable(e),
        next.len() > 0,
        is_delimiter(next[0]),
    ensures
        spec_tok(rendered(e, role) + next) is Token,
        spec_tok(rendered(e, role) + next).used() == rendered(e, role).len() + if next[0] == ' ' {
            1int
        } else {
            0int
        },
        spec_assign(acc, role, spec_tok(rendered(e, role) + next)->text) == Ok::<
            LogEntryView,
            ErrorKind,
        >(with_field(acc, e, role)),
{
    let dash = seq!['-'];
    match role {
        LogField::Unused => {
            lemma_tok_plain(dash, next);
        },
        LogField::Source => {
            lemma_tok_plain(e.source, next);
        },
        LogField::Date => {
            lemma_tok_bracketed(e.date, next);
        },
        LogField::Request => {
            lemma_tok_quoted(e.request, next);
        },
        LogField::Status => {
            lemma_decimal_plain(e.status);
            lemma_tok_plain(decimal(e.status), next);
            lemma_parse_decimal(e.status as i64);
        },
        LogField::Size => {
            match e.size {
                Some(n) => {
                    lemma_decimal_plain(n);
                    lemma_tok_plain(decimal(n), next);
                    lemma_parse_decimal(n as i64);
                },
                None => {
                    lemma_tok_plain(dash, next);
                },
            }
        },
        LogField::Referer => {
            match e.referer {
                Some(t) => {
                    lemma_tok_quoted(t, next);
                },
                None => {
                    lemma_tok_quoted(dash, next);
                },
            }
        },
        LogField::UserAgent => {
            match e.user_agent {
                Some(t) => {
                    lemma_tok_quoted(t, next);
                },
                None => {
                    lemma_tok_quoted(dash, next);
                },
            }
        },
    }
}

/// The text of a written line from its field number `i` on, without the
/// space in front of that field.
spec fn fields_from(e: LogEntryView, fmt: Seq<LogField>, i: int) -> Seq<char> {
    if 0 <= i < fmt.len() {
        rendered(e, fmt[i]) + line_from(e, fmt, i + 1)
    } else {
        seq!['\n']
    }
}

/// Behind each field of a written line stands a space and the next field,
/// or the newline that ends the line.
proof fn lemma_line_from(e: LogEntryView, fmt: Seq<LogField>, i: int)
    requires
        1 <= i <= fmt.len(),
    ensures
        line_from(e, fmt, i).len() > 0,
        is_delimiter(line_from(e, fmt, i)[0]),
        i < fmt.len() ==> line_from(e, fmt, i)[0] == ' ' && line_from(e, fmt, i).skip(1)
            == fields_from(e, fmt, i),
        i == fmt.len() ==> line_from(e, fmt, i) == seq!['\n'],
{
}

/// Where the text `full` holds, from the start of its field number `i` on,
/// the fields of a writable record `e` as they are written, the field with
/// the number `i` is read as the value that `e` has for its role, and the
/// next field, or the newline of the line, begins right behind it.
proof fn lemma_field_reads_back(
    e: LogEntryView,
    fmt: Seq<LogField>,
    i: int,
    acc: LogEntryView,
    full: Seq<char>,
    rest: Seq<char>,
)
    requires
        is_writable(e),
        0 <= i < fmt.len(),
        0 <= field_start(full, i) <= full.len(),
        full.skip(field_start(full, i)) == fields_from(e, fmt, i) + rest,
    ensures
        field_scan(full, i) is Token,
        spec_assign(acc, fmt[i], field_scan(full, i)->text) == Ok::<LogEntryView, ErrorKind>(
            with_field(acc, e, fmt[i]),
        ),
        field_start(full, i) <= field_start(full, i + 1) <= full.len(),
        full.skip(field_start(full, i + 1)) == fields_from(e, fmt, i + 1) + rest,
        field_start(full, i + 1) + fields_from(e, fmt, i + 1).len() == field_start(full, i)
            + fields_from(e, fmt, i).len(),
{
    let at = field_start(full, i);
    let here = full.skip(at);
    let next = line_from(e, fmt, i + 1) + rest;
    assert(here =~= rendered(e, fmt[i]) + next);
    lemma_tok_rendered(e, fmt[i], next, acc);
    let used = spec_tok(here).used();
    assert(full.skip(at + used) =~= here.skip(used));
}

/// Where the text `full` holds, from the start of its field number `i` on,
/// the fields of a writable record `e` as they are written, these fields are
/// read back as the values of `e`, and the newline of the line stands behind
/// the last of them.
proof fn lemma_fields_read_back(
    e: LogEntryView,
    fmt: Seq<LogField>,
    i: int,
    acc: LogEntryView,
    full: Seq<char>,
    rest: Seq<char>,
)
    requires
        is_writable(e),
        0 <= i <= fmt.len(),
        0 <= field_start(full, i) <= full.len(),
        full.skip(field_start(full, i)) == fields_from(e, fmt, i) + rest,
    ensures
        spec_fields(full, fmt, i, acc) == Ok::<LogEntryView, ParseErrorView>(
            filled(acc, e, fmt, i),
        ),
        0 <= field_start(full, fmt.len() as int) < full.len(),
        full[field_start(full, fmt.len() as int)] == '\n',
        field_start(full, fmt.len() as int) + 1 == field_start(full, i) + fields_from(e, fmt, i).len(),
    decreases fmt.len() - i,
{
    if i < fmt.len() {
        lemma_field_reads_back(e, fmt, i, acc, full, rest);
        lemma_fields_read_back(e, fmt, i + 1, with_field(acc, e, fmt[i]), full, rest);
    }
}

/// A writable record, written as a line, is read back as the record that
/// holds its values for the roles of the format, whatever follows the line;
/// and reading takes exactly the line.
pub proof fn lemma_written_line_reads_back(e: LogEntryView, fmt: Seq<LogField>, rest: Seq<char>)
    requires
        is_writable(e),
    ensures
        spec_entry(spec_line(e, fmt) + rest, fmt) == Ok::<(LogEntryView, int), ParseErrorView>(
            (filled(blank_entry(), e, fmt, 0), spec_line(e, fmt).len() as int),
        ),
{
    let full = spec_line(e, fmt) + rest;
    assert(full.skip(0) =~= full);
    lemma_fields_read_back(e, fmt, 0, blank_entry(), full, rest);
}

/// A writable record, written as a line of the combined log format, is read
/// back as the same record, whatever follows the line.
pub proof fn lemma_written_combined_line_reads_back(e: LogEntryView, rest: Seq<char>)
    requires
        is_writable(e),
    ensures
        spec_entry(spec_line(e, combined_format()) + rest, combined_format()) == Ok::<
            (LogEntryView, int),
            ParseErrorView,
        >((e, spec_line(e, combined_format()).len() as int)),
{
    lemma_written_line_reads_back(e, combined_format(), rest);
    reveal_with_fuel(filled, 10);
}

/// The record read from a line of the combined log format is writable: the
/// line that it is written as gives the same record again.
pub proof fn lemma_combined_entry_writable(s: Seq<char>)
    requires
        is_combined_line(s),
    ensures
        is_writable(spec_entry(s, combined_format())->Ok_0.0),
{
    let e = spec_entry(s, combined_format())->Ok_0.0;
    lemma_combined_entry(s);
    // The source was read as a plain token, up to the first space or newline.
    lemma_plain_len(s.skip(field_start(s, 0)));
    assert forall|i: int| 0 <= i < e.source.len() implies !is_delimiter(#[trigger] e.source[i]) by {}
    // The date was read as a bracketed token, up to the first closing bracket.
    lemma_field_start(s, 3);
    lemma_braced_len(s.skip(field_start(s, 3)).skip(1));
    assert forall|i: int| 0 <= i < e.date.len() implies #[trigger] e.date[i] != ']' by {}
}

} // verus!
