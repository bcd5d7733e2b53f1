//! Writing a record back as a line of text.

use crate::entry::{LogEntry, LogEntryView};
use crate::format::LogField;
use crate::number::{decimal, push_int};
use vstd::prelude::*;
use vstd::std_specs::iter::IteratorSpec;
use vstd::string::StringExecFns;

verus! {

broadcast use vstd::string::group_string_axioms;

/// The text `t` with a backslash in front of each quote and each backslash.
pub open spec fn escaped(t: Seq<char>) -> Seq<char>
    decreases t.len(),
{
    if t.len() == 0 {
        Seq::empty()
    } else if t[0] == '"' || t[0] == '\\' {
        seq!['\\', t[0]] + escaped(t.skip(1))
    } else {
        seq![t[0]] + escaped(t.skip(1))
    }
}

/// The text `t` as a quoted token: escaped, between two quotes.
pub open spec fn quoted(t: Seq<char>) -> Seq<char> {
    seq!['"'] + escaped(t) + seq!['"']
}

/// The text `t` as a bracketed token.
pub open spec fn bracketed(t: Seq<char>) -> Seq<char> {
    seq!['['] + t + seq![']']
}

/// A text that may be absent as a quoted token; the placeholder stands for
/// an absent one.
pub open spec fn quoted_or_placeholder(t: Option<Seq<char>>) -> Seq<char> {
    match t {
        Some(text) => quoted(text),
        None => quoted(seq!['-']),
    }
}

/// How the field with the role `role` of the record `e` is written. An
/// unused field is written as the placeholder, the source as it is, the date
/// in brackets, the request in quotes, the status and the size in decimal,
/// an absent size as the placeholder, the referer and the user agent in
/// quotes.
pub open spec fn rendered(e: LogEntryView, role: LogField) -> Seq<char> {
    match role {
        LogField::Unused => seq!['-'],
        LogField::Source => e.source,
        LogField::Date => bracketed(e.date),
        LogField::Request => quoted(e.request),
        LogField::Status => decimal(e.status),
        LogField::Size => match e.size {
            Some(n) => decimal(n),
            None => seq!['-'],
        },
        LogField::Referer => quoted_or_placeholder(e.referer),
        LogField::UserAgent => quoted_or_placeholder(e.user_agent),
    }
}

/// The end of the line that `e` is written as, from the field with the
/// number `i` on: each field but the first of the line has a space in front
/// of it, and a newline ends the line.
pub open spec fn line_from(e: LogEntryView, fmt: Seq<LogField>, i: int) -> Seq<char>
    decreases fmt.len() - i,
{
    if i < 0 || i >= fmt.len() {
        seq!['\n']
    } else if i == 0 {
        rendered(e, fmt[i]) + line_from(e, fmt, i + 1)
    } else {
        seq![' '] + rendered(e, fmt[i]) + line_from(e, fmt, i + 1)
    }
}

/// The line that the record `e` is written as: its fields in the order of
/// `fmt`, one space between two of them, and a newline at the end.
pub open spec fn spec_line(e: LogEntryView, fmt: Seq<LogField>) -> Seq<char> {
    line_from(e, fmt, 0)
}

/// Appends `text` to `out` with a backslash in front of each quote and each
/// backslash.
pub fn push_escaped(out: &mut String, text: &str)
    ensures
        final(out)@ == old(out)@ + escaped(text@),
{
    let ghost t = text@;
    let ghost mut i: int = 0;
    let mut it = text.chars();
    loop
        invariant
            t == text@,
            0 <= i <= t.len(),
            it.remaining() == t.skip(i),
            it.obeys_prophetic_iter_laws(),
            old(out)@ + escaped(t) == out@ + escaped(t.skip(i)),
        ensures
            final(out)@ == old(out)@ + escaped(t),
        decreases t.len() - i,
    {
        match it.next() {
            None => {
                break;
            },
            Some(c) => {
                if c == '"' || c == '\\' {
                    out.push('\\');
                    out.push(c);
                } else {
                    out.push(c);
                }
                proof {
                    i = i + 1;
                }
            },
        }
    }
}

/// Appends `text` to `out` as a quoted token.
pub fn push_quoted(out: &mut String, text: &str)
    ensures
        final(out)@ == old(out)@ + quoted(text@),
{
    out.push('"');
    push_escaped(out, text);
    out.push('"');
}

/// Appends to `out` the field with the role `role` of the record `e`.
pub fn push_field(out: &mut String, e: &LogEntry, role: LogField)
    ensures
        final(out)@ == old(out)@ + rendered(e@, role),
{
    match role {
        LogField::Unused => {
            out.push('-');
        },
        LogField::Source => {
            out.append(e.source.as_str());
        },
        LogField::Date => {
            out.push('[');
            out.append(e.date.as_str());
            out.push(']');
        },
        LogField::Request => {
            push_quoted(out, e.request.as_str());
        },
        LogField::Status => {
            push_int(out, e.status);
        },
        LogField::Size => {
            match e.size {
                Some(n) => {
                    push_int(out, n);
                },
                None => {
                    out.push('-');
                },
            }
        },
        LogField::Referer => {
            match &e.referer {
                Some(text) => {
                    push_quoted(out, text.as_str());
                },
                None => {
                    push_quoted(out, "-");
                    proof {
                        reveal_strlit("-");
                        assert("-"@ =~= seq!['-']);
                    }
                },
            }
        },
        LogField::UserAgent => {
            match &e.user_agent {
                Some(text) => {
                    push_quoted(out, text.as_str());
                },
                None => {
                    push_quoted(out, "-");
                    proof {
                        reveal_strlit("-");
                        assert("-"@ =~= seq!['-']);
                    }
                },
            }
        },
    }
}

/// Writes the record `e` as one line of text: its fields in the order of
/// `fmt`, one space between two of them, and a newline at the end.
pub fn serialize(e: &LogEntry, fmt: &[LogField]) -> (line: String)
    ensures
        line@ == spec_line(e@, fmt@),
{
    let mut out = String::new();
    let mut i: usize = 0;
    while i < fmt.len()
        invariant
            i <= fmt.len(),
            spec_line(e@, fmt@) == out@ + line_from(e@, fmt@, i as int),
        decreases fmt.len() - i,
    {
        if i > 0 {
            out.push(' ');
        }
        push_field(&mut out, e, fmt[i]);
        i += 1;
    }
    out.push('\n');
    out
}

} // verus!
