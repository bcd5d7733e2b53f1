//! Lines and files: assembling records from the tokens of each line.

use crate::entry::{blank_entry, spec_assign, LogEntry, LogEntryView};
use crate::error::{failure, ErrorKind, ParseError, ParseErrorView};
use crate::format::{combined_format, combined_log_format, LogField};
use crate::reader::{chars_of, BufReader};
use crate::stream::ByteStream;
use crate::token::{lemma_body_used, read_tok, spec_tok, Scan};
use vstd::prelude::*;

verus! {

/// Where the field with the number `i` begins in the line `s`, counting
/// fields and characters from 0: behind the field before it and its
/// separator.
pub open spec fn field_start(s: Seq<char>, i: int) -> int
    decreases i,
{
    if i <= 0 {
        0
    } else {
        let at = field_start(s, i - 1);
        at + spec_tok(s.skip(at)).used()
    }
}

/// What reading the field with the number `i` of the line `s` comes to.
pub open spec fn field_scan(s: Seq<char>, i: int) -> Scan {
    spec_tok(s.skip(field_start(s, i)))
}

/// The record that the line `s` gives when the fields from number `i` on are
/// read into `e` with the roles that `fmt` lists, or the first failure. A
/// failure names the field and the place in `s` where reading stopped.
pub open spec fn spec_fields(s: Seq<char>, fmt: Seq<LogField>, i: int, e: LogEntryView) -> Result<
    LogEntryView,
    ParseErrorView,
>
    decreases fmt.len() - i,
{
    if i < 0 || i >= fmt.len() {
        Ok(e)
    } else {
        let at = field_start(s, i);
        match field_scan(s, i) {
            Scan::Fail { kind, used } => Err(
                ParseErrorView { kind, role: Some(fmt[i]), offset: at + used, token: None },
            ),
            Scan::Token { text, used } => match spec_assign(e, fmt[i], text) {
                Err(kind) => Err(
                    ParseErrorView {
                        kind,
                        role: Some(fmt[i]),
                        offset: at + used,
                        token: Some(text),
                    },
                ),
                Ok(next) => spec_fields(s, fmt, i + 1, next),
            },
        }
    }
}

/// The record that stands at the front of `s` and the number of characters
/// that it takes up, or the failure that reading it ends in. The record has
/// one field for each role in `fmt`, in that order, and a newline behind the
/// last.
pub open spec fn spec_entry(s: Seq<char>, fmt: Seq<LogField>) -> Result<
    (LogEntryView, int),
    ParseErrorView,
> {
    match spec_fields(s, fmt, 0, blank_entry()) {
        Err(err) => Err(err),
        Ok(e) => {
            let end = field_start(s, fmt.len() as int);
            if end >= s.len() {
                Err(failure(ErrorKind::UnexpectedEof, end))
            } else if s[end] != '\n' {
                Err(failure(ErrorKind::MissingNewline, end + 1))
            } else {
                Ok((e, end + 1))
            }
        },
    }
}

/// The records that `s` holds, line after line up to its end, or the first
/// failure, with its place counted from the front of `s`.
pub open spec fn spec_records(s: Seq<char>, fmt: Seq<LogField>) -> Result<
    Seq<LogEntryView>,
    ParseErrorView,
>
    decreases s.len(),
    via spec_records_decreases
{
    if s.len() == 0 {
        Ok(Seq::empty())
    } else {
        match spec_entry(s, fmt) {
            Err(err) => Err(err),
            Ok((e, used)) => match spec_records(s.skip(used), fmt) {
                Err(err) => Err(err.shifted(used)),
                Ok(rest) => Ok(seq![e] + rest),
            },
        }
    }
}

#[via_fn]
proof fn spec_records_decreases(s: Seq<char>, fmt: Seq<LogField>) {
    lemma_entry_used(s, fmt);
}

/// Every field begins inside the line or at its end, and no field begins
/// before the one in front of it.
pub proof fn lemma_field_start(s: Seq<char>, i: int)
    ensures
        0 <= field_start(s, i) <= s.len(),
        i > 0 ==> field_start(s, i - 1) <= field_start(s, i),
    decreases i,
{
    if i > 0 {
        lemma_field_start(s, i - 1);
        lemma_body_used(s.skip(field_start(s, i - 1)));
    }
}

/// A record takes up at least its newline and no more than there is.
pub proof fn lemma_entry_used(s: Seq<char>, fmt: Seq<LogField>)
    ensures
        spec_entry(s, fmt) matches Ok((_, used)) ==> 0 < used <= s.len(),
        spec_entry(s, fmt) matches Err(err) ==> 0 <= err.offset <= s.len(),
{
    lemma_field_start(s, fmt.len() as int);
    lemma_fields_offset(s, fmt, 0, blank_entry());
}

/// A failure inside a field lies inside the line or at its end.
proof fn lemma_fields_offset(s: Seq<char>, fmt: Seq<LogField>, i: int, e: LogEntryView)
    ensures
        spec_fields(s, fmt, i, e) matches Err(err) ==> 0 <= err.offset <= s.len(),
    decreases fmt.len() - i,
{
    if 0 <= i < fmt.len() {
        lemma_field_start(s, i + 1);
        match field_scan(s, i) {
            Scan::Fail { .. } => {},
            Scan::Token { text, .. } => match spec_assign(e, fmt[i], text) {
                Err(_) => {},
                Ok(next) => {
                    lemma_fields_offset(s, fmt, i + 1, next);
                },
            },
        }
    }
}

/// Reads one record: a field for each role in `fmt`, in that order, then a
/// newline. The first failure ends the reading; it tells the field, the
/// place and, where a token was refused, the token.
pub fn parse_entry(r: &mut BufReader, fmt: &[LogField]) -> (res: Result<LogEntry, ParseError>)
    requires
        old(r).wf(),
    ensures
        match spec_entry(old(r)@, fmt@) {
            Ok((e, used)) => {
                &&& res matches Ok(x)
                &&& x@ == e
                &&& final(r).follows(old(r), used)
                &&& final(r).can_unread()
            },
            Err(err) => {
                &&& res matches Err(x)
                &&& x@ == err.shifted(old(r).position())
                &&& final(r).follows(old(r), err.offset)
            },
        },
{
    let mut e = LogEntry::new();
    let mut i: usize = 0;
    let ghost s0 = r@;
    assert(s0.skip(0) =~= s0);
    while i < fmt.len()
        invariant
            i <= fmt.len(),
            s0 == old(r)@,
            r.follows(old(r), field_start(s0, i as int)),
            spec_fields(s0, fmt@, 0, blank_entry()) == spec_fields(s0, fmt@, i as int, e@),
        decreases fmt.len() - i,
    {
        let role = fmt[i];
        let ghost at = field_start(s0, i as int);
        let tok = match read_tok(r) {
            Ok(tok) => tok,
            Err(err) => {
                assert(r@ =~= s0.skip(at + field_scan(s0, i as int).used()));
                return Err(
                    ParseError { kind: err.kind, role: Some(role), offset: err.offset, token: None },
                );
            },
        };
        assert(r@ =~= s0.skip(field_start(s0, i + 1)));
        match e.assign(role, tok, r.consumed()) {
            Ok(()) => {},
            Err(err) => {
                return Err(err);
            },
        }
        i += 1;
    }
    let ghost end = field_start(s0, fmt@.len() as int);
    let c = match r.must_read_char() {
        Ok(c) => c,
        Err(err) => {
            assert(r@ =~= s0.skip(end));
            return Err(err);
        },
    };
    assert(r@ =~= s0.skip(end + 1));
    if c != '\n' {
        return Err(ParseError::at(ErrorKind::MissingNewline, r.consumed()));
    }
    Ok(e)
}

/// The contents of a run of records.
pub open spec fn entry_views(entries: Seq<LogEntry>) -> Seq<LogEntryView> {
    Seq::new(entries.len(), |i: int| entries[i]@)
}

/// Reads every line of `r` as a record in the combined log format and
/// returns how many there are. Input without any line holds no record. The
/// first line that cannot be read ends the parse with its failure.
pub fn parse(r: ByteStream) -> (res: Result<usize, ParseError>)
    requires
        r.wf(),
    ensures
        match spec_records(chars_of(r.remaining()), combined_format()) {
            Ok(entries) => res matches Ok(n) && n == entries.len(),
            Err(err) => res matches Err(x) && x@ == err,
        },
{
    let fmt = combined_log_format();
    let mut ur = BufReader::new(r);
    let mut count: usize = 0;
    let ghost start = ur;
    let ghost s0 = ur@;
    assert(s0.skip(0) =~= s0);
    loop
        invariant
            fmt@ == combined_format(),
            s0 == start@,
            s0 == chars_of(r.remaining()),
            start.position() == 0,
            ur.follows(&start, ur.position()),
            count <= ur.position(),
            match spec_records(ur@, fmt@) {
                Ok(rest) => spec_records(s0, fmt@) matches Ok(all) && all.len() == count
                    + rest.len(),
                Err(err) => spec_records(s0, fmt@) == Err::<Seq<LogEntryView>, ParseErrorView>(
                    err.shifted(ur.position()),
                ),
            },
        ensures
            ur@.len() == 0,
            spec_records(s0, fmt@) matches Ok(all) && all.len() == count,
        decreases ur@.len(),
    {
        let ghost pre = ur@;
        let at_end = ur.prod();
        assert(ur@ =~= pre);
        if at_end {
            break;
        }
        let ghost cur = ur@;
        let ghost at = ur.position();
        proof {
            lemma_entry_used(cur, fmt@);
            ur.lemma_view_len();
        }
        match parse_entry(&mut ur, fmt.as_slice()) {
            Ok(_) => {},
            Err(err) => {
                return Err(err);
            },
        }
        proof {
            let used = spec_entry(cur, fmt@)->Ok_0.1;
            assert(ur@ =~= s0.skip(at + used));
        }
        count += 1;
    }
    Ok(count)
}

/// Reads every line of `r` as a record in the combined log format and
/// returns the records in the order of the lines. The first line that
/// cannot be read ends the parse with its failure.
pub fn parse_entries(r: ByteStream) -> (res: Result<Vec<LogEntry>, ParseError>)
    requires
        r.wf(),
    ensures
        match spec_records(chars_of(r.remaining()), combined_format()) {
            Ok(entries) => res matches Ok(v) && entry_views(v@) == entries,
            Err(err) => res matches Err(x) && x@ == err,
        },
{
    let fmt = combined_log_format();
    let mut ur = BufReader::new(r);
    let mut entries: Vec<LogEntry> = Vec::new();
    let ghost start = ur;
    let ghost s0 = ur@;
    assert(s0.skip(0) =~= s0);
    loop
        invariant
            fmt@ == combined_format(),
            s0 == start@,
            s0 == chars_of(r.remaining()),
            start.position() == 0,
            ur.follows(&start, ur.position()),
            match spec_records(ur@, fmt@) {
                Ok(rest) => spec_records(s0, fmt@) matches Ok(all) && all == entry_views(entries@)
                    + rest,
                Err(err) => spec_records(s0, fmt@) == Err::<Seq<LogEntryView>, ParseErrorView>(
                    err.shifted(ur.position()),
                ),
            },
        ensures
            ur@.len() == 0,
            spec_records(s0, fmt@) matches Ok(all) && all == entry_views(entries@),
        decreases ur@.len(),
    {
        let ghost pre = ur@;
        let at_end = ur.prod();
        assert(ur@ =~= pre);
        if at_end {
            break;
        }
        let ghost cur = ur@;
        let ghost at = ur.position();
        proof {
            lemma_entry_used(cur, fmt@);
        }
        let e = match parse_entry(&mut ur, fmt.as_slice()) {
            Ok(e) => e,
            Err(err) => {
                return Err(err);
            },
        };
        entries.push(e);
        proof {
            let used = spec_entry(cur, fmt@)->Ok_0.1;
            assert(ur@ =~= s0.skip(at + used));
        }
    }
    Ok(entries)
}

} // verus!
