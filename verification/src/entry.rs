//! The record that one log line is assembled into.

use crate::error::{ErrorKind, ParseError, ParseErrorView};
use crate::format::LogField;
use crate::number::{parse_int, spec_parse_int};
use crate::token::{is_dash, is_placeholder, tok_to_option};
use vstd::prelude::*;

verus! {

/// One line of an access log.
#[derive(Clone, Debug, PartialEq, Eq)]
pub struct LogEntry {
    /// Who made the request.
    pub source: String,
    /// The timestamp as it stood between the brackets.
    pub date: String,
    /// The request line.
    pub request: String,
    /// The status code of the response.
    pub status: i64,
    /// The size of the response, if the line gives one.
    pub size: Option<i64>,
    /// The referring page, if the line gives one.
    pub referer: Option<String>,
    /// The client software, if the line gives it.
    pub user_agent: Option<String>,
}

/// The mathematical content of a [`LogEntry`].
pub struct LogEntryView {
    pub source: Seq<char>,
    pub date: Seq<char>,
    pub request: Seq<char>,
    pub status: int,
    pub size: Option<int>,
    pub referer: Option<Seq<char>>,
    pub user_agent: Option<Seq<char>>,
}

/// The content of a token that may be absent.
pub open spec fn text_of(t: Option<String>) -> Option<Seq<char>> {
    match t {
        Some(s) => Some(s@),
        None => None,
    }
}

/// The content of a number that may be absent.
pub open spec fn number_of(n: Option<i64>) -> Option<int> {
    match n {
        Some(v) => Some(v as int),
        None => None,
    }
}

impl View for LogEntry {
    type V = LogEntryView;

    open spec fn view(&self) -> LogEntryView {
        LogEntryView {
            source: self.source@,
            date: self.date@,
            request: self.request@,
            status: self.status as int,
            size: number_of(self.size),
            referer: text_of(self.referer),
            user_agent: text_of(self.user_agent),
        }
    }
}

/// The record before any field has been read: the texts empty, the status
/// -1, and the size, the referer and the user agent absent.
pub open spec fn blank_entry() -> LogEntryView {
    LogEntryView {
        source: Seq::empty(),
        date: Seq::empty(),
        request: Seq::empty(),
        status: -1,
        size: None,
        referer: None,
        user_agent: None,
    }
}

/// The value that a token stands for where a value may be absent: none for
/// the placeholder `-`, else the token.
pub open spec fn optional_text(tok: Seq<char>) -> Option<Seq<char>> {
    if is_placeholder(tok) {
        None
    } else {
        Some(tok)
    }
}

/// The record `e` after the token `tok` has been read for the field `role`,
/// or the reason why `tok` is refused there. An unused field changes nothing.
/// The status must be an integer. The size must be an integer or the
/// placeholder `-`, which stands for no size. The referer and the user agent
/// are absent where the token is the placeholder.
pub open spec fn spec_assign(e: LogEntryView, role: LogField, tok: Seq<char>) -> Result<
    LogEntryView,
    ErrorKind,
> {
    match role {
        LogField::Unused => Ok(e),
        LogField::Source => Ok(LogEntryView { source: tok, ..e }),
        LogField::Date => Ok(LogEntryView { date: tok, ..e }),
        LogField::Request => Ok(LogEntryView { request: tok, ..e }),
        LogField::Status => match spec_parse_int(tok) {
            Some(n) => Ok(LogEntryView { status: n as int, ..e }),
            None => Err(ErrorKind::BadStatus),
        },
        LogField::Size => if is_placeholder(tok) {
            Ok(LogEntryView { size: None, ..e })
        } else {
            match spec_parse_int(tok) {
                Some(n) => Ok(LogEntryView { size: Some(n as int), ..e }),
                None => Err(ErrorKind::BadSize),
            }
        },
        LogField::Referer => Ok(LogEntryView { referer: optional_text(tok), ..e }),
        LogField::UserAgent => Ok(LogEntryView { user_agent: optional_text(tok), ..e }),
    }
}

impl LogEntry {
    /// The record before any field has been read.
    pub fn new() -> (e: LogEntry)
        ensures
            e@ == blank_entry(),
    {
        LogEntry {
            source: String::new(),
            date: String::new(),
            request: String::new(),
            status: -1,
            size: None,
            referer: None,
            user_agent: None,
        }
    }

    /// Stores the token `tok`, read for the field `role`, in the record. A
    /// token that the field refuses leaves the record as it was and comes
    /// back in the failure, with `offset` as the place.
    pub fn assign(&mut self, role: LogField, tok: String, offset: usize) -> (res: Result<
        (),
        ParseError,
    >)
        ensures
            match spec_assign(old(self)@, role, tok@) {
                Ok(e) => res is Ok && final(self)@ == e,
                Err(kind) => {
                    &&& res matches Err(x)
                    &&& x@ == (ParseErrorView {
                        kind,
                        role: Some(role),
                        offset: offset as int,
                        token: Some(tok@),
                    })
                    &&& final(self)@ == old(self)@
                },
            },
    {
        match role {
            LogField::Unused => {},
            LogField::Source => {
                self.source = tok;
            },
            LogField::Date => {
                self.date = tok;
            },
            LogField::Request => {
                self.request = tok;
            },
            LogField::Status => {
                match parse_int(tok.as_str()) {
                    Some(n) => {
                        self.status = n;
                    },
                    None => {
                        return Err(
                            ParseError {
                                kind: ErrorKind::BadStatus,
                                role: Some(role),
                                offset,
                                token: Some(tok),
                            },
                        );
                    },
                }
            },
            LogField::Size => {
                if is_dash(tok.as_str()) {
                    self.size = None;
                } else {
                    match parse_int(tok.as_str()) {
                        Some(n) => {
                            self.size = Some(n);
                        },
                        None => {
                            return Err(
                                ParseError {
                                    kind: ErrorKind::BadSize,
                                    role: Some(role),
                                    offset,
                                    token: Some(tok),
                                },
                            );
                        },
                    }
                }
            },
            LogField::Referer => {
                self.referer = tok_to_option(tok);
            },
            LogField::UserAgent => {
                self.user_agent = tok_to_option(tok);
            },
        }
        Ok(())
    }
}

} // verus!
