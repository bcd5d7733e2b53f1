//! The failures that reading and parsing can end in.

use crate::format::{role_name, LogField};
use crate::number::{decimal_digits, push_uint};
use vstd::prelude::*;
use vstd::string::StringExecFns;

verus! {

/// The reason a parse was abandoned.
#[derive(Clone, Copy, Debug, PartialEq, Eq)]
pub enum ErrorKind {
    /// The input ended where the grammar needs another character.
    UnexpectedEof,
    /// A space or a newline stood where a token has to begin.
    BadSyntax,
    /// The status token is not an integer.
    BadStatus,
    /// The size token is neither an integer nor the placeholder.
    BadSize,
    /// Something other than a newline followed the last field.
    MissingNewline,
    /// A character was pushed back while no pushback was allowed.
    CannotUnread,
}

/// A failure, with where and on what it happened.
#[derive(Clone, Debug, PartialEq, Eq)]
pub struct ParseError {
    /// What went wrong.
    pub kind: ErrorKind,
    /// The field that was being read, if the failure happened inside a record's field.
    pub role: Option<LogField>,
    /// How many characters the reader had given out when the failure was found.
    pub offset: usize,
    /// The token that was refused, for a bad status or a bad size.
    pub token: Option<String>,
}

/// The mathematical content of a [`ParseError`].
pub struct ParseErrorView {
    pub kind: ErrorKind,
    pub role: Option<LogField>,
    pub offset: int,
    pub token: Option<Seq<char>>,
}

impl View for ParseError {
    type V = ParseErrorView;

    open spec fn view(&self) -> ParseErrorView {
        ParseErrorView {
            kind: self.kind,
            role: self.role,
            offset: self.offset as int,
            token: match self.token {
                Some(t) => Some(t@),
                None => None,
            },
        }
    }
}

impl ParseErrorView {
    /// This failure with its offset counted from `by` characters further back.
    pub open spec fn shifted(self, by: int) -> ParseErrorView {
        ParseErrorView { offset: self.offset + by, ..self }
    }
}

/// A failure of the given kind at the given offset that belongs to no field
/// and carries no token.
pub open spec fn failure(kind: ErrorKind, offset: int) -> ParseErrorView {
    ParseErrorView { kind, role: None, offset, token: None }
}

/// What a kind of failure is called in a message.
pub open spec fn kind_name(kind: ErrorKind) -> Seq<char> {
    match kind {
        ErrorKind::UnexpectedEof => "eof"@,
        ErrorKind::BadSyntax => "bad syntax"@,
        ErrorKind::BadStatus => "bad status"@,
        ErrorKind::BadSize => "bad size"@,
        ErrorKind::MissingNewline => "missing newline"@,
        ErrorKind::CannotUnread => "cannot unread further"@,
    }
}

/// The message for a failure: what went wrong, the token that was refused
/// if there is one, the offset, and the field if there is one.
pub open spec fn spec_message(e: ParseErrorView) -> Seq<char> {
    let what = match e.token {
        Some(t) => kind_name(e.kind) + ": "@ + t,
        None => kind_name(e.kind),
    };
    let place = what + " at offset "@ + decimal_digits(e.offset as nat);
    match e.role {
        Some(role) => place + " ("@ + role_name(role) + ")"@,
        None => place,
    }
}

impl ErrorKind {
    /// What this kind of failure is called in a message.
    pub fn name(&self) -> (text: &'static str)
        ensures
            text@ == kind_name(*self),
    {
        match self {
            ErrorKind::UnexpectedEof => "eof",
            ErrorKind::BadSyntax => "bad syntax",
            ErrorKind::BadStatus => "bad status",
            ErrorKind::BadSize => "bad size",
            ErrorKind::MissingNewline => "missing newline",
            ErrorKind::CannotUnread => "cannot unread further",
        }
    }
}

impl ParseError {
    /// The message for this failure: what went wrong, the token that was
    /// refused if there is one, the offset, and the field if there is one.
    pub fn describe(&self) -> (text: String)
        ensures
            text@ == spec_message(self@),
    {
        let mut out = String::new();
        out.append(self.kind.name());
        match &self.token {
            Some(t) => {
                out.append(": ");
                out.append(t.as_str());
            },
            None => {},
        }
        out.append(" at offset ");
        push_uint(&mut out, self.offset as u64);
        match self.role {
            Some(role) => {
                out.append(" (");
                out.append(role.name());
                out.append(")");
            },
            None => {},
        }
        out
    }

    /// A failure of the given kind at the given offset that belongs to no
    /// field and carries no token.
    pub fn at(kind: ErrorKind, offset: usize) -> (e: ParseError)
        ensures
            e@ == failure(kind, offset as int),
    {
        ParseError { kind, role: None, offset, token: None }
    }
}

} // verus!
