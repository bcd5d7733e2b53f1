//! The roles that the fields of a log line play, and the order they come in.

use vstd::prelude::*;

verus! {

/// What a field of a log line means to the record that is assembled from it.
#[derive(Clone, Copy, Debug, PartialEq, Eq)]
pub enum LogField {
    /// A column that is read and thrown away.
    Unused,
    /// Who made the request.
    Source,
    /// When the request was made.
    Date,
    /// The request line.
    Request,
    /// The status code of the response.
    Status,
    /// The size of the response.
    Size,
    /// The page that referred to this one.
    Referer,
    /// The client software.
    UserAgent,
}

/// The name of a role, as failures give it.
pub open spec fn role_name(role: LogField) -> Seq<char> {
    match role {
        LogField::Unused => "unused"@,
        LogField::Source => "source"@,
        LogField::Date => "date"@,
        LogField::Request => "request"@,
        LogField::Status => "status"@,
        LogField::Size => "size"@,
        LogField::Referer => "referer"@,
        LogField::UserAgent => "user agent"@,
    }
}

impl LogField {
    /// The name of the role, as failures give it.
    pub fn name(&self) -> (text: &'static str)
        ensures
            text@ == role_name(*self),
    {
        match self {
            LogField::Unused => "unused",
            LogField::Source => "source",
            LogField::Date => "date",
            LogField::Request => "request",
            LogField::Status => "status",
            LogField::Size => "size",
            LogField::Referer => "referer",
            LogField::UserAgent => "user agent",
        }
    }
}

/// The nine roles of the combined log format, in the order of the columns.
pub open spec fn combined_format() -> Seq<LogField> {
    seq![
        LogField::Source,
        LogField::Unused,
        LogField::Unused,
        LogField::Date,
        LogField::Request,
        LogField::Status,
        LogField::Size,
        LogField::Referer,
        LogField::UserAgent,
    ]
}

/// The combined log format as a table to hand to the parser.
pub fn combined_log_format() -> (fmt: [LogField; 9])
    ensures
        fmt@ == combined_format(),
{
    let fmt = [
        LogField::Source,
        LogField::Unused,
        LogField::Unused,
        LogField::Date,
        LogField::Request,
        LogField::Status,
        LogField::Size,
        LogField::Referer,
        LogField::UserAgent,
    ];
    fmt
}

} // verus!
