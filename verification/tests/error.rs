use combined_log::error::{ErrorKind, ParseError};
use combined_log::format::LogField;
use combined_log::number::push_uint;
use combined_log::parse::parse;
use combined_log::stream::ByteStream;

#[test]
fn kinds_have_names() {
    assert_eq!(ErrorKind::UnexpectedEof.name(), "eof");
    assert_eq!(ErrorKind::BadSyntax.name(), "bad syntax");
    assert_eq!(ErrorKind::BadStatus.name(), "bad status");
    assert_eq!(ErrorKind::BadSize.name(), "bad size");
    assert_eq!(ErrorKind::MissingNewline.name(), "missing newline");
    assert_eq!(ErrorKind::CannotUnread.name(), "cannot unread further");
}

#[test]
fn roles_have_names() {
    assert_eq!(LogField::Unused.name(), "unused");
    assert_eq!(LogField::Source.name(), "source");
    assert_eq!(LogField::Date.name(), "date");
    assert_eq!(LogField::Request.name(), "request");
    assert_eq!(LogField::Status.name(), "status");
    assert_eq!(LogField::Size.name(), "size");
    assert_eq!(LogField::Referer.name(), "referer");
    assert_eq!(LogField::UserAgent.name(), "user agent");
}

#[test]
fn plain_failure_tells_kind_and_offset() {
    assert_eq!(ParseError::at(ErrorKind::UnexpectedEof, 0).describe(), "eof at offset 0");
    assert_eq!(
        ParseError::at(ErrorKind::CannotUnread, 4096).describe(),
        "cannot unread further at offset 4096"
    );
    assert_eq!(
        ParseError::at(ErrorKind::MissingNewline, usize::MAX).describe(),
        format!("missing newline at offset {}", usize::MAX)
    );
}

#[test]
fn failure_in_a_field_tells_token_and_role() {
    let err = ParseError {
        kind: ErrorKind::BadStatus,
        role: Some(LogField::Status),
        offset: 17,
        token: Some("OK".to_string()),
    };
    assert_eq!(err.describe(), "bad status: OK at offset 17 (status)");
    let err = ParseError {
        kind: ErrorKind::BadSyntax,
        role: Some(LogField::UserAgent),
        offset: 3,
        token: None,
    };
    assert_eq!(err.describe(), "bad syntax at offset 3 (user agent)");
}

#[test]
fn parse_failure_is_described() {
    let err = parse(ByteStream::new(b"h - - [d] \"r\" 200 huge - -\n".to_vec())).unwrap_err();
    assert_eq!(err.describe(), "bad size: huge at offset 23 (size)");
}

#[test]
fn appends_unsigned_decimal() {
    let mut out = String::new();
    push_uint(&mut out, 0);
    push_uint(&mut out, 18446744073709551615);
    push_uint(&mut out, 907);
    assert_eq!(out, "018446744073709551615907");
}
