use combined_log::entry::LogEntry;
use combined_log::error::{ErrorKind, ParseError};
use combined_log::format::{combined_log_format, LogField};
use combined_log::parse::{parse, parse_entries, parse_entry};
use combined_log::reader::BufReader;
use combined_log::render::serialize;
use combined_log::stream::ByteStream;

const EXAMPLE: &str =
    "10.0.0.1 - - [10/Oct/2000:13:55:36 -0700] \"GET / HTTP/1.0\" 200 2326 \"-\" \"-\"\n";

fn stream(text: &str) -> ByteStream {
    ByteStream::new(text.as_bytes().to_vec())
}

fn reader(text: &str) -> BufReader {
    BufReader::new(stream(text))
}

fn one(text: &str) -> Result<LogEntry, ParseError> {
    parse_entry(&mut reader(text), &combined_log_format())
}

fn example_entry() -> LogEntry {
    LogEntry {
        source: "10.0.0.1".to_string(),
        date: "10/Oct/2000:13:55:36 -0700".to_string(),
        request: "GET / HTTP/1.0".to_string(),
        status: 200,
        size: Some(2326),
        referer: None,
        user_agent: None,
    }
}

#[test]
fn format_table_lists_the_nine_roles() {
    assert_eq!(
        combined_log_format(),
        [
            LogField::Source,
            LogField::Unused,
            LogField::Unused,
            LogField::Date,
            LogField::Request,
            LogField::Status,
            LogField::Size,
            LogField::Referer,
            LogField::UserAgent,
        ]
    );
}

#[test]
fn blank_entry_has_sentinel_status_and_absent_values() {
    assert_eq!(
        LogEntry::new(),
        LogEntry {
            source: String::new(),
            date: String::new(),
            request: String::new(),
            status: -1,
            size: None,
            referer: None,
            user_agent: None,
        }
    );
}

#[test]
fn example_line_gives_expected_record() {
    let mut r = reader(EXAMPLE);
    let e = parse_entry(&mut r, &combined_log_format()).unwrap();
    assert_eq!(e.source, "10.0.0.1");
    assert_eq!(e.date, "10/Oct/2000:13:55:36 -0700");
    assert_eq!(e.request, "GET / HTTP/1.0");
    assert_eq!(e.status, 200);
    assert_eq!(e.size, Some(2326));
    assert_eq!(e.referer, None);
    assert_eq!(e.user_agent, None);
    assert_eq!(e, example_entry());
    assert_eq!(r.consumed(), EXAMPLE.len());
    assert_eq!(r.read_char(), None);
}

#[test]
fn full_line_gives_every_field() {
    let line = "host.example.org ident user [01/Jan/2024:00:00:00 +0000] \
                \"POST /form?a=1 HTTP/1.1\" 302 0 \"http://example.org/a b\" \
                \"Mozilla/5.0 (X11; Linux)\"\n";
    assert_eq!(
        one(line),
        Ok(LogEntry {
            source: "host.example.org".to_string(),
            date: "01/Jan/2024:00:00:00 +0000".to_string(),
            request: "POST /form?a=1 HTTP/1.1".to_string(),
            status: 302,
            size: Some(0),
            referer: Some("http://example.org/a b".to_string()),
            user_agent: Some("Mozilla/5.0 (X11; Linux)".to_string()),
        })
    );
}

#[test]
fn dash_size_is_absent() {
    let e = one("h - - [d] \"r\" 304 - \"ref\" \"ua\"\n").unwrap();
    assert_eq!(e.size, None);
    assert_eq!(e.status, 304);
    let e = one("h - - [d] \"r\" 304 0 \"ref\" \"ua\"\n").unwrap();
    assert_eq!(e.size, Some(0));
    let e = one("h - - [d] \"r\" 304 \"-\" \"ref\" \"ua\"\n").unwrap();
    assert_eq!(e.size, None);
}

#[test]
fn dash_referer_and_user_agent_are_absent() {
    let e = one("h - - [d] \"r\" 200 5 - -\n").unwrap();
    assert_eq!(e.referer, None);
    assert_eq!(e.user_agent, None);
    let e = one("h - - [d] \"r\" 200 5 \"-\" ua\n").unwrap();
    assert_eq!(e.referer, None);
    assert_eq!(e.user_agent, Some("ua".to_string()));
    let e = one("h - - [d] \"r\" 200 5 \"\" \"--\"\n").unwrap();
    assert_eq!(e.referer, Some(String::new()));
    assert_eq!(e.user_agent, Some("--".to_string()));
}

#[test]
fn dash_in_other_fields_is_a_value() {
    let e = one("- - - [-] \"-\" -1 5 - -\n").unwrap();
    assert_eq!(e.source, "-");
    assert_eq!(e.date, "-");
    assert_eq!(e.request, "-");
    assert_eq!(e.status, -1);
}

#[test]
fn escaped_quote_in_the_request() {
    let e = one("h - - [d] \"GET /a\\\"b HTTP/1.0\" 200 1 - -\n").unwrap();
    assert_eq!(e.request, "GET /a\"b HTTP/1.0");
}

#[test]
fn missing_final_newline_is_fatal() {
    let line = EXAMPLE.trim_end_matches('\n');
    let err = one(line).unwrap_err();
    assert_eq!(err.kind, ErrorKind::UnexpectedEof);
    assert_eq!(err.role, Some(LogField::UserAgent));
    assert_eq!(err.offset, line.len());
    assert_eq!(err.token, None);
    assert_eq!(parse(stream(line)), Err(err.clone()));
    assert_eq!(parse_entries(stream(line)), Err(err));
    let plain_end = "h - - [d] \"r\" 200 5 - -";
    assert_eq!(one(plain_end).unwrap_err().kind, ErrorKind::UnexpectedEof);
    let second = format!("{}{}", EXAMPLE, line);
    assert_eq!(
        parse(stream(&second)),
        Err(ParseError {
            kind: ErrorKind::UnexpectedEof,
            role: Some(LogField::UserAgent),
            offset: second.len(),
            token: None,
        })
    );
}

#[test]
fn trailing_field_is_fatal() {
    let line = "h - - [d] \"r\" 200 5 - - extra\n";
    assert_eq!(
        one(line),
        Err(ParseError { kind: ErrorKind::MissingNewline, role: None, offset: 25, token: None })
    );
}

#[test]
fn bad_status_names_the_token() {
    let line = "h - - [d] \"r\" OK 5 - -\n";
    assert_eq!(
        one(line),
        Err(ParseError {
            kind: ErrorKind::BadStatus,
            role: Some(LogField::Status),
            offset: 17,
            token: Some("OK".to_string()),
        })
    );
    assert_eq!(one("h - - [d] \"r\" - 5 - -\n").unwrap_err().kind, ErrorKind::BadStatus);
    assert_eq!(one("h - - [d] \"r\" \"\" 5 - -\n").unwrap_err().kind, ErrorKind::BadStatus);
}

#[test]
fn bad_size_names_the_token() {
    let line = "h - - [d] \"r\" 200 big - -\n";
    assert_eq!(
        one(line),
        Err(ParseError {
            kind: ErrorKind::BadSize,
            role: Some(LogField::Size),
            offset: 22,
            token: Some("big".to_string()),
        })
    );
    assert_eq!(one("h - - [d] \"r\" 200 -- - -\n").unwrap_err().kind, ErrorKind::BadSize);
    assert_eq!(
        one("h - - [d] \"r\" 200 99999999999999999999 - -\n").unwrap_err().kind,
        ErrorKind::BadSize
    );
}

#[test]
fn empty_field_is_bad_syntax() {
    let line = "h  - [d] \"r\" 200 5 - -\n";
    assert_eq!(
        one(line),
        Err(ParseError {
            kind: ErrorKind::BadSyntax,
            role: Some(LogField::Unused),
            offset: 3,
            token: None,
        })
    );
    let short = "h - -\n";
    assert_eq!(
        one(short),
        Err(ParseError {
            kind: ErrorKind::BadSyntax,
            role: Some(LogField::Date),
            offset: 6,
            token: None,
        })
    );
}

#[test]
fn unterminated_tokens_are_fatal() {
    let line = "h - - [d \"r\" 200 5 - -\n";
    assert_eq!(
        one(line),
        Err(ParseError {
            kind: ErrorKind::UnexpectedEof,
            role: Some(LogField::Date),
            offset: line.len(),
            token: None,
        })
    );
    let line = "h - - [d] \"r 200 5 - -\n";
    assert_eq!(
        one(line),
        Err(ParseError {
            kind: ErrorKind::UnexpectedEof,
            role: Some(LogField::Request),
            offset: line.len(),
            token: None,
        })
    );
}

#[test]
fn empty_line_is_fatal() {
    assert_eq!(
        one("\n"),
        Err(ParseError {
            kind: ErrorKind::BadSyntax,
            role: Some(LogField::Source),
            offset: 1,
            token: None,
        })
    );
    assert_eq!(
        one(""),
        Err(ParseError {
            kind: ErrorKind::UnexpectedEof,
            role: Some(LogField::Source),
            offset: 0,
            token: None,
        })
    );
}

#[test]
fn other_formats_follow_their_table() {
    let fmt = [LogField::Status, LogField::Request];
    let mut r = reader("404 \"GET /x\"\nrest");
    let e = parse_entry(&mut r, &fmt).unwrap();
    assert_eq!(e.status, 404);
    assert_eq!(e.request, "GET /x");
    assert_eq!(e.source, "");
    assert_eq!(e.size, None);
    assert_eq!(r.read_char(), Some('r'));
    let mut r = reader("\nrest");
    assert_eq!(parse_entry(&mut r, &[]), Ok(LogEntry::new()));
    assert_eq!(r.read_char(), Some('r'));
}

#[test]
fn counts_lines() {
    let text = "a - - [d] \"r\" 200 1 \"x\" \"y\"\nb - - [e] \"s\" 404 - - -\n";
    assert_eq!(parse(stream(text)), Ok(2));
    assert_eq!(parse(ByteStream::new(Vec::new())), Ok(0));
    assert_eq!(parse_entries(ByteStream::new(Vec::new())), Ok(Vec::new()));
    assert_eq!(parse(stream(EXAMPLE)), Ok(1));
    let all = parse_entries(stream(text)).unwrap();
    assert_eq!(all.len(), 2);
    assert_eq!(all[0].source, "a");
    assert_eq!(
        all[1],
        LogEntry {
            source: "b".to_string(),
            date: "e".to_string(),
            request: "s".to_string(),
            status: 404,
            size: None,
            referer: None,
            user_agent: None,
        }
    );
}

#[test]
fn failure_in_a_later_line_counts_from_the_start() {
    let text = format!("{}{}", EXAMPLE, "h - - [d] \"r\" xx 5 - -\n");
    let expected = ParseError {
        kind: ErrorKind::BadStatus,
        role: Some(LogField::Status),
        offset: EXAMPLE.len() + 17,
        token: Some("xx".to_string()),
    };
    assert_eq!(parse(stream(&text)), Err(expected.clone()));
    assert_eq!(parse_entries(stream(&text)), Err(expected));
    let blank_line = format!("{}\n", EXAMPLE);
    assert_eq!(
        parse(stream(&blank_line)),
        Err(ParseError {
            kind: ErrorKind::BadSyntax,
            role: Some(LogField::Source),
            offset: EXAMPLE.len() + 1,
            token: None,
        })
    );
}

#[test]
fn token_across_the_buffer_boundary_parses_the_same() {
    let head = "pad - - [d] \"";
    let tail = "\" 200 1 - -\n";
    let filler = "x".repeat(4090 - head.len() - tail.len());
    let first = format!("{}{}{}", head, filler, tail);
    assert_eq!(first.len(), 4090);
    let second = "straddling.example.org - - [10/Oct/2000:13:55:36 -0700] \
                  \"GET /index.html HTTP/1.0\" 200 2326 \"http://a/\" \"agent\"\n";
    let text = format!("{}{}", first, second);
    let all = parse_entries(stream(&text)).unwrap();
    assert_eq!(all.len(), 2);
    assert_eq!(all[0].request, filler);
    let alone = one(second).unwrap();
    assert_eq!(alone.source, "straddling.example.org");
    assert_eq!(all[1], alone);
    assert_eq!(parse(stream(&text)), Ok(2));
}

#[test]
fn every_buffer_size_parses_the_same() {
    let text = format!(
        "{}{}",
        EXAMPLE, "h i u [d e] \"GET /a\\\"b\\\\ HTTP/1.0\" -7 - \"r\" \"Mozilla (x)\"\n"
    );
    let expected = parse_entries(stream(&text)).unwrap();
    assert_eq!(expected.len(), 2);
    assert_eq!(expected[1].request, "GET /a\"b\\ HTTP/1.0");
    for capacity in 1..=text.len() + 1 {
        let mut r = BufReader::with_capacity(stream(&text), capacity);
        let a = parse_entry(&mut r, &combined_log_format()).unwrap();
        assert!(!r.prod());
        let b = parse_entry(&mut r, &combined_log_format()).unwrap();
        assert!(r.prod());
        assert_eq!(vec![a, b], expected);
    }
}

#[test]
fn written_line_is_the_line_that_was_read() {
    assert_eq!(serialize(&example_entry(), &combined_log_format()), EXAMPLE);
    let line = "h - - [01/Jan/2024:00:00:00 +0000] \"GET /a\\\"b\\\\c HTTP/1.0\" 404 - \
                \"http://r/\" \"-\"\n";
    let e = one(line).unwrap();
    assert_eq!(serialize(&e, &combined_log_format()), line);
    assert_eq!(one(&serialize(&e, &combined_log_format())), Ok(e));
}

#[test]
fn written_line_keeps_date_status_and_size() {
    let line = "h a b [10/Oct/2000:13:55:36 -0700] \"r\" -12 9223372036854775807 - -\n";
    let e = one(line).unwrap();
    assert_eq!(
        serialize(&e, &combined_log_format()),
        "h - - [10/Oct/2000:13:55:36 -0700] \"r\" -12 9223372036854775807 \"-\" \"-\"\n"
    );
    let spelled = one("h - - [d] \"r\" 0200 +5 - -\n").unwrap();
    assert_eq!(
        serialize(&spelled, &combined_log_format()),
        "h - - [d] \"r\" 200 5 \"-\" \"-\"\n"
    );
}

#[test]
fn serialize_follows_the_table() {
    let e = example_entry();
    assert_eq!(serialize(&e, &[]), "\n");
    assert_eq!(serialize(&e, &[LogField::Status]), "200\n");
    assert_eq!(
        serialize(&e, &[LogField::Size, LogField::Unused, LogField::Date]),
        "2326 - [10/Oct/2000:13:55:36 -0700]\n"
    );
    let mut other = LogEntry::new();
    other.referer = Some("a\"b".to_string());
    assert_eq!(
        serialize(&other, &[LogField::Referer, LogField::Size, LogField::Status]),
        "\"a\\\"b\" - -1\n"
    );
}

#[test]
fn assign_routes_a_token_by_its_role() {
    let mut e = LogEntry::new();
    assert_eq!(e.assign(LogField::Source, "h".to_string(), 0), Ok(()));
    assert_eq!(e.assign(LogField::Unused, "zzz".to_string(), 0), Ok(()));
    assert_eq!(e.assign(LogField::Size, "-".to_string(), 0), Ok(()));
    assert_eq!(e.assign(LogField::Status, "500".to_string(), 0), Ok(()));
    assert_eq!(e.assign(LogField::UserAgent, "-".to_string(), 0), Ok(()));
    assert_eq!(e.assign(LogField::Referer, "x".to_string(), 0), Ok(()));
    let mut expected = LogEntry::new();
    expected.source = "h".to_string();
    expected.status = 500;
    expected.referer = Some("x".to_string());
    assert_eq!(e, expected);
    assert_eq!(
        e.assign(LogField::Size, "1x".to_string(), 9),
        Err(ParseError {
            kind: ErrorKind::BadSize,
            role: Some(LogField::Size),
            offset: 9,
            token: Some("1x".to_string()),
        })
    );
    assert_eq!(e, expected);
}
