use combined_log::error::{ErrorKind, ParseError};
use combined_log::reader::BufReader;
use combined_log::stream::ByteStream;
use combined_log::token::{
    is_dash, read_braced, read_plain, read_quoted, read_tok, tok_to_option,
};

fn reader(text: &str) -> BufReader {
    BufReader::new(ByteStream::new(text.as_bytes().to_vec()))
}

fn eof(offset: usize) -> ParseError {
    ParseError { kind: ErrorKind::UnexpectedEof, role: None, offset, token: None }
}

#[test]
fn quoted_token_keeps_an_escaped_quote() {
    let mut r = reader("\"GET /a\\\"b HTTP/1.0\" 200\n");
    assert_eq!(read_tok(&mut r), Ok("GET /a\"b HTTP/1.0".to_string()));
    assert_eq!(read_tok(&mut r), Ok("200".to_string()));
    assert_eq!(r.read_char(), Some('\n'));
}

#[test]
fn backslash_keeps_the_next_character_as_it_is() {
    let mut r = reader("a\\nb\\\\c\\td\" rest");
    assert_eq!(read_quoted(&mut r), Ok("anb\\ctd".to_string()));
    assert_eq!(r.read_char(), Some(' '));
}

#[test]
fn quoted_token_may_be_empty() {
    let mut r = reader("\"\" x");
    assert_eq!(read_tok(&mut r), Ok(String::new()));
    assert_eq!(r.read_char(), Some('x'));
}

#[test]
fn unterminated_quote_is_fatal() {
    let mut r = reader("\"abc");
    assert_eq!(read_tok(&mut r), Err(eof(4)));
    let mut r = reader("abc\\");
    assert_eq!(read_quoted(&mut r), Err(eof(4)));
    let mut r = reader("");
    assert_eq!(read_quoted(&mut r), Err(eof(0)));
}

#[test]
fn bracketed_token_ends_at_the_first_bracket() {
    let mut r = reader("[10/Oct/2000:13:55:36 -0700] next");
    assert_eq!(read_tok(&mut r), Ok("10/Oct/2000:13:55:36 -0700".to_string()));
    assert_eq!(r.read_char(), Some('n'));
    let mut r = reader("a\\]b]");
    assert_eq!(read_braced(&mut r), Ok("a\\".to_string()));
    assert_eq!(r.read_char(), Some('b'));
}

#[test]
fn unterminated_bracket_is_fatal() {
    let mut r = reader("[abc def");
    assert_eq!(read_tok(&mut r), Err(eof(8)));
}

#[test]
fn plain_token_ends_before_space_or_newline() {
    let mut r = reader("200 next");
    assert_eq!(read_plain(&mut r), Ok("200".to_string()));
    assert_eq!(r.consumed(), 3);
    assert_eq!(r.read_char(), Some(' '));
    let mut r = reader("200\nnext");
    assert_eq!(read_plain(&mut r), Ok("200".to_string()));
    assert_eq!(r.read_char(), Some('\n'));
    let mut r = reader(" x");
    assert_eq!(read_plain(&mut r), Ok(String::new()));
    assert_eq!(r.consumed(), 0);
}

#[test]
fn plain_token_keeps_quotes_and_brackets_inside() {
    let mut r = reader("a\"b[c]d e");
    assert_eq!(read_tok(&mut r), Ok("a\"b[c]d".to_string()));
    assert_eq!(r.read_char(), Some('e'));
}

#[test]
fn unterminated_plain_token_is_fatal() {
    let mut r = reader("abc");
    assert_eq!(read_plain(&mut r), Err(eof(3)));
    let mut r = reader("abc");
    assert_eq!(read_tok(&mut r), Err(eof(3)));
}

#[test]
fn token_swallows_one_space_only() {
    let mut r = reader("a  b\n");
    assert_eq!(read_tok(&mut r), Ok("a".to_string()));
    assert_eq!(r.consumed(), 2);
    assert_eq!(
        read_tok(&mut r),
        Err(ParseError { kind: ErrorKind::BadSyntax, role: None, offset: 3, token: None })
    );
}

#[test]
fn token_leaves_the_newline() {
    let mut r = reader("\"a\"\nb");
    assert_eq!(read_tok(&mut r), Ok("a".to_string()));
    assert_eq!(r.consumed(), 3);
    assert_eq!(r.read_char(), Some('\n'));
}

#[test]
fn leading_delimiter_is_bad_syntax() {
    let mut r = reader(" a ");
    assert_eq!(
        read_tok(&mut r),
        Err(ParseError { kind: ErrorKind::BadSyntax, role: None, offset: 1, token: None })
    );
    let mut r = reader("\na ");
    assert_eq!(
        read_tok(&mut r),
        Err(ParseError { kind: ErrorKind::BadSyntax, role: None, offset: 1, token: None })
    );
}

#[test]
fn token_at_the_end_of_input_is_fatal() {
    let mut r = reader("");
    assert_eq!(read_tok(&mut r), Err(eof(0)));
    let mut r = reader("\"a\"");
    assert_eq!(read_tok(&mut r), Err(eof(3)));
    let mut r = reader("[a]");
    assert_eq!(read_tok(&mut r), Err(eof(3)));
}

#[test]
fn placeholder_is_an_absent_value() {
    assert_eq!(tok_to_option("-".to_string()), None);
    assert_eq!(tok_to_option("".to_string()), Some("".to_string()));
    assert_eq!(tok_to_option("--".to_string()), Some("--".to_string()));
    assert_eq!(tok_to_option("-a".to_string()), Some("-a".to_string()));
    assert_eq!(tok_to_option("a".to_string()), Some("a".to_string()));
    assert_eq!(
        tok_to_option("http://example.com/".to_string()),
        Some("http://example.com/".to_string())
    );
    assert!(is_dash("-"));
    assert!(!is_dash(""));
    assert!(!is_dash("--"));
    assert!(!is_dash("+"));
}

#[test]
fn token_straddling_a_refill_reads_the_same() {
    let text = "first-token \"second \\\" token\" [third token] fourth\n";
    let mut whole = reader(text);
    let expected: Vec<_> = (0..4).map(|_| read_tok(&mut whole).unwrap()).collect();
    assert_eq!(expected, vec!["first-token", "second \" token", "third token", "fourth"]);
    for capacity in 1..=text.len() {
        let mut r = BufReader::with_capacity(ByteStream::new(text.as_bytes().to_vec()), capacity);
        let got: Vec<_> = (0..4).map(|_| read_tok(&mut r).unwrap()).collect();
        assert_eq!(got, expected);
        assert_eq!(r.read_char(), Some('\n'));
    }
}
