//! Tokens: the plain, quoted and bracketed fields that a log line is made of.

use crate::error::{failure, ErrorKind, ParseError};
use crate::reader::BufReader;
use vstd::prelude::*;
use vstd::std_specs::iter::IteratorSpec;

verus! {

broadcast use vstd::string::group_string_axioms;

/// What reading one token from a run of characters comes to.
pub enum Scan {
    /// A token with the given text was found; `used` characters were taken.
    Token { text: Seq<char>, used: int },
    /// Reading failed for the given reason after `used` characters were taken.
    Fail { kind: ErrorKind, used: int },
}

impl Scan {
    /// This outcome for input that has the character `c` of the token and
    /// `skipped` characters of input in front of it.
    pub open spec fn prepend(self, c: char, skipped: int) -> Scan {
        match self {
            Scan::Token { text, used } => Scan::Token { text: seq![c] + text, used: used + skipped },
            Scan::Fail { kind, used } => Scan::Fail { kind, used: used + skipped },
        }
    }

    /// This outcome for input that has the text `head` of the token and
    /// `skipped` characters of input in front of it.
    pub open spec fn prefixed(self, head: Seq<char>, skipped: int) -> Scan {
        match self {
            Scan::Token { text, used } => Scan::Token { text: head + text, used: used + skipped },
            Scan::Fail { kind, used } => Scan::Fail { kind, used: used + skipped },
        }
    }

    /// How many characters were taken.
    pub open spec fn used(self) -> int {
        match self {
            Scan::Token { used, .. } => used,
            Scan::Fail { used, .. } => used,
        }
    }
}

/// Whether `c` ends a plain token.
pub open spec fn is_delimiter(c: char) -> bool {
    c == ' ' || c == '\n'
}

/// How many characters stand at the front of `s` before the first `]`.
pub open spec fn braced_len(s: Seq<char>) -> int
    decreases s.len(),
{
    if s.len() == 0 || s[0] == ']' {
        0
    } else {
        1 + braced_len(s.skip(1))
    }
}

/// How many characters stand at the front of `s` before the first space or newline.
pub open spec fn plain_len(s: Seq<char>) -> int
    decreases s.len(),
{
    if s.len() == 0 || is_delimiter(s[0]) {
        0
    } else {
        1 + plain_len(s.skip(1))
    }
}

/// `braced_len(s)` is the place of the first `]` in `s`, or the length of
/// `s` if it has none.
pub proof fn lemma_braced_len(s: Seq<char>)
    ensures
        0 <= braced_len(s) <= s.len(),
        forall|j: int| 0 <= j < braced_len(s) ==> #[trigger] s[j] != ']',
        braced_len(s) < s.len() ==> s[braced_len(s)] == ']',
    decreases s.len(),
{
    if s.len() == 0 || s[0] == ']' {
    } else {
        let t = s.skip(1);
        lemma_braced_len(t);
        assert forall|j: int| 0 <= j < braced_len(s) implies #[trigger] s[j] != ']' by {
            if j > 0 {
                assert(s[j] == t[j - 1]);
            }
        }
    }
}

/// `plain_len(s)` is the place of the first space or newline in `s`, or the
/// length of `s` if it has none.
pub proof fn lemma_plain_len(s: Seq<char>)
    ensures
        0 <= plain_len(s) <= s.len(),
        forall|j: int| 0 <= j < plain_len(s) ==> !is_delimiter(#[trigger] s[j]),
        plain_len(s) < s.len() ==> is_delimiter(s[plain_len(s)]),
    decreases s.len(),
{
    if s.len() == 0 || is_delimiter(s[0]) {
    } else {
        let t = s.skip(1);
        lemma_plain_len(t);
        assert forall|j: int| 0 <= j < plain_len(s) implies !is_delimiter(#[trigger] s[j]) by {
            if j > 0 {
                assert(s[j] == t[j - 1]);
            }
        }
    }
}

/// What reading a quoted token comes to, on the characters after its opening
/// quote. The token ends at the first quote that no backslash stands before.
/// A backslash is dropped and the character after it is kept as it is. The
/// closing quote is taken. Input that ends before the closing quote is a
/// failure.
pub open spec fn spec_quoted(s: Seq<char>) -> Scan
    decreases s.len(),
{
    if s.len() == 0 {
        Scan::Fail { kind: ErrorKind::UnexpectedEof, used: 0 }
    } else if s[0] == '"' {
        Scan::Token { text: Seq::empty(), used: 1 }
    } else if s[0] == '\\' {
        if s.len() < 2 {
            Scan::Fail { kind: ErrorKind::UnexpectedEof, used: 1 }
        } else {
            spec_quoted(s.skip(2)).prepend(s[1], 2)
        }
    } else {
        spec_quoted(s.skip(1)).prepend(s[0], 1)
    }
}

/// What reading a bracketed token comes to, on the characters after its
/// opening bracket: the text before the first `]`, which is taken too.
/// Input without a `]` is a failure.
pub open spec fn spec_braced(s: Seq<char>) -> Scan {
    let k = braced_len(s);
    if k < s.len() {
        Scan::Token { text: s.take(k), used: k + 1 }
    } else {
        Scan::Fail { kind: ErrorKind::UnexpectedEof, used: s.len() as int }
    }
}

/// What reading a plain token comes to: the text before the first space or
/// newline, which is not taken. Input without a space or newline is a
/// failure.
pub open spec fn spec_plain(s: Seq<char>) -> Scan {
    let k = plain_len(s);
    if k < s.len() {
        Scan::Token { text: s.take(k), used: k }
    } else {
        Scan::Fail { kind: ErrorKind::UnexpectedEof, used: s.len() as int }
    }
}

/// What reading a token without the separator behind it comes to. The first
/// character decides its shape: a quote opens a quoted token, a bracket a
/// bracketed one, and anything but a space or a newline begins a plain one.
pub open spec fn spec_tok_body(s: Seq<char>) -> Scan {
    if s.len() == 0 {
        Scan::Fail { kind: ErrorKind::UnexpectedEof, used: 0 }
    } else if s[0] == '"' {
        spec_quoted(s.skip(1)).prefixed(Seq::empty(), 1)
    } else if s[0] == '[' {
        spec_braced(s.skip(1)).prefixed(Seq::empty(), 1)
    } else if is_delimiter(s[0]) {
        Scan::Fail { kind: ErrorKind::BadSyntax, used: 1 }
    } else {
        spec_plain(s)
    }
}

/// What reading a token comes to: the token, and one space behind it if
/// there is one. Input that ends right behind the token is a failure.
pub open spec fn spec_tok(s: Seq<char>) -> Scan {
    match spec_tok_body(s) {
        Scan::Fail { kind, used } => Scan::Fail { kind, used },
        Scan::Token { text, used } => if used >= s.len() {
            Scan::Fail { kind: ErrorKind::UnexpectedEof, used }
        } else if s[used] == ' ' {
            Scan::Token { text, used: used + 1 }
        } else {
            Scan::Token { text, used }
        },
    }
}

/// Reading a quoted token never takes more than there is, and it fails only
/// where the input ends.
pub proof fn lemma_quoted_used(s: Seq<char>)
    ensures
        0 <= spec_quoted(s).used() <= s.len(),
        spec_quoted(s) is Token ==> spec_quoted(s).used() >= 1,
        spec_quoted(s) matches Scan::Fail { kind, used } ==> kind == ErrorKind::UnexpectedEof
            && used == s.len(),
    decreases s.len(),
{
    if s.len() == 0 || s[0] == '"' {
    } else if s[0] == '\\' {
        if s.len() >= 2 {
            lemma_quoted_used(s.skip(2));
        }
    } else {
        lemma_quoted_used(s.skip(1));
    }
}

/// Reading a token never takes more than there is, and a token takes at
/// least one character. Reading fails where the input ends, and where a
/// space or a newline stands in the place of the token.
pub proof fn lemma_body_used(s: Seq<char>)
    ensures
        0 <= spec_tok_body(s).used() <= spec_tok(s).used() <= s.len(),
        spec_tok_body(s) is Token ==> spec_tok_body(s).used() >= 1,
        spec_tok(s) is Token ==> spec_tok_body(s) is Token,
        spec_tok(s) matches Scan::Fail { kind, used } ==> {
            ||| kind == ErrorKind::UnexpectedEof && used == s.len()
            ||| kind == ErrorKind::BadSyntax && used == 1 && is_delimiter(s[0])
        },
{
    if s.len() > 0 {
        lemma_quoted_used(s.skip(1));
        lemma_braced_len(s.skip(1));
        lemma_plain_len(s);
    }
}

/// Whether a call that took the reader from `before` to `after` and
/// returned `res` did what `scan` says: it took as many characters, and it
/// returned the token, or the failure at the place where the reader then
/// stood.
pub open spec fn scanned(
    before: &BufReader,
    after: &BufReader,
    res: Result<String, ParseError>,
    scan: Scan,
) -> bool {
    match scan {
        Scan::Token { text, used } => {
            &&& res matches Ok(tok)
            &&& tok@ == text
            &&& after.follows(before, used)
        },
        Scan::Fail { kind, used } => {
            &&& res matches Err(e)
            &&& e@ == failure(kind, before.position() + used)
            &&& after.follows(before, used)
        },
    }
}

/// Putting a character in front of the token is the same as putting it at
/// the end of what is already in front.
proof fn lemma_prefixed_prepend(scan: Scan, head: Seq<char>, skipped: int, c: char, d: int)
    ensures
        scan.prepend(c, d).prefixed(head, skipped) == scan.prefixed(head.push(c), skipped + d),
{
    match scan {
        Scan::Token { text, used } => {
            assert(head + (seq![c] + text) =~= head.push(c) + text);
        },
        Scan::Fail { .. } => {},
    }
}

/// Reads a quoted token whose opening quote has been read.
pub fn read_quoted(r: &mut BufReader) -> (res: Result<String, ParseError>)
    requires
        old(r).wf(),
    ensures
        scanned(old(r), final(r), res, spec_quoted(old(r)@)),
        res is Ok ==> final(r).can_unread(),
{
    let mut text = String::new();
    let ghost s0 = r@;
    let ghost mut k: int = 0;
    assert(s0.skip(0) =~= s0);
    assert(spec_quoted(s0).prefixed(text@, 0) == spec_quoted(s0));
    loop
        invariant
            r.follows(old(r), k),
            s0 == old(r)@,
            spec_quoted(s0) == spec_quoted(r@).prefixed(text@, k),
        decreases r@.len(),
    {
        let ghost cur = r@;
        let ghost head = text@;
        let c = match r.must_read_char() {
            Ok(c) => c,
            Err(e) => {
                assert(r@ =~= s0.skip(k));
                return Err(e);
            },
        };
        assert(r@ =~= s0.skip(k + 1));
        if c == '"' {
            return Ok(text);
        } else if c == '\\' {
            let d = match r.must_read_char() {
                Ok(d) => d,
                Err(e) => {
                    assert(r@ =~= s0.skip(k + 1));
                    return Err(e);
                },
            };
            text.push(d);
            proof {
                assert(r@ =~= s0.skip(k + 2));
                assert(r@ =~= cur.skip(2));
                lemma_prefixed_prepend(spec_quoted(cur.skip(2)), head, k, d, 2);
                k = k + 2;
            }
        } else {
            text.push(c);
            proof {
                lemma_prefixed_prepend(spec_quoted(cur.skip(1)), head, k, c, 1);
                k = k + 1;
            }
        }
    }
}

/// Reads a bracketed token whose opening bracket has been read.
pub fn read_braced(r: &mut BufReader) -> (res: Result<String, ParseError>)
    requires
        old(r).wf(),
    ensures
        scanned(old(r), final(r), res, spec_braced(old(r)@)),
        res is Ok ==> final(r).can_unread(),
{
    let mut text = String::new();
    let ghost s0 = r@;
    let ghost mut k: int = 0;
    assert(s0.skip(0) =~= s0);
    loop
        invariant
            r.follows(old(r), k),
            s0 == old(r)@,
            text@ == s0.take(k),
            braced_len(s0) == k + braced_len(r@),
        decreases r@.len(),
    {
        let c = match r.must_read_char() {
            Ok(c) => c,
            Err(e) => {
                assert(r@ =~= s0.skip(k));
                return Err(e);
            },
        };
        assert(r@ =~= s0.skip(k + 1));
        if c == ']' {
            return Ok(text);
        }
        text.push(c);
        proof {
            k = k + 1;
        }
    }
}

/// Reads a plain token. The space or newline that ends it is pushed back.
pub fn read_plain(r: &mut BufReader) -> (res: Result<String, ParseError>)
    requires
        old(r).wf(),
    ensures
        scanned(old(r), final(r), res, spec_plain(old(r)@)),
        res is Ok ==> !final(r).can_unread() && final(r).pending() == Some(final(r)@[0]),
{
    let mut text = String::new();
    let ghost s0 = r@;
    let ghost mut k: int = 0;
    assert(s0.skip(0) =~= s0);
    loop
        invariant
            r.follows(old(r), k),
            s0 == old(r)@,
            text@ == s0.take(k),
            plain_len(s0) == k + plain_len(r@),
        decreases r@.len(),
    {
        let c = match r.must_read_char() {
            Ok(c) => c,
            Err(e) => {
                assert(r@ =~= s0.skip(k));
                return Err(e);
            },
        };
        assert(r@ =~= s0.skip(k + 1));
        if c == ' ' || c == '\n' {
            match r.unread_char(c) {
                Ok(()) => {},
                Err(e) => {
                    return Err(e);
                },
            }
            assert(r@ =~= s0.skip(k));
            return Ok(text);
        }
        text.push(c);
        proof {
            k = k + 1;
        }
    }
}

/// Reads one token and the space behind it, if there is one. Anything else
/// behind the token is left for the next read.
pub fn read_tok(r: &mut BufReader) -> (res: Result<String, ParseError>)
    requires
        old(r).wf(),
    ensures
        scanned(old(r), final(r), res, spec_tok(old(r)@)),
        res is Ok ==> final(r).can_unread() == (old(r)@[spec_tok_body(old(r)@).used()] == ' '),
{
    let ghost s0 = r@;
    let first = match r.read_char() {
        None => {
            return Err(ParseError::at(ErrorKind::UnexpectedEof, r.consumed()));
        },
        Some(c) => c,
    };
    let body = if first == '"' {
        read_quoted(r)
    } else if first == '[' {
        read_braced(r)
    } else if first == ' ' || first == '\n' {
        return Err(ParseError::at(ErrorKind::BadSyntax, r.consumed()));
    } else {
        match r.unread_char(first) {
            Ok(()) => {},
            Err(e) => {
                return Err(e);
            },
        }
        assert(r@ =~= s0);
        read_plain(r)
    };
    let tok = match body {
        Ok(tok) => tok,
        Err(e) => {
            assert(r@ =~= s0.skip(spec_tok_body(s0).used()));
            return Err(e);
        },
    };
    let ghost n = spec_tok_body(s0).used();
    let sep = match r.must_read_char() {
        Ok(c) => c,
        Err(e) => {
            assert(r@ =~= s0.skip(n));
            return Err(e);
        },
    };
    if sep != ' ' {
        match r.unread_char(sep) {
            Ok(()) => {},
            Err(e) => {
                return Err(e);
            },
        }
        assert(r@ =~= s0.skip(n));
    } else {
        assert(r@ =~= s0.skip(n + 1));
    }
    Ok(tok)
}

/// Whether `tok` is the placeholder that stands for a value that is not there.
pub open spec fn is_placeholder(tok: Seq<char>) -> bool {
    tok == seq!['-']
}

/// The value that a token stands for: none for the placeholder `-`, else the token.
pub fn tok_to_option(tok: String) -> (res: Option<String>)
    ensures
        is_placeholder(tok@) ==> res is None,
        !is_placeholder(tok@) ==> res == Some(tok),
{
    if is_dash(tok.as_str()) {
        None
    } else {
        Some(tok)
    }
}

/// Whether `tok` is the single character `-`.
pub fn is_dash(tok: &str) -> (res: bool)
    ensures
        res == is_placeholder(tok@),
{
    let mut it = tok.chars();
    match it.next() {
        Some(c) => {
            if c == '-' {
                let second = it.next();
                assert(second is None ==> tok@ =~= seq!['-']);
                second.is_none()
            } else {
                false
            }
        },
        None => false,
    }
}

} // verus!
