//! Counting the lines, words and bytes of a text.

use vstd::prelude::*;

verus! {

/// How many lines, words and bytes a text has.
#[derive(Clone, Copy, Debug, PartialEq, Eq)]
pub struct Counts {
    /// The number of newlines.
    pub lines: usize,
    /// The number of runs of bytes that are not blank.
    pub words: usize,
    /// The number of bytes.
    pub bytes: usize,
}

/// Whether `b` separates words: a newline, a space or a tab.
pub open spec fn is_blank(b: u8) -> bool {
    b == 10 || b == 32 || b == 9
}

/// Whether a word begins at the place `i` of `s`: the byte there is not
/// blank, and it is the first byte or the byte before it is blank.
pub open spec fn starts_word(s: Seq<u8>, i: int) -> bool {
    &&& 0 <= i < s.len()
    &&& !is_blank(s[i])
    &&& i == 0 || is_blank(s[i - 1])
}

/// How many newlines stand among the first `n` bytes of `s`.
pub open spec fn lines_in(s: Seq<u8>, n: int) -> int
    decreases n,
{
    if n <= 0 {
        0
    } else {
        lines_in(s, n - 1) + if s[n - 1] == 10 {
            1int
        } else {
            0int
        }
    }
}

/// How many words begin among the first `n` bytes of `s`.
pub open spec fn words_in(s: Seq<u8>, n: int) -> int
    decreases n,
{
    if n <= 0 {
        0
    } else {
        words_in(s, n - 1) + if starts_word(s, n - 1) {
            1int
        } else {
            0int
        }
    }
}

/// Among `n` bytes there are at most `n` newlines and at most `n` beginnings
/// of words.
pub proof fn lemma_counts_bounded(s: Seq<u8>, n: int)
    requires
        0 <= n,
    ensures
        0 <= lines_in(s, n) <= n,
        0 <= words_in(s, n) <= n,
    decreases n,
{
    if n > 0 {
        lemma_counts_bounded(s, n - 1);
    }
}

/// Counts the lines, the words and the bytes of `data`. A line is counted
/// for each newline, and a word for each run of bytes that are not blank.
pub fn count(data: &[u8]) -> (c: Counts)
    ensures
        c.lines == lines_in(data@, data@.len() as int),
        c.words == words_in(data@, data@.len() as int),
        c.bytes == data@.len(),
{
    let mut lines: usize = 0;
    let mut words: usize = 0;
    let mut in_whitespace: bool = true;
    let mut i: usize = 0;
    while i < data.len()
        invariant
            i <= data.len(),
            lines == lines_in(data@, i as int),
            words == words_in(data@, i as int),
            in_whitespace == (i == 0 || is_blank(data@[i - 1])),
        decreases data.len() - i,
    {
        proof {
            lemma_counts_bounded(data@, i as int);
        }
        let b: u8 = data[i];
        if b == 10 {
            lines += 1;
            in_whitespace = true;
        } else if b == 32 || b == 9 {
            in_whitespace = true;
        } else if in_whitespace {
            words += 1;
            in_whitespace = false;
        }
        i += 1;
    }
    Counts { lines, words, bytes: i }
}

} // verus!
