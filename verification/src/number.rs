//! Decimal integers: reading them from text and writing them back.

use vstd::prelude::*;
use vstd::std_specs::iter::IteratorSpec;

verus! {

broadcast use vstd::string::group_string_axioms;

/// Whether `c` is one of the ten decimal digits.
pub open spec fn is_digit(c: char) -> bool {
    '0' <= c <= '9'
}

/// The number that the digit `c` stands for.
pub open spec fn digit_value(c: char) -> int {
    c as int - '0' as int
}

/// The digit that stands for `d`, for `d` from 0 to 9.
pub open spec fn digit_char(d: int) -> char {
    (d + '0' as int) as char
}

/// Whether `t` holds decimal digits only.
pub open spec fn all_digits(t: Seq<char>) -> bool {
    forall|i: int| 0 <= i < t.len() ==> is_digit(#[trigger] t[i])
}

/// The number that a run of decimal digits stands for; the empty run stands for 0.
pub open spec fn digits_value(t: Seq<char>) -> int
    decreases t.len(),
{
    if t.len() == 0 {
        0
    } else {
        10 * digits_value(t.drop_last()) + digit_value(t.last())
    }
}

/// Whether `t` begins with a sign.
pub open spec fn has_sign(t: Seq<char>) -> bool {
    t.len() > 0 && (t[0] == '-' || t[0] == '+')
}

/// `t` without its sign, if it has one.
pub open spec fn digits_part(t: Seq<char>) -> Seq<char> {
    if has_sign(t) {
        t.skip(1)
    } else {
        t
    }
}

/// Whether `t` is written as an integer: an optional sign, then one or more
/// decimal digits, and nothing else.
pub open spec fn is_numeral(t: Seq<char>) -> bool {
    digits_part(t).len() > 0 && all_digits(digits_part(t))
}

/// The integer that the numeral `t` stands for.
pub open spec fn numeral_value(t: Seq<char>) -> int {
    if t.len() > 0 && t[0] == '-' {
        -digits_value(digits_part(t))
    } else {
        digits_value(digits_part(t))
    }
}

/// The integer that `t` is read as: the value of `t` if `t` is a numeral
/// whose value fits 64 bits, and nothing otherwise.
pub open spec fn spec_parse_int(t: Seq<char>) -> Option<i64> {
    if is_numeral(t) && i64::MIN <= numeral_value(t) <= i64::MAX {
        Some(numeral_value(t) as i64)
    } else {
        None
    }
}

/// The decimal digits of `n`, without leading zeros.
pub open spec fn decimal_digits(n: nat) -> Seq<char>
    decreases n,
{
    if n < 10 {
        seq![digit_char(n as int)]
    } else {
        decimal_digits(n / 10).push(digit_char((n % 10) as int))
    }
}

/// How the integer `n` is written: a minus sign if it is negative, then its
/// decimal digits without leading zeros.
pub open spec fn decimal(n: int) -> Seq<char> {
    if n < 0 {
        seq!['-'] + decimal_digits((-n) as nat)
    } else {
        decimal_digits(n as nat)
    }
}

/// Whether `t` is a numeral in the one form that `decimal` writes: no plus
/// sign, no leading zero, no negative zero.
pub open spec fn is_canonical(t: Seq<char>) -> bool {
    let d = digits_part(t);
    &&& is_numeral(t)
    &&& t[0] != '+'
    &&& d.len() > 1 ==> d[0] != '0'
    &&& t[0] == '-' ==> d[0] != '0'
}

/// A run of digits stands for a number that is not negative, and a longer
/// run that begins with it stands for a number that is not smaller.
pub proof fn lemma_digits_monotonic(t: Seq<char>, k: int)
    requires
        all_digits(t),
        0 <= k <= t.len(),
    ensures
        0 <= digits_value(t.take(k)) <= digits_value(t),
    decreases t.len() - k,
{
    if k == t.len() {
        assert(t.take(k) =~= t);
        lemma_digits_nonnegative(t);
    } else {
        lemma_digits_monotonic(t, k + 1);
        let u = t.take(k + 1);
        assert(u.drop_last() =~= t.take(k));
    }
}

/// A run of digits stands for a number that is not negative.
pub proof fn lemma_digits_nonnegative(t: Seq<char>)
    requires
        all_digits(t),
    ensures
        0 <= digits_value(t),
    decreases t.len(),
{
    if t.len() > 0 {
        assert(all_digits(t.drop_last())) by {
            assert forall|i: int| 0 <= i < t.drop_last().len() implies is_digit(
                #[trigger] t.drop_last()[i],
            ) by {}
        }
        lemma_digits_nonnegative(t.drop_last());
    }
}

/// Reads `tok` as a decimal integer: an optional sign, then one or more
/// digits. Returns nothing if `tok` is not written so or if its value does
/// not fit 64 bits.
pub fn parse_int(tok: &str) -> (res: Option<i64>)
    ensures
        res == spec_parse_int(tok@),
{
    let ghost t = tok@;
    let ghost d = digits_part(t);
    let ghost start: int = if has_sign(t) { 1 } else { 0 };
    let ghost mut i: int = 1;
    let mut it = tok.chars();
    let mut negative: bool = false;
    let mut seen: bool = false;
    let mut mag: u64 = 0;
    match it.next() {
        None => {
            return None;
        },
        Some(c) => {
            if c == '-' {
                negative = true;
            } else if c == '+' {
            } else if c >= '0' && c <= '9' {
                mag = (c as u32 - '0' as u32) as u64;
                seen = true;
                assert(digits_value(t.take(1).drop_last()) == 0);
            } else {
                return None;
            }
        },
    }
    let limit: u64 = if negative { 9223372036854775808u64 } else { 9223372036854775807u64 };
    loop
        invariant
            t == tok@,
            d == digits_part(t),
            start == (if has_sign(t) { 1int } else { 0int }),
            negative == (t[0] == '-'),
            1 <= i <= t.len(),
            it.remaining() == t.skip(i),
            it.obeys_prophetic_iter_laws(),
            all_digits(d.take(i - start)),
            seen <==> i - start > 0,
            mag == digits_value(d.take(i - start)),
            mag <= limit,
            limit == (if negative { 9223372036854775808u64 } else { 9223372036854775807u64 }),
        ensures
            i == t.len(),
        decreases t.len() - i,
    {
        match it.next() {
            None => {
                break;
            },
            Some(c) => {
                assert(d[i - start] == c);
                if !(c >= '0' && c <= '9') {
                    return None;
                }
                let digit: u64 = (c as u32 - '0' as u32) as u64;
                proof {
                    let u = d.take(i - start + 1);
                    assert(u.drop_last() =~= d.take(i - start));
                    assert(all_digits(u));
                }
                if mag > (limit - digit) / 10 {
                    proof {
                        if all_digits(d) {
                            lemma_digits_monotonic(d, i - start + 1);
                        }
                    }
                    return None;
                }
                mag = mag * 10 + digit;
                seen = true;
                proof {
                    i = i + 1;
                }
            },
        }
    }
    assert(d.take(i - start) =~= d);
    if !seen {
        return None;
    }
    if negative {
        if mag == 9223372036854775808u64 {
            Some(i64::MIN)
        } else {
            Some(-(mag as i64))
        }
    } else {
        Some(mag as i64)
    }
}

/// Appends to `out` the decimal digits of `n`, without leading zeros.
pub fn push_uint(out: &mut String, n: u64)
    ensures
        final(out)@ == old(out)@ + decimal_digits(n as nat),
    decreases n,
{
    if n >= 10 {
        push_uint(out, n / 10);
    }
    let d: u8 = (n % 10) as u8;
    out.push((d + 48u8) as char);
}

/// Appends to `out` the integer `n` as `decimal` writes it.
pub fn push_int(out: &mut String, n: i64)
    ensures
        final(out)@ == old(out)@ + decimal(n as int),
{
    if n < 0 {
        out.push('-');
        let m: u64 = if n == i64::MIN {
            9223372036854775808u64
        } else {
            (-n) as u64
        };
        push_uint(out, m);
    } else {
        push_uint(out, n as u64);
    }
}

/// The integer `n` as `decimal` writes it.
pub fn format_int(n: i64) -> (s: String)
    ensures
        s@ == decimal(n as int),
{
    let mut out = String::new();
    push_int(&mut out, n);
    out
}

/// The digits that `decimal_digits` writes for `n` stand for `n`, and they
/// begin with a zero only if `n` is 0.
pub proof fn lemma_decimal_digits(n: nat)
    ensures
        decimal_digits(n).len() >= 1,
        all_digits(decimal_digits(n)),
        digits_value(decimal_digits(n)) == n,
        decimal_digits(n)[0] == '0' ==> n == 0 && decimal_digits(n).len() == 1,
    decreases n,
{
    let d = decimal_digits(n);
    if n < 10 {
        assert(digits_value(d.drop_last()) == 0);
    } else {
        lemma_decimal_digits(n / 10);
        let p = decimal_digits(n / 10);
        assert(d.drop_last() =~= p);
        assert(all_digits(d)) by {
            assert forall|i: int| 0 <= i < d.len() implies is_digit(#[trigger] d[i]) by {}
        }
    }
}

/// Writing an integer and reading it back gives the integer, and what is
/// written is in canonical form.
pub proof fn lemma_parse_decimal(n: i64)
    ensures
        is_canonical(decimal(n as int)),
        spec_parse_int(decimal(n as int)) == Some(n),
{
    let t = decimal(n as int);
    if n < 0 {
        let m = (-n) as nat;
        lemma_decimal_digits(m);
        assert(t.skip(1) =~= decimal_digits(m));
    } else {
        lemma_decimal_digits(n as nat);
    }
}

/// A run of digits without a leading zero, or the single digit zero, is what
/// `decimal_digits` writes for the number it stands for.
pub proof fn lemma_digits_canonical(d: Seq<char>)
    requires
        d.len() >= 1,
        all_digits(d),
        d.len() > 1 ==> d[0] != '0',
    ensures
        digits_value(d) >= 0,
        decimal_digits(digits_value(d) as nat) == d,
    decreases d.len(),
{
    let p = d.drop_last();
    if d.len() == 1 {
        assert(digits_value(p) == 0);
    } else {
        assert(all_digits(p)) by {
            assert forall|i: int| 0 <= i < p.len() implies is_digit(#[trigger] p[i]) by {}
        }
        lemma_digits_canonical(p);
    }
}

/// Reading a canonical numeral and writing the integer back gives the
/// numeral, character for character.
pub proof fn lemma_decimal_parsed(t: Seq<char>)
    requires
        is_canonical(t),
        spec_parse_int(t) is Some,
    ensures
        decimal(spec_parse_int(t)->0 as int) == t,
{
    lemma_digits_canonical(digits_part(t));
}

} // verus!
