//! Decimal integers: what a digit string denotes, and how it is read.

use vstd::prelude::*;

verus! {

/// The ten decimal digits `0` to `9`.
pub open spec fn is_digit(c: char) -> bool {
    '0' <= c <= '9'
}

/// The number that a decimal digit stands for.
pub open spec fn digit_value(c: char) -> int {
    c as int - '0' as int
}

/// Whether `s` holds decimal digits only.
pub open spec fn all_digits(s: Seq<char>) -> bool {
    forall|k: int| 0 <= k < s.len() ==> is_digit(#[trigger] s[k])
}

/// The number that the digit string `s` denotes in base ten; 0 for the empty
/// string.
pub open spec fn decimal(s: Seq<char>) -> int
    decreases s.len(),
{
    if s.len() == 0 {
        0
    } else {
        10 * decimal(s.drop_last()) + digit_value(s.last())
    }
}

/// Whether `s` starts with a sign.
pub open spec fn has_sign(s: Seq<char>) -> bool {
    s.len() > 0 && (s[0] == '-' || s[0] == '+')
}

/// `s` without its sign, if it has one.
pub open spec fn magnitude(s: Seq<char>) -> Seq<char> {
    if has_sign(s) {
        s.skip(1)
    } else {
        s
    }
}

/// The integer that `s` denotes: an optional sign, then the decimal value of
/// what follows.
pub open spec fn signed_decimal(s: Seq<char>) -> int {
    if s.len() > 0 && s[0] == '-' {
        -decimal(magnitude(s))
    } else {
        decimal(magnitude(s))
    }
}

/// Reading `s` as a 64-bit signed integer.
///
/// `s` is an optional `+` or `-` followed by one or more decimal digits, and
/// the number so written lies in the range of `i64`; any other string, the
/// empty one included, denotes nothing.
pub open spec fn i64_of(s: Seq<char>) -> Option<i64> {
    if magnitude(s).len() > 0 && all_digits(magnitude(s)) && i64::MIN <= signed_decimal(s)
        <= i64::MAX {
        Some(signed_decimal(s) as i64)
    } else {
        None
    }
}

/// The value of a digit string is never negative, and no prefix of it
/// denotes more than the whole.
pub proof fn lemma_decimal_prefix(s: Seq<char>, n: int)
    requires
        all_digits(s),
        0 <= n <= s.len(),
    ensures
        0 <= decimal(s.take(n)) <= decimal(s),
    decreases s.len() - n,
{
    if n == s.len() {
        assert(s.take(n) =~= s);
        lemma_decimal_nonnegative(s);
    } else {
        lemma_decimal_prefix(s, n + 1);
        assert(s.take(n + 1).drop_last() =~= s.take(n));
        assert(is_digit(s[n]));
        assert(s.take(n + 1).last() == s[n]);
        lemma_decimal_nonnegative(s.take(n));
    }
}

/// The value of a digit string is never negative.
pub proof fn lemma_decimal_nonnegative(s: Seq<char>)
    requires
        all_digits(s),
    ensures
        0 <= decimal(s),
    decreases s.len(),
{
    if s.len() > 0 {
        assert(is_digit(s.last()));
        lemma_decimal_nonnegative(s.drop_last());
    }
}

/// A string of decimal digits, one at least, denotes a 64-bit signed integer
/// exactly where its value is not above the largest one, and then it denotes
/// that value: overflow is all that can go wrong with it.
pub proof fn lemma_digits_overflow_only(s: Seq<char>)
    requires
        s.len() > 0,
        all_digits(s),
    ensures
        i64_of(s) is Some <==> decimal(s) <= i64::MAX,
        i64_of(s) matches Some(n) ==> n == decimal(s),
{
    assert(is_digit(s[0]));
    lemma_decimal_nonnegative(s);
}

/// Whether `c` is a decimal digit.
pub fn is_decimal_digit(c: char) -> (b: bool)
    ensures
        b == is_digit(c),
{
    '0' <= c && c <= '9'
}

/// Reads the characters of `text` from index `from` up to `to` as a 64-bit
/// signed integer.
pub(crate) fn parse_i64_in(text: &Vec<char>, from: usize, to: usize) -> (r: Option<i64>)
    requires
        from <= to <= text.len(),
    ensures
        r == i64_of(text@.subrange(from as int, to as int)),
{
    let ghost s = text@.subrange(from as int, to as int);
    if from == to {
        return None;
    }
    let first = text[from];
    let negative = first == '-';
    let start: usize = if first == '-' || first == '+' {
        from + 1
    } else {
        from
    };
    let ghost m = magnitude(s);
    assert(m =~= text@.subrange(start as int, to as int));
    if start == to {
        return None;
    }
    let limit: u64 = if negative {
        0x8000_0000_0000_0000
    } else {
        0x7fff_ffff_ffff_ffff
    };
    let mut acc: u64 = 0;
    let mut i: usize = start;
    while i < to
        invariant
            start <= i <= to <= text.len(),
            s == text@.subrange(from as int, to as int),
            m == magnitude(s),
            m == text@.subrange(start as int, to as int),
            negative == (s.len() > 0 && s[0] == '-'),
            limit == if negative { 0x8000_0000_0000_0000u64 } else { 0x7fff_ffff_ffff_ffffu64 },
            all_digits(m.take(i - start)),
            acc == decimal(m.take(i - start)),
            acc <= limit <= 0x8000_0000_0000_0000,
        decreases to - i,
    {
        let c = text[i];
        assert(m[i - start] == c);
        if !is_decimal_digit(c) {
            return None;
        }
        let digit: u64 = (c as u32 - '0' as u32) as u64;
        let wide: u128 = acc as u128 * 10 + digit as u128;
        proof {
            let longer = m.take(i - start + 1);
            assert(longer.drop_last() =~= m.take(i - start));
            assert(longer.last() == c);
            assert(decimal(longer) == wide);
            assert(all_digits(longer));
            if all_digits(m) {
                lemma_decimal_prefix(m, i - start + 1);
            }
        }
        if wide > limit as u128 {
            return None;
        }
        acc = wide as u64;
        i += 1;
    }
    assert(m.take(i - start) =~= m);
    if !negative {
        Some(acc as i64)
    } else if acc == 0x8000_0000_0000_0000 {
        Some(i64::MIN)
    } else {
        Some(-(acc as i64))
    }
}

/// Reads `text` as a 64-bit signed integer: an optional sign, then decimal
/// digits; `None` where `text` is not of that shape or the number does not
/// fit.
pub fn parse_i64(text: &Vec<char>) -> (r: Option<i64>)
    ensures
        r == i64_of(text@),
{
    assert(text@.subrange(0, text.len() as int) =~= text@);
    parse_i64_in(text, 0, text.len())
}

} // verus!
