//! Character classes.
//!
//! The scanner asks the Unicode-aware predicates of the standard library
//! what is whitespace and what may stand in an identifier. Their tables are
//! not restated here: each predicate gets a name, and the contracts of the
//! scanner speak of those names. (What a decimal digit is needs no table:
//! see [`crate::lexer::number::is_digit`].)

use vstd::prelude::*;

verus! {

/// What `char::is_whitespace` answers for `c`: whether `c` has the Unicode
/// property `White_Space`.
pub uninterp spec fn whitespace(c: char) -> bool;

/// What `char::is_alphabetic` answers for `c`: whether `c` has the Unicode
/// property `Alphabetic`.
pub uninterp spec fn alphabetic(c: char) -> bool;

/// What `char::is_numeric` answers for `c`: whether `c` lies in one of the
/// Unicode general categories for numbers (`Nd`, `Nl`, `No`). The scanner
/// meets it only through `char::is_alphanumeric`, inside identifiers.
pub uninterp spec fn numeric(c: char) -> bool;

/// Trusted: `char::is_whitespace` is a function of the character alone; its
/// answer is [`whitespace`].
pub assume_specification[ char::is_whitespace ](c: char) -> (b: bool)
    ensures
        b == whitespace(c),
;

/// Trusted: `char::is_alphabetic` is a function of the character alone; its
/// answer is [`alphabetic`].
pub assume_specification[ char::is_alphabetic ](c: char) -> (b: bool)
    ensures
        b == alphabetic(c),
;

/// Trusted: `char::is_alphanumeric` holds of exactly the characters of which
/// `char::is_alphabetic` or `char::is_numeric` holds.
pub assume_specification[ char::is_alphanumeric ](c: char) -> (b: bool)
    ensures
        b == (alphabetic(c) || numeric(c)),
;

/// Characters that start a line ending.
pub open spec fn is_line_break(c: char) -> bool {
    c == '\n' || c == '\r'
}

/// Trusted: `String::push` appends the character to the end of the string and
/// changes nothing else of it.
pub assume_specification[ String::push ](s: &mut String, ch: char)
    ensures
        final(s)@ == old(s)@.push(ch),
;

/// The string made of the characters of `chars`, in order.
pub fn string_of(chars: &Vec<char>) -> (s: String)
    ensures
        s@ == chars@,
{
    let mut s = String::new();
    let mut i: usize = 0;
    while i < chars.len()
        invariant
            i <= chars.len(),
            s@ == chars@.take(i as int),
        decreases chars.len() - i,
    {
        s.push(chars[i]);
        assert(chars@.take(i + 1) =~= chars@.take(i as int).push(chars@[i as int]));
        i += 1;
    }
    assert(chars@.take(i as int) =~= chars@);
    s
}

} // verus!
