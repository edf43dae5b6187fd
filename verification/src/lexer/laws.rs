//! Laws of the scan, proved of the model that the scanner computes.

use vstd::prelude::*;
use crate::lexer::chars::{is_line_break, whitespace};
use crate::lexer::model::{
    complete, is_punctuation, lemma_number_end_bounds, lemma_number_run_is_digits,
    lemma_skip_advances, lemma_step_advances, number_end, starts_name, tokens_of, Outcome, State,
};
use crate::lexer::number::{decimal, i64_of, is_digit, lemma_digits_overflow_only};
use crate::lexer::token::TokenView;
use crate::lexer::Lexer;

verus! {

/// Whether every number that could be pulled from `st` on fits: wherever a
/// decimal digit stands, it and the digits that follow it denote a 64-bit
/// signed integer.
pub open spec fn numbers_fit(st: State) -> bool {
    forall|i: int|
        st.pos <= i < st.text.len() && is_digit(#[trigger] st.text[i]) ==> i64_of(
            st.text.subrange(i, number_end(st.text, i + 1)),
        ) is Some
}

/// A character that the filtered advance finds, and that starts no line
/// ending, is the last one it consumed.
pub proof fn lemma_skip_finds_last(st: State)
    requires
        st.wf(),
    ensures
        st.skip().found matches Some(c) ==> is_line_break(c) || (st.pos < st.skip().after.pos && c
            == st.text[st.skip().after.pos - 1]),
    decreases st.text.len() - st.pos,
{
    if let Some(c) = st.peek() {
        if !is_line_break(c) && (whitespace(c) || st.in_comment) {
            lemma_skip_finds_last(st.bump());
        }
    }
}

/// Scanning is total: from any state, a text whose numbers fit has a token
/// sequence.
pub proof fn lemma_scan_total(st: State)
    requires
        st.wf(),
        numbers_fit(st),
    ensures
        st.tokens() is Ok,
    decreases st.text.len() - st.pos,
{
    lemma_step_advances(st);
    lemma_skip_advances(st);
    lemma_skip_finds_last(st);
    let adv = st.skip();
    let made = st.step();
    if let Some(c) = adv.found {
        if !is_punctuation(c) && !starts_name(c) && is_digit(c) {
            let k = adv.after.pos - 1;
            lemma_number_end_bounds(st.text, k + 1);
            assert(is_digit(st.text[k]));
            assert(adv.after.digits(c) =~= st.text.subrange(k, number_end(st.text, k + 1)));
        }
        assert(made.outcome is Token);
        lemma_scan_total(made.after);
    }
}

/// A scan stops nowhere but at a number too large: where it stops, a decimal
/// digit stands that, with the digits behind it, has a value above the
/// largest 64-bit signed integer.
pub proof fn lemma_stops_at_overflow(st: State)
    requires
        st.wf(),
    ensures
        st.tokens() matches Err(at) ==> st.pos <= at < st.text.len() && is_digit(st.text[at])
            && decimal(st.text.subrange(at, number_end(st.text, at + 1))) > i64::MAX,
    decreases st.text.len() - st.pos,
{
    lemma_step_advances(st);
    lemma_skip_advances(st);
    lemma_skip_finds_last(st);
    let adv = st.skip();
    match st.step().outcome {
        Outcome::End => {},
        Outcome::Token(_) => {
            lemma_stops_at_overflow(st.step().after);
        },
        Outcome::Overflow => {
            let c = adv.found->Some_0;
            let k = adv.after.pos - 1;
            lemma_number_end_bounds(st.text, k + 1);
            let run = st.text.subrange(k, number_end(st.text, k + 1));
            assert(adv.after.digits(c) =~= run);
            assert(number_end(st.text, k) == number_end(st.text, k + 1));
            lemma_number_run_is_digits(st.text, k);
            lemma_digits_overflow_only(run);
        },
    }
}

/// Scanning yields a finite sequence: no more tokens than there are
/// characters left.
pub proof fn lemma_tokens_bounded(st: State)
    requires
        st.wf(),
    ensures
        st.tokens() matches Ok(ts) ==> ts.len() <= st.text.len() - st.pos,
    decreases st.text.len() - st.pos,
{
    lemma_step_advances(st);
    if st.step().outcome is Token {
        lemma_tokens_bounded(st.step().after);
    }
}

/// Two scanners over the same text yield the same tokens when drained.
pub proof fn lemma_same_text_same_tokens(a: Lexer, b: Lexer, text: Seq<char>)
    requires
        a@ == State::start(text),
        b@ == State::start(text),
    ensures
        a@.tokens() == b@.tokens(),
        a@.tokens() == tokens_of(text),
{
}

/// An empty text has no tokens.
pub proof fn lemma_empty_text()
    ensures
        tokens_of(Seq::empty()) == complete(Seq::empty()),
{
}

/// Whitespace that starts no line ending is discarded up to the end of the
/// text.
proof fn lemma_skip_blank(st: State)
    requires
        st.wf(),
        forall|i: int|
            st.pos <= i < st.text.len() ==> whitespace(#[trigger] st.text[i]) && !is_line_break(
                st.text[i],
            ),
    ensures
        st.skip().found is None,
    decreases st.text.len() - st.pos,
{
    if st.pos < st.text.len() {
        assert(whitespace(st.text[st.pos]));
        lemma_skip_blank(st.bump());
    }
}

/// Whitespace between lexemes is discarded: where `n` characters of
/// whitespace, none of which starts a line ending, stand before a character
/// that is neither, the filtered advance outside a comment finds that
/// character and consumes nothing behind it.
pub proof fn lemma_skip_over_blanks(st: State, n: int)
    requires
        st.wf(),
        !st.in_comment,
        0 <= n,
        st.pos + n < st.text.len(),
        forall|i: int|
            st.pos <= i < st.pos + n ==> whitespace(#[trigger] st.text[i]) && !is_line_break(
                st.text[i],
            ),
        !whitespace(st.text[st.pos + n]),
        !is_line_break(st.text[st.pos + n]),
    ensures
        st.skip().found == Some(st.text[st.pos + n]),
        st.skip().after == st.at(st.pos + n + 1),
    decreases n,
{
    if n > 0 {
        assert(whitespace(st.text[st.pos]));
        lemma_skip_over_blanks(st.bump(), n - 1);
    }
}

/// A text that holds nothing but whitespace, none of which starts a line
/// ending, has no tokens.
pub proof fn lemma_blank_text(text: Seq<char>)
    requires
        forall|i: int|
            0 <= i < text.len() ==> whitespace(#[trigger] text[i]) && !is_line_break(text[i]),
    ensures
        tokens_of(text) == complete(Seq::empty()),
{
    lemma_skip_blank(State::start(text));
}

/// Whether no character that starts a line ending is left to read.
pub open spec fn no_line_break_left(st: State) -> bool {
    forall|i: int| st.pos <= i < st.text.len() ==> !is_line_break(#[trigger] st.text[i])
}

/// Inside a comment, the filtered advance finds nothing but the start of a
/// line ending, and nothing at all where none is left.
pub proof fn lemma_comment_body(st: State)
    requires
        st.in_comment,
    ensures
        st.skip().found matches Some(c) ==> is_line_break(c),
        no_line_break_left(st) ==> st.skip().found is None,
    decreases st.text.len() - st.pos,
{
    if let Some(c) = st.peek() {
        if !is_line_break(c) {
            lemma_comment_body(st.bump());
            assert(no_line_break_left(st) ==> no_line_break_left(st.bump()));
        } else {
            assert(is_line_break(st.text[st.pos]));
        }
    }
}

/// A comment runs to the end of its line: inside a comment, where the first
/// character that starts a line ending stands at index `k`, the filtered
/// advance drops everything before it, finds it, consumes a line feed that
/// follows it directly, and leaves the comment.
pub proof fn lemma_comment_runs_to_line_end(st: State, k: int)
    requires
        st.wf(),
        st.in_comment,
        st.pos <= k < st.text.len(),
        forall|i: int| st.pos <= i < k ==> !is_line_break(#[trigger] st.text[i]),
        is_line_break(st.text[k]),
    ensures
        st.skip().found == Some(st.text[k]),
        st.skip().after == st.at(k + 1).eat('\n').with_comment(false),
        st.step().outcome == Outcome::Token(TokenView::Endline),
        st.step().after.pos <= k + 3,
    decreases k - st.pos,
{
    if st.pos < k {
        assert(!is_line_break(st.text[st.pos]));
        lemma_comment_runs_to_line_end(st.bump(), k);
    }
}

/// The body of a comment yields no token of its own: a pull inside a
/// comment yields a line break or the end of the text.
pub proof fn lemma_comment_yields_endline(st: State)
    requires
        st.in_comment,
    ensures
        st.step().outcome is End || st.step().outcome == Outcome::Token(TokenView::Endline),
{
    lemma_comment_body(st);
}

/// A text that opens a comment and holds no line ending yields the comment
/// token and nothing else. (The statement supposes of the character classes
/// only that `/` is no whitespace.)
pub proof fn lemma_comment_only(text: Seq<char>)
    requires
        text.len() >= 2,
        text[0] == '/',
        text[1] == '/',
        no_line_break_left(State::start(text)),
        !whitespace('/'),
    ensures
        tokens_of(text) == complete(seq![TokenView::Comment]),
{
    let st = State::start(text);
    let inside = State { text, pos: 2, in_comment: true };
    assert(!is_line_break(text[0]));
    assert(st.skip().found == Some('/'));
    assert(st.step().outcome == Outcome::Token(TokenView::Comment));
    assert(st.step().after == inside);
    lemma_comment_body(inside);
    assert(inside.step().outcome is End);
    assert(inside.tokens() == complete(Seq::empty()));
    assert(seq![TokenView::Comment] + Seq::<TokenView>::empty() =~= seq![TokenView::Comment]);
}

/// A character outside every recognised class, standing where a token may
/// begin, is a token by itself, and only it is consumed.
pub proof fn lemma_strange_char_step(st: State, c: char)
    requires
        !st.in_comment,
        st.peek() == Some(c),
        !is_punctuation(c),
        !whitespace(c),
        !starts_name(c),
        !is_digit(c),
    ensures
        st.step().outcome == Outcome::Token(TokenView::StrangeChar(c)),
        st.step().after == st.bump(),
{
}

/// A text of one character outside every recognised class has that
/// character as its one token.
pub proof fn lemma_strange_char(c: char)
    requires
        !is_punctuation(c),
        !whitespace(c),
        !starts_name(c),
        !is_digit(c),
    ensures
        tokens_of(seq![c]) == complete(seq![TokenView::StrangeChar(c)]),
{
    let st = State::start(seq![c]);
    lemma_strange_char_step(st, c);
    let end = st.bump();
    assert(end.step().outcome is End);
    assert(end.tokens() == complete(Seq::empty()));
    assert(seq![TokenView::StrangeChar(c)] + Seq::<TokenView>::empty() =~= seq![
        TokenView::StrangeChar(c),
    ]);
}

/// Lookahead is exact: behind `=`, `.`, `/` and a carriage return, the one
/// character that extends the token is consumed where it stands next, and
/// nothing is consumed otherwise.
pub proof fn lemma_lookahead_exact(st: State)
    requires
        st.wf(),
    ensures
        st.dispatch('=').outcome == Outcome::Token(
            if st.peek() == Some('=') {
                TokenView::Equal
            } else {
                TokenView::Assign
            },
        ),
        st.dispatch('=').after == st.eat('='),
        st.dispatch('.').outcome == Outcome::Token(
            if st.peek() == Some('=') {
                TokenView::ConstAssign
            } else {
                TokenView::Dot
            },
        ),
        st.dispatch('.').after == st.eat('='),
        st.dispatch('/').outcome == Outcome::Token(
            if st.peek() == Some('/') {
                TokenView::Comment
            } else {
                TokenView::Slash
            },
        ),
        st.dispatch('/').after == st.eat('/').with_comment(
            st.in_comment || st.peek() == Some('/'),
        ),
        st.dispatch('\r').outcome == Outcome::Token(TokenView::Endline),
        st.dispatch('\r').after == st.eat('\n'),
{
}

} // verus!
