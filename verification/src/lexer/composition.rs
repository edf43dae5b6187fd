//! Laws on texts put together: what a scan of a text has to do with the
//! scans of its parts.

use vstd::prelude::*;
use crate::lexer::chars::{is_line_break, whitespace};
use crate::lexer::laws::lemma_skip_finds_last;
use crate::lexer::model::{
    complete, continues_name, lemma_name_end_bounds, lemma_number_end_bounds,
    lemma_quote_at_bounds, lemma_skip_advances, lemma_step_advances, name_end, number_end,
    quote_at, stopped, tokens_of, Advance, Outcome, Scan, State, Step,
};
use crate::lexer::number::is_digit;
use crate::lexer::token::TokenView;

verus! {

/// The state `st` of a scan of some text, seen as a state of the scan of
/// that text with `front` put before it.
pub open spec fn behind(front: Seq<char>, st: State) -> State {
    State { text: front + st.text, pos: front.len() + st.pos, in_comment: st.in_comment }
}

/// The state `st` of a scan of some text, seen as a state of the scan of
/// that text with `back` put behind it.
pub open spec fn before(st: State, back: Seq<char>) -> State {
    State { text: st.text + back, pos: st.pos, in_comment: st.in_comment }
}

/// The scan `scan` with every index in it moved up by `by`.
pub open spec fn moved(scan: Scan, by: int) -> Scan {
    match scan {
        Ok(tokens) => complete(tokens),
        Err(at) => stopped(at + by),
    }
}

/// The scan `first`, and after it, where it is complete, the scan `second`.
pub open spec fn followed_by(first: Scan, second: Scan) -> Scan {
    match first {
        Err(at) => stopped(at),
        Ok(tokens) => match second {
            Ok(rest) => complete(tokens + rest),
            Err(at) => stopped(at),
        },
    }
}

/// A text in which no string literal and no comment begins: it holds no
/// `"` and no two `/` in a row.
pub open spec fn plain(text: Seq<char>) -> bool {
    &&& forall|i: int| 0 <= i < text.len() ==> #[trigger] text[i] != '"'
    &&& forall|i: int|
        0 <= i < text.len() - 1 ==> !(#[trigger] text[i] == '/' && text[i + 1] == '/')
}

/// A character that ends every lexeme before it and extends none: it may
/// stand in no identifier and no number, and it is none of the characters
/// that the lookahead of an operator or of a line ending takes.
pub open spec fn ends_lexemes(w: char) -> bool {
    !continues_name(w) && !is_digit(w) && w != '=' && w != '/' && w != '\n'
}

/// Runs of identifier characters and of digits, and the next quote, lie in a
/// text behind `front` where they lie without it, moved up by its length.
proof fn lemma_runs_behind(front: Seq<char>, s: Seq<char>, i: int)
    requires
        0 <= i <= s.len(),
    ensures
        name_end(front + s, front.len() + i) == front.len() + name_end(s, i),
        number_end(front + s, front.len() + i) == front.len() + number_end(s, i),
        quote_at(front + s, front.len() + i) == front.len() + quote_at(s, i),
    decreases s.len() - i,
{
    if i < s.len() {
        assert((front + s)[front.len() + i] == s[i]);
        lemma_runs_behind(front, s, i + 1);
    }
}

/// The filtered advance finds behind `front` what it finds without it.
proof fn lemma_skip_behind(front: Seq<char>, st: State)
    requires
        st.wf(),
    ensures
        behind(front, st).skip() == (Advance {
            found: st.skip().found,
            after: behind(front, st.skip().after),
        }),
    decreases st.text.len() - st.pos,
{
    let moved_st = behind(front, st);
    if st.pos < st.text.len() {
        assert(moved_st.text[moved_st.pos] == st.text[st.pos]);
        let c = st.text[st.pos];
        if st.pos + 1 < st.text.len() {
            assert(moved_st.text[moved_st.pos + 1] == st.text[st.pos + 1]);
        }
        if is_line_break(c) {
        } else if whitespace(c) || st.in_comment {
            lemma_skip_behind(front, st.bump());
            assert(moved_st.bump() == behind(front, st.bump()));
        }
    }
}

/// The dispatch makes behind `front` what it makes without it.
proof fn lemma_dispatch_behind(front: Seq<char>, st: State, c: char)
    requires
        st.wf(),
    ensures
        behind(front, st).dispatch(c) == (Step {
            outcome: st.dispatch(c).outcome,
            after: behind(front, st.dispatch(c).after),
        }),
{
    let m = behind(front, st);
    let n = front.len() as int;
    lemma_runs_behind(front, st.text, st.pos);
    lemma_name_end_bounds(st.text, st.pos);
    lemma_number_end_bounds(st.text, st.pos);
    assert(m.peek() == st.peek()) by {
        if st.pos < st.text.len() {
            assert(m.text[m.pos] == st.text[st.pos]);
        }
    }
    assert(m.name_tail() =~= st.name_tail());
    assert(m.number_tail() =~= st.number_tail());
    if st.pos < st.text.len() {
        lemma_runs_behind(front, st.text, st.pos + 1);
        lemma_quote_at_bounds(st.text, st.pos + 1);
        let q = quote_at(st.text, st.pos + 1);
        assert(m.bump().string_tail() =~= st.bump().string_tail());
        if q < st.text.len() {
            assert(m.text[n + q] == st.text[q]);
        }
        assert(m.after_literal() == behind(front, st.after_literal()));
        assert(m.literal() =~= st.literal());
    }
}

/// A pull yields behind `front` what it yields without it.
proof fn lemma_step_behind(front: Seq<char>, st: State)
    requires
        st.wf(),
    ensures
        behind(front, st).step() == (Step {
            outcome: st.step().outcome,
            after: behind(front, st.step().after),
        }),
{
    lemma_skip_behind(front, st);
    lemma_skip_advances(st);
    if let Some(c) = st.skip().found {
        lemma_dispatch_behind(front, st.skip().after, c);
    }
}

/// Text put before a scan changes nothing of it but the indices: from a
/// state behind the text `front`, the scan yields what it yields without
/// `front`, and stops, where it stops, as many characters later as `front`
/// has.
pub proof fn lemma_tokens_behind(front: Seq<char>, st: State)
    requires
        st.wf(),
    ensures
        behind(front, st).tokens() == moved(st.tokens(), front.len() as int),
    decreases st.text.len() - st.pos,
{
    lemma_step_behind(front, st);
    lemma_skip_behind(front, st);
    lemma_step_advances(st);
    if let Outcome::Token(_) = st.step().outcome {
        lemma_tokens_behind(front, st.step().after);
    }
}

/// Runs of identifier characters and of digits end before `back` where they
/// end without it.
proof fn lemma_runs_before(s: Seq<char>, back: Seq<char>, i: int)
    requires
        0 <= i <= s.len(),
        back.len() > 0,
        ends_lexemes(back[0]),
    ensures
        name_end(s + back, i) == name_end(s, i),
        number_end(s + back, i) == number_end(s, i),
    decreases s.len() - i,
{
    if i < s.len() {
        assert((s + back)[i] == s[i]);
        lemma_runs_before(s, back, i + 1);
    } else {
        assert((s + back)[i] == back[0]);
    }
}

/// Where the filtered advance finds a character, it finds the same with
/// `back` behind the text; where it finds none, it goes on into `back`.
proof fn lemma_skip_before(st: State, back: Seq<char>)
    requires
        st.wf(),
        back.len() > 0,
        ends_lexemes(back[0]),
    ensures
        st.skip().found is Some ==> before(st, back).skip() == (Advance {
            found: st.skip().found,
            after: before(st.skip().after, back),
        }),
        st.skip().found is None ==> before(st, back).skip() == before(
            st.at(st.text.len() as int),
            back,
        ).skip(),
    decreases st.text.len() - st.pos,
{
    let ext = before(st, back);
    if st.pos < st.text.len() {
        assert(ext.text[ext.pos] == st.text[st.pos]);
        let c = st.text[st.pos];
        if st.pos + 1 < st.text.len() {
            assert(ext.text[ext.pos + 1] == st.text[st.pos + 1]);
        } else {
            assert(ext.text[ext.pos + 1] == back[0]);
        }
        if is_line_break(c) {
        } else if whitespace(c) || st.in_comment {
            lemma_skip_before(st.bump(), back);
            assert(ext.bump() == before(st.bump(), back));
            assert(st.bump().at(st.text.len() as int) == st.at(st.text.len() as int));
        }
    } else {
        assert(st.at(st.text.len() as int) == st);
    }
}

/// The dispatch on a character that opens no string literal and no comment
/// makes with `back` behind the text what it makes without it, and stays
/// outside a comment.
proof fn lemma_dispatch_before(st: State, back: Seq<char>, c: char)
    requires
        st.wf(),
        back.len() > 0,
        ends_lexemes(back[0]),
        c != '"',
        !(c == '/' && st.peek() == Some('/')),
    ensures
        before(st, back).dispatch(c) == (Step {
            outcome: st.dispatch(c).outcome,
            after: before(st.dispatch(c).after, back),
        }),
        st.dispatch(c).after.in_comment == st.in_comment,
{
    let ext = before(st, back);
    lemma_runs_before(st.text, back, st.pos);
    lemma_name_end_bounds(st.text, st.pos);
    lemma_number_end_bounds(st.text, st.pos);
    if st.pos < st.text.len() {
        assert(ext.text[ext.pos] == st.text[st.pos]);
    } else {
        assert(ext.text[ext.pos] == back[0]);
    }
    assert(ext.name_tail() =~= st.name_tail());
    assert(ext.number_tail() =~= st.number_tail());
}

/// Text put behind a lexeme boundary changes nothing of the scan before it:
/// where a character that ends every lexeme stands first in `back`, a scan
/// outside a comment of a plain text with `back` behind it yields what the
/// scan of the plain text yields, and then what the scan yields from the
/// start of `back` on.
pub proof fn lemma_tokens_before(st: State, back: Seq<char>)
    requires
        st.wf(),
        !st.in_comment,
        plain(st.text),
        back.len() > 0,
        ends_lexemes(back[0]),
    ensures
        before(st, back).tokens() == followed_by(
            st.tokens(),
            before(st.at(st.text.len() as int), back).tokens(),
        ),
    decreases st.text.len() - st.pos,
{
    let ext = before(st, back);
    let end = before(st.at(st.text.len() as int), back);
    lemma_skip_before(st, back);
    lemma_skip_advances(st);
    lemma_skip_finds_last(st);
    lemma_step_advances(st);
    let adv = st.skip();
    match adv.found {
        None => {
            assert(ext.step().outcome == end.step().outcome);
            assert(ext.step().outcome is Token ==> ext.step().after == end.step().after);
            assert(ext.tokens() == end.tokens());
            assert(st.tokens() == complete(Seq::empty()));
            if let Ok(rest) = end.tokens() {
                assert(Seq::<TokenView>::empty() + rest =~= rest);
            }
        },
        Some(c) => {
            let s = adv.after;
            if !is_line_break(c) {
                assert(c == st.text[s.pos - 1]);
            }
            assert(c != '"');
            if c == '/' && s.peek() == Some('/') {
                assert(st.text[s.pos - 1] == '/' && st.text[s.pos - 1 + 1] == '/');
            }
            lemma_dispatch_before(s, back, c);
            assert(ext.step().outcome == st.step().outcome);
            match st.step().outcome {
                Outcome::Token(t) => {
                    let next = st.step().after;
                    assert(ext.step().after == before(next, back));
                    lemma_tokens_before(next, back);
                    assert(next.at(st.text.len() as int) == st.at(st.text.len() as int));
                    if let Ok(first) = next.tokens() {
                        if let Ok(rest) = end.tokens() {
                            assert(seq![t] + (first + rest) =~= (seq![t] + first) + rest);
                        }
                    }
                },
                Outcome::Overflow => {
                    assert(ext.dispatch_index() == st.dispatch_index());
                },
                Outcome::End => {},
            }
        },
    }
}

/// Order is kept across a blank, and no token depends on text behind the
/// blank that ends it: where `a` is a plain text and `w` is whitespace that
/// starts no line ending and ends every lexeme, the scan of `a`, `w` and
/// `b` in a row yields the tokens of `a` and then the tokens of `b`.
pub proof fn lemma_tokens_across_blank(a: Seq<char>, w: char, b: Seq<char>)
    requires
        plain(a),
        whitespace(w),
        !is_line_break(w),
        ends_lexemes(w),
    ensures
        tokens_of(a + seq![w] + b) == followed_by(
            tokens_of(a),
            moved(tokens_of(b), (a.len() + 1) as int),
        ),
{
    let back = seq![w] + b;
    let front = a + seq![w];
    let whole = a + seq![w] + b;
    assert(whole =~= a + back);
    assert(whole =~= front + b);
    let st = State::start(a);
    lemma_tokens_before(st, back);
    let at_blank = before(st.at(a.len() as int), back);
    let after_blank = behind(front, State::start(b));
    assert(at_blank.text == whole);
    assert(after_blank.text == whole);
    assert(at_blank.text[at_blank.pos] == w);
    assert(at_blank.bump() == after_blank);
    assert(at_blank.skip() == after_blank.skip());
    assert(at_blank.step().outcome == after_blank.step().outcome);
    assert(at_blank.step().outcome is Token ==> at_blank.step().after
        == after_blank.step().after);
    assert(at_blank.tokens() == after_blank.tokens());
    lemma_tokens_behind(front, State::start(b));
    assert(before(st, back) == State::start(whole));
}

} // verus!
