//! The mathematical model of a scan.
//!
//! A scan is described over a [`State`]: the whole text as a sequence of
//! characters, the index of the next unread character, and the comment flag.
//! Every function here is a pure function of such a state; the executable
//! scanner is proved to compute exactly these functions.

use vstd::prelude::*;
use crate::lexer::chars::{alphabetic, is_line_break, numeric, whitespace};
use crate::lexer::number::{all_digits, i64_of, is_digit};
use crate::lexer::token::TokenView;

verus! {

/// The state of a scan.
pub struct State {
    /// The text being scanned, from its first character.
    pub text: Seq<char>,
    /// How many characters have been consumed.
    pub pos: int,
    /// Whether the scan is inside a line comment.
    pub in_comment: bool,
}

/// What the filtered advance finds: the next significant character, if there
/// is one, and the state in which it leaves the scan.
pub struct Advance {
    pub found: Option<char>,
    pub after: State,
}

/// What one pull of a token yields.
pub enum Outcome {
    /// The text is exhausted.
    End,
    /// A token.
    Token(TokenView),
    /// A run of decimal digits stands next whose value is above the largest
    /// 64-bit signed integer.
    Overflow,
}

/// One pull of a token: its outcome and the state it leaves behind.
pub struct Step {
    pub outcome: Outcome,
    pub after: State,
}

/// What a scan to the end of the text comes to: its tokens in order, or the
/// index of the first digit of the number too large at which it stops.
pub type Scan = Result<Seq<TokenView>, int>;

/// The scan that runs to the end of the text and yields `tokens`.
pub open spec fn complete(tokens: Seq<TokenView>) -> Scan {
    Ok(tokens)
}

/// The scan that stops at the number too large whose first digit stands at
/// index `at`.
pub open spec fn stopped(at: int) -> Scan {
    Err(at)
}

/// Characters that may follow the first character of an identifier.
pub open spec fn continues_name(c: char) -> bool {
    alphabetic(c) || numeric(c) || c == '_'
}

/// Characters that begin an identifier.
pub open spec fn starts_name(c: char) -> bool {
    alphabetic(c) || c == '_'
}

/// Characters that the dispatch recognises by themselves, before it asks for
/// the class of a character.
pub open spec fn is_punctuation(c: char) -> bool {
    c == '?' || c == '=' || c == ',' || c == '.' || c == ';' || c == '"' || c == '\'' || c == '\r'
        || c == '\n' || c == '/' || c == '(' || c == ')'
}

/// The end of the run of identifier characters that starts at index `i` of
/// `s`: the least index from `i` on that holds no such character, or the
/// length of `s`.
pub open spec fn name_end(s: Seq<char>, i: int) -> int
    decreases s.len() - i,
{
    if 0 <= i < s.len() && continues_name(s[i]) {
        name_end(s, i + 1)
    } else {
        i
    }
}

/// The end of the run of decimal digits that starts at index `i` of `s`: the
/// least index from `i` on that holds no decimal digit, or the length of `s`.
pub open spec fn number_end(s: Seq<char>, i: int) -> int
    decreases s.len() - i,
{
    if 0 <= i < s.len() && is_digit(s[i]) {
        number_end(s, i + 1)
    } else {
        i
    }
}

/// The index of the first `"` of `s` from index `i` on, or the length of `s`
/// where there is none.
pub open spec fn quote_at(s: Seq<char>, i: int) -> int
    decreases s.len() - i,
{
    if 0 <= i < s.len() && s[i] != '"' {
        quote_at(s, i + 1)
    } else {
        i
    }
}

impl State {
    /// The state in which a scan of `text` begins.
    pub open spec fn start(text: Seq<char>) -> State {
        State { text, pos: 0, in_comment: false }
    }

    /// The position lies within the text or at its end.
    pub open spec fn wf(self) -> bool {
        0 <= self.pos <= self.text.len()
    }

    /// The next unread character, if there is one.
    pub open spec fn peek(self) -> Option<char> {
        if 0 <= self.pos < self.text.len() {
            Some(self.text[self.pos])
        } else {
            None
        }
    }

    /// The same scan at position `pos`.
    pub open spec fn at(self, pos: int) -> State {
        State { pos, ..self }
    }

    /// The same scan with the comment flag set to `in_comment`.
    pub open spec fn with_comment(self, in_comment: bool) -> State {
        State { in_comment, ..self }
    }

    /// The state after the next character is consumed, whatever it is; the
    /// same state at the end of the text.
    pub open spec fn bump(self) -> State {
        if self.peek() is Some {
            self.at(self.pos + 1)
        } else {
            self
        }
    }

    /// The state after the next character is consumed if it is `c`; the same
    /// state otherwise.
    pub open spec fn eat(self, c: char) -> State {
        if self.peek() == Some(c) {
            self.at(self.pos + 1)
        } else {
            self
        }
    }

    /// The filtered advance.
    ///
    /// At the end of the text nothing is found and nothing changes. A
    /// character that starts a line ending is found: it is consumed together
    /// with a line feed that follows it directly, and the comment flag is
    /// cleared. Any other character is discarded where it is whitespace or
    /// the scan is inside a comment, and the advance goes on behind it.
    /// Otherwise the character is consumed and found.
    pub open spec fn skip(self) -> Advance
        decreases self.text.len() - self.pos,
    {
        match self.peek() {
            None => Advance { found: None, after: self },
            Some(c) => if is_line_break(c) {
                Advance { found: Some(c), after: self.bump().eat('\n').with_comment(false) }
            } else if whitespace(c) || self.in_comment {
                self.bump().skip()
            } else {
                Advance { found: Some(c), after: self.bump() }
            },
        }
    }

    /// The state after an identifier whose later characters start here.
    pub open spec fn after_name(self) -> State {
        self.at(name_end(self.text, self.pos))
    }

    /// The characters of the identifier tail that starts here.
    pub open spec fn name_tail(self) -> Seq<char> {
        self.text.subrange(self.pos, name_end(self.text, self.pos))
    }

    /// The state after a number whose later characters start here.
    pub open spec fn after_number(self) -> State {
        self.at(number_end(self.text, self.pos))
    }

    /// The decimal digits that stand here, up to the first character that is
    /// none.
    pub open spec fn number_tail(self) -> Seq<char> {
        self.text.subrange(self.pos, number_end(self.text, self.pos))
    }

    /// The characters of a string literal from here up to its closing quote
    /// or the end of the text.
    pub open spec fn string_tail(self) -> Seq<char> {
        self.text.subrange(self.pos, quote_at(self.text, self.pos))
    }

    /// The state after the rest of a string literal: behind its closing
    /// quote, or at the end of the text where there is none.
    pub open spec fn after_string(self) -> State {
        self.at(quote_at(self.text, self.pos)).eat('"')
    }

    /// The contents of the string literal whose opening quote has just been
    /// consumed. Its first character belongs to it whatever it is, a quote
    /// included; the rest runs up to the next quote.
    pub open spec fn literal(self) -> Seq<char> {
        match self.peek() {
            None => Seq::empty(),
            Some(c) => seq![c] + self.bump().string_tail(),
        }
    }

    /// The state after the string literal whose opening quote has just been
    /// consumed.
    pub open spec fn after_literal(self) -> State {
        match self.peek() {
            None => self,
            Some(_) => self.bump().after_string(),
        }
    }

    /// The digits of the number literal whose first digit `c` has just been
    /// consumed.
    pub open spec fn digits(self, c: char) -> Seq<char> {
        seq![c] + self.number_tail()
    }

    /// What the dispatch makes of the significant character `c`, which has
    /// just been consumed, in the state `self` behind it.
    pub open spec fn dispatch(self, c: char) -> Step {
        if c == '?' {
            Step { outcome: Outcome::Token(TokenView::QuestionMark), after: self }
        } else if c == '=' {
            if self.peek() == Some('=') {
                Step { outcome: Outcome::Token(TokenView::Equal), after: self.bump() }
            } else {
                Step { outcome: Outcome::Token(TokenView::Assign), after: self }
            }
        } else if c == ',' {
            Step { outcome: Outcome::Token(TokenView::Comma), after: self }
        } else if c == '.' {
            if self.peek() == Some('=') {
                Step { outcome: Outcome::Token(TokenView::ConstAssign), after: self.bump() }
            } else {
                Step { outcome: Outcome::Token(TokenView::Dot), after: self }
            }
        } else if c == ';' {
            Step { outcome: Outcome::Token(TokenView::Semicolon), after: self }
        } else if c == '"' {
            Step {
                outcome: Outcome::Token(TokenView::Str(self.literal())),
                after: self.after_literal(),
            }
        } else if c == '\'' {
            Step { outcome: Outcome::Token(TokenView::Quote), after: self }
        } else if c == '\r' {
            Step { outcome: Outcome::Token(TokenView::Endline), after: self.eat('\n') }
        } else if c == '\n' {
            Step { outcome: Outcome::Token(TokenView::Endline), after: self }
        } else if c == '/' {
            if self.peek() == Some('/') {
                Step {
                    outcome: Outcome::Token(TokenView::Comment),
                    after: self.bump().with_comment(true),
                }
            } else {
                Step { outcome: Outcome::Token(TokenView::Slash), after: self }
            }
        } else if c == '(' {
            Step { outcome: Outcome::Token(TokenView::OpenParen), after: self }
        } else if c == ')' {
            Step { outcome: Outcome::Token(TokenView::CloseParen), after: self }
        } else if starts_name(c) {
            Step {
                outcome: Outcome::Token(TokenView::Name(seq![c] + self.name_tail())),
                after: self.after_name(),
            }
        } else if is_digit(c) {
            match i64_of(self.digits(c)) {
                Some(n) => Step {
                    outcome: Outcome::Token(TokenView::Number(n)),
                    after: self.after_number(),
                },
                None => Step { outcome: Outcome::Overflow, after: self },
            }
        } else {
            Step { outcome: Outcome::Token(TokenView::StrangeChar(c)), after: self }
        }
    }

    /// One pull of a token: the filtered advance, then the dispatch on what
    /// it found. Before a number too large the state stays as it is.
    pub open spec fn step(self) -> Step {
        let adv = self.skip();
        match adv.found {
            None => Step { outcome: Outcome::End, after: adv.after },
            Some(c) => {
                let made = adv.after.dispatch(c);
                if made.outcome is Overflow {
                    Step { outcome: Outcome::Overflow, after: self }
                } else {
                    made
                }
            },
        }
    }

    /// Whether the next pull meets a number too large.
    pub open spec fn overflow_ahead(self) -> bool {
        self.step().outcome is Overflow
    }

    /// The index of the character on which the next pull dispatches: the
    /// last one that the filtered advance consumes where it finds a
    /// character that starts no line ending.
    pub open spec fn dispatch_index(self) -> int {
        self.skip().after.pos - 1
    }

    /// All the tokens of the rest of the scan, in order; where the scan
    /// meets a number too large, the index of the first digit of the first
    /// such number.
    pub open spec fn tokens(self) -> Scan
        decreases self.text.len() - self.pos,
    {
        let made = self.step();
        match made.outcome {
            Outcome::End => Ok(Seq::empty()),
            Outcome::Overflow => Err(self.dispatch_index()),
            Outcome::Token(t) => {
                proof {
                    lemma_step_advances(self);
                }
                match made.after.tokens() {
                    Ok(rest) => Ok(seq![t] + rest),
                    Err(at) => Err(at),
                }
            },
        }
    }
}

/// All the tokens of `text`, scanned from its start; where the scan meets a
/// number too large, the index of the first digit of the first such number.
pub open spec fn tokens_of(text: Seq<char>) -> Scan {
    State::start(text).tokens()
}

/// A run of identifier characters ends at or behind its start, within the
/// text.
pub proof fn lemma_name_end_bounds(s: Seq<char>, i: int)
    requires
        0 <= i <= s.len(),
    ensures
        i <= name_end(s, i) <= s.len(),
    decreases s.len() - i,
{
    if i < s.len() && continues_name(s[i]) {
        lemma_name_end_bounds(s, i + 1);
    }
}

/// A run of decimal digits ends at or behind its start, within the text.
pub proof fn lemma_number_end_bounds(s: Seq<char>, i: int)
    requires
        0 <= i <= s.len(),
    ensures
        i <= number_end(s, i) <= s.len(),
    decreases s.len() - i,
{
    if i < s.len() && is_digit(s[i]) {
        lemma_number_end_bounds(s, i + 1);
    }
}

/// A run of decimal digits holds decimal digits only.
pub proof fn lemma_number_run_is_digits(s: Seq<char>, i: int)
    requires
        0 <= i <= s.len(),
    ensures
        all_digits(s.subrange(i, number_end(s, i))),
    decreases s.len() - i,
{
    lemma_number_end_bounds(s, i);
    if i < s.len() && is_digit(s[i]) {
        lemma_number_run_is_digits(s, i + 1);
        lemma_number_end_bounds(s, i + 1);
        let run = s.subrange(i, number_end(s, i));
        let rest = s.subrange(i + 1, number_end(s, i + 1));
        assert forall|k: int| 0 <= k < run.len() implies is_digit(#[trigger] run[k]) by {
            if k > 0 {
                assert(run[k] == rest[k - 1]);
            }
        }
    }
}

/// The next quote stands at or behind the index from which it is sought,
/// within the text.
pub proof fn lemma_quote_at_bounds(s: Seq<char>, i: int)
    requires
        0 <= i <= s.len(),
    ensures
        i <= quote_at(s, i) <= s.len(),
    decreases s.len() - i,
{
    if i < s.len() && s[i] != '"' {
        lemma_quote_at_bounds(s, i + 1);
    }
}

/// The filtered advance keeps the text and never moves backwards. Where it
/// finds a character it has consumed at least that one and left any comment
/// behind; where it finds none it has consumed the whole text and kept the
/// comment flag.
pub proof fn lemma_skip_advances(st: State)
    ensures
        st.skip().after.text == st.text,
        st.skip().found is Some ==> 0 <= st.pos < st.skip().after.pos <= st.text.len()
            && !st.skip().after.in_comment,
        st.skip().found is None ==> st.skip().after.in_comment == st.in_comment,
        st.skip().found is None && st.wf() ==> st.skip().after.pos == st.text.len(),
    decreases st.text.len() - st.pos,
{
    match st.peek() {
        None => {},
        Some(c) => {
            if is_line_break(c) {
            } else if whitespace(c) || st.in_comment {
                lemma_skip_advances(st.bump());
            }
        },
    }
}

/// The dispatch keeps the text and never moves backwards.
pub proof fn lemma_dispatch_advances(st: State, c: char)
    requires
        st.wf(),
    ensures
        st.dispatch(c).after.text == st.text,
        st.pos <= st.dispatch(c).after.pos <= st.text.len(),
{
    lemma_name_end_bounds(st.text, st.pos);
    lemma_number_end_bounds(st.text, st.pos);
    if st.peek() is Some {
        lemma_quote_at_bounds(st.text, st.pos + 1);
    }
}

/// A pull that yields a token consumes at least one character and keeps the
/// text; every pull leaves the position within the text.
pub proof fn lemma_step_advances(st: State)
    ensures
        st.step().after.text == st.text,
        st.step().outcome is Token ==> 0 <= st.pos < st.step().after.pos <= st.text.len(),
        st.step().outcome is Overflow ==> st.step().after == st,
        st.wf() ==> st.step().after.wf(),
{
    lemma_skip_advances(st);
    let adv = st.skip();
    if let Some(c) = adv.found {
        lemma_dispatch_advances(adv.after, c);
    }
}

} // verus!
