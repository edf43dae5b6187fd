//! The scanner.
//!
//! A [`Lexer`] owns the characters of one buffer of text, the position of the
//! next unread character and one flag that says whether it stands inside a
//! line comment. Tokens are pulled from it one at a time, with
//! [`Lexer::next`] or [`Lexer::try_next`], or all at once, with
//! [`Lexer::tokens`] or [`tokenize`].
//!
//! A run of decimal digits whose value is above the largest 64-bit signed
//! integer is the one thing that the scanner cannot make a token of.
//! [`Lexer::next`] leaves such text to its caller, who must not pull where
//! one stands next; the other three report it as a [`ScanError`] and consume
//! nothing of it.

use vstd::prelude::*;
use vstd::std_specs::iter::IteratorSpec;

pub mod chars;
pub mod composition;
pub mod laws;
pub mod model;
pub mod number;
pub mod token;

use crate::lexer::chars::{is_line_break, string_of, whitespace};
use crate::lexer::model::{
    complete, lemma_skip_advances, lemma_step_advances, name_end, number_end, quote_at, stopped,
    tokens_of, Advance, Outcome, State,
};
use crate::lexer::number::{i64_of, is_decimal_digit, parse_i64, parse_i64_in};
use crate::lexer::token::{Token, TokenView};

verus! {

/// Why a scan stops before the end of its text.
#[derive(Debug, Clone, Copy, PartialEq, Eq)]
pub enum ScanError {
    /// The number literal whose first digit stands at index `position` of
    /// the text is above the largest 64-bit signed integer.
    NumberOverflow { position: usize },
}

/// A scanner over one buffer of text.
pub struct Lexer {
    input: Vec<char>,
    pos: usize,
    on_comment: bool,
}

impl View for Lexer {
    type V = State;

    closed spec fn view(&self) -> State {
        State { text: self.input@, pos: self.pos as int, in_comment: self.on_comment }
    }
}

impl Lexer {
    #[verifier::type_invariant]
    spec fn within_text(self) -> bool {
        self.pos <= self.input.len()
    }

    /// A scanner at the start of `input`, outside any comment.
    pub fn new(input: &String) -> (lexer: Lexer)
        ensures
            lexer@ == State::start(input@),
    {
        broadcast use vstd::string::group_string_axioms;

        let mut chars: Vec<char> = Vec::new();
        let mut rest = input.as_str().chars();
        loop
            invariant
                chars@ + rest.remaining() == input@,
                rest.decrease() is Some,
            ensures
                chars@ == input@,
            decreases rest.decrease()->0,
        {
            match rest.next() {
                Some(c) => {
                    chars.push(c);
                },
                None => {
                    break ;
                },
            }
        }
        Lexer { input: chars, pos: 0, on_comment: false }
    }

    /// The next unread character, which stays unread.
    fn peek_char(&self) -> (c: Option<char>)
        ensures
            c == self@.peek(),
    {
        proof {
            use_type_invariant(self);
        }
        if self.pos < self.input.len() {
            Some(self.input[self.pos])
        } else {
            None
        }
    }

    /// Consumes the next unread character, whatever it is.
    fn next_char(&mut self) -> (c: Option<char>)
        ensures
            c == old(self)@.peek(),
            final(self)@ == old(self)@.bump(),
    {
        proof {
            use_type_invariant(&*self);
        }
        if self.pos < self.input.len() {
            let c = self.input[self.pos];
            self.pos = self.pos + 1;
            Some(c)
        } else {
            None
        }
    }

    /// The filtered advance: consumes up to and with the next significant
    /// character and returns it.
    fn skip(&mut self) -> (found: Option<char>)
        ensures
            (Advance { found, after: final(self)@ }) == old(self)@.skip(),
    {
        loop
            invariant
                self@.skip() == old(self)@.skip(),
            decreases self@.text.len() - self@.pos,
        {
            proof {
                use_type_invariant(&*self);
            }
            match self.next_char() {
                None => {
                    return None;
                },
                Some(chr) => {
                    if self.is_line_ending(chr) {
                        self.on_comment = false;
                        return Some(chr);
                    }
                    if !chr.is_whitespace() && !self.on_comment {
                        return Some(chr);
                    }
                },
            }
        }
    }

    /// Consumes one character and hands `token` back.
    fn skip_and_return(&mut self, token: Token) -> (r: Token)
        ensures
            r == token,
            final(self)@ == old(self)@.bump(),
    {
        self.next_char();
        token
    }

    /// After a `/`: a second `/` that stands next is consumed and opens a
    /// comment; anything else stays unread, and the `/` is a token by itself.
    fn handle_slash(&mut self) -> (r: Token)
        ensures
            r@ == if old(self)@.peek() == Some('/') {
                TokenView::Comment
            } else {
                TokenView::Slash
            },
            final(self)@ == if old(self)@.peek() == Some('/') {
                old(self)@.bump().with_comment(true)
            } else {
                old(self)@
            },
    {
        if let Some('/') = self.peek_char() {
            self.next_char();
            self.on_comment = true;
            return Token::Comment;
        }
        return Token::Slash;
    }

    /// After a `=`: a second `=` that stands next is consumed and makes the
    /// two an equality sign; anything else stays unread.
    fn handle_equal(&mut self) -> (r: Token)
        ensures
            r@ == if old(self)@.peek() == Some('=') {
                TokenView::Equal
            } else {
                TokenView::Assign
            },
            final(self)@ == old(self)@.eat('='),
    {
        match self.peek_char() {
            Some('=') => self.skip_and_return(Token::Equal),
            _ => Token::Assign,
        }
    }

    /// After a `.`: a `=` that stands next is consumed and makes the two a
    /// constant assignment; anything else stays unread.
    fn handle_dot(&mut self) -> (r: Token)
        ensures
            r@ == if old(self)@.peek() == Some('=') {
                TokenView::ConstAssign
            } else {
                TokenView::Dot
            },
            final(self)@ == old(self)@.eat('='),
    {
        match self.peek_char() {
            Some('=') => self.skip_and_return(Token::ConstAssign),
            _ => Token::Dot,
        }
    }

    /// After a carriage return: a line feed that stands next is consumed,
    /// and the two are one line break; anything else stays unread.
    fn handle_cr(&mut self) -> (r: Token)
        ensures
            r@ == TokenView::Endline,
            final(self)@ == old(self)@.eat('\n'),
    {
        match self.peek_char() {
            Some('\n') => self.skip_and_return(Token::Endline),
            _ => Token::Endline,
        }
    }

    /// Whether `chr` starts a line ending; if it does, a line feed that
    /// stands next is consumed with it.
    fn is_line_ending(&mut self, chr: char) -> (r: bool)
        ensures
            r == is_line_break(chr),
            final(self)@ == if r {
                old(self)@.eat('\n')
            } else {
                old(self)@
            },
    {
        if chr == '\n' || chr == '\r' {
            if let Some('\n') = self.peek_char() {
                self.next_char();
            }
            return true;
        }
        return false;
    }

    /// Assembles an identifier: `ch` holds what was read of it so far, and
    /// every identifier character that follows is appended and consumed.
    pub fn build_name(&mut self, ch: Vec<char>) -> (name: String)
        ensures
            name@ == ch@ + old(self)@.name_tail(),
            final(self)@ == old(self)@.after_name(),
    {
        let mut ch = ch;
        let ghost begun = ch@;
        proof {
            use_type_invariant(&*self);
            assert(ch@ =~= begun + self@.text.subrange(self@.pos, self@.pos));
        }
        loop
            invariant
                self@.text == old(self)@.text,
                self@.in_comment == old(self)@.in_comment,
                old(self)@.pos <= self@.pos <= self@.text.len(),
                name_end(self@.text, self@.pos) == name_end(self@.text, old(self)@.pos),
                ch@ == begun + self@.text.subrange(old(self)@.pos, self@.pos),
            ensures
                self@.pos == name_end(self@.text, old(self)@.pos),
            decreases self@.text.len() - self@.pos,
        {
            match self.peek_char() {
                Some(c) if c.is_alphanumeric() || c == '_' => {
                    self.next_char();
                    ch.push(c);
                    assert(ch@ =~= begun + self@.text.subrange(old(self)@.pos, self@.pos));
                },
                _ => {
                    break ;
                },
            }
        }
        string_of(&ch)
    }

    /// Assembles the text of a number: `ch` holds what was read of it so
    /// far, and every decimal digit that follows is appended and consumed,
    /// up to the first character that is none, which stays unread.
    pub fn build_numerical_string(&mut self, ch: Vec<char>) -> (number: String)
        ensures
            number@ == ch@ + old(self)@.number_tail(),
            final(self)@ == old(self)@.after_number(),
    {
        let digits = self.take_number(ch);
        string_of(&digits)
    }

    /// The characters of a number: `ch`, then every decimal digit that
    /// follows, each consumed.
    fn take_number(&mut self, ch: Vec<char>) -> (digits: Vec<char>)
        ensures
            digits@ == ch@ + old(self)@.number_tail(),
            final(self)@ == old(self)@.after_number(),
    {
        let mut ch = ch;
        let ghost begun = ch@;
        proof {
            use_type_invariant(&*self);
            assert(ch@ =~= begun + self@.text.subrange(self@.pos, self@.pos));
        }
        loop
            invariant
                self@.text == old(self)@.text,
                self@.in_comment == old(self)@.in_comment,
                old(self)@.pos <= self@.pos <= self@.text.len(),
                number_end(self@.text, self@.pos) == number_end(self@.text, old(self)@.pos),
                ch@ == begun + self@.text.subrange(old(self)@.pos, self@.pos),
            ensures
                self@.pos == number_end(self@.text, old(self)@.pos),
            decreases self@.text.len() - self@.pos,
        {
            match self.peek_char() {
                Some(c) if is_decimal_digit(c) => {
                    self.next_char();
                    ch.push(c);
                    assert(ch@ =~= begun + self@.text.subrange(old(self)@.pos, self@.pos));
                },
                _ => {
                    break ;
                },
            }
        }
        ch
    }

    /// Assembles a number and reads it as a 64-bit signed integer: `ch`
    /// holds what was read of it so far, and every decimal digit that
    /// follows is appended and consumed.
    ///
    /// The characters so assembled must denote such an integer.
    pub fn build_number(&mut self, ch: Vec<char>) -> (n: i64)
        requires
            i64_of(ch@ + old(self)@.number_tail()) is Some,
        ensures
            Some(n) == i64_of(ch@ + old(self)@.number_tail()),
            final(self)@ == old(self)@.after_number(),
    {
        let digits = self.take_number(ch);
        parse_i64(&digits).unwrap()
    }

    /// Assembles the rest of a string literal: `ch` holds what was read of
    /// it so far, and every character up to the next `"` is appended and
    /// consumed; the `"` itself is consumed and dropped.
    pub fn build_string(&mut self, ch: Vec<char>) -> (string: String)
        ensures
            string@ == ch@ + old(self)@.string_tail(),
            final(self)@ == old(self)@.after_string(),
    {
        let mut ch = ch;
        let ghost begun = ch@;
        proof {
            use_type_invariant(&*self);
            assert(ch@ =~= begun + self@.text.subrange(self@.pos, self@.pos));
        }
        loop
            invariant_except_break
                self@.text == old(self)@.text,
                self@.in_comment == old(self)@.in_comment,
                old(self)@.pos <= self@.pos <= self@.text.len(),
                quote_at(self@.text, self@.pos) == quote_at(self@.text, old(self)@.pos),
                ch@ == begun + self@.text.subrange(old(self)@.pos, self@.pos),
            ensures
                self@ == old(self)@.after_string(),
                ch@ == begun + old(self)@.string_tail(),
            decreases self@.text.len() - self@.pos,
        {
            match self.peek_char() {
                None => {
                    break ;
                },
                Some(c) => {
                    self.next_char();
                    if c == '"' {
                        break ;
                    }
                    ch.push(c);
                    assert(ch@ =~= begun + self@.text.subrange(old(self)@.pos, self@.pos));
                },
            }
        }
        string_of(&ch)
    }

    /// Reads the string literal whose opening quote has just been consumed.
    pub fn read_string(&mut self) -> (token: Token)
        ensures
            token@ == TokenView::Str(old(self)@.literal()),
            final(self)@ == old(self)@.after_literal(),
    {
        let first_char = self.next_char();
        match first_char {
            None => Token::Str(String::new()),
            Some(c) => {
                let begun = vec![c];
                assert(begun@ =~= seq![c]);
                Token::Str(self.build_string(begun))
            },
        }
    }

    /// Pulls the next token, or `None` at the end of the text.
    ///
    /// No number too large for a 64-bit signed integer may stand next;
    /// [`Lexer::try_next`] asks nothing and reports one.
    pub fn next(&mut self) -> (token: Option<Token>)
        requires
            !old(self)@.overflow_ahead(),
        ensures
            final(self)@ == old(self)@.step().after,
            match token {
                Some(t) => old(self)@.step().outcome == Outcome::Token(t@),
                None => old(self)@.step().outcome is End,
            },
    {
        let ch = self.skip();
        match ch {
            Some('?') => Some(Token::QuestionMark),
            Some('=') => Some(self.handle_equal()),
            Some(',') => Some(Token::Comma),
            Some('.') => Some(self.handle_dot()),
            Some(';') => Some(Token::Semicolon),
            Some('"') => Some(self.read_string()),
            Some('\'') => Some(Token::Quote),
            Some('\r') => Some(self.handle_cr()),
            Some('\n') => Some(Token::Endline),
            Some('/') => Some(self.handle_slash()),
            Some('(') => Some(Token::OpenParen),
            Some(')') => Some(Token::CloseParen),
            Some(chr) => {
                if chr.is_alphabetic() || chr == '_' {
                    let begun = vec![chr];
                    assert(begun@ =~= seq![chr]);
                    Some(Token::Name(self.build_name(begun)))
                } else if is_decimal_digit(chr) {
                    let begun = vec![chr];
                    assert(begun@ =~= seq![chr]);
                    Some(Token::Number(self.build_number(begun)))
                } else {
                    Some(Token::StrangeChar(chr))
                }
            },
            None => None,
        }
    }

    /// Looks ahead, consuming nothing: where the next pull would meet a
    /// number too large, the index of its first digit.
    pub fn overflow_ahead(&self) -> (at: Option<usize>)
        ensures
            at is Some <==> self@.overflow_ahead(),
            at matches Some(position) ==> position == self@.dispatch_index(),
    {
        proof {
            use_type_invariant(self);
        }
        let mut i: usize = self.pos;
        loop
            invariant
                self.pos <= i <= self.input.len(),
                self@.at(i as int).skip() == self@.skip(),
            ensures
                i < self.input.len(),
                !is_line_break(self.input[i as int]),
                !whitespace(self.input[i as int]),
                !self.on_comment,
            decreases self.input.len() - i,
        {
            if i >= self.input.len() {
                return None;
            }
            let c = self.input[i];
            if c == '\n' || c == '\r' {
                return None;
            } else if c.is_whitespace() || self.on_comment {
                i = i + 1;
            } else {
                break ;
            }
        }
        let c = self.input[i];
        if c == '?' || c == '=' || c == ',' || c == '.' || c == ';' || c == '"' || c == '\''
            || c == '/' || c == '(' || c == ')' || c.is_alphabetic() || c == '_'
            || !is_decimal_digit(c) {
            return None;
        }
        let mut j: usize = i + 1;
        while j < self.input.len() && is_decimal_digit(self.input[j])
            invariant
                i < j <= self.input.len(),
                number_end(self.input@, j as int) == number_end(self.input@, i + 1),
            decreases self.input.len() - j,
        {
            j = j + 1;
        }
        assert(self.input@.subrange(i as int, j as int) =~= seq![c] + self.input@.subrange(
            i + 1,
            j as int,
        ));
        match parse_i64_in(&self.input, i, j) {
            Some(_) => None,
            None => Some(i),
        }
    }

    /// Pulls the next token, or `Ok(None)` at the end of the text. Before a
    /// number too large it fails and consumes nothing.
    pub fn try_next(&mut self) -> (pulled: Result<Option<Token>, ScanError>)
        ensures
            match pulled {
                Ok(Some(t)) => old(self)@.step().outcome == Outcome::Token(t@),
                Ok(None) => old(self)@.step().outcome is End,
                Err(ScanError::NumberOverflow { position }) => {
                    &&& old(self)@.overflow_ahead()
                    &&& old(self)@.dispatch_index() == position
                },
            },
            final(self)@ == old(self)@.step().after,
    {
        match self.overflow_ahead() {
            Some(position) => Err(ScanError::NumberOverflow { position }),
            None => Ok(self.next()),
        }
    }

    /// Pulls every token that is left, in order. Where a number too large
    /// stands in the way it fails, with the scanner left before that number.
    pub fn tokens(&mut self) -> (all: Result<Vec<Token>, ScanError>)
        ensures
            final(self)@.text == old(self)@.text,
            match all {
                Ok(found) => {
                    &&& old(self)@.tokens() == complete(found.deep_view())
                    &&& final(self)@.step().outcome is End
                },
                Err(ScanError::NumberOverflow { position }) => {
                    &&& old(self)@.tokens() == stopped(position as int)
                    &&& final(self)@.overflow_ahead()
                    &&& final(self)@.dispatch_index() == position
                },
            },
    {
        let mut found: Vec<Token> = Vec::new();
        proof {
            use_type_invariant(&*self);
            assert(found.deep_view() =~= Seq::<TokenView>::empty());
        }
        loop
            invariant
                self@.text == old(self)@.text,
                self@.wf(),
                old(self)@.tokens() == match self@.tokens() {
                    Ok(rest) => complete(found.deep_view() + rest),
                    Err(at) => stopped(at),
                },
            decreases self@.text.len() - self@.pos,
        {
            let ghost before = self@;
            let ghost seen = found.deep_view();
            proof {
                lemma_step_advances(before);
                lemma_skip_advances(before);
            }
            match self.try_next() {
                Err(e) => {
                    return Err(e);
                },
                Ok(None) => {
                    assert(seen + Seq::<TokenView>::empty() =~= seen);
                    return Ok(found);
                },
                Ok(Some(t)) => {
                    found.push(t);
                    proof {
                        assert(found.deep_view() =~= seen.push(t@));
                        if let Ok(rest) = self@.tokens() {
                            assert(seen + (seq![t@] + rest) =~= found.deep_view() + rest);
                        }
                    }
                },
            }
        }
    }
}

/// Scans `input` from its start to its end.
pub fn tokenize(input: &String) -> (all: Result<Vec<Token>, ScanError>)
    ensures
        match all {
            Ok(found) => tokens_of(input@) == complete(found.deep_view()),
            Err(ScanError::NumberOverflow { position }) => tokens_of(input@) == stopped(
                position as int,
            ),
        },
{
    let mut lexer = Lexer::new(input);
    lexer.tokens()
}

} // verus!
