//! Tokens and their mathematical view.

use vstd::prelude::*;

verus! {

/// One lexical unit of the source text.
#[derive(Debug, PartialEq, Eq)]
pub enum Token {
    /// `?`
    QuestionMark,
    /// `==`
    Equal,
    /// `=` that is not followed by a second `=`
    Assign,
    /// `,`
    Comma,
    /// `.` that is not followed by `=`
    Dot,
    /// `.=`
    ConstAssign,
    /// `;`
    Semicolon,
    /// The contents of a double-quoted string, without the quotes.
    Str(String),
    /// A bare `'`
    Quote,
    /// One logical line break.
    Endline,
    /// The `//` that opens a line comment.
    Comment,
    /// `/` that is not followed by a second `/`
    Slash,
    /// `(`
    OpenParen,
    /// `)`
    CloseParen,
    /// An identifier.
    Name(String),
    /// A run of decimal digits, as an integer.
    Number(i64),
    /// Any character that starts no other token.
    StrangeChar(char),
}

/// The value of a [`Token`] with its text as a sequence of characters.
pub enum TokenView {
    QuestionMark,
    Equal,
    Assign,
    Comma,
    Dot,
    ConstAssign,
    Semicolon,
    Str(Seq<char>),
    Quote,
    Endline,
    Comment,
    Slash,
    OpenParen,
    CloseParen,
    Name(Seq<char>),
    Number(i64),
    StrangeChar(char),
}

impl View for Token {
    type V = TokenView;

    open spec fn view(&self) -> TokenView {
        match self {
            Token::QuestionMark => TokenView::QuestionMark,
            Token::Equal => TokenView::Equal,
            Token::Assign => TokenView::Assign,
            Token::Comma => TokenView::Comma,
            Token::Dot => TokenView::Dot,
            Token::ConstAssign => TokenView::ConstAssign,
            Token::Semicolon => TokenView::Semicolon,
            Token::Str(s) => TokenView::Str(s@),
            Token::Quote => TokenView::Quote,
            Token::Endline => TokenView::Endline,
            Token::Comment => TokenView::Comment,
            Token::Slash => TokenView::Slash,
            Token::OpenParen => TokenView::OpenParen,
            Token::CloseParen => TokenView::CloseParen,
            Token::Name(s) => TokenView::Name(s@),
            Token::Number(n) => TokenView::Number(*n),
            Token::StrangeChar(c) => TokenView::StrangeChar(*c),
        }
    }
}

impl DeepView for Token {
    type V = TokenView;

    open spec fn deep_view(&self) -> TokenView {
        self.view()
    }
}

} // verus!
