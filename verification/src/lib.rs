//! A lexical scanner for a small scripting language, together with the
//! option table that selects how a front end feeds text to it.
//!
//! The scanner turns a buffer of characters into a sequence of [`lexer::token::Token`]s.
//! Every executable function carries a contract stated over a mathematical
//! model of the scan (see [`lexer::model`]).

pub mod lexer;
pub mod options;
