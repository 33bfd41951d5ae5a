//! A scanner for a small scripting language: it turns source text into
//! tokens, each with its lexeme, and reports malformed input with its place
//! in the source.
//!
//! [`Lexer`] is the scanner. [`grammar`] states the lexical rules that it is
//! proved against, and [`laws`] what follows from them for every text.

pub mod error;
pub mod grammar;
pub mod laws;
pub mod lexer;
pub mod literal;
pub mod text;
pub mod token;

pub use error::{LexError, SingleTokenError, Span, StringTerminationError};
pub use lexer::Lexer;
pub use token::{Token, TokenKind};
