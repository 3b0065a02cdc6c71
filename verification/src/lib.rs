//! Lexical front end for the osta language: a verified tokenizer that turns
//! raw source bytes into a stream of span-tagged tokens, with arbitrary
//! lookahead through a FIFO buffer.

pub mod lexer;
pub mod scan;
pub mod token;

pub use lexer::{Lexer, LexerError, TokenResult};
pub use token::{Span, Token, TokenKind};
