//! The token model: spans, token kinds and the `Token` record that the
//! classifier produces.

use vstd::prelude::*;

verus! {

/// A half-open byte range into the source buffer.
#[derive(Clone, Copy, Debug, PartialEq, Eq, Structural)]
pub struct Span {
    pub start: usize,
    pub end: usize,
}

/// A classified, span-tagged unit of source text.
#[derive(Clone, Copy, Debug, PartialEq, Eq, Structural)]
pub struct Token {
    pub kind: TokenKind,
    pub span: Span,
}

impl Token {
    /// Builds a token from its kind and span.
    pub fn new(kind: TokenKind, span: Span) -> (t: Token)
        ensures
            t.kind == kind,
            t.span == span,
    {
        Token { kind, span }
    }
}

/// The closed set of token kinds.
///
/// `Operator` is a placeholder for a future user-extensible operator grammar;
/// the classifier never produces it.
#[derive(Clone, Copy, Debug, PartialEq, Eq, Structural)]
pub enum TokenKind {
    Comment,
    Operator(usize),
    // Keywords: modifiers
    Const,
    Static,
    Pub,
    Move,
    // Keywords: control flow
    If,
    Else,
    While,
    For,
    Do,
    Break,
    Continue,
    Return,
    Match,
    Case,
    // Keywords: declarations
    Where,
    Fn,
    Struct,
    Enum,
    Variant,
    Union,
    Type,
    Use,
    Mod,
    Impl,
    Trait,
    Extern,
    // Keywords: variables
    Let,
    As,
    // Primitive data types
    Never,
    Void,
    UintType(usize),
    UsizeType,
    IntType(usize),
    IsizeType,
    FloatType(usize),
    // Identifiers
    Identifier,
    MacroIdentifier,
    ComptimeIdentifier,
    DirectiveIdentifier,
    // Integers
    DecInt,
    BinInt,
    OctInt,
    HexInt,
    // Floats
    Float,
    IntFloat,
    FloatExp,
    IntExp,
    // Strings
    String,
    RawString,
    // Symbols: enclosures
    LParen,
    RParen,
    LBrace,
    RBrace,
    LBracket,
    RBracket,
    // Symbols: punctuation
    Comma,
    Colon,
    Semicolon,
    Arrow,
}

} // verus!
