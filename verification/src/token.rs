//! Tokens: the smallest classified lexical units, a kind plus the matched
//! text.

use vstd::prelude::*;

verus! {

/// The classification of a token.
///
/// The scanner produces `Identifier`, `Assign`, `Let`, `Number`, `Plus`,
/// `Multiply`, `Minus` and `Divide`. The remaining kinds (`String`,
/// `IntType`, `StringType`, `FloatType`, `BoolType`) are reserved for
/// planned grammar extensions and are never produced.
#[derive(Clone, Copy, PartialEq, Eq, Structural, Debug)]
pub enum TokenKind {
    Identifier,
    Assign,
    Let,
    String,
    IntType,
    StringType,
    FloatType,
    BoolType,
    Number,
    Plus,
    Multiply,
    Minus,
    Divide,
}

/// A token: its kind and the exact text the scanner matched for it (with
/// digit-group separators already dropped from numeric literals).
#[derive(Debug, Clone, PartialEq)]
pub struct Token {
    pub kind: TokenKind,
    pub literal: String,
}

impl Token {
    pub fn new(kind: TokenKind, literal: String) -> (t: Self)
        ensures
            t.kind == kind,
            t.literal == literal,
    {
        Self { kind, literal }
    }
}

} // verus!
