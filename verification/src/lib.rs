//! Front end of a minimal expression-oriented language: a character-level
//! tokenizer and a binding-power-driven recursive-descent parser that turn
//! source text into an abstract syntax tree of `let` statements.
//!
//! The crate holds two front ends. The `token`, `lexer`, `ast` and
//! `parser` modules form the main one: a lazy tokenizer with one-token
//! lookahead feeding a Pratt parser with full operator precedence. The
//! `syntax` module is a smaller, error-tolerant calculator front end: a
//! lexer that also emits whitespace and bad-token records, and a parser
//! over a pre-lexed token list that folds `+` and `-` chains.

pub mod ast;
pub mod chars;
pub mod lexer;
pub mod parser;
pub mod syntax;
pub mod token;
