//! A lexical analyzer for a small subset of SQL `SELECT` statements.
//!
//! Given lower-cased source text as a sequence of (position, character)
//! pairs, the lexer produces an ordered sequence of tokens: the keywords
//! `select` and `from`, commas, and identifiers. Tokenization is a single
//! forward pass that stops at the first semicolon.

pub mod lexer;
pub mod token;
