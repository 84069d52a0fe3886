//! Front end for a small language: a tokenizer that turns source text into
//! positioned tokens, and a recursive-descent parser that turns those tokens
//! into an arithmetic-expression syntax tree.
//!
//! The tokenizer recovers from malformed input: it skips exactly one
//! character per unrecognized byte, records a positioned error, and scans on.
//! The parser does not recover: it reports the first syntax error it meets.

pub mod ast;
pub mod bytes;
pub mod laws;
pub mod lexer;
pub mod parser;
pub mod token;
