//! A lexical scanner for a small scripting language.
//!
//! The scanner turns a sequence of source characters into classified
//! tokens: punctuation, one- or two-character operators, string and
//! number literals, identifiers and reserved words.  Lexical errors are
//! recoverable: each faulty lexeme is reported and scanning resumes with
//! the next character.

pub mod laws;
pub mod scanner;
pub mod token;
