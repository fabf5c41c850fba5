//! A lexical scanner for a small C-like scripting language.
//!
//! The scanner turns source text into a flat sequence of tokens, each with its
//! lexeme and, for literals, its decoded value. Malformed input never stops a
//! scan: it is recorded as a diagnostic and skipped.

pub mod decimal;
pub mod diagnostic;
pub mod grammar;
pub mod munch;
pub mod scanner;
pub mod source;
pub mod text;
pub mod token;
