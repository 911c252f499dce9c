//! Parser for linear polynomial expressions such as `"2x + 3y - 5z"`.
//!
//! An expression is a whitespace-separated stream of tokens: sign tokens
//! (`+` or `-`) and term tokens (an optional decimal coefficient followed
//! by a single alphabetic variable character).  Parsing folds the stream
//! into an ordered list of `(coefficient, variable)` terms.

pub mod error;
pub mod expr;
pub mod laws;
pub mod numerals;
pub mod term;
