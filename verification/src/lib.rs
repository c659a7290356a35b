//! A verified lexical scanner for a small dynamically-typed scripting language.
//!
//! The scanner turns source text into an ordered sequence of positioned tokens
//! that always ends in a single end-of-input marker.  Lexical errors are
//! recorded on a driver value and never stop the scan.

pub mod laws;
pub mod lox;
pub mod model;
pub mod scanner;
pub mod text;
pub mod token;
pub mod utf8;
