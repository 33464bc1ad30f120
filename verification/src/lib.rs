//! A SQL pretty-printer: a single-pass formatting engine driven by a
//! declarative rule set (keyword casing, line-break placement, indentation).
//!
//! The engine consumes an already-tokenized sequence of lexical tokens and a
//! `Settings` value, and produces the formatted text or a configuration
//! error.  Tokenization itself is delegated to the `sqlparser` crate.

pub mod config;
pub mod error;
pub mod formater;
pub mod laws;
pub mod settings;
pub mod text;
pub mod tokens;
