//! A single-pass, single-lookahead tokenizer for a small expression language.
//!
//! The scanner walks the input text left to right, classifies each run of
//! characters into one token (or discards whitespace and line comments), and
//! pairs every token with the 0-based line on which its first character stood.
//! Scanning is abortive: the first lexical error stops the scan and is
//! returned alone.

pub mod chars;
pub mod cursor;
pub mod lexer;
pub mod model;
pub mod props;
pub mod token;
