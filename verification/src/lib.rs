//! A tokenizer for spreadsheet formula text.
//!
//! [`lexer::Lexer`] turns formula text into a flat sequence of
//! [`token::Token`]s that ends with the end-of-input sentinel, or stops at the
//! first lexical error. What the tokenizer produces is defined, independently
//! of the code, by the spec functions of [`grammar`]; every executable function
//! is verified against them, and [`laws`] proves properties of the grammar
//! itself.
//!
//! A cell reference, a range of columns, a range of rows, a number and a
//! keyword can start with the same characters. The grammar settles which one
//! is read by trying the shapes in a fixed order on the same index, and a
//! shape that does not match reads nothing.
//!
//! [`chars`] holds the classes of characters and [`text`] the passage between
//! strings and sequences of characters; the two also hold what is taken from
//! the standard library on trust.
pub mod chars;
pub mod grammar;
pub mod laws;
pub mod lexer;
pub mod text;
pub mod token;
