//! A lexical front end for Object Pascal source files: a character reader
//! that keeps rows and columns, a tokenizer, and a check of the skeleton of
//! a unit file.
//!
//! What the tokenizer returns is stated in [`grammar`], and every function
//! is proved against it.

pub mod chars;
pub mod grammar;
pub mod keywords;
pub mod lexer;
pub mod parser;
pub mod reader;
pub mod runs;
pub mod stream;
pub mod text;
