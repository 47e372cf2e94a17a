//! The front end of a linter for TeX-like markup: a lexer that turns a text
//! into tokens, and a parser that builds the tree of the preamble from them.

pub mod lexer;
pub mod parser;
pub mod source;
pub mod syntax;
