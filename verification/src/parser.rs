//! The recursive-descent parser and its grammar.
pub mod grammar;
pub mod parser;
