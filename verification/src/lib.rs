//! A small scripting language: a lexer, a recursive-descent parser and a
//! tree-walking interpreter with a stack of scopes and first-class functions.
//!
//! A source text becomes tokens ([`lexer`]), tokens become a tree
//! ([`parser`], [`node`]), and a tree is run to a value ([`interpreter`],
//! [`token`]). Nothing here reads or writes: what a program prints is kept
//! for the caller to take, and the lines that `input` reads are given by the
//! caller.
//!
//! Every stage has a mathematical model, and each executable function is
//! proved to compute what the model says: the scanner of `lexer::scan`, the
//! grammar of `parser::grammar` and the evaluation of
//! `interpreter::semantics`. The module [`laws`] holds what is proved of the
//! models themselves: that arithmetic is that of 32 bits, that products bind
//! tighter than sums and operators join from the left, that a call leaves the
//! scopes of its caller as they were, that declarations are found before
//! they are written, that what is printed can be read back, and that a
//! program that parses is never found malformed when it runs.
//!
//! The characters are told apart by the regular expressions of the `regex`
//! crate; what is assumed of that crate stands in `lexer::classes`.
pub mod interpreter;
pub mod laws;
pub mod lexer;
pub mod node;
pub mod parser;
pub mod text;
pub mod token;
