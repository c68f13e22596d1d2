//! Tokens produced by the lexer and the values produced by the interpreter.
pub mod token;
