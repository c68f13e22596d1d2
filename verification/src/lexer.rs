//! The lexer: character classes, the scanning model and the scanner.
pub mod classes;
pub mod lexer;
pub mod scan;
