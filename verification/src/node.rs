//! The syntax tree shared by the parser and the interpreter.
pub mod node;
pub mod shape;
