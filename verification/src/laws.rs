//! General laws of the language, proved over the models.
pub mod arithmetic;
pub mod frames;
pub mod hoisting;
pub mod lexing;
pub mod parsing;
pub mod rendering;
pub mod scopes;
pub mod soundness;
