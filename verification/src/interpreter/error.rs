use crate::token::token::{Value, ValueView};
use vstd::prelude::*;

verus! {

/// Why an evaluation failed.
#[derive(Debug, PartialEq, Eq, Structural, Clone, Copy)]
pub enum RuntimeError {
    /// A name is bound in no scope.
    IdentifierNotFound,
    /// A called name is bound in no scope and names no built-in.
    FunctionNotFound,
    /// An operand had to be a number.
    ExpectedNumber,
    /// An operand had to be a string.
    ExpectedString,
    /// An operand had to be a list.
    ExpectedList,
    /// An operand or a condition had to be a boolean.
    ExpectedBoolean,
    /// An operand had to be a list or a string.
    ExpectedListOrString,
    /// A called value had to be a function.
    ExpectedFunction,
    /// The text of an operation names no operator.
    InvalidOperator,
    /// The text of a literal is no number.
    InvalidLiteral,
    /// A node of a kind that has no value, or one whose children or payload
    /// are not those of its kind.
    InvalidNode,
    /// An index below zero or not below the length, or the head or tail of
    /// something empty.
    IndexOutOfRange,
    /// A division or remainder by zero.
    DivisionByZero,
    /// A call with more or fewer arguments than the callee takes.
    ArityMismatch,
    /// A call nested deeper than the interpreter's call limit.
    CallDepthExceeded,
    /// `input` was called when no line was left to read.
    InputExhausted,
}

/// The model of the result of computing a value.
pub open spec fn value_result_view(r: Result<Value, RuntimeError>) -> Result<
    ValueView,
    RuntimeError,
> {
    match r {
        Ok(v) => Ok(v@),
        Err(e) => Err(e),
    }
}

impl RuntimeError {
    /// The text of the error.
    pub open spec fn text(self) -> Seq<char> {
        match self {
            RuntimeError::IdentifierNotFound => "Identifier not found"@,
            RuntimeError::FunctionNotFound => "Function not found"@,
            RuntimeError::ExpectedNumber => "Expected a number"@,
            RuntimeError::ExpectedString => "Expected a string"@,
            RuntimeError::ExpectedList => "Expected a list"@,
            RuntimeError::ExpectedBoolean => "Expected a boolean"@,
            RuntimeError::ExpectedListOrString => "Expected a list or a string"@,
            RuntimeError::ExpectedFunction => "Expected a function"@,
            RuntimeError::InvalidOperator => "Invalid operator"@,
            RuntimeError::InvalidLiteral => "Invalid literal"@,
            RuntimeError::InvalidNode => "Invalid node"@,
            RuntimeError::IndexOutOfRange => "Index out of range"@,
            RuntimeError::DivisionByZero => "Division by zero"@,
            RuntimeError::ArityMismatch => "Wrong number of arguments"@,
            RuntimeError::CallDepthExceeded => "Call depth exceeded"@,
            RuntimeError::InputExhausted => "No line to read"@,
        }
    }

    /// The text of the error, for display.
    pub fn message(&self) -> (s: String)
        ensures
            s@ == self.text(),
    {
        let text = match self {
            RuntimeError::IdentifierNotFound => "Identifier not found",
            RuntimeError::FunctionNotFound => "Function not found",
            RuntimeError::ExpectedNumber => "Expected a number",
            RuntimeError::ExpectedString => "Expected a string",
            RuntimeError::ExpectedList => "Expected a list",
            RuntimeError::ExpectedBoolean => "Expected a boolean",
            RuntimeError::ExpectedListOrString => "Expected a list or a string",
            RuntimeError::ExpectedFunction => "Expected a function",
            RuntimeError::InvalidOperator => "Invalid operator",
            RuntimeError::InvalidLiteral => "Invalid literal",
            RuntimeError::InvalidNode => "Invalid node",
            RuntimeError::IndexOutOfRange => "Index out of range",
            RuntimeError::DivisionByZero => "Division by zero",
            RuntimeError::ArityMismatch => "Wrong number of arguments",
            RuntimeError::CallDepthExceeded => "Call depth exceeded",
            RuntimeError::InputExhausted => "No line to read",
        };
        text.to_owned()
    }
}

} // verus!
