//! The error taxonomy of the pipeline: every fallible stage returns one of
//! these, never a partial result.

use vstd::prelude::*;

verus! {

/// The mathematical model of an error, names as character sequences.
pub enum ErrorV {
    UnknownIdentifier(Seq<char>),
    UnknownFunction(Seq<char>),
    UnrecognizedCharacter(char),
    UnmatchedParentheses,
    IncorrectArguments(int, int),
    DivisionByZero,
    ExpectedLiteral,
}

/// Everything that can go wrong while tokenizing, converting or evaluating
/// an expression.
#[derive(Debug)]
pub enum CalculatorError {
    /// A bare name not present in the constant registry.
    UnknownIdentifier(String),
    /// A called name not present in the function registry.
    UnknownFunction(String),
    /// The lexer met a character outside the supported alphabet.
    UnrecognizedCharacter(char),
    /// Parenthesis nesting unbalanced in either direction.
    UnmatchedParentheses,
    /// A function found fewer operands on the stack than its declared arity;
    /// carries the number found, then the number expected.
    IncorrectArguments(usize, usize),
    /// The right-hand operand of a division is exactly zero.
    DivisionByZero,
    /// An operator was evaluated with an insufficient operand stack.
    ExpectedLiteral,
}

impl View for CalculatorError {
    type V = ErrorV;

    open spec fn view(&self) -> ErrorV {
        match self {
            CalculatorError::UnknownIdentifier(s) => ErrorV::UnknownIdentifier(s@),
            CalculatorError::UnknownFunction(s) => ErrorV::UnknownFunction(s@),
            CalculatorError::UnrecognizedCharacter(c) => ErrorV::UnrecognizedCharacter(*c),
            CalculatorError::UnmatchedParentheses => ErrorV::UnmatchedParentheses,
            CalculatorError::IncorrectArguments(found, expected) => ErrorV::IncorrectArguments(
                *found as int,
                *expected as int,
            ),
            CalculatorError::DivisionByZero => ErrorV::DivisionByZero,
            CalculatorError::ExpectedLiteral => ErrorV::ExpectedLiteral,
        }
    }
}

} // verus!
