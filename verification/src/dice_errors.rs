//! Error taxonomy for the dice engine.
//!
//! Every failure of the pipeline is recoverable and is returned to the caller
//! as a `Result`; no command panics on malformed user input.

use vstd::prelude::*;

verus! {

/// The errors the dice pipeline can return.
#[derive(Clone, Debug, PartialEq)]
pub enum RollError {
    /// A lexeme in the command was not recognized; carries the offending text.
    SymbolError(String),
    /// An argument had the wrong shape (for instance a multi-element array
    /// where exactly one value is required, or a value out of range).
    ArgumentError,
    /// A pool was requested from a token that never resolved one.
    MissingPoolError,
    /// A value or pool was requested from a token that is not yet resolved.
    NotResolvedError,
    /// More explosion generations were recorded than the variant allows;
    /// this signals an internal consistency bug, not a user error.
    GenerationOverflow,
    /// An operation needed roll history, but the history is empty.
    RetrieveError,
    /// A numeric literal or argument could not be parsed as an integer.
    NumericParseError,
    /// An expression did not reduce to exactly one value.
    MalformedExpressionError,
    /// Two values of incompatible kinds were combined.
    KindMismatchError,
    /// An intermediate result exceeded the machine range kept for it.
    OverflowError,
    /// An arithmetic step of the embedded numeric evaluator failed.
    Math(MathError),
}

impl RollError {
    /// The user-facing text of the error, shown verbatim in place of a result.
    pub fn message(&self) -> String {
        match self {
            RollError::SymbolError(s) => {
                let mut m = String::from_str("I don't recognize this symbol: ");
                m.append(s.as_str());
                m
            },
            RollError::ArgumentError => String::from_str(
                "That argument doesn't fit the operation!",
            ),
            RollError::MissingPoolError => String::from_str(
                "There is no dice pool to work with here!",
            ),
            RollError::NotResolvedError => String::from_str(
                "That operation hasn't been resolved yet!",
            ),
            RollError::GenerationOverflow => String::from_str(
                "Too many explosion generations! Please let the boss know!",
            ),
            RollError::RetrieveError => String::from_str(
                "Error retrieving latest roll from tray: Roll queue is empty",
            ),
            RollError::NumericParseError => String::from_str(
                "I couldn't read that as a number!",
            ),
            RollError::MalformedExpressionError => String::from_str(
                "That expression doesn't add up to a single value!",
            ),
            RollError::KindMismatchError => String::from_str(
                "I can't combine results of different kinds!",
            ),
            RollError::OverflowError => String::from_str(
                "That number grew past what I can keep track of!",
            ),
            RollError::Math(m) => m.message(),
        }
    }
}

/// The errors the pure arithmetic evaluator can return.
#[derive(Clone, Debug, PartialEq)]
pub enum MathError {
    /// A lexeme in the expression was not recognized; carries the text.
    SymbolError(String),
    /// A numeric literal could not be parsed.
    NumericParseError,
    /// The expression does not reduce to exactly one value.
    MalformedExpressionError,
    /// Division by an expression that evaluates to zero.
    DivisionByZero,
    /// An exponent that is not a whole number; exact arithmetic keeps
    /// rational values, and a fractional power of a rational is not one.
    NonIntegerExponent,
    /// An intermediate value exceeded the machine range kept for it.
    Overflow,
}

impl MathError {
    /// The user-facing text of the error.
    pub fn message(&self) -> String {
        match self {
            MathError::SymbolError(s) => {
                let mut m = String::from_str("I don't recognize this symbol: ");
                m.append(s.as_str());
                m
            },
            MathError::NumericParseError => String::from_str(
                "I couldn't read that as a number!",
            ),
            MathError::MalformedExpressionError => String::from_str(
                "That expression doesn't add up to a single value!",
            ),
            MathError::DivisionByZero => String::from_str(
                "You can't divide by zero!",
            ),
            MathError::NonIntegerExponent => String::from_str(
                "I can only raise things to whole-number powers!",
            ),
            MathError::Overflow => String::from_str(
                "That number grew past what I can keep track of!",
            ),
        }
    }
}

} // verus!
