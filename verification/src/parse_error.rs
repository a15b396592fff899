//! The failures of the integer calculator.

use vstd::prelude::*;

verus! {

/// Why a run of tokens could not be made or evaluated.
#[derive(Debug, PartialEq, Eq, Clone, Copy, Structural)]
pub enum ParseError {
    /// A character that is no digit, operator, bracket or space, or a
    /// literal beyond the largest 32-bit integer.
    UnknownSymbol,
    /// A number, a variable or a bracketed expression is missing.
    FactorExpected,
    /// A bracketed expression is not closed, or is closed by a bracket of
    /// the other family.
    UnbalancedParens,
    /// A variable has no value.
    UnknownVariable,
    /// An operation has no result: an operator that is none of `+ - * /`, a
    /// division by zero, or a result beyond the 32-bit integers.
    UnknownOperation,
}

impl ParseError {
    /// The text shown to a user for this failure.
    pub fn to_string(&self) -> (s: String)
        ensures
            s@ == self.message(),
    {
        match self {
            ParseError::UnknownSymbol => String::from_str("Error: UnknownSymbol"),
            ParseError::FactorExpected => String::from_str("Error: FactorExpected"),
            ParseError::UnbalancedParens => String::from_str("Error: UnbalancedParens"),
            ParseError::UnknownVariable => String::from_str("Error: UnknownVariable"),
            ParseError::UnknownOperation => String::from_str("Error: UnknownOperation"),
        }
    }

    /// The characters of [`ParseError::to_string`].
    pub open spec fn message(&self) -> Seq<char> {
        match self {
            ParseError::UnknownSymbol => "Error: UnknownSymbol"@,
            ParseError::FactorExpected => "Error: FactorExpected"@,
            ParseError::UnbalancedParens => "Error: UnbalancedParens"@,
            ParseError::UnknownVariable => "Error: UnknownVariable"@,
            ParseError::UnknownOperation => "Error: UnknownOperation"@,
        }
    }
}

} // verus!
