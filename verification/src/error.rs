//! The failures that converting or evaluating an expression can end in.

use vstd::prelude::*;

verus! {

/// Why an expression could not be turned into a value.
///
/// Every failure is final: the first one met is returned and nothing is
/// recovered from silently.
#[derive(Debug, PartialEq, Eq, Clone, Copy, Structural)]
pub enum ParseError {
    /// A character that is no digit, letter, operator or bracket and no
    /// white space, or an operator other than `+` and `-` where an operand
    /// was due.
    UnknownSymbol,
    /// A name directly followed by `(` that is none of the functions.
    UnknownFunction,
    /// A name not followed by `(` that is none of the constants.
    UnknownConstant,
    /// A closing bracket without an opener, an opener closed by a bracket of
    /// the other family, or an opener that is never closed.
    UnbalancedParens,
    /// An operator or a function found too few operands, or there was no
    /// operand at all.
    FactorExpected,
    /// More than one value was left over: an operator is missing between two
    /// operands.
    OperatorExpected,
}

impl ParseError {
    /// The text shown to a user for this failure.
    pub fn to_string(&self) -> (s: String)
        ensures
            s@ == self.message(),
    {
        match self {
            ParseError::UnknownSymbol => String::from_str("Error: UnknownSymbol"),
            ParseError::UnknownFunction => String::from_str("Error: UnknownFunction"),
            ParseError::UnknownConstant => String::from_str("Error: UnknownConstant"),
            ParseError::UnbalancedParens => String::from_str("Error: UnbalancedParens"),
            ParseError::FactorExpected => String::from_str("Error: FactorExpected"),
            ParseError::OperatorExpected => String::from_str("Error: OperatorExpected"),
        }
    }

    /// The characters of [`ParseError::to_string`].
    pub open spec fn message(&self) -> Seq<char> {
        match self {
            ParseError::UnknownSymbol => "Error: UnknownSymbol"@,
            ParseError::UnknownFunction => "Error: UnknownFunction"@,
            ParseError::UnknownConstant => "Error: UnknownConstant"@,
            ParseError::UnbalancedParens => "Error: UnbalancedParens"@,
            ParseError::FactorExpected => "Error: FactorExpected"@,
            ParseError::OperatorExpected => "Error: OperatorExpected"@,
        }
    }
}

} // verus!
