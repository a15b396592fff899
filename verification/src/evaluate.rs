//! The integer calculator on a whole run of tokens.

use vstd::prelude::*;
use crate::evaluator::{expr, expr_of};
use crate::parse_error::ParseError;
use crate::tokenizer::Token;

verus! {

/// Evaluates the expression that a run of tokens starts with.
///
/// The tokens `16 + 2 * 3` come to `22`. No variable has a value here. The
/// result is the value of [`expr_of`] on the tokens.
pub fn evaluate(tokens: Vec<Token>) -> (r: Result<i32, ParseError>)
    ensures
        r == expr_of(tokens.deep_view(), Map::empty()).value,
{
    let mut rest = tokens;
    expr(&mut rest, None)
}

} // verus!
