//! Arithmetic expressions in infix notation, converted to postfix order and
//! evaluated by a stack machine.
//!
//! [`evaluate`] is the whole pipeline: [`shunt::shunt`] turns the characters
//! of an expression into tokens in postfix order, and [`calc::calc`] runs
//! those tokens through a stack machine. Numbers are `12`, `1.8`, `pi`, `PI`
//! and `e`; the operators are `+ - * / ^` and the signs `+` and `-`; the
//! functions are `sin`, `cos`, `tan`, `sqrt` and `ln`; brackets are `( )` and
//! `[ ]`.
//!
//! The library decides what is computed, and fails where an expression is
//! not in order; it does not compute with numbers itself. An evaluation is
//! handed an arithmetic, a function from one operation on numbers
//! ([`Operation`]) to its result, and the contracts say to which operations it
//! is applied: the result is a number for the term ([`Expr`]) that the
//! expression stands for.
//!
//! [`syntax`] says which expressions are well formed and shows that each of
//! them has a value; [`reference`] shows that on expressions without
//! brackets the pipeline agrees with a plain evaluation from left to right.
//!
//! Beside the pipeline stands a small calculator over 32-bit integers:
//! [`tokenizer`] makes tokens, and [`evaluator`] evaluates them by recursive
//! descent, with variables.

use vstd::prelude::*;

pub mod calc;
pub mod error;
pub mod evaluate;
pub mod evaluator;
pub mod expr;
pub mod parse_error;
pub mod reference;
pub mod shunt;
pub mod syntax;
pub mod token;
pub mod tokenizer;

pub use error::ParseError;
pub use expr::{Expr, Meaning, Operation};
pub use token::{MathToken, MathTokenView, Number, NumberView};

verus! {

/// The value of the expression `s`: that of its postfix form, where it has
/// one.
pub open spec fn evaluation(s: Seq<char>) -> Result<Expr, ParseError> {
    match shunt::postfix(s) {
        Ok(toks) => calc::value(toks),
        Err(e) => Err(e),
    }
}

/// The characters of `s`, one by one.
pub(crate) fn chars_of(s: &str) -> (chars: Vec<char>)
    ensures
        chars@ == s@,
{
    let mut chars: Vec<char> = Vec::new();
    for c in it: s.chars()
        invariant
            it.seq() == s@,
            chars@ == it.seq().take(it.index() as int),
    {
        chars.push(c);
    }
    chars
}

/// Evaluates an expression in infix notation, in the arithmetic `arith`.
///
/// The expression is converted to postfix order and then evaluated. A
/// failure of the conversion is returned as it is, without any evaluation.
///
/// Whether the evaluation fails, and how, depends on the characters of the
/// expression alone: where [`evaluation`] of them is a failure, that
/// failure is returned. Where it is a term, the result is a number that
/// `arith` gives for that term.
pub fn evaluate<V, F: Fn(Operation<V>) -> V>(expression: &str, arith: &F) -> (r: Result<V, ParseError>)
    requires
        forall|operation: Operation<V>| call_requires(*arith, (operation,)),
    ensures
        calc::computes(arith, r, evaluation(expression@)),
{
    match shunt::shunt(chars_of(expression)) {
        Ok(toks) => calc::calc(toks, arith),
        Err(e) => Err(e),
    }
}

/// The result of [`evaluate`] on the expression `s` in an arithmetic that
/// computes what `meaning` says.
pub open spec fn result<V>(meaning: expr::Meaning<V>, s: Seq<char>) -> Result<V, ParseError> {
    match evaluation(s) {
        Ok(term) => Ok(meaning.fold(term)),
        Err(e) => Err(e),
    }
}

/// Evaluating one expression twice gives the same result twice, as long as
/// the arithmetic computes a function of its operands: whatever two calls
/// of [`evaluate`] on the expression `s` return, they return [`result`] of
/// `s`, and so the same.
pub proof fn lemma_same_expression_same_result<V, F: Fn(Operation<V>) -> V>(
    arith: &F,
    meaning: expr::Meaning<V>,
    s: Seq<char>,
    first: Result<V, ParseError>,
    second: Result<V, ParseError>,
)
    requires
        expr::follows(arith, meaning),
        calc::computes(arith, first, evaluation(s)),
        calc::computes(arith, second, evaluation(s)),
    ensures
        first == result(meaning, s),
        first == second,
{
    if evaluation(s) is Ok {
        expr::lemma_number_of_term(arith, meaning, evaluation(s).unwrap(), first.unwrap());
        expr::lemma_number_of_term(arith, meaning, evaluation(s).unwrap(), second.unwrap());
    }
}

} // verus!
