//! The evaluator: a stack machine over tokens in postfix order.

use vstd::prelude::*;
use crate::error::ParseError;
use crate::expr::{
    denotes, lemma_denotes_application, lemma_denotes_binary, lemma_denotes_negation,
    lemma_denotes_number, Expr, Operation,
};
use crate::shunt::{spec_is_binary, spec_is_func, spec_is_unop};
use crate::token::{MathToken, MathTokenView};

verus! {

/// What one token does to the stack of values, the topmost last.
///
/// A number is pushed. A binary operator takes the topmost value as its
/// right operand and the one below as its left operand, and pushes the
/// result. The negation and a function replace the topmost value by their
/// result. Where operands are missing, a factor was expected. With all
/// operands there, a binary operator other than `+ - * / ^` is an unknown
/// symbol and a function other than the five an unknown function; a unary
/// operator other than `~` takes its operand and pushes nothing.
pub open spec fn step(stack: Seq<Expr>, tok: MathTokenView) -> Result<Seq<Expr>, ParseError> {
    let n = stack.len() as int;
    match tok {
        MathTokenView::Num(number) => Ok(stack.push(Expr::Num(number))),
        MathTokenView::BinOp(op) => {
            if n < 2 {
                Err(ParseError::FactorExpected)
            } else if !spec_is_binary(op) {
                Err(ParseError::UnknownSymbol)
            } else {
                Ok(
                    stack.subrange(0, n - 2).push(
                        Expr::Binary(op, Box::new(stack[n - 2]), Box::new(stack[n - 1])),
                    ),
                )
            }
        },
        MathTokenView::UnOp(op) => {
            if n < 1 {
                Err(ParseError::FactorExpected)
            } else if !spec_is_unop(op) {
                Ok(stack.drop_last())
            } else {
                Ok(stack.drop_last().push(Expr::Negate(Box::new(stack[n - 1]))))
            }
        },
        MathTokenView::Func(f) => {
            if n < 1 {
                Err(ParseError::FactorExpected)
            } else if !spec_is_func(f) {
                Err(ParseError::UnknownFunction)
            } else {
                Ok(stack.drop_last().push(Expr::Apply(f, Box::new(stack[n - 1]))))
            }
        },
    }
}

/// The stack after the tokens from `pos` on, one after the other, have been
/// applied to `stack`, or the first failure among them.
pub open spec fn run(toks: Seq<MathTokenView>, pos: int, stack: Seq<Expr>) -> Result<
    Seq<Expr>,
    ParseError,
>
    decreases toks.len() - pos,
{
    if pos < 0 || pos >= toks.len() {
        Ok(stack)
    } else {
        match step(stack, toks[pos]) {
            Ok(next) => run(toks, pos + 1, next),
            Err(e) => Err(e),
        }
    }
}

/// One more token at the end is one more step at the end.
pub proof fn lemma_run_push(
    out: Seq<MathTokenView>,
    tok: MathTokenView,
    pos: int,
    stack: Seq<Expr>,
)
    requires
        0 <= pos <= out.len(),
    ensures
        run(out.push(tok), pos, stack) == match run(out, pos, stack) {
            Ok(last) => step(last, tok),
            Err(e) => Err(e),
        },
    decreases out.len() - pos,
{
    let longer = out.push(tok);
    if pos < out.len() {
        assert(longer[pos] == out[pos]);
        match step(stack, out[pos]) {
            Ok(next) => lemma_run_push(out, tok, pos + 1, next),
            Err(e) => {},
        }
    } else {
        assert(longer[pos] == tok);
        match step(stack, tok) {
            Ok(next) => {
                assert(run(longer, pos + 1, next) == Ok::<Seq<Expr>, ParseError>(next));
            },
            Err(e) => {},
        }
    }
}

/// What the stack holds in the end: its one value. With no value a factor
/// was expected, with several an operator.
pub open spec fn finish(stack: Seq<Expr>) -> Result<Expr, ParseError> {
    if stack.len() == 0 {
        Err(ParseError::FactorExpected)
    } else if stack.len() == 1 {
        Ok(stack[0])
    } else {
        Err(ParseError::OperatorExpected)
    }
}

/// The value of the tokens `toks` in postfix order.
pub open spec fn value(toks: Seq<MathTokenView>) -> Result<Expr, ParseError> {
    match run(toks, 0, Seq::empty()) {
        Ok(stack) => finish(stack),
        Err(e) => Err(e),
    }
}

/// Whether the result `r` is right where `expected` is the value looked
/// for: the same failure, or a number that the arithmetic `arith` can give
/// for the term.
pub open spec fn computes<V, F: Fn(Operation<V>) -> V>(
    arith: &F,
    r: Result<V, ParseError>,
    expected: Result<Expr, ParseError>,
) -> bool {
    match expected {
        Ok(term) => r matches Ok(v) && denotes(arith, term, v),
        Err(e) => r matches Err(failure) && failure == e,
    }
}

/// Whether the numbers `stack` are numbers that `arith` can give for the
/// terms `terms`, one for one.
pub open spec fn holds<V, F: Fn(Operation<V>) -> V>(arith: &F, stack: Seq<V>, terms: Seq<Expr>) -> bool {
    &&& stack.len() == terms.len()
    &&& forall|k: int| 0 <= k < terms.len() ==> denotes(arith, #[trigger] terms[k], stack[k])
}

/// Applies one token to the stack.
fn apply<V, F: Fn(Operation<V>) -> V>(
    stack: &mut Vec<V>,
    tok: MathToken,
    arith: &F,
    Ghost(terms): Ghost<Seq<Expr>>,
) -> (r: Result<(), ParseError>)
    requires
        forall|operation: Operation<V>| call_requires(*arith, (operation,)),
        holds(arith, old(stack)@, terms),
    ensures
        match step(terms, tok@) {
            Ok(next) => r is Ok && holds(arith, final(stack)@, next),
            Err(e) => r == Err::<(), ParseError>(e),
        },
{
    let ghost n = terms.len() as int;
    match tok {
        MathToken::Num(number) => {
            let v = arith(Operation::Num(number));
            stack.push(v);
            proof {
                let next = terms.push(Expr::Num(number@));
                lemma_denotes_number(arith, number, v);
                assert forall|k: int| 0 <= k < next.len() implies denotes(
                    arith,
                    #[trigger] next[k],
                    stack@[k],
                ) by {
                    if k < n {
                        assert(next[k] == terms[k]);
                    }
                }
            }
            Ok(())
        },
        MathToken::BinOp(op) => {
            if stack.len() < 2 {
                return Err(ParseError::FactorExpected);
            }
            let right = stack.pop().unwrap();
            let left = stack.pop().unwrap();
            if !(op == '+' || op == '-' || op == '*' || op == '/' || op == '^') {
                return Err(ParseError::UnknownSymbol);
            }
            let v = arith(Operation::Binary(op, left, right));
            stack.push(v);
            proof {
                let joined = Expr::Binary(op, Box::new(terms[n - 2]), Box::new(terms[n - 1]));
                let next = terms.subrange(0, n - 2).push(joined);
                lemma_denotes_binary(arith, op, terms[n - 2], terms[n - 1], left, right, v);
                assert forall|k: int| 0 <= k < next.len() implies denotes(
                    arith,
                    #[trigger] next[k],
                    stack@[k],
                ) by {
                    if k < n - 2 {
                        assert(next[k] == terms[k]);
                    }
                }
            }
            Ok(())
        },
        MathToken::UnOp(op) => {
            match stack.pop() {
                None => Err(ParseError::FactorExpected),
                Some(operand) => {
                    if op == '~' {
                        let v = arith(Operation::Negate(operand));
                        stack.push(v);
                        proof {
                            let negated = Expr::Negate(Box::new(terms[n - 1]));
                            let next = terms.drop_last().push(negated);
                            lemma_denotes_negation(arith, terms[n - 1], operand, v);
                            assert forall|k: int| 0 <= k < next.len() implies denotes(
                                arith,
                                #[trigger] next[k],
                                stack@[k],
                            ) by {
                                if k < n - 1 {
                                    assert(next[k] == terms[k]);
                                }
                            }
                        }
                    } else {
                        proof {
                            let next = terms.drop_last();
                            assert forall|k: int| 0 <= k < next.len() implies denotes(
                                arith,
                                #[trigger] next[k],
                                stack@[k],
                            ) by {
                                assert(next[k] == terms[k]);
                            }
                        }
                    }
                    Ok(())
                },
            }
        },
        MathToken::Func(f) => {
            match stack.pop() {
                None => Err(ParseError::FactorExpected),
                Some(operand) => {
                    if !(f == 's' || f == 'c' || f == 't' || f == 'l' || f == 'r') {
                        return Err(ParseError::UnknownFunction);
                    }
                    let v = arith(Operation::Apply(f, operand));
                    stack.push(v);
                    proof {
                        let applied = Expr::Apply(f, Box::new(terms[n - 1]));
                        let next = terms.drop_last().push(applied);
                        lemma_denotes_application(arith, f, terms[n - 1], operand, v);
                        assert forall|k: int| 0 <= k < next.len() implies denotes(
                            arith,
                            #[trigger] next[k],
                            stack@[k],
                        ) by {
                            if k < n - 1 {
                                assert(next[k] == terms[k]);
                            }
                        }
                    }
                    Ok(())
                },
            }
        },
    }
}

/// Evaluates tokens in postfix order, in the arithmetic `arith`.
///
/// The tokens are applied to a stack of numbers from left to right: a
/// number is pushed, an operator or a function takes its operands from the
/// stack and pushes what `arith` makes of them (see [`step`]). In the end
/// the stack must hold exactly one number: that is the result.
///
/// Whether the evaluation fails, and how, depends on the tokens alone:
/// where [`value`] of the tokens is a failure, that failure is returned.
/// Where it is a term, the result is a number that `arith` gives for that
/// term.
pub fn calc<V, F: Fn(Operation<V>) -> V>(toks: Vec<MathToken>, arith: &F) -> (r: Result<V, ParseError>)
    requires
        forall|operation: Operation<V>| call_requires(*arith, (operation,)),
    ensures
        computes(arith, r, value(toks.deep_view())),
{
    let mut stack: Vec<V> = Vec::new();
    let ghost all = toks.deep_view();
    let ghost mut terms: Seq<Expr> = Seq::empty();
    for tok in it: toks
        invariant
            it.seq() == toks@,
            all == toks.deep_view(),
            forall|operation: Operation<V>| call_requires(*arith, (operation,)),
            holds(arith, stack@, terms),
            run(all, it.index() as int, terms) == run(all, 0, Seq::empty()),
    {
        assert(all[it.index() as int] == tok@);
        match apply(&mut stack, tok, arith, Ghost(terms)) {
            Ok(()) => {
                proof {
                    terms = step(terms, tok@).unwrap();
                }
            },
            Err(e) => {
                return Err(e);
            },
        }
    }
    if stack.len() == 0 {
        Err(ParseError::FactorExpected)
    } else if stack.len() == 1 {
        match stack.pop() {
            Some(v) => Ok(v),
            None => Err(ParseError::FactorExpected),
        }
    } else {
        Err(ParseError::OperatorExpected)
    }
}

} // verus!
