//! The value of an expression as a term, and the arithmetic that turns a
//! term into a number.

use vstd::prelude::*;
use crate::token::{Number, NumberView};

verus! {

/// The value of an expression in unevaluated form: which operation is
/// applied to which operands.
///
/// Nothing in this library computes with floating-point numbers, or knows
/// what a sum is. The evaluator is handed an arithmetic and applies it, and
/// the term says to what: it is the model that the contracts speak of.
pub enum Expr {
    /// A literal or a constant.
    Num(NumberView),
    /// A binary operator, its left operand and its right operand: for `-`
    /// the left minus the right, for `/` the left divided by the right, for
    /// `^` the left to the power of the right.
    Binary(char, Box<Expr>, Box<Expr>),
    /// The negation of its operand.
    Negate(Box<Expr>),
    /// A function, by its marker, applied to its operand.
    Apply(char, Box<Expr>),
}

/// One operation on numbers of the kind `V`, with its operands computed.
/// An arithmetic is a function from such operations to numbers.
#[derive(Debug, PartialEq, Eq, Clone)]
pub enum Operation<V> {
    /// The number that a literal or a constant stands for.
    Num(Number),
    /// A binary operator applied to its left and its right operand.
    Binary(char, V, V),
    /// The negation of a number.
    Negate(V),
    /// A function, by its marker, applied to a number.
    Apply(char, V),
}

/// Whether `v` is a number that the arithmetic `arith` can give for
/// `term`: what it gives for the operation at the root, applied to numbers
/// that it can give for the operands.
pub open spec fn denotes<V, F: Fn(Operation<V>) -> V>(arith: &F, term: Expr, v: V) -> bool
    decreases term,
{
    match term {
        Expr::Num(number) => exists|n: Number|
            n@ == number && #[trigger] call_ensures(*arith, (Operation::Num(n),), v),
        Expr::Binary(op, left, right) => exists|l: V, r: V|
            denotes(arith, *left, l) && denotes(arith, *right, r) && #[trigger] call_ensures(
                *arith,
                (Operation::Binary(op, l, r),),
                v,
            ),
        Expr::Negate(operand) => exists|x: V|
            denotes(arith, *operand, x) && #[trigger] call_ensures(
                *arith,
                (Operation::Negate(x),),
                v,
            ),
        Expr::Apply(f, operand) => exists|x: V|
            denotes(arith, *operand, x) && #[trigger] call_ensures(
                *arith,
                (Operation::Apply(f, x),),
                v,
            ),
    }
}

/// What an arithmetic gives for a literal or a constant is a number for
/// that literal or constant.
pub proof fn lemma_denotes_number<V, F: Fn(Operation<V>) -> V>(arith: &F, n: Number, v: V)
    requires
        call_ensures(*arith, (Operation::Num(n),), v),
    ensures
        denotes(arith, Expr::Num(n@), v),
{
}

/// What an arithmetic gives for a binary operator and numbers for two terms
/// is a number for the operator applied to the terms.
pub proof fn lemma_denotes_binary<V, F: Fn(Operation<V>) -> V>(
    arith: &F,
    op: char,
    left: Expr,
    right: Expr,
    l: V,
    r: V,
    v: V,
)
    requires
        denotes(arith, left, l),
        denotes(arith, right, r),
        call_ensures(*arith, (Operation::Binary(op, l, r),), v),
    ensures
        denotes(arith, Expr::Binary(op, Box::new(left), Box::new(right)), v),
{
    let term = Expr::Binary(op, Box::new(left), Box::new(right));
    assert(term->Binary_0 == op && *term->Binary_1 == left && *term->Binary_2 == right);
    assert(exists|l: V, r: V|
        denotes(arith, left, l) && denotes(arith, right, r) && #[trigger] call_ensures(
            *arith,
            (Operation::Binary(op, l, r),),
            v,
        ));
}

/// What an arithmetic gives for the negation of a number for a term is a
/// number for the negated term.
pub proof fn lemma_denotes_negation<V, F: Fn(Operation<V>) -> V>(arith: &F, operand: Expr, x: V, v: V)
    requires
        denotes(arith, operand, x),
        call_ensures(*arith, (Operation::Negate(x),), v),
    ensures
        denotes(arith, Expr::Negate(Box::new(operand)), v),
{
    let term = Expr::Negate(Box::new(operand));
    assert(*term->Negate_0 == operand);
    assert(exists|x: V|
        denotes(arith, operand, x) && #[trigger] call_ensures(*arith, (Operation::Negate(x),), v));
}

/// What an arithmetic gives for a function and a number for a term is a
/// number for the function applied to the term.
pub proof fn lemma_denotes_application<V, F: Fn(Operation<V>) -> V>(
    arith: &F,
    f: char,
    operand: Expr,
    x: V,
    v: V,
)
    requires
        denotes(arith, operand, x),
        call_ensures(*arith, (Operation::Apply(f, x),), v),
    ensures
        denotes(arith, Expr::Apply(f, Box::new(operand)), v),
{
    let term = Expr::Apply(f, Box::new(operand));
    assert(term->Apply_0 == f && *term->Apply_1 == operand);
    assert(exists|x: V|
        denotes(arith, operand, x) && #[trigger] call_ensures(*arith, (Operation::Apply(f, x),), v));
}

/// What the operations of an arithmetic come to, as functions: a
/// description of an arithmetic that gives one number for one operation.
#[verifier::reject_recursive_types(V)]
pub struct Meaning<V> {
    /// The number that a literal or a constant stands for.
    pub number: spec_fn(NumberView) -> V,
    /// The result of a binary operator on its left and right operand.
    pub binary: spec_fn(char, V, V) -> V,
    /// The negation of a number.
    pub negation: spec_fn(V) -> V,
    /// The result of a function, by its marker, on a number.
    pub application: spec_fn(char, V) -> V,
}

impl<V> Meaning<V> {
    /// What the operation `operation` comes to.
    pub open spec fn of(self, operation: Operation<V>) -> V {
        match operation {
            Operation::Num(n) => (self.number)(n@),
            Operation::Binary(op, l, r) => (self.binary)(op, l, r),
            Operation::Negate(x) => (self.negation)(x),
            Operation::Apply(f, x) => (self.application)(f, x),
        }
    }

    /// What the term `term` comes to: the operation at its root on what
    /// its operands come to.
    pub open spec fn fold(self, term: Expr) -> V
        decreases term,
    {
        match term {
            Expr::Num(number) => (self.number)(number),
            Expr::Binary(op, left, right) => (self.binary)(
                op,
                self.fold(*left),
                self.fold(*right),
            ),
            Expr::Negate(operand) => (self.negation)(self.fold(*operand)),
            Expr::Apply(f, operand) => (self.application)(f, self.fold(*operand)),
        }
    }
}

/// Whether the arithmetic `arith` computes what `meaning` says: whatever
/// it gives for an operation is what the operation comes to.
pub open spec fn follows<V, F: Fn(Operation<V>) -> V>(arith: &F, meaning: Meaning<V>) -> bool {
    forall|operation: Operation<V>, v: V| #[trigger]
        call_ensures(*arith, (operation,), v) ==> v == meaning.of(operation)
}

/// In an arithmetic that computes what `meaning` says, the number of a
/// term is what the term comes to.
pub proof fn lemma_number_of_term<V, F: Fn(Operation<V>) -> V>(
    arith: &F,
    meaning: Meaning<V>,
    term: Expr,
    v: V,
)
    requires
        follows(arith, meaning),
        denotes(arith, term, v),
    ensures
        v == meaning.fold(term),
    decreases term,
{
    match term {
        Expr::Num(number) => {},
        Expr::Binary(op, left, right) => {
            let (l, r) = choose|l: V, r: V|
                denotes(arith, *left, l) && denotes(arith, *right, r) && #[trigger] call_ensures(
                    *arith,
                    (Operation::Binary(op, l, r),),
                    v,
                );
            lemma_number_of_term(arith, meaning, *left, l);
            lemma_number_of_term(arith, meaning, *right, r);
        },
        Expr::Negate(operand) => {
            let x = choose|x: V|
                denotes(arith, *operand, x) && #[trigger] call_ensures(
                    *arith,
                    (Operation::Negate(x),),
                    v,
                );
            lemma_number_of_term(arith, meaning, *operand, x);
        },
        Expr::Apply(f, operand) => {
            let x = choose|x: V|
                denotes(arith, *operand, x) && #[trigger] call_ensures(
                    *arith,
                    (Operation::Apply(f, x),),
                    v,
                );
            lemma_number_of_term(arith, meaning, *operand, x);
        },
    }
}

} // verus!
