//! The vocabulary shared by the converter and the evaluator.

use vstd::prelude::*;

verus! {

/// A number as it is written in an expression.
///
/// The library never computes with the number itself. A literal keeps the
/// characters it was written with, and a constant keeps its identity: the
/// arithmetic that an evaluation is handed decides what number they are.
#[derive(Debug, PartialEq, Eq, Clone)]
pub enum Number {
    /// A decimal literal: one digit, then digits with at most one `.` among
    /// them.
    Literal(Vec<char>),
    /// The circle constant, written `pi` or `PI`.
    Pi,
    /// Euler's number, written `e`.
    E,
}

/// The mathematical value of a [`Number`].
pub enum NumberView {
    Literal(Seq<char>),
    Pi,
    E,
}

impl View for Number {
    type V = NumberView;

    open spec fn view(&self) -> NumberView {
        match self {
            Number::Literal(text) => NumberView::Literal(text@),
            Number::Pi => NumberView::Pi,
            Number::E => NumberView::E,
        }
    }
}

impl DeepView for Number {
    type V = NumberView;

    open spec fn deep_view(&self) -> NumberView {
        self@
    }
}

/// One unit of an expression in postfix order.
#[derive(Debug, PartialEq, Eq, Clone)]
pub enum MathToken {
    /// A literal or a constant.
    Num(Number),
    /// One of `+ - * / ^`; takes two operands.
    BinOp(char),
    /// The negation `~`; takes one operand.
    UnOp(char),
    /// A function, by its marker (see [`crate::shunt::is_func`]); takes one
    /// operand.
    Func(char),
}

/// The mathematical value of a [`MathToken`].
pub enum MathTokenView {
    Num(NumberView),
    BinOp(char),
    UnOp(char),
    Func(char),
}

impl View for MathToken {
    type V = MathTokenView;

    open spec fn view(&self) -> MathTokenView {
        match self {
            MathToken::Num(n) => MathTokenView::Num(n@),
            MathToken::BinOp(op) => MathTokenView::BinOp(*op),
            MathToken::UnOp(op) => MathTokenView::UnOp(*op),
            MathToken::Func(f) => MathTokenView::Func(*f),
        }
    }
}

impl DeepView for MathToken {
    type V = MathTokenView;

    open spec fn deep_view(&self) -> MathTokenView {
        self@
    }
}

} // verus!
