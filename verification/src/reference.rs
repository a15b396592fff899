//! Expressions without brackets, powers and functions, evaluated in the
//! plain way: from left to right, with a sum and a product that are under
//! way. The converter and the evaluator together agree with it.

use vstd::prelude::*;
use crate::calc::{lemma_run_push, run, value};
use crate::error::ParseError;
use crate::expr::Expr;
use crate::shunt::{
    constant, flush, lemma_name_end_bounds, lemma_number_end_bounds, name_end, number_end, scan,
    spec_is_binary, spec_is_digit, spec_is_letter, spec_is_space, start, token_of, unwind, Scan,
};
use crate::token::{MathTokenView, NumberView};

verus! {

/// What a plain evaluation has before it between two characters.
pub struct Pending {
    /// The sum so far, and the `+` or `-` that waits for its right operand.
    pub sum: Option<(Expr, char)>,
    /// How many signs `-` stand before the product that is under way.
    pub signs: nat,
    /// The product so far, and the `*` or `/` that waits for its right
    /// operand.
    pub product: Option<(Expr, char)>,
    /// The operand that was just read, if an operator is due.
    pub atom: Option<Expr>,
}

/// `right`, or the operation that waits in `left` applied to its left
/// operand and `right`.
pub open spec fn joined(left: Option<(Expr, char)>, right: Expr) -> Expr {
    match left {
        Some((l, op)) => Expr::Binary(op, Box::new(l), Box::new(right)),
        None => right,
    }
}

/// The term `e`, negated `signs` times.
pub open spec fn negated(signs: nat, e: Expr) -> Expr
    decreases signs,
{
    if signs == 0 {
        e
    } else {
        negated((signs - 1) as nat, Expr::Negate(Box::new(e)))
    }
}

/// The value of what `p` has before it, completed by the operand `x`: the
/// product, with its signs, joined to the sum.
pub open spec fn completed(p: Pending, x: Expr) -> Expr {
    joined(p.sum, negated(p.signs, joined(p.product, x)))
}

/// The value of the expression `s`, read on from `pos` with `p` before it,
/// if `s` is plain: numbers and the operators `+ - * /` in turn, with white
/// space among them, and with signs only before a product.
///
/// A `*` or `/` takes the product so far as its left operand. A `+` or `-`
/// first completes the product, applies the signs before it, and takes the
/// sum so far as its left operand. The end completes all of them.
pub open spec fn plain_from(s: Seq<char>, pos: int, p: Pending) -> Option<Expr>
    decreases s.len() - pos,
    when 0 <= pos
    via plain_from_decreases
{
    if pos >= s.len() {
        match p.atom {
            Some(x) => Some(completed(p, x)),
            None => None,
        }
    } else {
        let c = s[pos];
        if spec_is_space(c) {
            plain_from(s, pos + 1, p)
        } else if spec_is_digit(c) {
            let end = number_end(s, pos + 1, false);
            let x = Expr::Num(NumberView::Literal(s.subrange(pos, end)));
            if p.atom is None {
                plain_from(s, end, Pending { atom: Some(x), ..p })
            } else {
                None
            }
        } else if spec_is_letter(c) {
            let end = name_end(s, pos + 1);
            let name = s.subrange(pos, end);
            if p.atom is None && !(end < s.len() && s[end] == '(') && constant(name) is Some {
                let x = Expr::Num(constant(name).unwrap());
                plain_from(s, end, Pending { atom: Some(x), ..p })
            } else {
                None
            }
        } else if c == '+' || c == '-' {
            match p.atom {
                Some(x) => plain_from(
                    s,
                    pos + 1,
                    Pending { sum: Some((completed(p, x), c)), signs: 0, product: None, atom: None },
                ),
                None => if p.product is Some {
                    None
                } else if c == '+' {
                    plain_from(s, pos + 1, p)
                } else {
                    plain_from(s, pos + 1, Pending { signs: p.signs + 1, ..p })
                },
            }
        } else if c == '*' || c == '/' {
            match p.atom {
                Some(x) => plain_from(
                    s,
                    pos + 1,
                    Pending { product: Some((joined(p.product, x), c)), atom: None, ..p },
                ),
                None => None,
            }
        } else {
            None
        }
    }
}

#[via_fn]
proof fn plain_from_decreases(s: Seq<char>, pos: int, p: Pending) {
    if pos < s.len() {
        lemma_number_end_bounds(s, pos + 1, false);
        lemma_name_end_bounds(s, pos + 1);
    }
}

/// The value of the plain expression `s`; `None` where `s` is not plain.
pub open spec fn plain(s: Seq<char>) -> Option<Expr> {
    plain_from(s, 0, Pending { sum: None, signs: 0, product: None, atom: None })
}

/// The operator that waits in `left`, as the converter holds it.
pub open spec fn holder(left: Option<(Expr, char)>) -> Seq<char> {
    match left {
        Some((_, op)) => seq![op],
        None => seq![],
    }
}

/// The operand that waits in `left`, as the evaluator holds it.
pub open spec fn held(left: Option<(Expr, char)>) -> Seq<Expr> {
    match left {
        Some((l, _)) => seq![l],
        None => seq![],
    }
}

/// The operator stack `below`, with `signs` negations on top.
pub open spec fn signed(below: Seq<char>, signs: nat) -> Seq<char>
    decreases signs,
{
    if signs == 0 {
        below
    } else {
        signed(below, (signs - 1) as nat).push('~')
    }
}

/// The output `out`, with `signs` negations behind it.
pub open spec fn negations(out: Seq<MathTokenView>, signs: nat) -> Seq<MathTokenView>
    decreases signs,
{
    if signs == 0 {
        out
    } else {
        negations(out.push(token_of('~')), (signs - 1) as nat)
    }
}

/// The operators that wait in `p`, as the converter holds them.
pub open spec fn waiting(p: Pending) -> Seq<char> {
    signed(holder(p.sum), p.signs) + holder(p.product)
}

/// The operands of `p` that are complete, as the evaluator holds them.
pub open spec fn operands(p: Pending) -> Seq<Expr> {
    let left = held(p.sum) + held(p.product);
    match p.atom {
        Some(x) => left.push(x),
        None => left,
    }
}

/// The operators that wait in `p` are of the kinds they stand for.
pub open spec fn fits(p: Pending) -> bool {
    &&& p.sum matches Some((_, a)) ==> a == '+' || a == '-'
    &&& p.product matches Some((_, m)) ==> m == '*' || m == '/'
}

/// A binary operator that leaves the converter's stack joins the two
/// topmost values.
proof fn lemma_join(out: Seq<MathTokenView>, below: Seq<Expr>, l: Expr, r: Expr, op: char)
    requires
        spec_is_binary(op),
        run(out, 0, Seq::empty()) == Ok::<Seq<Expr>, ParseError>(below.push(l).push(r)),
    ensures
        run(out.push(token_of(op)), 0, Seq::empty()) == Ok::<Seq<Expr>, ParseError>(
            below.push(Expr::Binary(op, Box::new(l), Box::new(r))),
        ),
{
    lemma_run_push(out, token_of(op), 0, Seq::empty());
    let stack = below.push(l).push(r);
    let n = stack.len() as int;
    assert(stack.subrange(0, n - 2) =~= below);
}

/// The operator that waits in `left` joins its operand to the topmost
/// value when it leaves the converter's stack.
proof fn lemma_join_held(out: Seq<MathTokenView>, left: Option<(Expr, char)>, x: Expr, below: Seq<Expr>)
    requires
        left matches Some((_, op)) ==> spec_is_binary(op),
        run(out, 0, Seq::empty()) == Ok::<Seq<Expr>, ParseError>((below + held(left)).push(x)),
    ensures
        run(
            match left {
                Some((_, op)) => out.push(token_of(op)),
                None => out,
            },
            0,
            Seq::empty(),
        ) == Ok::<Seq<Expr>, ParseError>(below.push(joined(left, x))),
{
    match left {
        Some((l, op)) => {
            assert(below + held(left) =~= below.push(l));
            lemma_join(out, below, l, x, op);
        },
        None => {
            assert(below + held(left) =~= below);
        },
    }
}

/// Negations that leave the converter's stack negate the topmost value.
proof fn lemma_negations(out: Seq<MathTokenView>, below: Seq<Expr>, x: Expr, signs: nat)
    requires
        run(out, 0, Seq::empty()) == Ok::<Seq<Expr>, ParseError>(below.push(x)),
    ensures
        run(negations(out, signs), 0, Seq::empty()) == Ok::<Seq<Expr>, ParseError>(
            below.push(negated(signs, x)),
        ),
    decreases signs,
{
    if signs > 0 {
        lemma_run_push(out, token_of('~'), 0, Seq::empty());
        assert(below.push(x).drop_last() =~= below);
        lemma_negations(
            out.push(token_of('~')),
            below,
            Expr::Negate(Box::new(x)),
            (signs - 1) as nat,
        );
    }
}

/// Before a `+` or `-` the negations on top of the stack give way.
proof fn lemma_unwind_signs(below: Seq<char>, signs: nat, out: Seq<MathTokenView>, c: char)
    requires
        c == '+' || c == '-',
    ensures
        unwind(signed(below, signs), out, c) == unwind(below, negations(out, signs), c),
    decreases signs,
{
    if signs > 0 {
        let ops = signed(below, signs);
        assert(ops.last() == '~');
        assert(ops.drop_last() =~= signed(below, (signs - 1) as nat));
        lemma_unwind_signs(below, (signs - 1) as nat, out.push(token_of('~')), c);
    }
}

/// At the end of the input the negations on top of the stack leave it.
proof fn lemma_flush_signs(below: Seq<char>, signs: nat, out: Seq<MathTokenView>)
    ensures
        flush(signed(below, signs), out) == flush(below, negations(out, signs)),
    decreases signs,
{
    if signs > 0 {
        let ops = signed(below, signs);
        assert(ops.last() == '~');
        assert(ops.drop_last() =~= signed(below, (signs - 1) as nat));
        lemma_flush_signs(below, (signs - 1) as nat, out.push(token_of('~')));
    }
}

/// One more sign on the stack.
proof fn lemma_one_more_sign(p: Pending)
    requires
        p.product is None,
    ensures
        waiting(p).push('~') == waiting(Pending { signs: p.signs + 1, ..p }),
{
    assert(waiting(p) =~= signed(holder(p.sum), p.signs));
    assert(waiting(Pending { signs: p.signs + 1, ..p }) =~= signed(holder(p.sum), p.signs + 1));
}

/// The output and the values after everything that waits in `p` has left
/// the stack: the product first, then the signs, then the sum.
proof fn lemma_complete(p: Pending, x: Expr, out: Seq<MathTokenView>) -> (emptied: Seq<MathTokenView>)
    requires
        fits(p),
        p.atom == Some(x),
        run(out, 0, Seq::empty()) == Ok::<Seq<Expr>, ParseError>(operands(p)),
    ensures
        run(emptied, 0, Seq::empty()) == Ok::<Seq<Expr>, ParseError>(seq![completed(p, x)]),
        flush(waiting(p), out) == Ok::<Seq<MathTokenView>, ParseError>(emptied),
        forall|c: char|
            c == '+' || c == '-' ==> unwind(waiting(p), out, c) == (Seq::<char>::empty(), emptied),
{
    let none: Seq<Expr> = seq![];
    let base = signed(holder(p.sum), p.signs);
    assert(operands(p) =~= (held(p.sum) + held(p.product)).push(x));
    lemma_join_held(out, p.product, x, held(p.sum));
    let out1 = match p.product {
        Some((_, m)) => out.push(token_of(m)),
        None => out,
    };
    let part = joined(p.product, x);
    lemma_negations(out1, held(p.sum), part, p.signs);
    let out2 = negations(out1, p.signs);
    let term = negated(p.signs, part);
    assert(held(p.sum).push(term) =~= (none + held(p.sum)).push(term));
    lemma_join_held(out2, p.sum, term, none);
    let out3 = match p.sum {
        Some((_, a)) => out2.push(token_of(a)),
        None => out2,
    };
    assert(none.push(completed(p, x)) =~= seq![completed(p, x)]);
    // the same steps on the operator stack
    reveal_with_fuel(flush, 2);
    reveal_with_fuel(unwind, 2);
    match p.product {
        Some((_, m)) => {
            assert(waiting(p) =~= base.push(m));
            assert(waiting(p).last() == m && waiting(p).drop_last() =~= base);
        },
        None => {
            assert(waiting(p) =~= base);
        },
    }
    lemma_flush_signs(holder(p.sum), p.signs, out1);
    match p.sum {
        Some((_, a)) => {
            assert(holder(p.sum).last() == a && holder(p.sum).drop_last() =~= seq![]);
        },
        None => {},
    }
    assert(flush(waiting(p), out) == Ok::<Seq<MathTokenView>, ParseError>(out3));
    assert forall|c: char| c == '+' || c == '-' implies unwind(waiting(p), out, c) == (
        Seq::<char>::empty(),
        out3,
    ) by {
        lemma_unwind_signs(holder(p.sum), p.signs, out1, c);
        assert(unwind(base, out1, c) == unwind(holder(p.sum), out2, c));
        assert(unwind(holder(p.sum), out2, c) == (Seq::<char>::empty(), out3));
    }
    out3
}

/// The converter, on with a plain expression, ends in tokens whose value
/// is that of the plain evaluation.
proof fn lemma_scan_plain(s: Seq<char>, pos: int, st: Scan, p: Pending)
    requires
        0 <= pos <= s.len(),
        fits(p),
        st.ops == waiting(p),
        st.operand_due == (p.atom is None),
        run(st.out, 0, Seq::empty()) == Ok::<Seq<Expr>, ParseError>(operands(p)),
        plain_from(s, pos, p) is Some,
    ensures
        scan(s, pos, st) matches Ok(toks) && value(toks) == Ok::<Expr, ParseError>(
            plain_from(s, pos, p).unwrap(),
        ),
    decreases s.len() - pos,
{
    let none: Seq<Expr> = seq![];
    if pos >= s.len() {
        let x = p.atom.unwrap();
        let emptied = lemma_complete(p, x, st.out);
    } else {
        let c = s[pos];
        if spec_is_space(c) {
            lemma_scan_plain(s, pos + 1, st, p);
        } else if spec_is_digit(c) || spec_is_letter(c) {
            let end = if spec_is_digit(c) {
                number_end(s, pos + 1, false)
            } else {
                name_end(s, pos + 1)
            };
            lemma_number_end_bounds(s, pos + 1, false);
            lemma_name_end_bounds(s, pos + 1);
            let number = if spec_is_digit(c) {
                NumberView::Literal(s.subrange(pos, end))
            } else {
                constant(s.subrange(pos, end)).unwrap()
            };
            let tok = MathTokenView::Num(number);
            let q = Pending { atom: Some(Expr::Num(number)), ..p };
            lemma_run_push(st.out, tok, 0, Seq::empty());
            lemma_scan_plain(
                s,
                end,
                Scan { ops: st.ops, out: st.out.push(tok), operand_due: false },
                q,
            );
        } else if c == '+' || c == '-' {
            match p.atom {
                Some(x) => {
                    let emptied = lemma_complete(p, x, st.out);
                    let q = Pending {
                        sum: Some((completed(p, x), c)),
                        signs: 0,
                        product: None,
                        atom: None,
                    };
                    assert(waiting(q) =~= Seq::<char>::empty().push(c));
                    assert(operands(q) =~= seq![completed(p, x)]);
                    lemma_scan_plain(
                        s,
                        pos + 1,
                        Scan { ops: Seq::<char>::empty().push(c), out: emptied, operand_due: true },
                        q,
                    );
                },
                None => {
                    if c == '+' {
                        lemma_scan_plain(s, pos + 1, st, p);
                    } else {
                        let q = Pending { signs: p.signs + 1, ..p };
                        lemma_one_more_sign(p);
                        lemma_scan_plain(
                            s,
                            pos + 1,
                            Scan { ops: st.ops.push('~'), out: st.out, operand_due: true },
                            q,
                        );
                    }
                },
            }
        } else {
            let x = p.atom.unwrap();
            let part = joined(p.product, x);
            let q = Pending { product: Some((part, c)), atom: None, ..p };
            let base = signed(holder(p.sum), p.signs);
            reveal_with_fuel(unwind, 2);
            assert(operands(p) =~= (held(p.sum) + held(p.product)).push(x));
            lemma_join_held(st.out, p.product, x, held(p.sum));
            assert(operands(q) =~= held(p.sum).push(part));
            assert(waiting(q) =~= base.push(c));
            match p.product {
                Some((_, m)) => {
                    assert(waiting(p) =~= base.push(m));
                    assert(st.ops.last() == m && st.ops.drop_last() =~= base);
                },
                None => {
                    assert(waiting(p) =~= base);
                },
            }
            assert(base.len() > 0 ==> !crate::shunt::gives_way(base.last(), c)) by {
                if p.signs > 0 {
                    assert(base.last() == '~');
                } else if p.sum is Some {
                    assert(base =~= holder(p.sum));
                    assert(base.last() == p.sum.unwrap().1);
                }
            }
            let (ops, out) = unwind(st.ops, st.out, c);
            assert(ops == base);
            lemma_scan_plain(s, pos + 1, Scan { ops: ops.push(c), out: out, operand_due: true }, q);
        }
    }
}

/// On expressions without brackets, powers and functions the pipeline
/// agrees with the plain evaluation from left to right: `*` and `/` bind
/// tighter than `+` and `-`, operators of one level group from the left,
/// and signs before a product apply to the whole product.
pub proof fn lemma_plain_expression(s: Seq<char>)
    requires
        plain(s) is Some,
    ensures
        crate::evaluation(s) == Ok::<Expr, ParseError>(plain(s).unwrap()),
{
    let p = Pending { sum: None, signs: 0, product: None, atom: None };
    assert(waiting(p) =~= start().ops);
    assert(operands(p) =~= Seq::<Expr>::empty());
    lemma_scan_plain(s, 0, start(), p);
}

} // verus!
