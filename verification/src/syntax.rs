//! Which expressions are well formed, and that each of them has a value.

use vstd::prelude::*;
use crate::calc::{lemma_run_push, run, value};
use crate::error::ParseError;
use crate::expr::Expr;
use crate::shunt::{
    close, constant, flush, function_marker, gives_way, is_close, is_open, lemma_name_end_bounds,
    lemma_number_end_bounds, name_end, number_end, postfix, same_family, scan, spec_is_binary,
    spec_is_digit, spec_is_func, spec_is_letter, spec_is_op, spec_is_space, stack_ok, start,
    token_of, unwind, Scan,
};
use crate::token::{MathTokenView, NumberView};

verus! {

/// Whether the characters of `s` from `pos` on complete a well-formed
/// expression, where `brackets` are the brackets that are open, the
/// innermost last, and `operand_due` says whether an operand must come
/// next.
///
/// Operands and binary operators alternate. An operand is a literal, a
/// constant, a bracketed expression or a function applied to one, with any
/// number of signs before it. A closing bracket closes the innermost open
/// bracket and is of its family. In the end an operand has been read and
/// no bracket is open.
pub open spec fn well_formed(s: Seq<char>, pos: int, brackets: Seq<char>, operand_due: bool) -> bool
    decreases s.len() - pos,
    when 0 <= pos
    via well_formed_decreases
{
    if pos >= s.len() {
        !operand_due && brackets.len() == 0
    } else {
        let c = s[pos];
        if spec_is_space(c) {
            well_formed(s, pos + 1, brackets, operand_due)
        } else if spec_is_digit(c) {
            operand_due && well_formed(s, number_end(s, pos + 1, false), brackets, false)
        } else if spec_is_letter(c) {
            let end = name_end(s, pos + 1);
            let name = s.subrange(pos, end);
            if end < s.len() && s[end] == '(' {
                operand_due && function_marker(name) is Some && well_formed(s, end, brackets, true)
            } else {
                operand_due && constant(name) is Some && well_formed(s, end, brackets, false)
            }
        } else if spec_is_binary(c) {
            if operand_due {
                (c == '+' || c == '-') && well_formed(s, pos + 1, brackets, true)
            } else {
                well_formed(s, pos + 1, brackets, true)
            }
        } else if is_open(c) {
            operand_due && well_formed(s, pos + 1, brackets.push(c), true)
        } else if is_close(c) {
            !operand_due && brackets.len() > 0 && same_family(brackets.last(), c) && well_formed(
                s,
                pos + 1,
                brackets.drop_last(),
                false,
            )
        } else {
            false
        }
    }
}

#[via_fn]
proof fn well_formed_decreases(s: Seq<char>, pos: int, brackets: Seq<char>, operand_due: bool) {
    if pos < s.len() {
        lemma_number_end_bounds(s, pos + 1, false);
        lemma_name_end_bounds(s, pos + 1);
    }
}

/// Whether `s` is a well-formed expression.
pub open spec fn syntactically_valid(s: Seq<char>) -> bool {
    well_formed(s, 0, Seq::empty(), true)
}

/// The opening brackets among the entries of an operator stack, in their
/// order.
pub open spec fn opens(ops: Seq<char>) -> Seq<char>
    decreases ops.len(),
{
    if ops.len() == 0 {
        Seq::empty()
    } else if is_open(ops.last()) {
        opens(ops.drop_last()).push(ops.last())
    } else {
        opens(ops.drop_last())
    }
}

/// How many entries of an operator stack are binary operators.
pub open spec fn binaries(ops: Seq<char>) -> nat
    decreases ops.len(),
{
    if ops.len() == 0 {
        0
    } else if spec_is_binary(ops.last()) {
        binaries(ops.drop_last()) + 1
    } else {
        binaries(ops.drop_last())
    }
}

/// The tokens `out` run through the evaluator without a failure and leave
/// `n` values.
pub open spec fn leaves(out: Seq<MathTokenView>, n: nat) -> bool {
    run(out, 0, Seq::empty()) matches Ok(stack) && stack.len() == n
}

/// A number at the end of the output is one more value.
proof fn lemma_leaves_number(out: Seq<MathTokenView>, number: NumberView, n: nat)
    requires
        leaves(out, n),
    ensures
        leaves(out.push(MathTokenView::Num(number)), n + 1),
{
    lemma_run_push(out, MathTokenView::Num(number), 0, Seq::empty());
}

/// An operator that leaves the stack finds its operands: with a binary
/// operator one value fewer is left, with another operator as many.
proof fn lemma_leaves_operator(out: Seq<MathTokenView>, op: char, n: nat)
    requires
        spec_is_op(op),
        leaves(out, n),
        n >= 1,
        spec_is_binary(op) ==> n >= 2,
    ensures
        leaves(out.push(token_of(op)), if spec_is_binary(op) { (n - 1) as nat } else { n }),
{
    lemma_run_push(out, token_of(op), 0, Seq::empty());
}

/// What the entries below the topmost entry of an operator stack are.
proof fn lemma_drop_entry(ops: Seq<char>)
    requires
        stack_ok(ops),
        ops.len() > 0,
    ensures
        stack_ok(ops.drop_last()),
        spec_is_op(ops.last()) || is_open(ops.last()),
        opens(ops) == if is_open(ops.last()) {
            opens(ops.drop_last()).push(ops.last())
        } else {
            opens(ops.drop_last())
        },
        binaries(ops) == if spec_is_binary(ops.last()) {
            binaries(ops.drop_last()) + 1
        } else {
            binaries(ops.drop_last())
        },
{
    let below = ops.drop_last();
    assert(ops.last() == ops[ops.len() - 1]);
    assert forall|i: int| 0 <= i < below.len() implies spec_is_op(#[trigger] below[i]) || is_open(
        below[i],
    ) by {
        assert(below[i] == ops[i]);
    }
}

proof fn lemma_unwind_valid(ops: Seq<char>, out: Seq<MathTokenView>, incoming: char)
    requires
        stack_ok(ops),
        leaves(out, binaries(ops) + 1),
    ensures
        stack_ok(unwind(ops, out, incoming).0),
        opens(unwind(ops, out, incoming).0) == opens(ops),
        leaves(unwind(ops, out, incoming).1, binaries(unwind(ops, out, incoming).0) + 1),
    decreases ops.len(),
{
    if ops.len() > 0 && gives_way(ops.last(), incoming) {
        lemma_drop_entry(ops);
        lemma_leaves_operator(out, ops.last(), binaries(ops) + 1);
        lemma_unwind_valid(ops.drop_last(), out.push(token_of(ops.last())), incoming);
    }
}

proof fn lemma_close_valid(ops: Seq<char>, out: Seq<MathTokenView>, paren: char)
    requires
        stack_ok(ops),
        opens(ops).len() > 0,
        same_family(opens(ops).last(), paren),
        leaves(out, binaries(ops) + 1),
    ensures
        close(ops, out, paren) matches Ok((rest, toks)) && {
            &&& stack_ok(rest)
            &&& opens(rest) == opens(ops).drop_last()
            &&& leaves(toks, binaries(rest) + 1)
        },
    decreases ops.len(),
{
    let top = ops.last();
    let below = ops.drop_last();
    lemma_drop_entry(ops);
    if is_open(top) {
        assert(opens(ops).drop_last() == opens(below));
        assert(opens(ops).last() == top);
        assert(binaries(below) == binaries(ops));
        if below.len() > 0 && spec_is_func(below.last()) {
            lemma_drop_entry(below);
            lemma_leaves_operator(out, below.last(), binaries(below) + 1);
            let rest = below.drop_last();
            let toks = out.push(token_of(below.last()));
            assert(close(ops, out, paren) == Ok::<(Seq<char>, Seq<MathTokenView>), ParseError>(
                (rest, toks),
            ));
            assert(opens(rest) == opens(below));
            assert(binaries(rest) == binaries(below));
        } else {
            assert(close(ops, out, paren) == Ok::<(Seq<char>, Seq<MathTokenView>), ParseError>(
                (below, out),
            ));
        }
    } else {
        lemma_leaves_operator(out, top, binaries(ops) + 1);
        lemma_close_valid(below, out.push(token_of(top)), paren);
    }
}

proof fn lemma_flush_valid(ops: Seq<char>, out: Seq<MathTokenView>)
    requires
        stack_ok(ops),
        opens(ops).len() == 0,
        leaves(out, binaries(ops) + 1),
    ensures
        flush(ops, out) matches Ok(toks) && leaves(toks, 1),
    decreases ops.len(),
{
    if ops.len() > 0 {
        lemma_drop_entry(ops);
        lemma_leaves_operator(out, ops.last(), binaries(ops) + 1);
        lemma_flush_valid(ops.drop_last(), out.push(token_of(ops.last())));
    }
}

proof fn lemma_push_entry(ops: Seq<char>, entry: char)
    requires
        stack_ok(ops),
        spec_is_op(entry) || is_open(entry),
    ensures
        stack_ok(ops.push(entry)),
        opens(ops.push(entry)) == if is_open(entry) {
            opens(ops).push(entry)
        } else {
            opens(ops)
        },
        binaries(ops.push(entry)) == if spec_is_binary(entry) {
            binaries(ops) + 1
        } else {
            binaries(ops)
        },
{
    let longer = ops.push(entry);
    assert(longer.drop_last() == ops);
    assert(longer.last() == entry);
    assert forall|i: int| 0 <= i < longer.len() implies spec_is_op(#[trigger] longer[i])
        || is_open(longer[i]) by {
        if i < ops.len() {
            assert(longer[i] == ops[i]);
        }
    }
}

proof fn lemma_function_marker_is_func(name: Seq<char>)
    requires
        function_marker(name) is Some,
    ensures
        spec_is_func(function_marker(name).unwrap()),
{
}

/// The conversion that goes on in a state that fits a well-formed rest of
/// the expression ends in tokens that have a value.
proof fn lemma_scan_valid(s: Seq<char>, pos: int, st: Scan)
    requires
        0 <= pos <= s.len(),
        stack_ok(st.ops),
        well_formed(s, pos, opens(st.ops), st.operand_due),
        leaves(st.out, binaries(st.ops) + if st.operand_due { 0nat } else { 1nat }),
    ensures
        scan(s, pos, st) matches Ok(toks) && value(toks) is Ok,
    decreases s.len() - pos,
{
    if pos >= s.len() {
        lemma_flush_valid(st.ops, st.out);
    } else {
        let c = s[pos];
        if spec_is_space(c) {
            lemma_scan_valid(s, pos + 1, st);
        } else if spec_is_digit(c) {
            let end = number_end(s, pos + 1, false);
            lemma_number_end_bounds(s, pos + 1, false);
            let number = NumberView::Literal(s.subrange(pos, end));
            lemma_leaves_number(st.out, number, binaries(st.ops));
            lemma_scan_valid(
                s,
                end,
                Scan { ops: st.ops, out: st.out.push(MathTokenView::Num(number)), operand_due: false },
            );
        } else if spec_is_letter(c) {
            let end = name_end(s, pos + 1);
            lemma_name_end_bounds(s, pos + 1);
            let name = s.subrange(pos, end);
            if end < s.len() && s[end] == '(' {
                let marker = function_marker(name).unwrap();
                lemma_function_marker_is_func(name);
                lemma_push_entry(st.ops, marker);
                lemma_scan_valid(
                    s,
                    end,
                    Scan { ops: st.ops.push(marker), out: st.out, operand_due: true },
                );
            } else {
                let number = constant(name).unwrap();
                lemma_leaves_number(st.out, number, binaries(st.ops));
                lemma_scan_valid(
                    s,
                    end,
                    Scan {
                        ops: st.ops,
                        out: st.out.push(MathTokenView::Num(number)),
                        operand_due: false,
                    },
                );
            }
        } else if spec_is_binary(c) {
            if st.operand_due {
                if c == '+' {
                    lemma_scan_valid(s, pos + 1, st);
                } else {
                    lemma_push_entry(st.ops, '~');
                    lemma_scan_valid(
                        s,
                        pos + 1,
                        Scan { ops: st.ops.push('~'), out: st.out, operand_due: true },
                    );
                }
            } else {
                lemma_unwind_valid(st.ops, st.out, c);
                let (ops, out) = unwind(st.ops, st.out, c);
                lemma_push_entry(ops, c);
                lemma_scan_valid(s, pos + 1, Scan { ops: ops.push(c), out: out, operand_due: true });
            }
        } else if is_open(c) {
            lemma_push_entry(st.ops, c);
            lemma_scan_valid(
                s,
                pos + 1,
                Scan { ops: st.ops.push(c), out: st.out, operand_due: true },
            );
        } else if is_close(c) {
            lemma_close_valid(st.ops, st.out, c);
            let (ops, out) = close(st.ops, st.out, c).unwrap();
            lemma_scan_valid(s, pos + 1, Scan { ops: ops, out: out, operand_due: false });
        }
    }
}

/// Every well-formed expression has a value: its conversion succeeds, and
/// the evaluation of the tokens that the conversion gives ends with exactly
/// one value on the stack.
pub proof fn lemma_valid_expression_has_value(s: Seq<char>)
    requires
        syntactically_valid(s),
    ensures
        postfix(s) matches Ok(toks) && value(toks) matches Ok(v) && run(toks, 0, Seq::empty())
            == Ok::<Seq<Expr>, ParseError>(seq![v]),
        crate::evaluation(s) is Ok,
{
    lemma_scan_valid(s, 0, start());
    let toks = postfix(s).unwrap();
    let stack = run(toks, 0, Seq::empty()).unwrap();
    assert(stack =~= seq![stack[0]]);
}

/// A closing bracket is rejected unless the innermost open bracket is of
/// its family: where no bracket is open, or the innermost one is of the
/// other family, the conversion that meets the closing bracket at `pos`
/// ends in `UnbalancedParens`, whatever follows.
pub proof fn lemma_mismatched_bracket_is_rejected(s: Seq<char>, pos: int, st: Scan)
    requires
        0 <= pos < s.len(),
        is_close(s[pos]),
        opens(st.ops).len() == 0 || !same_family(opens(st.ops).last(), s[pos]),
    ensures
        close(st.ops, st.out, s[pos]) == Err::<(Seq<char>, Seq<MathTokenView>), ParseError>(
            ParseError::UnbalancedParens,
        ),
        scan(s, pos, st) == Err::<Seq<MathTokenView>, ParseError>(ParseError::UnbalancedParens),
{
    lemma_close_mismatch(st.ops, st.out, s[pos]);
}

proof fn lemma_close_mismatch(ops: Seq<char>, out: Seq<MathTokenView>, paren: char)
    requires
        opens(ops).len() == 0 || !same_family(opens(ops).last(), paren),
    ensures
        close(ops, out, paren) == Err::<(Seq<char>, Seq<MathTokenView>), ParseError>(
            ParseError::UnbalancedParens,
        ),
    decreases ops.len(),
{
    if ops.len() > 0 && !is_open(ops.last()) {
        lemma_close_mismatch(ops.drop_last(), out.push(token_of(ops.last())), paren);
    }
}

/// An opening bracket that is never closed is rejected: where a bracket is
/// still open at the end of the expression, the conversion ends in
/// `UnbalancedParens`.
pub proof fn lemma_unclosed_bracket_is_rejected(s: Seq<char>, pos: int, st: Scan)
    requires
        pos >= s.len(),
        opens(st.ops).len() > 0,
    ensures
        scan(s, pos, st) == Err::<Seq<MathTokenView>, ParseError>(ParseError::UnbalancedParens),
{
    lemma_flush_unclosed(st.ops, st.out);
}

proof fn lemma_flush_unclosed(ops: Seq<char>, out: Seq<MathTokenView>)
    requires
        opens(ops).len() > 0,
    ensures
        flush(ops, out) == Err::<Seq<MathTokenView>, ParseError>(ParseError::UnbalancedParens),
    decreases ops.len(),
{
    if ops.len() > 0 && spec_is_op(ops.last()) {
        lemma_flush_unclosed(ops.drop_last(), out.push(token_of(ops.last())));
    }
}

/// A function is applied to the bracket that follows its name: where the
/// bracket `(` stands right above the marker of the function `f`, and only
/// operators stand above the bracket, the closing bracket `)` puts out
/// those operators, as the end of the input would, and then the function.
pub proof fn lemma_function_binds_to_its_bracket(
    ops: Seq<char>,
    inner: Seq<char>,
    out: Seq<MathTokenView>,
    f: char,
)
    requires
        spec_is_func(f),
        flush(inner, out) is Ok,
    ensures
        close(ops.push(f).push('(') + inner, out, ')') == Ok::<
            (Seq<char>, Seq<MathTokenView>),
            ParseError,
        >((ops, flush(inner, out).unwrap().push(MathTokenView::Func(f)))),
    decreases inner.len(),
{
    let below = ops.push(f).push('(');
    let whole = below + inner;
    if inner.len() == 0 {
        assert(whole =~= below);
        assert(below.drop_last() =~= ops.push(f));
        assert(ops.push(f).drop_last() =~= ops);
    } else {
        assert(whole.last() == inner.last());
        assert(whole.drop_last() =~= below + inner.drop_last());
        lemma_function_binds_to_its_bracket(
            ops,
            inner.drop_last(),
            out.push(token_of(inner.last())),
            f,
        );
    }
}

/// Whether the brackets among the characters of `s` from `pos` on match,
/// where `brackets` are the brackets that are open, the innermost last:
/// every closing bracket closes the innermost open bracket and is of its
/// family, and in the end no bracket is open. Other characters do not
/// count.
pub open spec fn balanced(s: Seq<char>, pos: int, brackets: Seq<char>) -> bool
    decreases s.len() - pos,
{
    if pos < 0 || pos >= s.len() {
        brackets.len() == 0
    } else if is_open(s[pos]) {
        balanced(s, pos + 1, brackets.push(s[pos]))
    } else if is_close(s[pos]) {
        brackets.len() > 0 && same_family(brackets.last(), s[pos]) && balanced(
            s,
            pos + 1,
            brackets.drop_last(),
        )
    } else {
        balanced(s, pos + 1, brackets)
    }
}

/// Characters that are no brackets do not count.
proof fn lemma_balanced_skips(s: Seq<char>, pos: int, end: int, brackets: Seq<char>)
    requires
        0 <= pos <= end <= s.len(),
        forall|i: int| pos <= i < end ==> !is_open(#[trigger] s[i]) && !is_close(s[i]),
    ensures
        balanced(s, pos, brackets) == balanced(s, end, brackets),
    decreases end - pos,
{
    if pos < end {
        lemma_balanced_skips(s, pos + 1, end, brackets);
    }
}

/// A literal holds no bracket.
proof fn lemma_number_holds_no_bracket(s: Seq<char>, from: int, point: bool)
    requires
        0 <= from <= s.len(),
    ensures
        forall|i: int|
            from <= i < number_end(s, from, point) ==> !is_open(#[trigger] s[i]) && !is_close(
                s[i],
            ),
    decreases s.len() - from,
{
    if from < s.len() {
        if spec_is_digit(s[from]) {
            lemma_number_holds_no_bracket(s, from + 1, point);
        } else if s[from] == '.' && !point {
            lemma_number_holds_no_bracket(s, from + 1, true);
        }
    }
}

/// A name holds no bracket.
proof fn lemma_name_holds_no_bracket(s: Seq<char>, from: int)
    requires
        0 <= from <= s.len(),
    ensures
        forall|i: int|
            from <= i < name_end(s, from) ==> !is_open(#[trigger] s[i]) && !is_close(s[i]),
    decreases s.len() - from,
{
    if from < s.len() && spec_is_letter(s[from]) {
        lemma_name_holds_no_bracket(s, from + 1);
    }
}

/// Operators that give way take no bracket with them.
proof fn lemma_unwind_keeps_brackets(ops: Seq<char>, out: Seq<MathTokenView>, incoming: char)
    ensures
        opens(unwind(ops, out, incoming).0) == opens(ops),
    decreases ops.len(),
{
    if ops.len() > 0 && gives_way(ops.last(), incoming) {
        lemma_unwind_keeps_brackets(ops.drop_last(), out.push(token_of(ops.last())), incoming);
    }
}

/// A closing bracket that is accepted has closed the innermost open
/// bracket, which is of its family.
proof fn lemma_close_takes_innermost(ops: Seq<char>, out: Seq<MathTokenView>, paren: char)
    requires
        close(ops, out, paren) is Ok,
    ensures
        opens(ops).len() > 0,
        same_family(opens(ops).last(), paren),
        opens(close(ops, out, paren).unwrap().0) == opens(ops).drop_last(),
    decreases ops.len(),
{
    let below = ops.drop_last();
    if is_open(ops.last()) {
        assert(opens(ops).drop_last() == opens(below));
        if below.len() > 0 && spec_is_func(below.last()) {
            assert(opens(below.drop_last()) == opens(below));
        }
    } else {
        lemma_close_takes_innermost(below, out.push(token_of(ops.last())), paren);
    }
}

/// A conversion that succeeds has met matching brackets only.
proof fn lemma_scan_balanced(s: Seq<char>, pos: int, st: Scan)
    requires
        0 <= pos <= s.len(),
        scan(s, pos, st) is Ok,
    ensures
        balanced(s, pos, opens(st.ops)),
    decreases s.len() - pos,
{
    if pos >= s.len() {
        if opens(st.ops).len() > 0 {
            lemma_flush_unclosed(st.ops, st.out);
        }
    } else {
        let c = s[pos];
        if spec_is_space(c) {
            lemma_scan_balanced(s, pos + 1, st);
        } else if spec_is_digit(c) {
            let end = number_end(s, pos + 1, false);
            lemma_number_end_bounds(s, pos + 1, false);
            lemma_number_holds_no_bracket(s, pos + 1, false);
            let literal = MathTokenView::Num(NumberView::Literal(s.subrange(pos, end)));
            lemma_scan_balanced(
                s,
                end,
                Scan { ops: st.ops, out: st.out.push(literal), operand_due: false },
            );
            lemma_balanced_skips(s, pos, end, opens(st.ops));
        } else if spec_is_letter(c) {
            let end = name_end(s, pos + 1);
            lemma_name_end_bounds(s, pos + 1);
            lemma_name_holds_no_bracket(s, pos + 1);
            let name = s.subrange(pos, end);
            if end < s.len() && s[end] == '(' {
                let marker = function_marker(name).unwrap();
                let ops = st.ops.push(marker);
                assert(ops.drop_last() == st.ops && ops.last() == marker);
                lemma_function_marker_is_func(name);
                lemma_scan_balanced(s, end, Scan { ops: ops, out: st.out, operand_due: true });
            } else {
                let number = MathTokenView::Num(constant(name).unwrap());
                lemma_scan_balanced(
                    s,
                    end,
                    Scan { ops: st.ops, out: st.out.push(number), operand_due: false },
                );
            }
            lemma_balanced_skips(s, pos, end, opens(st.ops));
        } else if spec_is_binary(c) {
            if st.operand_due {
                if c == '+' {
                    lemma_scan_balanced(s, pos + 1, st);
                } else {
                    let ops = st.ops.push('~');
                    assert(ops.drop_last() == st.ops && ops.last() == '~');
                    lemma_scan_balanced(
                        s,
                        pos + 1,
                        Scan { ops: ops, out: st.out, operand_due: true },
                    );
                }
            } else {
                lemma_unwind_keeps_brackets(st.ops, st.out, c);
                let (ops, out) = unwind(st.ops, st.out, c);
                assert(ops.push(c).drop_last() == ops && ops.push(c).last() == c);
                lemma_scan_balanced(s, pos + 1, Scan { ops: ops.push(c), out: out, operand_due: true });
            }
        } else if is_open(c) {
            let ops = st.ops.push(c);
            assert(ops.drop_last() == st.ops && ops.last() == c);
            lemma_scan_balanced(s, pos + 1, Scan { ops: ops, out: st.out, operand_due: true });
        } else if is_close(c) {
            lemma_close_takes_innermost(st.ops, st.out, c);
            let (ops, out) = close(st.ops, st.out, c).unwrap();
            lemma_scan_balanced(s, pos + 1, Scan { ops: ops, out: out, operand_due: false });
        }
    }
}

/// Brackets that do not match are always rejected: an expression in which a
/// closing bracket has no opening partner of its family, or an opening
/// bracket is never closed, has no postfix form.
pub proof fn lemma_unbalanced_brackets_are_rejected(s: Seq<char>)
    requires
        !balanced(s, 0, Seq::empty()),
    ensures
        postfix(s) is Err,
        crate::evaluation(s) is Err,
{
    if postfix(s) is Ok {
        lemma_scan_balanced(s, 0, start());
    }
}

} // verus!
