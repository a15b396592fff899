//! The integer calculator: tokens of an expression over 32-bit integers,
//! evaluated by recursive descent.

use vstd::prelude::*;
use crate::parse_error::ParseError;
use crate::shunt::same_family;
use crate::tokenizer::{Token, TokenView};

verus! {

// ---------------------------------------------------------------------------
// Variables

/// The values of variables, by name.
pub struct Vars {
    /// Names with their values. Where a name stands twice, the later entry
    /// counts.
    entries: Vec<(String, i32)>,
}

/// The map that the entries `entries` make, a later entry overriding an
/// earlier one of the same name.
spec fn bound(entries: Seq<(String, i32)>) -> Map<Seq<char>, i32>
    decreases entries.len(),
{
    if entries.len() == 0 {
        Map::empty()
    } else {
        bound(entries.drop_last()).insert(entries.last().0@, entries.last().1)
    }
}

/// No entry of `entries` from `from` on has the name `name`.
spec fn absent_from(entries: Seq<(String, i32)>, from: int, name: Seq<char>) -> bool {
    forall|k: int| from <= k < entries.len() ==> (#[trigger] entries[k]).0@ != name
}

proof fn lemma_bound_absent(entries: Seq<(String, i32)>, name: Seq<char>)
    requires
        absent_from(entries, 0, name),
    ensures
        !bound(entries).contains_key(name),
    decreases entries.len(),
{
    if entries.len() > 0 {
        assert(entries.last() == entries[entries.len() - 1]);
        lemma_bound_absent(entries.drop_last(), name);
    }
}

proof fn lemma_bound_last(entries: Seq<(String, i32)>, i: int, name: Seq<char>)
    requires
        0 <= i < entries.len(),
        entries[i].0@ == name,
        absent_from(entries, i + 1, name),
    ensures
        bound(entries).contains_key(name),
        bound(entries)[name] == entries[i].1,
    decreases entries.len(),
{
    if i < entries.len() - 1 {
        assert(entries.last() == entries[entries.len() - 1]);
        lemma_bound_last(entries.drop_last(), i, name);
    }
}

proof fn lemma_bound_update(entries: Seq<(String, i32)>, i: int, entry: (String, i32))
    requires
        0 <= i < entries.len(),
        entries[i].0@ == entry.0@,
        absent_from(entries, i + 1, entry.0@),
    ensures
        bound(entries.update(i, entry)) == bound(entries).insert(entry.0@, entry.1),
    decreases entries.len(),
{
    let updated = entries.update(i, entry);
    if i < entries.len() - 1 {
        assert(entries.last() == entries[entries.len() - 1]);
        lemma_bound_update(entries.drop_last(), i, entry);
        assert(updated.drop_last() == entries.drop_last().update(i, entry));
        assert(updated.last() == entries.last());
        assert(bound(updated) =~= bound(entries).insert(entry.0@, entry.1));
    } else {
        assert(updated.drop_last() == entries.drop_last());
        assert(bound(updated) =~= bound(entries).insert(entry.0@, entry.1));
    }
}

impl View for Vars {
    type V = Map<Seq<char>, i32>;

    /// The value of every variable that has one.
    closed spec fn view(&self) -> Map<Seq<char>, i32> {
        bound(self.entries@)
    }
}

impl Vars {
    /// No variable has a value.
    pub fn new() -> (vars: Vars)
        ensures
            vars@ == Map::<Seq<char>, i32>::empty(),
    {
        Vars { entries: Vec::new() }
    }

    /// Gives the variable `name` the value `value`, whether or not it had
    /// one.
    pub fn set(&mut self, name: &str, value: i32)
        ensures
            final(self)@ == old(self)@.insert(name@, value),
    {
        let key = name.to_owned();
        let mut i: usize = self.entries.len();
        while i > 0
            invariant
                i <= self.entries@.len(),
                key@ == name@,
                *self == *old(self),
                absent_from(self.entries@, i as int, name@),
            decreases i,
        {
            i = i - 1;
            if self.entries[i].0 == key {
                proof {
                    lemma_bound_update(self.entries@, i as int, (key, value));
                }
                self.entries.set(i, (key, value));
                return ;
            }
        }
        self.entries.push((key, value));
        assert(self.entries@.drop_last() == old(self).entries@);
    }

    /// The value of the variable `name`, if it has one.
    pub fn get(&self, name: &str) -> (value: Option<i32>)
        ensures
            value == (if self@.contains_key(name@) {
                Some(self@[name@])
            } else {
                None
            }),
    {
        let key = name.to_owned();
        let mut i: usize = self.entries.len();
        while i > 0
            invariant
                i <= self.entries@.len(),
                key@ == name@,
                absent_from(self.entries@, i as int, name@),
            decreases i,
        {
            i = i - 1;
            if self.entries[i].0 == key {
                proof {
                    lemma_bound_last(self.entries@, i as int, name@);
                }
                return Some(self.entries[i].1);
            }
        }
        proof {
            lemma_bound_absent(self.entries@, name@);
        }
        None
    }
}

/// The values that an evaluation goes by: those of `vars`, or none.
pub open spec fn bindings(vars: Option<&Vars>) -> Map<Seq<char>, i32> {
    match vars {
        Some(v) => v@,
        None => Map::empty(),
    }
}

// ---------------------------------------------------------------------------
// The grammar
//
//     expression = factor { ("+" | "-") factor }
//     factor     = atom { ("*" | "/") atom }
//     atom       = number | variable | "(" expression ")" | "[" expression "]"

/// What the evaluation of a piece of a run of tokens comes to.
pub struct Parsed {
    /// The value of the piece, or why it has none.
    pub value: Result<i32, ParseError>,
    /// The tokens behind the piece; after a failure, the tokens that were
    /// not looked at.
    pub rest: Seq<TokenView>,
}

/// The quotient of `a` by `b`, rounded toward zero.
pub open spec fn quotient(a: int, b: int) -> int {
    if a >= 0 {
        a / b
    } else {
        -((-a) / b)
    }
}

/// The sum or difference of `a` and `b`, where `op` is `+` or `-` and the
/// result a 32-bit integer.
pub open spec fn add_sub(op: char, a: i32, b: i32) -> Result<i32, ParseError> {
    let r: int = if op == '+' {
        a + b
    } else {
        a - b
    };
    if (op == '+' || op == '-') && i32::MIN <= r <= i32::MAX {
        Ok(r as i32)
    } else {
        Err(ParseError::UnknownOperation)
    }
}

/// The product or quotient of `a` and `b`, where `op` is `*` or `/`, the
/// divisor is not zero and the result a 32-bit integer.
pub open spec fn mul_div(op: char, a: i32, b: i32) -> Result<i32, ParseError> {
    let r: int = if op == '*' {
        a * b
    } else {
        quotient(a as int, b as int)
    };
    if (op == '*' || (op == '/' && b != 0)) && i32::MIN <= r <= i32::MAX {
        Ok(r as i32)
    } else {
        Err(ParseError::UnknownOperation)
    }
}

/// The value of the atom at the head of `toks`.
///
/// Without a token a factor is expected, and so it is where the first token
/// is an operator or a closing bracket. A variable without a value is
/// unknown. An opening bracket holds an expression, behind which a closing
/// bracket of the same family must stand.
pub open spec fn atomic_of(toks: Seq<TokenView>, vars: Map<Seq<char>, i32>) -> Parsed
    decreases toks.len(), 0nat,
{
    if toks.len() == 0 {
        Parsed { value: Err(ParseError::FactorExpected), rest: toks }
    } else {
        let rest = toks.skip(1);
        match toks[0] {
            TokenView::Num(n) => Parsed { value: Ok(n), rest: rest },
            TokenView::Var(name) => Parsed {
                value: if vars.contains_key(name) {
                    Ok(vars[name])
                } else {
                    Err(ParseError::UnknownVariable)
                },
                rest: rest,
            },
            TokenView::LParen(open) => {
                let inner = expr_of(rest, vars);
                match inner.value {
                    Err(e) => inner,
                    Ok(v) => {
                        if inner.rest.len() > 0 && (inner.rest[0] matches TokenView::RParen(close)
                            && same_family(open, close)) {
                            Parsed { value: Ok(v), rest: inner.rest.skip(1) }
                        } else {
                            Parsed { value: Err(ParseError::UnbalancedParens), rest: inner.rest }
                        }
                    },
                }
            },
            _ => Parsed { value: Err(ParseError::FactorExpected), rest: rest },
        }
    }
}

/// What follows a product whose value so far is `product`: as long as a
/// `MulOp` stands at the head of `toks`, the atom behind it is multiplied
/// in, or divides.
///
/// The tokens behind an atom are fewer than those it was read from
/// ([`lemma_atom_takes_tokens`]), so the test on their number never fails:
/// it shows that this definition ends.
pub open spec fn product_tail(product: i32, toks: Seq<TokenView>, vars: Map<Seq<char>, i32>) -> Parsed
    decreases toks.len(), 1nat,
{
    if toks.len() > 0 && toks[0] is MulOp {
        let next = atomic_of(toks.skip(1), vars);
        match next.value {
            Err(e) => next,
            Ok(v) => match mul_div(toks[0]->MulOp_0, product, v) {
                Err(e) => Parsed { value: Err(e), rest: next.rest },
                Ok(p) => if next.rest.len() < toks.len() {
                    product_tail(p, next.rest, vars)
                } else {
                    Parsed { value: Ok(p), rest: next.rest }
                },
            },
        }
    } else {
        Parsed { value: Ok(product), rest: toks }
    }
}

/// The value of the factor at the head of `toks`: an atom, and what follows
/// it by [`product_tail`].
pub open spec fn factor_of(toks: Seq<TokenView>, vars: Map<Seq<char>, i32>) -> Parsed
    decreases toks.len(), 2nat,
{
    let first = atomic_of(toks, vars);
    match first.value {
        Err(e) => first,
        Ok(v) => if first.rest.len() <= toks.len() {
            product_tail(v, first.rest, vars)
        } else {
            first
        },
    }
}

/// What follows a sum whose value so far is `sum`: as long as an `AddOp`
/// stands at the head of `toks`, the factor behind it is added, or
/// subtracted. The test on the number of tokens is that of
/// [`product_tail`].
pub open spec fn sum_tail(sum: i32, toks: Seq<TokenView>, vars: Map<Seq<char>, i32>) -> Parsed
    decreases toks.len(), 3nat,
{
    if toks.len() > 0 && toks[0] is AddOp {
        let next = factor_of(toks.skip(1), vars);
        match next.value {
            Err(e) => next,
            Ok(v) => match add_sub(toks[0]->AddOp_0, sum, v) {
                Err(e) => Parsed { value: Err(e), rest: next.rest },
                Ok(s) => if next.rest.len() < toks.len() {
                    sum_tail(s, next.rest, vars)
                } else {
                    Parsed { value: Ok(s), rest: next.rest }
                },
            },
        }
    } else {
        Parsed { value: Ok(sum), rest: toks }
    }
}

/// The value of the expression at the head of `toks`: a factor, and what
/// follows it by [`sum_tail`].
pub open spec fn expr_of(toks: Seq<TokenView>, vars: Map<Seq<char>, i32>) -> Parsed
    decreases toks.len(), 4nat,
{
    let first = factor_of(toks, vars);
    match first.value {
        Err(e) => first,
        Ok(v) => if first.rest.len() <= toks.len() {
            sum_tail(v, first.rest, vars)
        } else {
            first
        },
    }
}

/// The tokens behind an atom are fewer than the tokens it was read from,
/// and after a failure no more.
pub proof fn lemma_atom_takes_tokens(toks: Seq<TokenView>, vars: Map<Seq<char>, i32>)
    ensures
        atomic_of(toks, vars).rest.len() <= toks.len(),
        atomic_of(toks, vars).value is Ok ==> atomic_of(toks, vars).rest.len() < toks.len(),
    decreases toks.len(), 0nat,
{
    if toks.len() > 0 && toks[0] is LParen {
        lemma_expression_takes_tokens(toks.skip(1), vars);
    }
}

/// What follows a product leaves no more tokens than there were.
pub proof fn lemma_product_tail_takes_tokens(
    product: i32,
    toks: Seq<TokenView>,
    vars: Map<Seq<char>, i32>,
)
    ensures
        product_tail(product, toks, vars).rest.len() <= toks.len(),
    decreases toks.len(), 1nat,
{
    if toks.len() > 0 && toks[0] is MulOp {
        let next = atomic_of(toks.skip(1), vars);
        lemma_atom_takes_tokens(toks.skip(1), vars);
        if next.value is Ok {
            let p = mul_div(toks[0]->MulOp_0, product, next.value.unwrap());
            if p is Ok {
                lemma_product_tail_takes_tokens(p.unwrap(), next.rest, vars);
            }
        }
    }
}

/// The tokens behind a factor are fewer than the tokens it was read from,
/// and after a failure no more.
pub proof fn lemma_factor_takes_tokens(toks: Seq<TokenView>, vars: Map<Seq<char>, i32>)
    ensures
        factor_of(toks, vars).rest.len() <= toks.len(),
        factor_of(toks, vars).value is Ok ==> factor_of(toks, vars).rest.len() < toks.len(),
    decreases toks.len(), 2nat,
{
    let first = atomic_of(toks, vars);
    lemma_atom_takes_tokens(toks, vars);
    if first.value is Ok {
        lemma_product_tail_takes_tokens(first.value.unwrap(), first.rest, vars);
    }
}

/// What follows a sum leaves no more tokens than there were.
pub proof fn lemma_sum_tail_takes_tokens(sum: i32, toks: Seq<TokenView>, vars: Map<Seq<char>, i32>)
    ensures
        sum_tail(sum, toks, vars).rest.len() <= toks.len(),
    decreases toks.len(), 3nat,
{
    if toks.len() > 0 && toks[0] is AddOp {
        let next = factor_of(toks.skip(1), vars);
        lemma_factor_takes_tokens(toks.skip(1), vars);
        if next.value is Ok {
            let s = add_sub(toks[0]->AddOp_0, sum, next.value.unwrap());
            if s is Ok {
                lemma_sum_tail_takes_tokens(s.unwrap(), next.rest, vars);
            }
        }
    }
}

/// The tokens behind an expression are fewer than the tokens it was read
/// from, and after a failure no more. So the tests on the number of tokens
/// in [`product_tail`], [`factor_of`], [`sum_tail`] and [`expr_of`] never
/// fail.
pub proof fn lemma_expression_takes_tokens(toks: Seq<TokenView>, vars: Map<Seq<char>, i32>)
    ensures
        expr_of(toks, vars).rest.len() <= toks.len(),
        expr_of(toks, vars).value is Ok ==> expr_of(toks, vars).rest.len() < toks.len(),
    decreases toks.len(), 4nat,
{
    let first = factor_of(toks, vars);
    lemma_factor_takes_tokens(toks, vars);
    if first.value is Ok {
        lemma_sum_tail_takes_tokens(first.value.unwrap(), first.rest, vars);
    }
}

proof fn lemma_skip_view(before: Vec<Token>, after: Vec<Token>)
    requires
        before@.len() > 0,
        after@ == before@.remove(0),
    ensures
        after.deep_view() == before.deep_view().skip(1),
{
    assert(after.deep_view() =~= before.deep_view().skip(1));
}

/// A quotient is no further from zero than its dividend, and as far only
/// where the divisor is `1` or `-1`.
proof fn lemma_quotient_range(a: int, b: int)
    requires
        b != 0,
    ensures
        a >= 0 ==> -a <= quotient(a, b) <= a,
        a < 0 ==> a <= quotient(a, b) <= -a,
        a < 0 && b == -1 ==> quotient(a, b) == -a,
        a < 0 && b != -1 ==> quotient(a, b) < -a,
{
    let x = if a >= 0 { a } else { -a };
    assert(-x <= x / b <= x) by (nonlinear_arith)
        requires
            x >= 0,
            b != 0,
    ;
    assert(b == -1 ==> x / b == -x) by (nonlinear_arith)
        requires
            x >= 0,
    ;
    assert(x > 0 && b != -1 ==> x / b > -x) by (nonlinear_arith)
        requires
            x >= 0,
            b != 0,
    ;
}

/// Computes `a + b` or `a - b`.
fn apply_add(op: char, a: i32, b: i32) -> (r: Result<i32, ParseError>)
    ensures
        r == add_sub(op, a, b),
{
    let sum = if op == '+' {
        a.checked_add(b)
    } else if op == '-' {
        a.checked_sub(b)
    } else {
        None
    };
    match sum {
        Some(s) => Ok(s),
        None => Err(ParseError::UnknownOperation),
    }
}

/// Computes `a * b` or `a / b`.
fn apply_mul(op: char, a: i32, b: i32) -> (r: Result<i32, ParseError>)
    ensures
        r == mul_div(op, a, b),
{
    if op == '*' {
        match a.checked_mul(b) {
            Some(p) => Ok(p),
            None => Err(ParseError::UnknownOperation),
        }
    } else if op == '/' && b != 0 {
        proof {
            lemma_quotient_range(a as int, b as int);
        }
        if a == i32::MIN && b == -1 {
            Err(ParseError::UnknownOperation)
        } else {
            Ok(a / b)
        }
    } else {
        Err(ParseError::UnknownOperation)
    }
}

/// The operator of the `AddOp` at the head of `toks`, if one stands there.
fn peek_add(toks: &Vec<Token>) -> (op: Option<char>)
    ensures
        op is Some <==> toks@.len() > 0 && toks@[0]@ is AddOp,
        op is Some ==> op.unwrap() == toks@[0]@->AddOp_0,
{
    if toks.len() == 0 {
        return None;
    }
    match &toks[0] {
        Token::AddOp(op) => Some(*op),
        _ => None,
    }
}

/// The operator of the `MulOp` at the head of `toks`, if one stands there.
fn peek_mul(toks: &Vec<Token>) -> (op: Option<char>)
    ensures
        op is Some <==> toks@.len() > 0 && toks@[0]@ is MulOp,
        op is Some ==> op.unwrap() == toks@[0]@->MulOp_0,
{
    if toks.len() == 0 {
        return None;
    }
    match &toks[0] {
        Token::MulOp(op) => Some(*op),
        _ => None,
    }
}

/// The bracket of the `RParen` at the head of `toks`, if one stands there.
fn peek_close(toks: &Vec<Token>) -> (paren: Option<char>)
    ensures
        paren is Some <==> toks@.len() > 0 && toks@[0]@ is RParen,
        paren is Some ==> paren.unwrap() == toks@[0]@->RParen_0,
{
    if toks.len() == 0 {
        return None;
    }
    match &toks[0] {
        Token::RParen(p) => Some(*p),
        _ => None,
    }
}

/// Evaluates the expression at the head of `toks` and takes its tokens
/// away.
///
/// The value is that of [`expr_of`], and the tokens left in `toks` are its
/// rest: what stands behind the expression, or, after a failure, what was
/// not looked at. A variable has the value that `vars` gives it; without
/// `vars` no variable has one. Tokens behind the expression are no failure.
pub fn expr(toks: &mut Vec<Token>, vars: Option<&Vars>) -> (r: Result<i32, ParseError>)
    ensures
        r == expr_of(old(toks).deep_view(), bindings(vars)).value,
        final(toks).deep_view() == expr_of(old(toks).deep_view(), bindings(vars)).rest,
        final(toks)@.len() <= old(toks)@.len(),
        r is Ok ==> final(toks)@.len() < old(toks)@.len(),
    decreases old(toks)@.len(), 4nat,
{
    let mut sum: i32 = match factor(toks, vars) {
        Ok(v) => v,
        Err(e) => {
            return Err(e);
        },
    };
    loop
        invariant
            toks@.len() < old(toks)@.len(),
            sum_tail(sum, toks.deep_view(), bindings(vars)) == expr_of(
                old(toks).deep_view(),
                bindings(vars),
            ),
        decreases toks@.len(),
    {
        let op: char = match peek_add(toks) {
            Some(op) => op,
            None => {
                return Ok(sum);
            },
        };
        let ghost before = *toks;
        toks.remove(0);
        proof {
            lemma_skip_view(before, *toks);
        }
        let v: i32 = match factor(toks, vars) {
            Ok(v) => v,
            Err(e) => {
                return Err(e);
            },
        };
        sum = match apply_add(op, sum, v) {
            Ok(s) => s,
            Err(e) => {
                return Err(e);
            },
        };
    }
}

/// Evaluates the factor at the head of `toks` and takes its tokens away, as
/// [`expr`] does for an expression. The value and the rest are those of
/// [`factor_of`].
pub fn factor(toks: &mut Vec<Token>, vars: Option<&Vars>) -> (r: Result<i32, ParseError>)
    ensures
        r == factor_of(old(toks).deep_view(), bindings(vars)).value,
        final(toks).deep_view() == factor_of(old(toks).deep_view(), bindings(vars)).rest,
        final(toks)@.len() <= old(toks)@.len(),
        r is Ok ==> final(toks)@.len() < old(toks)@.len(),
    decreases old(toks)@.len(), 2nat,
{
    let mut product: i32 = match atomic(toks, vars) {
        Ok(v) => v,
        Err(e) => {
            return Err(e);
        },
    };
    loop
        invariant
            toks@.len() < old(toks)@.len(),
            product_tail(product, toks.deep_view(), bindings(vars)) == factor_of(
                old(toks).deep_view(),
                bindings(vars),
            ),
        decreases toks@.len(),
    {
        let op: char = match peek_mul(toks) {
            Some(op) => op,
            None => {
                return Ok(product);
            },
        };
        let ghost before = *toks;
        toks.remove(0);
        proof {
            lemma_skip_view(before, *toks);
        }
        let v: i32 = match atomic(toks, vars) {
            Ok(v) => v,
            Err(e) => {
                return Err(e);
            },
        };
        product = match apply_mul(op, product, v) {
            Ok(p) => p,
            Err(e) => {
                return Err(e);
            },
        };
    }
}

/// Evaluates the atom at the head of `toks` and takes its tokens away, as
/// [`expr`] does for an expression. The value and the rest are those of
/// [`atomic_of`].
pub fn atomic(toks: &mut Vec<Token>, vars: Option<&Vars>) -> (r: Result<i32, ParseError>)
    ensures
        r == atomic_of(old(toks).deep_view(), bindings(vars)).value,
        final(toks).deep_view() == atomic_of(old(toks).deep_view(), bindings(vars)).rest,
        final(toks)@.len() <= old(toks)@.len(),
        r is Ok ==> final(toks)@.len() < old(toks)@.len(),
    decreases old(toks)@.len(), 0nat,
{
    if toks.len() == 0 {
        return Err(ParseError::FactorExpected);
    }
    let ghost before = *toks;
    let first = toks.remove(0);
    proof {
        lemma_skip_view(before, *toks);
    }
    match first {
        Token::Num(n) => Ok(n),
        Token::Var(name) => {
            let value = match vars {
                Some(v) => v.get(name.as_str()),
                None => None,
            };
            match value {
                Some(n) => Ok(n),
                None => Err(ParseError::UnknownVariable),
            }
        },
        Token::LParen(open) => {
            let value: i32 = match expr(toks, vars) {
                Ok(v) => v,
                Err(e) => {
                    return Err(e);
                },
            };
            match peek_close(toks) {
                Some(close) => {
                    if (open == '(' && close == ')') || (open == '[' && close == ']') {
                        let ghost inner = *toks;
                        toks.remove(0);
                        proof {
                            lemma_skip_view(inner, *toks);
                        }
                        Ok(value)
                    } else {
                        Err(ParseError::UnbalancedParens)
                    }
                },
                None => Err(ParseError::UnbalancedParens),
            }
        },
        _ => Err(ParseError::FactorExpected),
    }
}

} // verus!
