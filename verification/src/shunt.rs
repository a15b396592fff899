//! The converter: infix characters in, postfix tokens out.
//!
//! One pass over the characters, left to right, with a stack of pending
//! operators. An entry of that stack is a single character: one of the
//! binary operators `+ - * / ^`, the negation marker `~`, a function marker
//! (`s c t r l`) or an opening bracket `(` or `[`.

use vstd::prelude::*;
use crate::error::ParseError;
use crate::token::{MathToken, MathTokenView, Number, NumberView};

verus! {

// ---------------------------------------------------------------------------
// Characters

/// What [`is_space`] computes.
pub open spec fn spec_is_space(c: char) -> bool {
    let u = c as u32;
    (0x09 <= u && u <= 0x0D) || u == 0x20 || u == 0x85 || u == 0xA0 || u == 0x1680 || (0x2000 <= u
        && u <= 0x200A) || u == 0x2028 || u == 0x2029 || u == 0x202F || u == 0x205F || u == 0x3000
}

/// Whether `c` is white space: the space, the tabulator, a line break, or
/// another character with the Unicode property `White_Space`.
#[verifier::when_used_as_spec(spec_is_space)]
pub fn is_space(c: char) -> (b: bool)
    ensures
        b == spec_is_space(c),
{
    let u: u32 = c as u32;
    (0x09 <= u && u <= 0x0D) || u == 0x20 || u == 0x85 || u == 0xA0 || u == 0x1680 || (0x2000 <= u
        && u <= 0x200A) || u == 0x2028 || u == 0x2029 || u == 0x202F || u == 0x205F || u == 0x3000
}

/// What [`is_digit`] computes.
pub open spec fn spec_is_digit(c: char) -> bool {
    '0' <= c && c <= '9'
}

/// Whether `c` is one of the ten decimal digits.
#[verifier::when_used_as_spec(spec_is_digit)]
pub fn is_digit(c: char) -> (b: bool)
    ensures
        b == spec_is_digit(c),
{
    '0' <= c && c <= '9'
}

/// What [`is_letter`] computes.
pub open spec fn spec_is_letter(c: char) -> bool {
    ('a' <= c && c <= 'z') || ('A' <= c && c <= 'Z')
}

/// Whether `c` is one of the letters `a` to `z` or `A` to `Z`.
#[verifier::when_used_as_spec(spec_is_letter)]
pub fn is_letter(c: char) -> (b: bool)
    ensures
        b == spec_is_letter(c),
{
    ('a' <= c && c <= 'z') || ('A' <= c && c <= 'Z')
}

/// What [`is_binary`] computes.
pub open spec fn spec_is_binary(c: char) -> bool {
    c == '+' || c == '-' || c == '*' || c == '/' || c == '^'
}

/// Whether `c` is one of the operator characters that an expression may
/// hold: `+ - * / ^`.
#[verifier::when_used_as_spec(spec_is_binary)]
pub fn is_binary(c: char) -> (b: bool)
    ensures
        b == spec_is_binary(c),
{
    c == '+' || c == '-' || c == '*' || c == '/' || c == '^'
}

/// What [`is_unop`] computes.
pub open spec fn spec_is_unop(c: char) -> bool {
    c == '~'
}

/// Whether `c` is the marker of the negation.
#[verifier::when_used_as_spec(spec_is_unop)]
pub fn is_unop(c: char) -> (b: bool)
    ensures
        b == spec_is_unop(c),
{
    c == '~'
}

/// What [`is_func`] computes.
pub open spec fn spec_is_func(c: char) -> bool {
    c == 's' || c == 'c' || c == 't' || c == 'l' || c == 'r'
}

/// Whether `c` is the marker of a function: `s` for the sine, `c` for the
/// cosine, `t` for the tangent, `r` for the square root, `l` for the natural
/// logarithm.
#[verifier::when_used_as_spec(spec_is_func)]
pub fn is_func(c: char) -> (b: bool)
    ensures
        b == spec_is_func(c),
{
    c == 's' || c == 'c' || c == 't' || c == 'l' || c == 'r'
}

/// What [`is_op`] computes.
pub open spec fn spec_is_op(c: char) -> bool {
    spec_is_binary(c) || spec_is_unop(c) || spec_is_func(c)
}

/// Whether `c` is an entry of the operator stack that becomes a token: a
/// binary operator, the negation or a function marker.
#[verifier::when_used_as_spec(spec_is_op)]
pub fn is_op(c: char) -> (b: bool)
    ensures
        b == spec_is_op(c),
{
    is_binary(c) || is_unop(c) || is_func(c)
}

/// Whether `c` is an opening bracket of either family.
pub open spec fn is_open(c: char) -> bool {
    c == '(' || c == '['
}

/// Whether `c` is a closing bracket of either family.
pub open spec fn is_close(c: char) -> bool {
    c == ')' || c == ']'
}

/// Whether the opening bracket `open` and the closing bracket `close` belong
/// to one family.
pub open spec fn same_family(open: char, close: char) -> bool {
    (open == '(' && close == ')') || (open == '[' && close == ']')
}

// ---------------------------------------------------------------------------
// Precedence and associativity

/// What [`precedency`] computes.
pub open spec fn spec_precedency(op: char) -> u8 {
    if spec_is_func(op) {
        1
    } else if op == '+' || op == '-' {
        2
    } else if op == '~' {
        3
    } else if op == '*' || op == '/' {
        4
    } else {
        5
    }
}

/// How tightly the operator `op` binds: a higher number binds tighter.
#[verifier::when_used_as_spec(spec_precedency)]
pub fn precedency(op: char) -> (level: u8)
    requires
        spec_is_op(op),
    ensures
        level == spec_precedency(op),
        1 <= level <= 5,
{
    if is_func(op) {
        1
    } else if op == '+' || op == '-' {
        2
    } else if op == '~' {
        3
    } else if op == '*' || op == '/' {
        4
    } else {
        5
    }
}

/// What [`right_assoc`] computes.
pub open spec fn spec_right_assoc(op: char) -> bool {
    op == '^'
}

/// Whether a chain of the operator `op` groups from the right. Only `^`
/// does; every other operator groups from the left.
#[verifier::when_used_as_spec(spec_right_assoc)]
pub fn right_assoc(op: char) -> (b: bool)
    requires
        spec_is_op(op),
    ensures
        b == spec_right_assoc(op),
{
    op == '^'
}

/// Whether the stack entry `top` leaves the operator stack before the binary
/// operator `incoming` is pushed: it is an operator and binds tighter than
/// `incoming`, or as tightly while `incoming` groups from the left.
pub open spec fn gives_way(top: char, incoming: char) -> bool {
    spec_is_op(top) && if spec_right_assoc(incoming) {
        spec_precedency(incoming) < spec_precedency(top)
    } else {
        spec_precedency(incoming) <= spec_precedency(top)
    }
}

/// A chain of one operator groups from the right if the operator is `^`,
/// and from the left otherwise: a binary operator on the stack gives way to
/// the same operator unless it is `^`.
pub proof fn lemma_grouping(op: char)
    requires
        spec_is_binary(op),
    ensures
        gives_way(op, op) <==> op != '^',
{
}

/// The sign binds tighter than `+` and `-` and looser than `*`, `/` and
/// `^`: a negation on the stack gives way to a binary operator if and only
/// if that operator is `+` or `-`.
pub proof fn lemma_sign_binding(op: char)
    requires
        spec_is_binary(op),
    ensures
        gives_way('~', op) <==> op == '+' || op == '-',
{
}

/// The token that the stack entry `op` becomes when it leaves the stack.
pub open spec fn token_of(op: char) -> MathTokenView {
    if spec_is_func(op) {
        MathTokenView::Func(op)
    } else if spec_is_unop(op) {
        MathTokenView::UnOp(op)
    } else {
        MathTokenView::BinOp(op)
    }
}

/// Turns an operator of the stack into its token.
pub fn op_to_tok(op: char) -> (tok: MathToken)
    requires
        spec_is_op(op),
    ensures
        tok@ == token_of(op),
{
    if is_func(op) {
        MathToken::Func(op)
    } else if is_unop(op) {
        MathToken::UnOp(op)
    } else {
        MathToken::BinOp(op)
    }
}

// ---------------------------------------------------------------------------
// Literals and names

/// Where the literal ends whose characters before `from` are already read:
/// digits go on, and so does one `.` unless `point` says that the literal
/// has one already.
pub open spec fn number_end(s: Seq<char>, from: int, point: bool) -> int
    decreases s.len() - from,
{
    if from < 0 || from >= s.len() {
        from
    } else if spec_is_digit(s[from]) {
        number_end(s, from + 1, point)
    } else if s[from] == '.' && !point {
        number_end(s, from + 1, true)
    } else {
        from
    }
}

/// Where the run of letters ends that goes on at `from`.
pub open spec fn name_end(s: Seq<char>, from: int) -> int
    decreases s.len() - from,
{
    if from < 0 || from >= s.len() {
        from
    } else if spec_is_letter(s[from]) {
        name_end(s, from + 1)
    } else {
        from
    }
}

/// A literal ends behind where the reading goes on, and within the
/// characters.
pub proof fn lemma_number_end_bounds(s: Seq<char>, from: int, point: bool)
    requires
        0 <= from <= s.len(),
    ensures
        from <= number_end(s, from, point) <= s.len(),
    decreases s.len() - from,
{
    if from < s.len() {
        if spec_is_digit(s[from]) {
            lemma_number_end_bounds(s, from + 1, point);
        } else if s[from] == '.' && !point {
            lemma_number_end_bounds(s, from + 1, true);
        }
    }
}

/// A name ends behind where the reading goes on, and within the
/// characters.
pub proof fn lemma_name_end_bounds(s: Seq<char>, from: int)
    requires
        0 <= from <= s.len(),
    ensures
        from <= name_end(s, from) <= s.len(),
    decreases s.len() - from,
{
    if from < s.len() && spec_is_letter(s[from]) {
        lemma_name_end_bounds(s, from + 1);
    }
}

/// The marker of the function called `name`, if there is such a function.
pub open spec fn function_marker(name: Seq<char>) -> Option<char> {
    if name == seq!['s', 'i', 'n'] {
        Some('s')
    } else if name == seq!['c', 'o', 's'] {
        Some('c')
    } else if name == seq!['t', 'a', 'n'] {
        Some('t')
    } else if name == seq!['s', 'q', 'r', 't'] {
        Some('r')
    } else if name == seq!['l', 'n'] {
        Some('l')
    } else {
        None
    }
}

/// The constant called `name`, if there is such a constant. The names `pi`
/// and `PI` stand for one constant; otherwise case matters.
pub open spec fn constant(name: Seq<char>) -> Option<NumberView> {
    if name == seq!['p', 'i'] || name == seq!['P', 'I'] {
        Some(NumberView::Pi)
    } else if name == seq!['e'] {
        Some(NumberView::E)
    } else {
        None
    }
}

// ---------------------------------------------------------------------------
// The operator stack

/// Every entry of an operator stack is an operator or an opening bracket.
pub open spec fn stack_ok(ops: Seq<char>) -> bool {
    forall|i: int| 0 <= i < ops.len() ==> spec_is_op(#[trigger] ops[i]) || is_open(ops[i])
}

/// The operator stack and the output after the entries that give way to the
/// binary operator `incoming` have left the stack, the topmost first.
pub open spec fn unwind(ops: Seq<char>, out: Seq<MathTokenView>, incoming: char) -> (
    Seq<char>,
    Seq<MathTokenView>,
)
    decreases ops.len(),
{
    if ops.len() > 0 && gives_way(ops.last(), incoming) {
        unwind(ops.drop_last(), out.push(token_of(ops.last())), incoming)
    } else {
        (ops, out)
    }
}

/// The operator stack and the output after a function marker on top of the
/// stack, if there is one, has become a token.
pub open spec fn bind_function(ops: Seq<char>, out: Seq<MathTokenView>) -> (
    Seq<char>,
    Seq<MathTokenView>,
) {
    if ops.len() > 0 && spec_is_func(ops.last()) {
        (ops.drop_last(), out.push(token_of(ops.last())))
    } else {
        (ops, out)
    }
}

/// What the closing bracket `paren` does: operators leave the stack, the
/// topmost first, down to the nearest opening bracket. That bracket must be
/// of the family of `paren`; it is dropped, and a function marker right
/// below it becomes a token. Without any opening bracket, or with one of the
/// other family, the brackets are unbalanced.
pub open spec fn close(ops: Seq<char>, out: Seq<MathTokenView>, paren: char) -> Result<
    (Seq<char>, Seq<MathTokenView>),
    ParseError,
>
    decreases ops.len(),
{
    if ops.len() == 0 {
        Err(ParseError::UnbalancedParens)
    } else if is_open(ops.last()) {
        if same_family(ops.last(), paren) {
            Ok(bind_function(ops.drop_last(), out))
        } else {
            Err(ParseError::UnbalancedParens)
        }
    } else {
        close(ops.drop_last(), out.push(token_of(ops.last())), paren)
    }
}

/// What the end of the input does: the operators that are left become
/// tokens, the topmost first. An opening bracket among them was never
/// closed.
pub open spec fn flush(ops: Seq<char>, out: Seq<MathTokenView>) -> Result<
    Seq<MathTokenView>,
    ParseError,
>
    decreases ops.len(),
{
    if ops.len() == 0 {
        Ok(out)
    } else if spec_is_op(ops.last()) {
        flush(ops.drop_last(), out.push(token_of(ops.last())))
    } else {
        Err(ParseError::UnbalancedParens)
    }
}

// ---------------------------------------------------------------------------
// The scan

/// The state of a conversion between two characters.
pub struct Scan {
    /// The pending operators, the topmost last.
    pub ops: Seq<char>,
    /// The tokens put out so far.
    pub out: Seq<MathTokenView>,
    /// Whether an operand is due: at the start, after an operator and after
    /// an opening bracket. There a `+` or `-` is a sign.
    pub operand_due: bool,
}

/// The state in which every conversion starts.
pub open spec fn start() -> Scan {
    Scan { ops: Seq::empty(), out: Seq::empty(), operand_due: true }
}

/// The result of the conversion of `s` that stands before the character at
/// `pos` in the state `st`.
pub open spec fn scan(s: Seq<char>, pos: int, st: Scan) -> Result<Seq<MathTokenView>, ParseError>
    decreases s.len() - pos,
    when 0 <= pos
    via scan_decreases
{
    if pos >= s.len() {
        flush(st.ops, st.out)
    } else {
        let c = s[pos];
        if spec_is_space(c) {
            scan(s, pos + 1, st)
        } else if spec_is_digit(c) {
            let end = number_end(s, pos + 1, false);
            let literal = MathTokenView::Num(NumberView::Literal(s.subrange(pos, end)));
            scan(s, end, Scan { ops: st.ops, out: st.out.push(literal), operand_due: false })
        } else if spec_is_letter(c) {
            let end = name_end(s, pos + 1);
            let name = s.subrange(pos, end);
            if end < s.len() && s[end] == '(' {
                match function_marker(name) {
                    Some(marker) => scan(
                        s,
                        end,
                        Scan { ops: st.ops.push(marker), out: st.out, operand_due: true },
                    ),
                    None => Err(ParseError::UnknownFunction),
                }
            } else {
                match constant(name) {
                    Some(number) => scan(
                        s,
                        end,
                        Scan {
                            ops: st.ops,
                            out: st.out.push(MathTokenView::Num(number)),
                            operand_due: false,
                        },
                    ),
                    None => Err(ParseError::UnknownConstant),
                }
            }
        } else if spec_is_binary(c) {
            if st.operand_due {
                if c == '+' {
                    scan(s, pos + 1, st)
                } else if c == '-' {
                    scan(
                        s,
                        pos + 1,
                        Scan { ops: st.ops.push('~'), out: st.out, operand_due: true },
                    )
                } else {
                    Err(ParseError::UnknownSymbol)
                }
            } else {
                let (ops, out) = unwind(st.ops, st.out, c);
                scan(s, pos + 1, Scan { ops: ops.push(c), out: out, operand_due: true })
            }
        } else if is_open(c) {
            scan(s, pos + 1, Scan { ops: st.ops.push(c), out: st.out, operand_due: true })
        } else if is_close(c) {
            match close(st.ops, st.out, c) {
                Ok((ops, out)) => scan(
                    s,
                    pos + 1,
                    Scan { ops: ops, out: out, operand_due: false },
                ),
                Err(e) => Err(e),
            }
        } else {
            Err(ParseError::UnknownSymbol)
        }
    }
}

#[via_fn]
proof fn scan_decreases(s: Seq<char>, pos: int, st: Scan) {
    if pos < s.len() {
        lemma_number_end_bounds(s, pos + 1, false);
        lemma_name_end_bounds(s, pos + 1);
    }
}

/// The postfix form of the expression `s`, or the reason why it has none.
pub open spec fn postfix(s: Seq<char>) -> Result<Seq<MathTokenView>, ParseError> {
    scan(s, 0, start())
}

// ---------------------------------------------------------------------------
// The converter

/// What a result of the converter stands for.
pub open spec fn tokens_view(r: Result<Vec<MathToken>, ParseError>) -> Result<
    Seq<MathTokenView>,
    ParseError,
> {
    match r {
        Ok(toks) => Ok(toks.deep_view()),
        Err(e) => Err(e),
    }
}

/// One more token at the end is one more value at the end.
proof fn lemma_push_view(before: Vec<MathToken>, after: Vec<MathToken>, tok: MathToken)
    requires
        after@ == before@.push(tok),
    ensures
        after.deep_view() == before.deep_view().push(tok@),
{
    assert(after.deep_view() =~= before.deep_view().push(tok@));
}

/// Reads on in a literal whose first digit stands before `from`.
fn scan_number(chars: &Vec<char>, from: usize) -> (end: usize)
    requires
        from <= chars.len(),
    ensures
        end == number_end(chars@, from as int, false),
        from <= end <= chars.len(),
{
    let mut i: usize = from;
    let mut point = false;
    while i < chars.len() && (is_digit(chars[i]) || (chars[i] == '.' && !point))
        invariant
            from <= i <= chars.len(),
            number_end(chars@, i as int, point) == number_end(chars@, from as int, false),
        decreases chars.len() - i,
    {
        if chars[i] == '.' {
            point = true;
        }
        i = i + 1;
    }
    i
}

/// Reads on in a name whose first letter stands before `from`.
fn scan_name(chars: &Vec<char>, from: usize) -> (end: usize)
    requires
        from <= chars.len(),
    ensures
        end == name_end(chars@, from as int),
        from <= end <= chars.len(),
{
    let mut i: usize = from;
    while i < chars.len() && is_letter(chars[i])
        invariant
            from <= i <= chars.len(),
            name_end(chars@, i as int) == name_end(chars@, from as int),
        decreases chars.len() - i,
    {
        i = i + 1;
    }
    i
}

/// Copies the characters from `from` up to `to`.
fn copy_range(chars: &Vec<char>, from: usize, to: usize) -> (part: Vec<char>)
    requires
        from <= to <= chars.len(),
    ensures
        part@ == chars@.subrange(from as int, to as int),
{
    let mut part: Vec<char> = Vec::new();
    let mut i: usize = from;
    while i < to
        invariant
            from <= i <= to <= chars.len(),
            part@ == chars@.subrange(from as int, i as int),
        decreases to - i,
    {
        part.push(chars[i]);
        i = i + 1;
    }
    part
}

/// A name is a word of one, two, three or four letters if and only if it
/// has that many letters and they are the letters of the word.
proof fn lemma_spelling(name: Seq<char>, a: char, b: char, c: char, d: char)
    ensures
        name == seq![a] <==> name.len() == 1 && name[0] == a,
        name == seq![a, b] <==> name.len() == 2 && name[0] == a && name[1] == b,
        name == seq![a, b, c] <==> name.len() == 3 && name[0] == a && name[1] == b && name[2]
            == c,
        name == seq![a, b, c, d] <==> name.len() == 4 && name[0] == a && name[1] == b && name[2]
            == c && name[3] == d,
{
    let one = seq![a];
    let two = seq![a, b];
    let three = seq![a, b, c];
    let four = seq![a, b, c, d];
    assert(one.len() == 1 && one[0] == a);
    assert(two.len() == 2 && two[0] == a && two[1] == b);
    assert(three.len() == 3 && three[0] == a && three[1] == b && three[2] == c);
    assert(four.len() == 4 && four[0] == a && four[1] == b && four[2] == c && four[3] == d);
    if name.len() == 1 && name[0] == a {
        assert(name =~= one);
    }
    if name.len() == 2 && name[0] == a && name[1] == b {
        assert(name =~= two);
    }
    if name.len() == 3 && name[0] == a && name[1] == b && name[2] == c {
        assert(name =~= three);
    }
    if name.len() == 4 && name[0] == a && name[1] == b && name[2] == c && name[3] == d {
        assert(name =~= four);
    }
}

/// Looks up the function called `name`.
fn lookup_function(name: &Vec<char>) -> (marker: Option<char>)
    ensures
        marker == function_marker(name@),
{
    proof {
        lemma_spelling(name@, 's', 'i', 'n', ' ');
        lemma_spelling(name@, 'c', 'o', 's', ' ');
        lemma_spelling(name@, 't', 'a', 'n', ' ');
        lemma_spelling(name@, 's', 'q', 'r', 't');
        lemma_spelling(name@, 'l', 'n', ' ', ' ');
    }
    let n: usize = name.len();
    if n == 3 && name[0] == 's' && name[1] == 'i' && name[2] == 'n' {
        Some('s')
    } else if n == 3 && name[0] == 'c' && name[1] == 'o' && name[2] == 's' {
        Some('c')
    } else if n == 3 && name[0] == 't' && name[1] == 'a' && name[2] == 'n' {
        Some('t')
    } else if n == 4 && name[0] == 's' && name[1] == 'q' && name[2] == 'r' && name[3] == 't' {
        Some('r')
    } else if n == 2 && name[0] == 'l' && name[1] == 'n' {
        Some('l')
    } else {
        None
    }
}

/// What a result of a lookup among the constants stands for.
pub open spec fn number_view(n: Option<Number>) -> Option<NumberView> {
    match n {
        Some(n) => Some(n@),
        None => None,
    }
}

/// Looks up the constant called `name`.
fn lookup_constant(name: &Vec<char>) -> (number: Option<Number>)
    ensures
        number_view(number) == constant(name@),
{
    proof {
        lemma_spelling(name@, 'p', 'i', ' ', ' ');
        lemma_spelling(name@, 'P', 'I', ' ', ' ');
        lemma_spelling(name@, 'e', ' ', ' ', ' ');
    }
    let n: usize = name.len();
    if n == 2 && name[0] == 'p' && name[1] == 'i' {
        Some(Number::Pi)
    } else if n == 2 && name[0] == 'P' && name[1] == 'I' {
        Some(Number::Pi)
    } else if n == 1 && name[0] == 'e' {
        Some(Number::E)
    } else {
        None
    }
}

/// Makes room for the binary operator `incoming` and pushes it.
fn push_operator(stack: &mut Vec<char>, toks: &mut Vec<MathToken>, incoming: char)
    requires
        stack_ok(old(stack)@),
        spec_is_binary(incoming),
    ensures
        stack_ok(final(stack)@),
        final(stack)@ == unwind(old(stack)@, old(toks).deep_view(), incoming).0.push(incoming),
        final(toks).deep_view() == unwind(old(stack)@, old(toks).deep_view(), incoming).1,
{
    loop
        invariant
            stack_ok(stack@),
            spec_is_binary(incoming),
            unwind(stack@, toks.deep_view(), incoming) == unwind(
                old(stack)@,
                old(toks).deep_view(),
                incoming,
            ),
        ensures
            !(stack@.len() > 0 && gives_way(stack@.last(), incoming)),
        decreases stack.len(),
    {
        let n: usize = stack.len();
        if n == 0 {
            break ;
        }
        let top: char = stack[n - 1];
        if !is_op(top) {
            break ;
        }
        let yields: bool = if right_assoc(incoming) {
            precedency(incoming) < precedency(top)
        } else {
            precedency(incoming) <= precedency(top)
        };
        if !yields {
            break ;
        }
        let ghost before = *toks;
        let tok = op_to_tok(top);
        toks.push(tok);
        stack.pop();
        proof {
            lemma_push_view(before, *toks, tok);
        }
    }
    stack.push(incoming);
}

/// What a closing bracket leaves behind, for contracts.
pub open spec fn closed(
    r: Result<(), ParseError>,
    ops: Seq<char>,
    out: Seq<MathTokenView>,
) -> Result<(Seq<char>, Seq<MathTokenView>), ParseError> {
    match r {
        Ok(()) => Ok((ops, out)),
        Err(e) => Err(e),
    }
}

/// Handles the closing bracket `paren`.
fn close_bracket(stack: &mut Vec<char>, toks: &mut Vec<MathToken>, paren: char) -> (r: Result<
    (),
    ParseError,
>)
    requires
        stack_ok(old(stack)@),
        is_close(paren),
    ensures
        closed(r, final(stack)@, final(toks).deep_view()) == close(
            old(stack)@,
            old(toks).deep_view(),
            paren,
        ),
        r is Ok ==> stack_ok(final(stack)@),
{
    loop
        invariant
            stack_ok(stack@),
            is_close(paren),
            close(stack@, toks.deep_view(), paren) == close(
                old(stack)@,
                old(toks).deep_view(),
                paren,
            ),
        decreases stack.len(),
    {
        let ghost before = *toks;
        match stack.pop() {
            None => {
                return Err(ParseError::UnbalancedParens);
            },
            Some(top) => {
                if top == '(' || top == '[' {
                    if (top == '(' && paren == ')') || (top == '[' && paren == ']') {
                        let n: usize = stack.len();
                        if n > 0 && is_func(stack[n - 1]) {
                            let tok = op_to_tok(stack[n - 1]);
                            toks.push(tok);
                            stack.pop();
                            proof {
                                lemma_push_view(before, *toks, tok);
                            }
                        }
                        return Ok(());
                    } else {
                        return Err(ParseError::UnbalancedParens);
                    }
                }
                let tok = op_to_tok(top);
                toks.push(tok);
                proof {
                    lemma_push_view(before, *toks, tok);
                }
            },
        }
    }
}

/// Empties the operator stack at the end of the input.
fn flush_stack(stack: Vec<char>, toks: Vec<MathToken>) -> (r: Result<Vec<MathToken>, ParseError>)
    requires
        stack_ok(stack@),
    ensures
        tokens_view(r) == flush(stack@, toks.deep_view()),
{
    let mut rest = stack;
    let mut out = toks;
    loop
        invariant
            stack_ok(rest@),
            flush(rest@, out.deep_view()) == flush(stack@, toks.deep_view()),
        decreases rest.len(),
    {
        let ghost before = out;
        match rest.pop() {
            None => {
                return Ok(out);
            },
            Some(top) => {
                if !is_op(top) {
                    return Err(ParseError::UnbalancedParens);
                }
                let tok = op_to_tok(top);
                out.push(tok);
                proof {
                    lemma_push_view(before, out, tok);
                }
            },
        }
    }
}

/// Converts an expression in infix notation to postfix order.
///
/// White space separates and means nothing. A literal and a constant go
/// straight to the output. A name directly before `(` is a function: it
/// waits on the operator stack until its bracket closes. A `+` or `-` where
/// an operand is due is a sign: the `+` is dropped, the `-` becomes the
/// negation `~`. A binary operator first sends every operator from the
/// stack to the output that binds tighter, or as tightly unless it is `^`.
/// A closing bracket sends the operators down to its opening bracket to the
/// output, and the end of the input sends all that are left.
///
/// The result is exactly [`postfix`] of the characters: the tokens where
/// that is `Ok`, and its error where it is not.
pub fn shunt(chars: Vec<char>) -> (r: Result<Vec<MathToken>, ParseError>)
    ensures
        tokens_view(r) == postfix(chars@),
{
    let mut stack: Vec<char> = Vec::new();
    let mut toks: Vec<MathToken> = Vec::with_capacity(chars.len());
    let mut operand_due = true;
    let mut i: usize = 0;
    assert(toks.deep_view() =~= Seq::<MathTokenView>::empty());
    while i < chars.len()
        invariant
            i <= chars.len(),
            stack_ok(stack@),
            scan(
                chars@,
                i as int,
                Scan { ops: stack@, out: toks.deep_view(), operand_due: operand_due },
            ) == postfix(chars@),
        decreases chars.len() - i,
    {
        let c: char = chars[i];
        let ghost before = toks;
        if is_space(c) {
            i = i + 1;
        } else if is_digit(c) {
            let end: usize = scan_number(&chars, i + 1);
            let tok = MathToken::Num(Number::Literal(copy_range(&chars, i, end)));
            toks.push(tok);
            proof {
                lemma_push_view(before, toks, tok);
            }
            operand_due = false;
            i = end;
        } else if is_letter(c) {
            let end: usize = scan_name(&chars, i + 1);
            let name = copy_range(&chars, i, end);
            if end < chars.len() && chars[end] == '(' {
                match lookup_function(&name) {
                    Some(marker) => {
                        stack.push(marker);
                        operand_due = true;
                    },
                    None => {
                        return Err(ParseError::UnknownFunction);
                    },
                }
            } else {
                match lookup_constant(&name) {
                    Some(number) => {
                        let tok = MathToken::Num(number);
                        toks.push(tok);
                        proof {
                            lemma_push_view(before, toks, tok);
                        }
                        operand_due = false;
                    },
                    None => {
                        return Err(ParseError::UnknownConstant);
                    },
                }
            }
            i = end;
        } else if is_binary(c) {
            if operand_due {
                if c == '-' {
                    stack.push('~');
                } else if c != '+' {
                    return Err(ParseError::UnknownSymbol);
                }
            } else {
                push_operator(&mut stack, &mut toks, c);
                operand_due = true;
            }
            i = i + 1;
        } else if c == '(' || c == '[' {
            stack.push(c);
            operand_due = true;
            i = i + 1;
        } else if c == ')' || c == ']' {
            match close_bracket(&mut stack, &mut toks, c) {
                Ok(()) => {},
                Err(e) => {
                    return Err(e);
                },
            }
            operand_due = false;
            i = i + 1;
        } else {
            return Err(ParseError::UnknownSymbol);
        }
    }
    flush_stack(stack, toks)
}

} // verus!
