//! The tokens of the integer calculator, and the tokenizer that makes them.

use vstd::prelude::*;
use crate::parse_error::ParseError;
use crate::shunt::{is_digit, spec_is_digit};

verus! {

/// One unit of an expression over 32-bit integers.
#[derive(Debug, PartialEq, Eq, Clone)]
pub enum Token {
    /// A literal.
    Num(i32),
    /// `+` or `-`.
    AddOp(char),
    /// `*` or `/`.
    MulOp(char),
    /// `(` or `[`.
    LParen(char),
    /// `)` or `]`.
    RParen(char),
    /// A variable, by its name. The tokenizer makes none: a variable enters
    /// a run of tokens by hand.
    Var(String),
}

/// The mathematical value of a [`Token`].
pub enum TokenView {
    Num(i32),
    AddOp(char),
    MulOp(char),
    LParen(char),
    RParen(char),
    Var(Seq<char>),
}

impl View for Token {
    type V = TokenView;

    open spec fn view(&self) -> TokenView {
        match self {
            Token::Num(n) => TokenView::Num(*n),
            Token::AddOp(op) => TokenView::AddOp(*op),
            Token::MulOp(op) => TokenView::MulOp(*op),
            Token::LParen(p) => TokenView::LParen(*p),
            Token::RParen(p) => TokenView::RParen(*p),
            Token::Var(name) => TokenView::Var(name@),
        }
    }
}

impl DeepView for Token {
    type V = TokenView;

    open spec fn deep_view(&self) -> TokenView {
        self@
    }
}

/// Where the run of digits ends that goes on at `from`.
pub open spec fn digits_end(s: Seq<char>, from: int) -> int
    decreases s.len() - from,
{
    if from < 0 || from >= s.len() {
        from
    } else if spec_is_digit(s[from]) {
        digits_end(s, from + 1)
    } else {
        from
    }
}

/// A run of digits ends behind where the reading goes on, and within the
/// characters.
pub proof fn lemma_digits_end_bounds(s: Seq<char>, from: int)
    requires
        0 <= from <= s.len(),
    ensures
        from <= digits_end(s, from) <= s.len(),
    decreases s.len() - from,
{
    if from < s.len() && spec_is_digit(s[from]) {
        lemma_digits_end_bounds(s, from + 1);
    }
}

/// The number that the decimal digits `digits` write.
pub open spec fn decimal(digits: Seq<char>) -> nat
    decreases digits.len(),
{
    if digits.len() == 0 {
        0
    } else {
        (decimal(digits.drop_last()) * 10 + (digits.last() as u32 - '0' as u32)) as nat
    }
}

/// The tokens of `s` from `pos` on, put behind `out`.
///
/// A space is skipped, a bracket and an operator are one token each, and a
/// run of digits is one literal. Any other character is an unknown symbol,
/// and so is a literal beyond the largest 32-bit integer.
pub open spec fn tokens_from(s: Seq<char>, pos: int, out: Seq<TokenView>) -> Result<
    Seq<TokenView>,
    ParseError,
>
    decreases s.len() - pos,
    when 0 <= pos
    via tokens_from_decreases
{
    if pos >= s.len() {
        Ok(out)
    } else {
        let c = s[pos];
        if c == ' ' {
            tokens_from(s, pos + 1, out)
        } else if c == '(' || c == '[' {
            tokens_from(s, pos + 1, out.push(TokenView::LParen(c)))
        } else if c == ')' || c == ']' {
            tokens_from(s, pos + 1, out.push(TokenView::RParen(c)))
        } else if c == '+' || c == '-' {
            tokens_from(s, pos + 1, out.push(TokenView::AddOp(c)))
        } else if c == '*' || c == '/' {
            tokens_from(s, pos + 1, out.push(TokenView::MulOp(c)))
        } else if spec_is_digit(c) {
            let end = digits_end(s, pos + 1);
            let n = decimal(s.subrange(pos, end));
            if n <= i32::MAX {
                tokens_from(s, end, out.push(TokenView::Num(n as i32)))
            } else {
                Err(ParseError::UnknownSymbol)
            }
        } else {
            Err(ParseError::UnknownSymbol)
        }
    }
}

#[via_fn]
proof fn tokens_from_decreases(s: Seq<char>, pos: int, out: Seq<TokenView>) {
    if pos < s.len() {
        lemma_digits_end_bounds(s, pos + 1);
    }
}

/// The tokens of the expression `s`.
pub open spec fn tokens(s: Seq<char>) -> Result<Seq<TokenView>, ParseError> {
    tokens_from(s, 0, Seq::empty())
}

/// What a result of the tokenizer stands for.
pub open spec fn tokenized(r: Result<Vec<Token>, ParseError>) -> Result<
    Seq<TokenView>,
    ParseError,
> {
    match r {
        Ok(toks) => Ok(toks.deep_view()),
        Err(e) => Err(e),
    }
}

/// Reads the literal that starts at `from`, whose first character is a
/// digit. Returns where it ends, and its value unless that is beyond the
/// largest 32-bit integer.
fn scan_literal(chars: &Vec<char>, from: usize) -> (r: (usize, Option<i32>))
    requires
        from < chars.len(),
        spec_is_digit(chars@[from as int]),
    ensures
        r.0 == digits_end(chars@, from + 1),
        from < r.0 <= chars.len(),
        r.1 == (if decimal(chars@.subrange(from as int, r.0 as int)) <= i32::MAX {
            Some(decimal(chars@.subrange(from as int, r.0 as int)) as i32)
        } else {
            None
        }),
{
    let mut i: usize = from;
    let mut value: Option<i32> = Some(0);
    assert(chars@.subrange(from as int, from as int) =~= Seq::<char>::empty());
    while i < chars.len() && is_digit(chars[i])
        invariant
            from <= i <= chars.len(),
            i == from ==> spec_is_digit(chars@[from as int]),
            digits_end(chars@, if i == from { i + 1 } else { i as int }) == digits_end(chars@, from + 1),
            value == (if decimal(chars@.subrange(from as int, i as int)) <= i32::MAX {
                Some(decimal(chars@.subrange(from as int, i as int)) as i32)
            } else {
                None
            }),
        decreases chars.len() - i,
    {
        let digit: i32 = (chars[i] as u32 - '0' as u32) as i32;
        proof {
            assert(chars@.subrange(from as int, i + 1).drop_last() == chars@.subrange(
                from as int,
                i as int,
            ));
        }
        value = match value {
            Some(v) => match v.checked_mul(10) {
                Some(tens) => tens.checked_add(digit),
                None => None,
            },
            None => None,
        };
        i = i + 1;
    }
    (i, value)
}

/// Splits an expression over 32-bit integers into its tokens.
///
/// The result is exactly [`tokens`] of the characters: every token in the
/// order of the expression, or `UnknownSymbol` where a character is
/// foreign or a literal is too large.
pub fn tokenize(expression: &str) -> (r: Result<Vec<Token>, ParseError>)
    ensures
        tokenized(r) == tokens(expression@),
{
    let chars = crate::chars_of(expression);
    let mut toks: Vec<Token> = Vec::new();
    let mut i: usize = 0;
    assert(toks.deep_view() =~= Seq::<TokenView>::empty());
    while i < chars.len()
        invariant
            i <= chars.len(),
            chars@ == expression@,
            tokens_from(chars@, i as int, toks.deep_view()) == tokens(chars@),
        decreases chars.len() - i,
    {
        let c: char = chars[i];
        let ghost before = toks;
        if c == ' ' {
            i = i + 1;
        } else if is_digit(c) {
            let (end, value) = scan_literal(&chars, i);
            match value {
                Some(n) => {
                    toks.push(Token::Num(n));
                    assert(toks.deep_view() =~= before.deep_view().push(TokenView::Num(n)));
                },
                None => {
                    return Err(ParseError::UnknownSymbol);
                },
            }
            i = end;
        } else {
            let tok = if c == '(' || c == '[' {
                Token::LParen(c)
            } else if c == ')' || c == ']' {
                Token::RParen(c)
            } else if c == '+' || c == '-' {
                Token::AddOp(c)
            } else if c == '*' || c == '/' {
                Token::MulOp(c)
            } else {
                return Err(ParseError::UnknownSymbol);
            };
            toks.push(tok);
            assert(toks.deep_view() =~= before.deep_view().push(tok@));
            i = i + 1;
        }
    }
    Ok(toks)
}

} // verus!
