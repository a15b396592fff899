use leval::evaluate::evaluate;
use leval::evaluator::{expr, Vars};
use leval::parse_error::ParseError;
use leval::tokenizer::tokenize;
use leval::tokenizer::Token::{AddOp, LParen, MulOp, Num, RParen, Var};

#[test]
fn tokenizer_working() {
    assert_eq!(
        tokenize("55+7-3*7"),
        Ok(vec![Num(55), AddOp('+'), Num(7), AddOp('-'), Num(3), MulOp('*'), Num(7)])
    );

    assert_eq!(tokenize("7+5"), Ok(vec![Num(7), AddOp('+'), Num(5)]));

    assert_eq!(tokenize("5+5"), tokenize("5 + 5"));

    assert_eq!(
        tokenize("(4+3)*4"),
        Ok(vec![LParen('('), Num(4), AddOp('+'), Num(3), RParen(')'), MulOp('*'), Num(4)])
    );
}

#[test]
fn evaluate_evaluater_working() {
    assert_eq!(evaluate(vec![Num(16), AddOp('+'), Num(2), MulOp('*'), Num(3)]).unwrap(), 22);
}

#[test]
fn evaluator_evaluater_working() {
    assert_eq!(
        expr(&mut vec![Num(16), MulOp('*'), Num(2), AddOp('+'), Num(3)], None),
        Ok(35)
    );

    assert_eq!(
        expr(
            &mut vec![LParen('('), Num(5), AddOp('+'), Num(5), RParen(')'), MulOp('*'), Num(3)],
            None
        ),
        Ok(30)
    );
}

#[test]
fn tokenizer_rejects_foreign_characters() {
    assert_eq!(tokenize("4 + ?"), Err(ParseError::UnknownSymbol));
    assert_eq!(tokenize("x"), Err(ParseError::UnknownSymbol));
    assert_eq!(tokenize("1.5"), Err(ParseError::UnknownSymbol));
}

#[test]
fn tokenizer_literal_limits() {
    assert_eq!(tokenize("2147483647"), Ok(vec![Num(2147483647)]));
    assert_eq!(tokenize("2147483648"), Err(ParseError::UnknownSymbol));
    assert_eq!(tokenize("99999999999999999999"), Err(ParseError::UnknownSymbol));
    assert_eq!(tokenize("007"), Ok(vec![Num(7)]));
    assert_eq!(tokenize(""), Ok(vec![]));
    assert_eq!(tokenize("[ ]"), Ok(vec![LParen('['), RParen(']')]));
}

#[test]
fn expr_leaves_the_rest() {
    let mut toks = vec![Num(1), AddOp('+'), Num(2), RParen(')'), Num(9)];
    assert_eq!(expr(&mut toks, None), Ok(3));
    assert_eq!(toks, vec![RParen(')'), Num(9)]);
}

#[test]
fn expr_groups_from_the_left() {
    assert_eq!(evaluate(tokenize("10-4-3").unwrap()), Ok(3));
    assert_eq!(evaluate(tokenize("100/5/2").unwrap()), Ok(10));
    assert_eq!(evaluate(tokenize("2+5*3").unwrap()), Ok(17));
    assert_eq!(evaluate(tokenize("2*[5-3]").unwrap()), Ok(4));
    assert_eq!(evaluate(tokenize("0-7/2").unwrap()), Ok(-3));
    assert_eq!(evaluate(tokenize("(0-7)/2").unwrap()), Ok(-3));
}

#[test]
fn expr_failures() {
    assert_eq!(evaluate(vec![]), Err(ParseError::FactorExpected));
    assert_eq!(evaluate(tokenize("5+").unwrap()), Err(ParseError::FactorExpected));
    assert_eq!(evaluate(tokenize("*5").unwrap()), Err(ParseError::FactorExpected));
    assert_eq!(evaluate(tokenize("(4+2]*3").unwrap()), Err(ParseError::UnbalancedParens));
    assert_eq!(evaluate(tokenize("3*(5+2").unwrap()), Err(ParseError::UnbalancedParens));
    assert_eq!(evaluate(tokenize("1/0").unwrap()), Err(ParseError::UnknownOperation));
    assert_eq!(evaluate(tokenize("2147483647+1").unwrap()), Err(ParseError::UnknownOperation));
    assert_eq!(evaluate(tokenize("65536*65536").unwrap()), Err(ParseError::UnknownOperation));
    assert_eq!(
        evaluate(vec![Num(0), AddOp('-'), Num(2147483647), AddOp('-'), Num(1), MulOp('/'), Num(1)]),
        Ok(-2147483648)
    );
    assert_eq!(
        evaluate(vec![
            LParen('('),
            Num(0),
            AddOp('-'),
            Num(2147483647),
            AddOp('-'),
            Num(1),
            RParen(')'),
            MulOp('/'),
            LParen('('),
            Num(0),
            AddOp('-'),
            Num(1),
            RParen(')')
        ]),
        Err(ParseError::UnknownOperation)
    );
    assert_eq!(evaluate(vec![Num(1), AddOp('*'), Num(2)]), Err(ParseError::UnknownOperation));
    assert_eq!(evaluate(vec![Num(1), MulOp('+'), Num(2)]), Err(ParseError::UnknownOperation));
    assert_eq!(evaluate(vec![Var("x".to_string())]), Err(ParseError::UnknownVariable));
}

#[test]
fn variables() {
    let mut vars = Vars::new();
    assert_eq!(vars.get("x"), None);
    vars.set("x", 5);
    vars.set("y", 7);
    assert_eq!(vars.get("x"), Some(5));
    vars.set("x", 6);
    assert_eq!(vars.get("x"), Some(6));
    assert_eq!(vars.get("y"), Some(7));
    assert_eq!(vars.get("z"), None);

    let mut toks = vec![Var("x".to_string()), MulOp('*'), Var("y".to_string())];
    assert_eq!(expr(&mut toks, Some(&vars)), Ok(42));
    let mut toks = vec![Var("x".to_string()), MulOp('*'), Var("z".to_string())];
    assert_eq!(expr(&mut toks, Some(&vars)), Err(ParseError::UnknownVariable));
    let mut toks = vec![Var("x".to_string())];
    assert_eq!(expr(&mut toks, None), Err(ParseError::UnknownVariable));
}

#[test]
fn calculator_messages() {
    assert_eq!(ParseError::UnknownSymbol.to_string(), "Error: UnknownSymbol");
    assert_eq!(ParseError::FactorExpected.to_string(), "Error: FactorExpected");
    assert_eq!(ParseError::UnbalancedParens.to_string(), "Error: UnbalancedParens");
    assert_eq!(ParseError::UnknownVariable.to_string(), "Error: UnknownVariable");
    assert_eq!(ParseError::UnknownOperation.to_string(), "Error: UnknownOperation");
}
