use leval::shunt::{
    is_binary, is_digit, is_func, is_letter, is_op, is_space, is_unop, op_to_tok, precedency,
    right_assoc, shunt,
};
use leval::MathToken::{BinOp, Func, Num, UnOp};
use leval::{MathToken, Number, ParseError, Operation};

fn lit(s: &str) -> Number {
    Number::Literal(s.chars().collect())
}

fn write(operation: Operation<String>) -> String {
    match operation {
        Operation::Num(Number::Literal(text)) => text.iter().collect::<String>(),
        Operation::Num(Number::Pi) => "pi".to_string(),
        Operation::Num(Number::E) => "e".to_string(),
        Operation::Binary(op, left, right) => format!("({}{}{})", left, op, right),
        Operation::Negate(v) => format!("-{}", v),
        Operation::Apply(f, v) => format!("{}({})", f, v),
    }
}

fn calc(toks: Vec<MathToken>) -> Result<String, ParseError> {
    leval::calc::calc(toks, &write)
}

fn postfix(s: &str) -> Result<Vec<MathToken>, ParseError> {
    shunt(s.chars().collect())
}

#[test]
fn shunt_orders_by_precedence() {
    assert_eq!(
        postfix("2+5*3"),
        Ok(vec![Num(lit("2")), Num(lit("5")), Num(lit("3")), BinOp('*'), BinOp('+')])
    );
    assert_eq!(
        postfix("2*5+3"),
        Ok(vec![Num(lit("2")), Num(lit("5")), BinOp('*'), Num(lit("3")), BinOp('+')])
    );
    assert_eq!(
        postfix("2^3^2"),
        Ok(vec![Num(lit("2")), Num(lit("3")), Num(lit("2")), BinOp('^'), BinOp('^')])
    );
    assert_eq!(
        postfix("2-3-4"),
        Ok(vec![Num(lit("2")), Num(lit("3")), BinOp('-'), Num(lit("4")), BinOp('-')])
    );
    assert_eq!(
        postfix("-5^2"),
        Ok(vec![Num(lit("5")), Num(lit("2")), BinOp('^'), UnOp('~')])
    );
    assert_eq!(
        postfix("-2*3"),
        Ok(vec![Num(lit("2")), Num(lit("3")), BinOp('*'), UnOp('~')])
    );
    assert_eq!(
        postfix("-2+3"),
        Ok(vec![Num(lit("2")), UnOp('~'), Num(lit("3")), BinOp('+')])
    );
}

#[test]
fn shunt_brackets_and_functions() {
    assert_eq!(
        postfix("(2+5)*3"),
        Ok(vec![Num(lit("2")), Num(lit("5")), BinOp('+'), Num(lit("3")), BinOp('*')])
    );
    assert_eq!(
        postfix("sqrt(4*10-4)"),
        Ok(vec![
            Num(lit("4")),
            Num(lit("10")),
            BinOp('*'),
            Num(lit("4")),
            BinOp('-'),
            Func('r')
        ])
    );
    assert_eq!(postfix("sin(pi)"), Ok(vec![Num(Number::Pi), Func('s')]));
    assert_eq!(postfix("cos[e]"), Err(ParseError::UnknownConstant));
    assert_eq!(postfix("cos([e])"), Ok(vec![Num(Number::E), Func('c')]));
    assert_eq!(postfix("tan(1)"), Ok(vec![Num(lit("1")), Func('t')]));
    assert_eq!(postfix("ln(1)"), Ok(vec![Num(lit("1")), Func('l')]));
}

#[test]
fn shunt_accepts_what_the_evaluator_rejects() {
    assert_eq!(postfix(""), Ok(vec![]));
    assert_eq!(
        postfix("5+3*"),
        Ok(vec![Num(lit("5")), Num(lit("3")), BinOp('*'), BinOp('+')])
    );
    assert_eq!(postfix("5 3"), Ok(vec![Num(lit("5")), Num(lit("3"))]));
    assert_eq!(calc(postfix("5+3*").unwrap()), Err(ParseError::FactorExpected));
    assert_eq!(calc(postfix("5 3").unwrap()), Err(ParseError::OperatorExpected));
}

#[test]
fn shunt_failures() {
    assert_eq!(postfix("5+%+4"), Err(ParseError::UnknownSymbol));
    assert_eq!(postfix("f(2)"), Err(ParseError::UnknownFunction));
    assert_eq!(postfix("ff"), Err(ParseError::UnknownConstant));
    assert_eq!(postfix("(3+2]"), Err(ParseError::UnbalancedParens));
    assert_eq!(postfix("3*(5+2"), Err(ParseError::UnbalancedParens));
    assert_eq!(postfix("[2]*(5))"), Err(ParseError::UnbalancedParens));
}

#[test]
fn calc_missing_operator() {
    assert_eq!(
        calc(vec![Num(lit("5")), Num(lit("3"))]),
        Err(ParseError::OperatorExpected)
    );
}

#[test]
fn calc_missing_operand() {
    assert_eq!(calc(vec![]), Err(ParseError::FactorExpected));
    assert_eq!(calc(vec![BinOp('+')]), Err(ParseError::FactorExpected));
    assert_eq!(calc(vec![Num(lit("5")), BinOp('+')]), Err(ParseError::FactorExpected));
    assert_eq!(calc(vec![UnOp('~')]), Err(ParseError::FactorExpected));
    assert_eq!(calc(vec![Func('s')]), Err(ParseError::FactorExpected));
    assert_eq!(calc(vec![Num(lit("5")), BinOp('x')]), Err(ParseError::FactorExpected));
    assert_eq!(calc(vec![Func('x')]), Err(ParseError::FactorExpected));
}

#[test]
fn calc_unknown_operations() {
    assert_eq!(
        calc(vec![Num(lit("5")), Num(lit("3")), BinOp('x')]),
        Err(ParseError::UnknownSymbol)
    );
    assert_eq!(
        calc(vec![Num(lit("5")), Num(lit("3")), BinOp('~')]),
        Err(ParseError::UnknownSymbol)
    );
    assert_eq!(calc(vec![Num(lit("5")), Func('x')]), Err(ParseError::UnknownFunction));
    assert_eq!(
        calc(vec![Num(lit("5")), Num(lit("3")), UnOp('x')]),
        Ok("5".to_string())
    );
    assert_eq!(calc(vec![Num(lit("5")), UnOp('x')]), Err(ParseError::FactorExpected));
}

#[test]
fn calc_operand_order() {
    assert_eq!(
        calc(vec![Num(lit("5")), Num(lit("3")), BinOp('-')]),
        Ok("(5-3)".to_string())
    );
    assert_eq!(
        calc(vec![Num(lit("2")), Num(lit("5")), Num(lit("3")), BinOp('/'), BinOp('^')]),
        Ok("(2^(5/3))".to_string())
    );
    assert_eq!(
        calc(vec![Num(lit("9")), Func('r'), UnOp('~')]),
        Ok("-r(9)".to_string())
    );
    assert_eq!(
        leval::calc::calc(
            vec![Num(lit("7")), Num(lit("2")), BinOp('-')],
            &|operation: Operation<i64>| match operation {
                Operation::Num(Number::Literal(text)) => text.iter().collect::<String>().parse().unwrap(),
                Operation::Binary('-', left, right) => left - right,
                _ => unreachable!(),
            }
        ),
        Ok(5)
    );
}

#[test]
fn calc_evaluates_what_shunt_gives() {
    assert_eq!(calc(postfix("2 * [3 + 4]").unwrap()), Ok("(2*(3+4))".to_string()));
    for valid in ["1", "-1", "(1)", "1+2", "sin(1)^2+cos(1)^2", "[1+(2*3)]/4", "- - pi"] {
        assert!(calc(postfix(valid).unwrap()).is_ok());
    }
}

#[test]
fn precedence_table() {
    for f in ['s', 'c', 't', 'r', 'l'] {
        assert_eq!(precedency(f), 1);
    }
    assert_eq!(precedency('+'), 2);
    assert_eq!(precedency('-'), 2);
    assert_eq!(precedency('~'), 3);
    assert_eq!(precedency('*'), 4);
    assert_eq!(precedency('/'), 4);
    assert_eq!(precedency('^'), 5);
    assert!(right_assoc('^'));
    for op in ['+', '-', '*', '/', '~', 's', 'c', 't', 'r', 'l'] {
        assert!(!right_assoc(op));
    }
}

#[test]
fn character_classes() {
    assert!(is_digit('0') && is_digit('9') && !is_digit('a') && !is_digit('.'));
    for c in '\0'..='\u{3100}' {
        assert_eq!(is_space(c), c.is_whitespace());
    }
    assert!(is_letter('a') && is_letter('Z') && !is_letter('1') && !is_letter('_'));
    assert!(is_binary('^') && is_binary('-') && !is_binary('~') && !is_binary('('));
    assert!(is_unop('~') && !is_unop('-'));
    assert!(is_func('r') && is_func('s') && !is_func('x') && !is_func('+'));
    assert!(is_op('+') && is_op('~') && is_op('l') && !is_op('(') && !is_op('['));
    assert_eq!(op_to_tok('+'), BinOp('+'));
    assert_eq!(op_to_tok('~'), UnOp('~'));
    assert_eq!(op_to_tok('r'), Func('r'));
}
