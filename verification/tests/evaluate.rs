use leval::{evaluate, Number, ParseError, Operation};

fn arith(operation: Operation<f64>) -> f64 {
    match operation {
        Operation::Num(Number::Literal(text)) => text.iter().collect::<String>().parse::<f64>().unwrap(),
        Operation::Num(Number::Pi) => std::f64::consts::PI,
        Operation::Num(Number::E) => std::f64::consts::E,
        Operation::Binary('+', b, a) => b + a,
        Operation::Binary('-', b, a) => b - a,
        Operation::Binary('*', b, a) => b * a,
        Operation::Binary('/', b, a) => b / a,
        Operation::Binary('^', b, a) => b.powf(a),
        Operation::Negate(v) => -v,
        Operation::Apply('s', v) => v.sin(),
        Operation::Apply('c', v) => v.cos(),
        Operation::Apply('t', v) => v.tan(),
        Operation::Apply('r', v) => v.sqrt(),
        Operation::Apply('l', v) => v.ln(),
        _ => unreachable!(),
    }
}

fn write(operation: Operation<String>) -> String {
    match operation {
        Operation::Num(Number::Literal(text)) => text.iter().collect::<String>(),
        Operation::Num(Number::Pi) => "pi".to_string(),
        Operation::Num(Number::E) => "e".to_string(),
        Operation::Binary(op, left, right) => format!("({}{}{})", left, op, right),
        Operation::Negate(v) => format!("-{}", v),
        Operation::Apply(f, v) => format!("{}({})", f, v),
    }
}

fn term(expression: &str) -> Result<String, ParseError> {
    evaluate(expression, &write)
}

fn eval(expression: &str) -> Result<f64, ParseError> {
    evaluate(expression, &arith)
}

#[test]
fn lib_evaluate_test() {
    assert_eq!(eval("12"), Ok(12.0));
    assert_eq!(eval("2+5*3"), Ok(17.0));
    assert_eq!(eval("2^(3+5)"), Ok(256.0));
    assert_eq!(eval("10/5"), Ok(2.0));
    assert_eq!(eval("4^2 * 1.8"), Ok(28.8));
    assert_eq!(eval("2-5"), Ok(-3.0));
    assert_eq!(eval("-3"), Ok(-3.0));
    assert_eq!(eval("2*(3-5) +  1"), Ok(-3.0));
    assert_eq!(eval("5+(-3)"), Ok(2.0));
    assert_eq!(eval("-5^2"), Ok(-25.0));
    assert_eq!(eval("(-5)^2"), Ok(25.0));
    assert_eq!(eval("4^0.5"), Ok(2.0));

    assert_eq!(eval("5+%+4"), Err(ParseError::UnknownSymbol));
    assert_eq!(eval("5+3*"), Err(ParseError::FactorExpected));
    assert_eq!(eval("[2]*(5))"), Err(ParseError::UnbalancedParens));
    assert_eq!(eval("5+3*"), Err(ParseError::FactorExpected));
    assert_eq!(eval("ff"), Err(ParseError::UnknownConstant));

    assert_eq!(eval("sqrt((9))"), Ok(3.0));
    assert_eq!(eval("ln(1)"), Ok(0.0));
    assert_eq!(eval("sqrt(4*10-4)"), Ok(6.0));
    assert_eq!(eval("(cos(ln(1)+sqrt(1) - 1))*2"), Ok(2.0));
    assert_eq!(eval("-sqrt(9)*2"), Ok(-6.0));

    assert_eq!(eval("e^(ln(2.7))"), Ok(2.7));
    assert!(eval("pi^2").unwrap() < 10.0);
    assert_eq!(eval("pi"), eval("PI"));
}

#[test]
fn eval_evaluate_test() {
    assert_eq!(eval("12"), Ok(12.0));
    assert_eq!(eval("2+5*3"), Ok(17.0));
    assert_eq!(eval("2^(3+5)"), Ok(256.0));
    assert_eq!(eval("10/5"), Ok(2.0));
    assert_eq!(eval("4^2 * 1.8"), Ok(28.8));
    assert_eq!(eval("2-5"), Ok(-3.0));
    assert_eq!(eval("-3"), Ok(-3.0));
    assert_eq!(eval("2*(3-5) +  1"), Ok(-3.0));
    assert_eq!(eval("5+(-3)"), Ok(2.0));
    assert_eq!(eval("-5^2"), Ok(-25.0));
    assert_eq!(eval("(-5)^2"), Ok(25.0));
    assert_eq!(eval("4^0.5"), Ok(2.0));

    assert_eq!(eval("5+%+4"), Err(ParseError::UnknownSymbol));
    assert_eq!(eval("5+3*"), Err(ParseError::FactorExpected));
    assert_eq!(eval("[2]*(5))"), Err(ParseError::UnbalancedParens));
    assert_eq!(eval("5+3*"), Err(ParseError::FactorExpected));
}

#[test]
fn power_groups_from_the_right() {
    assert_eq!(eval("2^3^2"), Ok(512.0));
    assert_eq!(eval("(2^3)^2"), Ok(64.0));
}

#[test]
fn other_operators_group_from_the_left() {
    assert_eq!(eval("10-4-3"), Ok(3.0));
    assert_eq!(eval("100/5/2"), Ok(10.0));
    assert_eq!(eval("2-3+4"), Ok(3.0));
    assert_eq!(eval("8/4*2"), Ok(4.0));
}

#[test]
fn sign_binds_looser_than_power() {
    assert_eq!(eval("-5^2"), Ok(-25.0));
    assert_eq!(eval("(-5)^2"), Ok(25.0));
    assert_eq!(eval("-2+3"), Ok(1.0));
    assert_eq!(eval("3*-5"), Ok(-15.0));
    assert_eq!(eval("+15+3"), Ok(18.0));
    assert_eq!(eval("3 - -5 + 1"), Ok(9.0));
    assert_eq!(eval("2^-1"), Ok(0.5));
    assert_eq!(eval("--3"), Ok(3.0));
}

#[test]
fn bracket_of_the_other_family_is_rejected() {
    assert_eq!(eval("[2]*(5))"), Err(ParseError::UnbalancedParens));
    assert_eq!(eval("(3+2]"), Err(ParseError::UnbalancedParens));
    assert_eq!(eval("[3+2)"), Err(ParseError::UnbalancedParens));
    assert_eq!(eval("[(3+2]"), Err(ParseError::UnbalancedParens));
    assert_eq!(eval("3+2)"), Err(ParseError::UnbalancedParens));
    assert_eq!(eval("2*[5-3]"), Ok(4.0));
    assert_eq!(eval("[(3+2)*(1+1)]"), Ok(10.0));
}

#[test]
fn unclosed_bracket_is_rejected() {
    assert_eq!(eval("3*(5+2"), Err(ParseError::UnbalancedParens));
    assert_eq!(eval("["), Err(ParseError::UnbalancedParens));
    assert_eq!(eval("sin("), Err(ParseError::UnbalancedParens));
}

#[test]
fn function_binds_to_its_bracket() {
    assert_eq!(eval("sqrt(4*10-4)"), Ok(6.0));
    assert_eq!(eval("(cos(ln(1)+sqrt(1)-1))*2"), Ok(2.0));
    assert_eq!(eval("sqrt(16)+1"), Ok(5.0));
    assert_eq!(eval("2*sqrt(16)"), Ok(8.0));
    assert_eq!(eval("sin(0)"), Ok(0.0));
    assert_eq!(eval("tan(0)"), Ok(0.0));
    assert_eq!(eval("cos(0)"), Ok(1.0));
    assert_eq!(eval("foo(2)"), Err(ParseError::UnknownFunction));
    assert_eq!(eval("Sin(2)"), Err(ParseError::UnknownFunction));
    assert_eq!(eval("sin 2"), Err(ParseError::UnknownConstant));
    assert_eq!(eval("sin[2]"), Err(ParseError::UnknownConstant));
}

#[test]
fn constants() {
    assert_eq!(eval("pi"), eval("PI"));
    assert_eq!(eval("pi"), Ok(std::f64::consts::PI));
    assert_eq!(eval("e"), Ok(std::f64::consts::E));
    assert!(eval("pi").unwrap() < 4.0);
    assert!(!(eval("pi^2").unwrap() > 10.0));
    assert_eq!(term("pi"), Ok("pi".to_string()));
    assert_eq!(term("PI"), Ok("pi".to_string()));
    assert_eq!(term("e"), Ok("e".to_string()));
    assert_eq!(eval("Pi"), Err(ParseError::UnknownConstant));
    assert_eq!(eval("E"), Err(ParseError::UnknownConstant));
    assert_eq!(eval("x"), Err(ParseError::UnknownConstant));
}

#[test]
fn missing_operand() {
    assert_eq!(eval("5+3*"), Err(ParseError::FactorExpected));
    assert_eq!(eval(""), Err(ParseError::FactorExpected));
    assert_eq!(eval("   "), Err(ParseError::FactorExpected));
    assert_eq!(eval("()"), Err(ParseError::FactorExpected));
    assert_eq!(eval("-"), Err(ParseError::FactorExpected));
    assert_eq!(eval("sqrt()"), Err(ParseError::FactorExpected));
}

#[test]
fn missing_operator() {
    assert_eq!(eval("5 3"), Err(ParseError::OperatorExpected));
    assert_eq!(eval("(5)(3)"), Err(ParseError::OperatorExpected));
    assert_eq!(eval("2 pi"), Err(ParseError::OperatorExpected));
}

#[test]
fn unknown_symbols() {
    assert_eq!(eval("5+%+4"), Err(ParseError::UnknownSymbol));
    assert_eq!(eval("*5"), Err(ParseError::UnknownSymbol));
    assert_eq!(eval("5+*4"), Err(ParseError::UnknownSymbol));
    assert_eq!(eval("(/2)"), Err(ParseError::UnknownSymbol));
    assert_eq!(eval("~5"), Err(ParseError::UnknownSymbol));
    assert_eq!(eval("5~3"), Err(ParseError::UnknownSymbol));
    assert_eq!(eval(".5"), Err(ParseError::UnknownSymbol));
    assert_eq!(eval("1.2.3"), Err(ParseError::UnknownSymbol));
    assert_eq!(eval("2,5"), Err(ParseError::UnknownSymbol));
}

#[test]
fn first_failure_wins() {
    assert_eq!(eval("(2+%"), Err(ParseError::UnknownSymbol));
    assert_eq!(eval("2)+%"), Err(ParseError::UnbalancedParens));
    assert_eq!(eval("5 3 ]"), Err(ParseError::UnbalancedParens));
    assert_eq!(eval("foo(2"), Err(ParseError::UnknownFunction));
}

#[test]
fn white_space_means_nothing() {
    assert_eq!(eval("2\t+3"), Ok(5.0));
    assert_eq!(eval(" 2 +\n3\r\n"), Ok(5.0));
    assert_eq!(eval("2\u{a0}*\u{3000}3"), Ok(6.0));
    assert_eq!(term("  2 *  ( 3 - 5 ) "), term("2*(3-5)"));
    assert_eq!(eval("1 2"), Err(ParseError::OperatorExpected));
    assert_eq!(eval("1. 5"), Err(ParseError::OperatorExpected));
    assert_eq!(eval("sqrt (4)"), Err(ParseError::UnknownConstant));
    assert_eq!(eval("2\u{200b}+3"), Err(ParseError::UnknownSymbol));
}

#[test]
fn literals() {
    assert_eq!(eval("5."), Ok(5.0));
    assert_eq!(eval("0.25"), Ok(0.25));
    assert_eq!(eval("007"), Ok(7.0));
    assert_eq!(eval("1.5+1.5"), Ok(3.0));
    assert_eq!(term("12.50"), Ok("12.50".to_string()));
    assert_eq!(
        evaluate("12.50", &|operation: Operation<Vec<char>>| match operation {
            Operation::Num(Number::Literal(text)) => text,
            _ => unreachable!(),
        }),
        Ok(vec!['1', '2', '.', '5', '0'])
    );
}

#[test]
fn division_by_zero_is_no_failure() {
    assert_eq!(eval("1/0"), Ok(f64::INFINITY));
    assert_eq!(eval("-1/0"), Ok(f64::NEG_INFINITY));
    assert!(eval("0/0").unwrap().is_nan());
}

#[test]
fn same_expression_same_result() {
    for s in ["2*(3-5) + sqrt(pi)", "5+3*", "e^(ln(2.7))", "1/0", "(3+2]", ""] {
        assert_eq!(term(s), term(s));
        let (first, second) = (eval(s), eval(s));
        assert_eq!(first.is_ok(), second.is_ok());
        assert_eq!(first.map(f64::to_bits), second.map(f64::to_bits));
    }
    assert_eq!(term("2 + 3"), term("2+3"));
}

#[test]
fn term_shape() {
    assert_eq!(term("2+5*3"), Ok("(2+(5*3))".to_string()));
    assert_eq!(term("2-3-4"), Ok("((2-3)-4)".to_string()));
    assert_eq!(term("2^3^4"), Ok("(2^(3^4))".to_string()));
    assert_eq!(term("-5^2"), Ok("-(5^2)".to_string()));
    assert_eq!(term("-2+3"), Ok("(-2+3)".to_string()));
    assert_eq!(term("-2*3+1"), Ok("(-(2*3)+1)".to_string()));
    assert_eq!(term("2--3*4"), Ok("(2--(3*4))".to_string()));
    assert_eq!(term("- -2/3"), Ok("--(2/3)".to_string()));
    assert_eq!(term("+2-+3"), Ok("(2-3)".to_string()));
    assert_eq!(term("2*-3*4"), Ok("(2*-(3*4))".to_string()));
    assert_eq!(term("-ln(2)/3"), Ok("-(l(2)/3)".to_string()));
    assert_eq!(term("-sqrt(9)*2"), Ok("-(r(9)*2)".to_string()));
    assert_eq!(term("sin(pi/2)^2"), Ok("(s((pi/2))^2)".to_string()));
    assert_eq!(term("[1.5 + e] / (4)"), Ok("((1.5+e)/4)".to_string()));
}

#[test]
fn operations_are_applied_once_and_in_order() {
    let log = std::cell::RefCell::new(Vec::new());
    let noting = |operation: Operation<usize>| {
        let mut log = log.borrow_mut();
        log.push(match operation {
            Operation::Num(Number::Literal(text)) => text.iter().collect::<String>(),
            Operation::Num(_) => "const".to_string(),
            Operation::Binary(op, left, right) => format!("{} {} {}", left, op, right),
            Operation::Negate(v) => format!("- {}", v),
            Operation::Apply(f, v) => format!("{} {}", f, v),
        });
        log.len() - 1
    };
    assert_eq!(evaluate("2+5*3", &noting), Ok(4));
    assert_eq!(*log.borrow(), vec!["2", "5", "3", "1 * 2", "0 + 3"]);
}

#[test]
fn messages() {
    assert_eq!(ParseError::UnknownSymbol.to_string(), "Error: UnknownSymbol");
    assert_eq!(ParseError::UnknownFunction.to_string(), "Error: UnknownFunction");
    assert_eq!(ParseError::UnknownConstant.to_string(), "Error: UnknownConstant");
    assert_eq!(ParseError::UnbalancedParens.to_string(), "Error: UnbalancedParens");
    assert_eq!(ParseError::FactorExpected.to_string(), "Error: FactorExpected");
    assert_eq!(ParseError::OperatorExpected.to_string(), "Error: OperatorExpected");
}
