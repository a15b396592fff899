use leval::evaluator::expr;
use leval::tokenizer::tokenize;
use leval::{evaluate, Number, Operation};

fn arith(operation: Operation<f64>) -> f64 {
    match operation {
        Operation::Num(Number::Literal(text)) => text.iter().collect::<String>().parse::<f64>().unwrap(),
        Operation::Num(Number::Pi) => std::f64::consts::PI,
        Operation::Num(Number::E) => std::f64::consts::E,
        Operation::Binary('+', b, a) => b + a,
        Operation::Binary('-', b, a) => b - a,
        Operation::Binary('*', b, a) => b * a,
        Operation::Binary('/', b, a) => b / a,
        Operation::Binary('^', b, a) => b.powf(a),
        Operation::Negate(v) => -v,
        Operation::Apply('s', v) => v.sin(),
        Operation::Apply('c', v) => v.cos(),
        Operation::Apply('t', v) => v.tan(),
        Operation::Apply('r', v) => v.sqrt(),
        Operation::Apply('l', v) => v.ln(),
        _ => unreachable!(),
    }
}

#[test]
fn plain_expressions_agree_with_the_integer_calculator() {
    for s in [
        "2+5*3",
        "2*5+3",
        "10-4-3",
        "64/4/2",
        "8/4*2",
        "1+2*3-4/2",
        "7",
        " 1 + 2 ",
        "9-3*2-1",
        "100/10*10/100",
        "2*3*4-5*6+7",
        "1000000*2000-1",
    ] {
        let by_descent = expr(&mut tokenize(s).unwrap(), None).unwrap();
        let by_pipeline = evaluate(s, &arith).unwrap();
        assert_eq!(by_pipeline, by_descent as f64, "{}", s);
    }
}

#[test]
fn bracketed_expressions_agree_with_the_integer_calculator() {
    for s in ["2*(3-5)+1", "(2+5)*3", "2*[5-3]", "[(1+2)*(3+4)]-5", "((7))", "60/(2*(1+2))"] {
        let by_descent = expr(&mut tokenize(s).unwrap(), None).unwrap();
        let by_pipeline = evaluate(s, &arith).unwrap();
        assert_eq!(by_pipeline, by_descent as f64, "{}", s);
    }
}
