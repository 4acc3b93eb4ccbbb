use bagelwithlox::environment::Environment;
use bagelwithlox::evaluator::eval;
use bagelwithlox::interpreter::FUEL;
use bagelwithlox::number::Number;
use bagelwithlox::parser::parse_expr;
use bagelwithlox::source::Source;
use bagelwithlox::tokenizer::tokenize;
use bagelwithlox::value::{LoxType, LoxValue, RuntimeError, ValueKind};
use bagelwithlox::ast::{Expr, Operator};

fn run(text: &str) -> Result<LoxValue, RuntimeError> {
    let mut env = Environment::new();
    let src = Source::from_string(text.to_string());
    let tokens = tokenize(&src).unwrap();
    let expr = parse_expr(&tokens).unwrap();
    eval(&expr, 0, &mut env, FUEL)
}

fn run_expr(text: &str) -> LoxType {
    run(text).unwrap().0
}

fn shown(text: &str) -> String {
    run(text).unwrap().value_string()
}

fn num(text: &str) -> LoxType {
    LoxType::VNumb(Number::parse(text).unwrap())
}

#[test]
fn literals() {
    assert_eq!(run_expr("2"), num("2"));
    assert_eq!(run_expr("true"), LoxType::VBool(true));
    assert_eq!(run_expr("false"), LoxType::VBool(false));
    assert_eq!(run_expr("nil"), LoxType::VNil);
    assert_eq!(run_expr("\"hello\""), LoxType::VStr(String::from("hello")));
}

#[test]
fn binops() {
    assert_eq!(run_expr("2+3"), num("5"));
    assert_eq!(run_expr("2*3"), num("6"));
    assert_eq!(run_expr("2-3"), LoxType::VNumb(Number::whole(-1)));
    assert_eq!(run_expr("3/2"), num("1.5"));
    assert_eq!(run_expr("\"hello\"+\"world\""), LoxType::VStr(String::from("helloworld")));
}

#[test]
fn compare() {
    assert_eq!(run_expr("2<3"), LoxType::VBool(true));
    assert_eq!(run_expr("3<=3"), LoxType::VBool(true));
    assert_eq!(run_expr("2>3"), LoxType::VBool(false));
    assert_eq!(run_expr("3>=3"), LoxType::VBool(true));
    assert_eq!(run_expr("3==3"), LoxType::VBool(true));
    assert_eq!(run_expr("3!=3"), LoxType::VBool(false));
    assert_eq!(run_expr("\"x\" == \"x\""), LoxType::VBool(true));
}

#[test]
fn group() {
    assert_eq!(run_expr("2 + (3*4)"), num("14"));
}

#[test]
fn unary() {
    assert_eq!(run_expr("-3 + 4"), num("1"));
    assert_eq!(run_expr("!true"), LoxType::VBool(false));
    assert_eq!(run_expr("!123"), LoxType::VBool(false));
}

#[test]
fn zero_is_true() {
    assert_eq!(run_expr("!0"), LoxType::VBool(false));
    assert_eq!(run_expr("!\"\""), LoxType::VBool(false));
    assert_eq!(run_expr("!nil"), LoxType::VBool(true));
}

#[test]
fn and_stops_at_false() {
    assert_eq!(run_expr("false and (1/0)"), LoxType::VBool(false));
    assert_eq!(run_expr("true or (1 + \"a\")"), LoxType::VBool(true));
    assert_eq!(run_expr("nil or 0"), LoxType::VBool(true));
}

#[test]
fn results_as_text() {
    assert_eq!(shown("2+3"), "5");
    assert_eq!(shown("\"a\"+\"b\""), "ab");
    assert_eq!(shown("2<3"), "true");
    assert_eq!(shown("-3+4"), "1");
    assert_eq!(shown("nil"), "nil");
    assert_eq!(shown("1/3"), "0.3333333333333333");
    assert_eq!(shown("-7/4"), "-1.75");
    assert_eq!(shown("0.1+0.2"), "0.3");
}

#[test]
fn division_by_zero_follows_floating_point() {
    assert_eq!(shown("1/0"), "inf");
    assert_eq!(shown("-1/0"), "-inf");
    assert_eq!(shown("0/0"), "NaN");
    assert_eq!(shown("1/0 - 1/0"), "NaN");
    assert_eq!(shown("5/(1/0)"), "0");
    assert_eq!(run_expr("0/0 == 0/0"), LoxType::VBool(false));
    assert_eq!(run_expr("0/0 != 0/0"), LoxType::VBool(true));
    assert_eq!(run_expr("1/0 > 1000000"), LoxType::VBool(true));
}

#[test]
fn cross_kind_comparisons() {
    assert_eq!(run_expr("1 == \"1\""), LoxType::VBool(false));
    assert_eq!(run_expr("1 != \"1\""), LoxType::VBool(true));
    assert_eq!(run_expr("1 < \"1\""), LoxType::VBool(false));
    assert_eq!(run_expr("nil == nil"), LoxType::VBool(true));
    assert_eq!(run_expr("\"abc\" < \"abd\""), LoxType::VBool(true));
    assert_eq!(run_expr("\"ab\" < \"a\""), LoxType::VBool(false));
    assert_eq!(run_expr("false < true"), LoxType::VBool(true));
}

#[test]
fn string_repetition() {
    assert_eq!(shown("\"ab\" * 3"), "ababab");
    assert_eq!(shown("2.5 * \"xy\""), "xyxy");
    assert_eq!(shown("\"ab\" * -1"), "");
}

#[test]
fn type_mismatch() {
    assert_eq!(
        run("1 + \"a\"").unwrap_err(),
        RuntimeError::TypeMismatch(Operator::Add, ValueKind::Number, ValueKind::Str),
    );
    assert_eq!(
        run("-\"a\"").unwrap_err(),
        RuntimeError::TypeMismatch(Operator::Negate, ValueKind::Str, ValueKind::Str),
    );
}

#[test]
fn names_and_calls_fail_cleanly() {
    assert_eq!(run("x").unwrap_err(), RuntimeError::Undeclared);
    assert_eq!(run("1()").unwrap_err(), RuntimeError::NotCallable);
}

#[test]
fn fuel_runs_out() {
    let mut env = Environment::new();
    let src = Source::from_string("1 + 2".to_string());
    let tokens = tokenize(&src).unwrap();
    let expr = parse_expr(&tokens).unwrap();
    assert_eq!(eval(&expr, 0, &mut env, 1).unwrap_err(), RuntimeError::OutOfFuel);
    assert_eq!(eval(&expr, 0, &mut env, 2).unwrap().0, num("3"));
}

#[test]
fn operators_out_of_place() {
    let mut env = Environment::new();
    let one = || Box::new(Expr::ENumb { value: Number::whole(1) });
    let e = Expr::EBinOp { op: Operator::And, left: one(), right: one() };
    assert_eq!(eval(&e, 0, &mut env, FUEL).unwrap_err(), RuntimeError::InvalidOperator(Operator::And));
    let e = Expr::ELogicalOp { op: Operator::Add, left: one(), right: one() };
    assert_eq!(eval(&e, 0, &mut env, FUEL).unwrap_err(), RuntimeError::InvalidOperator(Operator::Add));
    let e = Expr::EUnaryOp { op: Operator::Mul, operand: one() };
    assert_eq!(eval(&e, 0, &mut env, FUEL).unwrap_err(), RuntimeError::InvalidOperator(Operator::Mul));
}

#[test]
fn arithmetic_never_fails_on_numbers() {
    assert_eq!(shown("9223372036854775807 + 1"), "inf");
    assert_eq!(shown("9223372036854775807 * 2"), "inf");
    assert_eq!(shown("-9223372036854775807 * 2"), "-inf");
    assert_eq!(shown("9223372036854775807 / 0.5"), "inf");
    assert_eq!(shown("(1 / 9223372036854775807) / 9223372036854775807"), "0");
    assert_eq!(shown("9223372036854775807 / 2"), "4611686018427387903.5");
    assert_eq!(shown("-(-9223372036854775807 - 1)"), "inf");
    let third = run("(1/3) * (1/3) * (1/3) * (1/3) * (1/3) * (1/3) * (1/3) * (1/3) * (1/3) * (1/3) * (1/3) * (1/3)");
    assert!(third.is_ok());
}
