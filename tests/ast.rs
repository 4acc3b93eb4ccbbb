use bagelwithlox::ast::{Expr, Operator};
use bagelwithlox::interpreter::{InterpretError, Interpreter};
use bagelwithlox::number::Number;
use bagelwithlox::parser::{ParseError, ParseErrorKind};
use bagelwithlox::source::{FilePosition, Source, SourceError};
use bagelwithlox::tokenizer::TokenType;
use bagelwithlox::value::{RuntimeError, ValueKind};

#[test]
fn test_() {
    let e = Expr::EBinOp {
        op: Operator::Mul,
        left: Box::new(Expr::EUnaryOp {
            op: Operator::Negate,
            operand: Box::new(Expr::ENumb { value: Number::whole(123) }),
        }),
        right: Box::new(Expr::EGroup {
            expr: Box::new(Expr::ENumb { value: Number::parse("45.67").unwrap() }),
        }),
    };
    assert_eq!(e.to_text(), "(-123 * (45.67))");
}

#[test]
fn call_and_variable_text() {
    let e = Expr::ECall {
        func: Box::new(Expr::EVar { name: "f".to_string() }),
        args: vec![Expr::EStr { value: "a".to_string() }, Expr::ENil, Expr::EBool { value: true }],
    };
    assert_eq!(e.to_text(), "var f(\"a\", nil, true)");
}

#[test]
fn error_report_points_at_the_place() {
    let src = Source::from_string("var a = 1;\nprint a +;\n".to_string());
    let mut interpreter = Interpreter::new();
    let err = interpreter.interpret(&src).unwrap_err();
    assert_eq!(
        err,
        InterpretError::Parse(ParseError {
            pos: Some(FilePosition::nwl(2, 10, 1)),
            kind: ParseErrorKind::UnexpectedToken(TokenType::SemiColon),
        }),
    );
    assert_eq!(
        src.format_error(&err),
        "Encountered and error on line 2:\n\nprint a +;\n         ^\n\nParseError: unexpected ';'",
    );
}

#[test]
fn error_report_without_a_place() {
    let src = Source::from_string("print 1 + nil;".to_string());
    let mut interpreter = Interpreter::new();
    let err = interpreter.interpret(&src).unwrap_err();
    assert_eq!(err, InterpretError::Runtime(RuntimeError::TypeMismatch(Operator::Add, ValueKind::Number, ValueKind::Nil)));
    assert_eq!(src.format_error(&err), "RuntimeError: cannot apply + to Number and Nil");
}

#[test]
fn error_report_for_a_missing_line() {
    let src = Source::from_string("x".to_string());
    let err = ParseError::new(FilePosition::nwl(5, 1, 1), ParseErrorKind::InvalidAssignmentTarget);
    assert_eq!(
        src.format_error(&err),
        "SourceError: could not find line in source when formatting error message: 5",
    );
    assert_eq!(err.get_message(), "invalid assignment target");
    assert_eq!(err.get_type(), "ParseError");
}

#[test]
fn messages_of_each_error() {
    let e = ParseError::new(FilePosition::nwl(1, 1, 1), ParseErrorKind::ExpectedToken(TokenType::Identifier));
    assert_eq!(e.get_message(), "expected identifier");
    assert_eq!(RuntimeError::Undeclared.message(), "variable not declared");
    assert_eq!(RuntimeError::OutOfFuel.message(), "evaluation ran out of fuel");
    assert_eq!(TokenType::LeftParen.name(), "'('");
}
