use bagelwithlox::interpreter::{InterpretError, Interpreter};
use bagelwithlox::parser::ParseErrorKind;
use bagelwithlox::tokenizer::TokenType;
use bagelwithlox::value::RuntimeError;

fn run(program: &str) -> (Result<Option<String>, InterpretError>, Vec<String>) {
    let mut interpreter = Interpreter::new();
    let r = interpreter.interpret(&bagelwithlox::source::Source::from_string(program.to_string()));
    (r, interpreter.take_output())
}

fn printed(program: &str) -> Vec<String> {
    let (r, out) = run(program);
    assert!(r.is_ok(), "program failed: {:?}", r);
    out
}

#[test]
fn test_interpret() {
    let _ = Interpreter::new().interpret(&bagelwithlox::source::Source::from_string("string".to_string()));
}

#[test]
fn a_bare_word_is_a_parse_error() {
    let (r, _) = run("string");
    assert_eq!(
        r.unwrap_err(),
        InterpretError::Parse(bagelwithlox::parser::ParseError {
            pos: Some(bagelwithlox::source::FilePosition::nwl(1, 1, 6)),
            kind: ParseErrorKind::ExpectedToken(TokenType::SemiColon),
        }),
    );
}

#[test]
fn for_loop_prints_in_order_and_scopes_its_variable() {
    assert_eq!(printed("for (var i=0; i<3; i=i+1) print i;"), vec!["0", "1", "2"]);
    let (r, out) = run("for (var i=0; i<3; i=i+1) print i; print i;");
    assert_eq!(out, vec!["0", "1", "2"]);
    assert_eq!(r.unwrap_err(), InterpretError::Runtime(RuntimeError::Undeclared));
}

#[test]
fn for_loop_with_parts_left_out() {
    assert_eq!(printed("var i = 0; for (; i < 2;) { print i; i = i + 1; }"), vec!["0", "1"]);
}

#[test]
fn block_variables_end_with_the_block() {
    let (r, _) = run("{ var y = 1; } print y;");
    assert_eq!(r.unwrap_err(), InterpretError::Runtime(RuntimeError::Undeclared));
}

#[test]
fn shadowing_leaves_the_outer_binding() {
    assert_eq!(printed("var x = 1; { var x = 2; print x; } print x;"), vec!["2", "1"]);
}

#[test]
fn assignment_reaches_the_outer_binding() {
    assert_eq!(printed("var x = 1; { x = 2; } print x;"), vec!["2"]);
}

#[test]
fn closures_share_their_variables() {
    let program = "fun makeCounter(){ var i=0; fun inc(){ i=i+1; return i;} return inc; } \
                   var c = makeCounter(); print c(); print c(); print c();";
    assert_eq!(printed(program), vec!["1", "2", "3"]);
}

#[test]
fn arity_is_checked() {
    let (r, _) = run("fun f(a, b) { return a; } f(1);");
    assert_eq!(r.unwrap_err(), InterpretError::Runtime(RuntimeError::ArityMismatch));
    let (r, _) = run("fun f(a, b) { return a; } f(1, 2, 3);");
    assert_eq!(r.unwrap_err(), InterpretError::Runtime(RuntimeError::ArityMismatch));
    assert_eq!(printed("fun f(a, b) { return a + b; } print f(1, 2);"), vec!["3"]);
}

#[test]
fn short_circuit_has_no_side_effect() {
    assert_eq!(printed("var x = 1; false and (x = 2); true or (x = 3); print x;"), vec!["1"]);
}

#[test]
fn uninitialized_variables() {
    let (r, _) = run("var x; print x;");
    assert_eq!(r.unwrap_err(), InterpretError::Runtime(RuntimeError::UsedBeforeInit));
    assert_eq!(printed("var x; x = 4; print x;"), vec!["4"]);
}

#[test]
fn assigning_an_undeclared_name_fails() {
    let (r, _) = run("y = 1;");
    assert_eq!(r.unwrap_err(), InterpretError::Runtime(RuntimeError::Undeclared));
}

#[test]
fn if_else_and_while() {
    assert_eq!(printed("if 1 > 2 { print 1; } else if 2 > 1 { print 2; } else { print 3; }"), vec!["2"]);
    assert_eq!(printed("var n = 3; while n > 0 { print n; n = n - 1; }"), vec!["3", "2", "1"]);
}

#[test]
fn recursion_and_returns() {
    let program = "fun fib(n) { if n < 2 { return n; } return fib(n - 1) + fib(n - 2); } print fib(10);";
    assert_eq!(printed(program), vec!["55"]);
    assert_eq!(printed("fun f() { print 1; } print f();"), vec!["1", "nil"]);
    assert_eq!(printed("fun f() {} print f;"), vec!["f"]);
}

#[test]
fn a_top_level_return_hands_back_its_value() {
    let (r, _) = run("return 2 + 3;");
    assert_eq!(r.unwrap(), Some("5".to_string()));
}

#[test]
fn state_carries_over_between_runs() {
    let mut interpreter = Interpreter::new();
    let src = |t: &str| bagelwithlox::source::Source::from_string(t.to_string());
    interpreter.interpret(&src("var a = 40;")).unwrap();
    interpreter.interpret(&src("print a + 2;")).unwrap();
    assert_eq!(interpreter.take_output(), vec!["42"]);
    assert!(interpreter.take_output().is_empty());
}
