use bagelwithlox::ast::{Expr, Operator, Stmt};
use bagelwithlox::number::Number;
use bagelwithlox::parser::{parse, parse_expr, ParseErrorKind};
use bagelwithlox::source::{FilePosition, Source};
use bagelwithlox::tokenizer::{tokenize, LiteralValue, Token, TokenType};

fn num_tok(text: &str) -> Token {
    Token::new_literal(
        TokenType::Number,
        FilePosition::new(2, 26),
        text.to_string(),
        LiteralValue::LNumber(Number::parse(text).unwrap()),
    )
}

fn n(text: &str) -> Box<Expr> {
    Box::new(Expr::ENumb { value: Number::parse(text).unwrap() })
}

fn bin(op: Operator, left: Box<Expr>, right: Box<Expr>) -> Box<Expr> {
    Box::new(Expr::EBinOp { op, left, right })
}

fn parse_text(text: &str) -> Expr {
    let source = Source::from_string(text.to_string());
    let tokens = tokenize(&source).unwrap();
    parse_expr(&tokens).unwrap()
}

#[test]
fn test_add() {
    let tokens = vec![num_tok("11.12"), Token::nol(TokenType::Plus, FilePosition::new(1, 9)), num_tok("12")];
    let expr = parse_expr(&tokens).unwrap();
    assert_eq!(expr, *bin(Operator::Add, n("11.12"), n("12")));
}

#[test]
fn test_precidence_mul_over_add_1() {
    let tokens = vec![
        num_tok("11.12"),
        Token::nol(TokenType::Plus, FilePosition::new(1, 9)),
        num_tok("12"),
        Token::nol(TokenType::Star, FilePosition::new(1, 9)),
        num_tok("3"),
    ];
    let expr = parse_expr(&tokens).unwrap();
    assert_eq!(expr, *bin(Operator::Add, n("11.12"), bin(Operator::Mul, n("12"), n("3"))));
}

#[test]
fn test_precidence_mul_over_add_2() {
    let tokens = vec![
        num_tok("11.12"),
        Token::nol(TokenType::Star, FilePosition::new(1, 9)),
        num_tok("12"),
        Token::nol(TokenType::Plus, FilePosition::new(1, 9)),
        num_tok("3"),
    ];
    let expr = parse_expr(&tokens).unwrap();
    assert_eq!(expr, *bin(Operator::Add, bin(Operator::Mul, n("11.12"), n("12")), n("3")));
}

#[test]
fn test_grouping() {
    let tokens = vec![
        num_tok("11.12"),
        Token::nol(TokenType::Star, FilePosition::new(1, 9)),
        Token::nol(TokenType::LeftParen, FilePosition::new(1, 9)),
        num_tok("12"),
        Token::nol(TokenType::Plus, FilePosition::new(1, 9)),
        num_tok("3"),
        Token::nol(TokenType::RightParen, FilePosition::new(1, 9)),
    ];
    let expr = parse_expr(&tokens).unwrap();
    assert_eq!(
        expr,
        *bin(
            Operator::Mul,
            n("11.12"),
            Box::new(Expr::EGroup { expr: bin(Operator::Add, n("12"), n("3")) }),
        ),
    );
}

#[test]
fn precedence_of_sums_and_products() {
    assert_eq!(parse_text("2+3*4"), *bin(Operator::Add, n("2"), bin(Operator::Mul, n("3"), n("4"))));
    assert_eq!(parse_text("2*3+4"), *bin(Operator::Add, bin(Operator::Mul, n("2"), n("3")), n("4")));
    assert_eq!(
        parse_text("(2+3)*4"),
        *bin(Operator::Mul, Box::new(Expr::EGroup { expr: bin(Operator::Add, n("2"), n("3")) }), n("4")),
    );
}

#[test]
fn binary_operators_associate_to_the_left() {
    assert_eq!(parse_text("1-2-3"), *bin(Operator::Sub, bin(Operator::Sub, n("1"), n("2")), n("3")));
}

#[test]
fn assignment_associates_to_the_right() {
    assert_eq!(
        parse_text("a = b = 3"),
        Expr::EAssign {
            name: "a".to_string(),
            expr: Box::new(Expr::EAssign { name: "b".to_string(), expr: n("3") }),
        },
    );
}

#[test]
fn invalid_assignment_target() {
    let source = Source::from_string("1 = 2".to_string());
    let tokens = tokenize(&source).unwrap();
    let err = parse_expr(&tokens).unwrap_err();
    assert_eq!(err.kind, ParseErrorKind::InvalidAssignmentTarget);
    assert_eq!(err.pos, Some(FilePosition::nwl(1, 3, 1)));
}

#[test]
fn trailing_tokens_after_an_expression() {
    let source = Source::from_string("1 2".to_string());
    let tokens = tokenize(&source).unwrap();
    assert_eq!(parse_expr(&tokens).unwrap_err().kind, ParseErrorKind::TrailingTokens);
}

#[test]
fn missing_semicolon() {
    let source = Source::from_string("print 1".to_string());
    let tokens = tokenize(&source).unwrap();
    let err = parse(&tokens).unwrap_err();
    assert_eq!(err.kind, ParseErrorKind::ExpectedToken(TokenType::SemiColon));
    assert_eq!(err.pos, Some(FilePosition::nwl(1, 7, 1)));
}

#[test]
fn unclosed_block_is_an_error() {
    let source = Source::from_string("{ print 1;".to_string());
    let tokens = tokenize(&source).unwrap();
    assert_eq!(parse(&tokens).unwrap_err().kind, ParseErrorKind::ExpectedToken(TokenType::RightBrace));
}

#[test]
fn unexpected_end_of_input() {
    let source = Source::from_string("1 +".to_string());
    let tokens = tokenize(&source).unwrap();
    assert_eq!(parse_expr(&tokens).unwrap_err().kind, ParseErrorKind::UnexpectedEndOfInput);
}

#[test]
fn for_loop_desugars_into_while() {
    let source = Source::from_string("for (var i=0; i<3; i=i+1) print i;".to_string());
    let tokens = tokenize(&source).unwrap();
    let ast = parse(&tokens).unwrap();
    assert_eq!(ast.top.0.len(), 1);
    let i = || Box::new(Expr::EVar { name: "i".to_string() });
    let expected = Stmt::SBlock(vec![
        Stmt::SVar("i".to_string(), Some(Expr::ENumb { value: Number::whole(0) })),
        Stmt::SWhile(
            Expr::EBinOp { op: Operator::Less, left: i(), right: n("3") },
            Box::new(Stmt::SBlock(vec![
                Stmt::SPrint(Expr::EVar { name: "i".to_string() }),
                Stmt::SExpr(Expr::EAssign { name: "i".to_string(), expr: bin(Operator::Add, i(), n("1")) }),
            ])),
        ),
    ]);
    match &ast.top.0[0] {
        bagelwithlox::ast::Interpretable::IStmt(s) => assert_eq!(*s, expected),
        other => panic!("unexpected item {:?}", other),
    }
}
