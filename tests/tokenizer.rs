use bagelwithlox::number::Number;
use bagelwithlox::source::{FilePosition, Source, SourceError};
use bagelwithlox::tokenizer::{tokenize, LexErrorKind, LiteralValue, Token, TokenType};

fn tok(typ: TokenType, line: usize, col: usize, len: usize, lexeme: &str) -> Token {
    Token::new(typ, FilePosition::nwl(line, col, len), lexeme.to_string())
}

fn lit_num(line: usize, col: usize, len: usize, lexeme: &str) -> Token {
    Token::new_literal(
        TokenType::Number,
        FilePosition::nwl(line, col, len),
        lexeme.to_string(),
        LiteralValue::LNumber(Number::parse(lexeme).unwrap()),
    )
}

fn lex(text: &str) -> Vec<Token> {
    let source = Source::from_string(text.to_string());
    tokenize(&source).unwrap()
}

#[test]
fn test_symbols() {
    let tokens = lex("( ) { } , . + - ; * / ! = < >");
    assert_eq!(
        tokens,
        vec![
            tok(TokenType::LeftParen, 1, 1, 1, "("),
            tok(TokenType::RightParen, 1, 3, 1, ")"),
            tok(TokenType::LeftBrace, 1, 5, 1, "{"),
            tok(TokenType::RightBrace, 1, 7, 1, "}"),
            tok(TokenType::Comma, 1, 9, 1, ","),
            tok(TokenType::Dot, 1, 11, 1, "."),
            tok(TokenType::Plus, 1, 13, 1, "+"),
            tok(TokenType::Minus, 1, 15, 1, "-"),
            tok(TokenType::SemiColon, 1, 17, 1, ";"),
            tok(TokenType::Star, 1, 19, 1, "*"),
            tok(TokenType::Slash, 1, 21, 1, "/"),
            tok(TokenType::Bang, 1, 23, 1, "!"),
            tok(TokenType::Equal, 1, 25, 1, "="),
            tok(TokenType::Less, 1, 27, 1, "<"),
            tok(TokenType::Greater, 1, 29, 1, ">"),
        ],
    );
}

#[test]
fn test_tricky_symbols() {
    let tokens = lex("!= == <= >=");
    assert_eq!(
        tokens,
        vec![
            tok(TokenType::BangEqual, 1, 1, 2, "!="),
            tok(TokenType::EqualEqual, 1, 4, 2, "=="),
            tok(TokenType::LessEqual, 1, 7, 2, "<="),
            tok(TokenType::GreaterEqual, 1, 10, 2, ">="),
        ],
    );
}

#[test]
fn test_identifiers() {
    let tokens = lex("abc abc123 _x_3_4_\n");
    assert_eq!(
        tokens,
        vec![
            tok(TokenType::Identifier, 1, 1, 3, "abc"),
            tok(TokenType::Identifier, 1, 5, 6, "abc123"),
            tok(TokenType::Identifier, 1, 12, 7, "_x_3_4_"),
        ],
    );
}

#[test]
fn test_keywords() {
    let tokens = lex("and class else false for fun if nil or print return super this true var while");
    assert_eq!(
        tokens,
        vec![
            tok(TokenType::And, 1, 1, 3, "and"),
            tok(TokenType::Class, 1, 5, 5, "class"),
            tok(TokenType::Else, 1, 11, 4, "else"),
            tok(TokenType::False, 1, 16, 5, "false"),
            tok(TokenType::For, 1, 22, 3, "for"),
            tok(TokenType::Fun, 1, 26, 3, "fun"),
            tok(TokenType::If, 1, 30, 2, "if"),
            tok(TokenType::Nil, 1, 33, 3, "nil"),
            tok(TokenType::Or, 1, 37, 2, "or"),
            tok(TokenType::Print, 1, 40, 5, "print"),
            tok(TokenType::Return, 1, 46, 6, "return"),
            tok(TokenType::Super, 1, 53, 5, "super"),
            tok(TokenType::This, 1, 59, 4, "this"),
            tok(TokenType::True, 1, 64, 4, "true"),
            tok(TokenType::Var, 1, 69, 3, "var"),
            tok(TokenType::While, 1, 73, 5, "while"),
        ],
    );
}

#[test]
fn test_numbers() {
    let tokens = lex("1 1234 12.34");
    assert_eq!(
        tokens,
        vec![lit_num(1, 1, 1, "1"), lit_num(1, 3, 4, "1234"), lit_num(1, 8, 5, "12.34")],
    );
    assert_eq!(Number::parse("12.34"), Some(Number { num: 617, den: 50 }));
}

#[test]
fn test_strings() {
    let tokens = lex("\"hello\" \"wor\nld\"");
    assert_eq!(
        tokens,
        vec![
            Token::new_literal(
                TokenType::Str,
                FilePosition::nwl(1, 1, 1),
                "\"hello\"".to_string(),
                LiteralValue::LString("hello".to_string()),
            ),
            Token::new_literal(
                TokenType::Str,
                FilePosition::nwl(1, 9, 1),
                "\"wor\nld\"".to_string(),
                LiteralValue::LString("wor\nld".to_string()),
            ),
        ],
    );
}

#[test]
fn test_mix() {
    let tokens = lex("{}( ),.-+; \n*/!!=>>=<<====else death 11.12 ");
    assert_eq!(
        tokens,
        vec![
            Token::nol(TokenType::LeftBrace, FilePosition::nwl(1, 1, 1)),
            Token::nol(TokenType::RightBrace, FilePosition::nwl(1, 2, 1)),
            Token::nol(TokenType::LeftParen, FilePosition::nwl(1, 3, 1)),
            Token::nol(TokenType::RightParen, FilePosition::nwl(1, 5, 1)),
            Token::nol(TokenType::Comma, FilePosition::nwl(1, 6, 1)),
            Token::nol(TokenType::Dot, FilePosition::nwl(1, 7, 1)),
            Token::nol(TokenType::Minus, FilePosition::nwl(1, 8, 1)),
            Token::nol(TokenType::Plus, FilePosition::nwl(1, 9, 1)),
            Token::nol(TokenType::SemiColon, FilePosition::nwl(1, 10, 1)),
            Token::nol(TokenType::Star, FilePosition::nwl(2, 1, 1)),
            Token::nol(TokenType::Slash, FilePosition::nwl(2, 2, 1)),
            Token::nol(TokenType::Bang, FilePosition::nwl(2, 3, 1)),
            Token::nol(TokenType::BangEqual, FilePosition::nwl(2, 4, 2)),
            Token::nol(TokenType::Greater, FilePosition::nwl(2, 6, 1)),
            Token::nol(TokenType::GreaterEqual, FilePosition::nwl(2, 7, 2)),
            Token::nol(TokenType::Less, FilePosition::nwl(2, 9, 1)),
            Token::nol(TokenType::LessEqual, FilePosition::nwl(2, 10, 2)),
            Token::nol(TokenType::EqualEqual, FilePosition::nwl(2, 12, 2)),
            Token::nol(TokenType::Equal, FilePosition::nwl(2, 14, 1)),
            Token::nol(TokenType::Else, FilePosition::nwl(2, 15, 4)),
            tok(TokenType::Identifier, 2, 20, 5, "death"),
            lit_num(2, 26, 5, "11.12"),
        ],
    );
}

#[test]
fn test_x() {
    let tokens = lex("x");
    assert_eq!(tokens, vec![tok(TokenType::Identifier, 1, 1, 1, "x")]);
}

#[test]
#[should_panic(expected = "bad character: &")]
fn test_illegal() {
    let source = Source::from_string(" &".to_string());
    match tokenize(&source) {
        Ok(_) => {},
        Err(e) => panic!("{}", e.get_message()),
    }
}

#[test]
fn illegal_character_is_reported_with_its_place() {
    let source = Source::from_string(" &".to_string());
    let err = tokenize(&source).unwrap_err();
    assert_eq!(err.kind, LexErrorKind::BadCharacter('&'));
    assert_eq!(err.pos, Some(FilePosition::nwl(1, 2, 0)));
}

#[test]
fn comments_are_skipped_to_the_end_of_the_line() {
    let tokens = lex("a // b c\nd");
    assert_eq!(
        tokens,
        vec![tok(TokenType::Identifier, 1, 1, 1, "a"), tok(TokenType::Identifier, 2, 1, 1, "d")],
    );
}

#[test]
fn unterminated_string_is_an_error() {
    let source = Source::from_string("\"abc".to_string());
    let err = tokenize(&source).unwrap_err();
    assert_eq!(err.kind, LexErrorKind::UnterminatedString);
    assert_eq!(err.pos, Some(FilePosition::nwl(1, 1, 1)));
}

#[test]
fn oversized_numeral_is_an_invalid_number() {
    let source = Source::from_string("1000000000000000000000000000000000000000".to_string());
    let err = tokenize(&source).unwrap_err();
    assert_eq!(err.kind, LexErrorKind::InvalidNumber);
}

#[test]
fn a_second_point_ends_a_number() {
    let tokens = lex("1.2.3");
    assert_eq!(
        tokens,
        vec![lit_num(1, 1, 3, "1.2"), tok(TokenType::Dot, 1, 4, 1, "."), lit_num(1, 5, 1, "3")],
    );
}

#[test]
fn unicode_letters_and_tabs() {
    let tokens = lex("\tcafé\u{00a0}x1");
    assert_eq!(
        tokens,
        vec![tok(TokenType::Identifier, 1, 2, 4, "café"), tok(TokenType::Identifier, 1, 7, 2, "x1")],
    );
}

#[test]
fn lexing_the_lexemes_again_gives_the_same_tokens() {
    let text = "var x = 12.5 + foo(\"s t\", nil) >= 3; // done";
    let first = lex(text);
    let mut joined = String::new();
    for t in first.iter() {
        joined.push_str(&t.lexeme);
        joined.push(' ');
    }
    let second = lex(&joined);
    assert_eq!(first.len(), second.len());
    for (a, b) in first.iter().zip(second.iter()) {
        assert_eq!(a.typ, b.typ);
        assert_eq!(a.literal, b.literal);
        assert_eq!(a.lexeme, b.lexeme);
    }
}

#[test]
fn fixed_lexemes() {
    assert_eq!(TokenType::BangEqual.lexeme(), Some("!="));
    assert_eq!(TokenType::While.lexeme(), Some("while"));
    assert_eq!(TokenType::Identifier.lexeme(), None);
}

#[test]
fn relexing_the_text_without_comments() {
    let first = lex("var a=1;// note\n  print a  +2.5 ;");
    let second = lex("var a=1;\n  print a  +2.5 ;");
    assert_eq!(first.len(), second.len());
    for (a, b) in first.iter().zip(second.iter()) {
        assert_eq!(a.typ, b.typ);
        assert_eq!(a.literal, b.literal);
    }
}

#[test]
fn long_numerals_are_rounded() {
    let tokens = lex("99999999999999999999 0.1234567890123456789012");
    assert_eq!(tokens.len(), 2);
    assert_eq!(tokens[0].literal, Some(LiteralValue::LNumber(Number { num: 1, den: 0 })));
    match &tokens[1].literal {
        Some(LiteralValue::LNumber(n)) => assert!(n.den > 0 && n.num > 0 && n.num < n.den),
        other => panic!("unexpected literal {:?}", other),
    }
}
