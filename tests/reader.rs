use bagelwithlox::ast::Operator;

#[test]
fn reader_test_read_source() {
    let source = bagelwithlox::reader::Source::from_string("content");
    assert_eq!(source.get_content(), "content");
    assert_eq!(source.get_filename(), "__str__");
}

#[test]
fn source_test_read_source() {
    let source = bagelwithlox::source::Source::from_string("content".to_string());
    assert_eq!(source.content, "content");
    assert_eq!(source.filename, "__str__");
}

#[test]
fn positions_move_by_characters() {
    let mut pos = bagelwithlox::source::FilePosition::new(1, 0);
    pos.char_inc('a');
    assert_eq!(pos, bagelwithlox::source::FilePosition::nwl(1, 1, 0));
    pos.char_inc('\n');
    assert_eq!(pos, bagelwithlox::source::FilePosition::nwl(2, 0, 0));
}

#[test]
fn operator_classes() {
    assert!(Operator::Add.is_binary_operator());
    assert!(!Operator::And.is_binary_operator());
    assert!(Operator::Negate.is_unary_operator());
    assert!(Operator::Or.is_logical_operator());
}
