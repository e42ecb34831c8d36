use lox_vm::scanner::scan;
use lox_vm::token::Token;
use lox_vm::token_type::TokenType;

#[test]
fn leftparen_rightparen_bang() {
    let source = "()!";
    let act_out = scan(source.as_bytes()).unwrap();
    let exp_out = vec![
        Token::new(TokenType::LeftParen, b"(".to_vec(), 1),
        Token::new(TokenType::RightParen, b")".to_vec(), 1),
        Token::new(TokenType::Bang, b"!".to_vec(), 1),
        Token::new(TokenType::Eof, b"".to_vec(), 1),
    ];
    assert_eq!(act_out, exp_out);
}

#[test]
fn leftparen_rightparen_bangequal() {
    let source = "()!=";
    let act_out = scan(source.as_bytes()).unwrap();
    let exp_out = vec![
        Token::new(TokenType::LeftParen, b"(".to_vec(), 1),
        Token::new(TokenType::RightParen, b")".to_vec(), 1),
        Token::new(TokenType::BangEqual, b"!=".to_vec(), 1),
        Token::new(TokenType::Eof, b"".to_vec(), 1),
    ];
    assert_eq!(act_out, exp_out);
}

#[test]
fn number_operator_number() {
    let source = "456!=123";
    let act_out = scan(source.as_bytes()).unwrap();
    let exp_out = vec![
        Token::new(TokenType::Number, b"456".to_vec(), 1),
        Token::new(TokenType::BangEqual, b"!=".to_vec(), 1),
        Token::new(TokenType::Number, b"123".to_vec(), 1),
        Token::new(TokenType::Eof, b"".to_vec(), 1),
    ];
    assert_eq!(act_out, exp_out);
}

#[test]
fn something_then_comment_then_something() {
    let source = "456!=123// this is a comment\n789!=789";
    let act_out = scan(source.as_bytes()).unwrap();
    let exp_out = vec![
        Token::new(TokenType::Number, b"456".to_vec(), 1),
        Token::new(TokenType::BangEqual, b"!=".to_vec(), 1),
        Token::new(TokenType::Number, b"123".to_vec(), 1),
        Token::new(TokenType::Number, b"789".to_vec(), 2),
        Token::new(TokenType::BangEqual, b"!=".to_vec(), 2),
        Token::new(TokenType::Number, b"789".to_vec(), 2),
        Token::new(TokenType::Eof, b"".to_vec(), 2),
    ];
    assert_eq!(act_out, exp_out);
}

#[test]
fn string_literal_nl_string_literal() {
    let source = "\"nice\"\n\"lol\"";
    let act_out = scan(source.as_bytes()).unwrap();
    let exp_out = vec![
        Token::new(TokenType::String, b"\"nice\"".to_vec(), 1),
        Token::new(TokenType::String, b"\"lol\"".to_vec(), 2),
        Token::new(TokenType::Eof, b"".to_vec(), 2),
    ];
    assert_eq!(act_out, exp_out);
}

#[test]
fn identifier() {
    let source = "nice != 69";
    let act_out = scan(source.as_bytes()).unwrap();
    let exp_out = vec![
        Token::new(TokenType::Identifier, b"nice".to_vec(), 1),
        Token::new(TokenType::BangEqual, b"!=".to_vec(), 1),
        Token::new(TokenType::Number, b"69".to_vec(), 1),
        Token::new(TokenType::Eof, b"".to_vec(), 1),
    ];
    assert_eq!(act_out, exp_out);
}

#[test]
fn test() {
    let source = "if nice == 69 {}";
    let act_out = scan(source.as_bytes()).unwrap();
    let exp_out = vec![
        Token::new(TokenType::If, b"if".to_vec(), 1),
        Token::new(TokenType::Identifier, b"nice".to_vec(), 1),
        Token::new(TokenType::EqualEqual, b"==".to_vec(), 1),
        Token::new(TokenType::Number, b"69".to_vec(), 1),
        Token::new(TokenType::LeftBrace, b"{".to_vec(), 1),
        Token::new(TokenType::RightBrace, b"}".to_vec(), 1),
        Token::new(TokenType::Eof, b"".to_vec(), 1),
    ];
    assert_eq!(act_out, exp_out);
}

#[test]
fn test_decimal_token() {
    let source = "1.23 >= 3.45";
    let actual = scan(source.as_bytes()).unwrap();
    let expected = vec![
        Token::new(TokenType::Number, b"1.23".to_vec(), 1),
        Token::new(TokenType::GreaterEqual, b">=".to_vec(), 1),
        Token::new(TokenType::Number, b"3.45".to_vec(), 1),
        Token::new(TokenType::Eof, b"".to_vec(), 1),
    ];
    assert_eq!(actual, expected);
}

#[test]
fn unexpected_character_reports_its_line() {
    let source = "\n@";
    let err = scan(source.as_bytes()).unwrap_err();
    assert_eq!(err, lox_vm::scan_error::ScanError::UnexpectedChar(b'@', 2));
}

#[test]
fn empty_source_scans_to_a_lone_eof() {
    let act_out = scan("".as_bytes()).unwrap();
    assert_eq!(act_out, vec![Token::new(TokenType::Eof, b"".to_vec(), 1)]);
}
