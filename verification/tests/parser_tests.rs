use lox_vm::expr::Expr;
use lox_vm::parser::{parse_comp, parse_factor, parse_primary, parse_term, parse_unary};
use lox_vm::scanner;
use lox_vm::token::Token;
use lox_vm::token_type::TokenType;

#[test]
fn test_parse_literal() {
    let source = "123\n\n";
    let tokens = scanner::scan(source.as_bytes()).unwrap();
    let (actual, _) = parse_primary(&tokens, 0).unwrap();
    let expected = Expr::NumericLiteral((123f64).to_bits());
    assert_eq!(actual, expected);
}

#[test]
fn test_parse_unary() {
    let source = "\n!123\n";
    let tokens = scanner::scan(source.as_bytes()).unwrap();
    let (actual, _) = parse_unary(&tokens, 0).unwrap();
    assert!(matches!(
        actual,
        Expr::Unary {
            op: Token {
                token_type: TokenType::Bang,
                ..
            },
            ..
        }
    ))
}

#[test]
fn test_parse_factor() {
    let source = "\n123 * 123\n";
    let tokens = scanner::scan(source.as_bytes()).unwrap();
    let (actual, _) = parse_factor(&tokens, 0).unwrap();
    assert!(matches!(
        actual,
        Expr::Binary {
            op: Token {
                token_type: TokenType::Star,
                ..
            },
            ..
        }
    ))
}

#[test]
fn test_parse_factor2() {
    let source = "\n123 / 123\n";
    let tokens = scanner::scan(source.as_bytes()).unwrap();
    let (actual, _) = parse_factor(&tokens, 0).unwrap();
    assert!(matches!(
        actual,
        Expr::Binary {
            op: Token {
                token_type: TokenType::Slash,
                ..
            },
            ..
        }
    ))
}

#[test]
fn test_parse_term() {
    let source = "1 * 2 + 2";
    let tokens = scanner::scan(source.as_bytes()).unwrap();
    let (actual, _) = parse_term(&tokens, 0).unwrap();
    assert!(matches!(
        actual,
        Expr::Binary {
            op: Token {
                token_type: TokenType::Plus,
                ..
            },
            ..
        }
    ))
}

#[test]
fn test_parse_term2() {
    let source = "1 - 2 * 2";
    let tokens = scanner::scan(source.as_bytes()).unwrap();
    let (actual, _) = parse_term(&tokens, 0).unwrap();
    assert!(matches!(
        actual,
        Expr::Binary {
            op: Token {
                token_type: TokenType::Minus,
                ..
            },
            ..
        }
    ))
}

#[test]
fn test_comp() {
    let source = "1 * 2 >=  1 + 1";
    let tokens = scanner::scan(source.as_bytes()).unwrap();
    let (actual, _) = parse_comp(&tokens, 0).unwrap();
    assert!(matches!(
        actual,
        Expr::Binary {
            op: Token {
                token_type: TokenType::GreaterEqual,
                ..
            },
            ..
        }
    ))
}

#[test]
fn test_grouping() {
    let source = "(1 + 3)";
    let tokens = scanner::scan(source.as_bytes()).unwrap();
    let (actual, _) = parse_primary(&tokens, 0).unwrap();
    assert!(matches!(actual, Expr::Grouping(..)))
}

#[test]
fn parse_collects_statements_and_recovers_from_faults() {
    let tokens = scanner::scan("var x = 1; * ; print 2;".as_bytes()).unwrap();
    let (statements, errors) = lox_vm::parser::parse(&tokens);
    assert_eq!(statements.len(), 2);
    assert_eq!(errors.len(), 1);
    assert!(matches!(statements[0], lox_vm::stmt::Stmt::Var(..)));
    assert!(matches!(statements[1], lox_vm::stmt::Stmt::Print(..)));
}

#[test]
fn bare_for_loop_desugars_to_while_true() {
    let tokens = scanner::scan("for (;;) {}".as_bytes()).unwrap();
    let (statements, errors) = lox_vm::parser::parse(&tokens);
    assert!(errors.is_empty());
    assert_eq!(statements.len(), 1);
    assert!(matches!(
        statements[0],
        lox_vm::stmt::Stmt::While {
            condition: Expr::BoolLiteral(true),
            ..
        }
    ));
}
