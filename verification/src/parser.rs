use vstd::prelude::*;

use crate::double::double_from_decimal;
use crate::expr::Expr;
use crate::parse_error::ParseError;
use crate::stmt::Stmt;
use crate::token::Token;
use crate::token_type::TokenType;

verus! {

// The grammar, lowest precedence first:
//   expression → assignment
//   assignment → IDENTIFIER "=" assignment | logic_or
//   logic_or   → logic_and ( "or" logic_and )*
//   logic_and  → equality ( "and" equality )*
//   equality   → comparison ( ( "!=" | "==" ) comparison )*
//   comparison → term ( ( ">" | ">=" | "<" | "<=" ) term )*
//   term       → factor ( ( "-" | "+" ) factor )*
//   factor     → unary ( ( "/" | "*" ) unary )*
//   unary      → ( "!" | "-" ) unary | call
//   call       → primary ( "(" arguments? ")" )*
//   primary    → "true" | "false" | "nil" | NUMBER | STRING
//              | "(" expression ")" | IDENTIFIER

/// A well-formed token stream: nonempty, closed by an Eof token that
/// appears nowhere else — what the scanner always produces.
pub open spec fn tokens_wf(ts: Seq<Token>) -> bool {
    &&& ts.len() > 0
    &&& ts.last().token_type == TokenType::Eof
    &&& forall|k: int|
        0 <= k < ts.len() - 1 ==> (#[trigger] ts[k]).token_type != TokenType::Eof
}

/// A successful parse consumed at least one token and stopped inside the
/// stream, before or on the closing Eof.
pub open spec fn parse_progress(
    ts: Seq<Token>,
    pos: usize,
    r: Result<(Expr, usize), ParseError>,
) -> bool {
    match r {
        Ok((_, p)) => pos < p < ts.len(),
        Err(_) => true,
    }
}

/// Advances past the expected token, or reports what stood there instead.
pub fn consume<'a>(tokens: &'a [Token], pos: usize, expected: TokenType) -> (r: Result<
    (&'a Token, usize),
    ParseError,
>)
    requires
        pos < tokens@.len(),
    ensures
        (match r {
            Ok((t, p)) => p == pos + 1 && *t == tokens@[pos as int] && t.token_type == expected,
            Err(_) => tokens@[pos as int].token_type != expected,
        }),
{
    if tokens[pos].token_type == expected {
        Ok((&tokens[pos], pos + 1))
    } else {
        Err(
            ParseError::ExpectedSomething {
                actual: tokens[pos].clone(),
                expected,
            },
        )
    }
}

/// Takes the token at `pos` when its kind is one of the expected ones.
pub fn matchh<'a>(tokens: &'a [Token], pos: usize, expected: Vec<TokenType>) -> (r: Option<
    (&'a Token, usize),
>)
    requires
        pos < tokens@.len(),
    ensures
        (match r {
            Some((t, p)) => p == pos + 1 && *t == tokens@[pos as int]
                && expected@.contains(t.token_type),
            None => !expected@.contains(tokens@[pos as int].token_type),
        }),
{
    let mut k: usize = 0;
    while k < expected.len()
        invariant
            0 <= k <= expected@.len(),
            pos < tokens@.len(),
            forall|q: int| 0 <= q < k ==> expected@[q] != tokens@[pos as int].token_type,
        decreases expected@.len() - k,
    {
        if tokens[pos].token_type == expected[k] {
            return Some((&tokens[pos], pos + 1));
        }
        k = k + 1;
    }
    None
}

pub fn parse_expression(tokens: &[Token], pos: usize) -> (r: Result<(Expr, usize), ParseError>)
    requires
        tokens_wf(tokens@),
        pos < tokens@.len(),
    ensures
        parse_progress(tokens@, pos, r),
    decreases tokens@.len() - pos, 10int,
{
    parse_assignment(tokens, pos)
}

pub fn parse_assignment(tokens: &[Token], pos: usize) -> (r: Result<(Expr, usize), ParseError>)
    requires
        tokens_wf(tokens@),
        pos < tokens@.len(),
    ensures
        parse_progress(tokens@, pos, r),
    decreases tokens@.len() - pos, 9int,
{
    let (expr, pos1) = match parse_or(tokens, pos) {
        Ok(p) => p,
        Err(e) => {
            return Err(e);
        },
    };
    match matchh(tokens, pos1, vec![TokenType::Equal]) {
        Some((equals, pos2)) => {
            if pos2 >= tokens.len() {
                return Err(ParseError::UnexpectedEndOfInput { expected: "assignment" });
            }
            let equals = equals.clone();
            let (value, pos3) = match parse_assignment(tokens, pos2) {
                Ok(p) => p,
                Err(e) => {
                    return Err(e);
                },
            };
            match expr {
                Expr::Variable(name) => Ok(
                    (Expr::Assign { name, value: Box::new(value) }, pos3),
                ),
                _ => Err(ParseError::InvalidAssignment { equals }),
            }
        },
        None => Ok((expr, pos1)),
    }
}

pub fn parse_or(tokens: &[Token], pos: usize) -> (r: Result<(Expr, usize), ParseError>)
    requires
        tokens_wf(tokens@),
        pos < tokens@.len(),
    ensures
        parse_progress(tokens@, pos, r),
    decreases tokens@.len() - pos, 8int,
{
    let (mut expr, mut pos1) = match parse_and(tokens, pos) {
        Ok(p) => p,
        Err(e) => {
            return Err(e);
        },
    };
    loop
        invariant
            tokens_wf(tokens@),
            pos < pos1 < tokens@.len(),
        decreases tokens@.len() - pos1,
    {
        match matchh(tokens, pos1, vec![TokenType::Or]) {
            None => {
                break ;
            },
            Some((tok_or, new_pos)) => {
                let op = tok_or.clone();
                if new_pos >= tokens.len() {
                    return Err(ParseError::UnexpectedEndOfInput { expected: "or operand" });
                }
                let (right, new_pos2) = match parse_and(tokens, new_pos) {
                    Ok(p) => p,
                    Err(e) => {
                        return Err(e);
                    },
                };
                pos1 = new_pos2;
                expr = Expr::Logical { left: Box::new(expr), op, right: Box::new(right) };
            },
        }
    }
    Ok((expr, pos1))
}

pub fn parse_and(tokens: &[Token], pos: usize) -> (r: Result<(Expr, usize), ParseError>)
    requires
        tokens_wf(tokens@),
        pos < tokens@.len(),
    ensures
        parse_progress(tokens@, pos, r),
    decreases tokens@.len() - pos, 7int,
{
    let (mut expr, mut pos1) = match parse_equality(tokens, pos) {
        Ok(p) => p,
        Err(e) => {
            return Err(e);
        },
    };
    loop
        invariant
            tokens_wf(tokens@),
            pos < pos1 < tokens@.len(),
        decreases tokens@.len() - pos1,
    {
        match matchh(tokens, pos1, vec![TokenType::And]) {
            None => {
                break ;
            },
            Some((tok_and, new_pos)) => {
                let op = tok_and.clone();
                if new_pos >= tokens.len() {
                    return Err(ParseError::UnexpectedEndOfInput { expected: "and operand" });
                }
                let (right, new_pos2) = match parse_equality(tokens, new_pos) {
                    Ok(p) => p,
                    Err(e) => {
                        return Err(e);
                    },
                };
                pos1 = new_pos2;
                expr = Expr::Logical { left: Box::new(expr), op, right: Box::new(right) };
            },
        }
    }
    Ok((expr, pos1))
}

pub fn parse_equality(tokens: &[Token], pos: usize) -> (r: Result<(Expr, usize), ParseError>)
    requires
        tokens_wf(tokens@),
        pos < tokens@.len(),
    ensures
        parse_progress(tokens@, pos, r),
    decreases tokens@.len() - pos, 6int,
{
    let (mut expr, mut pos1) = match parse_comp(tokens, pos) {
        Ok(p) => p,
        Err(e) => {
            return Err(e);
        },
    };
    loop
        invariant
            tokens_wf(tokens@),
            pos < pos1 < tokens@.len(),
        decreases tokens@.len() - pos1,
    {
        let comp_token = &tokens[pos1];
        if comp_token.token_type != TokenType::EqualEqual && comp_token.token_type
            != TokenType::BangEqual {
            break ;
        }
        let op = comp_token.clone();
        if pos1 + 1 >= tokens.len() {
            return Err(ParseError::UnexpectedEndOfInput { expected: "equality" });
        }
        let (right, new_pos) = match parse_comp(tokens, pos1 + 1) {
            Ok(p) => p,
            Err(e) => {
                return Err(e);
            },
        };
        pos1 = new_pos;
        expr = Expr::Binary { left: Box::new(expr), op, right: Box::new(right) };
    }
    Ok((expr, pos1))
}

pub fn parse_comp(tokens: &[Token], pos: usize) -> (r: Result<(Expr, usize), ParseError>)
    requires
        tokens_wf(tokens@),
        pos < tokens@.len(),
    ensures
        parse_progress(tokens@, pos, r),
    decreases tokens@.len() - pos, 5int,
{
    let (mut expr, mut pos1) = match parse_term(tokens, pos) {
        Ok(p) => p,
        Err(e) => {
            return Err(e);
        },
    };
    loop
        invariant
            tokens_wf(tokens@),
            pos < pos1 < tokens@.len(),
        decreases tokens@.len() - pos1,
    {
        let comp_token = &tokens[pos1];
        if comp_token.token_type != TokenType::Greater && comp_token.token_type
            != TokenType::GreaterEqual && comp_token.token_type != TokenType::Less
            && comp_token.token_type != TokenType::LessEqual {
            break ;
        }
        let op = comp_token.clone();
        if pos1 + 1 >= tokens.len() {
            return Err(ParseError::UnexpectedEndOfInput { expected: "comparision" });
        }
        let (right, new_pos) = match parse_term(tokens, pos1 + 1) {
            Ok(p) => p,
            Err(e) => {
                return Err(e);
            },
        };
        pos1 = new_pos;
        expr = Expr::Binary { left: Box::new(expr), op, right: Box::new(right) };
    }
    Ok((expr, pos1))
}

pub fn parse_term(tokens: &[Token], pos: usize) -> (r: Result<(Expr, usize), ParseError>)
    requires
        tokens_wf(tokens@),
        pos < tokens@.len(),
    ensures
        parse_progress(tokens@, pos, r),
    decreases tokens@.len() - pos, 4int,
{
    let (mut expr, mut pos1) = match parse_factor(tokens, pos) {
        Ok(p) => p,
        Err(e) => {
            return Err(e);
        },
    };
    loop
        invariant
            tokens_wf(tokens@),
            pos < pos1 < tokens@.len(),
        decreases tokens@.len() - pos1,
    {
        let op_token = &tokens[pos1];
        if op_token.token_type != TokenType::Plus && op_token.token_type != TokenType::Minus {
            break ;
        }
        let op = op_token.clone();
        if pos1 + 1 >= tokens.len() {
            return Err(ParseError::UnexpectedEndOfInput { expected: "term operator" });
        }
        let (right, new_pos) = match parse_factor(tokens, pos1 + 1) {
            Ok(p) => p,
            Err(e) => {
                return Err(e);
            },
        };
        pos1 = new_pos;
        expr = Expr::Binary { left: Box::new(expr), op, right: Box::new(right) };
    }
    Ok((expr, pos1))
}

pub fn parse_factor(tokens: &[Token], pos: usize) -> (r: Result<(Expr, usize), ParseError>)
    requires
        tokens_wf(tokens@),
        pos < tokens@.len(),
    ensures
        parse_progress(tokens@, pos, r),
    decreases tokens@.len() - pos, 3int,
{
    let (mut expr, mut pos1) = match parse_unary(tokens, pos) {
        Ok(p) => p,
        Err(e) => {
            return Err(e);
        },
    };
    loop
        invariant
            tokens_wf(tokens@),
            pos < pos1 < tokens@.len(),
        decreases tokens@.len() - pos1,
    {
        let op_token = &tokens[pos1];
        if op_token.token_type != TokenType::Star && op_token.token_type != TokenType::Slash {
            break ;
        }
        let op = op_token.clone();
        if pos1 + 1 >= tokens.len() {
            return Err(ParseError::UnexpectedEndOfInput { expected: "factor" });
        }
        let (right, new_pos) = match parse_unary(tokens, pos1 + 1) {
            Ok(p) => p,
            Err(e) => {
                return Err(e);
            },
        };
        pos1 = new_pos;
        expr = Expr::Binary { left: Box::new(expr), op, right: Box::new(right) };
    }
    Ok((expr, pos1))
}

pub fn parse_unary(tokens: &[Token], pos: usize) -> (r: Result<(Expr, usize), ParseError>)
    requires
        tokens_wf(tokens@),
        pos < tokens@.len(),
    ensures
        parse_progress(tokens@, pos, r),
    decreases tokens@.len() - pos, 2int,
{
    let operator_token = &tokens[pos];
    match operator_token.token_type {
        TokenType::Bang | TokenType::Minus => {
            let op = operator_token.clone();
            if pos + 1 >= tokens.len() {
                return Err(ParseError::UnexpectedEndOfInput { expected: "unary operator" });
            }
            let (right, new_pos) = match parse_unary(tokens, pos + 1) {
                Ok(p) => p,
                Err(e) => {
                    return Err(e);
                },
            };
            Ok((Expr::Unary { op, expr: Box::new(right) }, new_pos))
        },
        _ => parse_call(tokens, pos),
    }
}

pub fn parse_call(tokens: &[Token], pos: usize) -> (r: Result<(Expr, usize), ParseError>)
    requires
        tokens_wf(tokens@),
        pos < tokens@.len(),
    ensures
        parse_progress(tokens@, pos, r),
    decreases tokens@.len() - pos, 1int,
{
    let (mut expr, mut pos1) = match parse_primary(tokens, pos) {
        Ok(p) => p,
        Err(e) => {
            return Err(e);
        },
    };
    loop
        invariant
            tokens_wf(tokens@),
            pos < pos1 < tokens@.len(),
        decreases tokens@.len() - pos1,
    {
        if tokens[pos1].token_type == TokenType::LeftParen {
            if pos1 + 1 >= tokens.len() {
                return Err(ParseError::UnexpectedEndOfInput { expected: "call" });
            }
            let (new_expr, new_pos) = match parse_call_finish(tokens, pos1 + 1, expr) {
                Ok(p) => p,
                Err(e) => {
                    return Err(e);
                },
            };
            expr = new_expr;
            pos1 = new_pos;
        } else {
            break ;
        }
    }
    Ok((expr, pos1))
}

pub fn parse_call_finish(tokens: &[Token], pos: usize, callee: Expr) -> (r: Result<
    (Expr, usize),
    ParseError,
>)
    requires
        tokens_wf(tokens@),
        pos < tokens@.len(),
    ensures
        (match r {
            Ok((_, p)) => pos < p < tokens@.len(),
            Err(_) => true,
        }),
    decreases tokens@.len() - pos, 12int,
{
    let mut pos1 = pos;
    let mut arguments: Vec<Expr> = Vec::new();
    if tokens[pos1].token_type != TokenType::RightParen {
        let (argument, new_pos) = match parse_expression(tokens, pos1) {
            Ok(p) => p,
            Err(e) => {
                return Err(e);
            },
        };
        arguments.push(argument);
        pos1 = new_pos;
        loop
            invariant
                tokens_wf(tokens@),
                pos < pos1 < tokens@.len(),
            decreases tokens@.len() - pos1,
        {
            if tokens[pos1].token_type == TokenType::Comma {
                if pos1 + 1 >= tokens.len() {
                    return Err(ParseError::UnexpectedEndOfInput { expected: "argument" });
                }
                let (argument, new_pos) = match parse_expression(tokens, pos1 + 1) {
                    Ok(p) => p,
                    Err(e) => {
                        return Err(e);
                    },
                };
                arguments.push(argument);
                pos1 = new_pos;
            } else {
                break ;
            }
        }
    }
    let (paren, pos2) = match consume(tokens, pos1, TokenType::RightParen) {
        Ok(p) => p,
        Err(e) => {
            return Err(e);
        },
    };
    let paren = paren.clone();
    proof {
        assert(tokens@[pos1 as int].token_type != TokenType::Eof);
    }
    Ok((Expr::Call { callee: Box::new(callee), paren, arguments }, pos2))
}

pub fn parse_primary(tokens: &[Token], pos: usize) -> (r: Result<(Expr, usize), ParseError>)
    requires
        tokens_wf(tokens@),
        pos < tokens@.len(),
    ensures
        parse_progress(tokens@, pos, r),
    decreases tokens@.len() - pos, 0int,
{
    let token = &tokens[pos];
    match token.token_type {
        TokenType::False => {
            proof {
                assert(tokens@[pos as int].token_type != TokenType::Eof);
            }
            Ok((Expr::BoolLiteral(false), pos + 1))
        },
        TokenType::True => {
            proof {
                assert(tokens@[pos as int].token_type != TokenType::Eof);
            }
            Ok((Expr::BoolLiteral(true), pos + 1))
        },
        TokenType::Nil => {
            proof {
                assert(tokens@[pos as int].token_type != TokenType::Eof);
            }
            Ok((Expr::NilLiteral, pos + 1))
        },
        TokenType::Number => {
            proof {
                assert(tokens@[pos as int].token_type != TokenType::Eof);
            }
            match double_from_decimal(token.lexeme.as_slice()) {
                Some(bits) => Ok((Expr::NumericLiteral(bits), pos + 1)),
                None => Err(ParseError::InvalidToken { token: token.clone() }),
            }
        },
        TokenType::String => {
            proof {
                assert(tokens@[pos as int].token_type != TokenType::Eof);
            }
            let lexeme = crate::scanner::slice_to_vec(
                token.lexeme.as_slice(),
                0,
                token.lexeme.len(),
            );
            Ok((Expr::StringLiteral(lexeme), pos + 1))
        },
        TokenType::LeftParen => {
            if pos + 1 >= tokens.len() {
                return Err(ParseError::UnexpectedEndOfInput { expected: "literal" });
            }
            let (expr, pos1) = match parse_expression(tokens, pos + 1) {
                Ok(p) => p,
                Err(e) => {
                    return Err(e);
                },
            };
            let (_, pos2) = match consume(tokens, pos1, TokenType::RightParen) {
                Ok(p) => p,
                Err(e) => {
                    return Err(e);
                },
            };
            proof {
                assert(tokens@[pos1 as int].token_type != TokenType::Eof);
            }
            Ok((Expr::Grouping(Box::new(expr)), pos2))
        },
        TokenType::Identifier => {
            proof {
                assert(tokens@[pos as int].token_type != TokenType::Eof);
            }
            Ok((Expr::Variable(token.clone()), pos + 1))
        },
        _ => Err(ParseError::InvalidToken { token: token.clone() }),
    }
}


/// A successful statement parse consumed at least one token and stopped
/// inside the stream.
pub open spec fn parse_stmt_progress(
    ts: Seq<Token>,
    pos: usize,
    r: Result<(Stmt, usize), ParseError>,
) -> bool {
    match r {
        Ok((_, p)) => pos < p < ts.len(),
        Err(_) => true,
    }
}

/// Parses a whole program: declarations until the closing Eof, skipping to
/// the next statement boundary after each fault so that one run can report
/// several diagnostics.
pub fn parse(tokens: &[Token]) -> (r: (Vec<Stmt>, Vec<ParseError>))
    requires
        tokens_wf(tokens@),
{
    let mut statements: Vec<Stmt> = Vec::new();
    let mut errors: Vec<ParseError> = Vec::new();
    let mut pos: usize = 0;
    loop
        invariant
            tokens_wf(tokens@),
            pos < tokens@.len(),
        decreases tokens@.len() - pos,
    {
        if tokens[pos].token_type == TokenType::Eof {
            break ;
        } else {
            match parse_declaration(tokens, pos) {
                Ok((statement, new_pos)) => {
                    pos = new_pos;
                    statements.push(statement);
                },
                Err(e) => {
                    errors.push(e);
                    pos = synchronize(tokens, pos);
                },
            }
        }
    }
    (statements, errors)
}

/// Skips forward to the next statement boundary: past a semicolon, or up
/// to a keyword that can open a declaration, or to the closing Eof.
pub fn synchronize(tokens: &[Token], pos: usize) -> (r: usize)
    requires
        tokens_wf(tokens@),
        pos < tokens@.len(),
        tokens@[pos as int].token_type != TokenType::Eof,
    ensures
        pos < r < tokens@.len(),
{
    let n = tokens.len();
    proof {
        assert(tokens@[pos as int].token_type != TokenType::Eof);
        assert(pos != tokens@.len() - 1);
    }
    let mut pos1 = pos + 1;
    loop
        invariant
            tokens_wf(tokens@),
            n == tokens@.len(),
            pos < pos1 <= tokens@.len() - 1,
        decreases tokens@.len() - pos1,
    {
        match tokens[pos1].token_type {
            TokenType::Eof => {
                break ;
            },
            TokenType::Class => {
                break ;
            },
            TokenType::Fun => {
                break ;
            },
            TokenType::Var => {
                break ;
            },
            TokenType::For => {
                break ;
            },
            TokenType::While => {
                break ;
            },
            TokenType::Print => {
                break ;
            },
            TokenType::Return => {
                break ;
            },
            TokenType::Semicolon => {
                proof {
                    assert(tokens@[pos1 as int].token_type != TokenType::Eof);
                }
                pos1 = pos1 + 1;
                break ;
            },
            _ => {
                proof {
                    assert(tokens@[pos1 as int].token_type != TokenType::Eof);
                }
                pos1 = pos1 + 1;
            },
        }
    }
    pos1
}

pub fn parse_declaration(tokens: &[Token], pos: usize) -> (r: Result<(Stmt, usize), ParseError>)
    requires
        tokens_wf(tokens@),
        pos < tokens@.len(),
    ensures
        parse_stmt_progress(tokens@, pos, r),
    decreases tokens@.len() - pos, 15int,
{
    match tokens[pos].token_type {
        TokenType::Fun => {
            if pos + 1 >= tokens.len() {
                return Err(ParseError::UnexpectedEndOfInput { expected: "function" });
            }
            parse_function(tokens, pos + 1)
        },
        TokenType::Var => {
            if pos + 1 >= tokens.len() {
                return Err(ParseError::UnexpectedEndOfInput { expected: "variable" });
            }
            parse_var_declaration(tokens, pos + 1)
        },
        _ => parse_statement(tokens, pos),
    }
}

pub fn parse_function(tokens: &[Token], pos: usize) -> (r: Result<(Stmt, usize), ParseError>)
    requires
        tokens_wf(tokens@),
        pos < tokens@.len(),
    ensures
        parse_stmt_progress(tokens@, pos, r),
    decreases tokens@.len() - pos, 13int,
{
    let (name, pos1) = match consume(tokens, pos, TokenType::Identifier) {
        Ok(p) => p,
        Err(e) => {
            return Err(e);
        },
    };
    let name = name.clone();
    proof {
        assert(tokens@[pos as int].token_type != TokenType::Eof);
    }
    let (_, mut pos2) = match consume(tokens, pos1, TokenType::LeftParen) {
        Ok(p) => p,
        Err(e) => {
            return Err(e);
        },
    };
    proof {
        assert(tokens@[pos1 as int].token_type != TokenType::Eof);
    }
    let mut params: Vec<Token> = Vec::new();
    if tokens[pos2].token_type != TokenType::RightParen {
        loop
            invariant
                tokens_wf(tokens@),
                pos < pos2 < tokens@.len(),
            decreases tokens@.len() - pos2,
        {
            let (param, new_pos) = match consume(tokens, pos2, TokenType::Identifier) {
                Ok(p) => p,
                Err(e) => {
                    return Err(e);
                },
            };
            let param = param.clone();
            proof {
                assert(tokens@[pos2 as int].token_type != TokenType::Eof);
            }
            pos2 = new_pos;
            params.push(param);
            if tokens[pos2].token_type == TokenType::Comma {
                if pos2 + 1 >= tokens.len() {
                    return Err(ParseError::UnexpectedEndOfInput { expected: "parameter" });
                }
                pos2 = pos2 + 1;
            } else {
                break ;
            }
        }
    }
    let (_, pos3) = match consume(tokens, pos2, TokenType::RightParen) {
        Ok(p) => p,
        Err(e) => {
            return Err(e);
        },
    };
    proof {
        assert(tokens@[pos2 as int].token_type != TokenType::Eof);
    }
    let (_, pos4) = match consume(tokens, pos3, TokenType::LeftBrace) {
        Ok(p) => p,
        Err(e) => {
            return Err(e);
        },
    };
    proof {
        assert(tokens@[pos3 as int].token_type != TokenType::Eof);
    }
    let (body, pos5) = match parse_block(tokens, pos4) {
        Ok(p) => p,
        Err(e) => {
            return Err(e);
        },
    };
    Ok((Stmt::Function { name, params, body: Box::new(body) }, pos5))
}

pub fn parse_var_declaration(tokens: &[Token], pos: usize) -> (r: Result<
    (Stmt, usize),
    ParseError,
>)
    requires
        tokens_wf(tokens@),
        pos < tokens@.len(),
    ensures
        parse_stmt_progress(tokens@, pos, r),
    decreases tokens@.len() - pos, 13int,
{
    let (name, pos1) = match consume(tokens, pos, TokenType::Identifier) {
        Ok(p) => p,
        Err(e) => {
            return Err(e);
        },
    };
    let name = name.clone();
    proof {
        assert(tokens@[pos as int].token_type != TokenType::Eof);
    }
    match matchh(tokens, pos1, vec![TokenType::Equal]) {
        Some((_, pos2)) => {
            proof {
                assert(tokens@[pos1 as int].token_type != TokenType::Eof);
            }
            let (initializer, pos3) = match parse_expression(tokens, pos2) {
                Ok(p) => p,
                Err(e) => {
                    return Err(e);
                },
            };
            let (_, pos4) = match consume(tokens, pos3, TokenType::Semicolon) {
                Ok(p) => p,
                Err(e) => {
                    return Err(e);
                },
            };
            proof {
                assert(tokens@[pos3 as int].token_type != TokenType::Eof);
            }
            Ok((Stmt::Var(name, Some(initializer)), pos4))
        },
        None => {
            let (_, pos2) = match consume(tokens, pos1, TokenType::Semicolon) {
                Ok(p) => p,
                Err(e) => {
                    return Err(e);
                },
            };
            proof {
                assert(tokens@[pos1 as int].token_type != TokenType::Eof);
            }
            Ok((Stmt::Var(name, None), pos2))
        },
    }
}

pub fn parse_statement(tokens: &[Token], pos: usize) -> (r: Result<(Stmt, usize), ParseError>)
    requires
        tokens_wf(tokens@),
        pos < tokens@.len(),
    ensures
        parse_stmt_progress(tokens@, pos, r),
    decreases tokens@.len() - pos, 14int,
{
    match tokens[pos].token_type {
        TokenType::For => {
            if pos + 1 >= tokens.len() {
                return Err(ParseError::UnexpectedEndOfInput { expected: "for statement" });
            }
            parse_for_statement(tokens, pos + 1)
        },
        TokenType::If => {
            if pos + 1 >= tokens.len() {
                return Err(ParseError::UnexpectedEndOfInput { expected: "if statement" });
            }
            parse_if_statment(tokens, pos + 1)
        },
        TokenType::Print => {
            if pos + 1 >= tokens.len() {
                return Err(ParseError::UnexpectedEndOfInput { expected: "print statement" });
            }
            parse_print_statement(tokens, pos + 1)
        },
        TokenType::Return => parse_return_statement(tokens, pos),
        TokenType::While => {
            if pos + 1 >= tokens.len() {
                return Err(ParseError::UnexpectedEndOfInput { expected: "while statement" });
            }
            parse_while_statement(tokens, pos + 1)
        },
        TokenType::LeftBrace => {
            if pos + 1 >= tokens.len() {
                return Err(ParseError::UnexpectedEndOfInput { expected: "block" });
            }
            parse_block(tokens, pos + 1)
        },
        _ => parse_expression_statement(tokens, pos),
    }
}

pub fn parse_return_statement(tokens: &[Token], pos: usize) -> (r: Result<
    (Stmt, usize),
    ParseError,
>)
    requires
        tokens_wf(tokens@),
        pos < tokens@.len(),
    ensures
        parse_stmt_progress(tokens@, pos, r),
    decreases tokens@.len() - pos, 13int,
{
    let keyword = tokens[pos].clone();
    if pos + 1 >= tokens.len() {
        return Err(ParseError::UnexpectedEndOfInput { expected: "return statement" });
    }
    let mut pos1 = pos + 1;
    let value: Option<Expr> = match tokens[pos1].token_type {
        TokenType::Semicolon => None,
        _ => {
            let (value, new_pos) = match parse_expression(tokens, pos1) {
                Ok(p) => p,
                Err(e) => {
                    return Err(e);
                },
            };
            pos1 = new_pos;
            Some(value)
        },
    };
    let (_, pos2) = match consume(tokens, pos1, TokenType::Semicolon) {
        Ok(p) => p,
        Err(e) => {
            return Err(e);
        },
    };
    proof {
        assert(tokens@[pos1 as int].token_type != TokenType::Eof);
    }
    Ok((Stmt::Return { keyword, value }, pos2))
}

pub fn parse_for_statement(tokens: &[Token], pos: usize) -> (r: Result<(Stmt, usize), ParseError>)
    requires
        tokens_wf(tokens@),
        pos < tokens@.len(),
    ensures
        parse_stmt_progress(tokens@, pos, r),
    decreases tokens@.len() - pos, 13int,
{
    let (_, mut pos1) = match consume(tokens, pos, TokenType::LeftParen) {
        Ok(p) => p,
        Err(e) => {
            return Err(e);
        },
    };
    proof {
        assert(tokens@[pos as int].token_type != TokenType::Eof);
    }
    let initializer: Option<Stmt> = match tokens[pos1].token_type {
        TokenType::Semicolon => {
            if pos1 + 1 >= tokens.len() {
                return Err(ParseError::UnexpectedEndOfInput { expected: "for condition" });
            }
            pos1 = pos1 + 1;
            None
        },
        TokenType::Var => {
            if pos1 + 1 >= tokens.len() {
                return Err(ParseError::UnexpectedEndOfInput { expected: "for initializer" });
            }
            let (var_declaration, new_pos) = match parse_var_declaration(tokens, pos1 + 1) {
                Ok(p) => p,
                Err(e) => {
                    return Err(e);
                },
            };
            pos1 = new_pos;
            Some(var_declaration)
        },
        _ => {
            let (expression_statement, new_pos) = match parse_expression_statement(tokens, pos1) {
                Ok(p) => p,
                Err(e) => {
                    return Err(e);
                },
            };
            pos1 = new_pos;
            Some(expression_statement)
        },
    };
    let condition: Option<Expr> = match tokens[pos1].token_type {
        TokenType::Semicolon => None,
        _ => {
            let (condition, new_pos) = match parse_expression(tokens, pos1) {
                Ok(p) => p,
                Err(e) => {
                    return Err(e);
                },
            };
            pos1 = new_pos;
            Some(condition)
        },
    };
    let (_, mut pos2) = match consume(tokens, pos1, TokenType::Semicolon) {
        Ok(p) => p,
        Err(e) => {
            return Err(e);
        },
    };
    proof {
        assert(tokens@[pos1 as int].token_type != TokenType::Eof);
    }
    let increment: Option<Expr> = match tokens[pos2].token_type {
        TokenType::RightParen => None,
        _ => {
            let (increment, new_pos) = match parse_expression(tokens, pos2) {
                Ok(p) => p,
                Err(e) => {
                    return Err(e);
                },
            };
            pos2 = new_pos;
            Some(increment)
        },
    };
    let (_, pos3) = match consume(tokens, pos2, TokenType::RightParen) {
        Ok(p) => p,
        Err(e) => {
            return Err(e);
        },
    };
    proof {
        assert(tokens@[pos2 as int].token_type != TokenType::Eof);
    }
    let (parsed_body, pos4) = match parse_statement(tokens, pos3) {
        Ok(p) => p,
        Err(e) => {
            return Err(e);
        },
    };
    // the for loop is desugared into a while loop
    let mut body = parsed_body;
    match increment {
        Some(increment) => {
            body = Stmt::Block(vec![body, Stmt::Expression(increment)]);
        },
        None => {},
    }
    match condition {
        Some(condition) => {
            body = Stmt::While { condition, body: Box::new(body) };
        },
        None => {
            body = Stmt::While { condition: Expr::BoolLiteral(true), body: Box::new(body) };
        },
    }
    match initializer {
        Some(initializer) => {
            body = Stmt::Block(vec![initializer, body]);
        },
        None => {},
    }
    Ok((body, pos4))
}

pub fn parse_while_statement(tokens: &[Token], pos: usize) -> (r: Result<
    (Stmt, usize),
    ParseError,
>)
    requires
        tokens_wf(tokens@),
        pos < tokens@.len(),
    ensures
        parse_stmt_progress(tokens@, pos, r),
    decreases tokens@.len() - pos, 13int,
{
    let (_, pos1) = match consume(tokens, pos, TokenType::LeftParen) {
        Ok(p) => p,
        Err(e) => {
            return Err(e);
        },
    };
    proof {
        assert(tokens@[pos as int].token_type != TokenType::Eof);
    }
    let (condition, pos2) = match parse_expression(tokens, pos1) {
        Ok(p) => p,
        Err(e) => {
            return Err(e);
        },
    };
    let (_, pos3) = match consume(tokens, pos2, TokenType::RightParen) {
        Ok(p) => p,
        Err(e) => {
            return Err(e);
        },
    };
    proof {
        assert(tokens@[pos2 as int].token_type != TokenType::Eof);
    }
    let (body, pos4) = match parse_statement(tokens, pos3) {
        Ok(p) => p,
        Err(e) => {
            return Err(e);
        },
    };
    Ok((Stmt::While { condition, body: Box::new(body) }, pos4))
}

pub fn parse_if_statment(tokens: &[Token], pos: usize) -> (r: Result<(Stmt, usize), ParseError>)
    requires
        tokens_wf(tokens@),
        pos < tokens@.len(),
    ensures
        parse_stmt_progress(tokens@, pos, r),
    decreases tokens@.len() - pos, 13int,
{
    let (_, pos1) = match consume(tokens, pos, TokenType::LeftParen) {
        Ok(p) => p,
        Err(e) => {
            return Err(e);
        },
    };
    proof {
        assert(tokens@[pos as int].token_type != TokenType::Eof);
    }
    let (condition, pos2) = match parse_expression(tokens, pos1) {
        Ok(p) => p,
        Err(e) => {
            return Err(e);
        },
    };
    let (_, pos3) = match consume(tokens, pos2, TokenType::RightParen) {
        Ok(p) => p,
        Err(e) => {
            return Err(e);
        },
    };
    proof {
        assert(tokens@[pos2 as int].token_type != TokenType::Eof);
    }
    let (then_branch, pos4) = match parse_statement(tokens, pos3) {
        Ok(p) => p,
        Err(e) => {
            return Err(e);
        },
    };
    match matchh(tokens, pos4, vec![TokenType::Else]) {
        Some((_, pos5)) => {
            proof {
                assert(tokens@[pos4 as int].token_type != TokenType::Eof);
            }
            let (else_branch, pos6) = match parse_statement(tokens, pos5) {
                Ok(p) => p,
                Err(e) => {
                    return Err(e);
                },
            };
            Ok(
                (
                    Stmt::If {
                        condition,
                        then_branch: Box::new(then_branch),
                        else_branch: Some(Box::new(else_branch)),
                    },
                    pos6,
                ),
            )
        },
        None => Ok(
            (
                Stmt::If {
                    condition,
                    then_branch: Box::new(then_branch),
                    else_branch: None,
                },
                pos4,
            ),
        ),
    }
}

pub fn parse_block(tokens: &[Token], pos: usize) -> (r: Result<(Stmt, usize), ParseError>)
    requires
        tokens_wf(tokens@),
        pos < tokens@.len(),
    ensures
        parse_stmt_progress(tokens@, pos, r),
    decreases tokens@.len() - pos, 16int,
{
    let mut pos1 = pos;
    let mut statements: Vec<Stmt> = Vec::new();
    loop
        invariant
            tokens_wf(tokens@),
            pos <= pos1 < tokens@.len(),
        decreases tokens@.len() - pos1,
    {
        match tokens[pos1].token_type {
            TokenType::Eof | TokenType::RightBrace => {
                let (_, pos2) = match consume(tokens, pos1, TokenType::RightBrace) {
                    Ok(p) => p,
                    Err(e) => {
                        return Err(e);
                    },
                };
                proof {
                    assert(tokens@[pos1 as int].token_type != TokenType::Eof);
                }
                return Ok((Stmt::Block(statements), pos2));
            },
            _ => {
                let (statement, new_pos) = match parse_declaration(tokens, pos1) {
                    Ok(p) => p,
                    Err(e) => {
                        return Err(e);
                    },
                };
                pos1 = new_pos;
                statements.push(statement);
            },
        }
    }
}

pub fn parse_expression_statement(tokens: &[Token], pos: usize) -> (r: Result<
    (Stmt, usize),
    ParseError,
>)
    requires
        tokens_wf(tokens@),
        pos < tokens@.len(),
    ensures
        parse_stmt_progress(tokens@, pos, r),
    decreases tokens@.len() - pos, 13int,
{
    let (expr, pos1) = match parse_expression(tokens, pos) {
        Ok(p) => p,
        Err(e) => {
            return Err(e);
        },
    };
    let (_, pos2) = match consume(tokens, pos1, TokenType::Semicolon) {
        Ok(p) => p,
        Err(e) => {
            return Err(e);
        },
    };
    proof {
        assert(tokens@[pos1 as int].token_type != TokenType::Eof);
    }
    Ok((Stmt::Expression(expr), pos2))
}

pub fn parse_print_statement(tokens: &[Token], pos: usize) -> (r: Result<(Stmt, usize), ParseError>)
    requires
        tokens_wf(tokens@),
        pos < tokens@.len(),
    ensures
        parse_stmt_progress(tokens@, pos, r),
    decreases tokens@.len() - pos, 13int,
{
    let (value, pos1) = match parse_expression(tokens, pos) {
        Ok(p) => p,
        Err(e) => {
            return Err(e);
        },
    };
    let (_, pos2) = match consume(tokens, pos1, TokenType::Semicolon) {
        Ok(p) => p,
        Err(e) => {
            return Err(e);
        },
    };
    proof {
        assert(tokens@[pos1 as int].token_type != TokenType::Eof);
    }
    Ok((Stmt::Print(value), pos2))
}

} // verus!
