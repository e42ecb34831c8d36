use vstd::prelude::*;

use crate::token::Token;

verus! {

/// An expression tree, as the parser builds it. A numeric literal carries
/// the pattern of its double; operator nodes carry their originating token.
#[derive(Debug, PartialEq)]
pub enum Expr {
    StringLiteral(Vec<u8>),
    NumericLiteral(u64),
    BoolLiteral(bool),
    NilLiteral,
    Logical { left: Box<Expr>, op: Token, right: Box<Expr> },
    Unary { op: Token, expr: Box<Expr> },
    Binary { left: Box<Expr>, op: Token, right: Box<Expr> },
    Grouping(Box<Expr>),
    Variable(Token),
    Assign { name: Token, value: Box<Expr> },
    Call { callee: Box<Expr>, paren: Token, arguments: Vec<Expr> },
}

} // verus!
