use vstd::prelude::*;

use crate::expr::Expr;
use crate::token::Token;

verus! {

/// A statement tree, as the parser builds it. The instruction set stops at
/// expressions and Return, so none of these forms is lowered to bytecode
/// yet; a `for` loop is desugared into While and Block at parse time.
#[derive(Debug, PartialEq)]
pub enum Stmt {
    Print(Expr),
    Return { keyword: Token, value: Option<Expr> },
    Expression(Expr),
    Var(Token, Option<Expr>),
    Block(Vec<Stmt>),
    If { condition: Expr, then_branch: Box<Stmt>, else_branch: Option<Box<Stmt>> },
    While { condition: Expr, body: Box<Stmt> },
    Function { name: Token, params: Vec<Token>, body: Box<Stmt> },
}

} // verus!
