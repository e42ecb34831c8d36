use vstd::prelude::*;

use crate::token::Token;
use crate::token_type::TokenType;

verus! {

/// A fault of the parser: what stood in the stream where something else
/// was needed.
#[derive(Debug, PartialEq)]
pub enum ParseError {
    ExpectedSomething { actual: Token, expected: TokenType },
    UnexpectedEndOfInput { expected: &'static str },
    InvalidAssignment { equals: Token },
    InvalidToken { token: Token },
}

} // verus!
