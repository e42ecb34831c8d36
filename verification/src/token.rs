use vstd::prelude::*;

use crate::token_type::TokenType;

verus! {

/// A token: its kind, the bytes of its lexeme, and the source line it
/// starts on (for a string literal spanning lines, the line it ends on).
#[derive(Debug, Clone, PartialEq)]
pub struct Token {
    pub token_type: TokenType,
    pub lexeme: Vec<u8>,
    pub line: usize,
}

/// The mathematical content of a token.
pub struct TokenModel {
    pub token_type: TokenType,
    pub lexeme: Seq<u8>,
    pub line: usize,
}

impl View for Token {
    type V = TokenModel;

    open spec fn view(&self) -> TokenModel {
        TokenModel { token_type: self.token_type, lexeme: self.lexeme@, line: self.line }
    }
}

impl Token {
    pub fn new(token_type: TokenType, lexeme: Vec<u8>, line: usize) -> (r: Self)
        ensures
            r.token_type == token_type,
            r.lexeme@ == lexeme@,
            r.line == line,
    {
        Token { token_type, lexeme, line }
    }
}

} // verus!
