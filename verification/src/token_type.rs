use vstd::prelude::*;

verus! {

/// The kinds of token the scanner produces.
#[derive(Debug, Clone, Copy, PartialEq, Eq, Structural)]
pub enum TokenType {
    // Single-character tokens.
    LeftParen,
    RightParen,
    LeftBrace,
    RightBrace,
    Comma,
    Dot,
    Minus,
    Plus,
    Semicolon,
    Slash,
    Star,
    // One or two character tokens.
    Bang,
    BangEqual,
    Equal,
    EqualEqual,
    Greater,
    GreaterEqual,
    Less,
    LessEqual,
    // Literals.
    Identifier,
    String,
    Number,
    // Keywords.
    And,
    Class,
    Else,
    False,
    Fun,
    For,
    If,
    Nil,
    Or,
    Print,
    Return,
    Super,
    This,
    True,
    Var,
    While,
    Eof,
}

/// The keyword a lexeme spells, if any: the byte sequences are the ASCII
/// spellings of `and`, `class`, `else`, `false`, `for`, `fun`, `if`,
/// `nil`, `or`, `print`, `return`, `super`, `this`, `true`, `var`,
/// `while`.
pub open spec fn keyword_spec(s: Seq<u8>) -> Option<TokenType> {
    if s == seq![97u8, 110u8, 100u8] {
        Some(TokenType::And)
    } else if s == seq![99u8, 108u8, 97u8, 115u8, 115u8] {
        Some(TokenType::Class)
    } else if s == seq![101u8, 108u8, 115u8, 101u8] {
        Some(TokenType::Else)
    } else if s == seq![102u8, 97u8, 108u8, 115u8, 101u8] {
        Some(TokenType::False)
    } else if s == seq![102u8, 111u8, 114u8] {
        Some(TokenType::For)
    } else if s == seq![102u8, 117u8, 110u8] {
        Some(TokenType::Fun)
    } else if s == seq![105u8, 102u8] {
        Some(TokenType::If)
    } else if s == seq![110u8, 105u8, 108u8] {
        Some(TokenType::Nil)
    } else if s == seq![111u8, 114u8] {
        Some(TokenType::Or)
    } else if s == seq![112u8, 114u8, 105u8, 110u8, 116u8] {
        Some(TokenType::Print)
    } else if s == seq![114u8, 101u8, 116u8, 117u8, 114u8, 110u8] {
        Some(TokenType::Return)
    } else if s == seq![115u8, 117u8, 112u8, 101u8, 114u8] {
        Some(TokenType::Super)
    } else if s == seq![116u8, 104u8, 105u8, 115u8] {
        Some(TokenType::This)
    } else if s == seq![116u8, 114u8, 117u8, 101u8] {
        Some(TokenType::True)
    } else if s == seq![118u8, 97u8, 114u8] {
        Some(TokenType::Var)
    } else if s == seq![119u8, 104u8, 105u8, 108u8, 101u8] {
        Some(TokenType::While)
    } else {
        None
    }
}

/// Looks a lexeme up in the keyword table.
pub fn string_to_keyword(string: &[u8]) -> (r: Option<TokenType>)
    ensures
        r == keyword_spec(string@),
{
    if string.len() == 3 && string[0] == 97 && string[1] == 110 && string[2] == 100 {
        proof {
            assert(string@ =~= seq![97u8, 110u8, 100u8]);
        }
        return Some(TokenType::And);
    }
    if string.len() == 5 && string[0] == 99 && string[1] == 108 && string[2] == 97 && string[3] == 115 && string[4] == 115 {
        proof {
            assert(string@ =~= seq![99u8, 108u8, 97u8, 115u8, 115u8]);
        }
        return Some(TokenType::Class);
    }
    if string.len() == 4 && string[0] == 101 && string[1] == 108 && string[2] == 115 && string[3] == 101 {
        proof {
            assert(string@ =~= seq![101u8, 108u8, 115u8, 101u8]);
        }
        return Some(TokenType::Else);
    }
    if string.len() == 5 && string[0] == 102 && string[1] == 97 && string[2] == 108 && string[3] == 115 && string[4] == 101 {
        proof {
            assert(string@ =~= seq![102u8, 97u8, 108u8, 115u8, 101u8]);
        }
        return Some(TokenType::False);
    }
    if string.len() == 3 && string[0] == 102 && string[1] == 111 && string[2] == 114 {
        proof {
            assert(string@ =~= seq![102u8, 111u8, 114u8]);
        }
        return Some(TokenType::For);
    }
    if string.len() == 3 && string[0] == 102 && string[1] == 117 && string[2] == 110 {
        proof {
            assert(string@ =~= seq![102u8, 117u8, 110u8]);
        }
        return Some(TokenType::Fun);
    }
    if string.len() == 2 && string[0] == 105 && string[1] == 102 {
        proof {
            assert(string@ =~= seq![105u8, 102u8]);
        }
        return Some(TokenType::If);
    }
    if string.len() == 3 && string[0] == 110 && string[1] == 105 && string[2] == 108 {
        proof {
            assert(string@ =~= seq![110u8, 105u8, 108u8]);
        }
        return Some(TokenType::Nil);
    }
    if string.len() == 2 && string[0] == 111 && string[1] == 114 {
        proof {
            assert(string@ =~= seq![111u8, 114u8]);
        }
        return Some(TokenType::Or);
    }
    if string.len() == 5 && string[0] == 112 && string[1] == 114 && string[2] == 105 && string[3] == 110 && string[4] == 116 {
        proof {
            assert(string@ =~= seq![112u8, 114u8, 105u8, 110u8, 116u8]);
        }
        return Some(TokenType::Print);
    }
    if string.len() == 6 && string[0] == 114 && string[1] == 101 && string[2] == 116 && string[3] == 117 && string[4] == 114 && string[5] == 110 {
        proof {
            assert(string@ =~= seq![114u8, 101u8, 116u8, 117u8, 114u8, 110u8]);
        }
        return Some(TokenType::Return);
    }
    if string.len() == 5 && string[0] == 115 && string[1] == 117 && string[2] == 112 && string[3] == 101 && string[4] == 114 {
        proof {
            assert(string@ =~= seq![115u8, 117u8, 112u8, 101u8, 114u8]);
        }
        return Some(TokenType::Super);
    }
    if string.len() == 4 && string[0] == 116 && string[1] == 104 && string[2] == 105 && string[3] == 115 {
        proof {
            assert(string@ =~= seq![116u8, 104u8, 105u8, 115u8]);
        }
        return Some(TokenType::This);
    }
    if string.len() == 4 && string[0] == 116 && string[1] == 114 && string[2] == 117 && string[3] == 101 {
        proof {
            assert(string@ =~= seq![116u8, 114u8, 117u8, 101u8]);
        }
        return Some(TokenType::True);
    }
    if string.len() == 3 && string[0] == 118 && string[1] == 97 && string[2] == 114 {
        proof {
            assert(string@ =~= seq![118u8, 97u8, 114u8]);
        }
        return Some(TokenType::Var);
    }
    if string.len() == 5 && string[0] == 119 && string[1] == 104 && string[2] == 105 && string[3] == 108 && string[4] == 101 {
        proof {
            assert(string@ =~= seq![119u8, 104u8, 105u8, 108u8, 101u8]);
        }
        return Some(TokenType::While);
    }
    None
}

} // verus!
