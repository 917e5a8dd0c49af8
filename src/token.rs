use vstd::prelude::*;

verus! {

/// A lexical token of Lynx source text.
#[allow(non_camel_case_types)]
#[derive(Debug, PartialEq, Clone, Eq, Hash)]
pub enum TokenType {
    NONE,
    LEFT_PAREN,
    RIGHT_PAREN,
    LEFT_CURLY_BRACE,
    RIGHT_CURLY_BRACE,
    LEFT_BRACE,
    RIGHT_BRACE,
    COMMA,
    DOT,
    COLON,
    MINUS,
    ADD,
    SEMICOLON,
    DIVIDE,
    MULTIPLY,
    BANG,
    BANG_EQUAL,
    ASSIGN,
    EQUAL_EQUAL,
    GREATER,
    GREATER_EQUAL,
    LESS,
    LESS_EQUAL,
    IDENTIFIER(String),
    STRING(String),
    NUMBER(u64),
    TRUE,
    FALSE,
    LET,
    FN,
    IF,
    ELSE,
    WHILE,
    BREAK,
    RETURN,
    /// A character that starts no token, or an unterminated string (`"`),
    /// or an integer literal too large for 64 bits (its first digit).
    UNKNOWN(char),
    EOF,
}

impl TokenType {
    /// A copy equal to `self`.
    pub fn copy(&self) -> (r: TokenType)
        ensures
            r == *self,
    {
        match self {
            TokenType::NONE => TokenType::NONE,
            TokenType::LEFT_PAREN => TokenType::LEFT_PAREN,
            TokenType::RIGHT_PAREN => TokenType::RIGHT_PAREN,
            TokenType::LEFT_CURLY_BRACE => TokenType::LEFT_CURLY_BRACE,
            TokenType::RIGHT_CURLY_BRACE => TokenType::RIGHT_CURLY_BRACE,
            TokenType::LEFT_BRACE => TokenType::LEFT_BRACE,
            TokenType::RIGHT_BRACE => TokenType::RIGHT_BRACE,
            TokenType::COMMA => TokenType::COMMA,
            TokenType::DOT => TokenType::DOT,
            TokenType::COLON => TokenType::COLON,
            TokenType::MINUS => TokenType::MINUS,
            TokenType::ADD => TokenType::ADD,
            TokenType::SEMICOLON => TokenType::SEMICOLON,
            TokenType::DIVIDE => TokenType::DIVIDE,
            TokenType::MULTIPLY => TokenType::MULTIPLY,
            TokenType::BANG => TokenType::BANG,
            TokenType::BANG_EQUAL => TokenType::BANG_EQUAL,
            TokenType::ASSIGN => TokenType::ASSIGN,
            TokenType::EQUAL_EQUAL => TokenType::EQUAL_EQUAL,
            TokenType::GREATER => TokenType::GREATER,
            TokenType::GREATER_EQUAL => TokenType::GREATER_EQUAL,
            TokenType::LESS => TokenType::LESS,
            TokenType::LESS_EQUAL => TokenType::LESS_EQUAL,
            TokenType::IDENTIFIER(s) => TokenType::IDENTIFIER(s.clone()),
            TokenType::STRING(s) => TokenType::STRING(s.clone()),
            TokenType::NUMBER(n) => TokenType::NUMBER(*n),
            TokenType::TRUE => TokenType::TRUE,
            TokenType::FALSE => TokenType::FALSE,
            TokenType::LET => TokenType::LET,
            TokenType::FN => TokenType::FN,
            TokenType::IF => TokenType::IF,
            TokenType::ELSE => TokenType::ELSE,
            TokenType::WHILE => TokenType::WHILE,
            TokenType::BREAK => TokenType::BREAK,
            TokenType::RETURN => TokenType::RETURN,
            TokenType::UNKNOWN(c) => TokenType::UNKNOWN(*c),
            TokenType::EOF => TokenType::EOF,
        }
    }
}

} // verus!
