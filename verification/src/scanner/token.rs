//! Tokens produced by the scanner of the bytecode compiler.

use vstd::prelude::*;

verus! {

#[derive(Debug, PartialEq, Eq, Structural, Clone, Copy)]
pub enum TokenType {
    // Single-character tokens.
    LeftParen,
    RightParen,
    LeftBrace,
    RightBrace,
    Comma,
    Dot,
    Minus,
    Plus,
    Semicolon,
    Slash,
    Star,
    // One or two character tokens.
    Bang,
    BangEqual,
    Equal,
    EqualEqual,
    Greater,
    GreaterEqual,
    Less,
    LessEqual,
    // Literals.
    Identifier,
    String,
    Number,
    // Keywords.
    And,
    Class,
    Else,
    False,
    Fun,
    For,
    If,
    Nil,
    Or,
    Print,
    Return,
    Super,
    This,
    True,
    Var,
    While,
    Break,
    // End of file.
    Eof,
}

/// The position of `t` in the declaration of `TokenType`.
pub open spec fn token_type_number(t: TokenType) -> u8 {
    match t {
        TokenType::LeftParen => 0,
        TokenType::RightParen => 1,
        TokenType::LeftBrace => 2,
        TokenType::RightBrace => 3,
        TokenType::Comma => 4,
        TokenType::Dot => 5,
        TokenType::Minus => 6,
        TokenType::Plus => 7,
        TokenType::Semicolon => 8,
        TokenType::Slash => 9,
        TokenType::Star => 10,
        TokenType::Bang => 11,
        TokenType::BangEqual => 12,
        TokenType::Equal => 13,
        TokenType::EqualEqual => 14,
        TokenType::Greater => 15,
        TokenType::GreaterEqual => 16,
        TokenType::Less => 17,
        TokenType::LessEqual => 18,
        TokenType::Identifier => 19,
        TokenType::String => 20,
        TokenType::Number => 21,
        TokenType::And => 22,
        TokenType::Class => 23,
        TokenType::Else => 24,
        TokenType::False => 25,
        TokenType::Fun => 26,
        TokenType::For => 27,
        TokenType::If => 28,
        TokenType::Nil => 29,
        TokenType::Or => 30,
        TokenType::Print => 31,
        TokenType::Return => 32,
        TokenType::Super => 33,
        TokenType::This => 34,
        TokenType::True => 35,
        TokenType::Var => 36,
        TokenType::While => 37,
        TokenType::Break => 38,
        TokenType::Eof => 39,
    }
}

impl TokenType {
    pub fn to_token<'a>(self, line: u32, lexeme: &'a str) -> (res: Token<'a>)
        ensures
            res.token_type == self,
            res.line == line,
            res.lexeme == lexeme,
    {
        Token { token_type: self, line, lexeme }
    }

    /// A number identifying the token type, for debugging output.
    pub fn to_debug_num(&self) -> (res: u8)
        ensures
            res == token_type_number(*self),
    {
        match self {
            TokenType::LeftParen => 0,
            TokenType::RightParen => 1,
            TokenType::LeftBrace => 2,
            TokenType::RightBrace => 3,
            TokenType::Comma => 4,
            TokenType::Dot => 5,
            TokenType::Minus => 6,
            TokenType::Plus => 7,
            TokenType::Semicolon => 8,
            TokenType::Slash => 9,
            TokenType::Star => 10,
            TokenType::Bang => 11,
            TokenType::BangEqual => 12,
            TokenType::Equal => 13,
            TokenType::EqualEqual => 14,
            TokenType::Greater => 15,
            TokenType::GreaterEqual => 16,
            TokenType::Less => 17,
            TokenType::LessEqual => 18,
            TokenType::Identifier => 19,
            TokenType::String => 20,
            TokenType::Number => 21,
            TokenType::And => 22,
            TokenType::Class => 23,
            TokenType::Else => 24,
            TokenType::False => 25,
            TokenType::Fun => 26,
            TokenType::For => 27,
            TokenType::If => 28,
            TokenType::Nil => 29,
            TokenType::Or => 30,
            TokenType::Print => 31,
            TokenType::Return => 32,
            TokenType::Super => 33,
            TokenType::This => 34,
            TokenType::True => 35,
            TokenType::Var => 36,
            TokenType::While => 37,
            TokenType::Break => 38,
            TokenType::Eof => 39,
        }
    }
}

/// A token: its type, the (1-based) line it ends on, and its text.
#[derive(Debug, PartialEq, Clone, Copy)]
pub struct Token<'a> {
    pub token_type: TokenType,
    pub line: u32,
    pub lexeme: &'a str,
}

impl<'a> Token<'a> {
    pub fn line(&self) -> (res: u32)
        ensures
            res == self.line,
    {
        self.line
    }

    pub fn token_type(&self) -> (res: TokenType)
        ensures
            res == self.token_type,
    {
        self.token_type
    }

    pub fn lexeme(&self) -> (res: &'a str)
        ensures
            res == self.lexeme,
    {
        self.lexeme
    }
}

} // verus!
