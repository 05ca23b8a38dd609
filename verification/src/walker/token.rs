//! Tokens of the tree-walking interpreter: literal tokens carry their
//! contents.

use vstd::prelude::*;

use crate::scanner::token::TokenType as TokenKind;

verus! {

/// A token. A number carries its decimal text in canonical form (see
/// `canonical_number`); its value is the binary64 number nearest to it.
#[derive(Debug, PartialEq, Clone)]
pub enum TokenType {
    // Single-character tokens.
    LeftParen,
    RightParen,
    LeftBrace,
    RightBrace,
    Comma,
    Dot,
    Minus,
    Plus,
    Semicolon,
    Slash,
    Star,
    // One or two character tokens.
    Bang,
    BangEqual,
    Equal,
    EqualEqual,
    Greater,
    GreaterEqual,
    Less,
    LessEqual,
    // Literals.
    Identifier(String),
    String(String),
    Number(String),
    // Keywords.
    And,
    Class,
    Else,
    False,
    Fun,
    For,
    If,
    Nil,
    Or,
    Print,
    Return,
    Super,
    This,
    True,
    Var,
    While,
    Break,
    // End of file.
    Eof,
}

/// A token type without its contents, as a value of the bytecode scanner's
/// token kinds (which list the same kinds in the same order).
pub open spec fn kind(t: TokenType) -> TokenKind {
    match t {
        TokenType::LeftParen => TokenKind::LeftParen,
        TokenType::RightParen => TokenKind::RightParen,
        TokenType::LeftBrace => TokenKind::LeftBrace,
        TokenType::RightBrace => TokenKind::RightBrace,
        TokenType::Comma => TokenKind::Comma,
        TokenType::Dot => TokenKind::Dot,
        TokenType::Minus => TokenKind::Minus,
        TokenType::Plus => TokenKind::Plus,
        TokenType::Semicolon => TokenKind::Semicolon,
        TokenType::Slash => TokenKind::Slash,
        TokenType::Star => TokenKind::Star,
        TokenType::Bang => TokenKind::Bang,
        TokenType::BangEqual => TokenKind::BangEqual,
        TokenType::Equal => TokenKind::Equal,
        TokenType::EqualEqual => TokenKind::EqualEqual,
        TokenType::Greater => TokenKind::Greater,
        TokenType::GreaterEqual => TokenKind::GreaterEqual,
        TokenType::Less => TokenKind::Less,
        TokenType::LessEqual => TokenKind::LessEqual,
        TokenType::Identifier(_) => TokenKind::Identifier,
        TokenType::String(_) => TokenKind::String,
        TokenType::Number(_) => TokenKind::Number,
        TokenType::And => TokenKind::And,
        TokenType::Class => TokenKind::Class,
        TokenType::Else => TokenKind::Else,
        TokenType::False => TokenKind::False,
        TokenType::Fun => TokenKind::Fun,
        TokenType::For => TokenKind::For,
        TokenType::If => TokenKind::If,
        TokenType::Nil => TokenKind::Nil,
        TokenType::Or => TokenKind::Or,
        TokenType::Print => TokenKind::Print,
        TokenType::Return => TokenKind::Return,
        TokenType::Super => TokenKind::Super,
        TokenType::This => TokenKind::This,
        TokenType::True => TokenKind::True,
        TokenType::Var => TokenKind::Var,
        TokenType::While => TokenKind::While,
        TokenType::Break => TokenKind::Break,
        TokenType::Eof => TokenKind::Eof,
    }
}

/// The contents a literal token carries (empty for other tokens).
pub open spec fn text(t: TokenType) -> Seq<char> {
    match t {
        TokenType::Identifier(s) => s@,
        TokenType::String(s) => s@,
        TokenType::Number(s) => s@,
        _ => Seq::empty(),
    }
}

/// How a token is written back as source text.
pub open spec fn token_display(t: TokenType) -> Seq<char> {
    match t {
        TokenType::LeftParen => "("@,
        TokenType::RightParen => ")"@,
        TokenType::LeftBrace => "{"@,
        TokenType::RightBrace => "}"@,
        TokenType::Comma => ","@,
        TokenType::Dot => "."@,
        TokenType::Minus => "-"@,
        TokenType::Plus => "+"@,
        TokenType::Semicolon => ";"@,
        TokenType::Slash => "/"@,
        TokenType::Star => "*"@,
        TokenType::Bang => "!"@,
        TokenType::BangEqual => "!="@,
        TokenType::Equal => "="@,
        TokenType::EqualEqual => "=="@,
        TokenType::Greater => ">"@,
        TokenType::GreaterEqual => ">="@,
        TokenType::Less => "<"@,
        TokenType::LessEqual => "<="@,
        TokenType::Identifier(s) => s@,
        TokenType::String(s) => "\""@ + s@ + "\""@,
        TokenType::Number(s) => s@,
        TokenType::And => "and"@,
        TokenType::Class => "class "@,
        TokenType::Else => "else"@,
        TokenType::False => "false"@,
        TokenType::Fun => "fun"@,
        TokenType::For => "for"@,
        TokenType::If => "if"@,
        TokenType::Nil => "nil"@,
        TokenType::Or => "or"@,
        TokenType::Print => "print"@,
        TokenType::Return => "return"@,
        TokenType::Super => "super"@,
        TokenType::This => "this"@,
        TokenType::True => "true"@,
        TokenType::Var => "var"@,
        TokenType::While => "while"@,
        TokenType::Break => "break"@,
        TokenType::Eof => "<EOF>"@,
    }
}

fn string_of(s: &str) -> (res: String)
    ensures
        res@ == s@,
{
    s.to_owned()
}

impl TokenType {
    /// The token written back as source text.
    pub fn pretty_print(&self) -> (res: String)
        ensures
            res@ == token_display(*self),
    {
        match self {
            TokenType::LeftParen => string_of("("),
            TokenType::RightParen => string_of(")"),
            TokenType::LeftBrace => string_of("{"),
            TokenType::RightBrace => string_of("}"),
            TokenType::Comma => string_of(","),
            TokenType::Dot => string_of("."),
            TokenType::Minus => string_of("-"),
            TokenType::Plus => string_of("+"),
            TokenType::Semicolon => string_of(";"),
            TokenType::Slash => string_of("/"),
            TokenType::Star => string_of("*"),
            TokenType::Bang => string_of("!"),
            TokenType::BangEqual => string_of("!="),
            TokenType::Equal => string_of("="),
            TokenType::EqualEqual => string_of("=="),
            TokenType::Greater => string_of(">"),
            TokenType::GreaterEqual => string_of(">="),
            TokenType::Less => string_of("<"),
            TokenType::LessEqual => string_of("<="),
            TokenType::Identifier(s) => s.clone(),
            TokenType::String(s) => {
                let mut out = string_of("\"");
                out.append(s.as_str());
                out.append("\"");
                out
            },
            TokenType::Number(s) => s.clone(),
            TokenType::And => string_of("and"),
            TokenType::Class => string_of("class "),
            TokenType::Else => string_of("else"),
            TokenType::False => string_of("false"),
            TokenType::Fun => string_of("fun"),
            TokenType::For => string_of("for"),
            TokenType::If => string_of("if"),
            TokenType::Nil => string_of("nil"),
            TokenType::Or => string_of("or"),
            TokenType::Print => string_of("print"),
            TokenType::Return => string_of("return"),
            TokenType::Super => string_of("super"),
            TokenType::This => string_of("this"),
            TokenType::True => string_of("true"),
            TokenType::Var => string_of("var"),
            TokenType::While => string_of("while"),
            TokenType::Break => string_of("break"),
            TokenType::Eof => string_of("<EOF>"),
        }
    }

    /// Whether two token types are of the same kind, whatever they carry.
    pub fn same_kind(&self, other: &TokenType) -> (res: bool)
        ensures
            res == (kind(*self) == kind(*other)),
    {
        self.kind_of() == other.kind_of()
    }

    /// The kind of this token type.
    pub fn kind_of(&self) -> (res: TokenKind)
        ensures
            res == kind(*self),
    {
        match self {
            TokenType::LeftParen => TokenKind::LeftParen,
            TokenType::RightParen => TokenKind::RightParen,
            TokenType::LeftBrace => TokenKind::LeftBrace,
            TokenType::RightBrace => TokenKind::RightBrace,
            TokenType::Comma => TokenKind::Comma,
            TokenType::Dot => TokenKind::Dot,
            TokenType::Minus => TokenKind::Minus,
            TokenType::Plus => TokenKind::Plus,
            TokenType::Semicolon => TokenKind::Semicolon,
            TokenType::Slash => TokenKind::Slash,
            TokenType::Star => TokenKind::Star,
            TokenType::Bang => TokenKind::Bang,
            TokenType::BangEqual => TokenKind::BangEqual,
            TokenType::Equal => TokenKind::Equal,
            TokenType::EqualEqual => TokenKind::EqualEqual,
            TokenType::Greater => TokenKind::Greater,
            TokenType::GreaterEqual => TokenKind::GreaterEqual,
            TokenType::Less => TokenKind::Less,
            TokenType::LessEqual => TokenKind::LessEqual,
            TokenType::Identifier(_) => TokenKind::Identifier,
            TokenType::String(_) => TokenKind::String,
            TokenType::Number(_) => TokenKind::Number,
            TokenType::And => TokenKind::And,
            TokenType::Class => TokenKind::Class,
            TokenType::Else => TokenKind::Else,
            TokenType::False => TokenKind::False,
            TokenType::Fun => TokenKind::Fun,
            TokenType::For => TokenKind::For,
            TokenType::If => TokenKind::If,
            TokenType::Nil => TokenKind::Nil,
            TokenType::Or => TokenKind::Or,
            TokenType::Print => TokenKind::Print,
            TokenType::Return => TokenKind::Return,
            TokenType::Super => TokenKind::Super,
            TokenType::This => TokenKind::This,
            TokenType::True => TokenKind::True,
            TokenType::Var => TokenKind::Var,
            TokenType::While => TokenKind::While,
            TokenType::Break => TokenKind::Break,
            TokenType::Eof => TokenKind::Eof,
        }
    }
}

/// Something that stands at a place in the source and can be shown in an
/// error message.
pub trait TokenLike {
    spec fn spec_line(&self) -> usize;

    spec fn spec_display(&self) -> Seq<char>;

    fn line(&self) -> (res: usize)
        ensures
            res == self.spec_line(),
    ;

    fn token_display(&self) -> (res: String)
        ensures
            res@ == self.spec_display(),
    ;
}

#[derive(Debug, PartialEq, Clone)]
pub struct Token {
    pub token_type: TokenType,
    pub line: usize,
}

impl TokenLike for Token {
    open spec fn spec_line(&self) -> usize {
        self.line
    }

    open spec fn spec_display(&self) -> Seq<char> {
        token_display(self.token_type)
    }

    fn line(&self) -> (res: usize) {
        self.line
    }

    fn token_display(&self) -> (res: String) {
        self.token_type.pretty_print()
    }
}

} // verus!
