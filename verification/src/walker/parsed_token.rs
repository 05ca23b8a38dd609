//! Tokens as the parser keeps them in the syntax tree: each one can only hold
//! what its place in the tree allows (an identifier, a unary operator, ...).

use vstd::prelude::*;

use crate::walker::token::TokenLike;

verus! {

fn string_of(s: &str) -> (res: String)
    ensures
        res@ == s@,
{
    s.to_owned()
}

/// A name, with the line it was written on.
#[derive(Debug, PartialEq, Clone)]
pub struct IdentifierToken {
    pub identifier: String,
    pub line: usize,
}

impl IdentifierToken {
    pub fn new(identifier: String, line: usize) -> (res: Self)
        ensures
            res.identifier == identifier,
            res.line == line,
    {
        Self { identifier, line }
    }

    pub fn pretty_print(&self) -> (res: String)
        ensures
            res@ == self.identifier@,
    {
        self.identifier.clone()
    }

    pub fn identifier(&self) -> (res: &str)
        ensures
            res@ == self.identifier@,
    {
        self.identifier.as_str()
    }
}

impl TokenLike for IdentifierToken {
    open spec fn spec_line(&self) -> usize {
        self.line
    }

    open spec fn spec_display(&self) -> Seq<char> {
        self.identifier@
    }

    fn line(&self) -> (res: usize) {
        self.line
    }

    fn token_display(&self) -> (res: String) {
        self.pretty_print()
    }
}

/// A unary operator. `-` is a unary or a binary operator depending on where it
/// stands.
#[derive(Debug, PartialEq, Eq, Clone, Copy, Structural)]
pub enum UnaryOp {
    Minus,
    Bang,
}

pub open spec fn unary_op_text(op: UnaryOp) -> Seq<char> {
    match op {
        UnaryOp::Minus => "-"@,
        UnaryOp::Bang => "!"@,
    }
}

#[derive(Debug, PartialEq, Clone)]
pub struct UnaryToken {
    pub op: UnaryOp,
    pub line: usize,
}

impl UnaryToken {
    pub fn new(op: UnaryOp, line: usize) -> (res: Self)
        ensures
            res.op == op,
            res.line == line,
    {
        Self { op, line }
    }

    pub fn op(&self) -> (res: &UnaryOp)
        ensures
            *res == self.op,
    {
        &self.op
    }

    pub fn pretty_print(&self) -> (res: String)
        ensures
            res@ == unary_op_text(self.op),
    {
        match self.op {
            UnaryOp::Minus => string_of("-"),
            UnaryOp::Bang => string_of("!"),
        }
    }
}

impl TokenLike for UnaryToken {
    open spec fn spec_line(&self) -> usize {
        self.line
    }

    open spec fn spec_display(&self) -> Seq<char> {
        unary_op_text(self.op)
    }

    fn line(&self) -> (res: usize) {
        self.line
    }

    fn token_display(&self) -> (res: String) {
        self.pretty_print()
    }
}

#[derive(Debug, PartialEq, Eq, Clone, Copy, Structural)]
pub enum BinaryOp {
    Plus,
    Minus,
    Slash,
    Star,
    Greater,
    GreaterEqual,
    Less,
    LessEqual,
    BangEqual,
    EqualEqual,
    Comma,
}

pub open spec fn binary_op_text(op: BinaryOp) -> Seq<char> {
    match op {
        BinaryOp::Plus => "+"@,
        BinaryOp::Minus => "-"@,
        BinaryOp::Slash => "/"@,
        BinaryOp::Star => "*"@,
        BinaryOp::Greater => ">"@,
        BinaryOp::GreaterEqual => ">="@,
        BinaryOp::Less => "<"@,
        BinaryOp::LessEqual => "<="@,
        BinaryOp::BangEqual => "!="@,
        BinaryOp::EqualEqual => "=="@,
        BinaryOp::Comma => ","@,
    }
}

#[derive(Debug, PartialEq, Clone)]
pub struct BinaryToken {
    pub op: BinaryOp,
    pub line: usize,
}

impl BinaryToken {
    pub fn new(op: BinaryOp, line: usize) -> (res: Self)
        ensures
            res.op == op,
            res.line == line,
    {
        Self { op, line }
    }

    pub fn op(&self) -> (res: &BinaryOp)
        ensures
            *res == self.op,
    {
        &self.op
    }

    pub fn pretty_print(&self) -> (res: String)
        ensures
            res@ == binary_op_text(self.op),
    {
        match self.op {
            BinaryOp::Plus => string_of("+"),
            BinaryOp::Minus => string_of("-"),
            BinaryOp::Slash => string_of("/"),
            BinaryOp::Star => string_of("*"),
            BinaryOp::Greater => string_of(">"),
            BinaryOp::GreaterEqual => string_of(">="),
            BinaryOp::Less => string_of("<"),
            BinaryOp::LessEqual => string_of("<="),
            BinaryOp::BangEqual => string_of("!="),
            BinaryOp::EqualEqual => string_of("=="),
            BinaryOp::Comma => string_of(","),
        }
    }
}

impl TokenLike for BinaryToken {
    open spec fn spec_line(&self) -> usize {
        self.line
    }

    open spec fn spec_display(&self) -> Seq<char> {
        binary_op_text(self.op)
    }

    fn line(&self) -> (res: usize) {
        self.line
    }

    fn token_display(&self) -> (res: String) {
        self.pretty_print()
    }
}

#[derive(Debug, PartialEq, Eq, Clone, Copy, Structural)]
pub enum LogicalOp {
    And,
    Or,
}

pub open spec fn logical_op_text(op: LogicalOp) -> Seq<char> {
    match op {
        LogicalOp::And => "and"@,
        LogicalOp::Or => "or"@,
    }
}

#[derive(Debug, PartialEq, Clone)]
pub struct LogicalToken {
    pub op: LogicalOp,
    pub line: usize,
}

impl LogicalToken {
    pub fn new(op: LogicalOp, line: usize) -> (res: Self)
        ensures
            res.op == op,
            res.line == line,
    {
        Self { op, line }
    }

    pub fn op(&self) -> (res: &LogicalOp)
        ensures
            *res == self.op,
    {
        &self.op
    }

    pub fn pretty_print(&self) -> (res: String)
        ensures
            res@ == logical_op_text(self.op),
    {
        match self.op {
            LogicalOp::And => string_of("and"),
            LogicalOp::Or => string_of("or"),
        }
    }
}

impl TokenLike for LogicalToken {
    open spec fn spec_line(&self) -> usize {
        self.line
    }

    open spec fn spec_display(&self) -> Seq<char> {
        logical_op_text(self.op)
    }

    fn line(&self) -> (res: usize) {
        self.line
    }

    fn token_display(&self) -> (res: String) {
        self.pretty_print()
    }
}

/// A token kept only to say where an error happened: a `return` keyword or
/// the parentheses of a call.
#[derive(Debug, PartialEq, Clone)]
pub struct ErrorTrackingToken {
    pub text: &'static str,
    pub line: usize,
}

impl ErrorTrackingToken {
    pub fn new(text: &'static str, line: usize) -> (res: Self)
        ensures
            res.text == text,
            res.line == line,
    {
        Self { text, line }
    }
}

impl TokenLike for ErrorTrackingToken {
    open spec fn spec_line(&self) -> usize {
        self.line
    }

    open spec fn spec_display(&self) -> Seq<char> {
        self.text@
    }

    fn line(&self) -> (res: usize) {
        self.line
    }

    fn token_display(&self) -> (res: String) {
        string_of(self.text)
    }
}

/// A literal in the syntax tree. A number keeps the canonical decimal text the
/// scanner gave it.
#[derive(Debug, PartialEq, Clone)]
pub enum ParsedLiteral {
    Nil,
    True,
    False,
    Number(String),
    String(String),
}

/// How a literal is shown: a string without its quotes.
pub open spec fn literal_text(l: ParsedLiteral) -> Seq<char> {
    match l {
        ParsedLiteral::Nil => "nil"@,
        ParsedLiteral::True => "true"@,
        ParsedLiteral::False => "false"@,
        ParsedLiteral::Number(n) => n@,
        ParsedLiteral::String(s) => s@,
    }
}

impl ParsedLiteral {
    pub fn pretty_print(&self) -> (res: String)
        ensures
            res@ == literal_text(*self),
    {
        match self {
            ParsedLiteral::Nil => string_of("nil"),
            ParsedLiteral::True => string_of("true"),
            ParsedLiteral::False => string_of("false"),
            ParsedLiteral::Number(n) => n.clone(),
            ParsedLiteral::String(s) => s.clone(),
        }
    }
}

} // verus!
