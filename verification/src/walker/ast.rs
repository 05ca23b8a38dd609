//! The syntax tree of the tree-walking interpreter. Each node kind is a struct
//! of its own, held in a box by the `Expr` or `Stmt` enum; `lift` builds the
//! enum value from the fields.

use vstd::prelude::*;

use crate::walker::parsed_token::{
    BinaryToken, ErrorTrackingToken, IdentifierToken, LogicalToken, ParsedLiteral, UnaryToken,
};

verus! {

#[derive(Debug, PartialEq)]
pub enum Expr {
    Assign(Box<Assign>),
    Binary(Box<Binary>),
    Call(Box<Call>),
    Logical(Box<Logical>),
    Grouping(Box<Grouping>),
    LiteralExpr(Box<LiteralExpr>),
    Unary(Box<Unary>),
    Variable(Box<Variable>),
    Get(Box<Get>),
    SetProperty(Box<SetProperty>),
    This(Box<This>),
    Super(Box<Super>),
}

#[derive(Debug, PartialEq)]
pub struct Assign {
    pub name: IdentifierToken,
    pub value: Expr,
}

#[derive(Debug, PartialEq)]
pub struct Binary {
    pub left: Expr,
    pub operator: BinaryToken,
    pub right: Expr,
}

#[derive(Debug, PartialEq)]
pub struct Call {
    pub callee: Expr,
    pub open_paren: ErrorTrackingToken,
    pub arguments: Vec<Expr>,
    pub close_paren: ErrorTrackingToken,
}

#[derive(Debug, PartialEq)]
pub struct Logical {
    pub left: Expr,
    pub operator: LogicalToken,
    pub right: Expr,
}

#[derive(Debug, PartialEq)]
pub struct Grouping {
    pub expression: Expr,
}

#[derive(Debug, PartialEq)]
pub struct LiteralExpr {
    pub value: ParsedLiteral,
}

#[derive(Debug, PartialEq)]
pub struct Unary {
    pub operator: UnaryToken,
    pub expression: Expr,
}

#[derive(Debug, PartialEq)]
pub struct Variable {
    pub name: IdentifierToken,
}

/// Reading a property: `object.name`.
#[derive(Debug, PartialEq)]
pub struct Get {
    pub object: Expr,
    pub name: IdentifierToken,
}

/// Writing a property: `object.name = value`.
#[derive(Debug, PartialEq)]
pub struct SetProperty {
    pub object: Expr,
    pub name: IdentifierToken,
    pub value: Expr,
}

#[derive(Debug, PartialEq)]
pub struct This {
    pub keyword: ErrorTrackingToken,
}

/// `super.method`.
#[derive(Debug, PartialEq)]
pub struct Super {
    pub keyword: ErrorTrackingToken,
    pub method: IdentifierToken,
}

impl Assign {
    pub fn lift(name: IdentifierToken, value: Expr) -> (res: Expr)
        ensures
            res == Expr::Assign(Box::new(Assign { name, value })),
    {
        Expr::Assign(Box::new(Assign { name, value }))
    }
}

impl Binary {
    pub fn lift(left: Expr, operator: BinaryToken, right: Expr) -> (res: Expr)
        ensures
            res == Expr::Binary(Box::new(Binary { left, operator, right })),
    {
        Expr::Binary(Box::new(Binary { left, operator, right }))
    }
}

impl Call {
    pub fn lift(
        callee: Expr,
        open_paren: ErrorTrackingToken,
        arguments: Vec<Expr>,
        close_paren: ErrorTrackingToken,
    ) -> (res: Expr)
        ensures
            res == Expr::Call(Box::new(Call { callee, open_paren, arguments, close_paren })),
    {
        Expr::Call(Box::new(Call { callee, open_paren, arguments, close_paren }))
    }
}

impl Logical {
    pub fn lift(left: Expr, operator: LogicalToken, right: Expr) -> (res: Expr)
        ensures
            res == Expr::Logical(Box::new(Logical { left, operator, right })),
    {
        Expr::Logical(Box::new(Logical { left, operator, right }))
    }
}

impl Grouping {
    pub fn lift(expression: Expr) -> (res: Expr)
        ensures
            res == Expr::Grouping(Box::new(Grouping { expression })),
    {
        Expr::Grouping(Box::new(Grouping { expression }))
    }
}

impl LiteralExpr {
    pub fn lift(value: ParsedLiteral) -> (res: Expr)
        ensures
            res == Expr::LiteralExpr(Box::new(LiteralExpr { value })),
    {
        Expr::LiteralExpr(Box::new(LiteralExpr { value }))
    }
}

impl Unary {
    pub fn lift(operator: UnaryToken, expression: Expr) -> (res: Expr)
        ensures
            res == Expr::Unary(Box::new(Unary { operator, expression })),
    {
        Expr::Unary(Box::new(Unary { operator, expression }))
    }
}

impl Variable {
    pub fn lift(name: IdentifierToken) -> (res: Expr)
        ensures
            res == Expr::Variable(Box::new(Variable { name })),
    {
        Expr::Variable(Box::new(Variable { name }))
    }
}

impl Get {
    pub fn lift(object: Expr, name: IdentifierToken) -> (res: Expr)
        ensures
            res == Expr::Get(Box::new(Get { object, name })),
    {
        Expr::Get(Box::new(Get { object, name }))
    }
}

impl SetProperty {
    pub fn lift(object: Expr, name: IdentifierToken, value: Expr) -> (res: Expr)
        ensures
            res == Expr::SetProperty(Box::new(SetProperty { object, name, value })),
    {
        Expr::SetProperty(Box::new(SetProperty { object, name, value }))
    }
}

impl This {
    pub fn lift(keyword: ErrorTrackingToken) -> (res: Expr)
        ensures
            res == Expr::This(Box::new(This { keyword })),
    {
        Expr::This(Box::new(This { keyword }))
    }
}

impl Super {
    pub fn lift(keyword: ErrorTrackingToken, method: IdentifierToken) -> (res: Expr)
        ensures
            res == Expr::Super(Box::new(Super { keyword, method })),
    {
        Expr::Super(Box::new(Super { keyword, method }))
    }
}

#[derive(Debug, PartialEq)]
pub enum Stmt {
    StmtExpression(Box<StmtExpression>),
    Function(Box<Function>),
    If(Box<If>),
    Print(Box<Print>),
    Return(Box<Return>),
    Var(Box<Var>),
    While(Box<While>),
    Block(Box<Block>),
    Class(Box<Class>),
    Break(Box<Break>),
}

#[derive(Debug, PartialEq)]
pub struct StmtExpression {
    pub expression: Expr,
}

#[derive(Debug, PartialEq)]
pub struct Function {
    pub name: IdentifierToken,
    pub params: Vec<IdentifierToken>,
    pub body: Vec<Stmt>,
}

#[derive(Debug, PartialEq)]
pub struct If {
    pub condition: Expr,
    pub then_branch: Stmt,
    pub else_branch: Option<Stmt>,
}

#[derive(Debug, PartialEq)]
pub struct Print {
    pub expression: Expr,
}

#[derive(Debug, PartialEq)]
pub struct Return {
    pub token: ErrorTrackingToken,
    pub value: Option<Expr>,
}

#[derive(Debug, PartialEq)]
pub struct Var {
    pub name: IdentifierToken,
    pub initializer: Option<Expr>,
}

#[derive(Debug, PartialEq)]
pub struct While {
    pub condition: Expr,
    pub body: Stmt,
}

#[derive(Debug, PartialEq)]
pub struct Block {
    pub statements: Vec<Stmt>,
}

/// A class declaration, with the variable that names its superclass where
/// there is one.
#[derive(Debug, PartialEq)]
pub struct Class {
    pub name: IdentifierToken,
    pub superclass: Option<Variable>,
    pub methods: Vec<Function>,
}

#[derive(Debug, PartialEq)]
pub struct Break {}

impl StmtExpression {
    pub fn lift(expression: Expr) -> (res: Stmt)
        ensures
            res == Stmt::StmtExpression(Box::new(StmtExpression { expression })),
    {
        Stmt::StmtExpression(Box::new(StmtExpression { expression }))
    }
}

impl Function {
    pub fn lift(name: IdentifierToken, params: Vec<IdentifierToken>, body: Vec<Stmt>) -> (res: Stmt)
        ensures
            res == Stmt::Function(Box::new(Function { name, params, body })),
    {
        Stmt::Function(Box::new(Function { name, params, body }))
    }
}

impl If {
    pub fn lift(condition: Expr, then_branch: Stmt, else_branch: Option<Stmt>) -> (res: Stmt)
        ensures
            res == Stmt::If(Box::new(If { condition, then_branch, else_branch })),
    {
        Stmt::If(Box::new(If { condition, then_branch, else_branch }))
    }
}

impl Print {
    pub fn lift(expression: Expr) -> (res: Stmt)
        ensures
            res == Stmt::Print(Box::new(Print { expression })),
    {
        Stmt::Print(Box::new(Print { expression }))
    }
}

impl Return {
    pub fn lift(token: ErrorTrackingToken, value: Option<Expr>) -> (res: Stmt)
        ensures
            res == Stmt::Return(Box::new(Return { token, value })),
    {
        Stmt::Return(Box::new(Return { token, value }))
    }
}

impl Var {
    pub fn lift(name: IdentifierToken, initializer: Option<Expr>) -> (res: Stmt)
        ensures
            res == Stmt::Var(Box::new(Var { name, initializer })),
    {
        Stmt::Var(Box::new(Var { name, initializer }))
    }
}

impl While {
    pub fn lift(condition: Expr, body: Stmt) -> (res: Stmt)
        ensures
            res == Stmt::While(Box::new(While { condition, body })),
    {
        Stmt::While(Box::new(While { condition, body }))
    }
}

impl Block {
    pub fn lift(statements: Vec<Stmt>) -> (res: Stmt)
        ensures
            res == Stmt::Block(Box::new(Block { statements })),
    {
        Stmt::Block(Box::new(Block { statements }))
    }
}

impl Class {
    pub fn lift(name: IdentifierToken, superclass: Option<Variable>, methods: Vec<Function>) -> (res: Stmt)
        ensures
            res == Stmt::Class(Box::new(Class { name, superclass, methods })),
    {
        Stmt::Class(Box::new(Class { name, superclass, methods }))
    }
}

impl Break {
    pub fn lift() -> (res: Stmt)
        ensures
            res == Stmt::Break(Box::new(Break {})),
    {
        Stmt::Break(Box::new(Break {}))
    }
}

} // verus!
