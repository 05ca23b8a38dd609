//! The grammar of the tree-walking interpreter, as the mathematical
//! definition of what the parser builds from a token sequence.
//!
//! ```text
//! program        → declaration* EOF ;
//! declaration    → classDecl | funDecl | varDecl | statement ;
//! classDecl      → "class" IDENTIFIER ( "<" IDENTIFIER )? "{" function* "}" ;
//! funDecl        → "fun" function ;
//! function       → IDENTIFIER "(" parameters? ")" block ;
//! varDecl        → "var" IDENTIFIER ( "=" expression )? ";" ;
//! statement      → exprStmt | forStmt | ifStmt | printStmt | returnStmt
//!                | whileStmt | breakStmt | block ;
//! forStmt        → "for" "(" ( varDecl | exprStmt | ";" ) expression? ";"
//!                  expression? ")" statement ;
//! block          → "{" declaration* "}" ;
//! expression     → assignment ;
//! assignment     → ( call "." )? IDENTIFIER "=" assignment | logic_or ;
//! logic_or       → logic_and ( "or" logic_and )* ;
//! logic_and      → equality ( "and" equality )* ;
//! equality       → comparison ( ( "!=" | "==" ) comparison )* ;
//! comparison     → term ( ( ">" | ">=" | "<" | "<=" ) term )* ;
//! term           → factor ( ( "-" | "+" ) factor )* ;
//! factor         → unary ( ( "/" | "*" ) unary )* ;
//! unary          → ( "!" | "-" ) unary | call ;
//! call           → primary ( "(" arguments? ")" | "." IDENTIFIER )* ;
//! primary        → NUMBER | STRING | "true" | "false" | "nil" | "this"
//!                | "super" "." IDENTIFIER | IDENTIFIER | "(" expression ")" ;
//! ```
//!
//! A binary operator where an operand should start is reported; its right
//! operand is parsed and dropped, and parsing starts over at `expression`.
//! Each rule returns its tree, or nothing after an error, together with the
//! parser's state: the position, the loop and function nesting, and the
//! errors reported so far.

use vstd::prelude::*;

use crate::scanner::token::TokenType as TokenKind;
use crate::walker::ast::{Expr, Function, Stmt};
use crate::walker::parsed_token::{
    binary_op_text, unary_op_text, BinaryOp, BinaryToken, ErrorTrackingToken, IdentifierToken, LogicalOp, LogicalToken,
    ParsedLiteral, UnaryOp, UnaryToken,
};
use crate::walker::token::{kind, token_display, Token, TokenType};

verus! {

// ---------------------------------------------------------------------------
// Syntax trees as values: `Vec`s become sequences.

pub enum SExpr {
    Assign(IdentifierToken, Box<SExpr>),
    Binary(Box<SExpr>, BinaryToken, Box<SExpr>),
    Call(Box<SExpr>, ErrorTrackingToken, Seq<SExpr>, ErrorTrackingToken),
    Logical(Box<SExpr>, LogicalToken, Box<SExpr>),
    Grouping(Box<SExpr>),
    Literal(ParsedLiteral),
    Unary(UnaryToken, Box<SExpr>),
    Variable(IdentifierToken),
    Get(Box<SExpr>, IdentifierToken),
    SetProperty(Box<SExpr>, IdentifierToken, Box<SExpr>),
    This(ErrorTrackingToken),
    Super(ErrorTrackingToken, IdentifierToken),
}

pub struct SFunction {
    pub name: IdentifierToken,
    pub params: Seq<IdentifierToken>,
    pub body: Seq<SStmt>,
}

pub enum SStmt {
    Expression(SExpr),
    Function(SFunction),
    If(SExpr, Box<SStmt>, Option<Box<SStmt>>),
    Print(SExpr),
    Return(ErrorTrackingToken, Option<SExpr>),
    Var(IdentifierToken, Option<SExpr>),
    While(SExpr, Box<SStmt>),
    Block(Seq<SStmt>),
    Class(IdentifierToken, Option<IdentifierToken>, Seq<SFunction>),
    Break,
}

pub open spec fn expr_view(e: Expr) -> SExpr
    decreases e, 0nat,
{
    match e {
        Expr::Assign(a) => SExpr::Assign(a.name, Box::new(expr_view(a.value))),
        Expr::Binary(b) => SExpr::Binary(Box::new(expr_view(b.left)), b.operator, Box::new(expr_view(b.right))),
        Expr::Call(c) => SExpr::Call(Box::new(expr_view(c.callee)), c.open_paren, exprs_view(c.arguments@), c.close_paren),
        Expr::Logical(l) => SExpr::Logical(Box::new(expr_view(l.left)), l.operator, Box::new(expr_view(l.right))),
        Expr::Grouping(g) => SExpr::Grouping(Box::new(expr_view(g.expression))),
        Expr::LiteralExpr(l) => SExpr::Literal(l.value),
        Expr::Unary(u) => SExpr::Unary(u.operator, Box::new(expr_view(u.expression))),
        Expr::Variable(v) => SExpr::Variable(v.name),
        Expr::Get(g) => SExpr::Get(Box::new(expr_view(g.object)), g.name),
        Expr::SetProperty(s) => SExpr::SetProperty(Box::new(expr_view(s.object)), s.name, Box::new(expr_view(s.value))),
        Expr::This(t) => SExpr::This(t.keyword),
        Expr::Super(s) => SExpr::Super(s.keyword, s.method),
    }
}

pub open spec fn exprs_view(s: Seq<Expr>) -> Seq<SExpr>
    decreases s, 1nat,
{
    if s.len() == 0 {
        Seq::empty()
    } else {
        exprs_view(s.subrange(0, s.len() - 1)).push(expr_view(s[s.len() - 1]))
    }
}

pub open spec fn opt_expr_view(e: Option<Expr>) -> Option<SExpr> {
    match e {
        Some(x) => Some(expr_view(x)),
        None => None,
    }
}

pub open spec fn stmt_view(s: Stmt) -> SStmt
    decreases s, 0nat,
{
    match s {
        Stmt::StmtExpression(e) => SStmt::Expression(expr_view(e.expression)),
        Stmt::Function(f) => SStmt::Function(SFunction { name: f.name, params: f.params@, body: stmts_view(f.body@) }),
        Stmt::If(i) => SStmt::If(
            expr_view(i.condition),
            Box::new(stmt_view(i.then_branch)),
            match i.else_branch {
                Some(e) => Some(Box::new(stmt_view(e))),
                None => None,
            },
        ),
        Stmt::Print(p) => SStmt::Print(expr_view(p.expression)),
        Stmt::Return(r) => SStmt::Return(r.token, opt_expr_view(r.value)),
        Stmt::Var(v) => SStmt::Var(v.name, opt_expr_view(v.initializer)),
        Stmt::While(w) => SStmt::While(expr_view(w.condition), Box::new(stmt_view(w.body))),
        Stmt::Block(b) => SStmt::Block(stmts_view(b.statements@)),
        Stmt::Class(c) => SStmt::Class(
            c.name,
            match c.superclass {
                Some(v) => Some(v.name),
                None => None,
            },
            functions_view(c.methods@),
        ),
        Stmt::Break(_) => SStmt::Break,
    }
}

pub open spec fn stmts_view(s: Seq<Stmt>) -> Seq<SStmt>
    decreases s, 1nat,
{
    if s.len() == 0 {
        Seq::empty()
    } else {
        stmts_view(s.subrange(0, s.len() - 1)).push(stmt_view(s[s.len() - 1]))
    }
}

pub open spec fn function_view(f: Function) -> SFunction
    decreases f, 1nat,
{
    SFunction { name: f.name, params: f.params@, body: stmts_view(f.body@) }
}

pub open spec fn functions_view(s: Seq<Function>) -> Seq<SFunction>
    decreases s, 2nat,
{
    if s.len() == 0 {
        Seq::empty()
    } else {
        functions_view(s.subrange(0, s.len() - 1)).push(function_view(s[s.len() - 1]))
    }
}

// ---------------------------------------------------------------------------
// The parser's state, and looking at tokens.

/// A reported error: the line, the token as written, and the message.
pub type Report = (usize, Seq<char>, Seq<char>);

pub struct PState {
    pub pos: int,
    pub loop_level: int,
    pub function_level: int,
    pub errors: Seq<Report>,
}

/// A token sequence the parser can work on: it ends with `Eof`.
pub open spec fn tokens_wf(toks: Seq<Token>) -> bool {
    toks.len() > 0 && kind(toks[toks.len() - 1].token_type) == TokenKind::Eof
}

pub open spec fn tkind(toks: Seq<Token>, i: int) -> TokenKind {
    kind(toks[i].token_type)
}

pub open spec fn at_end(toks: Seq<Token>, st: PState) -> bool {
    tkind(toks, st.pos) == TokenKind::Eof
}

pub open spec fn check(toks: Seq<Token>, st: PState, k: TokenKind) -> bool {
    !at_end(toks, st) && tkind(toks, st.pos) == k
}

pub open spec fn with_pos(st: PState, pos: int) -> PState {
    PState { pos, loop_level: st.loop_level, function_level: st.function_level, errors: st.errors }
}

/// Moves past the current token, unless it is the last.
pub open spec fn adv(toks: Seq<Token>, st: PState) -> PState {
    if !at_end(toks, st) && 0 <= st.pos && st.pos + 1 < toks.len() {
        with_pos(st, st.pos + 1)
    } else {
        st
    }
}

/// Reports `message` at the token at `i`.
pub open spec fn report(toks: Seq<Token>, st: PState, i: int, message: Seq<char>) -> PState {
    PState {
        pos: st.pos,
        loop_level: st.loop_level,
        function_level: st.function_level,
        errors: st.errors.push((toks[i].line, token_display(toks[i].token_type), message)),
    }
}

/// A later state that stands on a token.
pub open spec fn steady(toks: Seq<Token>, a: PState, b: PState) -> bool {
    0 <= a.pos <= b.pos < toks.len()
}

/// `consume`: the token of kind `k` is passed, or `message` is reported at
/// the current token.
pub open spec fn consume(toks: Seq<Token>, st: PState, k: TokenKind, message: Seq<char>) -> (bool, PState) {
    if check(toks, st, k) {
        (true, adv(toks, st))
    } else {
        (false, report(toks, st, st.pos, message))
    }
}

/// The identifier token of an identifier at `i`.
pub open spec fn ident_at(toks: Seq<Token>, i: int) -> IdentifierToken {
    IdentifierToken { identifier: toks[i].token_type->Identifier_0, line: toks[i].line }
}

pub open spec fn consume_identifier(toks: Seq<Token>, st: PState, message: Seq<char>) -> (Option<IdentifierToken>, PState) {
    if check(toks, st, TokenKind::Identifier) {
        (Some(ident_at(toks, st.pos)), adv(toks, st))
    } else {
        (None, report(toks, st, st.pos, message))
    }
}

// ---------------------------------------------------------------------------
// Expressions.

pub open spec fn binary_op_of(k: TokenKind) -> BinaryOp {
    match k {
        TokenKind::Comma => BinaryOp::Comma,
        TokenKind::Minus => BinaryOp::Minus,
        TokenKind::Plus => BinaryOp::Plus,
        TokenKind::Slash => BinaryOp::Slash,
        TokenKind::Star => BinaryOp::Star,
        TokenKind::BangEqual => BinaryOp::BangEqual,
        TokenKind::EqualEqual => BinaryOp::EqualEqual,
        TokenKind::Greater => BinaryOp::Greater,
        TokenKind::GreaterEqual => BinaryOp::GreaterEqual,
        TokenKind::Less => BinaryOp::Less,
        _ => BinaryOp::LessEqual,
    }
}

/// The operators of a binary level: 1 equality, 2 comparison, 3 term,
/// 4 factor.
pub open spec fn level_has(level: nat, k: TokenKind) -> bool {
    if level == 1 {
        k == TokenKind::BangEqual || k == TokenKind::EqualEqual
    } else if level == 2 {
        k == TokenKind::Greater || k == TokenKind::GreaterEqual || k == TokenKind::Less || k
            == TokenKind::LessEqual
    } else if level == 3 {
        k == TokenKind::Minus || k == TokenKind::Plus
    } else {
        k == TokenKind::Slash || k == TokenKind::Star
    }
}

pub open spec fn level_rank(level: nat) -> nat {
    if 1 <= level <= 4 {
        (26 - 2 * level) as nat
    } else {
        18
    }
}

pub open spec fn expression(toks: Seq<Token>, st: PState) -> (Option<SExpr>, PState)
    decreases toks.len() - st.pos, 34nat,
{
    assignment(toks, st)
}

pub open spec fn assignment(toks: Seq<Token>, st: PState) -> (Option<SExpr>, PState)
    decreases toks.len() - st.pos, 33nat,
{
    let (e, st1) = logical_or(toks, st);
    match e {
        None => (None, st1),
        Some(expr) => if check(toks, st1, TokenKind::Equal) && steady(toks, st, st1) && st1.pos + 1 < toks.len() {
            let eq = st1.pos;
            let st2 = adv(toks, st1);
            let (v, st3) = assignment(toks, st2);
            match v {
                None => (None, st3),
                Some(value) => match expr {
                    SExpr::Variable(name) => (Some(SExpr::Assign(name, Box::new(value))), st3),
                    SExpr::Get(object, name) => (Some(SExpr::SetProperty(object, name, Box::new(value))), st3),
                    _ => (Some(expr), report(toks, st3, eq, "Invalid assignment target."@)),
                },
            }
        } else {
            (Some(expr), st1)
        },
    }
}

pub open spec fn logical_or(toks: Seq<Token>, st: PState) -> (Option<SExpr>, PState)
    decreases toks.len() - st.pos, 32nat,
{
    let (e, st1) = logical_and(toks, st);
    match e {
        None => (None, st1),
        Some(left) => if steady(toks, st, st1) {
            or_loop(toks, st1, left)
        } else {
            (Some(left), st1)
        },
    }
}

pub open spec fn or_loop(toks: Seq<Token>, st: PState, left: SExpr) -> (Option<SExpr>, PState)
    decreases toks.len() - st.pos, 31nat,
{
    if check(toks, st, TokenKind::Or) && 0 <= st.pos && st.pos + 1 < toks.len() {
        let line = toks[st.pos].line;
        let st1 = adv(toks, st);
        let (r, st2) = logical_and(toks, st1);
        match r {
            None => (None, st2),
            Some(right) => {
                let e = SExpr::Logical(Box::new(left), LogicalToken { op: LogicalOp::Or, line }, Box::new(right));
                if steady(toks, st1, st2) && st1.pos > st.pos {
                    or_loop(toks, st2, e)
                } else {
                    (Some(e), st2)
                }
            },
        }
    } else {
        (Some(left), st)
    }
}

pub open spec fn logical_and(toks: Seq<Token>, st: PState) -> (Option<SExpr>, PState)
    decreases toks.len() - st.pos, 30nat,
{
    let (e, st1) = binary_level(toks, st, 1);
    match e {
        None => (None, st1),
        Some(left) => if steady(toks, st, st1) {
            and_loop(toks, st1, left)
        } else {
            (Some(left), st1)
        },
    }
}

pub open spec fn and_loop(toks: Seq<Token>, st: PState, left: SExpr) -> (Option<SExpr>, PState)
    decreases toks.len() - st.pos, 29nat,
{
    if check(toks, st, TokenKind::And) && 0 <= st.pos && st.pos + 1 < toks.len() {
        let line = toks[st.pos].line;
        let st1 = adv(toks, st);
        let (r, st2) = binary_level(toks, st1, 1);
        match r {
            None => (None, st2),
            Some(right) => {
                let e = SExpr::Logical(Box::new(left), LogicalToken { op: LogicalOp::And, line }, Box::new(right));
                if steady(toks, st1, st2) && st1.pos > st.pos {
                    and_loop(toks, st2, e)
                } else {
                    (Some(e), st2)
                }
            },
        }
    } else {
        (Some(left), st)
    }
}

/// The operand of a binary level: the next level, or `unary` under factor.
pub open spec fn operand(toks: Seq<Token>, st: PState, level: nat) -> (Option<SExpr>, PState)
    decreases toks.len() - st.pos, level_rank(level) + 1,
{
    if 1 <= level < 4 {
        binary_level(toks, st, level + 1)
    } else {
        unary(toks, st)
    }
}

pub open spec fn binary_level(toks: Seq<Token>, st: PState, level: nat) -> (Option<SExpr>, PState)
    decreases toks.len() - st.pos, level_rank(level) + 2,
{
    if 1 <= level <= 4 {
        let (e, st1) = operand(toks, st, level);
        match e {
            None => (None, st1),
            Some(left) => if steady(toks, st, st1) {
                binary_loop(toks, st1, left, level)
            } else {
                (Some(left), st1)
            },
        }
    } else {
        (None, st)
    }
}

pub open spec fn binary_loop(toks: Seq<Token>, st: PState, left: SExpr, level: nat) -> (Option<SExpr>, PState)
    decreases toks.len() - st.pos, level_rank(level),
{
    if 1 <= level <= 4 && !at_end(toks, st) && level_has(level, tkind(toks, st.pos)) && 0 <= st.pos
        && st.pos + 1 < toks.len() {
        let operator = BinaryToken { op: binary_op_of(tkind(toks, st.pos)), line: toks[st.pos].line };
        let st1 = adv(toks, st);
        let (r, st2) = operand(toks, st1, level);
        match r {
            None => (None, st2),
            Some(right) => {
                let e = SExpr::Binary(Box::new(left), operator, Box::new(right));
                if steady(toks, st1, st2) && st1.pos > st.pos {
                    binary_loop(toks, st2, e, level)
                } else {
                    (Some(e), st2)
                }
            },
        }
    } else {
        (Some(left), st)
    }
}

pub open spec fn unary(toks: Seq<Token>, st: PState) -> (Option<SExpr>, PState)
    decreases toks.len() - st.pos, 16nat,
{
    if (check(toks, st, TokenKind::Bang) || check(toks, st, TokenKind::Minus)) && 0 <= st.pos
        && st.pos + 1 < toks.len() {
        let op = if tkind(toks, st.pos) == TokenKind::Bang {
            UnaryOp::Bang
        } else {
            UnaryOp::Minus
        };
        let operator = UnaryToken { op, line: toks[st.pos].line };
        let (e, st1) = unary(toks, adv(toks, st));
        match e {
            None => (None, st1),
            Some(expression) => (Some(SExpr::Unary(operator, Box::new(expression))), st1),
        }
    } else {
        call(toks, st)
    }
}

pub open spec fn call(toks: Seq<Token>, st: PState) -> (Option<SExpr>, PState)
    decreases toks.len() - st.pos, 15nat,
{
    let (e, st1) = primary(toks, st);
    match e {
        None => (None, st1),
        Some(expr) => if steady(toks, st, st1) {
            call_loop(toks, st1, expr)
        } else {
            (Some(expr), st1)
        },
    }
}

pub open spec fn call_loop(toks: Seq<Token>, st: PState, expr: SExpr) -> (Option<SExpr>, PState)
    decreases toks.len() - st.pos, 14nat,
{
    if check(toks, st, TokenKind::LeftParen) && 0 <= st.pos && st.pos + 1 < toks.len() {
        let st1 = adv(toks, st);
        let (e, st2) = finish_call(toks, st1, expr, toks[st.pos].line);
        match e {
            None => (None, st2),
            Some(c) => if steady(toks, st1, st2) {
                call_loop(toks, st2, c)
            } else {
                (Some(c), st2)
            },
        }
    } else if check(toks, st, TokenKind::Dot) && 0 <= st.pos && st.pos + 1 < toks.len() {
        let st1 = adv(toks, st);
        let (name, st2) = consume_identifier(toks, st1, "Expect property name after '.'."@);
        match name {
            None => (None, st2),
            Some(n) => if steady(toks, st1, st2) {
                call_loop(toks, st2, SExpr::Get(Box::new(expr), n))
            } else {
                (None, st2)
            },
        }
    } else {
        (Some(expr), st)
    }
}

pub open spec fn finish_call(toks: Seq<Token>, st: PState, callee: SExpr, open_line: usize) -> (Option<SExpr>, PState)
    decreases toks.len() - st.pos, 42nat,
{
    let (args, st1) = if !check(toks, st, TokenKind::RightParen) {
        arguments(toks, st, Seq::empty())
    } else {
        (Some(Seq::<SExpr>::empty()), st)
    };
    match args {
        None => (None, st1),
        Some(a) => {
            let close = st1.pos;
            let (ok, st2) = consume(toks, st1, TokenKind::RightParen, "Expected ')' after arguments"@);
            if ok {
                (
                    Some(SExpr::Call(
                        Box::new(callee),
                        ErrorTrackingToken { text: "(", line: open_line },
                        a,
                        ErrorTrackingToken { text: ")", line: toks[close].line },
                    )),
                    st2,
                )
            } else {
                (None, st2)
            }
        },
    }
}

/// The arguments of a call, after those in `done`.
pub open spec fn arguments(toks: Seq<Token>, st: PState, done: Seq<SExpr>) -> (Option<Seq<SExpr>>, PState)
    decreases toks.len() - st.pos, 41nat,
{
    let st0 = if done.len() >= 255 {
        report(toks, st, st.pos, "Can't have more than 255 arguments."@)
    } else {
        st
    };
    let (e, st1) = expression(toks, st0);
    match e {
        None => (None, st1),
        Some(arg) => {
            let done2 = done.push(arg);
            if check(toks, st1, TokenKind::Comma) && steady(toks, st, st1) && st1.pos + 1 < toks.len() {
                arguments(toks, adv(toks, st1), done2)
            } else {
                (Some(done2), st1)
            }
        },
    }
}

/// The level whose operand follows a binary operator found where an operand
/// should start: 0 stands for `unary`.
pub open spec fn missing_lhs_level(k: TokenKind) -> Option<nat> {
    if k == TokenKind::Comma {
        Some(1)
    } else if k == TokenKind::EqualEqual || k == TokenKind::BangEqual {
        Some(2)
    } else if k == TokenKind::Greater || k == TokenKind::GreaterEqual || k == TokenKind::Less || k
        == TokenKind::LessEqual {
        Some(3)
    } else if k == TokenKind::Plus {
        Some(4)
    } else if k == TokenKind::Slash || k == TokenKind::Star {
        Some(0)
    } else {
        None
    }
}

pub open spec fn literal_of(t: TokenType) -> ParsedLiteral {
    match t {
        TokenType::String(s) => ParsedLiteral::String(s),
        TokenType::Number(n) => ParsedLiteral::Number(n),
        TokenType::True => ParsedLiteral::True,
        TokenType::False => ParsedLiteral::False,
        _ => ParsedLiteral::Nil,
    }
}

pub open spec fn primary(toks: Seq<Token>, st: PState) -> (Option<SExpr>, PState)
    decreases toks.len() - st.pos, 13nat,
{
    if at_end(toks, st) || st.pos < 0 || st.pos + 1 >= toks.len() {
        (None, report(toks, st, st.pos, "Expected expression."@))
    } else {
        let k = tkind(toks, st.pos);
        let t = toks[st.pos];
        let st1 = adv(toks, st);
        if k == TokenKind::False || k == TokenKind::True || k == TokenKind::Nil || k == TokenKind::Number
            || k == TokenKind::String {
            (Some(SExpr::Literal(literal_of(t.token_type))), st1)
        } else if k == TokenKind::This {
            (Some(SExpr::This(ErrorTrackingToken { text: "this", line: t.line })), st1)
        } else if k == TokenKind::Super {
            let keyword = ErrorTrackingToken { text: "super", line: t.line };
            let (ok, st2) = consume(toks, st1, TokenKind::Dot, "Expect '.' after 'super'."@);
            if ok {
                let (m, st3) = consume_identifier(toks, st2, "Expect superclass method name."@);
                match m {
                    Some(method) => (Some(SExpr::Super(keyword, method)), st3),
                    None => (None, st3),
                }
            } else {
                (None, st2)
            }
        } else if k == TokenKind::Identifier {
            (Some(SExpr::Variable(ident_at(toks, st.pos))), st1)
        } else if k == TokenKind::LeftParen {
            let (e, st2) = expression(toks, st1);
            match e {
                None => (None, st2),
                Some(inner) => {
                    let (ok, st3) = consume(toks, st2, TokenKind::RightParen, "Expect ')' after expression."@);
                    if ok {
                        (Some(SExpr::Grouping(Box::new(inner))), st3)
                    } else {
                        (None, st3)
                    }
                },
            }
        } else {
            match missing_lhs_level(k) {
                Some(level) => {
                    let st2 = report(
                        toks,
                        st1,
                        st1.pos,
                        "Expected expression, found binary operator"@,
                    );
                    let (r, st3) = if level == 0 {
                        unary(toks, st2)
                    } else {
                        binary_level(toks, st2, level)
                    };
                    match r {
                        None => (None, st3),
                        Some(_) => if steady(toks, st2, st3) {
                            expression(toks, st3)
                        } else {
                            (None, st3)
                        },
                    }
                },
                None => (None, report(toks, st, st.pos, "Expected expression."@)),
            }
        }
    }
}

// ---------------------------------------------------------------------------
// Statements.

#[verifier::opaque]
pub open spec fn declaration(toks: Seq<Token>, st: PState) -> (Option<SStmt>, PState)
    decreases toks.len() - st.pos, 50nat,
{
    let (s, st1) = if check(toks, st, TokenKind::Class) && 0 <= st.pos && st.pos + 1 < toks.len() {
        class_declaration(toks, adv(toks, st))
    } else if check(toks, st, TokenKind::Fun) && 0 <= st.pos && st.pos + 1 < toks.len() {
        let (f, st2) = function(toks, adv(toks, st), "function"@);
        match f {
            Some(fun) => (Some(SStmt::Function(fun)), st2),
            None => (None, st2),
        }
    } else if check(toks, st, TokenKind::Var) && 0 <= st.pos && st.pos + 1 < toks.len() {
        var_declaration(toks, adv(toks, st))
    } else {
        statement(toks, st)
    };
    match s {
        Some(stmt) => (Some(stmt), st1),
        None => (None, synchronize(toks, adv(toks, st1))),
    }
}

/// Skips to the start of the next statement after an error.
pub open spec fn synchronize(toks: Seq<Token>, st: PState) -> PState
    decreases toks.len() - st.pos,
{
    if at_end(toks, st) || st.pos <= 0 || st.pos + 1 >= toks.len() {
        st
    } else if tkind(toks, st.pos - 1) == TokenKind::Semicolon {
        st
    } else {
        let k = tkind(toks, st.pos);
        if k == TokenKind::Class || k == TokenKind::Fun || k == TokenKind::Var || k == TokenKind::For || k
            == TokenKind::If || k == TokenKind::While || k == TokenKind::Print || k == TokenKind::Return {
            st
        } else {
            synchronize(toks, adv(toks, st))
        }
    }
}

#[verifier::opaque]
pub open spec fn class_declaration(toks: Seq<Token>, st: PState) -> (Option<SStmt>, PState)
    decreases toks.len() - st.pos, 45nat,
{
    let (n, st1) = consume_identifier(toks, st, "Expect class name."@);
    match n {
        None => (None, st1),
        Some(name) => {
            let (superclass, st2) = if check(toks, st1, TokenKind::Less) && st1.pos + 1 < toks.len() {
                let (s, st3) = consume_identifier(toks, adv(toks, st1), "Expect superclass name."@);
                match s {
                    Some(sup) => (Some(Some(sup)), st3),
                    None => (None, st3),
                }
            } else {
                (Some(None), st1)
            };
            match superclass {
                None => (None, st2),
                Some(sup) => {
                    let (ok, st3) = consume(toks, st2, TokenKind::LeftBrace, "Expect '{' before class body."@);
                    if !ok {
                        (None, st3)
                    } else if steady(toks, st, st3) && st3.pos > st.pos {
                        let (ms, st4) = methods(toks, st3, Seq::empty());
                        match ms {
                            None => (None, st4),
                            Some(m) => {
                                let (ok2, st5) = consume(toks, st4, TokenKind::RightBrace, "Expect '}' after class body."@);
                                if ok2 {
                                    (Some(SStmt::Class(name, sup, m)), st5)
                                } else {
                                    (None, st5)
                                }
                            },
                        }
                    } else {
                        (None, st3)
                    }
                },
            }
        },
    }
}

/// The methods of a class body, after those in `done`.
#[verifier::opaque]
pub open spec fn methods(toks: Seq<Token>, st: PState, done: Seq<SFunction>) -> (Option<Seq<SFunction>>, PState)
    decreases toks.len() - st.pos, 44nat,
{
    if !check(toks, st, TokenKind::RightBrace) && !at_end(toks, st) {
        let (f, st1) = function(toks, st, "method"@);
        match f {
            None => (None, st1),
            Some(fun) => if steady(toks, st, st1) && st1.pos > st.pos {
                methods(toks, st1, done.push(fun))
            } else {
                (Some(done.push(fun)), st1)
            },
        }
    } else {
        (Some(done), st)
    }
}

#[verifier::opaque]
pub open spec fn function(toks: Seq<Token>, st: PState, fkind: Seq<char>) -> (Option<SFunction>, PState)
    decreases toks.len() - st.pos, 43nat,
{
    let (n, st1) = consume_identifier(toks, st, "Expect "@ + fkind + " name."@);
    match n {
        None => (None, st1),
        Some(name) => {
            let (ok, st2) = consume(toks, st1, TokenKind::LeftParen, "Expect '(' after "@ + fkind + " name."@);
            if !ok {
                (None, st2)
            } else {
                let (ps, st3) = if !check(toks, st2, TokenKind::RightParen) {
                    parameters(toks, st2, Seq::empty())
                } else {
                    (Some(Seq::<IdentifierToken>::empty()), st2)
                };
                match ps {
                    None => (None, st3),
                    Some(params) => {
                        let (ok2, st4) = consume(toks, st3, TokenKind::RightParen, "Expect ')' after "@ + fkind + " parameters."@);
                        let (ok3, st5) = if ok2 {
                            consume(toks, st4, TokenKind::LeftBrace, "Expect '{' before "@ + fkind + " body."@)
                        } else {
                            (false, st4)
                        };
                        if !ok3 {
                            (None, st5)
                        } else if st5.function_level >= 255 {
                            (None, report(toks, st5, st5.pos - 1, "Only 256 levels of function nesting are supported."@))
                        } else if steady(toks, st, st5) && st5.pos > st.pos {
                            let inner = PState {
                                pos: st5.pos,
                                loop_level: st5.loop_level,
                                function_level: st5.function_level + 1,
                                errors: st5.errors,
                            };
                            let (b, st6) = block_body(toks, inner, Seq::empty());
                            let st7 = PState {
                                pos: st6.pos,
                                loop_level: st6.loop_level,
                                function_level: st6.function_level - 1,
                                errors: st6.errors,
                            };
                            match b {
                                None => (None, st7),
                                Some(body) => (Some(SFunction { name, params, body }), st7),
                            }
                        } else {
                            (None, st5)
                        }
                    },
                }
            }
        },
    }
}

/// The parameters of a function, after those in `done`.
pub open spec fn parameters(toks: Seq<Token>, st: PState, done: Seq<IdentifierToken>) -> (Option<Seq<IdentifierToken>>, PState)
    decreases toks.len() - st.pos,
{
    let st0 = if done.len() >= 255 {
        report(toks, st, st.pos, "Can't have more than 255 parameters."@)
    } else {
        st
    };
    let (p, st1) = consume_identifier(toks, st0, "Expect parameter name."@);
    match p {
        None => (None, st1),
        Some(param) => {
            let done2 = done.push(param);
            if check(toks, st1, TokenKind::Comma) && st.pos < st1.pos && st1.pos + 1 < toks.len() {
                parameters(toks, adv(toks, st1), done2)
            } else {
                (Some(done2), st1)
            }
        },
    }
}

pub open spec fn var_declaration(toks: Seq<Token>, st: PState) -> (Option<SStmt>, PState)
    decreases toks.len() - st.pos, 45nat,
{
    let (n, st1) = consume_identifier(toks, st, "Expect variable name."@);
    match n {
        None => (None, st1),
        Some(name) => {
            let (init, st2) = if check(toks, st1, TokenKind::Equal) && steady(toks, st, st1) && st1.pos + 1
                < toks.len() {
                let (e, st3) = expression(toks, adv(toks, st1));
                match e {
                    Some(x) => (Some(Some(x)), st3),
                    None => (None, st3),
                }
            } else {
                (Some(None), st1)
            };
            match init {
                None => (None, st2),
                Some(i) => {
                    let (ok, st3) = consume(toks, st2, TokenKind::Semicolon, "Expect ';' after variable declaration."@);
                    if ok {
                        (Some(SStmt::Var(name, i)), st3)
                    } else {
                        (None, st3)
                    }
                },
            }
        },
    }
}

#[verifier::opaque]
pub open spec fn statement(toks: Seq<Token>, st: PState) -> (Option<SStmt>, PState)
    decreases toks.len() - st.pos, 48nat,
{
    if 0 <= st.pos && st.pos + 1 < toks.len() && !at_end(toks, st) {
        let k = tkind(toks, st.pos);
        let st1 = adv(toks, st);
        if k == TokenKind::For || k == TokenKind::While || k == TokenKind::If || k == TokenKind::LeftBrace {
            compound_statement(toks, st1, k)
        } else if k == TokenKind::Print || k == TokenKind::Return || k == TokenKind::Break {
            simple_statement(toks, st1, k)
        } else {
            expression_statement(toks, st)
        }
    } else {
        expression_statement(toks, st)
    }
}

/// A statement that holds statements, after its keyword or brace `k`.
#[verifier::opaque]
pub open spec fn compound_statement(toks: Seq<Token>, st: PState, k: TokenKind) -> (Option<SStmt>, PState)
    decreases toks.len() - st.pos, 58nat,
{
    if k == TokenKind::For {
        looping(toks, st, true)
    } else if k == TokenKind::While {
        looping(toks, st, false)
    } else if k == TokenKind::If {
        if_statement(toks, st)
    } else {
        block(toks, st)
    }
}

/// A `print`, `return` or `break` statement, after its keyword `k`.
pub open spec fn simple_statement(toks: Seq<Token>, st: PState, k: TokenKind) -> (Option<SStmt>, PState) {
    if k == TokenKind::Print {
        print_statement(toks, st)
    } else if k == TokenKind::Return {
        return_statement(toks, st)
    } else {
        break_statement(toks, st)
    }
}

/// A `for` or `while` loop, one level of loop nesting deeper.
#[verifier::opaque]
pub open spec fn looping(toks: Seq<Token>, st: PState, is_for: bool) -> (Option<SStmt>, PState)
    decreases toks.len() - st.pos, 47nat,
{
    if st.loop_level >= 255 {
        (None, report(toks, st, st.pos - 1, "Only 256 levels of loop nesting are supported."@))
    } else {
        let inner = PState {
            pos: st.pos,
            loop_level: st.loop_level + 1,
            function_level: st.function_level,
            errors: st.errors,
        };
        let (s, st1) = if is_for {
            for_statement(toks, inner)
        } else {
            while_statement(toks, inner)
        };
        (s, PState { pos: st1.pos, loop_level: st1.loop_level - 1, function_level: st1.function_level, errors: st1.errors })
    }
}

#[verifier::opaque]
pub open spec fn for_statement(toks: Seq<Token>, st: PState) -> (Option<SStmt>, PState)
    decreases toks.len() - st.pos, 46nat,
{
    let (ok, st1) = consume(toks, st, TokenKind::LeftParen, "Expect '(' after 'for'"@);
    if !ok || !(st1.pos > st.pos) {
        (None, st1)
    } else {
        let (init, st2) = for_initializer(toks, st1);
        match init {
            None => (None, st2),
            Some(initializer) => if steady(toks, st, st2) && st2.pos > st.pos {
                for_rest(toks, st2, initializer)
            } else {
                (None, st2)
            },
        }
    }
}

/// The first clause of a `for` loop: nothing, a variable declaration or an
/// expression statement, with its semicolon.
pub open spec fn for_initializer(toks: Seq<Token>, st: PState) -> (Option<Option<SStmt>>, PState) {
    if check(toks, st, TokenKind::Semicolon) && 0 <= st.pos && st.pos + 1 < toks.len() {
        (Some(None), adv(toks, st))
    } else if check(toks, st, TokenKind::Var) && 0 <= st.pos && st.pos + 1 < toks.len() {
        let (s, st1) = var_declaration(toks, adv(toks, st));
        match s {
            Some(x) => (Some(Some(x)), st1),
            None => (None, st1),
        }
    } else {
        let (s, st1) = expression_statement(toks, st);
        match s {
            Some(x) => (Some(Some(x)), st1),
            None => (None, st1),
        }
    }
}

/// The rest of a `for` loop after its first clause: the condition (`true`
/// when left out), the increment, and the body; the loop becomes a `while`
/// loop in a block with the initializer.
#[verifier::opaque]
pub open spec fn for_rest(toks: Seq<Token>, st: PState, initializer: Option<SStmt>) -> (Option<SStmt>, PState)
    decreases toks.len() - st.pos, 45nat,
{
    let (cond, st1) = if !check(toks, st, TokenKind::Semicolon) {
        expression(toks, st)
    } else {
        (Some(SExpr::Literal(ParsedLiteral::True)), st)
    };
    match cond {
        None => (None, st1),
        Some(condition) => {
            let (ok, st2) = consume(toks, st1, TokenKind::Semicolon, "Expect ';' after for loop condition"@);
            if !ok {
                (None, st2)
            } else {
                let (inc, st3) = if !check(toks, st2, TokenKind::RightParen) {
                    let (e, st4) = expression(toks, st2);
                    match e {
                        Some(x) => (Some(Some(x)), st4),
                        None => (None, st4),
                    }
                } else {
                    (Some(None), st2)
                };
                match inc {
                    None => (None, st3),
                    Some(increment) => {
                        let (ok2, st4) = consume(toks, st3, TokenKind::RightParen, "Expect ')' after for loop clauses"@);
                        if !ok2 || !steady(toks, st, st4) || st4.pos <= st.pos {
                            (None, st4)
                        } else {
                            for_body(toks, st4, initializer, condition, increment)
                        }
                    },
                }
            }
        },
    }
}

/// The body of a `for` loop, after its clauses; the loop becomes a `while`
/// loop, in a block with the initializer where there is one.
#[verifier::opaque]
pub open spec fn for_body(
    toks: Seq<Token>,
    st: PState,
    initializer: Option<SStmt>,
    condition: SExpr,
    increment: Option<SExpr>,
) -> (Option<SStmt>, PState)
    decreases toks.len() - st.pos, 49nat,
{
    let (b, st1) = statement(toks, st);
    match b {
        None => (None, st1),
        Some(body_stmt) => (Some(for_loop(initializer, condition, increment, body_stmt)), st1),
    }
}

/// A `for` loop as a `while` loop: the increment runs after the body, and
/// the initializer before the loop, in a block of its own.
pub open spec fn for_loop(
    initializer: Option<SStmt>,
    condition: SExpr,
    increment: Option<SExpr>,
    body_stmt: SStmt,
) -> SStmt {
    let body = match increment {
        Some(i) => SStmt::Block(seq![body_stmt, SStmt::Expression(i)]),
        None => body_stmt,
    };
    let w = SStmt::While(condition, Box::new(body));
    match initializer {
        Some(init_stmt) => SStmt::Block(seq![init_stmt, w]),
        None => w,
    }
}

#[verifier::opaque]
pub open spec fn if_statement(toks: Seq<Token>, st: PState) -> (Option<SStmt>, PState)
    decreases toks.len() - st.pos, 46nat,
{
    let (ok, st1) = consume(toks, st, TokenKind::LeftParen, "Expect '(' after 'if'"@);
    if !ok || !(st1.pos > st.pos) {
        (None, st1)
    } else {
        let (c, st2) = expression(toks, st1);
        match c {
            None => (None, st2),
            Some(condition) => {
                let (ok2, st3) = consume(toks, st2, TokenKind::RightParen, "Expect ')' 'if' condition"@);
                if !ok2 || !steady(toks, st, st3) || st3.pos <= st.pos {
                    (None, st3)
                } else {
                    if_branches(toks, st3, condition)
                }
            },
        }
    }
}

/// The branches of an `if` statement, after its condition.
#[verifier::opaque]
pub open spec fn if_branches(toks: Seq<Token>, st: PState, condition: SExpr) -> (Option<SStmt>, PState)
    decreases toks.len() - st.pos, 49nat,
{
    let (t, st1) = statement(toks, st);
    match t {
        None => (None, st1),
        Some(then_branch) => if check(toks, st1, TokenKind::Else) && steady(toks, st, st1) && st1.pos
            + 1 < toks.len() {
            let (e, st2) = statement(toks, adv(toks, st1));
            match e {
                None => (None, st2),
                Some(else_branch) => (
                    Some(SStmt::If(condition, Box::new(then_branch), Some(Box::new(else_branch)))),
                    st2,
                ),
            }
        } else {
            (Some(SStmt::If(condition, Box::new(then_branch), None)), st1)
        },
    }
}

pub open spec fn print_statement(toks: Seq<Token>, st: PState) -> (Option<SStmt>, PState)
    decreases toks.len() - st.pos, 40nat,
{
    let (e, st1) = expression(toks, st);
    match e {
        None => (None, st1),
        Some(x) => {
            let (ok, st2) = consume(toks, st1, TokenKind::Semicolon, "Expect ';' after value."@);
            if ok {
                (Some(SStmt::Print(x)), st2)
            } else {
                (None, st2)
            }
        },
    }
}

pub open spec fn return_statement(toks: Seq<Token>, st: PState) -> (Option<SStmt>, PState)
    decreases toks.len() - st.pos, 40nat,
{
    let keyword = toks[st.pos - 1];
    if st.function_level > 0 {
        let token = ErrorTrackingToken { text: "return", line: keyword.line };
        let (v, st1) = if !check(toks, st, TokenKind::Semicolon) {
            let (e, st2) = expression(toks, st);
            match e {
                Some(x) => (Some(Some(x)), st2),
                None => (None, st2),
            }
        } else {
            (Some(None), st)
        };
        match v {
            None => (None, st1),
            Some(value) => {
                let (ok, st2) = consume(toks, st1, TokenKind::Semicolon, "Expect ';' after return."@);
                if ok {
                    (Some(SStmt::Return(token, value)), st2)
                } else {
                    (None, st2)
                }
            },
        }
    } else {
        (None, report(toks, st, st.pos - 1, "return statement must occur inside function body"@))
    }
}

#[verifier::opaque]
pub open spec fn while_statement(toks: Seq<Token>, st: PState) -> (Option<SStmt>, PState)
    decreases toks.len() - st.pos, 46nat,
{
    let (ok, st1) = consume(toks, st, TokenKind::LeftParen, "Expect '(' before if's condition."@);
    if !ok || !(st1.pos > st.pos) {
        (None, st1)
    } else {
        let (c, st2) = expression(toks, st1);
        match c {
            None => (None, st2),
            Some(condition) => {
                let (ok2, st3) = consume(toks, st2, TokenKind::RightParen, "Expect ')' after if's condition."@);
                if !ok2 || !steady(toks, st, st3) || st3.pos <= st.pos {
                    (None, st3)
                } else {
                    let (b, st4) = statement(toks, st3);
                    match b {
                        None => (None, st4),
                        Some(body) => (Some(SStmt::While(condition, Box::new(body))), st4),
                    }
                }
            },
        }
    }
}

pub open spec fn break_statement(toks: Seq<Token>, st: PState) -> (Option<SStmt>, PState) {
    if st.loop_level > 0 {
        let (ok, st1) = consume(toks, st, TokenKind::Semicolon, "Expect ';' after break"@);
        if ok {
            (Some(SStmt::Break), st1)
        } else {
            (None, st1)
        }
    } else {
        (None, report(toks, st, st.pos - 1, "Expect 'break' inside loop."@))
    }
}

#[verifier::opaque]
pub open spec fn block(toks: Seq<Token>, st: PState) -> (Option<SStmt>, PState)
    decreases toks.len() - st.pos, 57nat,
{
    let (b, st1) = block_body(toks, st, Seq::empty());
    match b {
        None => (None, st1),
        Some(statements) => (Some(SStmt::Block(statements)), st1),
    }
}

/// The declarations of a block up to its closing brace, which is consumed,
/// after those in `done`.
#[verifier::opaque]
pub open spec fn block_body(toks: Seq<Token>, st: PState, done: Seq<SStmt>) -> (Option<Seq<SStmt>>, PState)
    decreases toks.len() - st.pos, 56nat,
{
    if !check(toks, st, TokenKind::RightBrace) && !at_end(toks, st) {
        let (d, st1) = declaration(toks, st);
        match d {
            None => (None, st1),
            Some(stmt) => if steady(toks, st, st1) && st1.pos > st.pos {
                block_body(toks, st1, done.push(stmt))
            } else {
                (None, st1)
            },
        }
    } else {
        let (ok, st1) = consume(toks, st, TokenKind::RightBrace, "Expect '}' after block."@);
        if ok {
            (Some(done), st1)
        } else {
            (None, st1)
        }
    }
}

pub open spec fn expression_statement(toks: Seq<Token>, st: PState) -> (Option<SStmt>, PState)
    decreases toks.len() - st.pos, 40nat,
{
    let (e, st1) = expression(toks, st);
    match e {
        None => (None, st1),
        Some(x) => {
            let (ok, st2) = consume(toks, st1, TokenKind::Semicolon, "Expect ';' after value."@);
            if ok {
                (Some(SStmt::Expression(x)), st2)
            } else {
                (None, st2)
            }
        },
    }
}

/// A program: declarations up to `Eof`, after those in `done`. The first
/// declaration in error ends it.
#[verifier::opaque]
pub open spec fn program(toks: Seq<Token>, st: PState, done: Seq<SStmt>) -> (Option<Seq<SStmt>>, PState)
    decreases toks.len() - st.pos, 60nat,
{
    if !at_end(toks, st) {
        let (d, st1) = declaration(toks, st);
        match d {
            None => (None, st1),
            Some(stmt) => if steady(toks, st, st1) && st1.pos > st.pos {
                program(toks, st1, done.push(stmt))
            } else {
                (None, st1)
            },
        }
    } else {
        (Some(done), st)
    }
}

pub open spec fn initial() -> PState {
    PState { pos: 0, loop_level: 0, function_level: 0, errors: Seq::empty() }
}

} // verus!

verus! {

/// `s` is an `if` statement on `condition` whose then-branch is `then_b`
/// and whose else-branch is `else_b`.
pub open spec fn is_if(s: SStmt, condition: SExpr, then_b: SStmt, else_b: Option<SStmt>) -> bool {
    match s {
        SStmt::If(c, t, e) => c == condition && *t == then_b && match e {
            Some(x) => else_b == Some(*x),
            None => else_b is None,
        },
        _ => false,
    }
}

/// The branches of an `if` keep their order: the then-branch is the
/// statement that follows the condition, and an else-branch, present
/// exactly when `else` follows that statement, is the statement after the
/// `else`.
#[verifier::spinoff_prover]
#[verifier::rlimit(50)]
pub proof fn lemma_if_branches_in_order(toks: Seq<Token>, st: PState, condition: SExpr)
    ensures
        ({
            let (t, st1) = statement(toks, st);
            if_branches(toks, st, condition).0 is Some ==> t is Some && if check(toks, st1, TokenKind::Else)
                && steady(toks, st, st1) && st1.pos + 1 < toks.len() {
                let (e, _) = statement(toks, adv(toks, st1));
                e is Some && is_if(if_branches(toks, st, condition).0->0, condition, t->0, e)
            } else {
                is_if(if_branches(toks, st, condition).0->0, condition, t->0, None)
            }
        }),
{
    reveal(if_branches);
    let (t, st1) = statement(toks, st);
    if if_branches(toks, st, condition).0 is Some {
        if check(toks, st1, TokenKind::Else) && steady(toks, st, st1) && st1.pos + 1 < toks.len() {
            let (e, st2) = statement(toks, adv(toks, st1));
            assert(if_branches(toks, st, condition).0 == Some(
                SStmt::If(condition, Box::new(t->0), Some(Box::new(e->0))),
            ));
        } else {
            assert(if_branches(toks, st, condition).0 == Some(SStmt::If(condition, Box::new(t->0), None)));
        }
    }
}

} // verus!

verus! {

/// Each operator of a binary level is parsed as the operator written as
/// that token: the parsed operator prints as the token reads.
pub proof fn lemma_binary_operator_of_token(t: TokenType, level: nat)
    requires
        1 <= level <= 4,
        level_has(level, kind(t)),
    ensures
        binary_op_text(binary_op_of(kind(t))) == token_display(t),
{
}

/// A prefix `!` or `-` is parsed as a unary expression whose operator is the
/// one written as that token, applied to the unary expression that follows.
pub proof fn lemma_unary_operator_of_token(toks: Seq<Token>, st: PState)
    requires
        check(toks, st, TokenKind::Bang) || check(toks, st, TokenKind::Minus),
        0 <= st.pos,
        st.pos + 1 < toks.len(),
        unary(toks, st).0 is Some,
    ensures
        unary(toks, st).0->0 matches SExpr::Unary(operator, inner) && unary_op_text(operator.op) == token_display(
            toks[st.pos].token_type,
        ) && Some(*inner) == unary(toks, adv(toks, st)).0,
{
}

} // verus!
