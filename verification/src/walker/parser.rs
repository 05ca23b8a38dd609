//! The recursive-descent parser of the tree-walking interpreter. Every rule
//! builds exactly what the rule of the same name in `grammar` defines;
//! errors are reported to a list rather than written out.

use vstd::prelude::*;

use crate::scanner::token::TokenType as TokenKind;
use crate::walker::ast::{
    Assign, Binary, Block, Break, Call, Class, Expr, Function, Get, Grouping, If, LiteralExpr,
    Logical, Print, Return, SetProperty, Stmt, StmtExpression, Super, This, Unary, Var, Variable,
    While,
};
use crate::walker::grammar::{
    adv, and_loop, arguments, assignment, at_end, binary_level, binary_loop, binary_op_of, block,
    block_body, break_statement, call, call_loop, check, class_declaration, consume,
    consume_identifier, declaration, expr_view, expression, expression_statement, exprs_view,
    finish_call, for_statement, function, function_view, functions_view, if_statement, initial,
    level_has, level_rank, logical_and, logical_or, looping, methods, missing_lhs_level, operand,
    or_loop, parameters, primary, print_statement, program, report, return_statement, statement,
    stmt_view, stmts_view, synchronize, tkind, tokens_wf, unary, var_declaration, while_statement,
    PState, Report, SExpr, SFunction, SStmt, steady, compound_statement, simple_statement,
    for_initializer, for_rest, if_branches, for_body, opt_expr_view, for_loop,
};
use crate::walker::parsed_token::{
    BinaryOp, BinaryToken, ErrorTrackingToken, IdentifierToken, LogicalOp, LogicalToken,
    ParsedLiteral, UnaryOp, UnaryToken,
};
use crate::walker::token::{kind, token_display, Token, TokenType};

verus! {

/// A parse error as reported: the line, the token as written, the message.
#[derive(Debug, PartialEq, Clone)]
pub struct ParseError {
    pub line: usize,
    pub token: String,
    pub message: String,
}

/// The parse failed; what went wrong was reported.
#[derive(Debug, PartialEq, Eq, Clone, Copy)]
pub struct ParserError {}

#[verifier::opaque]
pub open spec fn reports_view(errs: Seq<ParseError>) -> Seq<Report> {
    errs.map_values(|e: ParseError| (e.line, e.token@, e.message@))
}

pub open spec fn eres(r: Result<Expr, ParserError>) -> Option<SExpr> {
    match r {
        Ok(e) => Some(expr_view(e)),
        Err(_) => None,
    }
}

pub open spec fn sres(r: Result<Stmt, ParserError>) -> Option<SStmt> {
    match r {
        Ok(s) => Some(stmt_view(s)),
        Err(_) => None,
    }
}

pub open spec fn fres(r: Result<Function, ParserError>) -> Option<SFunction> {
    match r {
        Ok(f) => Some(function_view(f)),
        Err(_) => None,
    }
}

pub open spec fn exprs_res(r: Result<Vec<Expr>, ParserError>) -> Option<Seq<SExpr>> {
    match r {
        Ok(v) => Some(exprs_view(v@)),
        Err(_) => None,
    }
}

pub open spec fn stmts_res(r: Result<Vec<Stmt>, ParserError>) -> Option<Seq<SStmt>> {
    match r {
        Ok(v) => Some(stmts_view(v@)),
        Err(_) => None,
    }
}

pub open spec fn functions_res(r: Result<Vec<Function>, ParserError>) -> Option<Seq<SFunction>> {
    match r {
        Ok(v) => Some(functions_view(v@)),
        Err(_) => None,
    }
}

pub open spec fn params_res(r: Result<Vec<IdentifierToken>, ParserError>) -> Option<Seq<IdentifierToken>> {
    match r {
        Ok(v) => Some(v@),
        Err(_) => None,
    }
}

proof fn lemma_exprs_push(s: Seq<Expr>, e: Expr)
    ensures
        exprs_view(s.push(e)) == exprs_view(s).push(expr_view(e)),
{
    assert(s.push(e).subrange(0, s.len() as int) =~= s);
}

proof fn lemma_stmts_push(s: Seq<Stmt>, e: Stmt)
    ensures
        stmts_view(s.push(e)) == stmts_view(s).push(stmt_view(e)),
{
    assert(s.push(e).subrange(0, s.len() as int) =~= s);
}

proof fn lemma_functions_push(s: Seq<Function>, e: Function)
    ensures
        functions_view(s.push(e)) == functions_view(s).push(function_view(e)),
{
    assert(s.push(e).subrange(0, s.len() as int) =~= s);
}

proof fn lemma_exprs_len(s: Seq<Expr>)
    ensures
        exprs_view(s).len() == s.len(),
    decreases s.len(),
{
    if s.len() > 0 {
        lemma_exprs_len(s.subrange(0, s.len() - 1));
    }
}

proof fn lemma_views_empty()
    ensures
        exprs_view(Seq::<Expr>::empty()) == Seq::<SExpr>::empty(),
        stmts_view(Seq::<Stmt>::empty()) == Seq::<SStmt>::empty(),
        functions_view(Seq::<Function>::empty()) == Seq::<SFunction>::empty(),
{
}

fn string_of(s: &str) -> (res: String)
    ensures
        res@ == s@,
{
    s.to_owned()
}

/// `a`, then `b`, then `c`.
fn concat3(a: &str, b: &str, c: &str) -> (res: String)
    ensures
        res@ == a@ + b@ + c@,
{
    let mut out = string_of(a);
    out.append(b);
    out.append(c);
    out
}

/// Builds the `while` loop that a `for` loop stands for.
fn make_for_loop(initializer: Option<Stmt>, condition: Expr, increment: Option<Expr>, body_stmt: Stmt) -> (res: Stmt)
    ensures
        stmt_view(res) == for_loop(
            match initializer {
                Some(s) => Some(stmt_view(s)),
                None => None,
            },
            expr_view(condition),
            opt_expr_view(increment),
            stmt_view(body_stmt),
        ),
{
    let ghost vbs = stmt_view(body_stmt);
    let ghost vinc = opt_expr_view(increment);
    let body = match increment {
        Some(increment_expr) => {
            let mut statements: Vec<Stmt> = Vec::new();
            let inc = StmtExpression::lift(increment_expr);
            proof {
                lemma_views_empty();
                lemma_stmts_push(statements@, body_stmt);
                lemma_stmts_push(statements@.push(body_stmt), inc);
            }
            let ghost vi = stmt_view(inc);
            statements.push(body_stmt);
            statements.push(inc);
            assert(stmts_view(statements@) =~= seq![vbs, vi]);
            Block::lift(statements)
        },
        None => body_stmt,
    };
    let ghost vbody = match vinc {
        Some(i) => SStmt::Block(seq![vbs, SStmt::Expression(i)]),
        None => vbs,
    };
    assert(stmt_view(body) == vbody);
    let body = While::lift(condition, body);
    let ghost vw = stmt_view(body);
    match initializer {
        Some(initializer_stmt) => {
            let mut statements: Vec<Stmt> = Vec::new();
            proof {
                lemma_views_empty();
                lemma_stmts_push(statements@, initializer_stmt);
                lemma_stmts_push(statements@.push(initializer_stmt), body);
            }
            let ghost vi = stmt_view(initializer_stmt);
            statements.push(initializer_stmt);
            statements.push(body);
            assert(stmts_view(statements@) =~= seq![vi, vw]);
            Block::lift(statements)
        },
        None => body,
    }
}

struct Parser<'a> {
    tokens: &'a [Token],
    current: usize,
    loop_level: u8,
    function_level: u8,
    errors: Vec<ParseError>,
}

impl<'a> Parser<'a> {
    spec fn toks(&self) -> Seq<Token> {
        self.tokens@
    }

    spec fn state(&self) -> PState {
        PState {
            pos: self.current as int,
            loop_level: self.loop_level as int,
            function_level: self.function_level as int,
            errors: reports_view(self.errors@),
        }
    }

    spec fn wf(&self) -> bool {
        tokens_wf(self.tokens@) && self.current < self.tokens@.len()
    }

    /// `self` is a later state of the parser `old`, on the same tokens and
    /// at the same nesting.
    spec fn follows(&self, old: Parser) -> bool {
        &&& self.tokens == old.tokens
        &&& self.wf()
        &&& old.current <= self.current
        &&& self.loop_level == old.loop_level
        &&& self.function_level == old.function_level
    }

    fn new(tokens: &'a [Token]) -> (res: Self)
        requires
            tokens_wf(tokens@),
        ensures
            res.wf(),
            res.tokens@ == tokens@,
            res.state() == initial(),
    {
        proof {
            reveal(reports_view);
        }
        let p = Parser { tokens, current: 0, loop_level: 0, function_level: 0, errors: Vec::new() };
        assert(reports_view(p.errors@) =~= Seq::<Report>::empty());
        p
    }

    fn is_at_end(&self) -> (res: bool)
        requires
            self.wf(),
        ensures
            res == at_end(self.toks(), self.state()),
    {
        self.tokens[self.current].token_type.kind_of() == TokenKind::Eof
    }

    fn check(&self, k: TokenKind) -> (res: bool)
        requires
            self.wf(),
        ensures
            res == check(self.toks(), self.state(), k),
    {
        !self.is_at_end() && self.tokens[self.current].token_type.kind_of() == k
    }

    fn advance(&mut self)
        requires
            old(self).wf(),
        ensures
            final(self).follows(*old(self)),
            final(self).state() == adv(old(self).toks(), old(self).state()),
            final(self).errors == old(self).errors,
    {
        if !self.is_at_end() {
            let n = self.tokens.len();
            proof {
                assert(self.current != n - 1);
            }
            self.current = self.current + 1;
        }
    }

    fn error(&mut self, i: usize, message: String)
        requires
            old(self).wf(),
            i < old(self).tokens@.len(),
        ensures
            final(self).follows(*old(self)),
            final(self).current == old(self).current,
            final(self).state() == report(old(self).toks(), old(self).state(), i as int, message@),
    {
        proof {
            reveal(reports_view);
        }
        let token = &self.tokens[i];
        let e = ParseError { line: token.line, token: token.token_type.pretty_print(), message };
        self.errors.push(e);
        proof {
            assert(reports_view(self.errors@) =~= reports_view(old(self).errors@).push(
                (self.tokens@[i as int].line, token_display(self.tokens@[i as int].token_type), message@),
            ));
        }
    }

    fn consume(&mut self, k: TokenKind, message: &str) -> (res: bool)
        requires
            old(self).wf(),
        ensures
            final(self).follows(*old(self)),
            (res, final(self).state()) == consume(old(self).toks(), old(self).state(), k, message@),
            res ==> final(self).current > old(self).current,
    {
        if self.check(k) {
            self.advance();
            true
        } else {
            self.error(self.current, string_of(message));
            false
        }
    }

    fn consume_identifier(&mut self, message: &str) -> (res: Option<IdentifierToken>)
        requires
            old(self).wf(),
        ensures
            final(self).follows(*old(self)),
            (res, final(self).state()) == consume_identifier(old(self).toks(), old(self).state(), message@),
            res is Some ==> final(self).current > old(self).current,
    {
        if self.check(TokenKind::Identifier) {
            let token = &self.tokens[self.current];
            match &token.token_type {
                TokenType::Identifier(s) => {
                    let id = IdentifierToken::new(s.clone(), token.line);
                    self.advance();
                    Some(id)
                },
                _ => {
                    proof {
                        assert(false);
                    }
                    None
                },
            }
        } else {
            self.error(self.current, string_of(message));
            None
        }
    }

    // Expressions.

    fn expression(&mut self) -> (res: Result<Expr, ParserError>)
        requires
            old(self).wf(),
        ensures
            final(self).follows(*old(self)),
            (eres(res), final(self).state()) == expression(old(self).toks(), old(self).state()),
            res is Ok ==> final(self).current > old(self).current,
        decreases old(self).tokens@.len() - old(self).current, 34nat,
    {
        self.assignment()
    }

    fn assignment(&mut self) -> (res: Result<Expr, ParserError>)
        requires
            old(self).wf(),
        ensures
            final(self).follows(*old(self)),
            (eres(res), final(self).state()) == assignment(old(self).toks(), old(self).state()),
            res is Ok ==> final(self).current > old(self).current,
        decreases old(self).tokens@.len() - old(self).current, 33nat,
    {
        let ghost st0 = self.state();
        let expression = self.logical_or();
        match expression {
            Ok(expression) => self.assignment_tail(expression, Ghost(st0)),
            Err(e) => Err(e),
        }
    }

    /// The rest of an assignment once its left side, parsed from `st0`, is in.
    #[verifier::rlimit(60)]
    fn assignment_tail(&mut self, expression: Expr, Ghost(st0): Ghost<PState>) -> (res: Result<Expr, ParserError>)
        requires
            old(self).wf(),
            0 <= st0.pos < old(self).current,
            st0.loop_level == old(self).loop_level,
            st0.function_level == old(self).function_level,
            (Some(expr_view(expression)), old(self).state()) == logical_or(old(self).toks(), st0),
        ensures
            final(self).follows(*old(self)),
            (eres(res), final(self).state()) == assignment(old(self).toks(), st0),
            res is Ok ==> final(self).current > st0.pos,
        decreases old(self).tokens@.len() - old(self).current, 33nat,
    {
        if self.check(TokenKind::Equal) {
            let eq = self.current;
            self.advance();
            let value = self.assignment()?;
            match expression {
                Expr::Variable(variable) => Ok(Assign::lift(variable.name, value)),
                Expr::Get(get) => {
                    let g = *get;
                    Ok(SetProperty::lift(g.object, g.name, value))
                },
                _ => {
                    self.error(eq, string_of("Invalid assignment target."));
                    Ok(expression)
                },
            }
        } else {
            Ok(expression)
        }
    }

    fn logical_or(&mut self) -> (res: Result<Expr, ParserError>)
        requires
            old(self).wf(),
        ensures
            final(self).follows(*old(self)),
            (eres(res), final(self).state()) == logical_or(old(self).toks(), old(self).state()),
            res is Ok ==> final(self).current > old(self).current,
        decreases old(self).tokens@.len() - old(self).current, 32nat,
    {
        let left = self.logical_and()?;
        self.or_loop(left)
    }

    fn or_loop(&mut self, left: Expr) -> (res: Result<Expr, ParserError>)
        requires
            old(self).wf(),
        ensures
            final(self).follows(*old(self)),
            (eres(res), final(self).state()) == or_loop(old(self).toks(), old(self).state(), expr_view(left)),
        decreases old(self).tokens@.len() - old(self).current, 31nat,
    {
        if self.check(TokenKind::Or) {
            let ghost st = self.state();
            let line = self.tokens[self.current].line;
            proof {
                assert(self.current + 1 < self.tokens@.len());
            }
            self.advance();
            let ghost st1 = self.state();
            assert(st1 == adv(self.toks(), st));
            let right = self.logical_and();
            let ghost st2 = self.state();
            assert((eres(right), st2) == logical_and(self.toks(), st1));
            let right = match right {
                Ok(r) => r,
                Err(e) => {
                    assert(check(self.toks(), st, TokenKind::Or));
                    assert(0 <= st.pos && st.pos + 1 < self.toks().len());
                    assert(self.toks()[st.pos].line == line);
                    assert(or_loop(self.toks(), st, expr_view(left)) == (None::<SExpr>, st2));
                    return Err(e);
                },
            };
            let e = Logical::lift(left, LogicalToken::new(LogicalOp::Or, line), right);
            self.or_loop(e)
        } else {
            Ok(left)
        }
    }

    fn logical_and(&mut self) -> (res: Result<Expr, ParserError>)
        requires
            old(self).wf(),
        ensures
            final(self).follows(*old(self)),
            (eres(res), final(self).state()) == logical_and(old(self).toks(), old(self).state()),
            res is Ok ==> final(self).current > old(self).current,
        decreases old(self).tokens@.len() - old(self).current, 30nat,
    {
        let left = self.binary_level(1)?;
        self.and_loop(left)
    }

    fn and_loop(&mut self, left: Expr) -> (res: Result<Expr, ParserError>)
        requires
            old(self).wf(),
        ensures
            final(self).follows(*old(self)),
            (eres(res), final(self).state()) == and_loop(old(self).toks(), old(self).state(), expr_view(left)),
        decreases old(self).tokens@.len() - old(self).current, 29nat,
    {
        if self.check(TokenKind::And) {
            let line = self.tokens[self.current].line;
            self.advance();
            let right = self.binary_level(1)?;
            let e = Logical::lift(left, LogicalToken::new(LogicalOp::And, line), right);
            self.and_loop(e)
        } else {
            Ok(left)
        }
    }

    fn operand(&mut self, level: u8) -> (res: Result<Expr, ParserError>)
        requires
            old(self).wf(),
            1 <= level <= 4,
        ensures
            final(self).follows(*old(self)),
            (eres(res), final(self).state()) == operand(old(self).toks(), old(self).state(), level as nat),
            res is Ok ==> final(self).current > old(self).current,
        decreases old(self).tokens@.len() - old(self).current, level_rank(level as nat) + 1,
    {
        if level < 4 {
            self.binary_level(level + 1)
        } else {
            self.unary()
        }
    }

    fn binary_level(&mut self, level: u8) -> (res: Result<Expr, ParserError>)
        requires
            old(self).wf(),
            1 <= level <= 4,
        ensures
            final(self).follows(*old(self)),
            (eres(res), final(self).state()) == binary_level(old(self).toks(), old(self).state(), level as nat),
            res is Ok ==> final(self).current > old(self).current,
        decreases old(self).tokens@.len() - old(self).current, level_rank(level as nat) + 2,
    {
        let left = self.operand(level)?;
        self.binary_loop(left, level)
    }

    fn binary_op_at(&self, level: u8) -> (res: Option<BinaryOp>)
        requires
            self.wf(),
            1 <= level <= 4,
        ensures
            res is Some <==> !at_end(self.toks(), self.state()) && level_has(level as nat, tkind(self.toks(), self.state().pos)),
            res matches Some(op) ==> op == binary_op_of(tkind(self.toks(), self.state().pos)),
    {
        if self.is_at_end() {
            return None;
        }
        let k = self.tokens[self.current].token_type.kind_of();
        match k {
            TokenKind::BangEqual => if level == 1 { Some(BinaryOp::BangEqual) } else { None },
            TokenKind::EqualEqual => if level == 1 { Some(BinaryOp::EqualEqual) } else { None },
            TokenKind::Greater => if level == 2 { Some(BinaryOp::Greater) } else { None },
            TokenKind::GreaterEqual => if level == 2 { Some(BinaryOp::GreaterEqual) } else { None },
            TokenKind::Less => if level == 2 { Some(BinaryOp::Less) } else { None },
            TokenKind::LessEqual => if level == 2 { Some(BinaryOp::LessEqual) } else { None },
            TokenKind::Minus => if level == 3 { Some(BinaryOp::Minus) } else { None },
            TokenKind::Plus => if level == 3 { Some(BinaryOp::Plus) } else { None },
            TokenKind::Slash => if level == 4 { Some(BinaryOp::Slash) } else { None },
            TokenKind::Star => if level == 4 { Some(BinaryOp::Star) } else { None },
            _ => None,
        }
    }

    fn binary_loop(&mut self, left: Expr, level: u8) -> (res: Result<Expr, ParserError>)
        requires
            old(self).wf(),
            1 <= level <= 4,
        ensures
            final(self).follows(*old(self)),
            (eres(res), final(self).state()) == binary_loop(
                old(self).toks(),
                old(self).state(),
                expr_view(left),
                level as nat,
            ),
        decreases old(self).tokens@.len() - old(self).current, level_rank(level as nat),
    {
        match self.binary_op_at(level) {
            Some(op) => {
                let line = self.tokens[self.current].line;
                self.advance();
                let right = self.operand(level)?;
                let e = Binary::lift(left, BinaryToken::new(op, line), right);
                self.binary_loop(e, level)
            },
            None => Ok(left),
        }
    }

    fn unary(&mut self) -> (res: Result<Expr, ParserError>)
        requires
            old(self).wf(),
        ensures
            final(self).follows(*old(self)),
            (eres(res), final(self).state()) == unary(old(self).toks(), old(self).state()),
            res is Ok ==> final(self).current > old(self).current,
        decreases old(self).tokens@.len() - old(self).current, 16nat,
    {
        let is_bang = self.check(TokenKind::Bang);
        if is_bang || self.check(TokenKind::Minus) {
            let op = if is_bang {
                UnaryOp::Bang
            } else {
                UnaryOp::Minus
            };
            let operator = UnaryToken::new(op, self.tokens[self.current].line);
            self.advance();
            let expression = self.unary()?;
            Ok(Unary::lift(operator, expression))
        } else {
            self.call()
        }
    }

    fn call(&mut self) -> (res: Result<Expr, ParserError>)
        requires
            old(self).wf(),
        ensures
            final(self).follows(*old(self)),
            (eres(res), final(self).state()) == call(old(self).toks(), old(self).state()),
            res is Ok ==> final(self).current > old(self).current,
        decreases old(self).tokens@.len() - old(self).current, 15nat,
    {
        let expr = self.primary()?;
        self.call_loop(expr)
    }

    #[verifier::rlimit(100)]
    #[verifier::spinoff_prover]
    fn call_loop(&mut self, expr: Expr) -> (res: Result<Expr, ParserError>)
        requires
            old(self).wf(),
        ensures
            final(self).follows(*old(self)),
            (eres(res), final(self).state()) == call_loop(old(self).toks(), old(self).state(), expr_view(expr)),
        decreases old(self).tokens@.len() - old(self).current, 14nat,
    {
        if self.check(TokenKind::LeftParen) {
            let open_line = self.tokens[self.current].line;
            self.advance();
            let c = self.finish_call(expr, open_line)?;
            self.call_loop(c)
        } else if self.check(TokenKind::Dot) {
            self.advance();
            match self.consume_identifier("Expect property name after '.'.") {
                Some(name) => self.call_loop(Get::lift(expr, name)),
                None => Err(ParserError {}),
            }
        } else {
            Ok(expr)
        }
    }

    fn finish_call(&mut self, callee: Expr, open_line: usize) -> (res: Result<Expr, ParserError>)
        requires
            old(self).wf(),
        ensures
            final(self).follows(*old(self)),
            (eres(res), final(self).state()) == finish_call(
                old(self).toks(),
                old(self).state(),
                expr_view(callee),
                open_line,
            ),
            res is Ok ==> final(self).current > old(self).current,
        decreases old(self).tokens@.len() - old(self).current, 42nat,
    {
        let arguments = if !self.check(TokenKind::RightParen) {
            proof {
                lemma_views_empty();
            }
            self.arguments(Vec::new())?
        } else {
            proof {
                lemma_views_empty();
            }
            Vec::new()
        };
        let close_line = self.tokens[self.current].line;
        if self.consume(TokenKind::RightParen, "Expected ')' after arguments") {
            Ok(
                Call::lift(
                    callee,
                    ErrorTrackingToken::new("(", open_line),
                    arguments,
                    ErrorTrackingToken::new(")", close_line),
                ),
            )
        } else {
            Err(ParserError {})
        }
    }

    #[verifier::rlimit(100)]
    #[verifier::spinoff_prover]
    fn arguments(&mut self, done: Vec<Expr>) -> (res: Result<Vec<Expr>, ParserError>)
        requires
            old(self).wf(),
        ensures
            final(self).follows(*old(self)),
            (exprs_res(res), final(self).state()) == arguments(old(self).toks(), old(self).state(), exprs_view(done@)),
            res is Ok ==> final(self).current > old(self).current,
        decreases old(self).tokens@.len() - old(self).current, 41nat,
    {
        let mut done = done;
        proof {
            lemma_exprs_len(done@);
        }
        if done.len() >= 255 {
            self.error(self.current, string_of("Can't have more than 255 arguments."));
        }
        let arg = self.expression()?;
        proof {
            lemma_exprs_push(done@, arg);
        }
        done.push(arg);
        if self.check(TokenKind::Comma) {
            self.advance();
            self.arguments(done)
        } else {
            Ok(done)
        }
    }

    #[verifier::rlimit(100)]
    #[verifier::spinoff_prover]
    fn primary(&mut self) -> (res: Result<Expr, ParserError>)
        requires
            old(self).wf(),
        ensures
            final(self).follows(*old(self)),
            (eres(res), final(self).state()) == primary(old(self).toks(), old(self).state()),
            res is Ok ==> final(self).current > old(self).current,
        decreases old(self).tokens@.len() - old(self).current, 13nat,
    {
        if self.is_at_end() {
            self.error(self.current, string_of("Expected expression."));
            return Err(ParserError {});
        }
        let here = self.current;
        let k = self.tokens[here].token_type.kind_of();
        let line = self.tokens[here].line;
        match k {
            TokenKind::False => {
                self.advance();
                Ok(LiteralExpr::lift(ParsedLiteral::False))
            },
            TokenKind::True => {
                self.advance();
                Ok(LiteralExpr::lift(ParsedLiteral::True))
            },
            TokenKind::Nil => {
                self.advance();
                Ok(LiteralExpr::lift(ParsedLiteral::Nil))
            },
            TokenKind::Number | TokenKind::String => {
                let literal = match &self.tokens[here].token_type {
                    TokenType::Number(n) => ParsedLiteral::Number(n.clone()),
                    TokenType::String(s) => ParsedLiteral::String(s.clone()),
                    _ => {
                        proof {
                            assert(false);
                        }
                        ParsedLiteral::Nil
                    },
                };
                self.advance();
                Ok(LiteralExpr::lift(literal))
            },
            TokenKind::This => {
                self.advance();
                Ok(This::lift(ErrorTrackingToken::new("this", line)))
            },
            TokenKind::Super => {
                self.advance();
                let keyword = ErrorTrackingToken::new("super", line);
                if self.consume(TokenKind::Dot, "Expect '.' after 'super'.") {
                    match self.consume_identifier("Expect superclass method name.") {
                        Some(method) => Ok(Super::lift(keyword, method)),
                        None => Err(ParserError {}),
                    }
                } else {
                    Err(ParserError {})
                }
            },
            TokenKind::Identifier => {
                let name = match &self.tokens[here].token_type {
                    TokenType::Identifier(s) => IdentifierToken::new(s.clone(), line),
                    _ => {
                        proof {
                            assert(false);
                        }
                        IdentifierToken::new(String::new(), line)
                    },
                };
                self.advance();
                Ok(Variable::lift(name))
            },
            TokenKind::LeftParen => {
                self.advance();
                let expression = self.expression()?;
                if self.consume(TokenKind::RightParen, "Expect ')' after expression.") {
                    Ok(Grouping::lift(expression))
                } else {
                    Err(ParserError {})
                }
            },
            TokenKind::Comma => self.missing_lhs(1),
            TokenKind::EqualEqual | TokenKind::BangEqual => self.missing_lhs(2),
            TokenKind::Greater | TokenKind::GreaterEqual | TokenKind::Less | TokenKind::LessEqual => self.missing_lhs(3),
            TokenKind::Plus => self.missing_lhs(4),
            TokenKind::Slash | TokenKind::Star => self.missing_lhs(0),
            _ => {
                self.error(self.current, string_of("Expected expression."));
                Err(ParserError {})
            },
        }
    }

    /// A binary operator stands where an operand should start: it is
    /// reported, its right operand parsed and dropped, and parsing starts
    /// over at `expression`.
    fn missing_lhs(&mut self, level: u8) -> (res: Result<Expr, ParserError>)
        requires
            old(self).wf(),
            !at_end(old(self).toks(), old(self).state()),
            missing_lhs_level(tkind(old(self).toks(), old(self).state().pos)) == Some(level as nat),
        ensures
            final(self).follows(*old(self)),
            (eres(res), final(self).state()) == primary(old(self).toks(), old(self).state()),
            res is Ok ==> final(self).current > old(self).current,
        decreases old(self).tokens@.len() - old(self).current, 12nat,
    {
        self.advance();
        self.error(self.current, string_of("Expected expression, found binary operator"));
        if level == 0 {
            self.unary()?;
        } else {
            self.binary_level(level)?;
        }
        self.expression()
    }

    // Statements.
    #[verifier::rlimit(100)]
    #[verifier::spinoff_prover]
    fn declaration(&mut self) -> (res: Result<Stmt, ParserError>)
        requires
            old(self).wf(),
        ensures
            final(self).follows(*old(self)),
            (sres(res), final(self).state()) == declaration(old(self).toks(), old(self).state()),
            res is Ok ==> final(self).current > old(self).current,
        decreases old(self).tokens@.len() - old(self).current, 50nat,
    {
        proof {
            reveal_with_fuel(declaration, 1);
            reveal_with_fuel(class_declaration, 1);
            reveal_with_fuel(function, 1);
            reveal_with_fuel(statement, 1);
        }
        let out = if self.check(TokenKind::Class) {
            self.advance();
            self.class_declaration()
        } else if self.check(TokenKind::Fun) {
            self.advance();
            match self.function("function") {
                Ok(f) => Ok(Stmt::Function(Box::new(f))),
                Err(e) => Err(e),
            }
        } else if self.check(TokenKind::Var) {
            self.advance();
            self.var_declaration()
        } else {
            self.statement()
        };
        match out {
            Ok(stmt) => Ok(stmt),
            Err(e) => {
                self.advance();
                self.synchronize();
                Err(e)
            },
        }
    }

    fn synchronize(&mut self)
        requires
            old(self).wf(),
        ensures
            final(self).follows(*old(self)),
            final(self).state() == synchronize(old(self).toks(), old(self).state()),
        decreases old(self).tokens@.len() - old(self).current,
    {
        if self.is_at_end() || self.current == 0 {
            return;
        }
        if self.tokens[self.current - 1].token_type.kind_of() == TokenKind::Semicolon {
            return;
        }
        let k = self.tokens[self.current].token_type.kind_of();
        match k {
            TokenKind::Class | TokenKind::Fun | TokenKind::Var | TokenKind::For | TokenKind::If
            | TokenKind::While | TokenKind::Print | TokenKind::Return => {},
            _ => {
                self.advance();
                self.synchronize();
            },
        }
    }

    fn class_declaration(&mut self) -> (res: Result<Stmt, ParserError>)
        requires
            old(self).wf(),
        ensures
            final(self).follows(*old(self)),
            (sres(res), final(self).state()) == class_declaration(old(self).toks(), old(self).state()),
            res is Ok ==> final(self).current > old(self).current,
        decreases old(self).tokens@.len() - old(self).current, 45nat,
    {
        proof {
            reveal_with_fuel(class_declaration, 1);
            reveal_with_fuel(methods, 1);
        }
        let name = match self.consume_identifier("Expect class name.") {
            Some(n) => n,
            None => return Err(ParserError {}),
        };
        let superclass = if self.check(TokenKind::Less) {
            self.advance();
            match self.consume_identifier("Expect superclass name.") {
                Some(s) => Some(Variable { name: s }),
                None => return Err(ParserError {}),
            }
        } else {
            None
        };
        if !self.consume(TokenKind::LeftBrace, "Expect '{' before class body.") {
            return Err(ParserError {});
        }
        proof {
            lemma_views_empty();
        }
        let methods = self.methods(Vec::new())?;
        if self.consume(TokenKind::RightBrace, "Expect '}' after class body.") {
            Ok(Class::lift(name, superclass, methods))
        } else {
            Err(ParserError {})
        }
    }

    fn methods(&mut self, done: Vec<Function>) -> (res: Result<Vec<Function>, ParserError>)
        requires
            old(self).wf(),
        ensures
            final(self).follows(*old(self)),
            (functions_res(res), final(self).state()) == methods(old(self).toks(), old(self).state(), functions_view(done@)),
        decreases old(self).tokens@.len() - old(self).current, 44nat,
    {
        proof {
            reveal_with_fuel(methods, 1);
            reveal_with_fuel(function, 1);
        }
        let mut done = done;
        if !self.check(TokenKind::RightBrace) && !self.is_at_end() {
            let f = self.function("method")?;
            proof {
                lemma_functions_push(done@, f);
            }
            done.push(f);
            self.methods(done)
        } else {
            Ok(done)
        }
    }

    fn function(&mut self, fkind: &str) -> (res: Result<Function, ParserError>)
        requires
            old(self).wf(),
        ensures
            final(self).follows(*old(self)),
            (fres(res), final(self).state()) == function(old(self).toks(), old(self).state(), fkind@),
            res is Ok ==> final(self).current > old(self).current,
        decreases old(self).tokens@.len() - old(self).current, 43nat,
    {
        proof {
            reveal_with_fuel(function, 1);
            reveal_with_fuel(block_body, 1);
        }
        let name = match self.consume_identifier(concat3("Expect ", fkind, " name.").as_str()) {
            Some(n) => n,
            None => return Err(ParserError {}),
        };
        if !self.consume(TokenKind::LeftParen, concat3("Expect '(' after ", fkind, " name.").as_str()) {
            return Err(ParserError {});
        }
        let params = if !self.check(TokenKind::RightParen) {
            self.parameters(Vec::new())?
        } else {
            Vec::new()
        };
        if !self.consume(TokenKind::RightParen, concat3("Expect ')' after ", fkind, " parameters.").as_str()) {
            return Err(ParserError {});
        }
        if !self.consume(TokenKind::LeftBrace, concat3("Expect '{' before ", fkind, " body.").as_str()) {
            return Err(ParserError {});
        }
        if self.function_level == 255 {
            self.error(self.current - 1, string_of("Only 256 levels of function nesting are supported."));
            return Err(ParserError {});
        }
        self.function_level = self.function_level + 1;
        proof {
            lemma_views_empty();
        }
        let body = self.block_body(Vec::new());
        self.function_level = self.function_level - 1;
        let body = body?;
        Ok(Function { name, params, body })
    }

    fn parameters(&mut self, done: Vec<IdentifierToken>) -> (res: Result<Vec<IdentifierToken>, ParserError>)
        requires
            old(self).wf(),
        ensures
            final(self).follows(*old(self)),
            (params_res(res), final(self).state()) == parameters(old(self).toks(), old(self).state(), done@),
            res is Ok ==> final(self).current > old(self).current,
        decreases old(self).tokens@.len() - old(self).current,
    {
        let mut done = done;
        if done.len() >= 255 {
            self.error(self.current, string_of("Can't have more than 255 parameters."));
        }
        let param = match self.consume_identifier("Expect parameter name.") {
            Some(p) => p,
            None => return Err(ParserError {}),
        };
        done.push(param);
        if self.check(TokenKind::Comma) {
            self.advance();
            self.parameters(done)
        } else {
            Ok(done)
        }
    }

    #[verifier::rlimit(100)]
    #[verifier::spinoff_prover]
    fn var_declaration(&mut self) -> (res: Result<Stmt, ParserError>)
        requires
            old(self).wf(),
        ensures
            final(self).follows(*old(self)),
            (sres(res), final(self).state()) == var_declaration(old(self).toks(), old(self).state()),
            res is Ok ==> final(self).current > old(self).current,
        decreases old(self).tokens@.len() - old(self).current, 45nat,
    {
        let name = match self.consume_identifier("Expect variable name.") {
            Some(n) => n,
            None => return Err(ParserError {}),
        };
        let initializer = if self.check(TokenKind::Equal) {
            self.advance();
            Some(self.expression()?)
        } else {
            None
        };
        if self.consume(TokenKind::Semicolon, "Expect ';' after variable declaration.") {
            Ok(Var::lift(name, initializer))
        } else {
            Err(ParserError {})
        }
    }
    #[verifier::rlimit(100)]
    fn statement(&mut self) -> (res: Result<Stmt, ParserError>)
        requires
            old(self).wf(),
        ensures
            final(self).follows(*old(self)),
            (sres(res), final(self).state()) == statement(old(self).toks(), old(self).state()),
            res is Ok ==> final(self).current > old(self).current,
        decreases old(self).tokens@.len() - old(self).current, 48nat,
    {
        proof {
            reveal_with_fuel(statement, 1);
            reveal_with_fuel(compound_statement, 1);
        }
        if self.is_at_end() {
            return self.expression_statement();
        }
        let k = self.tokens[self.current].token_type.kind_of();
        if k == TokenKind::For || k == TokenKind::While || k == TokenKind::If || k == TokenKind::LeftBrace {
            self.advance();
            self.compound_statement(k)
        } else if k == TokenKind::Print || k == TokenKind::Return || k == TokenKind::Break {
            self.advance();
            self.simple_statement(k)
        } else {
            self.expression_statement()
        }
    }

    #[verifier::rlimit(100)]
    fn compound_statement(&mut self, k: TokenKind) -> (res: Result<Stmt, ParserError>)
        requires
            old(self).wf(),
            old(self).current >= 1,
        ensures
            final(self).follows(*old(self)),
            (sres(res), final(self).state()) == compound_statement(old(self).toks(), old(self).state(), k),
            res is Ok ==> final(self).current > old(self).current,
        decreases old(self).tokens@.len() - old(self).current, 58nat,
    {
        proof {
            reveal_with_fuel(compound_statement, 1);
            reveal_with_fuel(looping, 1);
            reveal_with_fuel(if_statement, 1);
            reveal_with_fuel(block, 1);
        }
        if k == TokenKind::For {
            self.looping(true)
        } else if k == TokenKind::While {
            self.looping(false)
        } else if k == TokenKind::If {
            self.if_statement()
        } else {
            self.block()
        }
    }

    fn simple_statement(&mut self, k: TokenKind) -> (res: Result<Stmt, ParserError>)
        requires
            old(self).wf(),
            old(self).current >= 1,
        ensures
            final(self).follows(*old(self)),
            (sres(res), final(self).state()) == simple_statement(old(self).toks(), old(self).state(), k),
            res is Ok ==> final(self).current > old(self).current,
    {
        if k == TokenKind::Print {
            self.print_statement()
        } else if k == TokenKind::Return {
            self.return_statement()
        } else {
            self.break_statement()
        }
    }

    fn looping(&mut self, is_for: bool) -> (res: Result<Stmt, ParserError>)
        requires
            old(self).wf(),
            old(self).current >= 1,
        ensures
            final(self).follows(*old(self)),
            (sres(res), final(self).state()) == looping(old(self).toks(), old(self).state(), is_for),
            res is Ok ==> final(self).current > old(self).current,
        decreases old(self).tokens@.len() - old(self).current, 47nat,
    {
        proof {
            reveal_with_fuel(looping, 1);
            reveal_with_fuel(for_statement, 1);
            reveal_with_fuel(while_statement, 1);
        }
        if self.loop_level == 255 {
            self.error(self.current - 1, string_of("Only 256 levels of loop nesting are supported."));
            return Err(ParserError {});
        }
        self.loop_level = self.loop_level + 1;
        let out = if is_for {
            self.for_statement()
        } else {
            self.while_statement()
        };
        self.loop_level = self.loop_level - 1;
        out
    }
    #[verifier::rlimit(100)]
    fn for_statement(&mut self) -> (res: Result<Stmt, ParserError>)
        requires
            old(self).wf(),
        ensures
            final(self).follows(*old(self)),
            (sres(res), final(self).state()) == for_statement(old(self).toks(), old(self).state()),
            res is Ok ==> final(self).current > old(self).current,
        decreases old(self).tokens@.len() - old(self).current, 46nat,
    {
        proof {
            reveal_with_fuel(for_statement, 1);
            reveal_with_fuel(for_rest, 1);
        }
        if !self.consume(TokenKind::LeftParen, "Expect '(' after 'for'") {
            return Err(ParserError {});
        }
        let initializer = self.for_initializer()?;
        self.for_rest(initializer)
    }

    #[verifier::rlimit(60)]
    #[verifier::spinoff_prover]
    fn for_initializer(&mut self) -> (res: Result<Option<Stmt>, ParserError>)
        requires
            old(self).wf(),
        ensures
            final(self).follows(*old(self)),
            (match res {
                Ok(Some(s)) => Some(Some(stmt_view(s))),
                Ok(None) => Some(None),
                Err(_) => None,
            }, final(self).state()) == for_initializer(old(self).toks(), old(self).state()),
            res is Ok ==> final(self).current > old(self).current,
    {
        if self.check(TokenKind::Semicolon) {
            self.advance();
            Ok(None)
        } else if self.check(TokenKind::Var) {
            self.advance();
            Ok(Some(self.var_declaration()?))
        } else {
            Ok(Some(self.expression_statement()?))
        }
    }

    #[verifier::rlimit(100)]
    #[verifier::spinoff_prover]
    fn for_rest(&mut self, initializer: Option<Stmt>) -> (res: Result<Stmt, ParserError>)
        requires
            old(self).wf(),
        ensures
            final(self).follows(*old(self)),
            (sres(res), final(self).state()) == for_rest(
                old(self).toks(),
                old(self).state(),
                match initializer {
                    Some(s) => Some(stmt_view(s)),
                    None => None,
                },
            ),
            res is Ok ==> final(self).current > old(self).current,
        decreases old(self).tokens@.len() - old(self).current, 45nat,
    {
        proof {
            reveal_with_fuel(for_rest, 1);
            reveal_with_fuel(for_body, 1);
        }
        let condition = if !self.check(TokenKind::Semicolon) {
            self.expression()?
        } else {
            LiteralExpr::lift(ParsedLiteral::True)
        };
        if !self.consume(TokenKind::Semicolon, "Expect ';' after for loop condition") {
            return Err(ParserError {});
        }
        let increment = if !self.check(TokenKind::RightParen) {
            Some(self.expression()?)
        } else {
            None
        };
        if !self.consume(TokenKind::RightParen, "Expect ')' after for loop clauses") {
            return Err(ParserError {});
        }
        self.for_body(initializer, condition, increment)
    }

    #[verifier::rlimit(100)]
    #[verifier::spinoff_prover]
    fn for_body(&mut self, initializer: Option<Stmt>, condition: Expr, increment: Option<Expr>) -> (res: Result<Stmt, ParserError>)
        requires
            old(self).wf(),
        ensures
            final(self).follows(*old(self)),
            (sres(res), final(self).state()) == for_body(
                old(self).toks(),
                old(self).state(),
                match initializer {
                    Some(s) => Some(stmt_view(s)),
                    None => None,
                },
                expr_view(condition),
                opt_expr_view(increment),
            ),
            res is Ok ==> final(self).current > old(self).current,
        decreases old(self).tokens@.len() - old(self).current, 49nat,
    {
        proof {
            reveal_with_fuel(for_body, 1);
            reveal_with_fuel(statement, 1);
        }
        let body_stmt = self.statement()?;
        Ok(make_for_loop(initializer, condition, increment, body_stmt))
    }
    #[verifier::rlimit(100)]
    fn if_statement(&mut self) -> (res: Result<Stmt, ParserError>)
        requires
            old(self).wf(),
        ensures
            final(self).follows(*old(self)),
            (sres(res), final(self).state()) == if_statement(old(self).toks(), old(self).state()),
            res is Ok ==> final(self).current > old(self).current,
        decreases old(self).tokens@.len() - old(self).current, 46nat,
    {
        proof {
            reveal_with_fuel(if_statement, 1);
            reveal_with_fuel(if_branches, 1);
        }
        if !self.consume(TokenKind::LeftParen, "Expect '(' after 'if'") {
            return Err(ParserError {});
        }
        let condition = self.expression()?;
        if !self.consume(TokenKind::RightParen, "Expect ')' 'if' condition") {
            return Err(ParserError {});
        }
        self.if_branches(condition)
    }

    #[verifier::rlimit(100)]
    fn if_branches(&mut self, condition: Expr) -> (res: Result<Stmt, ParserError>)
        requires
            old(self).wf(),
        ensures
            final(self).follows(*old(self)),
            (sres(res), final(self).state()) == if_branches(old(self).toks(), old(self).state(), expr_view(condition)),
            res is Ok ==> final(self).current > old(self).current,
        decreases old(self).tokens@.len() - old(self).current, 49nat,
    {
        proof {
            reveal_with_fuel(if_branches, 1);
            reveal_with_fuel(statement, 1);
        }
        let then_branch = self.statement()?;
        let else_branch = if self.check(TokenKind::Else) {
            self.advance();
            Some(self.statement()?)
        } else {
            None
        };
        Ok(If::lift(condition, then_branch, else_branch))
    }

    fn print_statement(&mut self) -> (res: Result<Stmt, ParserError>)
        requires
            old(self).wf(),
        ensures
            final(self).follows(*old(self)),
            (sres(res), final(self).state()) == print_statement(old(self).toks(), old(self).state()),
            res is Ok ==> final(self).current > old(self).current,
        decreases old(self).tokens@.len() - old(self).current, 40nat,
    {
        let expression = self.expression()?;
        if self.consume(TokenKind::Semicolon, "Expect ';' after value.") {
            Ok(Print::lift(expression))
        } else {
            Err(ParserError {})
        }
    }

    fn return_statement(&mut self) -> (res: Result<Stmt, ParserError>)
        requires
            old(self).wf(),
            old(self).current >= 1,
        ensures
            final(self).follows(*old(self)),
            (sres(res), final(self).state()) == return_statement(old(self).toks(), old(self).state()),
            res is Ok ==> final(self).current > old(self).current,
        decreases old(self).tokens@.len() - old(self).current, 40nat,
    {
        let keyword_line = self.tokens[self.current - 1].line;
        if self.function_level > 0 {
            let token = ErrorTrackingToken::new("return", keyword_line);
            let value = if !self.check(TokenKind::Semicolon) {
                Some(self.expression()?)
            } else {
                None
            };
            if self.consume(TokenKind::Semicolon, "Expect ';' after return.") {
                Ok(Return::lift(token, value))
            } else {
                Err(ParserError {})
            }
        } else {
            self.error(self.current - 1, string_of("return statement must occur inside function body"));
            Err(ParserError {})
        }
    }
    #[verifier::rlimit(100)]
    #[verifier::spinoff_prover]
    fn while_statement(&mut self) -> (res: Result<Stmt, ParserError>)
        requires
            old(self).wf(),
        ensures
            final(self).follows(*old(self)),
            (sres(res), final(self).state()) == while_statement(old(self).toks(), old(self).state()),
            res is Ok ==> final(self).current > old(self).current,
        decreases old(self).tokens@.len() - old(self).current, 46nat,
    {
        proof {
            reveal_with_fuel(while_statement, 1);
            reveal_with_fuel(statement, 1);
        }
        if !self.consume(TokenKind::LeftParen, "Expect '(' before if's condition.") {
            return Err(ParserError {});
        }
        let condition = self.expression()?;
        if !self.consume(TokenKind::RightParen, "Expect ')' after if's condition.") {
            return Err(ParserError {});
        }
        let body = self.statement()?;
        Ok(While::lift(condition, body))
    }

    fn break_statement(&mut self) -> (res: Result<Stmt, ParserError>)
        requires
            old(self).wf(),
            old(self).current >= 1,
        ensures
            final(self).follows(*old(self)),
            (sres(res), final(self).state()) == break_statement(old(self).toks(), old(self).state()),
            res is Ok ==> final(self).current > old(self).current,
    {
        if self.loop_level > 0 {
            if self.consume(TokenKind::Semicolon, "Expect ';' after break") {
                Ok(Break::lift())
            } else {
                Err(ParserError {})
            }
        } else {
            self.error(self.current - 1, string_of("Expect 'break' inside loop."));
            Err(ParserError {})
        }
    }

    #[verifier::rlimit(100)]
    #[verifier::spinoff_prover]
    fn block(&mut self) -> (res: Result<Stmt, ParserError>)
        requires
            old(self).wf(),
        ensures
            final(self).follows(*old(self)),
            (sres(res), final(self).state()) == block(old(self).toks(), old(self).state()),
            res is Ok ==> final(self).current > old(self).current,
        decreases old(self).tokens@.len() - old(self).current, 57nat,
    {
        proof {
            reveal_with_fuel(block, 1);
            reveal_with_fuel(block_body, 1);
        }
        proof {
            lemma_views_empty();
        }
        let statements = self.block_body(Vec::new())?;
        Ok(Block::lift(statements))
    }

    fn block_body(&mut self, done: Vec<Stmt>) -> (res: Result<Vec<Stmt>, ParserError>)
        requires
            old(self).wf(),
        ensures
            final(self).follows(*old(self)),
            (stmts_res(res), final(self).state()) == block_body(old(self).toks(), old(self).state(), stmts_view(done@)),
            res is Ok ==> final(self).current > old(self).current,
        decreases old(self).tokens@.len() - old(self).current, 56nat,
    {
        proof {
            reveal_with_fuel(block_body, 1);
            reveal_with_fuel(declaration, 1);
        }
        let mut done = done;
        if !self.check(TokenKind::RightBrace) && !self.is_at_end() {
            let stmt = self.declaration()?;
            proof {
                lemma_stmts_push(done@, stmt);
            }
            done.push(stmt);
            self.block_body(done)
        } else if self.consume(TokenKind::RightBrace, "Expect '}' after block.") {
            Ok(done)
        } else {
            Err(ParserError {})
        }
    }

    fn expression_statement(&mut self) -> (res: Result<Stmt, ParserError>)
        requires
            old(self).wf(),
        ensures
            final(self).follows(*old(self)),
            (sres(res), final(self).state()) == expression_statement(old(self).toks(), old(self).state()),
            res is Ok ==> final(self).current > old(self).current,
        decreases old(self).tokens@.len() - old(self).current, 40nat,
    {
        let expression = self.expression()?;
        if self.consume(TokenKind::Semicolon, "Expect ';' after value.") {
            Ok(StmtExpression::lift(expression))
        } else {
            Err(ParserError {})
        }
    }

    fn program(&mut self, done: Vec<Stmt>) -> (res: Result<Vec<Stmt>, ParserError>)
        requires
            old(self).wf(),
        ensures
            final(self).follows(*old(self)),
            (stmts_res(res), final(self).state()) == program(old(self).toks(), old(self).state(), stmts_view(done@)),
        decreases old(self).tokens@.len() - old(self).current, 60nat,
    {
        proof {
            reveal_with_fuel(program, 1);
            reveal_with_fuel(declaration, 1);
        }
        let mut done = done;
        if !self.is_at_end() {
            let stmt = self.declaration()?;
            proof {
                lemma_stmts_push(done@, stmt);
            }
            done.push(stmt);
            self.program(done)
        } else {
            Ok(done)
        }
    }
}

/// Parses a program: declarations up to `Eof`. The errors reported are
/// appended to `error_writer`, and the parse fails when there is any.
pub fn parse(tokens: Vec<Token>, error_writer: &mut Vec<ParseError>) -> (res: Result<Vec<Stmt>, ParserError>)
    requires
        tokens_wf(tokens@),
    ensures
        ({
            let (r, st) = program(tokens@, initial(), Seq::empty());
            &&& (res is Ok <==> (r is Some && st.errors.len() == 0))
            &&& (res matches Ok(v) ==> stmts_view(v@) == r->0)
            &&& reports_view(final(error_writer)@) == reports_view(old(error_writer)@) + st.errors
        }),
{
    parse_slice(tokens.as_slice(), error_writer)
}

#[verifier::rlimit(100)]
fn parse_slice(tokens: &[Token], error_writer: &mut Vec<ParseError>) -> (res: Result<Vec<Stmt>, ParserError>)
    requires
        tokens_wf(tokens@),
    ensures
        ({
            let (r, st) = program(tokens@, initial(), Seq::empty());
            &&& (res is Ok <==> (r is Some && st.errors.len() == 0))
            &&& (res matches Ok(v) ==> stmts_view(v@) == r->0)
            &&& reports_view(final(error_writer)@) == reports_view(old(error_writer)@) + st.errors
        }),
{
    proof {
        reveal(reports_view);
    }
    proof {
        reveal_with_fuel(program, 1);
    }
    let mut parser = Parser::new(tokens);
    proof {
        lemma_views_empty();
    }
    let out = parser.program(Vec::new());
    let failed = parser.errors.len() > 0;
    let ghost before = error_writer@;
    let ghost errs = parser.errors@;
    error_writer.append(&mut parser.errors);
    proof {
        assert(reports_view(error_writer@) =~= reports_view(before) + reports_view(errs));
    }
    if failed {
        Err(ParserError {})
    } else {
        out
    }
}

/// Parses one expression, which must take all the tokens; the parse fails
/// when any error was reported.
pub fn parse_expression(tokens: Vec<Token>, error_writer: &mut Vec<ParseError>) -> (res: Result<Expr, ParserError>)
    requires
        tokens_wf(tokens@),
    ensures
        ({
            let (r, st) = expression(tokens@, initial());
            &&& (res is Ok <==> (r is Some && at_end(tokens@, st) && st.errors.len() == 0))
            &&& (res matches Ok(e) ==> expr_view(e) == r->0)
            &&& reports_view(final(error_writer)@) == reports_view(old(error_writer)@) + st.errors
        }),
{
    parse_expression_slice(tokens.as_slice(), error_writer)
}

fn parse_expression_slice(tokens: &[Token], error_writer: &mut Vec<ParseError>) -> (res: Result<Expr, ParserError>)
    requires
        tokens_wf(tokens@),
    ensures
        ({
            let (r, st) = expression(tokens@, initial());
            &&& (res is Ok <==> (r is Some && at_end(tokens@, st) && st.errors.len() == 0))
            &&& (res matches Ok(e) ==> expr_view(e) == r->0)
            &&& reports_view(final(error_writer)@) == reports_view(old(error_writer)@) + st.errors
        }),
{
    proof {
        reveal(reports_view);
    }
    let mut parser = Parser::new(tokens);
    let out = parser.expression();
    let at_end = parser.is_at_end() && parser.errors.len() == 0;
    let ghost before = error_writer@;
    let ghost errs = parser.errors@;
    error_writer.append(&mut parser.errors);
    proof {
        assert(reports_view(error_writer@) =~= reports_view(before) + reports_view(errs));
    }
    match out {
        Ok(expr) => if at_end {
            Ok(expr)
        } else {
            Err(ParserError {})
        },
        Err(e) => Err(e),
    }
}

/// What a line typed at the prompt is: statements, or else one expression.
#[derive(Debug, PartialEq)]
pub enum ReplParseOutput {
    Statements(Vec<Stmt>),
    Expr(Expr),
}

/// Parses a line typed at the prompt: as a program if it is one, else as
/// one expression. When it is neither, the errors of the program parse are
/// reported.
pub fn parse_for_repl(tokens: Vec<Token>, error_writer: &mut Vec<ParseError>) -> (res: Result<ReplParseOutput, ParserError>)
    requires
        tokens_wf(tokens@),
    ensures
        ({
            let (r1, st1) = program(tokens@, initial(), Seq::empty());
            let (r2, st2) = expression(tokens@, initial());
            if r1 is Some && st1.errors.len() == 0 {
                &&& res matches Ok(ReplParseOutput::Statements(v)) && stmts_view(v@) == r1->0
                &&& final(error_writer)@ == old(error_writer)@
            } else if r2 is Some && at_end(tokens@, st2) && st2.errors.len() == 0 {
                &&& res matches Ok(ReplParseOutput::Expr(e)) && expr_view(e) == r2->0
                &&& final(error_writer)@ == old(error_writer)@
            } else {
                &&& res is Err
                &&& reports_view(final(error_writer)@) == reports_view(old(error_writer)@) + st1.errors
            }
        }),
{
    proof {
        reveal(reports_view);
    }
    let mut statement_errors: Vec<ParseError> = Vec::new();
    match parse_slice(tokens.as_slice(), &mut statement_errors) {
        Ok(statements) => Ok(ReplParseOutput::Statements(statements)),
        Err(statement_error) => {
            let mut sink: Vec<ParseError> = Vec::new();
            match parse_expression_slice(tokens.as_slice(), &mut sink) {
                Ok(expr) => Ok(ReplParseOutput::Expr(expr)),
                Err(_) => {
                    let ghost before = error_writer@;
                    let ghost errs = statement_errors@;
                    error_writer.append(&mut statement_errors);
                    proof {
                        assert(reports_view(error_writer@) =~= reports_view(before) + reports_view(errs));
                        assert(reports_view(Seq::<ParseError>::empty()) =~= Seq::<Report>::empty());
                    }
                    Err(statement_error)
                },
            }
        },
    }
}

} // verus!
