//! The bytecode compiler: a Pratt parser over the scanner's tokens that
//! writes into a chunk the code of one expression (`compile`), or of a
//! program of `print` and expression statements (`compile_program`),
//! followed by `Return`. What it writes is specified by `compile_emits` and
//! `program_emits`, a Pratt parser written as spec functions over the token
//! stream. A scanning error puts the parser in panic mode: the compile fails
//! and no parse error is reported after it.

use vstd::prelude::*;
use vstd::string::StrSliceExecFns;

use crate::bytecode::{constant_index_for, index_bytes, lemma_op_byte_roundtrip, op_byte, Chunk, ConstantIndex, OpCode, MAX_CONSTANT_INDEX};
use crate::debug::{decodable_from, lemma_decodable_append, next_offset, operand_value, operand_width, readable_at};
use crate::scanner::token::{Token, TokenType};
use crate::scanner::{
    count_newlines, eof_token, newlines, queue_matches, run_until_output, terminate, Event, ScanError, Scanner, SpecToken, StateMachine,
};
use crate::value::heap::{string_limit, Heap};
use crate::value::Value;
use crate::vm::valid_value;

verus! {

/// A compile error: a scanning error, or a parse error at a token (`None`
/// for the end of the source) with its message.
#[derive(Debug)]
pub enum CompileError {
    Scan(ScanError),
    Parse { line: u32, at: Option<String>, message: String },
}

/// Binding strength, weakest first.
#[derive(Debug, PartialEq, Eq, Clone, Copy, Structural)]
pub enum Precedence {
    Assignment,
    Or,
    And,
    Equality,
    Comparison,
    Term,
    Factor,
    Unary,
    Call,
    Primary,
}

pub open spec fn precedence_rank(p: Precedence) -> u8 {
    match p {
        Precedence::Assignment => 0,
        Precedence::Or => 1,
        Precedence::And => 2,
        Precedence::Equality => 3,
        Precedence::Comparison => 4,
        Precedence::Term => 5,
        Precedence::Factor => 6,
        Precedence::Unary => 7,
        Precedence::Call => 8,
        Precedence::Primary => 9,
    }
}

impl Precedence {
    pub fn to_u8(self) -> (res: u8)
        ensures
            res == precedence_rank(self),
    {
        match self {
            Precedence::Assignment => 0,
            Precedence::Or => 1,
            Precedence::And => 2,
            Precedence::Equality => 3,
            Precedence::Comparison => 4,
            Precedence::Term => 5,
            Precedence::Factor => 6,
            Precedence::Unary => 7,
            Precedence::Call => 8,
            Precedence::Primary => 9,
        }
    }
}

/// What a token does at the start of an expression.
#[derive(Debug, PartialEq, Eq, Clone, Copy, Structural)]
pub enum PrefixRule {
    Grouping,
    Unary,
    Number,
    String,
    Literal,
}

/// How a token parses: its prefix rule, and whether it is a binary operator,
/// with its precedence.
#[derive(Debug, PartialEq, Eq, Clone, Copy, Structural)]
pub struct ParseRule {
    pub prefix: Option<PrefixRule>,
    pub infix_precedence: Option<Precedence>,
}

pub open spec fn parse_rule(t: TokenType) -> ParseRule {
    match t {
        TokenType::LeftParen => ParseRule { prefix: Some(PrefixRule::Grouping), infix_precedence: None },
        TokenType::Minus => ParseRule { prefix: Some(PrefixRule::Unary), infix_precedence: Some(Precedence::Term) },
        TokenType::Plus => ParseRule { prefix: None, infix_precedence: Some(Precedence::Term) },
        TokenType::Slash => ParseRule { prefix: None, infix_precedence: Some(Precedence::Factor) },
        TokenType::Star => ParseRule { prefix: None, infix_precedence: Some(Precedence::Factor) },
        TokenType::Bang => ParseRule { prefix: Some(PrefixRule::Unary), infix_precedence: None },
        TokenType::BangEqual => ParseRule { prefix: None, infix_precedence: Some(Precedence::Equality) },
        TokenType::EqualEqual => ParseRule { prefix: None, infix_precedence: Some(Precedence::Equality) },
        TokenType::Greater => ParseRule { prefix: None, infix_precedence: Some(Precedence::Comparison) },
        TokenType::GreaterEqual => ParseRule { prefix: None, infix_precedence: Some(Precedence::Comparison) },
        TokenType::Less => ParseRule { prefix: None, infix_precedence: Some(Precedence::Comparison) },
        TokenType::LessEqual => ParseRule { prefix: None, infix_precedence: Some(Precedence::Comparison) },
        TokenType::String => ParseRule { prefix: Some(PrefixRule::String), infix_precedence: None },
        TokenType::Number => ParseRule { prefix: Some(PrefixRule::Number), infix_precedence: None },
        TokenType::False => ParseRule { prefix: Some(PrefixRule::Literal), infix_precedence: None },
        TokenType::Nil => ParseRule { prefix: Some(PrefixRule::Literal), infix_precedence: None },
        TokenType::True => ParseRule { prefix: Some(PrefixRule::Literal), infix_precedence: None },
        _ => ParseRule { prefix: None, infix_precedence: None },
    }
}

impl ParseRule {
    /// The parse rule of a token type.
    pub fn from_token_type(token_type: TokenType) -> (res: ParseRule)
        ensures
            res == parse_rule(token_type),
    {
        match token_type {
            TokenType::LeftParen => ParseRule { prefix: Some(PrefixRule::Grouping), infix_precedence: None },
            TokenType::Minus => ParseRule { prefix: Some(PrefixRule::Unary), infix_precedence: Some(Precedence::Term) },
            TokenType::Plus => ParseRule { prefix: None, infix_precedence: Some(Precedence::Term) },
            TokenType::Slash => ParseRule { prefix: None, infix_precedence: Some(Precedence::Factor) },
            TokenType::Star => ParseRule { prefix: None, infix_precedence: Some(Precedence::Factor) },
            TokenType::Bang => ParseRule { prefix: Some(PrefixRule::Unary), infix_precedence: None },
            TokenType::BangEqual => ParseRule { prefix: None, infix_precedence: Some(Precedence::Equality) },
            TokenType::EqualEqual => ParseRule { prefix: None, infix_precedence: Some(Precedence::Equality) },
            TokenType::Greater => ParseRule { prefix: None, infix_precedence: Some(Precedence::Comparison) },
            TokenType::GreaterEqual => ParseRule { prefix: None, infix_precedence: Some(Precedence::Comparison) },
            TokenType::Less => ParseRule { prefix: None, infix_precedence: Some(Precedence::Comparison) },
            TokenType::LessEqual => ParseRule { prefix: None, infix_precedence: Some(Precedence::Comparison) },
            TokenType::String => ParseRule { prefix: Some(PrefixRule::String), infix_precedence: None },
            TokenType::Number => ParseRule { prefix: Some(PrefixRule::Number), infix_precedence: None },
            TokenType::False => ParseRule { prefix: Some(PrefixRule::Literal), infix_precedence: None },
            TokenType::Nil => ParseRule { prefix: Some(PrefixRule::Literal), infix_precedence: None },
            TokenType::True => ParseRule { prefix: Some(PrefixRule::Literal), infix_precedence: None },
            _ => ParseRule { prefix: None, infix_precedence: None },
        }
    }
}

/// The code a binary operator compiles to.
pub open spec fn binary_ops(t: TokenType) -> Seq<OpCode> {
    match t {
        TokenType::BangEqual => seq![OpCode::Equal, OpCode::Not],
        TokenType::EqualEqual => seq![OpCode::Equal],
        TokenType::Greater => seq![OpCode::Greater],
        TokenType::GreaterEqual => seq![OpCode::Less, OpCode::Not],
        TokenType::Less => seq![OpCode::Less],
        TokenType::LessEqual => seq![OpCode::Greater, OpCode::Not],
        TokenType::Plus => seq![OpCode::Add],
        TokenType::Minus => seq![OpCode::Subtract],
        TokenType::Star => seq![OpCode::Multiply],
        _ => seq![OpCode::Divide],
    }
}

/// What the compiler writes for one step: an instruction without operand, or
/// the constant made from the literal token at a position.
pub enum Emit {
    /// An instruction without operand, written on the line of the token at
    /// the given position.
    Op(OpCode, usize),
    /// The load of the constant made from the literal token at the given
    /// position, written on that token's line.
    Lit(usize),
}

/// The position of the token on whose line `e` is written.
pub open spec fn emit_at(e: Emit) -> int {
    match e {
        Emit::Op(_, at) => at as int,
        Emit::Lit(i) => i as int,
    }
}

/// What the compiler reads of a token: its type, its line, its text, and
/// whether scanning failed just before it.
pub struct TokView {
    pub kind: TokenType,
    pub line: u32,
    pub lexeme: Seq<char>,
    pub after_error: bool,
}

/// The tokens as the compiler reads them.
pub open spec fn views(ts: Seq<ScannedToken>) -> Seq<TokView> {
    Seq::new(
        ts.len(),
        |i: int| TokView {
            kind: ts[i].token.token_type,
            line: ts[i].token.line,
            lexeme: ts[i].token.lexeme@,
            after_error: ts[i].after_error,
        },
    )
}

/// The type of the token at `i`.
pub open spec fn kind(ts: Seq<TokView>, i: int) -> TokenType {
    ts[i].kind
}

/// Where the compiler stands after passing the token at `pos` (it never
/// passes `Eof`).
pub open spec fn after(ts: Seq<TokView>, pos: int) -> int {
    if 0 <= pos < ts.len() && kind(ts, pos) != TokenType::Eof {
        pos + 1
    } else {
        pos
    }
}

pub open spec fn unary_op(t: TokenType) -> OpCode {
    if t == TokenType::Minus {
        OpCode::Negate
    } else {
        OpCode::Not
    }
}

pub open spec fn literal_op(t: TokenType) -> OpCode {
    if t == TokenType::False {
        OpCode::False
    } else if t == TokenType::True {
        OpCode::True
    } else {
        OpCode::Nil
    }
}

/// The instructions a binary operator compiles to, on the line of the token
/// at `at` (the last of its right operand).
pub open spec fn binary_emits(t: TokenType, at: usize) -> Seq<Emit> {
    match t {
        TokenType::BangEqual => seq![Emit::Op(OpCode::Equal, at), Emit::Op(OpCode::Not, at)],
        TokenType::EqualEqual => seq![Emit::Op(OpCode::Equal, at)],
        TokenType::Greater => seq![Emit::Op(OpCode::Greater, at)],
        TokenType::GreaterEqual => seq![Emit::Op(OpCode::Less, at), Emit::Op(OpCode::Not, at)],
        TokenType::Less => seq![Emit::Op(OpCode::Less, at)],
        TokenType::LessEqual => seq![Emit::Op(OpCode::Greater, at), Emit::Op(OpCode::Not, at)],
        TokenType::Plus => seq![Emit::Op(OpCode::Add, at)],
        TokenType::Minus => seq![Emit::Op(OpCode::Subtract, at)],
        TokenType::Star => seq![Emit::Op(OpCode::Multiply, at)],
        _ => seq![Emit::Op(OpCode::Divide, at)],
    }
}

/// Pratt parsing from the token at `pos` with binding strength at least
/// `prec`: what is written and where parsing stops, or `None` when the
/// tokens there do not form an expression.
pub open spec fn parse_prec(ts: Seq<TokView>, pos: int, prec: nat) -> Option<(Seq<Emit>, int)>
    decreases ts.len() - pos, 2nat,
{
    if pos < 0 || pos >= ts.len() {
        None
    } else {
        match parse_rule(kind(ts, pos)).prefix {
            None => None,
            Some(rule) => match prefix_emits(ts, pos, rule) {
                None => None,
                Some((items, c)) => if pos < c <= ts.len() {
                    infix_emits(ts, c, prec, items)
                } else {
                    None
                },
            },
        }
    }
}

/// The prefix rule `rule` of the token at `prev`.
pub open spec fn prefix_emits(ts: Seq<TokView>, prev: int, rule: PrefixRule) -> Option<(Seq<Emit>, int)>
    decreases ts.len() - prev, 1nat,
{
    if prev < 0 || prev >= ts.len() {
        None
    } else {
        match rule {
            PrefixRule::Grouping => match parse_prec(ts, prev + 1, 0) {
                Some((items, c)) => if 0 <= c < ts.len() && kind(ts, c) == TokenType::RightParen {
                    Some((items, after(ts, c)))
                } else {
                    None
                },
                None => None,
            },
            PrefixRule::Unary => match parse_prec(ts, prev + 1, 7) {
                Some((items, c)) => Some((items.push(Emit::Op(unary_op(kind(ts, prev)), (c - 1) as usize)), c)),
                None => None,
            },
            PrefixRule::Number => Some((seq![Emit::Lit(prev as usize)], prev + 1)),
            PrefixRule::String => Some((seq![Emit::Lit(prev as usize)], prev + 1)),
            PrefixRule::Literal => Some((seq![Emit::Op(literal_op(kind(ts, prev)), prev as usize)], prev + 1)),
        }
    }
}

/// The binary operators from `cur` on that bind at least as strongly as
/// `prec`, each with its right operand, after the code `acc` of the left one.
pub open spec fn infix_emits(ts: Seq<TokView>, cur: int, prec: nat, acc: Seq<Emit>) -> Option<(Seq<Emit>, int)>
    decreases ts.len() - cur, 3nat,
{
    if cur < 0 || cur >= ts.len() {
        None
    } else {
        match parse_rule(kind(ts, cur)).infix_precedence {
            None => Some((acc, cur)),
            Some(p) => if prec > precedence_rank(p) {
                Some((acc, cur))
            } else {
                match parse_prec(ts, cur + 1, (precedence_rank(p) + 1) as nat) {
                    None => None,
                    Some((items, c)) => if cur < c <= ts.len() {
                        infix_emits(ts, c, prec, acc + items + binary_emits(kind(ts, cur), (c - 1) as usize))
                    } else {
                        None
                    },
                }
            },
        }
    }
}

/// What a whole token stream compiles to: one expression, the end, and
/// `Return`.
pub open spec fn compile_emits(ts: Seq<TokView>) -> Option<Seq<Emit>> {
    match parse_prec(ts, 0, 0) {
        Some((items, c)) => if 0 <= c < ts.len() && kind(ts, c) == TokenType::Eof {
            Some(items.push(Emit::Op(OpCode::Return, c as usize)))
        } else {
            None
        },
        None => None,
    }
}

/// One statement at `pos`: a `print` statement is its expression and
/// `Print`, an expression statement its expression and `Pop`; each ends with
/// `;`. What is written and where the next statement starts.
pub open spec fn stmt_emits(ts: Seq<TokView>, pos: int) -> Option<(Seq<Emit>, int)> {
    let print = 0 <= pos < ts.len() && kind(ts, pos) == TokenType::Print;
    let start = if print {
        pos + 1
    } else {
        pos
    };
    match parse_prec(ts, start, 0) {
        Some((items, c)) => if 0 <= c < ts.len() && kind(ts, c) == TokenType::Semicolon {
            Some((items.push(Emit::Op(if print { OpCode::Print } else { OpCode::Pop }, c as usize)), c + 1))
        } else {
            None
        },
        None => None,
    }
}

/// What a program compiles to: its statements from `pos` on, in order, then
/// `Return` at the end.
pub open spec fn program_emits(ts: Seq<TokView>, pos: int) -> Option<Seq<Emit>>
    decreases ts.len() - pos,
{
    if pos < 0 || pos >= ts.len() {
        None
    } else if kind(ts, pos) == TokenType::Eof {
        Some(seq![Emit::Op(OpCode::Return, (if pos > 0 { pos - 1 } else { 0 }) as usize)])
    } else {
        match stmt_emits(ts, pos) {
            Some((items, n)) => if pos < n <= ts.len() {
                match program_emits(ts, n) {
                    Some(rest) => Some(items + rest),
                    None => None,
                }
            } else {
                None
            },
            None => None,
        }
    }
}

/// The code that loads constant number `k`.
pub open spec fn constant_code(k: nat) -> Seq<u8> {
    seq![op_byte(if k <= 0xFF { OpCode::Constant } else { OpCode::ConstantLong })] + index_bytes(constant_index_for(k))
}

/// The positions of the literal tokens among `items`, in order.
pub open spec fn lits(items: Seq<Emit>) -> Seq<usize>
    decreases items.len(),
{
    if items.len() == 0 {
        Seq::empty()
    } else {
        match items.last() {
            Emit::Lit(i) => lits(items.drop_last()).push(i),
            Emit::Op(..) => lits(items.drop_last()),
        }
    }
}

/// The bytes of `items` when the first literal among them becomes constant
/// number `k0`.
pub open spec fn encode(items: Seq<Emit>, k0: nat) -> Seq<u8>
    decreases items.len(),
{
    if items.len() == 0 {
        Seq::empty()
    } else {
        let init = items.drop_last();
        encode(init, k0) + match items.last() {
            Emit::Op(o, _) => seq![op_byte(o)],
            Emit::Lit(_) => constant_code(k0 + lits(init).len()),
        }
    }
}

/// A bound on the bytes `items` encode to: one per instruction, four per
/// constant load.
pub open spec fn weight(items: Seq<Emit>) -> nat
    decreases items.len(),
{
    if items.len() == 0 {
        0
    } else {
        weight(items.drop_last()) + match items.last() {
            Emit::Op(..) => 1nat,
            Emit::Lit(_) => 4nat,
        }
    }
}

/// A line kept below `usize::MAX`, the largest a chunk records.
pub open spec fn clamp_line(l: nat) -> nat {
    if l >= usize::MAX {
        (usize::MAX - 1) as nat
    } else {
        l
    }
}

/// The line the last of `items` is written on, after code whose last line
/// is `last`: the line of the item's token, unless an earlier line is
/// greater (lines never fall).
pub open spec fn run_line(ts: Seq<TokView>, items: Seq<Emit>, last: nat) -> nat
    decreases items.len(),
{
    if items.len() == 0 {
        last
    } else {
        let before = run_line(ts, items.drop_last(), last);
        let l = clamp_line(ts[emit_at(items.last())].line as nat);
        if l < before {
            before
        } else {
            l
        }
    }
}

/// The line of each byte of `items` (see `encode`), after code whose last
/// line is `last`.
pub open spec fn encode_lines(ts: Seq<TokView>, items: Seq<Emit>, k0: nat, last: nat) -> Seq<usize>
    decreases items.len(),
{
    if items.len() == 0 {
        Seq::empty()
    } else {
        let init = items.drop_last();
        let width = match items.last() {
            Emit::Op(..) => 1nat,
            Emit::Lit(_) => constant_code(k0 + lits(init).len()).len(),
        };
        encode_lines(ts, init, k0, last) + Seq::new(width, |i: int| run_line(ts, items, last) as usize)
    }
}

/// The machine's limits leave room to write `items` after what `chunk` and
/// `heap` hold: the code stays countable, every constant stays nameable by
/// an instruction, and the heap takes one more string per literal.
pub open spec fn room_for(chunk: Chunk, heap: Heap, items: Seq<Emit>) -> bool {
    &&& chunk.spec_code().len() + weight(items) < usize::MAX - 8
    &&& chunk.spec_constants().len() + lits(items).len() <= MAX_CONSTANT_INDEX + 1
    &&& heap.spec_strings().len() + lits(items).len() < string_limit()
}

proof fn lemma_weight_lits_concat(a: Seq<Emit>, b: Seq<Emit>)
    ensures
        weight(a + b) == weight(a) + weight(b),
        lits(a + b) == lits(a) + lits(b),
    decreases b.len(),
{
    if b.len() == 0 {
        assert(a + b =~= a);
        assert(lits(a) + lits(b) =~= lits(a));
    } else {
        lemma_weight_lits_concat(a, b.drop_last());
        assert((a + b).drop_last() =~= a + b.drop_last());
        assert(lits(a) + lits(b.drop_last()).push(b.last()->Lit_0) =~= (lits(a) + lits(b.drop_last())).push(b.last()->Lit_0));
    }
}

proof fn lemma_encode_concat_len(a: Seq<Emit>, b: Seq<Emit>, k0: nat)
    ensures
        encode(a + b, k0).len() <= encode(a, k0).len() + weight(b),
    decreases b.len(),
{
    if b.len() == 0 {
        assert(a + b =~= a);
    } else {
        lemma_encode_concat_len(a, b.drop_last(), k0);
        assert((a + b).drop_last() =~= a + b.drop_last());
    }
}

/// Room for `done + next + more` after `chunk0`, `heap0` is room for `next`
/// once `done` is written.
proof fn lemma_room_split(
    chunk0: Chunk,
    heap0: Heap,
    chunk1: Chunk,
    heap1: Heap,
    done: Seq<Emit>,
    next: Seq<Emit>,
    total: Seq<Emit>,
)
    requires
        room_for(chunk0, heap0, total),
        done.len() + next.len() <= total.len(),
        total.subrange(0, (done.len() + next.len()) as int) == done + next,
        chunk1.spec_code().len() <= chunk0.spec_code().len() + weight(done),
        chunk1.spec_constants().len() <= chunk0.spec_constants().len() + lits(done).len(),
        heap1.spec_strings().len() <= heap0.spec_strings().len() + lits(done).len(),
    ensures
        room_for(chunk1, heap1, next),
{
    let k = done.len() + next.len();
    lemma_weight_lits_concat(done, next);
    lemma_weight_lits_concat(done + next, total.subrange(k as int, total.len() as int));
    assert(total =~= (done + next) + total.subrange(k as int, total.len() as int));
}

/// The prefix of `w` that a run of binary operators starts from.
proof fn lemma_infix_prefix(ts: Seq<TokView>, cur: int, prec: nat, acc: Seq<Emit>)
    requires
        infix_emits(ts, cur, prec, acc) is Some,
    ensures
        acc.len() <= (infix_emits(ts, cur, prec, acc)->0).0.len(),
        (infix_emits(ts, cur, prec, acc)->0).0.subrange(0, acc.len() as int) == acc,
    decreases ts.len() - cur,
{
    match parse_rule(kind(ts, cur)).infix_precedence {
        None => {
            assert(acc.subrange(0, acc.len() as int) =~= acc);
        },
        Some(p) => if prec > precedence_rank(p) {
            assert(acc.subrange(0, acc.len() as int) =~= acc);
        } else {
            let (items, c) = parse_prec(ts, cur + 1, (precedence_rank(p) + 1) as nat)->0;
            let acc2 = acc + items + binary_emits(kind(ts, cur), (c - 1) as usize);
            lemma_infix_prefix(ts, c, prec, acc2);
            let w = (infix_emits(ts, c, prec, acc2)->0).0;
            assert(w.subrange(0, acc.len() as int) =~= acc2.subrange(0, acc2.len() as int).subrange(0, acc.len() as int));
        },
    }
}

/// Room for `a + b` is room for `a`.
proof fn lemma_room_prefix(chunk: Chunk, heap: Heap, a: Seq<Emit>, b: Seq<Emit>)
    requires
        room_for(chunk, heap, a + b),
    ensures
        room_for(chunk, heap, a),
{
    lemma_weight_lits_concat(a, b);
}

/// Instructions without operands weigh one each and load no constant.
proof fn lemma_ops_only(items: Seq<Emit>)
    requires
        forall|i: int| 0 <= i < items.len() ==> (#[trigger] items[i]) is Op,
    ensures
        weight(items) == items.len(),
        lits(items) == Seq::<usize>::empty(),
    decreases items.len(),
{
    if items.len() > 0 {
        lemma_ops_only(items.drop_last());
    }
}

proof fn lemma_one_lit(i: usize)
    ensures
        weight(seq![Emit::Lit(i)]) == 4,
        lits(seq![Emit::Lit(i)]).len() == 1,
{
    reveal_with_fuel(weight, 2);
    reveal_with_fuel(lits, 2);
    assert(seq![Emit::Lit(i)].drop_last() =~= Seq::<Emit>::empty());
}

/// A run of binary operators never moves back.
proof fn lemma_infix_advances(ts: Seq<TokView>, cur: int, prec: nat, acc: Seq<Emit>)
    requires
        infix_emits(ts, cur, prec, acc) is Some,
    ensures
        (infix_emits(ts, cur, prec, acc)->0).1 >= cur,
    decreases ts.len() - cur,
{
    match parse_rule(kind(ts, cur)).infix_precedence {
        None => {},
        Some(p) => if prec > precedence_rank(p) {
        } else {
            let (items, c) = parse_prec(ts, cur + 1, (precedence_rank(p) + 1) as nat)->0;
            lemma_infix_advances(ts, c, prec, acc + items + binary_emits(kind(ts, cur), (c - 1) as usize));
        },
    }
}

/// A statement moves past at least one token.
proof fn lemma_stmt_advances(ts: Seq<TokView>, pos: int)
    requires
        stmt_emits(ts, pos) is Some,
    ensures
        (stmt_emits(ts, pos)->0).1 > pos,
{
    let print = 0 <= pos < ts.len() && kind(ts, pos) == TokenType::Print;
    let start = if print { pos + 1 } else { pos };
    let rule = parse_rule(kind(ts, start)).prefix->0;
    let (items, c) = prefix_emits(ts, start, rule)->0;
    lemma_infix_advances(ts, c, 0, items);
}

/// A program's code ends with `Return`.
proof fn lemma_program_ends_with_return(ts: Seq<TokView>, pos: int)
    requires
        program_emits(ts, pos) is Some,
    ensures
        (program_emits(ts, pos)->0).len() > 0,
        (program_emits(ts, pos)->0).last() matches Emit::Op(OpCode::Return, _),
    decreases ts.len() - pos,
{
    if kind(ts, pos) != TokenType::Eof {
        let (items, n) = stmt_emits(ts, pos)->0;
        lemma_program_ends_with_return(ts, n);
    }
}

/// `a` followed by what `o` holds, if it holds anything.
pub open spec fn join(a: Seq<Emit>, o: Option<Seq<Emit>>) -> Option<Seq<Emit>> {
    match o {
        Some(r) => Some(a + r),
        None => None,
    }
}

/// `number_bits` may give `bits` for the number literal `lexeme`.
pub open spec fn parses_to<F: Fn(&str) -> u64>(number_bits: F, lexeme: Seq<char>, bits: u64) -> bool {
    exists|s: &str| s@ == lexeme && #[trigger] number_bits.ensures((s,), bits)
}

/// `v` is the constant made from the literal token at `i`: for a number, the
/// bit pattern `number_bits` gives for its text; for a string, the interned
/// contents between the quotes.
pub open spec fn literal_constant<F: Fn(&str) -> u64>(ts: Seq<TokView>, i: int, v: Value, strings: Seq<Seq<char>>, number_bits: F) -> bool {
    let lexeme = ts[i].lexeme;
    &&& kind(ts, i) == TokenType::Number ==> (v matches Value::Number(b) && parses_to(number_bits, lexeme, b))
    &&& kind(ts, i) == TokenType::String ==> (v matches Value::Obj(o) && o.spec_index() < strings.len()
        && strings[o.spec_index() as int] == string_contents(lexeme))
}

/// The text between the quotes of a string literal's lexeme.
pub open spec fn string_contents(lexeme: Seq<char>) -> Seq<char> {
    if lexeme.len() >= 2 {
        lexeme.subrange(1, lexeme.len() - 1)
    } else {
        Seq::empty()
    }
}

/// No scanning error came before any of the tokens.
pub open spec fn clean(ts: Seq<TokView>) -> bool {
    forall|i: int| 0 <= i < ts.len() ==> !(#[trigger] ts[i]).after_error
}

/// The shape of a token stream: it ends with its only `Eof`.
pub open spec fn tokens_wf(ts: Seq<ScannedToken>) -> bool {
    &&& ts.len() > 0
    &&& ts.last().token.token_type == TokenType::Eof
    &&& forall|i: int| 0 <= i < ts.len() - 1 ==> ts[i].token.token_type != TokenType::Eof
}

/// The scanner between two calls, as the machine describes it: its state,
/// position and line, and the tokens completed but not yet handed out.
pub struct ScanState {
    pub state: StateMachine,
    pub pos: int,
    pub line: u32,
    pub queue: Seq<SpecToken>,
}

/// What one call of the scanner gives: a token, or an error on a line.
pub enum ScanOut {
    Token(SpecToken),
    Failed(u32, Seq<char>),
}

/// One call of the scanner on `src` from `s`: what it gives and the state
/// after it.
pub open spec fn scan_next(src: Seq<char>, s: ScanState) -> (ScanOut, ScanState) {
    if s.queue.len() > 0 {
        (ScanOut::Token(s.queue[0]), ScanState { queue: s.queue.drop_first(), ..s })
    } else {
        let (ev, st, pos, line) = run_until_output(s.state, src, s.pos, s.line);
        let next = |queue: Seq<SpecToken>| ScanState { state: st, pos, line, queue };
        match ev {
            Event::Tokens(toks) => (ScanOut::Token(toks[0]), next(toks.drop_first())),
            Event::Failed(m) => (ScanOut::Failed(line, m), next(Seq::empty())),
            Event::Exhausted => match terminate(st, src, line) {
                (None, None) => (ScanOut::Token(eof_token(line)), next(Seq::empty())),
                (None, Some(m)) => (ScanOut::Failed(line, m), next(seq![eof_token(line)])),
                (Some(t0), None) => (ScanOut::Token(t0), next(seq![eof_token(line)])),
                (Some(t0), Some(m)) => (ScanOut::Failed(line, m), next(seq![t0, eof_token(line)])),
            },
        }
    }
}

/// The tokens of `src` from `s` on, up to `Eof`, with at most `fuel` calls of
/// the scanner (an `Eof` on line 0 stands in when they run out); a token
/// after an error is marked so.
pub open spec fn scan_stream(src: Seq<char>, s: ScanState, fuel: nat, after_error: bool) -> Seq<TokView>
    decreases fuel,
{
    if fuel == 0 {
        seq![TokView { kind: TokenType::Eof, line: 0, lexeme: Seq::empty(), after_error }]
    } else {
        match scan_next(src, s).0 {
            ScanOut::Token(t) => {
                let v = TokView { kind: t.token_type, line: t.line, lexeme: src.subrange(t.start, t.end), after_error };
                if t.token_type == TokenType::Eof {
                    seq![v]
                } else {
                    seq![v] + scan_stream(src, scan_next(src, s).1, (fuel - 1) as nat, false)
                }
            },
            ScanOut::Failed(_, _) => scan_stream(src, scan_next(src, s).1, (fuel - 1) as nat, true),
        }
    }
}

/// The tokens the compiler reads for `src`: one scanner call per character
/// and one more for the end suffice.
pub open spec fn source_tokens(src: Seq<char>) -> Seq<TokView> {
    scan_stream(
        src,
        ScanState { state: StateMachine::Root, pos: 0, line: 1, queue: Seq::empty() },
        (src.len() + 2) as nat,
        false,
    )
}

/// The scanner `sc` is in the state `s` describes.
pub open spec fn scanner_at(sc: Scanner, s: ScanState) -> bool {
    &&& sc.spec_state() == s.state
    &&& sc.spec_position() == s.pos
    &&& sc.spec_line() == s.line
    &&& queue_matches(sc.spec_queue(), s.queue, sc.spec_source())
}

/// A token, with whether scanning failed just before it.
pub struct ScannedToken<'a> {
    pub token: Token<'a>,
    pub after_error: bool,
}

/// Scans `source` up to its `Eof` token. Each call of the scanner before the
/// end consumes at least one character, so one call per character and one for
/// `Eof` suffice; the bound on the calls only serves termination.
fn scan_all<'a>(source: &'a str, errors: &mut Vec<CompileError>) -> (res: Vec<ScannedToken<'a>>)
    requires
        newlines(source@, source@.len() as int) + 2 < u32::MAX,
        source@.len() + 2 < usize::MAX,
    ensures
        tokens_wf(res@),
        views(res@) == source_tokens(source@),
        final(errors)@.len() >= old(errors)@.len(),
        final(errors)@.len() == old(errors)@.len() ==> forall|i: int| 0 <= i < res@.len() ==> !(#[trigger] res@[i]).after_error,
        final(errors)@.len() > old(errors)@.len() ==> exists|i: int| 0 <= i < res@.len() && (#[trigger] res@[i]).after_error,
{
    let ghost src = source@;
    let mut scanner = Scanner::new(source);
    let mut out: Vec<ScannedToken<'a>> = Vec::new();
    let mut after_error = false;
    let mut fuel: usize = source.unicode_len() + 2;
    let ghost mut s = ScanState { state: StateMachine::Root, pos: 0, line: 1, queue: Seq::empty() };
    assert(views(out@) + scan_stream(src, s, fuel as nat, after_error) =~= source_tokens(src));
    while fuel > 0
        invariant
            scanner.wf(),
            src == source@,
            scanner.spec_source() == src,
            scanner_at(scanner, s),
            views(out@) + scan_stream(src, s, fuel as nat, after_error) == source_tokens(src),
            forall|i: int| 0 <= i < out@.len() ==> out@[i].token.token_type != TokenType::Eof,
            errors@.len() >= old(errors)@.len(),
            errors@.len() == old(errors)@.len() ==> !after_error && forall|i: int| 0 <= i < out@.len() ==> !(#[trigger] out@[i]).after_error,
            errors@.len() > old(errors)@.len() ==> after_error || exists|i: int| 0 <= i < out@.len() && (#[trigger] out@[i]).after_error,
        decreases fuel,
    {
        let ghost before = out@;
        let ghost o = scan_next(src, s).0;
        let ghost s2 = scan_next(src, s).1;
        let r = scanner.scan_token();
        proof {
            assert(scanner_at(scanner, s2));
        }
        fuel = fuel - 1;
        match r {
            Ok(token) => {
                assert(o matches ScanOut::Token(t) && token.token_type == t.token_type && token.lexeme@ == src.subrange(t.start, t.end));
                if token.token_type == TokenType::Eof {
                    out.push(ScannedToken { token, after_error });
                    proof {
                        assert(out@[out@.len() - 1].after_error == after_error);
                        if exists|i: int| 0 <= i < before.len() && (#[trigger] before[i]).after_error {
                            let i = choose|i: int| 0 <= i < before.len() && (#[trigger] before[i]).after_error;
                            assert(out@[i] == before[i]);
                        }
                        assert(views(out@) =~= views(before) + scan_stream(src, s, (fuel + 1) as nat, after_error));
                    }
                    return out;
                }
                out.push(ScannedToken { token, after_error });
                proof {
                    assert(out@[out@.len() - 1].after_error == after_error);
                    assert(forall|i: int| 0 <= i < before.len() ==> out@[i] == before[i]);
                    assert(views(out@) + scan_stream(src, s2, fuel as nat, false) =~= views(before) + scan_stream(src, s, (fuel + 1) as nat, after_error));
                    s = s2;
                }
                after_error = false;
            },
            Err(e) => {
                assert(o is Failed);
                errors.push(CompileError::Scan(e));
                after_error = true;
                proof {
                    s = s2;
                }
            },
        }
    }
    let ghost before_end = out@;
    out.push(ScannedToken { token: Token { token_type: TokenType::Eof, line: 0, lexeme: "" }, after_error });
    proof {
        assert(out@[out@.len() - 1].after_error == after_error);
        assert(forall|i: int| 0 <= i < before_end.len() ==> out@[i] == before_end[i]);
        reveal_strlit("");
        assert(""@ =~= Seq::<char>::empty());
        assert(views(out@) =~= views(before_end) + scan_stream(src, s, 0, after_error));
    }
    out
}

struct Compiler<'a> {
    tokens: Vec<ScannedToken<'a>>,
    previous: usize,
    current: usize,
    had_error: bool,
    panic_mode: bool,
    errors: Vec<CompileError>,
    /// What has been written, since `base_code` and `base_constants`.
    emitted: Ghost<Seq<Emit>>,
    base_code: Ghost<Seq<u8>>,
    base_constants: Ghost<nat>,
    base_lines: Ghost<Seq<usize>>,
    base_last: Ghost<nat>,
}

/// The chunk and heap a compiler writes to stay usable: the chunk's
/// constants name strings of the heap.
pub open spec fn output_wf(chunk: Chunk, heap: Heap) -> bool {
    &&& chunk.wf()
    &&& decodable_from(chunk, 0)
    &&& heap.wf()
    &&& forall|i: int| 0 <= i < chunk.spec_constants().len() ==> valid_value(#[trigger] chunk.spec_constants()[i], heap.spec_strings().len())
}

/// `after` keeps every object of `before` where it was.
pub open spec fn heap_extends(before: Heap, after: Heap) -> bool {
    let b = before.spec_object_heap().spec_objects();
    let a = after.spec_object_heap().spec_objects();
    &&& b.len() <= a.len()
    &&& forall|i: int| 0 <= i < b.len() ==> a[i] == b[i]
}

/// The chunk holds what the compiler has written, and each constant it added
/// is made from its literal token.
spec fn tracks<F: Fn(&str) -> u64>(c: Compiler, chunk: Chunk, heap: Heap, number_bits: F) -> bool {
    let l = lits(c.emitted@);
    &&& chunk.spec_code() == c.base_code@ + encode(c.emitted@, c.base_constants@)
    &&& chunk.spec_lines() == c.base_lines@ + encode_lines(views(c.tokens@), c.emitted@, c.base_constants@, c.base_last@)
    &&& chunk.last_line() == run_line(views(c.tokens@), c.emitted@, c.base_last@)
    &&& c.base_last@ < usize::MAX
    &&& chunk.spec_constants().len() == c.base_constants@ + l.len()
    &&& forall|j: int| 0 <= j < l.len() ==> (#[trigger] l[j]) < c.tokens@.len()
        && literal_constant(views(c.tokens@), l[j] as int, chunk.spec_constants()[c.base_constants@ + j], heap.spec_strings(), number_bits)
}

/// `b` is `a` after more parsing: the same tokens and base, and more written.
spec fn extends(a: Compiler, b: Compiler) -> bool {
    &&& b.tokens == a.tokens
    &&& b.base_code == a.base_code
    &&& b.base_constants == a.base_constants
    &&& b.base_lines == a.base_lines
    &&& b.base_last == a.base_last
    &&& a.emitted@.len() <= b.emitted@.len()
    &&& forall|i: int| 0 <= i < a.emitted@.len() ==> b.emitted@[i] == a.emitted@[i]
    &&& a.current <= b.current
    &&& (a.had_error ==> b.had_error)
}

/// What `b` wrote since `a`.
spec fn written(a: Compiler, b: Compiler) -> Seq<Emit> {
    b.emitted@.subrange(a.emitted@.len() as int, b.emitted@.len() as int)
}

/// What a compile that gives `r` is owed to write: the stream is free of
/// scanning errors, `r` is a result, and there is room for what it writes.
spec fn owed(ts: Seq<TokView>, r: Option<(Seq<Emit>, int)>, chunk: Chunk, heap: Heap) -> bool {
    &&& clean(ts)
    &&& r is Some
    &&& room_for(chunk, heap, (r->0).0)
}

/// The chunk grows by what was written: in constants exactly, in code by at
/// most its weight.
proof fn lemma_tracks_growth<F: Fn(&str) -> u64>(a: Compiler, b: Compiler, ca: Chunk, cb: Chunk, ha: Heap, hb: Heap, nb: F)
    requires
        tracks(a, ca, ha, nb),
        tracks(b, cb, hb, nb),
        extends(a, b),
    ensures
        cb.spec_code().len() <= ca.spec_code().len() + weight(written(a, b)),
        cb.spec_constants().len() == ca.spec_constants().len() + lits(written(a, b)).len(),
{
    assert(b.emitted@ =~= a.emitted@ + written(a, b));
    lemma_encode_concat_len(a.emitted@, written(a, b), a.base_constants@);
    lemma_weight_lits_concat(a.emitted@, written(a, b));
}

proof fn lemma_lits_push(items: Seq<Emit>, e: Emit)
    ensures
        lits(items.push(e)) == (match e {
            Emit::Lit(i) => lits(items).push(i),
            Emit::Op(..) => lits(items),
        }),
        encode(items.push(e), 0) == encode(items, 0) + match e {
            Emit::Op(o, _) => seq![op_byte(o)],
            Emit::Lit(_) => constant_code(lits(items).len()),
        },
{
    assert(items.push(e).drop_last() =~= items);
}

proof fn lemma_encode_push(items: Seq<Emit>, e: Emit, k0: nat)
    ensures
        encode(items.push(e), k0) == encode(items, k0) + match e {
            Emit::Op(o, _) => seq![op_byte(o)],
            Emit::Lit(_) => constant_code(k0 + lits(items).len()),
        },
{
    assert(items.push(e).drop_last() =~= items);
}

/// Writing one instruction without operand keeps the chunk tracked.
proof fn lemma_tracks_op<F: Fn(&str) -> u64>(a: Compiler, b: Compiler, before: Chunk, after: Chunk, heap: Heap, op: OpCode, at: usize, number_bits: F)
    requires
        tracks(a, before, heap, number_bits),
        b.tokens == a.tokens,
        b.base_code == a.base_code,
        b.base_constants == a.base_constants,
        b.base_lines == a.base_lines,
        b.base_last == a.base_last,
        b.emitted@ == a.emitted@.push(Emit::Op(op, at)),
        after.spec_code() == before.spec_code().push(op_byte(op)),
        after.spec_constants() == before.spec_constants(),
        at < a.tokens@.len(),
        after.spec_lines() == before.spec_lines().push(
            (if clamp_line(views(a.tokens@)[at as int].line as nat) < before.last_line() {
                before.last_line()
            } else {
                clamp_line(views(a.tokens@)[at as int].line as nat)
            }) as usize,
        ),
    ensures
        tracks(b, after, heap, number_bits),
{
    lemma_encode_push(a.emitted@, Emit::Op(op, at), a.base_constants@);
    lemma_lits_push(a.emitted@, Emit::Op(op, at));
    assert(after.spec_code() =~= b.base_code@ + encode(b.emitted@, b.base_constants@));
    let e = a.emitted@;
    let ts = views(a.tokens@);
    assert(b.emitted@.drop_last() =~= e);
    assert(encode_lines(ts, b.emitted@, b.base_constants@, b.base_last@) =~= encode_lines(ts, e, a.base_constants@, a.base_last@)
        + seq![run_line(ts, b.emitted@, b.base_last@) as usize]);
    assert(after.spec_lines() =~= b.base_lines@ + encode_lines(ts, b.emitted@, b.base_constants@, b.base_last@));
}

/// Writing the constant of a literal keeps the chunk tracked.
proof fn lemma_tracks_lit<F: Fn(&str) -> u64>(a: Compiler, b: Compiler, before: Chunk, after: Chunk, heap: Heap, lit: usize, value: Value, number_bits: F)
    requires
        tracks(a, before, heap, number_bits),
        b.tokens == a.tokens,
        b.base_code == a.base_code,
        b.base_constants == a.base_constants,
        b.base_lines == a.base_lines,
        b.base_last == a.base_last,
        b.emitted@ == a.emitted@.push(Emit::Lit(lit)),
        after.spec_code() == before.spec_code() + constant_code(before.spec_constants().len()),
        after.spec_constants() == before.spec_constants().push(value),
        lit < a.tokens@.len(),
        literal_constant(views(a.tokens@), lit as int, value, heap.spec_strings(), number_bits),
        after.spec_lines() == before.spec_lines() + Seq::new(
            constant_code(before.spec_constants().len()).len(),
            |i: int| (if clamp_line(views(a.tokens@)[lit as int].line as nat) < before.last_line() {
                before.last_line()
            } else {
                clamp_line(views(a.tokens@)[lit as int].line as nat)
            }) as usize,
        ),
        constant_code(before.spec_constants().len()).len() > 0,
    ensures
        tracks(b, after, heap, number_bits),
{
    let e = a.emitted@;
    lemma_encode_push(e, Emit::Lit(lit), a.base_constants@);
    lemma_lits_push(e, Emit::Lit(lit));
    assert(after.spec_code() =~= b.base_code@ + encode(b.emitted@, b.base_constants@));
    let ts = views(a.tokens@);
    assert(b.emitted@.drop_last() =~= e);
    assert(after.spec_lines() =~= b.base_lines@ + encode_lines(ts, b.emitted@, b.base_constants@, b.base_last@));
    let l = lits(b.emitted@);
    assert forall|j: int| 0 <= j < l.len() implies (#[trigger] l[j]) < b.tokens@.len()
        && literal_constant(views(b.tokens@), l[j] as int, after.spec_constants()[b.base_constants@ + j], heap.spec_strings(), number_bits) by {
        if j < lits(e).len() {
            assert(l[j] == lits(e)[j]);
            assert(after.spec_constants()[b.base_constants@ + j] == before.spec_constants()[b.base_constants@ + j]);
        }
    }
}

impl<'a> Compiler<'a> {
    spec fn wf(&self) -> bool {
        &&& tokens_wf(self.tokens@)
        &&& self.previous < self.tokens@.len()
        &&& self.current < self.tokens@.len()
        &&& (self.errors@.len() == 0 && clean(views(self.tokens@))) ==> !self.had_error && !self.panic_mode
        &&& !self.had_error ==> forall|i: int| 0 <= i <= self.current ==> !(#[trigger] self.tokens@[i]).after_error
    }

    /// Moves to the next token; a scanning error before it sets panic mode.
    fn advance(&mut self)
        requires
            old(self).wf(),
        ensures
            final(self).wf(),
            extends(*old(self), *final(self)),
            final(self).emitted == old(self).emitted,
            final(self).previous == old(self).current,
            final(self).current == after(views(old(self).tokens@), old(self).current as int),
            clean(views(old(self).tokens@)) ==> final(self).had_error == old(self).had_error,
    {
        self.previous = self.current;
        let n: usize = self.tokens.len();
        if self.tokens[self.current].token.token_type != TokenType::Eof {
            assert(self.current + 1 < n);
            self.current = self.current + 1;
            if self.tokens[self.current].after_error {
                self.panic_mode = true;
                self.had_error = true;
                assert(views(self.tokens@)[self.current as int].after_error);
            }
        }
    }

    fn error_at(&mut self, at: usize, message: &str)
        requires
            old(self).wf(),
            at < old(self).tokens@.len(),
        ensures
            final(self).wf(),
            extends(*old(self), *final(self)),
            final(self).emitted == old(self).emitted,
            final(self).previous == old(self).previous,
            final(self).current == old(self).current,
            final(self).had_error,
    {
        self.had_error = true;
        if self.panic_mode {
            return;
        }
        self.panic_mode = true;
        let token = self.tokens[at].token;
        let at_text = if token.token_type == TokenType::Eof {
            None
        } else {
            Some(token.lexeme.to_owned())
        };
        self.errors.push(CompileError::Parse { line: token.line, at: at_text, message: message.to_owned() });
    }

    fn consume(&mut self, token_type: TokenType, message: &str)
        requires
            old(self).wf(),
        ensures
            final(self).wf(),
            extends(*old(self), *final(self)),
            final(self).emitted == old(self).emitted,
            kind(views(old(self).tokens@), old(self).current as int) == token_type
                ==> final(self).current == after(views(old(self).tokens@), old(self).current as int),
            kind(views(old(self).tokens@), old(self).current as int) != token_type ==> final(self).had_error,
            clean(views(old(self).tokens@)) && kind(views(old(self).tokens@), old(self).current as int) == token_type
                ==> final(self).had_error == old(self).had_error,
            kind(views(old(self).tokens@), old(self).current as int) == token_type ==> final(self).previous == old(self).current,
    {
        if self.tokens[self.current].token.token_type == token_type {
            self.advance();
        } else {
            self.error_at(self.current, message);
        }
    }

    /// Writes `op` on the line of the previous token.
    fn emit_op<F: Fn(&str) -> u64>(&mut self, op: OpCode, chunk: &mut Chunk, heap: &Heap, number_bits: &F)
        requires
            old(self).wf(),
            old(chunk).wf(),
            decodable_from(*old(chunk), 0),
            operand_width(op) == 0,
            tracks(*old(self), *old(chunk), *heap, *number_bits),
        ensures
            final(self).wf(),
            extends(*old(self), *final(self)),
            final(self).current == old(self).current,
            final(self).previous == old(self).previous,
            final(chunk).wf(),
            decodable_from(*final(chunk), 0),
            final(chunk).spec_constants() == old(chunk).spec_constants(),
            tracks(*final(self), *final(chunk), *heap, *number_bits),
            final(self).emitted@ == old(self).emitted@.push(Emit::Op(op, old(self).previous))
                || (final(self).had_error && final(self).emitted == old(self).emitted),
            final(self).had_error || final(chunk).spec_code() == old(chunk).spec_code().push(op_byte(op)),
            !old(self).had_error && old(chunk).spec_code().len() < usize::MAX - 8 ==> !final(self).had_error,
    {
        let line = self.tokens[self.previous].token.line as usize;
        let last = chunk.last_written_line();
        let line = if line < last {
            last
        } else if line == usize::MAX {
            usize::MAX - 1
        } else {
            line
        };
        if chunk.count() >= usize::MAX - 8 {
            self.error_at(self.previous, "Too much code to compile.");
            return;
        }
        let ghost before = *chunk;
        chunk.write_op(op, line);
        proof {
            lemma_op_byte_roundtrip(op, 0);
            let n = before.spec_code().len() as int;
            assert(chunk.spec_code()[n] == op_byte(op));
            assert(readable_at(*chunk, n));
            lemma_decodable_append(before, *chunk, 0);
            let a = *self;
            self.emitted@ = self.emitted@.push(Emit::Op(op, self.previous));
            lemma_tracks_op(a, *self, before, *chunk, *heap, op, self.previous, *number_bits);
        }
    }

    /// Adds the constant made from the literal token at `lit` and writes the
    /// instruction that loads it.
    #[verifier::rlimit(40)]
    fn emit_constant<F: Fn(&str) -> u64>(&mut self, value: Value, lit: usize, chunk: &mut Chunk, heap: &Heap, number_bits: &F)
        requires
            old(self).wf(),
            old(chunk).wf(),
            decodable_from(*old(chunk), 0),
            tracks(*old(self), *old(chunk), *heap, *number_bits),
            lit < old(self).tokens@.len(),
            lit == old(self).previous,
            literal_constant(views(old(self).tokens@), lit as int, value, heap.spec_strings(), *number_bits),
        ensures
            final(self).wf(),
            extends(*old(self), *final(self)),
            final(self).current == old(self).current,
            final(self).previous == old(self).previous,
            final(chunk).wf(),
            decodable_from(*final(chunk), 0),
            tracks(*final(self), *final(chunk), *heap, *number_bits),
            final(self).emitted@ == old(self).emitted@.push(Emit::Lit(lit))
                || (final(self).had_error && final(self).emitted == old(self).emitted),
            final(chunk).spec_constants() == old(chunk).spec_constants()
                || final(chunk).spec_constants() == old(chunk).spec_constants().push(value),
            !old(self).had_error && old(chunk).spec_code().len() < usize::MAX - 8
                && old(chunk).spec_constants().len() <= MAX_CONSTANT_INDEX ==> !final(self).had_error,
    {
        let line = self.tokens[self.previous].token.line as usize;
        let last = chunk.last_written_line();
        let line = if line < last {
            last
        } else if line == usize::MAX {
            usize::MAX - 1
        } else {
            line
        };
        if chunk.count() >= usize::MAX - 8 || chunk.constants_len() > MAX_CONSTANT_INDEX {
            self.error_at(self.previous, "Too much code to compile.");
            return;
        }
        let ghost before = *chunk;
        let index = chunk.write_constant(value, line);
        proof {
            let n = before.spec_code().len() as int;
            let k = before.spec_constants().len();
            let op = if k <= 0xFF { OpCode::Constant } else { OpCode::ConstantLong };
            lemma_op_byte_roundtrip(op, 0);
            let code = chunk.spec_code();
            assert(code[n] == op_byte(op));
            match index {
                ConstantIndex::Byte(b) => {
                    assert(code[n + 1] == b);
                    assert(operand_value(code, n + 1, 1) == k);
                },
                ConstantIndex::Usize(i) => {
                    assert(code[n + 1] == (i % 256) as u8);
                    assert(code[n + 2] == ((i / 256) % 256) as u8);
                    assert(code[n + 3] == ((i / 65536) % 256) as u8);
                    assert(i < 0x100_0000);
                    assert((i % 256) + ((i / 256) % 256) * 256 + ((i / 65536) % 256) * 65536 == i) by (nonlinear_arith)
                        requires i < 0x100_0000;
                    assert(operand_value(code, n + 1, 3) == k);
                },
            }
            assert(readable_at(*chunk, n));
            assert(next_offset(*chunk, n) == code.len());
            lemma_decodable_append(before, *chunk, 0);
            assert(constant_code(k) =~= seq![op_byte(op)] + index_bytes(index));
            assert(chunk.spec_code() =~= before.spec_code() + constant_code(k));
            let a = *self;
            self.emitted@ = self.emitted@.push(Emit::Lit(lit));
            lemma_tracks_lit(a, *self, before, *chunk, *heap, lit, value, *number_bits);
        }
    }

    fn expression<F: Fn(&str) -> u64>(&mut self, chunk: &mut Chunk, heap: &mut Heap, number_bits: &F)
        requires
            old(self).wf(),
            output_wf(*old(chunk), *old(heap)),
            tracks(*old(self), *old(chunk), *old(heap), *number_bits),
            forall|s: &str| #[trigger] number_bits.requires((s,)),
        ensures
            final(self).wf(),
            extends(*old(self), *final(self)),
            output_wf(*final(chunk), *final(heap)),
            tracks(*final(self), *final(chunk), *final(heap), *number_bits),
            old(heap).spec_strings().len() <= final(heap).spec_strings().len(),
            heap_extends(*old(heap), *final(heap)),
            !final(self).had_error ==> parse_prec(views(old(self).tokens@), old(self).current as int, 0)
                == Some((written(*old(self), *final(self)), final(self).current as int)),
            parse_prec(views(old(self).tokens@), old(self).current as int, 0) is None ==> final(self).had_error,
            !final(self).had_error ==> final(heap).spec_strings().len() <= old(heap).spec_strings().len() + lits(written(*old(self), *final(self))).len(),
            !old(self).had_error && owed(views(old(self).tokens@), parse_prec(views(old(self).tokens@), old(self).current as int, 0), *old(chunk), *old(heap))
                ==> !final(self).had_error,
            !final(self).had_error ==> final(self).previous + 1 == final(self).current,
        decreases old(self).tokens@.len() - old(self).current, 3nat,
    {
        self.parse_precedence(Precedence::Assignment, chunk, heap, number_bits);
    }

    #[verifier::rlimit(60)]
    #[verifier::spinoff_prover]
    fn parse_precedence<F: Fn(&str) -> u64>(&mut self, precedence: Precedence, chunk: &mut Chunk, heap: &mut Heap, number_bits: &F)
        requires
            old(self).wf(),
            output_wf(*old(chunk), *old(heap)),
            tracks(*old(self), *old(chunk), *old(heap), *number_bits),
            forall|s: &str| #[trigger] number_bits.requires((s,)),
        ensures
            final(self).wf(),
            extends(*old(self), *final(self)),
            output_wf(*final(chunk), *final(heap)),
            tracks(*final(self), *final(chunk), *final(heap), *number_bits),
            old(heap).spec_strings().len() <= final(heap).spec_strings().len(),
            heap_extends(*old(heap), *final(heap)),
            !final(self).had_error ==> parse_prec(views(old(self).tokens@), old(self).current as int, precedence_rank(precedence) as nat)
                == Some((written(*old(self), *final(self)), final(self).current as int)),
            parse_prec(views(old(self).tokens@), old(self).current as int, precedence_rank(precedence) as nat) is None ==> final(self).had_error,
            !final(self).had_error ==> final(heap).spec_strings().len() <= old(heap).spec_strings().len() + lits(written(*old(self), *final(self))).len(),
            !old(self).had_error && owed(
                views(old(self).tokens@),
                parse_prec(views(old(self).tokens@), old(self).current as int, precedence_rank(precedence) as nat),
                *old(chunk),
                *old(heap),
            ) ==> !final(self).had_error,
            !final(self).had_error ==> final(self).previous + 1 == final(self).current,
        decreases old(self).tokens@.len() - old(self).current, 2nat,
    {
        let ghost ts = self.tokens@;
        let ghost pos0 = self.current as int;
        let ghost prec = precedence_rank(precedence) as nat;
        let ghost start = *self;
        self.advance();
        let rule = ParseRule::from_token_type(self.tokens[self.previous].token.token_type);
        match rule.prefix {
            Some(prefix) => {
                let ghost before_prefix = *self;
                proof {
                    if !start.had_error && owed(views(ts), parse_prec(views(ts), pos0, prec), *old(chunk), *old(heap)) {
                        let (items, c) = prefix_emits(views(ts), pos0, prefix)->0;
                        lemma_infix_prefix(views(ts), c, prec, items);
                        let w = (parse_prec(views(ts), pos0, prec)->0).0;
                        assert(w =~= items + w.subrange(items.len() as int, w.len() as int));
                        lemma_room_prefix(*old(chunk), *old(heap), items, w.subrange(items.len() as int, w.len() as int));
                    }
                }
                self.prefix(prefix, chunk, heap, number_bits);
                proof {
                    assert(written(start, *self) =~= written(before_prefix, *self));
                }
                loop
                    invariant_except_break
                        self.wf(),
                        extends(start, *self),
                        pos0 < self.current,
                        ts == self.tokens@,
                        ts == old(self).tokens@,
                        pos0 == old(self).current,
                        output_wf(*chunk, *heap),
                        tracks(*self, *chunk, *heap, *number_bits),
                        old(heap).spec_strings().len() <= heap.spec_strings().len(),
                        heap_extends(*old(heap), *heap),
                        forall|s: &str| #[trigger] number_bits.requires((s,)),
                        !self.had_error ==> parse_prec(views(ts), pos0, prec) == infix_emits(views(ts), self.current as int, prec, written(start, *self)),
                        prec == precedence_rank(precedence),
                        start == *old(self),
                        tracks(start, *old(chunk), *old(heap), *number_bits),
                        !start.had_error && owed(views(ts), parse_prec(views(ts), pos0, prec), *old(chunk), *old(heap)) ==> !self.had_error,
                        !self.had_error ==> heap.spec_strings().len() <= old(heap).spec_strings().len() + lits(written(start, *self)).len(),
                        !self.had_error ==> self.previous + 1 == self.current,
                    ensures
                        self.wf(),
                        extends(start, *self),
                        output_wf(*chunk, *heap),
                        tracks(*self, *chunk, *heap, *number_bits),
                        old(heap).spec_strings().len() <= heap.spec_strings().len(),
                        heap_extends(*old(heap), *heap),
                        !self.had_error ==> parse_prec(views(ts), pos0, prec) == Some((written(start, *self), self.current as int)),
                        !start.had_error && owed(views(ts), parse_prec(views(ts), pos0, prec), *old(chunk), *old(heap)) ==> !self.had_error,
                        !self.had_error ==> heap.spec_strings().len() <= old(heap).spec_strings().len() + lits(written(start, *self)).len(),
                        !self.had_error ==> self.previous + 1 == self.current,
                    decreases self.tokens@.len() - self.current,
                {
                    let current_rule = ParseRule::from_token_type(self.tokens[self.current].token.token_type);
                    match current_rule.infix_precedence {
                        Some(rule_precedence) => {
                            if precedence.to_u8() > rule_precedence.to_u8() {
                                break;
                            }
                            let ghost cur = self.current as int;
                            let ghost mid = *self;
                            self.advance();
                            assert(self.current == cur + 1);
                            let ghost mid2 = *self;
                            let ghost heap_mid = *heap;
                            assert(written(start, mid2) =~= written(start, mid));
                            proof {
                                if !start.had_error && owed(views(ts), parse_prec(views(ts), pos0, prec), *old(chunk), *old(heap)) {
                                    let p = rule_precedence;
                                    let op = kind(views(ts), cur);
                                    let (items, c) = parse_prec(views(ts), cur + 1, (precedence_rank(p) + 1) as nat)->0;
                                    let b = binary_emits(op, (c - 1) as usize);
                                    let acc2 = written(start, mid) + items + b;
                                    lemma_infix_prefix(views(ts), c, prec, acc2);
                                    let w = (parse_prec(views(ts), pos0, prec)->0).0;
                                    lemma_tracks_growth(start, mid2, *old(chunk), *chunk, *old(heap), *heap, *number_bits);
                                    assert(acc2 =~= written(start, mid2) + (items + b));
                                    lemma_room_split(*old(chunk), *old(heap), *chunk, *heap, written(start, mid2), items + b, w);
                                }
                            }
                            self.binary(chunk, heap, number_bits);
                            proof {
                                if !self.had_error {
                                    let p = rule_precedence;
                                    assert(parse_rule(kind(views(ts), cur)).infix_precedence == Some(p));
                                    assert(prec <= precedence_rank(p));
                                    let (items, c) = parse_prec(views(ts), cur + 1, (precedence_rank(p) + 1) as nat)->0;
                                    let b = binary_emits(kind(views(ts), cur), (c - 1) as usize);
                                    assert(written(mid2, *self) == items + b);
                                    assert(written(start, *self) =~= written(start, mid2) + written(mid2, *self));
                                    assert(written(start, *self) =~= written(start, mid) + items + b);
                                    assert(infix_emits(views(ts), cur, prec, written(start, mid)) == infix_emits(
                                        views(ts),
                                        self.current as int,
                                        prec,
                                        written(start, mid) + items + b,
                                    ));
                                    lemma_weight_lits_concat(written(start, mid2), written(mid2, *self));
                                    assert(heap_mid.spec_strings().len() <= old(heap).spec_strings().len() + lits(written(start, mid2)).len());
                                }
                            }
                        },
                        None => {
                            break;
                        },
                    }
                }
            },
            None => {
                self.error_at(self.previous, "Expect expression.");
            },
        }
    }

    #[verifier::rlimit(60)]
    #[verifier::spinoff_prover]
    fn prefix<F: Fn(&str) -> u64>(&mut self, rule: PrefixRule, chunk: &mut Chunk, heap: &mut Heap, number_bits: &F)
        requires
            old(self).wf(),
            output_wf(*old(chunk), *old(heap)),
            tracks(*old(self), *old(chunk), *old(heap), *number_bits),
            forall|s: &str| #[trigger] number_bits.requires((s,)),
            old(self).current > 0,
            old(self).previous + 1 == old(self).current,
            parse_rule(kind(views(old(self).tokens@), old(self).previous as int)).prefix == Some(rule),
        ensures
            final(self).wf(),
            extends(*old(self), *final(self)),
            output_wf(*final(chunk), *final(heap)),
            tracks(*final(self), *final(chunk), *final(heap), *number_bits),
            old(heap).spec_strings().len() <= final(heap).spec_strings().len(),
            heap_extends(*old(heap), *final(heap)),
            !final(self).had_error ==> prefix_emits(views(old(self).tokens@), old(self).previous as int, rule)
                == Some((written(*old(self), *final(self)), final(self).current as int)),
            prefix_emits(views(old(self).tokens@), old(self).previous as int, rule) is None ==> final(self).had_error,
            !final(self).had_error ==> final(heap).spec_strings().len() <= old(heap).spec_strings().len() + lits(written(*old(self), *final(self))).len(),
            !old(self).had_error && owed(views(old(self).tokens@), prefix_emits(views(old(self).tokens@), old(self).previous as int, rule), *old(chunk), *old(heap))
                ==> !final(self).had_error,
            !final(self).had_error ==> final(self).previous + 1 == final(self).current,
        decreases old(self).tokens@.len() - old(self).current + 1, 1nat,
    {
        let ghost start = *self;
        match rule {
            PrefixRule::Grouping => {
                self.expression(chunk, heap, number_bits);
                let ghost mid = *self;
                self.consume(TokenType::RightParen, "Expect ')' after expression.");
                proof {
                    assert(written(start, *self) =~= written(start, mid));
                }
            },
            PrefixRule::Unary => {
                let operator_type = self.tokens[self.previous].token.token_type;
                self.parse_precedence(Precedence::Unary, chunk, heap, number_bits);
                let ghost mid = *self;
                proof {
                    let ts = views(start.tokens@);
                    if !start.had_error && owed(ts, prefix_emits(ts, start.previous as int, rule), *old(chunk), *old(heap)) {
                        let (items, c) = parse_prec(ts, start.previous + 1, 7)->0;
                        let op = Emit::Op(unary_op(operator_type), (c - 1) as usize);
                        assert(items.push(op) =~= items + seq![op]);
                        lemma_room_prefix(*old(chunk), *old(heap), items, seq![op]);
                        lemma_weight_lits_concat(items, seq![op]);
                        lemma_ops_only(seq![op]);
                        lemma_tracks_growth(start, mid, *old(chunk), *chunk, *old(heap), *heap, *number_bits);
                    }
                }
                if operator_type == TokenType::Minus {
                    self.emit_op(OpCode::Negate, chunk, heap, number_bits);
                } else {
                    self.emit_op(OpCode::Not, chunk, heap, number_bits);
                }
                proof {
                    if !self.had_error {
                        let op = Emit::Op(unary_op(operator_type), mid.previous);
                        assert(written(start, *self) =~= written(start, mid).push(op));
                        assert(written(start, mid).push(op) =~= written(start, mid) + seq![op]);
                        lemma_weight_lits_concat(written(start, mid), seq![op]);
                        lemma_ops_only(seq![op]);
                    }
                }
            },
            PrefixRule::Number => {
                let lexeme = self.tokens[self.previous].token.lexeme;
                let bits = number_bits(lexeme);
                assert(parses_to(*number_bits, views(self.tokens@)[self.previous as int].lexeme, bits));
                proof {
                    lemma_one_lit(start.previous);
                }
                self.emit_constant(Value::Number(bits), self.previous, chunk, heap, number_bits);
                proof {
                    if !self.had_error {
                        assert(written(start, *self) =~= seq![Emit::Lit(start.previous)]);
                    }
                }
            },
            PrefixRule::String => {
                let lexeme = self.tokens[self.previous].token.lexeme;
                let n = lexeme.unicode_len();
                proof {
                    lemma_one_lit(start.previous);
                }
                if heap.strings_len() >= usize::MAX / 64 {
                    self.error_at(self.previous, "Too much code to compile.");
                    return;
                }
                let contents = if n >= 2 {
                    lexeme.substring_char(1, n - 1).to_owned()
                } else {
                    String::new()
                };
                let ghost old_heap = *heap;
                let value = heap.allocate_string(contents);
                proof {
                    old_heap.lemma_strings_len();
                    heap.lemma_strings_len();
                    assert forall|i: int| 0 <= i < chunk.spec_constants().len() implies valid_value(#[trigger] chunk.spec_constants()[i], heap.spec_strings().len()) by {
                        assert(valid_value(chunk.spec_constants()[i], old_heap.spec_strings().len()));
                    }
                    let l = lits(self.emitted@);
                    assert forall|j: int| 0 <= j < l.len() implies (#[trigger] l[j]) < self.tokens@.len()
                        && literal_constant(views(self.tokens@), l[j] as int, chunk.spec_constants()[self.base_constants@ + j], heap.spec_strings(), *number_bits) by {
                        let v = chunk.spec_constants()[self.base_constants@ + j];
                        assert(literal_constant(views(self.tokens@), l[j] as int, v, old_heap.spec_strings(), *number_bits));
                        if let Value::Obj(o) = v {
                            if kind(views(self.tokens@), l[j] as int) == TokenType::String {
                                let x = o.spec_index() as int;
                                old_heap.lemma_string_at(x);
                                heap.lemma_string_at(x);
                            }
                        }
                    }
                }
                self.emit_constant(value, self.previous, chunk, heap, number_bits);
                proof {
                    if !self.had_error {
                        assert(written(start, *self) =~= seq![Emit::Lit(start.previous)]);
                    }
                }
            },
            PrefixRule::Literal => {
                let t = self.tokens[self.previous].token.token_type;
                proof {
                    lemma_ops_only(seq![Emit::Op(literal_op(t), start.previous)]);
                }
                if t == TokenType::False {
                    self.emit_op(OpCode::False, chunk, heap, number_bits);
                } else if t == TokenType::True {
                    self.emit_op(OpCode::True, chunk, heap, number_bits);
                } else {
                    self.emit_op(OpCode::Nil, chunk, heap, number_bits);
                }
                proof {
                    if !self.had_error {
                        assert(written(start, *self) =~= seq![Emit::Op(literal_op(t), start.previous)]);
                    }
                }
            },
        }
    }

    /// One statement (see `stmt_emits`).
    #[verifier::rlimit(60)]
    #[verifier::spinoff_prover]
    fn statement<F: Fn(&str) -> u64>(&mut self, chunk: &mut Chunk, heap: &mut Heap, number_bits: &F)
        requires
            old(self).wf(),
            output_wf(*old(chunk), *old(heap)),
            tracks(*old(self), *old(chunk), *old(heap), *number_bits),
            forall|s: &str| #[trigger] number_bits.requires((s,)),
        ensures
            final(self).wf(),
            extends(*old(self), *final(self)),
            output_wf(*final(chunk), *final(heap)),
            tracks(*final(self), *final(chunk), *final(heap), *number_bits),
            old(heap).spec_strings().len() <= final(heap).spec_strings().len(),
            heap_extends(*old(heap), *final(heap)),
            !final(self).had_error ==> stmt_emits(views(old(self).tokens@), old(self).current as int)
                == Some((written(*old(self), *final(self)), final(self).current as int)),
            stmt_emits(views(old(self).tokens@), old(self).current as int) is None ==> final(self).had_error,
            !final(self).had_error ==> final(heap).spec_strings().len() <= old(heap).spec_strings().len() + lits(written(*old(self), *final(self))).len(),
            !old(self).had_error && owed(views(old(self).tokens@), stmt_emits(views(old(self).tokens@), old(self).current as int), *old(chunk), *old(heap))
                ==> !final(self).had_error,
            !final(self).had_error ==> final(self).previous + 1 == final(self).current,
    {
        let ghost start = *self;
        let ghost ts = views(self.tokens@);
        let print = self.tokens[self.current].token.token_type == TokenType::Print;
        if print {
            self.advance();
        }
        let ghost before_expr = *self;
        proof {
            assert(written(start, before_expr) =~= Seq::<Emit>::empty());
            if !start.had_error && owed(ts, stmt_emits(ts, start.current as int), *old(chunk), *old(heap)) {
                let (items, c) = parse_prec(ts, before_expr.current as int, 0)->0;
                let op = Emit::Op(if print { OpCode::Print } else { OpCode::Pop }, c as usize);
                assert(items.push(op) =~= items + seq![op]);
                lemma_room_prefix(*old(chunk), *old(heap), items, seq![op]);
            }
        }
        self.expression(chunk, heap, number_bits);
        let ghost mid = *self;
        proof {
            assert(written(start, mid) =~= written(before_expr, mid));
            if !start.had_error && owed(ts, stmt_emits(ts, start.current as int), *old(chunk), *old(heap)) {
                let (items, c) = parse_prec(ts, before_expr.current as int, 0)->0;
                let op = Emit::Op(if print { OpCode::Print } else { OpCode::Pop }, c as usize);
                assert(items.push(op) =~= items + seq![op]);
                lemma_weight_lits_concat(items, seq![op]);
                lemma_ops_only(seq![op]);
                lemma_tracks_growth(start, mid, *old(chunk), *chunk, *old(heap), *heap, *number_bits);
            }
        }
        if print {
            self.consume(TokenType::Semicolon, "Expect ';' after value.");
        } else {
            self.consume(TokenType::Semicolon, "Expect ';' after expression.");
        }
        let ghost mid2 = *self;
        if print {
            self.emit_op(OpCode::Print, chunk, heap, number_bits);
        } else {
            self.emit_op(OpCode::Pop, chunk, heap, number_bits);
        }
        proof {
            let op = Emit::Op(if print { OpCode::Print } else { OpCode::Pop }, mid2.previous);
            assert(written(start, mid2) =~= written(start, mid));
            if !self.had_error {
                assert(written(start, *self) =~= written(start, mid).push(op));
                assert(written(start, mid).push(op) =~= written(start, mid) + seq![op]);
                lemma_weight_lits_concat(written(start, mid), seq![op]);
                lemma_ops_only(seq![op]);
            }
        }
    }

    #[verifier::rlimit(60)]
    #[verifier::spinoff_prover]
    fn binary<F: Fn(&str) -> u64>(&mut self, chunk: &mut Chunk, heap: &mut Heap, number_bits: &F)
        requires
            old(self).wf(),
            output_wf(*old(chunk), *old(heap)),
            tracks(*old(self), *old(chunk), *old(heap), *number_bits),
            forall|s: &str| #[trigger] number_bits.requires((s,)),
            parse_rule(kind(views(old(self).tokens@), old(self).previous as int)).infix_precedence is Some,
        ensures
            final(self).wf(),
            extends(*old(self), *final(self)),
            output_wf(*final(chunk), *final(heap)),
            tracks(*final(self), *final(chunk), *final(heap), *number_bits),
            old(heap).spec_strings().len() <= final(heap).spec_strings().len(),
            heap_extends(*old(heap), *final(heap)),
            ({
                let ts = old(self).tokens@;
                let op = kind(views(ts), old(self).previous as int);
                let p = parse_rule(op).infix_precedence->0;
                &&& !final(self).had_error ==> match parse_prec(views(ts), old(self).current as int, (precedence_rank(p) + 1) as nat) {
                    Some((items, c)) => written(*old(self), *final(self)) == items + binary_emits(op, (c - 1) as usize)
                        && final(self).current == c,
                    None => false,
                }
                &&& parse_prec(views(ts), old(self).current as int, (precedence_rank(p) + 1) as nat) is None ==> final(self).had_error
                &&& (!old(self).had_error && clean(views(ts)) && parse_prec(views(ts), old(self).current as int, (precedence_rank(p) + 1) as nat) is Some
                    && room_for(*old(chunk), *old(heap), ({
                        let (items, c) = parse_prec(views(ts), old(self).current as int, (precedence_rank(p) + 1) as nat)->0;
                        items + binary_emits(op, (c - 1) as usize)
                    })))
                    ==> !final(self).had_error
            }),
            !final(self).had_error ==> final(heap).spec_strings().len() <= old(heap).spec_strings().len() + lits(written(*old(self), *final(self))).len(),
            !final(self).had_error ==> final(self).previous + 1 == final(self).current,
        decreases old(self).tokens@.len() - old(self).current, 5nat,
    {
        let ghost start = *self;
        let operator_type = self.tokens[self.previous].token.token_type;
        let rule = ParseRule::from_token_type(operator_type);
        let next = match rule.infix_precedence {
            Some(Precedence::Assignment) => Precedence::Or,
            Some(Precedence::Or) => Precedence::And,
            Some(Precedence::And) => Precedence::Equality,
            Some(Precedence::Equality) => Precedence::Comparison,
            Some(Precedence::Comparison) => Precedence::Term,
            Some(Precedence::Term) => Precedence::Factor,
            Some(Precedence::Factor) => Precedence::Unary,
            Some(Precedence::Unary) => Precedence::Call,
            _ => Precedence::Primary,
        };
        self.parse_precedence(next, chunk, heap, number_bits);
        let ghost mid = *self;
        proof {
            let ts = views(start.tokens@);
            let r = parse_prec(ts, start.current as int, (precedence_rank(rule.infix_precedence->0) + 1) as nat);
            let b = binary_emits(operator_type, ((r->0).1 - 1) as usize);
            assert(forall|i: int| 0 <= i < b.len() ==> (#[trigger] b[i]) is Op);
            lemma_ops_only(b);
            if !start.had_error && clean(ts) && r is Some && room_for(*old(chunk), *old(heap), (r->0).0 + b) {
                lemma_room_prefix(*old(chunk), *old(heap), (r->0).0, b);
                lemma_weight_lits_concat((r->0).0, b);
                lemma_tracks_growth(start, mid, *old(chunk), *chunk, *old(heap), *heap, *number_bits);
            }
        }
        match operator_type {
            TokenType::BangEqual => {
                self.emit_op(OpCode::Equal, chunk, heap, number_bits);
                self.emit_op(OpCode::Not, chunk, heap, number_bits);
            },
            TokenType::EqualEqual => self.emit_op(OpCode::Equal, chunk, heap, number_bits),
            TokenType::Greater => self.emit_op(OpCode::Greater, chunk, heap, number_bits),
            TokenType::GreaterEqual => {
                self.emit_op(OpCode::Less, chunk, heap, number_bits);
                self.emit_op(OpCode::Not, chunk, heap, number_bits);
            },
            TokenType::Less => self.emit_op(OpCode::Less, chunk, heap, number_bits),
            TokenType::LessEqual => {
                self.emit_op(OpCode::Greater, chunk, heap, number_bits);
                self.emit_op(OpCode::Not, chunk, heap, number_bits);
            },
            TokenType::Plus => self.emit_op(OpCode::Add, chunk, heap, number_bits),
            TokenType::Minus => self.emit_op(OpCode::Subtract, chunk, heap, number_bits),
            TokenType::Star => self.emit_op(OpCode::Multiply, chunk, heap, number_bits),
            _ => self.emit_op(OpCode::Divide, chunk, heap, number_bits),
        }
        proof {
            if !self.had_error {
                assert(written(start, *self) =~= written(start, mid) + written(mid, *self));
                assert(written(mid, *self) =~= binary_emits(operator_type, mid.previous));
                lemma_weight_lits_concat(written(start, mid), binary_emits(operator_type, mid.previous));
            }
        }
    }
}

/// Compiles a token stream into `chunk`, with the strings it holds interned
/// in `heap`; `number_bits` gives the binary64 bit pattern of a number
/// literal. A successful compile writes exactly `compile_emits(tokens)`, with
/// one new constant per literal, and needs a stream free of scanning errors
/// that forms an expression; such a stream compiles whenever the machine's
/// limits leave room for what it writes (`room_for`). On failure the errors
/// are appended to `errors`. Whatever happens, the chunk's code stays a
/// sequence of complete instructions whose constants exist (see
/// `output_wf`).
pub fn compile_tokens<'a, F: Fn(&str) -> u64>(
    tokens: Vec<ScannedToken<'a>>,
    chunk: &mut Chunk,
    heap: &mut Heap,
    number_bits: &F,
    errors: &mut Vec<CompileError>,
) -> (res: Result<(), ()>)
    requires
        tokens_wf(tokens@),
        output_wf(*old(chunk), *old(heap)),
        forall|s: &str| #[trigger] number_bits.requires((s,)),
    ensures
        output_wf(*final(chunk), *final(heap)),
        old(heap).spec_strings().len() <= final(heap).spec_strings().len(),
        heap_extends(*old(heap), *final(heap)),
        res is Ok ==> final(errors)@ == old(errors)@,
        res is Err ==> final(errors)@.len() > old(errors)@.len() || !clean(views(tokens@)),
        !clean(views(tokens@)) || compile_emits(views(tokens@)) is None ==> res is Err,
        clean(views(tokens@)) && compile_emits(views(tokens@)) is Some
            && room_for(*old(chunk), *old(heap), compile_emits(views(tokens@))->0) ==> res is Ok,
        res is Ok ==> ({
            let items = compile_emits(views(tokens@))->0;
            let k0 = old(chunk).spec_constants().len();
            let l = lits(items);
            &&& compile_emits(views(tokens@)) is Some
            &&& final(chunk).spec_code() == old(chunk).spec_code() + encode(items, k0)
            &&& final(chunk).spec_lines() == old(chunk).spec_lines() + encode_lines(views(tokens@), items, k0, old(chunk).last_line())
            &&& final(chunk).spec_constants().len() == k0 + l.len()
            &&& forall|j: int| 0 <= j < l.len() ==> (#[trigger] l[j]) < tokens@.len()
                && literal_constant(views(tokens@), l[j] as int, final(chunk).spec_constants()[k0 + j], final(heap).spec_strings(), *number_bits)
        }),
{
    let ghost ts = tokens@;
    let last_line = chunk.last_written_line();
    let first_error = tokens[0].after_error;
    let mut compiler = Compiler {
        tokens,
        previous: 0,
        current: 0,
        had_error: first_error,
        panic_mode: first_error,
        errors: Vec::new(),
        emitted: Ghost(Seq::empty()),
        base_code: Ghost(chunk.spec_code()),
        base_constants: Ghost(chunk.spec_constants().len()),
        base_lines: Ghost(chunk.spec_lines()),
        base_last: Ghost(last_line as nat),
    };
    proof {
        assert(chunk.spec_code() =~= compiler.base_code@ + encode(compiler.emitted@, compiler.base_constants@));
        assert(chunk.spec_lines() =~= compiler.base_lines@ + encode_lines(views(ts), compiler.emitted@, compiler.base_constants@, compiler.base_last@));
    }
    let ghost start = compiler;
    let ghost whole = compile_emits(views(ts));
    proof {
        if clean(views(ts)) && whole is Some && room_for(*chunk, *heap, whole->0) {
            assert(!views(ts)[0].after_error);
            let (items, c) = parse_prec(views(ts), 0, 0)->0;
            let ret = Emit::Op(OpCode::Return, c as usize);
            assert(whole->0 =~= items + seq![ret]);
            lemma_room_prefix(*chunk, *heap, items, seq![ret]);
            lemma_weight_lits_concat(items, seq![ret]);
            lemma_ops_only(seq![ret]);
        }
    }
    compiler.expression(chunk, heap, number_bits);
    let ghost mid = compiler;
    proof {
        if clean(views(ts)) && whole is Some && room_for(*old(chunk), *old(heap), whole->0) {
            lemma_tracks_growth(start, mid, *old(chunk), *chunk, *old(heap), *heap, *number_bits);
        }
    }
    compiler.consume(TokenType::Eof, "Expect end of expression.");
    compiler.emit_op(OpCode::Return, chunk, heap, number_bits);
    proof {
        if !compiler.had_error {
            assert(written(start, compiler) =~= written(start, mid).push(Emit::Op(OpCode::Return, compiler.previous)));
            assert(compiler.emitted@ =~= written(start, compiler));
            assert forall|i: int| 0 <= i < views(ts).len() implies !(#[trigger] views(ts)[i]).after_error by {
                assert(compiler.current == ts.len() - 1);
                assert(!ts[i].after_error);
            }
        }
    }
    if compiler.had_error {
        errors.append(&mut compiler.errors);
        Err(())
    } else {
        Ok(())
    }
}

/// Compiles a token stream holding a program into `chunk`, as
/// `compile_tokens` does an expression: a successful compile writes exactly
/// `program_emits(tokens, 0)`; the compile stops at the first error.
pub fn compile_program_tokens<'a, F: Fn(&str) -> u64>(
    tokens: Vec<ScannedToken<'a>>,
    chunk: &mut Chunk,
    heap: &mut Heap,
    number_bits: &F,
    errors: &mut Vec<CompileError>,
) -> (res: Result<(), ()>)
    requires
        tokens_wf(tokens@),
        output_wf(*old(chunk), *old(heap)),
        forall|s: &str| #[trigger] number_bits.requires((s,)),
    ensures
        output_wf(*final(chunk), *final(heap)),
        old(heap).spec_strings().len() <= final(heap).spec_strings().len(),
        heap_extends(*old(heap), *final(heap)),
        res is Ok ==> final(errors)@ == old(errors)@,
        res is Err ==> final(errors)@.len() > old(errors)@.len() || !clean(views(tokens@)),
        !clean(views(tokens@)) || program_emits(views(tokens@), 0) is None ==> res is Err,
        clean(views(tokens@)) && program_emits(views(tokens@), 0) is Some
            && room_for(*old(chunk), *old(heap), program_emits(views(tokens@), 0)->0) ==> res is Ok,
        res is Ok ==> ({
            let items = program_emits(views(tokens@), 0)->0;
            let k0 = old(chunk).spec_constants().len();
            let l = lits(items);
            &&& program_emits(views(tokens@), 0) is Some
            &&& final(chunk).spec_code() == old(chunk).spec_code() + encode(items, k0)
            &&& final(chunk).spec_lines() == old(chunk).spec_lines() + encode_lines(views(tokens@), items, k0, old(chunk).last_line())
            &&& final(chunk).spec_constants().len() == k0 + l.len()
            &&& forall|j: int| 0 <= j < l.len() ==> (#[trigger] l[j]) < tokens@.len()
                && literal_constant(views(tokens@), l[j] as int, final(chunk).spec_constants()[k0 + j], final(heap).spec_strings(), *number_bits)
        }),
{
    let ghost ts = tokens@;
    let last_line = chunk.last_written_line();
    let first_error = tokens[0].after_error;
    let mut compiler = Compiler {
        tokens,
        previous: 0,
        current: 0,
        had_error: first_error,
        panic_mode: first_error,
        errors: Vec::new(),
        emitted: Ghost(Seq::empty()),
        base_code: Ghost(chunk.spec_code()),
        base_constants: Ghost(chunk.spec_constants().len()),
        base_lines: Ghost(chunk.spec_lines()),
        base_last: Ghost(last_line as nat),
    };
    proof {
        assert(chunk.spec_code() =~= compiler.base_code@ + encode(compiler.emitted@, compiler.base_constants@));
        assert(chunk.spec_lines() =~= compiler.base_lines@ + encode_lines(views(ts), compiler.emitted@, compiler.base_constants@, compiler.base_last@));
        assert(written(compiler, compiler) =~= Seq::<Emit>::empty());
        if let Some(w) = program_emits(views(ts), 0) {
            assert(Seq::<Emit>::empty() + w =~= w);
        }
        if clean(views(ts)) {
            assert(!views(ts)[0].after_error);
        }
    }
    let ghost start = compiler;
    while compiler.tokens[compiler.current].token.token_type != TokenType::Eof && !compiler.had_error
        invariant
            compiler.wf(),
            extends(start, compiler),
            start.tokens@ == ts,
            start.emitted@ == Seq::<Emit>::empty(),
            output_wf(*chunk, *heap),
            tracks(compiler, *chunk, *heap, *number_bits),
            tracks(start, *old(chunk), *old(heap), *number_bits),
            old(heap).spec_strings().len() <= heap.spec_strings().len(),
            heap_extends(*old(heap), *heap),
            forall|s: &str| #[trigger] number_bits.requires((s,)),
            !compiler.had_error ==> program_emits(views(ts), 0) == join(written(start, compiler), program_emits(views(ts), compiler.current as int)),
            !start.had_error && clean(views(ts)) && program_emits(views(ts), 0) is Some
                && room_for(*old(chunk), *old(heap), program_emits(views(ts), 0)->0) ==> !compiler.had_error,
            !compiler.had_error ==> heap.spec_strings().len() <= old(heap).spec_strings().len() + lits(written(start, compiler)).len(),
            !compiler.had_error ==> (if compiler.current > 0 {
                compiler.previous + 1 == compiler.current
            } else {
                compiler.previous == 0
            }),
        decreases ts.len() - compiler.current + (if compiler.had_error { 0int } else { 1int }),
    {
        let ghost before = compiler;
        let ghost heap_before = *heap;
        proof {
            let vts = views(ts);
            let cur = before.current as int;
            if !start.had_error && clean(vts) && program_emits(vts, 0) is Some
                && room_for(*old(chunk), *old(heap), program_emits(vts, 0)->0) {
                let w = program_emits(vts, 0)->0;
                let done = written(start, before);
                let (items, n) = stmt_emits(vts, cur)->0;
                let rest = program_emits(vts, n)->0;
                assert(w =~= done + items + rest);
                assert(w =~= (done + items) + rest);
                assert(w.subrange(0, (done.len() + items.len()) as int) =~= done + items);
                lemma_tracks_growth(start, before, *old(chunk), *chunk, *old(heap), *heap, *number_bits);
                lemma_room_split(*old(chunk), *old(heap), *chunk, *heap, done, items, w);
            }
        }
        compiler.statement(chunk, heap, number_bits);
        proof {
            if !compiler.had_error {
                let vts = views(ts);
                let cur = before.current as int;
                lemma_stmt_advances(vts, cur);
                assert(written(start, compiler) =~= written(start, before) + written(before, compiler));
                lemma_weight_lits_concat(written(start, before), written(before, compiler));
                if let Some(rest) = program_emits(vts, compiler.current as int) {
                    assert(written(start, before) + (written(before, compiler) + rest) =~= written(start, compiler) + rest);
                }
            }
        }
    }
    let ghost mid = compiler;
    proof {
        let vts = views(ts);
        if !start.had_error && clean(vts) && program_emits(vts, 0) is Some
            && room_for(*old(chunk), *old(heap), program_emits(vts, 0)->0) {
            let w = program_emits(vts, 0)->0;
            let done = written(start, mid);
            let ret = Emit::Op(OpCode::Return, mid.previous);
            assert(w =~= done + seq![ret]);
            assert(w.subrange(0, (done.len() + 1) as int) =~= done + seq![ret]);
            lemma_tracks_growth(start, mid, *old(chunk), *chunk, *old(heap), *heap, *number_bits);
            lemma_room_split(*old(chunk), *old(heap), *chunk, *heap, done, seq![ret], w);
            lemma_ops_only(seq![ret]);
        }
    }
    if !compiler.had_error {
        compiler.emit_op(OpCode::Return, chunk, heap, number_bits);
    }
    proof {
        if !compiler.had_error {
            let ret = Emit::Op(OpCode::Return, mid.previous);
            assert(written(start, compiler) =~= written(start, mid).push(ret));
            assert(written(start, mid) + seq![ret] =~= written(start, mid).push(ret));
            assert(compiler.emitted@ =~= written(start, compiler));
            assert forall|i: int| 0 <= i < views(ts).len() implies !(#[trigger] views(ts)[i]).after_error by {
                assert(compiler.current == ts.len() - 1);
                assert(!ts[i].after_error);
            }
        }
    }
    if compiler.had_error {
        errors.append(&mut compiler.errors);
        Err(())
    } else {
        Ok(())
    }
}

/// Compiles the expression `source` into `chunk`: its tokens, as the scanner
/// gives them (`source_tokens`), are compiled as `compile_tokens` does, and a
/// scanning error fails the compile. A source whose lines a `u32` counts
/// compiles exactly when its tokens are clean and form an expression, as
/// long as the machine's limits leave room (`room_for`).
pub fn compile<F: Fn(&str) -> u64>(
    source: &str,
    chunk: &mut Chunk,
    heap: &mut Heap,
    number_bits: &F,
    errors: &mut Vec<CompileError>,
) -> (res: Result<(), ()>)
    requires
        output_wf(*old(chunk), *old(heap)),
        forall|s: &str| #[trigger] number_bits.requires((s,)),
    ensures
        output_wf(*final(chunk), *final(heap)),
        old(heap).spec_strings().len() <= final(heap).spec_strings().len(),
        heap_extends(*old(heap), *final(heap)),
        res is Ok ==> final(errors)@ == old(errors)@,
        res is Err ==> final(errors)@.len() > old(errors)@.len(),
        !clean(source_tokens(source@)) || compile_emits(source_tokens(source@)) is None ==> res is Err,
        source@.len() + 2 < usize::MAX && newlines(source@, source@.len() as int) + 2 < u32::MAX
            && clean(source_tokens(source@)) && compile_emits(source_tokens(source@)) is Some
            && room_for(*old(chunk), *old(heap), compile_emits(source_tokens(source@))->0) ==> res is Ok,
        res is Ok ==> ({
            let items = compile_emits(source_tokens(source@))->0;
            let k0 = old(chunk).spec_constants().len();
            let l = lits(items);
            &&& compile_emits(source_tokens(source@)) is Some
            &&& final(chunk).spec_code() == old(chunk).spec_code() + encode(items, k0)
            &&& final(chunk).spec_lines() == old(chunk).spec_lines() + encode_lines(source_tokens(source@), items, k0, old(chunk).last_line())
            &&& final(chunk).spec_constants().len() == k0 + l.len()
            &&& forall|j: int| 0 <= j < l.len() ==> (#[trigger] l[j]) < source_tokens(source@).len()
                && literal_constant(source_tokens(source@), l[j] as int, final(chunk).spec_constants()[k0 + j], final(heap).spec_strings(), *number_bits)
        }),
        res is Ok ==> final(chunk).spec_code().len() > 0
            && final(chunk).spec_code().last() == op_byte(OpCode::Return),
{
    if source.unicode_len() >= usize::MAX - 2 {
        errors.push(CompileError::Parse { line: 1, at: None, message: "Source too long.".to_owned() });
        return Err(());
    }
    if count_newlines(source) >= (u32::MAX - 2) as usize {
        errors.push(CompileError::Parse { line: 1, at: None, message: "Too many lines.".to_owned() });
        return Err(());
    }
    let mut scan_errors: Vec<CompileError> = Vec::new();
    let tokens = scan_all(source, &mut scan_errors);
    let ghost ts = tokens@;
    let ghost old_code = chunk.spec_code();
    let mut parse_errors: Vec<CompileError> = Vec::new();
    let out = compile_tokens(tokens, chunk, heap, number_bits, &mut parse_errors);
    proof {
        if scan_errors@.len() > 0 {
            let i = choose|i: int| 0 <= i < ts.len() && (#[trigger] ts[i]).after_error;
            assert(views(ts)[i].after_error);
        }
        if out is Ok {
            let items = compile_emits(views(ts))->0;
            assert(items.last() matches Emit::Op(OpCode::Return, _));
            assert(items.len() > 0);
            lemma_encode_push(items.drop_last(), items.last(), old(chunk).spec_constants().len());
            assert(items.drop_last().push(items.last()) =~= items);
        }
    }
    if scan_errors.len() > 0 {
        errors.append(&mut scan_errors);
        errors.append(&mut parse_errors);
        Err(())
    } else {
        match out {
            Ok(()) => Ok(()),
            Err(()) => {
                errors.append(&mut parse_errors);
                Err(())
            },
        }
    }
}


/// Compiles the program `source` into `chunk`: its tokens, as the scanner
/// gives them (`source_tokens`), are compiled as `compile_program_tokens`
/// does, and a scanning error fails the compile. A source whose lines a
/// `u32` counts compiles exactly when its tokens are clean and form a
/// program, as long as the machine's limits leave room (`room_for`).
pub fn compile_program<F: Fn(&str) -> u64>(
    source: &str,
    chunk: &mut Chunk,
    heap: &mut Heap,
    number_bits: &F,
    errors: &mut Vec<CompileError>,
) -> (res: Result<(), ()>)
    requires
        output_wf(*old(chunk), *old(heap)),
        forall|s: &str| #[trigger] number_bits.requires((s,)),
    ensures
        output_wf(*final(chunk), *final(heap)),
        old(heap).spec_strings().len() <= final(heap).spec_strings().len(),
        heap_extends(*old(heap), *final(heap)),
        res is Ok ==> final(errors)@ == old(errors)@,
        res is Err ==> final(errors)@.len() > old(errors)@.len(),
        !clean(source_tokens(source@)) || program_emits(source_tokens(source@), 0) is None ==> res is Err,
        source@.len() + 2 < usize::MAX && newlines(source@, source@.len() as int) + 2 < u32::MAX
            && clean(source_tokens(source@)) && program_emits(source_tokens(source@), 0) is Some
            && room_for(*old(chunk), *old(heap), program_emits(source_tokens(source@), 0)->0) ==> res is Ok,
        res is Ok ==> ({
            let items = program_emits(source_tokens(source@), 0)->0;
            let k0 = old(chunk).spec_constants().len();
            let l = lits(items);
            &&& program_emits(source_tokens(source@), 0) is Some
            &&& final(chunk).spec_code() == old(chunk).spec_code() + encode(items, k0)
            &&& final(chunk).spec_lines() == old(chunk).spec_lines() + encode_lines(source_tokens(source@), items, k0, old(chunk).last_line())
            &&& final(chunk).spec_constants().len() == k0 + l.len()
            &&& forall|j: int| 0 <= j < l.len() ==> (#[trigger] l[j]) < source_tokens(source@).len()
                && literal_constant(source_tokens(source@), l[j] as int, final(chunk).spec_constants()[k0 + j], final(heap).spec_strings(), *number_bits)
        }),
        res is Ok ==> final(chunk).spec_code().len() > 0
            && final(chunk).spec_code().last() == op_byte(OpCode::Return),
{
    if source.unicode_len() >= usize::MAX - 2 {
        errors.push(CompileError::Parse { line: 1, at: None, message: "Source too long.".to_owned() });
        return Err(());
    }
    if count_newlines(source) >= (u32::MAX - 2) as usize {
        errors.push(CompileError::Parse { line: 1, at: None, message: "Too many lines.".to_owned() });
        return Err(());
    }
    let mut scan_errors: Vec<CompileError> = Vec::new();
    let tokens = scan_all(source, &mut scan_errors);
    let ghost ts = tokens@;
    let ghost old_code = chunk.spec_code();
    let mut parse_errors: Vec<CompileError> = Vec::new();
    let out = compile_program_tokens(tokens, chunk, heap, number_bits, &mut parse_errors);
    proof {
        if scan_errors@.len() > 0 {
            let i = choose|i: int| 0 <= i < ts.len() && (#[trigger] ts[i]).after_error;
            assert(views(ts)[i].after_error);
        }
        if out is Ok {
            let items = program_emits(views(ts), 0)->0;
            lemma_program_ends_with_return(views(ts), 0);
            assert(items.last() matches Emit::Op(OpCode::Return, _));
            assert(items.len() > 0);
            lemma_encode_push(items.drop_last(), items.last(), old(chunk).spec_constants().len());
            assert(items.drop_last().push(items.last()) =~= items);
        }
    }
    if scan_errors.len() > 0 {
        errors.append(&mut scan_errors);
        errors.append(&mut parse_errors);
        Err(())
    } else {
        match out {
            Ok(()) => Ok(()),
            Err(()) => {
                errors.append(&mut parse_errors);
                Err(())
            },
        }
    }
}

} // verus!

verus! {

/// The binding strength of an infix operator.
pub open spec fn infix_rank(t: TokenType) -> int {
    match parse_rule(t).infix_precedence {
        Some(p) => precedence_rank(p) as int,
        None => -1,
    }
}

pub open spec fn is_binary_operator(t: TokenType) -> bool {
    t == TokenType::Star || t == TokenType::Slash || t == TokenType::Plus || t == TokenType::Minus
        || t == TokenType::Greater || t == TokenType::GreaterEqual || t == TokenType::Less
        || t == TokenType::LessEqual || t == TokenType::EqualEqual || t == TokenType::BangEqual
}

/// The binary operators bind in Lox's order: `*` and `/` tighter than `+`
/// and `-`, these tighter than the comparisons, these tighter than `==`
/// and `!=`, which bind tighter than assignment; operators of one group
/// bind alike.
pub proof fn lemma_binding_order()
    ensures
        infix_rank(TokenType::Star) == infix_rank(TokenType::Slash),
        infix_rank(TokenType::Plus) == infix_rank(TokenType::Minus),
        infix_rank(TokenType::Less) == infix_rank(TokenType::LessEqual),
        infix_rank(TokenType::Less) == infix_rank(TokenType::Greater),
        infix_rank(TokenType::Less) == infix_rank(TokenType::GreaterEqual),
        infix_rank(TokenType::EqualEqual) == infix_rank(TokenType::BangEqual),
        infix_rank(TokenType::Star) > infix_rank(TokenType::Plus),
        infix_rank(TokenType::Plus) > infix_rank(TokenType::Less),
        infix_rank(TokenType::Less) > infix_rank(TokenType::EqualEqual),
        infix_rank(TokenType::EqualEqual) > 0,
{
}

/// A number literal token, clean, at the compiler's view.
pub open spec fn num_tok(ts: Seq<TokView>, i: int) -> bool {
    ts[i].kind == TokenType::Number
}

/// `a op1 b op2 c` on three number literals compiles by binding strength:
/// when `op2` binds tighter, `b op2 c` is computed first and `op1` applied
/// to `a` and it; otherwise (`op2` binds alike or looser) `a op1 b` is
/// computed first, so operators of one strength group to the left.
#[verifier::rlimit(80)]
pub proof fn lemma_compile_two_operators(ts: Seq<TokView>)
    requires
        ts.len() == 6,
        num_tok(ts, 0),
        num_tok(ts, 2),
        num_tok(ts, 4),
        is_binary_operator(ts[1].kind),
        is_binary_operator(ts[3].kind),
        ts[5].kind == TokenType::Eof,
    ensures
        infix_rank(ts[3].kind) > infix_rank(ts[1].kind) ==> compile_emits(ts) == Some(
            seq![Emit::Lit(0), Emit::Lit(2), Emit::Lit(4)] + binary_emits(ts[3].kind, 4) + binary_emits(ts[1].kind, 4)
                + seq![Emit::Op(OpCode::Return, 5)],
        ),
        infix_rank(ts[3].kind) <= infix_rank(ts[1].kind) ==> compile_emits(ts) == Some(
            seq![Emit::Lit(0), Emit::Lit(2)] + binary_emits(ts[1].kind, 2) + seq![Emit::Lit(4)] + binary_emits(ts[3].kind, 4)
                + seq![Emit::Op(OpCode::Return, 5)],
        ),
{
    reveal_with_fuel(parse_prec, 3);
    reveal_with_fuel(infix_emits, 4);
    let k1 = ts[1].kind;
    let k3 = ts[3].kind;
    let r1 = infix_rank(k1);
    let r3 = infix_rank(k3);
    // The operands alone.
    assert(parse_rule(TokenType::Number).prefix == Some(PrefixRule::Number));
    assert(parse_rule(TokenType::Eof).infix_precedence is None);
    let c_tail = parse_prec(ts, 4, (r3 + 1) as nat);
    assert(c_tail == Some((seq![Emit::Lit(4)], 5int)));
    if r3 > r1 {
        assert(parse_prec(ts, 4, (r1 + 1) as nat) == Some((seq![Emit::Lit(4)], 5int)));
        assert(infix_emits(ts, 3, (r1 + 1) as nat, seq![Emit::Lit(2)]) == infix_emits(
            ts,
            5,
            (r1 + 1) as nat,
            seq![Emit::Lit(2)] + seq![Emit::Lit(4)] + binary_emits(k3, 4),
        ));
        assert(parse_prec(ts, 2, (r1 + 1) as nat) == Some((seq![Emit::Lit(2)] + seq![Emit::Lit(4)] + binary_emits(k3, 4), 5int)));
        assert(seq![Emit::Lit(0)] + (seq![Emit::Lit(2)] + seq![Emit::Lit(4)] + binary_emits(k3, 4)) + binary_emits(k1, 4)
            =~= seq![Emit::Lit(0), Emit::Lit(2), Emit::Lit(4)] + binary_emits(k3, 4) + binary_emits(k1, 4));
    } else {
        assert(parse_prec(ts, 2, (r1 + 1) as nat) == Some((seq![Emit::Lit(2)], 3int)));
        assert(seq![Emit::Lit(0)] + seq![Emit::Lit(2)] + binary_emits(k1, 2) =~= seq![Emit::Lit(0), Emit::Lit(2)] + binary_emits(k1, 2));
        assert(parse_prec(ts, 4, (r3 + 1) as nat) == Some((seq![Emit::Lit(4)], 5int)));
    }
}

} // verus!
