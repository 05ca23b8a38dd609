//! The bytecode virtual machine. It runs one instruction per `step`. Floating
//! point arithmetic is the host's: for `+ - * /` on two numbers the machine
//! pops the operands and hands them out with `Action::Arithmetic`, and the
//! host pushes the result back with `push_number`. Printing is the host's
//! too (`Action::Print`).

use vstd::prelude::*;

use crate::bytecode::{lemma_op_byte_roundtrip, line_lookup, op_byte, op_of_byte, Chunk, OpCode, MAX_CONSTANT_INDEX};
use crate::compiler::{binary_emits, literal_op, unary_op, clean, compile_program, Emit, encode, encode_lines, heap_extends, literal_constant, lits, program_emits, source_tokens, weight, CompileError};
use crate::debug::{decimal, push_decimal};
use crate::table::{grown_capacity, Table};
use crate::value::heap::{string_limit, Heap, TypedHeapIndex};
use crate::scanner::token::TokenType;
use crate::value::{is_falsey_spec, is_nan_bits, number_eq, values_equal, Obj, Value};

verus! {

#[derive(Debug, Clone, Copy, PartialEq, Eq)]
pub enum InterpretResult {
    InterpretOk,
    InterpretCompileError,
    InterpretRuntimeError,
}

/// C's `x++`: bumps `x` and returns its value from before.
pub fn post_increment(x: &mut usize) -> (res: usize)
    requires
        *old(x) < usize::MAX,
    ensures
        res == *old(x),
        *final(x) == *old(x) + 1,
{
    let out = *x;
    *x = *x + 1;
    out
}

/// The arithmetic the host does for the machine.
#[derive(Debug, Clone, Copy, PartialEq, Eq, Structural)]
pub enum ArithOp {
    Add,
    Subtract,
    Multiply,
    Divide,
}

/// What one step of the machine asks of the host.
#[derive(Debug)]
pub enum Action {
    /// Nothing: run the next step.
    Continue,
    /// The program ended.
    Return,
    /// Print this value, then run the next step.
    Print(Value),
    /// Compute `a op b` on the two numbers (binary64 bit patterns), push the
    /// result with `push_number`, then run the next step.
    Arithmetic(ArithOp, u64, u64),
    /// The program failed: the message, and the line it failed on.
    RuntimeError(String, usize),
    /// The code is not what a compiler writes (an unknown instruction, a
    /// missing operand or constant, too few values on the stack).
    Malformed,
    /// The heap or the table of globals cannot grow any further.
    Exhausted,
}

/// An action, its message as a sequence.
pub enum SAction {
    Continue,
    Return,
    Print(Value),
    Arithmetic(ArithOp, u64, u64),
    RuntimeError(Seq<char>, nat),
    Malformed,
    Exhausted,
}

pub open spec fn action_view(a: Action) -> SAction {
    match a {
        Action::Continue => SAction::Continue,
        Action::Return => SAction::Return,
        Action::Print(v) => SAction::Print(v),
        Action::Arithmetic(op, x, y) => SAction::Arithmetic(op, x, y),
        Action::RuntimeError(m, l) => SAction::RuntimeError(m@, l as nat),
        Action::Malformed => SAction::Malformed,
        Action::Exhausted => SAction::Exhausted,
    }
}

/// The machine as values.
pub struct VmView {
    pub code: Seq<u8>,
    pub constants: Seq<Value>,
    pub lines: Seq<usize>,
    pub table_len: nat,
    pub ip: int,
    pub stack: Seq<Value>,
    pub globals: Map<usize, Value>,
    /// The number of slots of the table of globals, and how many of them
    /// are used.
    pub globals_capacity: nat,
    pub globals_count: nat,
    pub strings: Seq<Seq<char>>,
}

// ---------------------------------------------------------------------------
// Numbers, given by their bit patterns.

/// Negation: the sign bit flipped.
pub open spec fn negated(bits: u64) -> u64 {
    bits ^ 0x8000_0000_0000_0000u64
}

/// The position of a number that is not a NaN on the number line, with both
/// zeros at 0.
pub open spec fn number_key(bits: u64) -> int {
    if bits >= 0x8000_0000_0000_0000u64 {
        -((bits - 0x8000_0000_0000_0000u64) as int)
    } else {
        bits as int
    }
}

/// `a < b` on binary64 numbers: false when either is a NaN.
pub open spec fn number_lt(a: u64, b: u64) -> bool {
    !is_nan_bits(a) && !is_nan_bits(b) && number_key(a) < number_key(b)
}

// ---------------------------------------------------------------------------
// One step, as a relation between the machine before and after.

pub open spec fn valid_value(v: Value, n: nat) -> bool {
    v matches Value::Obj(k) ==> k.spec_index() < n
}

pub open spec fn line_at(v: VmView, at: int) -> nat {
    line_lookup(v.lines, v.table_len, at)
}

/// The three little-endian bytes of a long operand at `at`.
pub open spec fn long_operand(code: Seq<u8>, at: int) -> int {
    code[at] + 256 * code[at + 1] + 65536 * code[at + 2]
}

pub open spec fn undefined_variable(name: Seq<char>) -> Seq<char> {
    "Undefined variable '"@ + name + "'."@
}

/// `post` is `pre` with the stack `stack`, and the instruction pointer moved
/// to `ip`.
pub open spec fn moved(pre: VmView, post: VmView, ip: int, stack: Seq<Value>) -> bool {
    &&& post.code == pre.code
    &&& post.constants == pre.constants
    &&& post.lines == pre.lines
    &&& post.table_len == pre.table_len
    &&& post.globals == pre.globals
    &&& post.globals_capacity == pre.globals_capacity
    &&& post.globals_count == pre.globals_count
    &&& post.strings == pre.strings
    &&& post.ip == ip
    &&& post.stack == stack
}

/// The largest table the machine grows: past it, a define or set answers
/// `Exhausted`.
pub open spec fn table_limit() -> nat {
    (usize::MAX / 16) as nat
}

/// `post` is `pre` after the global `k` was given `value`, with the stack
/// `stack` and the instruction pointer at `ip`; the table of globals may
/// have grown.
pub open spec fn stored(pre: VmView, post: VmView, k: usize, value: Value, ip: int, stack: Seq<Value>) -> bool {
    &&& post.code == pre.code
    &&& post.constants == pre.constants
    &&& post.lines == pre.lines
    &&& post.table_len == pre.table_len
    &&& post.globals == pre.globals.insert(k, value)
    &&& post.globals_capacity == (if (pre.globals_count + 1) * 4 > pre.globals_capacity * 3 {
        grown_capacity(pre.globals_capacity)
    } else {
        pre.globals_capacity
    })
    &&& post.globals_count == pre.globals_count + (if pre.globals.contains_key(k) { 0nat } else { 1nat })
    &&& post.strings == pre.strings
    &&& post.ip == ip
    &&& post.stack == stack
}

/// Where the operand index of a constant instruction at `ip` is, and where
/// the next instruction starts.
pub open spec fn operand_index(pre: VmView, long: bool) -> (int, int) {
    if long {
        (long_operand(pre.code, pre.ip + 1), pre.ip + 4)
    } else {
        (pre.code[pre.ip + 1] as int, pre.ip + 2)
    }
}

pub open spec fn operand_present(pre: VmView, long: bool) -> bool {
    if long {
        pre.ip + 4 <= pre.code.len()
    } else {
        pre.ip + 2 <= pre.code.len()
    }
}

/// The step of a global-variable instruction: `kind` 0 defines, 1 sets,
/// 2 gets.
pub open spec fn global_step(pre: VmView, post: VmView, act: SAction, long: bool, kind: int) -> bool {
    if !operand_present(pre, long) {
        act == SAction::Malformed
    } else {
        let (idx, next) = operand_index(pre, long);
        if !(0 <= idx < pre.constants.len()) || !(pre.constants[idx] is Obj) {
            act == SAction::Malformed
        } else {
            let k = pre.constants[idx]->Obj_0.spec_index();
            let s = pre.stack;
            if kind == 0 {
                if s.len() == 0 {
                    act == SAction::Malformed
                } else if pre.globals_capacity > table_limit() {
                    act == SAction::Exhausted
                } else {
                    act == SAction::Continue && stored(pre, post, k, s.last(), next, s.drop_last())
                }
            } else if kind == 1 {
                if s.len() == 0 {
                    act == SAction::Malformed
                } else if !pre.globals.contains_key(k) {
                    act == SAction::RuntimeError(undefined_variable(pre.strings[k as int]), line_at(pre, next))
                } else if pre.globals_capacity > table_limit() {
                    act == SAction::Exhausted
                } else {
                    act == SAction::Continue && stored(pre, post, k, s.last(), next, s)
                }
            } else {
                if pre.globals.contains_key(k) {
                    act == SAction::Continue && moved(pre, post, next, s.push(pre.globals[k]))
                } else {
                    act == SAction::RuntimeError(undefined_variable(pre.strings[k as int]), line_at(pre, next))
                }
            }
        }
    }
}

/// `post` is `pre` after `+` on two strings whose concatenation is
/// `joined`: the concatenation, interned, replaces them on the stack.
pub open spec fn concat_done(pre: VmView, post: VmView, joined: Seq<char>) -> bool {
    let n = pre.stack.len();
    &&& post.code == pre.code
    &&& post.constants == pre.constants
    &&& post.lines == pre.lines
    &&& post.table_len == pre.table_len
    &&& post.globals == pre.globals
    &&& post.globals_capacity == pre.globals_capacity
    &&& post.globals_count == pre.globals_count
    &&& post.ip == pre.ip + 1
    &&& post.strings == (if pre.strings.contains(joined) {
        pre.strings
    } else {
        pre.strings.push(joined)
    })
    &&& post.stack.len() == n - 1
    &&& post.stack.subrange(0, n - 2) == pre.stack.subrange(0, n - 2)
    &&& (post.stack[n - 2] matches Value::Obj(r) && r.spec_index() < post.strings.len()
        && post.strings[r.spec_index() as int] == joined)
}

/// Whether `+` on two strings finds the heap full.
pub open spec fn concat_exhausted(pre: VmView) -> bool {
    pre.strings.len() >= string_limit()
}

/// One step of the machine from `pre`: the action, and the machine after
/// it. A step that fails (a runtime error, malformed code, a full table)
/// leaves the machine as it was.
pub open spec fn step_post(pre: VmView, post: VmView, act: SAction) -> bool {
    &&& step_act(pre, post, act)
    &&& (act is RuntimeError || act is Malformed || act is Exhausted) ==> post == pre
}

/// The action of one step, and the machine after it where the step
/// succeeds.
pub open spec fn step_act(pre: VmView, post: VmView, act: SAction) -> bool {
    let code = pre.code;
    let ip = pre.ip;
    let s = pre.stack;
    let n = s.len();
    if !(0 <= ip < code.len()) {
        act == SAction::Return && moved(pre, post, ip, s)
    } else {
        match op_of_byte(code[ip]) {
            None => act == SAction::Malformed,
            Some(op) => match op {
                OpCode::Constant | OpCode::ConstantLong => {
                    let long = op == OpCode::ConstantLong;
                    if !operand_present(pre, long) {
                        act == SAction::Malformed
                    } else {
                        let (idx, next) = operand_index(pre, long);
                        if 0 <= idx < pre.constants.len() {
                            act == SAction::Continue && moved(pre, post, next, s.push(pre.constants[idx]))
                        } else {
                            act == SAction::Malformed
                        }
                    }
                },
                OpCode::Nil => act == SAction::Continue && moved(pre, post, ip + 1, s.push(Value::Nil)),
                OpCode::True => act == SAction::Continue && moved(pre, post, ip + 1, s.push(Value::Bool(true))),
                OpCode::False => act == SAction::Continue && moved(pre, post, ip + 1, s.push(Value::Bool(false))),
                OpCode::Pop => if n == 0 {
                    act == SAction::Malformed
                } else {
                    act == SAction::Continue && moved(pre, post, ip + 1, s.drop_last())
                },
                OpCode::GetLocal | OpCode::SetLocal => if ip + 2 > code.len() {
                    act == SAction::Malformed
                } else {
                    let slot = code[ip + 1] as int;
                    if !(slot < n) {
                        act == SAction::Malformed
                    } else if op == OpCode::GetLocal {
                        act == SAction::Continue && moved(pre, post, ip + 2, s.push(s[slot]))
                    } else {
                        act == SAction::Continue && moved(pre, post, ip + 2, s.update(slot, s.last()))
                    }
                },
                OpCode::DefineGlobal => global_step(pre, post, act, false, 0),
                OpCode::DefineGlobalLong => global_step(pre, post, act, true, 0),
                OpCode::SetGlobal => global_step(pre, post, act, false, 1),
                OpCode::SetGlobalLong => global_step(pre, post, act, true, 1),
                OpCode::GetGlobal => global_step(pre, post, act, false, 2),
                OpCode::GetGlobalLong => global_step(pre, post, act, true, 2),
                OpCode::Equal => if n < 2 {
                    act == SAction::Malformed
                } else {
                    act == SAction::Continue && moved(
                        pre,
                        post,
                        ip + 1,
                        s.subrange(0, n - 2).push(Value::Bool(values_equal(s[n - 2], s[n - 1]))),
                    )
                },
                OpCode::Greater | OpCode::Less => if n < 2 {
                    act == SAction::Malformed
                } else {
                    match (s[n - 2], s[n - 1]) {
                        (Value::Number(a), Value::Number(b)) => act == SAction::Continue && moved(
                            pre,
                            post,
                            ip + 1,
                            s.subrange(0, n - 2).push(
                                Value::Bool(
                                    if op == OpCode::Greater {
                                        number_lt(b, a)
                                    } else {
                                        number_lt(a, b)
                                    },
                                ),
                            ),
                        ),
                        _ => act == SAction::RuntimeError("Operands must be numbers."@, line_at(pre, ip + 1)),
                    }
                },
                OpCode::Add => if n < 2 {
                    act == SAction::Malformed
                } else {
                    match (s[n - 2], s[n - 1]) {
                        (Value::Number(a), Value::Number(b)) => act == SAction::Arithmetic(ArithOp::Add, a, b)
                            && moved(pre, post, ip + 1, s.subrange(0, n - 2)),
                        (Value::Obj(i), Value::Obj(j)) => {
                            let joined = pre.strings[i.spec_index() as int] + pre.strings[j.spec_index() as int];
                            if concat_exhausted(pre) {
                                act == SAction::Exhausted
                            } else {
                                act == SAction::Continue && concat_done(pre, post, joined)
                            }
                        },
                        _ => act == SAction::RuntimeError(
                            "Operands must be both numbers or both strings."@,
                            line_at(pre, ip + 1),
                        ),
                    }
                },
                OpCode::Subtract | OpCode::Multiply | OpCode::Divide => if n < 2 {
                    act == SAction::Malformed
                } else {
                    match (s[n - 2], s[n - 1]) {
                        (Value::Number(a), Value::Number(b)) => act == SAction::Arithmetic(
                            if op == OpCode::Subtract {
                                ArithOp::Subtract
                            } else if op == OpCode::Multiply {
                                ArithOp::Multiply
                            } else {
                                ArithOp::Divide
                            },
                            a,
                            b,
                        ) && moved(pre, post, ip + 1, s.subrange(0, n - 2)),
                        _ => act == SAction::RuntimeError("Operands must be numbers."@, line_at(pre, ip + 1)),
                    }
                },
                OpCode::Not => if n == 0 {
                    act == SAction::Malformed
                } else {
                    act == SAction::Continue && moved(pre, post, ip + 1, s.update(n - 1, Value::Bool(is_falsey_spec(s.last()))))
                },
                OpCode::Negate => if n == 0 {
                    act == SAction::Malformed
                } else {
                    match s.last() {
                        Value::Number(a) => act == SAction::Continue && moved(
                            pre,
                            post,
                            ip + 1,
                            s.update(n - 1, Value::Number(negated(a))),
                        ),
                        _ => act == SAction::RuntimeError("Operand must be a number."@, line_at(pre, ip + 1)),
                    }
                },
                OpCode::Print => if n == 0 {
                    act == SAction::Malformed
                } else {
                    act == SAction::Print(s.last()) && moved(pre, post, ip + 1, s.drop_last())
                },
                OpCode::Return => act == SAction::Return && moved(pre, post, ip + 1, s),
            },
        }
    }
}

/// Reading back a global: once `DefineGlobal` (or `SetGlobal`) has given the
/// global named by a constant a value, a `GetGlobal` that names the same
/// constant value pushes that value.
pub proof fn lemma_get_global_after_store(pre: VmView, mid: VmView, post: VmView, a1: SAction, a2: SAction)
    requires
        0 <= pre.ip,
        pre.ip + 1 < pre.code.len(),
        op_of_byte(pre.code[pre.ip]) == Some(OpCode::DefineGlobal) || op_of_byte(pre.code[pre.ip]) == Some(OpCode::SetGlobal),
        step_post(pre, mid, a1),
        a1 == SAction::Continue,
        0 <= mid.ip,
        mid.ip + 1 < mid.code.len(),
        op_of_byte(mid.code[mid.ip]) == Some(OpCode::GetGlobal),
        (mid.code[mid.ip + 1] as int) < mid.constants.len(),
        mid.constants[mid.code[mid.ip + 1] as int] == pre.constants[pre.code[pre.ip + 1] as int],
        step_post(mid, post, a2),
    ensures
        a2 == SAction::Continue,
        post.stack == mid.stack.push(pre.stack.last()),
        post.globals == mid.globals,
{
}

/// What `a t b` is in Lox for two numbers `a` and `b`, for the comparison
/// and equality operators `t`: `a >= b` is "a is not less than b", and
/// `a <= b` is "b is not less than a".
pub open spec fn compared(t: TokenType, a: u64, b: u64) -> bool {
    match t {
        TokenType::Greater => number_lt(b, a),
        TokenType::GreaterEqual => !number_lt(a, b),
        TokenType::Less => number_lt(a, b),
        TokenType::LessEqual => !number_lt(b, a),
        TokenType::EqualEqual => number_eq(a, b),
        _ => !number_eq(a, b),
    }
}

pub open spec fn is_comparison(t: TokenType) -> bool {
    t == TokenType::Greater || t == TokenType::GreaterEqual || t == TokenType::Less || t == TokenType::LessEqual
        || t == TokenType::EqualEqual || t == TokenType::BangEqual
}

/// The code the compiler writes for a comparison or equality operator (see
/// `binary_emits`) holds, from `ip` on, in the machine's code.
pub open spec fn holds_code(v: VmView, ops: Seq<Emit>) -> bool {
    &&& 0 <= v.ip
    &&& v.ip + ops.len() <= v.code.len()
    &&& forall|i: int| 0 <= i < ops.len() ==> (#[trigger] ops[i]) is Op && v.code[v.ip + i] == op_byte(ops[i]->Op_0)
}

/// Running what the compiler writes for `a t b`, with the numbers `a` and
/// `b` on top of the stack, leaves the Lox value of `a t b` in their place:
/// the code of a single-instruction operator takes one step, that of `>=`,
/// `<=` and `!=` two.
pub proof fn lemma_compiled_comparison(
    t: TokenType,
    at: usize,
    pre: VmView,
    mid: VmView,
    post: VmView,
    a1: SAction,
    a2: SAction,
    a: u64,
    b: u64,
)
    requires
        is_comparison(t),
        holds_code(pre, binary_emits(t, at)),
        pre.stack.len() >= 2,
        pre.stack[pre.stack.len() - 2] == Value::Number(a),
        pre.stack[pre.stack.len() - 1] == Value::Number(b),
        step_post(pre, mid, a1),
        step_post(mid, post, a2),
    ensures
        a1 == SAction::Continue,
        ({
            let n = pre.stack.len();
            let result = pre.stack.subrange(0, n - 2).push(Value::Bool(compared(t, a, b)));
            if t == TokenType::GreaterEqual || t == TokenType::LessEqual || t == TokenType::BangEqual {
                a2 == SAction::Continue && post.stack == result && post.ip == pre.ip + 2
            } else {
                mid.stack == result && mid.ip == pre.ip + 1
            }
        }),
{
    let ops = binary_emits(t, at);
    assert(ops[0] is Op);
    lemma_op_byte_roundtrip(ops[0]->Op_0, 0);
    if ops.len() > 1 {
        assert(ops[1] is Op);
        lemma_op_byte_roundtrip(ops[1]->Op_0, 0);
    }
    let n = pre.stack.len();
    assert(pre.stack.subrange(0, n - 2).push(Value::Bool(compared(t, a, b))).len() == n - 1);
}

/// The host arithmetic that `a t b` asks for, for the arithmetic operators
/// `t`.
pub open spec fn arithmetic_of(t: TokenType) -> ArithOp {
    match t {
        TokenType::Plus => ArithOp::Add,
        TokenType::Minus => ArithOp::Subtract,
        TokenType::Star => ArithOp::Multiply,
        _ => ArithOp::Divide,
    }
}

/// Running what the compiler writes for `a t b`, for an arithmetic operator
/// `t` and two numbers on top of the stack, pops them and asks the host for
/// the operator's own arithmetic on `a` and `b`, in that order.
pub proof fn lemma_compiled_arithmetic(t: TokenType, at: usize, pre: VmView, post: VmView, act: SAction, a: u64, b: u64)
    requires
        t == TokenType::Plus || t == TokenType::Minus || t == TokenType::Star || t == TokenType::Slash,
        holds_code(pre, binary_emits(t, at)),
        pre.stack.len() >= 2,
        pre.stack[pre.stack.len() - 2] == Value::Number(a),
        pre.stack[pre.stack.len() - 1] == Value::Number(b),
        step_post(pre, post, act),
    ensures
        binary_emits(t, at).len() == 1,
        act == SAction::Arithmetic(arithmetic_of(t), a, b),
        post.stack == pre.stack.subrange(0, pre.stack.len() - 2),
        post.ip == pre.ip + 1,
{
    let ops = binary_emits(t, at);
    assert(ops[0] is Op);
    lemma_op_byte_roundtrip(ops[0]->Op_0, 0);
}

/// Running what the compiler writes for a prefix `-` on a number gives the
/// number with its sign flipped, which is its opposite on the number line;
/// for a prefix `!` it gives true exactly for `nil` and `false`.
pub proof fn lemma_compiled_unary(t: TokenType, at: usize, pre: VmView, post: VmView, act: SAction)
    requires
        t == TokenType::Minus || t == TokenType::Bang,
        holds_code(pre, seq![Emit::Op(unary_op(t), at)]),
        pre.stack.len() >= 1,
        step_post(pre, post, act),
    ensures
        t == TokenType::Bang ==> act == SAction::Continue && post.stack == pre.stack.update(
            pre.stack.len() - 1,
            Value::Bool(pre.stack.last() is Nil || pre.stack.last() == Value::Bool(false)),
        ),
        t == TokenType::Minus ==> (pre.stack.last() matches Value::Number(x) ==> {
            &&& act == SAction::Continue
            &&& post.stack.len() == pre.stack.len()
            &&& post.stack.subrange(0, post.stack.len() - 1) == pre.stack.subrange(0, pre.stack.len() - 1)
            &&& (post.stack.last() matches Value::Number(y) && (!is_nan_bits(x) ==> number_key(y) == -number_key(x))
                && is_nan_bits(y) == is_nan_bits(x))
        }),
        t == TokenType::Minus ==> (!(pre.stack.last() is Number) ==> act is RuntimeError),
{
    lemma_op_byte_roundtrip(unary_op(t), 0);
    assert(seq![Emit::Op(unary_op(t), at)][0] == Emit::Op(unary_op(t), at));
    assert(pre.code[pre.ip] == op_byte(unary_op(t)));
    let n = pre.stack.len();
    if t == TokenType::Minus {
        if let Value::Number(x) = pre.stack.last() {
            let y = negated(x);
            assert(post.stack == pre.stack.update(n - 1, Value::Number(y)));
            assert(post.stack.subrange(0, n - 1) =~= pre.stack.subrange(0, n - 1));
            assert(y == x ^ 0x8000_0000_0000_0000u64);
            assert(x >= 0x8000_0000_0000_0000u64 ==> y == x - 0x8000_0000_0000_0000u64) by (bit_vector)
                requires y == x ^ 0x8000_0000_0000_0000u64;
            assert(x < 0x8000_0000_0000_0000u64 ==> y == x + 0x8000_0000_0000_0000u64) by (bit_vector)
                requires y == x ^ 0x8000_0000_0000_0000u64;
        }
    }
}

/// Running what the compiler writes for `true`, `false` or `nil` pushes
/// that value.
pub proof fn lemma_compiled_literal(t: TokenType, at: usize, pre: VmView, post: VmView, act: SAction)
    requires
        t == TokenType::True || t == TokenType::False || t == TokenType::Nil,
        holds_code(pre, seq![Emit::Op(literal_op(t), at)]),
        step_post(pre, post, act),
    ensures
        act == SAction::Continue,
        post.stack == pre.stack.push(
            if t == TokenType::True {
                Value::Bool(true)
            } else if t == TokenType::False {
                Value::Bool(false)
            } else {
                Value::Nil
            },
        ),
{
    lemma_op_byte_roundtrip(literal_op(t), 0);
    assert(seq![Emit::Op(literal_op(t), at)][0] == Emit::Op(literal_op(t), at));
    assert(pre.code[pre.ip] == op_byte(literal_op(t)));
}

/// `+` on two strings: when the heap has room, the machine replaces them
/// by one string whose text is the lower one's followed by the top one's,
/// and the heap keeps every string it held.
pub proof fn lemma_concat_step(pre: VmView, post: VmView, act: SAction, i: nat, j: nat)
    requires
        0 <= pre.ip < pre.code.len(),
        op_of_byte(pre.code[pre.ip]) == Some(OpCode::Add),
        pre.stack.len() >= 2,
        pre.stack[pre.stack.len() - 2] matches Value::Obj(x) && x.spec_index() == i,
        pre.stack[pre.stack.len() - 1] matches Value::Obj(y) && y.spec_index() == j,
        pre.strings.len() < string_limit(),
        step_post(pre, post, act),
    ensures
        act == SAction::Continue,
        post.stack.len() == pre.stack.len() - 1,
        post.stack.last() matches Value::Obj(r) && r.spec_index() < post.strings.len()
            && post.strings[r.spec_index() as int] == pre.strings[i as int] + pre.strings[j as int],
        forall|k: int| 0 <= k < pre.strings.len() ==> post.strings[k] == pre.strings[k],
{
    let n = pre.stack.len();
    assert(post.stack[n - 2] == post.stack.last());
}

/// Locals on the machine: `SetLocal` stores the top of the stack in its
/// slot and leaves the stack's height as it was, and a `GetLocal` of the
/// same slot right after it pushes the stored value.
pub proof fn lemma_get_local_after_set(pre: VmView, mid: VmView, post: VmView, a1: SAction, a2: SAction)
    requires
        0 <= pre.ip,
        pre.ip + 1 < pre.code.len(),
        op_of_byte(pre.code[pre.ip]) == Some(OpCode::SetLocal),
        (pre.code[pre.ip + 1] as int) < pre.stack.len(),
        step_post(pre, mid, a1),
        0 <= mid.ip,
        mid.ip + 1 < mid.code.len(),
        op_of_byte(mid.code[mid.ip]) == Some(OpCode::GetLocal),
        mid.code[mid.ip + 1] == pre.code[pre.ip + 1],
        step_post(mid, post, a2),
    ensures
        a1 == SAction::Continue,
        mid.stack.len() == pre.stack.len(),
        mid.stack.last() == pre.stack.last(),
        a2 == SAction::Continue,
        post.stack == mid.stack.push(pre.stack.last()),
{
}

/// `!` on the machine: `Not` replaces the top of the stack by true exactly
/// when it is `nil` or `false`, and by false otherwise.
pub proof fn lemma_not_step(pre: VmView, post: VmView, act: SAction)
    requires
        0 <= pre.ip < pre.code.len(),
        op_of_byte(pre.code[pre.ip]) == Some(OpCode::Not),
        pre.stack.len() > 0,
        step_post(pre, post, act),
    ensures
        act == SAction::Continue,
        post.stack == pre.stack.update(
            pre.stack.len() - 1,
            Value::Bool(pre.stack.last() is Nil || pre.stack.last() == Value::Bool(false)),
        ),
        post.ip == pre.ip + 1,
{
}

/// `==` on the machine: `Equal` replaces the two values on top by whether
/// they are equal, which is symmetric, true of `nil` and `nil`, of a boolean
/// and itself, of a number that is not NaN and itself, and false of values
/// of different kinds.
pub proof fn lemma_equal_step(pre: VmView, post: VmView, act: SAction, swapped: VmView, post2: VmView, act2: SAction)
    requires
        0 <= pre.ip < pre.code.len(),
        op_of_byte(pre.code[pre.ip]) == Some(OpCode::Equal),
        pre.stack.len() >= 2,
        step_post(pre, post, act),
        swapped == (VmView {
            stack: pre.stack.subrange(0, pre.stack.len() - 2).push(pre.stack.last()).push(pre.stack[pre.stack.len() - 2]),
            ..pre
        }),
        step_post(swapped, post2, act2),
    ensures
        act == SAction::Continue,
        post.stack.len() == pre.stack.len() - 1,
        post.stack.subrange(0, post.stack.len() - 1) == pre.stack.subrange(0, pre.stack.len() - 2),
        post.stack.last() == post2.stack.last(),
        ({
            let x = pre.stack[pre.stack.len() - 2];
            let y = pre.stack.last();
            &&& (x is Nil && y is Nil) ==> post.stack.last() == Value::Bool(true)
            &&& (x is Bool && x == y) ==> post.stack.last() == Value::Bool(true)
            &&& (x matches Value::Number(u) && !is_nan_bits(u) && x == y) ==> post.stack.last() == Value::Bool(true)
            &&& (x is Nil != y is Nil || x is Bool != y is Bool || x is Number != y is Number)
                ==> post.stack.last() == Value::Bool(false)
        }),
{
    let n = pre.stack.len();
    assert(swapped.stack[n - 2] == pre.stack.last());
    assert(swapped.stack[n - 1] == pre.stack[n - 2]);
    assert(post.stack.subrange(0, post.stack.len() - 1) =~= pre.stack.subrange(0, n - 2));
}

// ---------------------------------------------------------------------------
// The machine.

fn string_of(s: &str) -> (res: String)
    ensures
        res@ == s@,
{
    s.to_owned()
}

/// `a < b` on two binary64 numbers given by their bit patterns.
pub fn number_less(a: u64, b: u64) -> (res: bool)
    ensures
        res == number_lt(a, b),
{
    let a_nan = (a / 0x10_0000_0000_0000) % 0x800 == 0x7ff && a % 0x10_0000_0000_0000 != 0;
    let b_nan = (b / 0x10_0000_0000_0000) % 0x800 == 0x7ff && b % 0x10_0000_0000_0000 != 0;
    if a_nan || b_nan {
        return false;
    }
    let ka: i128 = if a >= 0x8000_0000_0000_0000u64 {
        -((a - 0x8000_0000_0000_0000u64) as i128)
    } else {
        a as i128
    };
    let kb: i128 = if b >= 0x8000_0000_0000_0000u64 {
        -((b - 0x8000_0000_0000_0000u64) as i128)
    } else {
        b as i128
    };
    ka < kb
}

/// The report of a runtime error: its message, then `[line N] in script`.
pub fn runtime_error_text(message: &str, line: usize) -> (res: String)
    ensures
        res@ == message@ + "\n[line "@ + decimal(line as nat) + "] in script"@,
{
    let mut out = string_of(message);
    out.append("\n[line ");
    push_decimal(&mut out, line);
    out.append("] in script");
    out
}

/// The negation of a binary64 number given by its bit pattern.
pub fn negate_number(bits: u64) -> (res: u64)
    ensures
        res == negated(bits),
{
    bits ^ 0x8000_0000_0000_0000u64
}

pub struct VirtualMachine {
    heap: Heap,
    globals: Table,
    chunk: Chunk,
    stack: Vec<Value>,
    ip: usize,
}

impl VirtualMachine {
    pub closed spec fn view(&self) -> VmView {
        VmView {
            code: self.chunk.spec_code(),
            constants: self.chunk.spec_constants(),
            lines: self.chunk.spec_lines(),
            table_len: self.chunk.spec_table_len(),
            ip: self.ip as int,
            stack: self.stack@,
            globals: self.globals.spec_map(),
            globals_capacity: self.globals.spec_capacity(),
            globals_count: self.globals.spec_count(),
            strings: self.heap.spec_strings(),
        }
    }

    pub closed spec fn wf(&self) -> bool {
        let n = self.heap.spec_strings().len();
        &&& self.heap.wf()
        &&& self.chunk.wf()
        &&& self.globals.wf(&self.heap.spec_object_heap())
        &&& self.globals.no_tombstones()
        &&& forall|i: int| 0 <= i < self.chunk.spec_constants().len() ==> valid_value(#[trigger] self.chunk.spec_constants()[i], n)
        &&& forall|i: int| 0 <= i < self.stack@.len() ==> valid_value(#[trigger] self.stack@[i], n)
        &&& forall|k: usize| #[trigger] self.globals.spec_map().contains_key(k) ==> valid_value(self.globals.spec_map()[k], n)
    }

    /// A machine with an empty heap, no globals and no code.
    pub fn new() -> (res: Self)
        ensures
            res.wf(),
            res.view().stack == Seq::<Value>::empty(),
            res.view().globals == Map::<usize, Value>::empty(),
            res.view().strings == Seq::<Seq<char>>::empty(),
            res.view().code == Seq::<u8>::empty(),
            res.view().constants == Seq::<Value>::empty(),
            res.view().lines == Seq::<usize>::empty(),
            res.view().table_len == 0,
            res.view().ip == 0,
    {
        let heap = Heap::new();
        let globals = Table::new();
        let vm = VirtualMachine { heap, globals, chunk: Chunk::new(), stack: Vec::new(), ip: 0 };
        proof {
            assert(vm.globals.wf(&vm.heap.spec_object_heap()));
        }
        vm
    }

    /// The heap, for a host that reads the strings of values.
    pub fn heap(&self) -> (res: &Heap)
        ensures
            res.spec_strings() == self.view().strings,
            self.wf() ==> res.wf(),
    {
        &self.heap
    }

    /// Starts running `chunk` from its first instruction with an empty stack.
    pub fn load(&mut self, chunk: Chunk)
        requires
            old(self).wf(),
            chunk.wf(),
            forall|i: int| 0 <= i < chunk.spec_constants().len() ==> valid_value(#[trigger] chunk.spec_constants()[i], old(self).view().strings.len()),
        ensures
            final(self).wf(),
            final(self).view().code == chunk.spec_code(),
            final(self).view().constants == chunk.spec_constants(),
            final(self).view().lines == chunk.spec_lines(),
            final(self).view().table_len == chunk.spec_table_len(),
            final(self).view().ip == 0,
            final(self).view().stack == Seq::<Value>::empty(),
            final(self).view().globals == old(self).view().globals,
            final(self).view().strings == old(self).view().strings,
    {
        self.chunk = chunk;
        self.ip = 0;
        self.stack = Vec::new();
    }

    /// Compiles the program `source` into a fresh chunk, with its strings
    /// interned in the machine's heap, and loads it when the compile
    /// succeeds; otherwise the code and stack stay as they were. Globals are
    /// kept either way.
    pub fn interpret<F: Fn(&str) -> u64>(&mut self, source: &str, number_bits: &F, errors: &mut Vec<CompileError>) -> (res: InterpretResult)
        requires
            old(self).wf(),
            forall|s: &str| #[trigger] number_bits.requires((s,)),
        ensures
            final(self).wf(),
            res == InterpretResult::InterpretOk || res == InterpretResult::InterpretCompileError,
            final(self).view().globals == old(self).view().globals,
            old(self).view().strings.len() <= final(self).view().strings.len(),
            forall|i: int| 0 <= i < old(self).view().strings.len() ==> final(self).view().strings[i] == old(self).view().strings[i],
            res == InterpretResult::InterpretOk ==> {
                let items = program_emits(source_tokens(source@), 0)->0;
                &&& program_emits(source_tokens(source@), 0) is Some
                &&& final(self).view().code == encode(items, 0)
                &&& final(self).view().constants.len() == lits(items).len()
                &&& forall|j: int| 0 <= j < lits(items).len() ==> literal_constant(
                    source_tokens(source@),
                    #[trigger] lits(items)[j] as int,
                    final(self).view().constants[j],
                    final(self).view().strings,
                    *number_bits,
                )
                &&& final(self).view().lines == encode_lines(source_tokens(source@), items, 0, 0)
                &&& final(self).view().ip == 0
                &&& final(self).view().stack == Seq::<Value>::empty()
                &&& final(errors)@ == old(errors)@
            },
            !clean(source_tokens(source@)) || program_emits(source_tokens(source@), 0) is None
                ==> res == InterpretResult::InterpretCompileError,
            ({
                let items = program_emits(source_tokens(source@), 0)->0;
                source@.len() + 2 < usize::MAX && crate::scanner::newlines(source@, source@.len() as int) + 2 < u32::MAX
                    && clean(source_tokens(source@)) && program_emits(source_tokens(source@), 0) is Some
                    && weight(items) < usize::MAX - 8 && lits(items).len() <= MAX_CONSTANT_INDEX + 1
                    && old(self).view().strings.len() + lits(items).len() < string_limit()
            }) ==> res == InterpretResult::InterpretOk,
            res == InterpretResult::InterpretCompileError ==> {
                &&& final(errors)@.len() > old(errors)@.len()
                &&& final(self).view().code == old(self).view().code
                &&& final(self).view().ip == old(self).view().ip
                &&& final(self).view().stack == old(self).view().stack
            },
    {
        let mut chunk = Chunk::new();
        assert(chunk.spec_lines() + encode_lines(source_tokens(source@), program_emits(source_tokens(source@), 0)->0, 0, 0)
            =~= encode_lines(source_tokens(source@), program_emits(source_tokens(source@), 0)->0, 0, 0));
        assert(chunk.spec_code() + encode(program_emits(source_tokens(source@), 0)->0, 0) =~= encode(program_emits(source_tokens(source@), 0)->0, 0));
        let ghost old_objects = self.heap.spec_object_heap();
        let ghost old_heap = self.heap;
        let out = compile_program(source, &mut chunk, &mut self.heap, number_bits, errors);
        proof {
            self.globals.lemma_wf_heap_grows(&old_objects, &self.heap.spec_object_heap());
            old_heap.lemma_strings_len();
            self.heap.lemma_strings_len();
            assert(heap_extends(old_heap, self.heap));
            assert forall|i: int| 0 <= i < old_heap.spec_strings().len() implies self.heap.spec_strings()[i] == old_heap.spec_strings()[i] by {
                old_heap.lemma_string_at(i);
                self.heap.lemma_string_at(i);
            }
        }
        match out {
            Ok(()) => {
                proof {
                    chunk.lemma_one_line_per_byte();
                }
                self.load(chunk);
                InterpretResult::InterpretOk
            },
            Err(()) => InterpretResult::InterpretCompileError,
        }
    }

    /// Pushes the result of an arithmetic action.
    pub fn push_number(&mut self, bits: u64)
        requires
            old(self).wf(),
        ensures
            final(self).wf(),
            moved(old(self).view(), final(self).view(), old(self).view().ip, old(self).view().stack.push(Value::Number(bits))),
    {
        self.stack.push(Value::Number(bits));
    }

    fn error(&self, message: String, at: usize) -> (res: Action)
        requires
            self.wf(),
        ensures
            action_view(res) == SAction::RuntimeError(message@, line_at(self.view(), at as int)),
    {
        Action::RuntimeError(message, self.chunk.line_at_index(at))
    }

    /// The operand index of a constant instruction, and where the next
    /// instruction starts.
    fn read_operand(&self, long: bool) -> (res: Option<(usize, usize)>)
        requires
            self.wf(),
            (self.ip as int) < self.view().code.len(),
        ensures
            res is Some <==> operand_present(self.view(), long),
            res matches Some((i, n)) ==> operand_index(self.view(), long) == (i as int, n as int),
    {
        let len = self.chunk.count();
        if long {
            if len - self.ip >= 4 {
                let b0 = self.chunk.byte_at_index(self.ip + 1) as usize;
                let b1 = self.chunk.byte_at_index(self.ip + 2) as usize;
                let b2 = self.chunk.byte_at_index(self.ip + 3) as usize;
                Some((b0 + 256 * b1 + 65536 * b2, self.ip + 4))
            } else {
                None
            }
        } else {
            if len - self.ip >= 2 {
                Some((self.chunk.byte_at_index(self.ip + 1) as usize, self.ip + 2))
            } else {
                None
            }
        }
    }

    fn global(&mut self, long: bool, kind: u8) -> (res: Action)
        requires
            old(self).wf(),
            (old(self).ip as int) < old(self).view().code.len(),
            kind <= 2,
        ensures
            final(self).wf(),
            global_step(old(self).view(), final(self).view(), action_view(res), long, kind as int),
            (res is RuntimeError || res is Malformed || res is Exhausted) ==> final(self).view() == old(self).view(),
    {
        let (idx, next) = match self.read_operand(long) {
            Some(p) => p,
            None => return Action::Malformed,
        };
        if idx >= self.chunk.constants_len() {
            return Action::Malformed;
        }
        let name = *self.chunk.constant_at_index(idx);
        let key = match name {
            Value::Obj(k) => k,
            _ => return Action::Malformed,
        };
        proof {
            self.heap.lemma_strings_len();
            assert(valid_value(self.chunk.spec_constants()[idx as int], self.heap.spec_strings().len()));
        }
        if kind == 0 || kind == 1 {
            if self.stack.len() == 0 {
                return Action::Malformed;
            }
            let top = self.stack[self.stack.len() - 1];
            if kind == 1 {
                match self.globals.get(key, self.heap.object_heap()) {
                    Some(_) => {},
                    None => {
                        let mut message = string_of("Undefined variable '");
                        message.append(self.heap.get_unchecked_objstr(key).string());
                        message.append("'.");
                        return self.error(message, next);
                    },
                }
            }
            if self.globals.capacity() > usize::MAX / 16 {
                return Action::Exhausted;
            }
            self.globals.set(key, top, self.heap.object_heap());
            if kind == 0 {
                self.stack.pop();
            }
            self.ip = next;
            Action::Continue
        } else {
            match self.globals.get(key, self.heap.object_heap()) {
                Some(value) => {
                    self.stack.push(value);
                    self.ip = next;
                    Action::Continue
                },
                None => {
                    let mut message = string_of("Undefined variable '");
                    message.append(self.heap.get_unchecked_objstr(key).string());
                    message.append("'.");
                    self.error(message, next)
                },
            }
        }
    }

    /// Runs one instruction.
    pub fn step(&mut self) -> (res: Action)
        requires
            old(self).wf(),
        ensures
            final(self).wf(),
            step_post(old(self).view(), final(self).view(), action_view(res)),
    {
        let len = self.chunk.count();
        if self.ip >= len {
            return Action::Return;
        }
        let ip = self.ip;
        let op = match self.chunk.op_at_index(ip) {
            Ok(op) => op,
            Err(_) => return Action::Malformed,
        };
        let n = self.stack.len();
        let ghost s0 = self.stack@;
        match op {
            OpCode::Constant | OpCode::ConstantLong => {
                let (idx, next) = match self.read_operand(op == OpCode::ConstantLong) {
                    Some(p) => p,
                    None => return Action::Malformed,
                };
                if idx >= self.chunk.constants_len() {
                    return Action::Malformed;
                }
                let value = *self.chunk.constant_at_index(idx);
                self.stack.push(value);
                self.ip = next;
                Action::Continue
            },
            OpCode::Nil => {
                self.stack.push(Value::Nil);
                self.ip = ip + 1;
                Action::Continue
            },
            OpCode::True => {
                self.stack.push(Value::Bool(true));
                self.ip = ip + 1;
                Action::Continue
            },
            OpCode::False => {
                self.stack.push(Value::Bool(false));
                self.ip = ip + 1;
                Action::Continue
            },
            OpCode::Pop => {
                if n == 0 {
                    return Action::Malformed;
                }
                self.stack.pop();
                self.ip = ip + 1;
                Action::Continue
            },
            OpCode::GetLocal | OpCode::SetLocal => {
                if len - ip < 2 {
                    return Action::Malformed;
                }
                let slot = self.chunk.byte_at_index(ip + 1) as usize;
                if slot >= n {
                    return Action::Malformed;
                }
                if op == OpCode::GetLocal {
                    let v = self.stack[slot];
                    self.stack.push(v);
                } else {
                    let top = self.stack[n - 1];
                    self.stack.set(slot, top);
                }
                self.ip = ip + 2;
                Action::Continue
            },
            OpCode::DefineGlobal => self.global(false, 0),
            OpCode::DefineGlobalLong => self.global(true, 0),
            OpCode::SetGlobal => self.global(false, 1),
            OpCode::SetGlobalLong => self.global(true, 1),
            OpCode::GetGlobal => self.global(false, 2),
            OpCode::GetGlobalLong => self.global(true, 2),
            OpCode::Equal => {
                if n < 2 {
                    return Action::Malformed;
                }
                let b = self.stack.pop().unwrap();
                let a = self.stack.pop().unwrap();
                self.stack.push(a.is_equal(&b));
                assert(self.stack@ =~= s0.subrange(0, n - 2).push(Value::Bool(values_equal(s0[n - 2], s0[n - 1]))));
                self.ip = ip + 1;
                Action::Continue
            },
            OpCode::Greater | OpCode::Less => {
                if n < 2 {
                    return Action::Malformed;
                }
                match (self.stack[n - 2], self.stack[n - 1]) {
                    (Value::Number(a), Value::Number(b)) => {
                        self.stack.pop();
                        self.stack.pop();
                        let r = if op == OpCode::Greater {
                            number_less(b, a)
                        } else {
                            number_less(a, b)
                        };
                        self.stack.push(Value::Bool(r));
                        assert(self.stack@ =~= s0.subrange(0, n - 2).push(Value::Bool(r)));
                        self.ip = ip + 1;
                        Action::Continue
                    },
                    _ => self.error(string_of("Operands must be numbers."), ip + 1),
                }
            },
            OpCode::Add => {
                if n < 2 {
                    return Action::Malformed;
                }
                match (self.stack[n - 2], self.stack[n - 1]) {
                    (Value::Number(a), Value::Number(b)) => {
                        self.stack.pop();
                        self.stack.pop();
                        assert(self.stack@ =~= s0.subrange(0, n - 2));
                        self.ip = ip + 1;
                        Action::Arithmetic(ArithOp::Add, a, b)
                    },
                    (Value::Obj(i), Value::Obj(j)) => self.concatenate(i, j),
                    _ => self.error(string_of("Operands must be both numbers or both strings."), ip + 1),
                }
            },
            OpCode::Subtract | OpCode::Multiply | OpCode::Divide => {
                if n < 2 {
                    return Action::Malformed;
                }
                match (self.stack[n - 2], self.stack[n - 1]) {
                    (Value::Number(a), Value::Number(b)) => {
                        self.stack.pop();
                        self.stack.pop();
                        assert(self.stack@ =~= s0.subrange(0, n - 2));
                        self.ip = ip + 1;
                        let aop = if op == OpCode::Subtract {
                            ArithOp::Subtract
                        } else if op == OpCode::Multiply {
                            ArithOp::Multiply
                        } else {
                            ArithOp::Divide
                        };
                        Action::Arithmetic(aop, a, b)
                    },
                    _ => self.error(string_of("Operands must be numbers."), ip + 1),
                }
            },
            OpCode::Not => {
                if n == 0 {
                    return Action::Malformed;
                }
                let v = self.stack[n - 1].is_falsey();
                self.stack.set(n - 1, v);
                self.ip = ip + 1;
                Action::Continue
            },
            OpCode::Negate => {
                if n == 0 {
                    return Action::Malformed;
                }
                match self.stack[n - 1] {
                    Value::Number(a) => {
                        self.stack.set(n - 1, Value::Number(negate_number(a)));
                        self.ip = ip + 1;
                        Action::Continue
                    },
                    _ => self.error(string_of("Operand must be a number."), ip + 1),
                }
            },
            OpCode::Print => {
                if n == 0 {
                    return Action::Malformed;
                }
                let v = self.stack.pop().unwrap();
                self.ip = ip + 1;
                Action::Print(v)
            },
            OpCode::Return => {
                self.ip = ip + 1;
                Action::Return
            },
        }
    }

    /// `+` on two strings: their concatenation, interned.
    fn concatenate(&mut self, i: TypedHeapIndex<Obj>, j: TypedHeapIndex<Obj>) -> (res: Action)
        requires
            old(self).wf(),
            (old(self).ip as int) < old(self).view().code.len(),
            old(self).stack@.len() >= 2,
            old(self).stack@[old(self).stack@.len() - 2] == Value::Obj(i),
            old(self).stack@[old(self).stack@.len() - 1] == Value::Obj(j),
        ensures
            final(self).wf(),
            ({
                let pre = old(self).view();
                let post = final(self).view();
                let n = pre.stack.len();
                let joined = pre.strings[i.spec_index() as int] + pre.strings[j.spec_index() as int];
                if concat_exhausted(pre) {
                    action_view(res) == SAction::Exhausted && post == pre
                } else {
                    action_view(res) == SAction::Continue && concat_done(pre, post, joined)
                }
            }),
    {
        proof {
            self.heap.lemma_strings_len();
            let n = self.stack@.len();
            assert(valid_value(self.stack@[n - 2], self.heap.spec_strings().len()));
            assert(valid_value(self.stack@[n - 1], self.heap.spec_strings().len()));
        }
        let len = self.chunk.count();
        if self.heap.strings_len() >= usize::MAX / 64 {
            return Action::Exhausted;
        }
        let mut joined = string_of(self.heap.get_unchecked_objstr(i).string());
        joined.append(self.heap.get_unchecked_objstr(j).string());
        let ghost old_objects = self.heap.spec_object_heap();
        let ghost old_n = self.heap.spec_strings().len();
        let value = self.heap.allocate_string(joined);
        proof {
            self.globals.lemma_wf_heap_grows(&old_objects, &self.heap.spec_object_heap());
            self.heap.lemma_strings_len();
        }
        self.stack.pop();
        self.stack.pop();
        self.stack.push(value);
        self.ip = self.ip + 1;
        proof {
            let s = self.stack@;
            assert(s.subrange(0, s.len() - 1) =~= old(self).stack@.subrange(0, old(self).stack@.len() - 2));
        }
        Action::Continue
    }
}

} // verus!
