//! What the tree-walking interpreter's unary and binary operators do to
//! their operands. Numbers are binary64 bit patterns: comparisons, equality
//! and negation are decided here, and `+ - * /` on two numbers is handed to
//! the host, which computes in floating point.

use vstd::prelude::*;

use crate::value::{is_nan_bits, is_zero_bits, number_bits_equal, number_eq};
use crate::vm::{negate_number, negated, number_less, number_lt, ArithOp};
use crate::walker::parsed_token::{BinaryOp, UnaryOp};

verus! {

/// The kind of a value that is compared by identity.
#[derive(Debug, Clone, Copy, PartialEq, Eq, Structural)]
pub enum RefKind {
    Function,
    Method,
    Class,
    Instance,
}

/// An operand: a plain value, or a callable or instance given by its kind
/// and an identity the host chose (two such operands are the same value
/// exactly when kind and identity agree).
#[derive(Debug, Clone)]
pub enum Operand {
    Nil,
    Bool(bool),
    Number(u64),
    Str(String),
    Ref(RefKind, usize),
}

/// What an operator gives.
#[derive(Debug)]
pub enum Outcome {
    /// A new value.
    Value(Operand),
    /// The right operand itself.
    Right,
    /// Compute `a op b` on two numbers (bit patterns) in floating point.
    Arithmetic(ArithOp, u64, u64),
    /// A runtime error with this message.
    Error(String),
}

/// An operand as values.
pub enum SOperand {
    Nil,
    Bool(bool),
    Number(u64),
    Str(Seq<char>),
    Ref(RefKind, usize),
}

pub enum SOutcome {
    Value(SOperand),
    Right,
    Arithmetic(ArithOp, u64, u64),
    Error(Seq<char>),
}

pub open spec fn operand_view(o: Operand) -> SOperand {
    match o {
        Operand::Nil => SOperand::Nil,
        Operand::Bool(b) => SOperand::Bool(b),
        Operand::Number(n) => SOperand::Number(n),
        Operand::Str(s) => SOperand::Str(s@),
        Operand::Ref(k, i) => SOperand::Ref(k, i),
    }
}

pub open spec fn outcome_view(o: Outcome) -> SOutcome {
    match o {
        Outcome::Value(v) => SOutcome::Value(operand_view(v)),
        Outcome::Right => SOutcome::Right,
        Outcome::Arithmetic(op, a, b) => SOutcome::Arithmetic(op, a, b),
        Outcome::Error(m) => SOutcome::Error(m@),
    }
}

/// `nil` and `false` are false; everything else is true.
pub open spec fn truthy(v: SOperand) -> bool {
    match v {
        SOperand::Nil => false,
        SOperand::Bool(b) => b,
        _ => true,
    }
}

pub open spec fn kind_name(v: SOperand) -> Seq<char> {
    match v {
        SOperand::Nil => "Nil"@,
        SOperand::Bool(_) => "Boolean"@,
        SOperand::Number(_) => "Number"@,
        SOperand::Str(_) => "String"@,
        SOperand::Ref(RefKind::Function, _) => "Function"@,
        SOperand::Ref(RefKind::Method, _) => "Method"@,
        SOperand::Ref(RefKind::Class, _) => "Class"@,
        SOperand::Ref(RefKind::Instance, _) => "Instance"@,
    }
}

pub open spec fn not_a_number(v: SOperand) -> Seq<char> {
    "Type error: expected Number, found "@ + kind_name(v)
}

/// Lox equality: numbers as binary64 `==`, except that two NaNs are equal;
/// strings by their text; callables and instances by identity.
pub open spec fn lox_equal(a: SOperand, b: SOperand) -> bool {
    match (a, b) {
        (SOperand::Nil, SOperand::Nil) => true,
        (SOperand::Bool(x), SOperand::Bool(y)) => x == y,
        (SOperand::Number(x), SOperand::Number(y)) => (is_nan_bits(x) && is_nan_bits(y)) || number_eq(x, y),
        (SOperand::Str(x), SOperand::Str(y)) => x == y,
        (SOperand::Ref(k, i), SOperand::Ref(l, j)) => k == l && i == j,
        _ => false,
    }
}

pub open spec fn unary_outcome(op: UnaryOp, v: SOperand) -> SOutcome {
    match op {
        UnaryOp::Bang => SOutcome::Value(SOperand::Bool(!truthy(v))),
        UnaryOp::Minus => match v {
            SOperand::Number(n) => SOutcome::Value(SOperand::Number(negated(n))),
            _ => SOutcome::Error(not_a_number(v)),
        },
    }
}

/// A binary operator on two numbers, or the error for the first operand
/// (left, then right) that is not one.
pub open spec fn on_numbers(l: SOperand, r: SOperand, f: spec_fn(u64, u64) -> SOutcome) -> SOutcome {
    match (l, r) {
        (SOperand::Number(a), SOperand::Number(b)) => f(a, b),
        (SOperand::Number(_), _) => SOutcome::Error(not_a_number(r)),
        _ => SOutcome::Error(not_a_number(l)),
    }
}

pub open spec fn binary_outcome(op: BinaryOp, l: SOperand, r: SOperand) -> SOutcome {
    match op {
        BinaryOp::Minus => on_numbers(l, r, |a: u64, b: u64| SOutcome::Arithmetic(ArithOp::Subtract, a, b)),
        BinaryOp::Star => on_numbers(l, r, |a: u64, b: u64| SOutcome::Arithmetic(ArithOp::Multiply, a, b)),
        BinaryOp::Plus => match (l, r) {
            (SOperand::Number(a), SOperand::Number(b)) => SOutcome::Arithmetic(ArithOp::Add, a, b),
            (SOperand::Str(a), SOperand::Str(b)) => SOutcome::Value(SOperand::Str(a + b)),
            _ => SOutcome::Error("Type error: + with incompatible types"@),
        },
        BinaryOp::Slash => match r {
            SOperand::Number(b) => if is_zero_bits(b) {
                SOutcome::Error("Division by zero"@)
            } else {
                match l {
                    SOperand::Number(a) => SOutcome::Arithmetic(ArithOp::Divide, a, b),
                    _ => SOutcome::Error(not_a_number(l)),
                }
            },
            _ => SOutcome::Error(not_a_number(r)),
        },
        BinaryOp::Greater => on_numbers(l, r, |a: u64, b: u64| SOutcome::Value(SOperand::Bool(number_lt(b, a)))),
        BinaryOp::GreaterEqual => on_numbers(
            l,
            r,
            |a: u64, b: u64| SOutcome::Value(SOperand::Bool(number_lt(b, a) || number_eq(a, b))),
        ),
        BinaryOp::Less => on_numbers(l, r, |a: u64, b: u64| SOutcome::Value(SOperand::Bool(number_lt(a, b)))),
        BinaryOp::LessEqual => on_numbers(
            l,
            r,
            |a: u64, b: u64| SOutcome::Value(SOperand::Bool(number_lt(a, b) || number_eq(a, b))),
        ),
        BinaryOp::BangEqual => SOutcome::Value(SOperand::Bool(!lox_equal(l, r))),
        BinaryOp::EqualEqual => SOutcome::Value(SOperand::Bool(lox_equal(l, r))),
        BinaryOp::Comma => SOutcome::Right,
    }
}

fn string_of(s: &str) -> (res: String)
    ensures
        res@ == s@,
{
    s.to_owned()
}

fn kind_name_of(v: &Operand) -> (res: &'static str)
    ensures
        res@ == kind_name(operand_view(*v)),
{
    match v {
        Operand::Nil => "Nil",
        Operand::Bool(_) => "Boolean",
        Operand::Number(_) => "Number",
        Operand::Str(_) => "String",
        Operand::Ref(RefKind::Function, _) => "Function",
        Operand::Ref(RefKind::Method, _) => "Method",
        Operand::Ref(RefKind::Class, _) => "Class",
        Operand::Ref(RefKind::Instance, _) => "Instance",
    }
}

fn not_a_number_error(v: &Operand) -> (res: Outcome)
    ensures
        outcome_view(res) == SOutcome::Error(not_a_number(operand_view(*v))),
{
    let mut message = string_of("Type error: expected Number, found ");
    message.append(kind_name_of(v));
    Outcome::Error(message)
}

fn is_nan(bits: u64) -> (res: bool)
    ensures
        res == is_nan_bits(bits),
{
    (bits / 0x10_0000_0000_0000) % 0x800 == 0x7ff && bits % 0x10_0000_0000_0000 != 0
}

/// Whether two operands are equal as Lox compares values.
pub fn operands_equal(a: &Operand, b: &Operand) -> (res: bool)
    ensures
        res == lox_equal(operand_view(*a), operand_view(*b)),
{
    match (a, b) {
        (Operand::Nil, Operand::Nil) => true,
        (Operand::Bool(x), Operand::Bool(y)) => *x == *y,
        (Operand::Number(x), Operand::Number(y)) => (is_nan(*x) && is_nan(*y)) || number_bits_equal(*x, *y),
        (Operand::Str(x), Operand::Str(y)) => crate::value::str_equal(x.as_str(), y.as_str()),
        (Operand::Ref(k, i), Operand::Ref(l, j)) => *k == *l && *i == *j,
        _ => false,
    }
}

/// What the unary operator `op` gives for `v`.
pub fn unary(op: UnaryOp, v: &Operand) -> (res: Outcome)
    ensures
        outcome_view(res) == unary_outcome(op, operand_view(*v)),
{
    match op {
        UnaryOp::Bang => {
            let t = match v {
                Operand::Nil => false,
                Operand::Bool(b) => *b,
                _ => true,
            };
            Outcome::Value(Operand::Bool(!t))
        },
        UnaryOp::Minus => match v {
            Operand::Number(n) => Outcome::Value(Operand::Number(negate_number(*n))),
            _ => not_a_number_error(v),
        },
    }
}

/// What the binary operator `op` gives for `l` and `r`.
pub fn binary(op: BinaryOp, l: &Operand, r: &Operand) -> (res: Outcome)
    ensures
        outcome_view(res) == binary_outcome(op, operand_view(*l), operand_view(*r)),
{
    match op {
        BinaryOp::Plus => match (l, r) {
            (Operand::Number(a), Operand::Number(b)) => Outcome::Arithmetic(ArithOp::Add, *a, *b),
            (Operand::Str(a), Operand::Str(b)) => {
                let mut joined = a.clone();
                joined.append(b.as_str());
                Outcome::Value(Operand::Str(joined))
            },
            _ => Outcome::Error(string_of("Type error: + with incompatible types")),
        },
        BinaryOp::Slash => match r {
            Operand::Number(b) => {
                if *b % 0x8000_0000_0000_0000 == 0 {
                    Outcome::Error(string_of("Division by zero"))
                } else {
                    match l {
                        Operand::Number(a) => Outcome::Arithmetic(ArithOp::Divide, *a, *b),
                        _ => not_a_number_error(l),
                    }
                }
            },
            _ => not_a_number_error(r),
        },
        BinaryOp::BangEqual => Outcome::Value(Operand::Bool(!operands_equal(l, r))),
        BinaryOp::EqualEqual => Outcome::Value(Operand::Bool(operands_equal(l, r))),
        BinaryOp::Comma => Outcome::Right,
        _ => match (l, r) {
            (Operand::Number(a), Operand::Number(b)) => match op {
                BinaryOp::Minus => Outcome::Arithmetic(ArithOp::Subtract, *a, *b),
                BinaryOp::Star => Outcome::Arithmetic(ArithOp::Multiply, *a, *b),
                BinaryOp::Greater => Outcome::Value(Operand::Bool(number_less(*b, *a))),
                BinaryOp::GreaterEqual => Outcome::Value(
                    Operand::Bool(number_less(*b, *a) || number_bits_equal(*a, *b)),
                ),
                BinaryOp::Less => Outcome::Value(Operand::Bool(number_less(*a, *b))),
                _ => Outcome::Value(Operand::Bool(number_less(*a, *b) || number_bits_equal(*a, *b))),
            },
            (Operand::Number(_), _) => not_a_number_error(r),
            _ => not_a_number_error(l),
        },
    }
}

} // verus!

verus! {

/// The truth value an outcome carries, if it is a boolean value.
pub open spec fn truth(o: SOutcome) -> Option<bool> {
    match o {
        SOutcome::Value(SOperand::Bool(b)) => Some(b),
        _ => None,
    }
}

/// `a < b` on two numbers.
pub open spec fn less(a: u64, b: u64) -> Option<bool> {
    truth(binary_outcome(BinaryOp::Less, SOperand::Number(a), SOperand::Number(b)))
}

/// The comparisons of two numbers that are not NaN agree with one another:
/// each gives a boolean; `>` is `<` with the operands swapped; `<=` holds
/// exactly when `>` does not, and `>=` exactly when `<` does not; `<` is
/// irreflexive, so `x <= x` and `x >= x` hold; of `a < b`, `b < a` and
/// `a == b` exactly one holds; and on numbers that are not negative, `<`
/// follows the order of their bit patterns.
pub proof fn lemma_number_comparisons(a: u64, b: u64)
    requires
        !is_nan_bits(a),
        !is_nan_bits(b),
    ensures
        less(a, b) is Some,
        truth(binary_outcome(BinaryOp::Greater, SOperand::Number(a), SOperand::Number(b))) == less(b, a),
        truth(binary_outcome(BinaryOp::LessEqual, SOperand::Number(a), SOperand::Number(b))) == Some(!(less(b, a)->0)),
        truth(binary_outcome(BinaryOp::GreaterEqual, SOperand::Number(a), SOperand::Number(b))) == Some(!(less(a, b)->0)),
        less(a, a) == Some(false),
        ({
            let eq = truth(binary_outcome(BinaryOp::EqualEqual, SOperand::Number(a), SOperand::Number(b)))->0;
            let x = less(a, b)->0;
            let y = less(b, a)->0;
            (x && !y && !eq) || (!x && y && !eq) || (!x && !y && eq)
        }),
        a < 0x8000_0000_0000_0000u64 && b < 0x8000_0000_0000_0000u64 ==> (less(a, b) == Some(a < b)),
{
}

/// Equality is reflexive, NaN included, and symmetric, and `!=` is its
/// negation, on any operands.
pub proof fn lemma_equality(a: SOperand, b: SOperand)
    ensures
        truth(binary_outcome(BinaryOp::EqualEqual, a, a)) == Some(true),
        truth(binary_outcome(BinaryOp::EqualEqual, a, b)) == truth(binary_outcome(BinaryOp::EqualEqual, b, a)),
        truth(binary_outcome(BinaryOp::BangEqual, a, b)) == Some(!(truth(binary_outcome(BinaryOp::EqualEqual, a, b))->0)),
        truth(binary_outcome(BinaryOp::EqualEqual, a, b)) is Some,
{
}

/// On two numbers, `+`, `-` and `*` hand the host the operands in their
/// order with the operator's own arithmetic, and so does `/` when the
/// divisor is not zero.
pub proof fn lemma_arithmetic_requests(a: u64, b: u64)
    ensures
        binary_outcome(BinaryOp::Plus, SOperand::Number(a), SOperand::Number(b)) == SOutcome::Arithmetic(ArithOp::Add, a, b),
        binary_outcome(BinaryOp::Minus, SOperand::Number(a), SOperand::Number(b)) == SOutcome::Arithmetic(ArithOp::Subtract, a, b),
        binary_outcome(BinaryOp::Star, SOperand::Number(a), SOperand::Number(b)) == SOutcome::Arithmetic(ArithOp::Multiply, a, b),
        !is_zero_bits(b) ==> binary_outcome(BinaryOp::Slash, SOperand::Number(a), SOperand::Number(b)) == SOutcome::Arithmetic(ArithOp::Divide, a, b),
        is_zero_bits(b) ==> binary_outcome(BinaryOp::Slash, SOperand::Number(a), SOperand::Number(b)) is Error,
{
}

/// `!` gives true exactly for `nil` and `false`, and `-` negates a number
/// twice back to itself.
pub proof fn lemma_unary(v: SOperand, n: u64)
    ensures
        unary_outcome(UnaryOp::Bang, v) == SOutcome::Value(SOperand::Bool(v is Nil || v == SOperand::Bool(false))),
        unary_outcome(UnaryOp::Minus, SOperand::Number(n)) matches SOutcome::Value(SOperand::Number(m))
            && unary_outcome(UnaryOp::Minus, SOperand::Number(m)) == SOutcome::Value(SOperand::Number(n)) && m != n,
{
    let m = negated(n);
    assert(negated(m) == n) by (bit_vector)
        requires m == n ^ 0x8000_0000_0000_0000u64;
    assert(m != n) by (bit_vector)
        requires m == n ^ 0x8000_0000_0000_0000u64;
}

} // verus!
