//! Runtime values of the bytecode virtual machine and the heap objects they
//! point to.

use vstd::prelude::*;
use vstd::string::StringSliceAdditionalSpecFns;

pub mod heap;

use heap::TypedHeapIndex;

verus! {

/// A value on the virtual machine's stack or in a chunk's constant table.
///
/// A number is carried by its IEEE 754 binary64 bit pattern: this crate only
/// stores, moves and compares numbers; their arithmetic belongs to the host.
#[derive(Debug, Clone, Copy)]
pub enum Value {
    Nil,
    Number(u64),
    Bool(bool),
    Obj(TypedHeapIndex<Obj>),
}

/// Whether a binary64 bit pattern encodes a NaN: every exponent bit set and a
/// non-zero fraction.
pub open spec fn is_nan_bits(bits: u64) -> bool {
    (bits / 0x10_0000_0000_0000) % 0x800 == 0x7ff && bits % 0x10_0000_0000_0000 != 0
}

/// Whether a binary64 bit pattern encodes positive or negative zero.
pub open spec fn is_zero_bits(bits: u64) -> bool {
    bits % 0x8000_0000_0000_0000 == 0
}

/// IEEE 754 equality of two binary64 numbers given by their bit patterns:
/// NaN equals nothing, the two zeros are equal, anything else is equal
/// exactly when the patterns are.
pub open spec fn number_eq(a: u64, b: u64) -> bool {
    !is_nan_bits(a) && !is_nan_bits(b) && (a == b || (is_zero_bits(a) && is_zero_bits(b)))
}

/// Compares two numbers, given by their bit patterns, as `==` on `f64` does.
pub fn number_bits_equal(a: u64, b: u64) -> (res: bool)
    ensures
        res == number_eq(a, b),
{
    let a_nan = (a / 0x10_0000_0000_0000) % 0x800 == 0x7ff && a % 0x10_0000_0000_0000 != 0;
    let b_nan = (b / 0x10_0000_0000_0000) % 0x800 == 0x7ff && b % 0x10_0000_0000_0000 != 0;
    if a_nan || b_nan {
        false
    } else {
        a == b || (a % 0x8000_0000_0000_0000 == 0 && b % 0x8000_0000_0000_0000 == 0)
    }
}

impl Value {
    pub fn new_number(bits: u64) -> (res: Self)
        ensures
            res == Value::Number(bits),
    {
        Self::Number(bits)
    }

    pub fn new_bool(b: bool) -> (res: Self)
        ensures
            res == Value::Bool(b),
    {
        Self::Bool(b)
    }

    /// The value for `s`: its interned string object.
    pub fn new_string(s: String, heap: &mut heap::Heap) -> (res: Self)
        requires
            old(heap).wf(),
            old(heap).spec_strings().len() < heap::string_limit(),
        ensures
            final(heap).wf(),
            res matches Value::Obj(k) && k.spec_index() < final(heap).spec_strings().len()
                && final(heap).spec_strings()[k.spec_index() as int] == s@,
            old(heap).spec_strings().contains(s@) ==> final(heap).spec_strings() == old(heap).spec_strings(),
            !old(heap).spec_strings().contains(s@) ==> final(heap).spec_strings() == old(heap).spec_strings().push(s@),
    {
        heap.allocate_string(s)
    }

    /// How a constant reads in a listing: `Nil`, a boolean, the contents of a
    /// string, or a number as `number_text` writes it, between quotes.
    pub fn debug_text<F: Fn(u64) -> String>(&self, heap: &heap::Heap, number_text: &F) -> (res: String)
        requires
            *self matches Value::Obj(k) ==> k.spec_index() < heap.spec_strings().len(),
            forall|b: u64| #[trigger] number_text.requires((b,)),
        ensures
            match *self {
                Value::Nil => res@ == "Nil"@,
                Value::Bool(b) => res@ == (if b { "true"@ } else { "false"@ }),
                Value::Obj(k) => res@ == heap.spec_strings()[k.spec_index() as int],
                Value::Number(x) => exists|t: String| #[trigger] number_text.ensures((x,), t) && res@ == "'"@ + t@ + "'"@,
            },
    {
        match self {
            Self::Nil => "Nil".to_owned(),
            Self::Bool(b) => if *b {
                "true".to_owned()
            } else {
                "false".to_owned()
            },
            Self::Obj(k) => heap.get_unchecked_objstr(k.clone()).string().to_owned(),
            Self::Number(x) => {
                let t = number_text(*x);
                let mut out = "'".to_owned();
                out.append(t.as_str());
                out.append("'");
                out
            },
        }
    }

    /// The number held, or `Err(())` for any other kind of value.
    pub fn as_number(&self) -> (res: Result<u64, ()>)
        ensures
            res == (match *self {
                Value::Number(x) => Ok::<u64, ()>(x),
                _ => Err(()),
            }),
    {
        match self {
            Self::Number(x) => Ok(*x),
            _ => Err(()),
        }
    }

    /// Lox falsiness as a value: `true` for `nil` and `false`, `false` otherwise.
    pub fn is_falsey(&self) -> (res: Value)
        ensures
            res == Value::Bool(is_falsey_spec(*self)),
    {
        match self {
            Self::Nil => Self::Bool(true),
            Self::Bool(false) => Self::Bool(true),
            _ => Self::Bool(false),
        }
    }

    /// Lox equality as a value. Strings are interned, so two string objects
    /// are equal exactly when they are the same heap object.
    pub fn is_equal(&self, other: &Value) -> (res: Value)
        ensures
            res == Value::Bool(values_equal(*self, *other)),
    {
        Self::Bool(self.is_equal_raw(other))
    }

    /// Lox equality: numbers compare as `f64` does, booleans and `nil` by
    /// value, heap objects by identity; values of different kinds differ.
    pub fn is_equal_raw(&self, other: &Value) -> (res: bool)
        ensures
            res == values_equal(*self, *other),
    {
        match (self, other) {
            (Self::Nil, Self::Nil) => true,
            (Self::Number(a), Self::Number(b)) => number_bits_equal(*a, *b),
            (Self::Bool(a), Self::Bool(b)) => *a == *b,
            (Self::Obj(index1), Self::Obj(index2)) => index1.index() == index2.index(),
            _ => false,
        }
    }
}

/// Falsiness in Lox: only `nil` and `false` are false.
pub open spec fn is_falsey_spec(v: Value) -> bool {
    match v {
        Value::Nil => true,
        Value::Bool(b) => !b,
        _ => false,
    }
}

/// Equality of two values in Lox.
pub open spec fn values_equal(a: Value, b: Value) -> bool {
    match (a, b) {
        (Value::Nil, Value::Nil) => true,
        (Value::Number(x), Value::Number(y)) => number_eq(x, y),
        (Value::Bool(x), Value::Bool(y)) => x == y,
        (Value::Obj(i), Value::Obj(j)) => i.spec_index() == j.spec_index(),
        _ => false,
    }
}

/// An interned string object. Because of interning there is never a second
/// `ObjStr` on the same heap with the same contents.
#[derive(Debug, Clone)]
pub struct ObjStr {
    pub(crate) string: String,
    pub(crate) hash: u32,
}

impl ObjStr {
    pub closed spec fn spec_string(&self) -> Seq<char> {
        self.string@
    }

    pub closed spec fn spec_hash(&self) -> u32 {
        self.hash
    }

    pub fn string(&self) -> (res: &str)
        ensures
            res@ == self.spec_string(),
    {
        self.string.as_str()
    }

    pub fn hash(&self) -> (res: u32)
        ensures
            res == self.spec_hash(),
    {
        self.hash
    }
}

/// One step of 32-bit FNV-1a: xor in the byte, then multiply by the FNV prime
/// modulo 2^32.
pub open spec fn fnv1a_step(hash: u32, byte: u8) -> u32 {
    (((hash ^ (byte as u32)) as nat * 16777619nat) % 0x1_0000_0000nat) as u32
}

/// 32-bit FNV-1a of a byte sequence.
pub open spec fn fnv1a(bytes: Seq<u8>) -> u32
    decreases bytes.len(),
{
    if bytes.len() == 0 {
        2166136261u32
    } else {
        fnv1a_step(fnv1a(bytes.drop_last()), bytes.last())
    }
}

/// The hash of a string: FNV-1a over its UTF-8 bytes.
pub open spec fn hash_of_chars(s: Seq<char>) -> u32 {
    fnv1a(vstd::utf8::encode_utf8(s))
}

/// FNV-1a continued from `hash` over `bytes`.
pub open spec fn fnv1a_from(hash: u32, bytes: Seq<u8>) -> u32
    decreases bytes.len(),
{
    if bytes.len() == 0 {
        hash
    } else {
        fnv1a_step(fnv1a_from(hash, bytes.drop_last()), bytes.last())
    }
}

proof fn lemma_fnv1a_concat(x: Seq<u8>, y: Seq<u8>)
    ensures
        fnv1a(x + y) == fnv1a_from(fnv1a(x), y),
    decreases y.len(),
{
    if y.len() == 0 {
        assert(x + y =~= x);
    } else {
        lemma_fnv1a_concat(x, y.drop_last());
        assert((x + y).drop_last() =~= x + y.drop_last());
    }
}

proof fn lemma_encode_utf8_concat(a: Seq<char>, b: Seq<char>)
    ensures
        vstd::utf8::encode_utf8(a + b) == vstd::utf8::encode_utf8(a) + vstd::utf8::encode_utf8(b),
    decreases a.len(),
{
    if a.len() == 0 {
        assert(a + b =~= b);
        assert(vstd::utf8::encode_utf8(a) + vstd::utf8::encode_utf8(b) =~= vstd::utf8::encode_utf8(b));
    } else {
        lemma_encode_utf8_concat(a.drop_first(), b);
        assert((a + b).drop_first() =~= a.drop_first() + b);
        assert((a + b)[0] == a[0]);
        let e = vstd::utf8::encode_scalar(a[0] as u32);
        assert(e + (vstd::utf8::encode_utf8(a.drop_first()) + vstd::utf8::encode_utf8(b))
            =~= (e + vstd::utf8::encode_utf8(a.drop_first())) + vstd::utf8::encode_utf8(b));
    }
}

/// The hash of a concatenation continues the hash of its first part over
/// the bytes of the second.
pub proof fn lemma_hash_of_concat(a: Seq<char>, b: Seq<char>)
    ensures
        hash_of_chars(a + b) == fnv1a_from(hash_of_chars(a), vstd::utf8::encode_utf8(b)),
{
    lemma_encode_utf8_concat(a, b);
    lemma_fnv1a_concat(vstd::utf8::encode_utf8(a), vstd::utf8::encode_utf8(b));
}

/// Hashes the UTF-8 encoding of `s` with 32-bit FNV-1a.
pub fn hash_of_str(s: &str) -> (res: u32)
    ensures
        res == hash_of_chars(s@),
{
    let bytes = s.as_bytes();
    let mut hash: u32 = 2166136261;
    let mut i: usize = 0;
    while i < bytes.len()
        invariant
            i <= bytes@.len(),
            bytes@ == s.spec_bytes(),
            hash == fnv1a(bytes@.subrange(0, i as int)),
        decreases bytes@.len() - i,
    {
        let b = bytes[i];
        hash = hash ^ (b as u32);
        hash = hash.wrapping_mul(16777619);
        assert(bytes@.subrange(0, i + 1).drop_last() =~= bytes@.subrange(0, i as int));
        i = i + 1;
    }
    assert(bytes@.subrange(0, bytes@.len() as int) =~= bytes@);
    hash
}

/// Compares two strings by their contents.
pub fn str_equal(a: &str, b: &str) -> (res: bool)
    ensures
        res == (a@ == b@),
{
    let x = a.as_bytes();
    let y = b.as_bytes();
    proof {
        vstd::utf8::encode_utf8_decode_utf8(a@);
        vstd::utf8::encode_utf8_decode_utf8(b@);
    }
    if x.len() != y.len() {
        return false;
    }
    let mut i: usize = 0;
    while i < x.len()
        invariant
            x@.len() == y@.len(),
            x@ == a.spec_bytes(),
            y@ == b.spec_bytes(),
            i <= x@.len(),
            forall|j: int| 0 <= j < i ==> x@[j] == y@[j],
        decreases x@.len() - i,
    {
        if x[i] != y[i] {
            return false;
        }
        i = i + 1;
    }
    assert(x@ =~= y@);
    proof {
        vstd::utf8::encode_utf8_decode_utf8(a@);
        vstd::utf8::encode_utf8_decode_utf8(b@);
    }
    true
}

/// What a heap object is.
#[derive(Debug, Clone)]
pub enum ObjType {
    String(ObjStr),
}

/// A heap-allocated Lox object.
#[derive(Debug, Clone)]
pub struct Obj {
    pub(crate) obj_type: ObjType,
}

impl Obj {
    pub closed spec fn spec_obj_str(&self) -> ObjStr {
        match self.obj_type {
            ObjType::String(s) => s,
        }
    }

    /// The string this object holds.
    pub fn obj_str(&self) -> (res: &ObjStr)
        ensures
            *res == self.spec_obj_str(),
    {
        match &self.obj_type {
            ObjType::String(s) => s,
        }
    }

    pub fn obj_type(&self) -> (res: &ObjType)
        ensures
            *res == ObjType::String(self.spec_obj_str()),
    {
        &self.obj_type
    }
}

} // verus!
