//! Bytecode chunks: instruction bytes, a constant table, and a run-length
//! table of source lines.

use vstd::prelude::*;

use crate::value::Value;

verus! {

/// The instructions of the virtual machine. Each is stored as one byte: its
/// position in this list.
#[derive(Debug, PartialEq, Eq, Structural, Clone, Copy)]
pub enum OpCode {
    ConstantLong,
    Constant,
    Nil,
    True,
    False,
    Pop,
    Equal,
    Greater,
    Less,
    Add,
    Subtract,
    Multiply,
    Divide,
    Not,
    Negate,
    Print,
    DefineGlobal,
    DefineGlobalLong,
    SetGlobal,
    SetGlobalLong,
    GetGlobal,
    GetGlobalLong,
    SetLocal,
    GetLocal,
    Return,
}

/// The largest byte that encodes an instruction (that of `OpCode::Return`).
pub const LAST_OP_CODE_BYTE: u8 = 24;

/// The byte that encodes `op`: its position in the declaration of `OpCode`.
pub open spec fn op_byte(op: OpCode) -> u8 {
    match op {
        OpCode::ConstantLong => 0,
        OpCode::Constant => 1,
        OpCode::Nil => 2,
        OpCode::True => 3,
        OpCode::False => 4,
        OpCode::Pop => 5,
        OpCode::Equal => 6,
        OpCode::Greater => 7,
        OpCode::Less => 8,
        OpCode::Add => 9,
        OpCode::Subtract => 10,
        OpCode::Multiply => 11,
        OpCode::Divide => 12,
        OpCode::Not => 13,
        OpCode::Negate => 14,
        OpCode::Print => 15,
        OpCode::DefineGlobal => 16,
        OpCode::DefineGlobalLong => 17,
        OpCode::SetGlobal => 18,
        OpCode::SetGlobalLong => 19,
        OpCode::GetGlobal => 20,
        OpCode::GetGlobalLong => 21,
        OpCode::SetLocal => 22,
        OpCode::GetLocal => 23,
        OpCode::Return => 24,
    }
}

/// The instruction that `byte` encodes, if any.
pub open spec fn op_of_byte(byte: u8) -> Option<OpCode> {
    if byte > LAST_OP_CODE_BYTE {
        None
    } else {
        Some(choose|op: OpCode| op_byte(op) == byte)
    }
}

/// The mnemonic that the disassembler prints for `op`.
pub open spec fn dis_name(op: OpCode) -> Seq<char> {
    match op {
        OpCode::Constant => "CONSTANT"@,
        OpCode::Return => "RETURN"@,
        OpCode::ConstantLong => "CONSTANT_LONG"@,
        OpCode::Nil => "NIL"@,
        OpCode::True => "TRUE"@,
        OpCode::False => "FALSE"@,
        OpCode::Pop => "POP"@,
        OpCode::Equal => "EQUAL"@,
        OpCode::Greater => "GREATER"@,
        OpCode::Less => "LESS"@,
        OpCode::Negate => "NEGATE"@,
        OpCode::Add => "ADD"@,
        OpCode::Subtract => "SUBTRACT"@,
        OpCode::Not => "NOT"@,
        OpCode::Multiply => "MULTIPLY"@,
        OpCode::Divide => "DIVIDE"@,
        OpCode::Print => "PRINT"@,
        OpCode::DefineGlobal => "DEFINE_GLOBAL"@,
        OpCode::DefineGlobalLong => "DEFINE_GLOBAL_LONG"@,
        OpCode::GetGlobal => "GET_GLOBAL"@,
        OpCode::GetGlobalLong => "GET_GLOBAL_LONG"@,
        OpCode::SetGlobal => "SET_GLOBAL"@,
        OpCode::SetGlobalLong => "SET_GLOBAL_LONG"@,
        OpCode::SetLocal => "SET_LOCAL"@,
        OpCode::GetLocal => "GET_LOCAL"@,
    }
}

/// Distinct instructions are encoded by distinct bytes, each at most
/// `LAST_OP_CODE_BYTE`.
pub proof fn lemma_op_byte_injective(a: OpCode, b: OpCode)
    ensures
        op_byte(a) <= LAST_OP_CODE_BYTE,
        op_byte(a) == op_byte(b) ==> a == b,
{
}

/// Every byte up to `LAST_OP_CODE_BYTE` encodes some instruction.
pub proof fn lemma_op_byte_surjective(byte: u8)
    requires
        byte <= LAST_OP_CODE_BYTE,
    ensures
        exists|op: OpCode| op_byte(op) == byte,
{
    let op = match byte {
        0 => OpCode::ConstantLong,
        1 => OpCode::Constant,
        2 => OpCode::Nil,
        3 => OpCode::True,
        4 => OpCode::False,
        5 => OpCode::Pop,
        6 => OpCode::Equal,
        7 => OpCode::Greater,
        8 => OpCode::Less,
        9 => OpCode::Add,
        10 => OpCode::Subtract,
        11 => OpCode::Multiply,
        12 => OpCode::Divide,
        13 => OpCode::Not,
        14 => OpCode::Negate,
        15 => OpCode::Print,
        16 => OpCode::DefineGlobal,
        17 => OpCode::DefineGlobalLong,
        18 => OpCode::SetGlobal,
        19 => OpCode::SetGlobalLong,
        20 => OpCode::GetGlobal,
        21 => OpCode::GetGlobalLong,
        22 => OpCode::SetLocal,
        23 => OpCode::GetLocal,
        _ => OpCode::Return,
    };
    assert(op_byte(op) == byte);
}

/// Decoding the byte of an instruction gives the instruction back, and a byte
/// that decodes to an instruction is that instruction's byte.
pub proof fn lemma_op_byte_roundtrip(op: OpCode, byte: u8)
    ensures
        op_of_byte(op_byte(op)) == Some(op),
        op_of_byte(byte) == Some(op) ==> op_byte(op) == byte,
{
    lemma_op_byte_surjective(op_byte(op));
    let found = choose|o: OpCode| op_byte(o) == op_byte(op);
    lemma_op_byte_injective(found, op);
    if op_of_byte(byte) == Some(op) {
        lemma_op_byte_surjective(byte);
    }
}

impl OpCode {
    /// The byte that encodes this instruction.
    pub fn to_byte(self) -> (res: u8)
        ensures
            res == op_byte(self),
    {
        match self {
            OpCode::ConstantLong => 0,
            OpCode::Constant => 1,
            OpCode::Nil => 2,
            OpCode::True => 3,
            OpCode::False => 4,
            OpCode::Pop => 5,
            OpCode::Equal => 6,
            OpCode::Greater => 7,
            OpCode::Less => 8,
            OpCode::Add => 9,
            OpCode::Subtract => 10,
            OpCode::Multiply => 11,
            OpCode::Divide => 12,
            OpCode::Not => 13,
            OpCode::Negate => 14,
            OpCode::Print => 15,
            OpCode::DefineGlobal => 16,
            OpCode::DefineGlobalLong => 17,
            OpCode::SetGlobal => 18,
            OpCode::SetGlobalLong => 19,
            OpCode::GetGlobal => 20,
            OpCode::GetGlobalLong => 21,
            OpCode::SetLocal => 22,
            OpCode::GetLocal => 23,
            OpCode::Return => 24,
        }
    }

    /// The instruction that a byte known to encode one stands for.
    pub fn from_byte_unchecked(byte: u8) -> (res: OpCode)
        requires
            byte <= LAST_OP_CODE_BYTE,
        ensures
            op_byte(res) == byte,
            op_of_byte(byte) == Some(res),
    {
        let op = match byte {
            0 => OpCode::ConstantLong,
            1 => OpCode::Constant,
            2 => OpCode::Nil,
            3 => OpCode::True,
            4 => OpCode::False,
            5 => OpCode::Pop,
            6 => OpCode::Equal,
            7 => OpCode::Greater,
            8 => OpCode::Less,
            9 => OpCode::Add,
            10 => OpCode::Subtract,
            11 => OpCode::Multiply,
            12 => OpCode::Divide,
            13 => OpCode::Not,
            14 => OpCode::Negate,
            15 => OpCode::Print,
            16 => OpCode::DefineGlobal,
            17 => OpCode::DefineGlobalLong,
            18 => OpCode::SetGlobal,
            19 => OpCode::SetGlobalLong,
            20 => OpCode::GetGlobal,
            21 => OpCode::GetGlobalLong,
            22 => OpCode::SetLocal,
            23 => OpCode::GetLocal,
            _ => OpCode::Return,
        };
        proof {
            lemma_op_byte_roundtrip(op, byte);
        }
        op
    }

    /// The instruction that `byte` encodes, or `None` when it encodes none.
    pub fn from_byte(byte: u8) -> (res: Option<OpCode>)
        ensures
            res == op_of_byte(byte),
            res is None <==> byte > LAST_OP_CODE_BYTE,
            res matches Some(op) ==> op_byte(op) == byte,
    {
        if byte > LAST_OP_CODE_BYTE {
            None
        } else {
            Some(OpCode::from_byte_unchecked(byte))
        }
    }

    /// The mnemonic of this instruction.
    pub fn dis_string(&self) -> (res: String)
        ensures
            res@ == dis_name(*self),
    {
        let s: &str = match self {
            Self::Constant => "CONSTANT",
            Self::Return => "RETURN",
            Self::ConstantLong => "CONSTANT_LONG",
            Self::Nil => "NIL",
            Self::True => "TRUE",
            Self::False => "FALSE",
            Self::Pop => "POP",
            Self::Equal => "EQUAL",
            Self::Greater => "GREATER",
            Self::Less => "LESS",
            Self::Negate => "NEGATE",
            Self::Add => "ADD",
            Self::Subtract => "SUBTRACT",
            Self::Not => "NOT",
            Self::Multiply => "MULTIPLY",
            Self::Divide => "DIVIDE",
            Self::Print => "PRINT",
            Self::DefineGlobal => "DEFINE_GLOBAL",
            Self::DefineGlobalLong => "DEFINE_GLOBAL_LONG",
            Self::GetGlobal => "GET_GLOBAL",
            Self::GetGlobalLong => "GET_GLOBAL_LONG",
            Self::SetGlobal => "SET_GLOBAL",
            Self::SetGlobalLong => "SET_GLOBAL_LONG",
            Self::SetLocal => "SET_LOCAL",
            Self::GetLocal => "GET_LOCAL",
        };
        s.to_owned()
    }
}

/// The line table of a chunk: for every line `j`, the number of instructions
/// that lie on lines `0..=j`. Lines are handed in non-decreasing order, so the
/// table is sorted and a lookup is a binary search.
pub struct Lines {
    cumulative_run_counts: Vec<usize>,
    /// The line of each instruction written so far, in order.
    instruction_lines: Ghost<Seq<usize>>,
}

/// The line of the next instruction must not be below that of the last one.
pub open spec fn lines_sorted(lines: Seq<usize>) -> bool {
    forall|i: int, j: int| 0 <= i <= j < lines.len() ==> lines[i] <= lines[j]
}

/// What `Lines::get_line` answers for `instruction_lines` with a table of
/// `table_len` entries: the line of an instruction that exists, else the
/// table's length (one past the last line seen; 0 before any).
pub open spec fn line_lookup(instruction_lines: Seq<usize>, table_len: nat, index: int) -> nat {
    if 0 <= index < instruction_lines.len() {
        instruction_lines[index] as nat
    } else {
        table_len
    }
}

impl Lines {
    /// The line of each instruction recorded so far.
    pub closed spec fn spec_lines(&self) -> Seq<usize> {
        self.instruction_lines@
    }

    /// The number of entries in the table: one more than the last line seen,
    /// or 0 before any instruction.
    pub closed spec fn spec_table_len(&self) -> nat {
        self.cumulative_run_counts@.len()
    }

    /// The last line recorded, or 0 before any instruction.
    pub open spec fn last_line(&self) -> nat {
        if self.spec_lines().len() == 0 {
            0
        } else {
            self.spec_lines().last() as nat
        }
    }

    pub closed spec fn wf(&self) -> bool {
        let counts = self.cumulative_run_counts@;
        let lines = self.instruction_lines@;
        &&& lines_sorted(lines)
        &&& counts.len() == (if lines.len() == 0 {
            0
        } else {
            lines.last() + 1
        })
        &&& forall|j: int|
            #![trigger counts[j]]
            0 <= j < counts.len() ==> {
                &&& counts[j] <= lines.len()
                &&& forall|i: int| 0 <= i < counts[j] ==> lines[i] <= j
                &&& forall|i: int| counts[j] <= i < lines.len() ==> lines[i] > j
            }
    }

    proof fn lemma_wf_table_len(&self)
        requires
            self.wf(),
        ensures
            self.spec_table_len() == (if self.spec_lines().len() == 0 {
                0
            } else {
                self.spec_lines().last() + 1
            }),
    {
    }

    /// The last line recorded, or 0 before any instruction.
    pub fn last_recorded_line(&self) -> (res: usize)
        requires
            self.wf(),
        ensures
            res == self.last_line(),
            res < usize::MAX,
    {
        let n = self.cumulative_run_counts.len();
        if n == 0 {
            0
        } else {
            n - 1
        }
    }

    pub fn new() -> (res: Self)
        ensures
            res.wf(),
            res.spec_lines() == Seq::<usize>::empty(),
            res.spec_table_len() == 0,
    {
        Lines { cumulative_run_counts: Vec::new(), instruction_lines: Ghost(Seq::empty()) }
    }

    /// The table itself: entry `j` counts the instructions on lines `0..=j`.
    pub fn run_counts(&self) -> (res: &Vec<usize>)
        requires
            self.wf(),
        ensures
            res@.len() == self.spec_table_len(),
            forall|j: int|
                0 <= j < res@.len() ==> res@[j] == self.spec_lines().filter(|l: usize| l <= j).len(),
    {
        proof {
            assert forall|j: int| 0 <= j < self.cumulative_run_counts@.len() implies
                self.cumulative_run_counts@[j] == self.instruction_lines@.filter(|l: usize| l <= j).len() by {
                self.lemma_count_is_filter(j);
            }
        }
        &self.cumulative_run_counts
    }

    proof fn lemma_count_is_filter(&self, j: int)
        requires
            self.wf(),
            0 <= j < self.cumulative_run_counts@.len(),
        ensures
            self.cumulative_run_counts@[j] == self.instruction_lines@.filter(|l: usize| l <= j).len(),
    {
        let lines = self.instruction_lines@;
        let k = self.cumulative_run_counts@[j] as int;
        let f = |l: usize| l <= j;
        assert(lines =~= lines.subrange(0, k) + lines.subrange(k, lines.len() as int));
        Seq::filter_distributes_over_add(lines.subrange(0, k), lines.subrange(k, lines.len() as int), f);
        Self::lemma_filter_all(lines.subrange(0, k), f);
        Self::lemma_filter_none(lines.subrange(k, lines.len() as int), f);
    }

    proof fn lemma_filter_all(s: Seq<usize>, f: spec_fn(usize) -> bool)
        requires
            forall|i: int| 0 <= i < s.len() ==> f(s[i]),
        ensures
            s.filter(f) == s,
        decreases s.len(),
    {
        reveal_with_fuel(Seq::<usize>::filter, 1);
        if s.len() > 0 {
            Self::lemma_filter_all(s.drop_last(), f);
            assert(s.drop_last().push(s.last()) =~= s);
        }
    }

    proof fn lemma_filter_none(s: Seq<usize>, f: spec_fn(usize) -> bool)
        requires
            forall|i: int| 0 <= i < s.len() ==> !f(s[i]),
        ensures
            s.filter(f).len() == 0,
        decreases s.len(),
    {
        reveal_with_fuel(Seq::<usize>::filter, 1);
        if s.len() > 0 {
            Self::lemma_filter_none(s.drop_last(), f);
        }
    }

    /// Records the line of the next instruction. Lines must be handed in
    /// non-decreasing order.
    pub fn add_instruction_line(&mut self, line: usize)
        requires
            old(self).wf(),
            line >= old(self).last_line(),
            line < usize::MAX,
            old(self).spec_lines().len() < usize::MAX,
        ensures
            final(self).wf(),
            final(self).spec_lines() == old(self).spec_lines().push(line),
    {
        let ghost old_lines = self.instruction_lines@;
        let ghost old_counts = self.cumulative_run_counts@;
        let target_len = line + 1;
        let len = self.cumulative_run_counts.len();
        let last_num: usize = if len == 0 {
            0
        } else {
            self.cumulative_run_counts[len - 1]
        };
        if target_len != len {
            // The table only grows here: its length is one past the last line.
            let mut k = len;
            while k < target_len
                invariant
                    len <= k <= target_len,
                    target_len == line + 1,
                    self.cumulative_run_counts@.len() == k,
                    self.cumulative_run_counts@.subrange(0, len as int) == old_counts,
                    forall|j: int| len <= j < k ==> self.cumulative_run_counts@[j] == last_num,
                decreases target_len - k,
            {
                self.cumulative_run_counts.push(last_num);
                k = k + 1;
            }
        }
        let last = self.cumulative_run_counts.len() - 1;
        let bumped = self.cumulative_run_counts[last] + 1;
        self.cumulative_run_counts.set(last, bumped);
        self.instruction_lines = Ghost(old_lines.push(line));
        proof {
            let counts = self.cumulative_run_counts@;
            let lines = self.instruction_lines@;
            let n = old_lines.len();
            if n > 0 {
                assert(old_counts[len - 1] == n) by {
                    let c = old_counts[len - 1] as int;
                    if c < n {
                        assert(old_lines[c] > len - 1);
                        assert(old_lines[c] <= old_lines[n - 1]);
                    }
                }
            }
            assert forall|j: int| #![trigger counts[j]] 0 <= j < counts.len() implies {
                &&& counts[j] <= lines.len()
                &&& forall|i: int| 0 <= i < counts[j] ==> lines[i] <= j
                &&& forall|i: int| counts[j] <= i < lines.len() ==> lines[i] > j
            } by {
                if j < len && j < line {
                    assert(old_counts[j] == counts[j]);
                } else if j < line {
                    assert(counts[j] == last_num);
                    assert(last_num == n);
                } else {
                    assert(j == line);
                    assert(counts[j] == n + 1);
                    if j < len {
                        assert(len == line + 1);
                    }
                }
            }
        }
    }

    /// The line of instruction `instruction_index`. For an index past the
    /// last instruction the answer is the next line after the last one seen
    /// (0 when none has been seen).
    pub fn get_line(&self, instruction_index: usize) -> (res: usize)
        requires
            self.wf(),
        ensures
            res == line_lookup(self.spec_lines(), self.spec_table_len(), instruction_index as int),
    {
        // Find the first entry that counts more than `instruction_index`
        // instructions.
        let counts = &self.cumulative_run_counts;
        let mut lo: usize = 0;
        let mut hi: usize = counts.len();
        while lo < hi
            invariant
                0 <= lo <= hi <= counts@.len(),
                counts == &self.cumulative_run_counts,
                self.wf(),
                forall|j: int| 0 <= j < lo ==> counts@[j] <= instruction_index,
                forall|j: int| hi <= j < counts@.len() ==> counts@[j] > instruction_index,
            decreases hi - lo,
        {
            let mid = lo + (hi - lo) / 2;
            if counts[mid] <= instruction_index {
                proof {
                    assert forall|j: int| 0 <= j <= mid implies counts@[j] <= instruction_index by {
                        self.lemma_counts_sorted(j, mid as int);
                    }
                }
                lo = mid + 1;
            } else {
                proof {
                    assert forall|j: int| mid <= j < counts@.len() implies counts@[j] > instruction_index by {
                        self.lemma_counts_sorted(mid as int, j);
                    }
                }
                hi = mid;
            }
        }
        proof {
            let lines = self.instruction_lines@;
            let n = lines.len();
            if (instruction_index as int) < n {
                let line = lines[instruction_index as int];
                self.lemma_wf_table_len();
                assert(line <= lines.last());
                // the entry at the instruction's line counts past it
                assert(counts@[line as int] > instruction_index) by {
                    if counts@[line as int] <= instruction_index {
                        assert(lines[instruction_index as int] > line);
                    }
                }
                // and every earlier entry does not
                if lo < line {
                    assert(counts@[lo as int] > instruction_index);
                    assert(lines[instruction_index as int] <= lo);
                }
                if lo > line {
                    assert(counts@[line as int] <= instruction_index);
                }
            } else {
                if lo < counts@.len() {
                    assert(counts@[lo as int] <= n);
                }
            }
        }
        lo
    }

    proof fn lemma_counts_sorted(&self, a: int, b: int)
        requires
            self.wf(),
            0 <= a <= b < self.cumulative_run_counts@.len(),
        ensures
            self.cumulative_run_counts@[a] <= self.cumulative_run_counts@[b],
    {
        let counts = self.cumulative_run_counts@;
        let lines = self.instruction_lines@;
        if counts[a] > counts[b] {
            let i = counts[b] as int;
            assert(lines[i] > b);
            assert(lines[i] <= a);
        }
    }
}

/// Reading back the line table: every instruction written keeps the line it
/// was written with, and the instruction written last answers with its own
/// line.
pub proof fn lemma_lines_read_after_write(before: Lines, after: Lines, line: usize, index: int)
    requires
        before.wf(),
        after.wf(),
        after.spec_lines() == before.spec_lines().push(line),
        0 <= index <= before.spec_lines().len(),
    ensures
        line_lookup(after.spec_lines(), after.spec_table_len(), index) == (if index
            == before.spec_lines().len() {
            line as nat
        } else {
            line_lookup(before.spec_lines(), before.spec_table_len(), index)
        }),
        after.spec_table_len() == line + 1,
{
    after.lemma_wf_table_len();
}

/// Reading back any number of writes: after the lines `written` are
/// recorded, one per instruction, the table gives each instruction its own
/// line, old and new alike, and answers past the end with one more than the
/// last line.
pub proof fn lemma_lines_read_after_writes(before: Lines, after: Lines, written: Seq<usize>, index: int)
    requires
        before.wf(),
        after.wf(),
        after.spec_lines() == before.spec_lines() + written,
        0 <= index,
    ensures
        line_lookup(after.spec_lines(), after.spec_table_len(), index) == (if index < before.spec_lines().len() {
            line_lookup(before.spec_lines(), before.spec_table_len(), index)
        } else if index < before.spec_lines().len() + written.len() {
            written[index - before.spec_lines().len()] as nat
        } else {
            after.spec_table_len()
        }),
        written.len() > 0 ==> after.spec_table_len() == written.last() + 1,
{
    after.lemma_wf_table_len();
}

/// How a constant's position is written after an instruction: one byte when
/// it fits, else three bytes, least significant first.
#[derive(Clone, Copy, Debug, PartialEq, Eq)]
pub enum ConstantIndex {
    Byte(u8),
    Usize(usize),
}

/// The bytes that follow an instruction to name constant `index`.
pub open spec fn index_bytes(index: ConstantIndex) -> Seq<u8> {
    match index {
        ConstantIndex::Byte(b) => seq![b],
        ConstantIndex::Usize(i) => seq![
            (i % 256) as u8,
            ((i / 256) % 256) as u8,
            ((i / 65536) % 256) as u8,
        ],
    }
}

/// The position named by a constant index.
pub open spec fn index_value(index: ConstantIndex) -> nat {
    match index {
        ConstantIndex::Byte(b) => b as nat,
        ConstantIndex::Usize(i) => i as nat,
    }
}

/// The encoding that `Chunk` picks for the constant at `index`.
pub open spec fn constant_index_for(index: nat) -> ConstantIndex {
    if index <= 0xFF {
        ConstantIndex::Byte(index as u8)
    } else {
        ConstantIndex::Usize(index as usize)
    }
}

/// The largest constant position that an instruction can name.
pub const MAX_CONSTANT_INDEX: usize = 0xFF_FFFF;

/// A compiled unit of bytecode.
pub struct Chunk {
    code: Vec<u8>,
    constants: Vec<Value>,
    lines: Lines,
}

impl Chunk {
    pub closed spec fn spec_code(&self) -> Seq<u8> {
        self.code@
    }

    pub closed spec fn spec_constants(&self) -> Seq<Value> {
        self.constants@
    }

    /// The source line of each byte of code.
    pub closed spec fn spec_lines(&self) -> Seq<usize> {
        self.lines.spec_lines()
    }

    pub closed spec fn spec_table_len(&self) -> nat {
        self.lines.spec_table_len()
    }

    /// The last line written, or 0 before any byte.
    pub open spec fn last_line(&self) -> nat {
        if self.spec_lines().len() == 0 {
            0
        } else {
            self.spec_lines().last() as nat
        }
    }

    pub closed spec fn wf(&self) -> bool {
        &&& self.lines.wf()
        &&& self.lines.spec_lines().len() == self.code@.len()
    }

    /// A valid chunk records one line per byte of code.
    pub proof fn lemma_one_line_per_byte(&self)
        requires
            self.wf(),
        ensures
            self.spec_lines().len() == self.spec_code().len(),
    {
    }

    /// Whether `line` may be written next, and `extra` more bytes with it,
    /// without the line falling or any count overflowing.
    pub open spec fn can_write(&self, line: usize, extra: nat) -> bool {
        &&& line >= self.last_line()
        &&& line < usize::MAX
        &&& self.spec_code().len() + extra < usize::MAX
    }

    pub fn new() -> (res: Self)
        ensures
            res.wf(),
            res.spec_code() == Seq::<u8>::empty(),
            res.spec_constants() == Seq::<Value>::empty(),
            res.spec_lines() == Seq::<usize>::empty(),
            res.spec_table_len() == 0,
    {
        Self { code: Vec::new(), constants: Vec::new(), lines: Lines::new() }
    }

    /// The bytes of code written so far.
    pub fn code(&self) -> (res: &Vec<u8>)
        ensures
            res@ == self.spec_code(),
    {
        &self.code
    }

    /// The line of the last byte written, or 0 before any.
    pub fn last_written_line(&self) -> (res: usize)
        requires
            self.wf(),
        ensures
            res == self.last_line(),
            res < usize::MAX,
    {
        self.lines.last_recorded_line()
    }

    pub fn count(&self) -> (res: usize)
        ensures
            res == self.spec_code().len(),
    {
        self.code.len()
    }

    /// The number of constants.
    pub fn constants_len(&self) -> (res: usize)
        ensures
            res == self.spec_constants().len(),
    {
        self.constants.len()
    }

    /// The source line of the byte at `offset` (see `Lines::get_line`).
    pub fn line_at_index(&self, offset: usize) -> (res: usize)
        requires
            self.wf(),
        ensures
            res == line_lookup(self.spec_lines(), self.spec_table_len(), offset as int),
    {
        self.lines.get_line(offset)
    }

    pub fn byte_at_index(&self, offset: usize) -> (res: u8)
        requires
            offset < self.spec_code().len(),
        ensures
            res == self.spec_code()[offset as int],
    {
        self.code[offset]
    }

    /// The instruction at `offset`, or the byte there when it encodes none.
    pub fn op_at_index(&self, offset: usize) -> (res: Result<OpCode, u8>)
        requires
            offset < self.spec_code().len(),
        ensures
            match op_of_byte(self.spec_code()[offset as int]) {
                Some(op) => res == Ok::<OpCode, u8>(op),
                None => res == Err::<OpCode, u8>(self.spec_code()[offset as int]),
            },
    {
        let byte = self.code[offset];
        match OpCode::from_byte(byte) {
            Some(op) => Ok(op),
            None => Err(byte),
        }
    }

    /// The instruction at `offset`, which must hold one.
    pub fn op_unchecked_at_index_unchecked(&self, offset: usize) -> (res: OpCode)
        requires
            offset < self.spec_code().len(),
            self.spec_code()[offset as int] <= LAST_OP_CODE_BYTE,
        ensures
            op_of_byte(self.spec_code()[offset as int]) == Some(res),
    {
        OpCode::from_byte_unchecked(self.code[offset])
    }

    pub fn constant_at_index(&self, constant_idx: usize) -> (res: &Value)
        requires
            constant_idx < self.spec_constants().len(),
        ensures
            *res == self.spec_constants()[constant_idx as int],
    {
        &self.constants[constant_idx]
    }

    pub fn constant_at_index_unchecked(&self, constant_idx: usize) -> (res: &Value)
        requires
            constant_idx < self.spec_constants().len(),
        ensures
            *res == self.spec_constants()[constant_idx as int],
    {
        &self.constants[constant_idx]
    }

    pub fn write_op(&mut self, op: OpCode, line: usize)
        requires
            old(self).wf(),
            old(self).can_write(line, 0),
        ensures
            final(self).wf(),
            final(self).spec_code() == old(self).spec_code().push(op_byte(op)),
            final(self).spec_lines() == old(self).spec_lines().push(line),
            final(self).spec_constants() == old(self).spec_constants(),
    {
        self.write_byte(op.to_byte(), line);
    }

    /// Appends one byte of code on `line`.
    pub fn write_byte(&mut self, byte: u8, line: usize)
        requires
            old(self).wf(),
            old(self).can_write(line, 0),
        ensures
            final(self).wf(),
            final(self).spec_code() == old(self).spec_code().push(byte),
            final(self).spec_lines() == old(self).spec_lines().push(line),
            final(self).spec_constants() == old(self).spec_constants(),
    {
        self.code.push(byte);
        self.lines.add_instruction_line(line);
    }

    fn write_index(&mut self, op: OpCode, constant_index: ConstantIndex, line: usize)
        requires
            old(self).wf(),
            old(self).can_write(line, 4),
            index_value(constant_index) <= MAX_CONSTANT_INDEX,
        ensures
            final(self).wf(),
            final(self).spec_code() == old(self).spec_code() + seq![op_byte(op)] + index_bytes(
                constant_index,
            ),
            final(self).spec_constants() == old(self).spec_constants(),
            final(self).last_line() == line,
            final(self).spec_lines() == old(self).spec_lines() + Seq::new(
                (final(self).spec_code().len() - old(self).spec_code().len()) as nat,
                |i: int| line,
            ),
    {
        self.write_op(op, line);
        match constant_index {
            ConstantIndex::Byte(index) => {
                self.write_byte(index, line);
            },
            ConstantIndex::Usize(index) => {
                assert((index & 0xFF) == index % 256) by (bit_vector);
                assert(((index >> 8) & 0xFF) == (index / 256) % 256) by (bit_vector);
                assert(((index >> 16) & 0xFF) == (index / 65536) % 256) by (bit_vector);
                self.write_byte((index & 0xFF) as u8, line);
                self.write_byte(((index >> 8) & 0xFF) as u8, line);
                self.write_byte(((index >> 16) & 0xFF) as u8, line);
            },
        }
        assert(self.code@ =~= old(self).code@ + seq![op_byte(op)] + index_bytes(constant_index));
        assert(self.spec_lines() =~= old(self).spec_lines() + Seq::new(
            (self.spec_code().len() - old(self).spec_code().len()) as nat,
            |i: int| line,
        ));
    }

    /// Adds `value` to the constant table and returns how an instruction
    /// names it.
    pub fn add_to_constants(&mut self, value: Value) -> (res: ConstantIndex)
        requires
            old(self).wf(),
            old(self).spec_constants().len() < usize::MAX,
        ensures
            final(self).wf(),
            final(self).spec_constants() == old(self).spec_constants().push(value),
            final(self).spec_code() == old(self).spec_code(),
            final(self).spec_lines() == old(self).spec_lines(),
            res == constant_index_for(old(self).spec_constants().len()),
    {
        let index = self.write_value_to_constants(value);
        if index <= 0xFF {
            ConstantIndex::Byte(index as u8)
        } else {
            ConstantIndex::Usize(index)
        }
    }

    /// Adds `value` to the constant table and writes the instruction that
    /// loads it: `Constant` with a one-byte index while it fits, else
    /// `ConstantLong` with three bytes.
    pub fn write_constant(&mut self, value: Value, line: usize) -> (res: ConstantIndex)
        requires
            old(self).wf(),
            old(self).can_write(line, 4),
            old(self).spec_constants().len() <= MAX_CONSTANT_INDEX,
        ensures
            final(self).wf(),
            final(self).spec_constants() == old(self).spec_constants().push(value),
            res == constant_index_for(old(self).spec_constants().len()),
            final(self).spec_code() == old(self).spec_code() + seq![
                op_byte(
                    if old(self).spec_constants().len() <= 0xFF {
                        OpCode::Constant
                    } else {
                        OpCode::ConstantLong
                    },
                ),
            ] + index_bytes(res),
            final(self).last_line() == line,
            final(self).spec_lines() == old(self).spec_lines() + Seq::new(
                (final(self).spec_code().len() - old(self).spec_code().len()) as nat,
                |i: int| line,
            ),
    {
        let index = self.write_value_to_constants(value);
        let (out, op) = if index <= 0xFF {
            (ConstantIndex::Byte(index as u8), OpCode::Constant)
        } else {
            (ConstantIndex::Usize(index), OpCode::ConstantLong)
        };
        self.write_index(op, out, line);
        out
    }

    /// Writes `short_op` with a one-byte index, or `long_op` with a three-byte one.
    fn write_sized(
        &mut self,
        constant_index: ConstantIndex,
        short_op: OpCode,
        long_op: OpCode,
        line: usize,
    )
        requires
            old(self).wf(),
            old(self).can_write(line, 4),
            index_value(constant_index) <= MAX_CONSTANT_INDEX,
        ensures
            final(self).wf(),
            final(self).spec_code() == old(self).spec_code() + seq![
                op_byte(
                    if constant_index is Byte {
                        short_op
                    } else {
                        long_op
                    },
                ),
            ] + index_bytes(constant_index),
            final(self).spec_constants() == old(self).spec_constants(),
            final(self).last_line() == line,
            final(self).spec_lines() == old(self).spec_lines() + Seq::new(
                (final(self).spec_code().len() - old(self).spec_code().len()) as nat,
                |i: int| line,
            ),
    {
        let op = match constant_index {
            ConstantIndex::Byte(_) => short_op,
            ConstantIndex::Usize(_) => long_op,
        };
        self.write_index(op, constant_index, line)
    }

    /// Writes the instruction that defines the global named by a constant.
    pub fn define_global(&mut self, constant_index: ConstantIndex, line: usize)
        requires
            old(self).wf(),
            old(self).can_write(line, 4),
            index_value(constant_index) <= MAX_CONSTANT_INDEX,
        ensures
            final(self).wf(),
            final(self).spec_code() == old(self).spec_code() + seq![
                op_byte(
                    if constant_index is Byte {
                        OpCode::DefineGlobal
                    } else {
                        OpCode::DefineGlobalLong
                    },
                ),
            ] + index_bytes(constant_index),
            final(self).spec_constants() == old(self).spec_constants(),
            final(self).last_line() == line,
            final(self).spec_lines() == old(self).spec_lines() + Seq::new(
                (final(self).spec_code().len() - old(self).spec_code().len()) as nat,
                |i: int| line,
            ),
    {
        self.write_sized(constant_index, OpCode::DefineGlobal, OpCode::DefineGlobalLong, line)
    }

    /// Writes the instruction that assigns the global named by a constant.
    pub fn set_global(&mut self, constant_index: ConstantIndex, line: usize)
        requires
            old(self).wf(),
            old(self).can_write(line, 4),
            index_value(constant_index) <= MAX_CONSTANT_INDEX,
        ensures
            final(self).wf(),
            final(self).spec_code() == old(self).spec_code() + seq![
                op_byte(
                    if constant_index is Byte {
                        OpCode::SetGlobal
                    } else {
                        OpCode::SetGlobalLong
                    },
                ),
            ] + index_bytes(constant_index),
            final(self).spec_constants() == old(self).spec_constants(),
            final(self).last_line() == line,
            final(self).spec_lines() == old(self).spec_lines() + Seq::new(
                (final(self).spec_code().len() - old(self).spec_code().len()) as nat,
                |i: int| line,
            ),
    {
        self.write_sized(constant_index, OpCode::SetGlobal, OpCode::SetGlobalLong, line)
    }

    /// Writes the instruction that reads the global named by a constant.
    pub fn get_global(&mut self, index: ConstantIndex, line: usize)
        requires
            old(self).wf(),
            old(self).can_write(line, 4),
            index_value(index) <= MAX_CONSTANT_INDEX,
        ensures
            final(self).wf(),
            final(self).spec_code() == old(self).spec_code() + seq![
                op_byte(
                    if index is Byte {
                        OpCode::GetGlobal
                    } else {
                        OpCode::GetGlobalLong
                    },
                ),
            ] + index_bytes(index),
            final(self).spec_constants() == old(self).spec_constants(),
            final(self).last_line() == line,
            final(self).spec_lines() == old(self).spec_lines() + Seq::new(
                (final(self).spec_code().len() - old(self).spec_code().len()) as nat,
                |i: int| line,
            ),
    {
        self.write_sized(index, OpCode::GetGlobal, OpCode::GetGlobalLong, line)
    }

    fn write_value_to_constants(&mut self, value: Value) -> (res: usize)
        requires
            old(self).wf(),
            old(self).spec_constants().len() < usize::MAX,
        ensures
            final(self).wf(),
            final(self).spec_constants() == old(self).spec_constants().push(value),
            final(self).spec_code() == old(self).spec_code(),
            final(self).spec_lines() == old(self).spec_lines(),
            res == old(self).spec_constants().len(),
    {
        self.constants.push(value);
        self.constants.len() - 1
    }

    /// Empties the chunk.
    pub fn free_chunk(&mut self)
        ensures
            final(self).wf(),
            final(self).spec_code() == Seq::<u8>::empty(),
            final(self).spec_constants() == Seq::<Value>::empty(),
            final(self).spec_lines() == Seq::<usize>::empty(),
    {
        self.code = Vec::new();
        self.constants = Vec::new();
        self.lines = Lines::new();
    }
}

} // verus!
