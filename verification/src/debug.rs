//! A disassembler for chunks: one line of text per instruction, with its
//! offset, its source line (or `|` when it repeats the line above), its
//! mnemonic and its operand. How a constant's value reads is the caller's
//! business: it hands in a function that renders one.

use vstd::prelude::*;

use crate::bytecode::{dis_name, op_of_byte, Chunk, OpCode, line_lookup};
use crate::scanner::push_char;
use crate::value::Value;

verus! {

/// The decimal digit `d`.
pub open spec fn digit_char(d: nat) -> char {
    if d == 0 { '0' }
    else if d == 1 { '1' }
    else if d == 2 { '2' }
    else if d == 3 { '3' }
    else if d == 4 { '4' }
    else if d == 5 { '5' }
    else if d == 6 { '6' }
    else if d == 7 { '7' }
    else if d == 8 { '8' }
    else { '9' }
}

/// The decimal notation of `n`, without leading zeros.
pub open spec fn decimal(n: nat) -> Seq<char>
    decreases n,
{
    if n < 10 {
        seq![digit_char(n)]
    } else {
        decimal(n / 10).push(digit_char(n % 10))
    }
}

/// `s` with `c` put before it until it is `width` long.
pub open spec fn pad_left(s: Seq<char>, width: nat, c: char) -> Seq<char> {
    if s.len() >= width {
        s
    } else {
        Seq::new((width - s.len()) as nat, |i: int| c) + s
    }
}

/// `s` with spaces put after it until it is `width` long.
pub open spec fn pad_right(s: Seq<char>, width: nat) -> Seq<char> {
    if s.len() >= width {
        s
    } else {
        s + Seq::new((width - s.len()) as nat, |i: int| ' ')
    }
}

/// How many operand bytes follow `op`.
pub open spec fn operand_width(op: OpCode) -> nat {
    match op {
        OpCode::Constant | OpCode::DefineGlobal | OpCode::SetGlobal | OpCode::GetGlobal
        | OpCode::SetLocal | OpCode::GetLocal => 1,
        OpCode::ConstantLong | OpCode::DefineGlobalLong | OpCode::SetGlobalLong
        | OpCode::GetGlobalLong => 3,
        _ => 0,
    }
}

/// Whether the operand of `op` names a constant (else it is a stack slot).
pub open spec fn names_constant(op: OpCode) -> bool {
    operand_width(op) > 0 && op != OpCode::SetLocal && op != OpCode::GetLocal
}

/// The operand that starts at `at`: one byte, or three little-endian bytes.
pub open spec fn operand_value(code: Seq<u8>, at: int, width: nat) -> nat {
    if width == 1 {
        code[at] as nat
    } else {
        (code[at] + code[at + 1] * 256 + code[at + 2] * 65536) as nat
    }
}

/// The instruction at `offset` can be read: its operand bytes are there and
/// a constant it names exists.
pub open spec fn readable_at(chunk: Chunk, offset: int) -> bool {
    let code = chunk.spec_code();
    &&& 0 <= offset < code.len()
    &&& match op_of_byte(code[offset]) {
        Some(op) => {
            &&& offset + operand_width(op) < code.len()
            &&& names_constant(op) ==> operand_value(code, offset + 1, operand_width(op)) < chunk.spec_constants().len()
        },
        None => true,
    }
}

/// Where the instruction after the one at `offset` starts.
pub open spec fn next_offset(chunk: Chunk, offset: int) -> int {
    match op_of_byte(chunk.spec_code()[offset]) {
        Some(op) => offset + 1 + operand_width(op),
        None => offset + 1,
    }
}

/// The text of the instruction at `offset` after the offset and line
/// columns; `constant_text` is how the constant it names reads.
pub open spec fn instruction_body(chunk: Chunk, offset: int, constant_text: Seq<char>) -> Seq<char> {
    let code = chunk.spec_code();
    match op_of_byte(code[offset]) {
        Some(op) => if operand_width(op) == 0 {
            dis_name(op) + "\n"@
        } else {
            let head = pad_right(dis_name(op), 14) + " "@ + pad_left(
                decimal(operand_value(code, offset + 1, operand_width(op))),
                4,
                ' ',
            );
            if names_constant(op) {
                head + " "@ + constant_text + "\n"@
            } else {
                head + "\n"@
            }
        },
        None => "Unknown op code "@ + decimal(code[offset] as nat) + "\n"@,
    }
}

/// `d` is a text `describe` gives for the constant that the instruction at
/// `offset` names, where it names one.
pub open spec fn describes<F: Fn(&Value) -> String>(chunk: Chunk, offset: int, describe: F, d: String) -> bool {
    let code = chunk.spec_code();
    match op_of_byte(code[offset]) {
        Some(op) => names_constant(op) ==> describe.ensures(
            (&chunk.spec_constants()[operand_value(code, offset + 1, operand_width(op)) as int],),
            d,
        ),
        None => true,
    }
}

/// The instructions from `offset` on can be read one after the other, and
/// the last one ends where the code ends.
pub open spec fn decodable_from(chunk: Chunk, offset: int) -> bool
    decreases chunk.spec_code().len() - offset,
{
    if offset < 0 || offset > chunk.spec_code().len() {
        false
    } else if offset == chunk.spec_code().len() {
        true
    } else if readable_at(chunk, offset) {
        decodable_from(chunk, next_offset(chunk, offset))
    } else {
        false
    }
}

/// Appending one complete instruction to code that decodes from `offset`
/// gives code that still decodes from there.
pub proof fn lemma_decodable_append(c: Chunk, c2: Chunk, off: int)
    requires
        decodable_from(c, off),
        c.spec_code().len() < c2.spec_code().len(),
        forall|i: int| 0 <= i < c.spec_code().len() ==> c2.spec_code()[i] == c.spec_code()[i],
        c.spec_constants().len() <= c2.spec_constants().len(),
        readable_at(c2, c.spec_code().len() as int),
        next_offset(c2, c.spec_code().len() as int) == c2.spec_code().len(),
    ensures
        decodable_from(c2, off),
    decreases c.spec_code().len() - off,
{
    let n = c.spec_code().len() as int;
    if off == n {
        assert(decodable_from(c2, c2.spec_code().len() as int));
    } else {
        assert(readable_at(c, off));
        assert(c2.spec_code()[off] == c.spec_code()[off]);
        match op_of_byte(c.spec_code()[off]) {
            Some(op) => {
                let w = operand_width(op);
                assert(off + w < n);
                if w > 0 {
                    assert(c2.spec_code()[off + 1] == c.spec_code()[off + 1]);
                    if w == 3 {
                        assert(c2.spec_code()[off + 2] == c.spec_code()[off + 2]);
                        assert(c2.spec_code()[off + 3] == c.spec_code()[off + 3]);
                    }
                    assert(operand_value(c2.spec_code(), off + 1, w) == operand_value(c.spec_code(), off + 1, w));
                }
            },
            None => {},
        }
        assert(readable_at(c2, off));
        assert(next_offset(c2, off) == next_offset(c, off));
        lemma_decodable_append(c, c2, next_offset(c, off));
    }
}

/// The line of the instruction at `offset`: its offset, its line column and
/// its body, with `d` for the text of its constant.
pub open spec fn instruction_text(chunk: Chunk, offset: int, prev_line: nat, d: Seq<char>) -> Seq<char> {
    let line = line_lookup(chunk.spec_lines(), chunk.spec_table_len(), offset);
    pad_left(decimal(offset as nat), 4, '0') + " "@ + line_column(line, prev_line) + instruction_body(chunk, offset, d)
}

/// The listing of the instructions from `offset` on, the line above them
/// being on `prev_line`; `ds` gives the text of each one's constant in turn.
pub open spec fn listing(chunk: Chunk, offset: int, prev_line: nat, ds: Seq<Seq<char>>) -> Seq<char>
    decreases chunk.spec_code().len() - offset,
{
    if 0 <= offset < chunk.spec_code().len() && readable_at(chunk, offset) {
        let line = line_lookup(chunk.spec_lines(), chunk.spec_table_len(), offset);
        let d = if ds.len() > 0 { ds[0] } else { Seq::empty() };
        let rest = if ds.len() > 0 { ds.drop_first() } else { ds };
        instruction_text(chunk, offset, prev_line, d) + listing(chunk, next_offset(chunk, offset), line, rest)
    } else {
        Seq::empty()
    }
}

/// Each text of `ds`, in order, is one `describe` gives for the constant of
/// the instruction it stands beside in a listing from `offset` on.
pub open spec fn all_described<F: Fn(&Value) -> String>(chunk: Chunk, offset: int, ds: Seq<String>, describe: F) -> bool
    decreases chunk.spec_code().len() - offset,
{
    if 0 <= offset < chunk.spec_code().len() && readable_at(chunk, offset) {
        &&& ds.len() > 0
        &&& describes(chunk, offset, describe, ds[0])
        &&& all_described(chunk, next_offset(chunk, offset), ds.drop_first(), describe)
    } else {
        true
    }
}

/// The texts of `ds`.
pub open spec fn texts(ds: Seq<String>) -> Seq<Seq<char>> {
    Seq::new(ds.len(), |i: int| ds[i]@)
}

/// The two header lines of a listing named `name`.
pub open spec fn listing_header(name: Seq<char>) -> Seq<char> {
    "== "@ + name + " ==\n"@ + "offs line op            cidx cval\n"@
}

/// The line column: the line, or `   |` when it is that of the instruction above.
pub open spec fn line_column(line: nat, prev_line: nat) -> Seq<char> {
    if line == prev_line {
        "   | "@
    } else {
        pad_left(decimal(line), 4, '0') + " "@
    }
}

fn digit(d: usize) -> (res: char)
    requires
        d < 10,
    ensures
        res == digit_char(d as nat),
{
    if d == 0 { '0' }
    else if d == 1 { '1' }
    else if d == 2 { '2' }
    else if d == 3 { '3' }
    else if d == 4 { '4' }
    else if d == 5 { '5' }
    else if d == 6 { '6' }
    else if d == 7 { '7' }
    else if d == 8 { '8' }
    else { '9' }
}

/// Appends the decimal notation of `n`.
pub fn push_decimal(out: &mut String, n: usize)
    ensures
        final(out)@ == old(out)@ + decimal(n as nat),
    decreases n,
{
    if n < 10 {
        push_char(out, digit(n));
        assert(final(out)@ =~= old(out)@ + decimal(n as nat)) by {
            assert(decimal(n as nat) == seq![digit_char(n as nat)]);
        }
    } else {
        push_decimal(out, n / 10);
        push_char(out, digit(n % 10));
        assert(out@ =~= old(out)@ + decimal(n as nat));
    }
}

/// The decimal notation of `n`.
fn decimal_string(n: usize) -> (res: String)
    ensures
        res@ == decimal(n as nat),
{
    let mut s = String::new();
    push_decimal(&mut s, n);
    assert(s@ =~= decimal(n as nat));
    s
}

/// Appends `count` copies of `c`.
fn push_repeated(out: &mut String, c: char, count: usize)
    ensures
        final(out)@ == old(out)@ + Seq::new(count as nat, |i: int| c),
{
    let mut k: usize = 0;
    while k < count
        invariant
            k <= count,
            out@ == old(out)@ + Seq::new(k as nat, |i: int| c),
        decreases count - k,
    {
        push_char(out, c);
        k = k + 1;
        assert(out@ =~= old(out)@ + Seq::new(k as nat, |i: int| c));
    }
}

/// Appends `s` padded on the left with `c` to `width`.
fn push_padded_left(out: &mut String, s: &str, width: usize, c: char)
    ensures
        final(out)@ == old(out)@ + pad_left(s@, width as nat, c),
{
    let n = s.unicode_len();
    if n < width {
        push_repeated(out, c, width - n);
    }
    out.append(s);
    assert(out@ =~= old(out)@ + pad_left(s@, width as nat, c));
}

/// Appends `s` padded on the right with spaces to `width`.
fn push_padded_right(out: &mut String, s: &str, width: usize)
    ensures
        final(out)@ == old(out)@ + pad_right(s@, width as nat),
{
    let n = s.unicode_len();
    out.append(s);
    if n < width {
        push_repeated(out, ' ', width - n);
    }
    assert(out@ =~= old(out)@ + pad_right(s@, width as nat));
}

/// Writes an instruction that has an operand.
#[verifier::rlimit(40)]
fn write_operand_instruction<F: Fn(&Value) -> String>(
    op: OpCode,
    chunk: &Chunk,
    offset: usize,
    describe: &F,
    out: &mut String,
) -> (res: String)
    requires
        chunk.wf(),
        readable_at(*chunk, offset as int),
        op_of_byte(chunk.spec_code()[offset as int]) == Some(op),
        operand_width(op) > 0,
        chunk.spec_code().len() < usize::MAX,
        forall|v: &Value| #[trigger] describe.requires((v,)),
    ensures
        final(out)@ == old(out)@ + instruction_body(*chunk, offset as int, res@),
        describes(*chunk, offset as int, *describe, res),
{
    let ghost code = chunk.spec_code();
    let width: usize = match op {
        OpCode::ConstantLong | OpCode::DefineGlobalLong | OpCode::SetGlobalLong
        | OpCode::GetGlobalLong => 3,
        _ => 1,
    };
    assert(width == operand_width(op));
    let name = op.dis_string();
    let index: usize = if width == 1 {
        chunk.byte_at_index(offset + 1) as usize
    } else {
        chunk.byte_at_index(offset + 1) as usize
            + chunk.byte_at_index(offset + 2) as usize * 256
            + chunk.byte_at_index(offset + 3) as usize * 65536
    };
    assert(index == operand_value(code, offset + 1, operand_width(op)));
    push_padded_right(out, name.as_str(), 14);
    out.append(" ");
    let index_text = decimal_string(index);
    push_padded_left(out, index_text.as_str(), 4, ' ');
    let mut d = String::new();
    if op != OpCode::SetLocal && op != OpCode::GetLocal {
        out.append(" ");
        d = describe(chunk.constant_at_index(index));
        out.append(d.as_str());
    }
    out.append("\n");
    d
}

/// Writes the instruction at `offset` after its offset and line columns, and
/// returns where the next one starts and how its constant, if any, read.
fn write_body<F: Fn(&Value) -> String>(
    chunk: &Chunk,
    offset: usize,
    describe: &F,
    out: &mut String,
) -> (res: (usize, String))
    requires
        chunk.wf(),
        readable_at(*chunk, offset as int),
        chunk.spec_code().len() < usize::MAX,
        forall|v: &Value| #[trigger] describe.requires((v,)),
    ensures
        res.0 == next_offset(*chunk, offset as int),
        final(out)@ == old(out)@ + instruction_body(*chunk, offset as int, res.1@),
        describes(*chunk, offset as int, *describe, res.1),
{
    match chunk.op_at_index(offset) {
        Ok(op) => {
            let width: usize = match op {
                OpCode::Constant | OpCode::DefineGlobal | OpCode::SetGlobal | OpCode::GetGlobal
                | OpCode::SetLocal | OpCode::GetLocal => 1,
                OpCode::ConstantLong | OpCode::DefineGlobalLong | OpCode::SetGlobalLong
                | OpCode::GetGlobalLong => 3,
                _ => 0,
            };
            assert(width == operand_width(op));
            if width == 0 {
                let name = op.dis_string();
                out.append(name.as_str());
                out.append("\n");
                (offset + 1, String::new())
            } else {
                let d = write_operand_instruction(op, chunk, offset, describe, out);
                (offset + 1 + width, d)
            }
        },
        Err(byte) => {
            out.append("Unknown op code ");
            let byte_text = decimal_string(byte as usize);
            out.append(byte_text.as_str());
            out.append("\n");
            (offset + 1, String::new())
        },
    }
}

/// Remembers the line of the instruction it disassembled last.
pub struct Disassembler {
    pub prev_line: usize,
}

impl Disassembler {
    /// A disassembler that has seen no line yet.
    pub fn new() -> (res: Self)
        ensures
            res.prev_line == usize::MAX,
    {
        Disassembler { prev_line: usize::MAX }
    }

    /// Writes the mnemonic of an instruction without operand; the next one
    /// starts right after it.
    pub fn simple_instruction(&mut self, name: &str, offset: usize, out: &mut String) -> (res: usize)
        requires
            offset < usize::MAX,
        ensures
            final(out)@ == old(out)@ + name@ + "\n"@,
            res == offset + 1,
            final(self).prev_line == old(self).prev_line,
    {
        out.append(name);
        out.append("\n");
        offset + 1
    }

    /// Writes the instruction at `offset` and returns where the next one
    /// starts and the line of this one, which becomes the line compared with
    /// next.
    pub fn disassemble_instruction<F: Fn(&Value) -> String>(
        &mut self,
        chunk: &Chunk,
        offset: usize,
        describe: &F,
        out: &mut String,
    ) -> (res: (usize, usize))
        requires
            chunk.wf(),
            readable_at(*chunk, offset as int),
            chunk.spec_code().len() < usize::MAX,
            forall|v: &Value| #[trigger] describe.requires((v,)),
        ensures
            res.0 == next_offset(*chunk, offset as int),
            res.1 == line_lookup(chunk.spec_lines(), chunk.spec_table_len(), offset as int),
            final(self).prev_line == res.1,
            exists|d: String|
                describes(*chunk, offset as int, *describe, d)
                && final(out)@ == old(out)@ + pad_left(decimal(offset as nat), 4, '0') + " "@
                    + line_column(res.1 as nat, old(self).prev_line as nat)
                    + instruction_body(*chunk, offset as int, d@),
    {
        let offset_text = decimal_string(offset);
        push_padded_left(out, offset_text.as_str(), 4, '0');
        out.append(" ");
        let line = chunk.line_at_index(offset);
        if line != self.prev_line {
            let line_text = decimal_string(line);
            push_padded_left(out, line_text.as_str(), 4, '0');
            out.append(" ");
        } else {
            out.append("   | ");
        }
        let (next, d) = write_body(chunk, offset, describe, out);
        self.prev_line = line;
        (next, line)
    }

    /// Writes a listing of the whole chunk, headed by `name`: one line per
    /// instruction, the `k`-th constant instruction showing its constant as
    /// the `k`-th text `describe` gave.
    pub fn disassemble_chunk<F: Fn(&Value) -> String>(
        &mut self,
        chunk: &Chunk,
        name: &str,
        describe: &F,
        out: &mut String,
    )
        requires
            chunk.wf(),
            decodable_from(*chunk, 0),
            chunk.spec_code().len() < usize::MAX,
            forall|v: &Value| #[trigger] describe.requires((v,)),
        ensures
            exists|ds: Seq<String>|
                all_described(*chunk, 0, ds, *describe)
                && final(out)@ == old(out)@ + listing_header(name@) + listing(*chunk, 0, old(self).prev_line as nat, texts(ds)),
    {
        out.append("== ");
        out.append(name);
        out.append(" ==\n");
        out.append("offs line op            cidx cval\n");
        let ghost head = out@;
        let ghost p0 = self.prev_line as nat;
        let ghost mut done: Seq<Seq<char>> = Seq::empty();
        let ghost mut given: Seq<String> = Seq::empty();
        assert forall|rest: Seq<String>| #[trigger] all_described(*chunk, 0, rest, *describe)
            implies all_described(*chunk, 0, given + rest, *describe) by {
            assert(given + rest =~= rest);
        }
        assert(head =~= old(out)@ + listing_header(name@));
        assert forall|rest: Seq<Seq<char>>| #[trigger] listing(*chunk, 0, p0, done + rest)
            == (out@.subrange(head.len() as int, out@.len() as int) + listing(*chunk, 0, self.prev_line as nat, rest)) by {
            assert(done + rest =~= rest);
            assert(out@.subrange(head.len() as int, out@.len() as int) =~= Seq::<char>::empty());
        }
        let mut offset: usize = 0;
        while offset < chunk.count()
            invariant
                chunk.wf(),
                chunk.spec_code().len() < usize::MAX,
                forall|v: &Value| #[trigger] describe.requires((v,)),
                decodable_from(*chunk, offset as int),
                head == old(out)@ + listing_header(name@),
                out@.len() >= head.len(),
                out@.subrange(0, head.len() as int) == head,
                forall|rest: Seq<Seq<char>>| #[trigger] listing(*chunk, 0, p0, done + rest)
                    == out@.subrange(head.len() as int, out@.len() as int) + listing(*chunk, offset as int, self.prev_line as nat, rest),
                done == texts(given),
                forall|rest: Seq<String>| #[trigger] all_described(*chunk, offset as int, rest, *describe)
                    ==> all_described(*chunk, 0, given + rest, *describe),
            decreases chunk.spec_code().len() - offset,
        {
            let ghost before = out@;
            let ghost prev = self.prev_line as nat;
            let (next, line) = self.disassemble_instruction(chunk, offset, describe, out);
            proof {
                let d = choose|d: String|
                    describes(*chunk, offset as int, *describe, d) && out@ == before + pad_left(decimal(offset as nat), 4, '0') + " "@ + line_column(line as nat, prev)
                        + instruction_body(*chunk, offset as int, d@);
                let t = d@;
                assert(out@.subrange(0, head.len() as int) =~= before.subrange(0, head.len() as int));
                assert(out@.subrange(head.len() as int, out@.len() as int) =~= before.subrange(head.len() as int, before.len() as int)
                    + instruction_text(*chunk, offset as int, prev, t));
                assert forall|rest: Seq<Seq<char>>| #[trigger] listing(*chunk, 0, p0, done.push(t) + rest)
                    == out@.subrange(head.len() as int, out@.len() as int) + listing(*chunk, next as int, line as nat, rest) by {
                    let r2 = seq![t] + rest;
                    assert(done.push(t) + rest =~= done + r2);
                    assert(r2.drop_first() =~= rest);
                    assert(listing(*chunk, offset as int, prev, r2) == instruction_text(*chunk, offset as int, prev, t)
                        + listing(*chunk, next as int, line as nat, rest));
                }
                assert forall|rest: Seq<String>| #[trigger] all_described(*chunk, next as int, rest, *describe)
                    implies all_described(*chunk, 0, given.push(d) + rest, *describe) by {
                    let r2 = seq![d] + rest;
                    assert(r2.drop_first() =~= rest);
                    assert(all_described(*chunk, offset as int, r2, *describe));
                    assert(given + r2 =~= given.push(d) + rest);
                }
                done = done.push(t);
                given = given.push(d);
                assert(done =~= texts(given));
            }
            offset = next;
        }
        proof {
            assert(listing(*chunk, 0, p0, done + Seq::empty()) == out@.subrange(head.len() as int, out@.len() as int));
            assert(done + Seq::<Seq<char>>::empty() =~= done);
            assert(out@ =~= head + out@.subrange(head.len() as int, out@.len() as int));
            assert(all_described(*chunk, offset as int, Seq::<String>::empty(), *describe));
            assert(given + Seq::<String>::empty() =~= given);
        }
    }
}

} // verus!
