use rlox::bytecode::{Chunk, ConstantIndex, Lines, OpCode};
use rlox::value::Value;

#[test]
fn test_opcode_roundtrips_byte() {
    for i in 0..u8::MAX {
        if let Some(op) = OpCode::from_byte(i) {
            assert_eq!(op.to_byte(), i);
        }
    }
}

#[test]
fn test_last_op_code_is_return() {
    assert_eq!(OpCode::from_byte(24), Some(OpCode::Return));
    assert_eq!(OpCode::from_byte(25), None);
    assert_eq!(OpCode::Return.to_byte(), rlox::bytecode::LAST_OP_CODE_BYTE);
}

#[test]
fn test_line_numbers() {
    let mut lines = Lines::new();
    println!("empty :\n{:?}", lines.run_counts());

    assert_eq!(lines.get_line(0), 0);

    // Instruction 1
    lines.add_instruction_line(0);
    println!("instr1:\n{:?}", lines.run_counts());
    assert_eq!(lines.get_line(0), 0);
    assert_eq!(lines.get_line(1), 1);

    // Instruction 2
    lines.add_instruction_line(0);
    println!("instr2:\n{:?}", lines.run_counts());
    assert_eq!(lines.get_line(0), 0);
    assert_eq!(lines.get_line(1), 0);
    assert_eq!(lines.get_line(2), 1);

    // Instruction 3
    lines.add_instruction_line(1);
    println!("instr3:\n{:?}", lines.run_counts());
    assert_eq!(lines.get_line(0), 0);
    assert_eq!(lines.get_line(1), 0);
    assert_eq!(lines.get_line(2), 1);
    assert_eq!(lines.get_line(3), 2);

    // Instruction 4
    lines.add_instruction_line(5);
    println!("instr4:\n{:?}", lines.run_counts());
    assert_eq!(lines.get_line(0), 0);
    assert_eq!(lines.get_line(1), 0);
    assert_eq!(lines.get_line(2), 1);
    assert_eq!(lines.get_line(3), 5);
    assert_eq!(lines.get_line(4), 6);
}

#[test]
fn test_run_counts_are_cumulative() {
    let mut lines = Lines::new();
    lines.add_instruction_line(0);
    lines.add_instruction_line(0);
    lines.add_instruction_line(1);
    lines.add_instruction_line(5);
    assert_eq!(lines.run_counts(), &vec![2, 3, 3, 3, 3, 4]);
}

#[test]
fn test_line_lookup_reads_back_each_write() {
    let mut lines = Lines::new();
    let written = [0usize, 0, 2, 2, 2, 7, 9, 9];
    for &line in written.iter() {
        lines.add_instruction_line(line);
    }
    for (i, &line) in written.iter().enumerate() {
        assert_eq!(lines.get_line(i), line);
    }
    assert_eq!(lines.get_line(written.len()), 10);
    assert_eq!(lines.get_line(usize::MAX), 10);
}

#[test]
fn test_constants() {
    let mut chunk = Chunk::new();
    // First 256 constants should be just OpConstant
    for i in 0..=0xFFu64 {
        chunk.write_constant(Value::new_number((i as f64).to_bits()), 123);
        assert!(chunk.code()[chunk.code().len() - 2] == OpCode::Constant.to_byte());
    }
    // All other constants should be OpConstantLong
    for i in 0..=0xFFu64 {
        chunk.write_constant(Value::new_number((i as f64).to_bits()), 123);
        assert!(chunk.code()[chunk.code().len() - 4] == OpCode::ConstantLong.to_byte());
    }
}

#[test]
fn test_constant_long_index_bytes_are_little_endian() {
    let mut chunk = Chunk::new();
    for _ in 0..0x1234 {
        chunk.add_to_constants(Value::Nil);
    }
    let index = chunk.write_constant(Value::Bool(true), 3);
    assert_eq!(index, ConstantIndex::Usize(0x1234));
    let code = chunk.code();
    assert_eq!(&code[code.len() - 4..], &[OpCode::ConstantLong.to_byte(), 0x34, 0x12, 0x00]);
    assert_eq!(chunk.line_at_index(0), 3);
    assert_eq!(chunk.line_at_index(3), 3);
}

#[test]
fn test_global_instructions_pick_width() {
    let mut chunk = Chunk::new();
    chunk.define_global(ConstantIndex::Byte(77), 1);
    chunk.set_global(ConstantIndex::Usize(0x10203), 1);
    chunk.get_global(ConstantIndex::Byte(2), 2);
    assert_eq!(
        chunk.code(),
        &vec![
            OpCode::DefineGlobal.to_byte(),
            77,
            OpCode::SetGlobalLong.to_byte(),
            0x03,
            0x02,
            0x01,
            OpCode::GetGlobal.to_byte(),
            2
        ]
    );
    assert_eq!(chunk.op_at_index(0), Ok(OpCode::DefineGlobal));
    assert_eq!(chunk.op_at_index(1), Err(77));
    assert_eq!(chunk.line_at_index(6), 2);
    assert_eq!(chunk.count(), 8);
    chunk.free_chunk();
    assert_eq!(chunk.count(), 0);
}

#[test]
fn test_dis_string() {
    assert_eq!(OpCode::ConstantLong.dis_string(), "CONSTANT_LONG");
    assert_eq!(OpCode::GetGlobalLong.dis_string(), "GET_GLOBAL_LONG");
    assert_eq!(OpCode::Return.dis_string(), "RETURN");
}
