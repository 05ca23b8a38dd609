use rlox::bytecode::{Chunk, OpCode};
use rlox::scanner::token::TokenType;
use rlox::compiler::{compile, CompileError};
use rlox::debug::Disassembler;
use rlox::value::heap::Heap;
use rlox::value::Value;

fn number_bits(lexeme: &str) -> u64 {
    lexeme.parse::<f64>().expect("a number lexeme").to_bits()
}

fn compile_fresh(source: &str) -> Result<Chunk, Vec<CompileError>> {
    let mut chunk = Chunk::new();
    let mut heap = Heap::new();
    let mut errors = Vec::new();
    match compile(source, &mut chunk, &mut heap, &number_bits, &mut errors) {
        Ok(()) => Ok(chunk),
        Err(()) => Err(errors),
    }
}

fn compile_errors(source: &str) -> Vec<CompileError> {
    match compile_fresh(source) {
        Ok(_) => panic!("expected a compile error"),
        Err(errors) => errors,
    }
}

fn is_number(value: &Value, expected: f64) -> bool {
    matches!(value, Value::Number(bits) if *bits == expected.to_bits())
}

#[test]
fn test_simple() {
    let chunk = compile_fresh("1").expect("Compile error");
    assert!(chunk.code().len() == 3);
    assert_eq!(OpCode::from_byte(chunk.code()[0]), Some(OpCode::Constant));
    assert_eq!(chunk.code()[1], 0);
    assert_eq!(OpCode::from_byte(chunk.code()[2]), Some(OpCode::Return));
}

#[test]
fn compiler_test_complex() {
    let chunk = compile_fresh("1 * (2 + 3)").expect("Compile error");
    assert!(chunk.code().len() == 9);

    assert_eq!(OpCode::from_byte(chunk.code()[0]), Some(OpCode::Constant));
    assert_eq!(chunk.code()[1], 0);
    assert!(is_number(chunk.constant_at_index(0), 1.0));

    assert_eq!(OpCode::from_byte(chunk.code()[2]), Some(OpCode::Constant));
    assert_eq!(chunk.code()[3], 1);
    assert!(is_number(chunk.constant_at_index(1), 2.0));

    assert_eq!(OpCode::from_byte(chunk.code()[4]), Some(OpCode::Constant));
    assert_eq!(chunk.code()[5], 2);
    assert!(is_number(chunk.constant_at_index(2), 3.0));

    assert_eq!(OpCode::from_byte(chunk.code()[6]), Some(OpCode::Add));
    assert_eq!(OpCode::from_byte(chunk.code()[7]), Some(OpCode::Multiply));
    assert_eq!(OpCode::from_byte(chunk.code()[8]), Some(OpCode::Return));
}

#[test]
fn test_comparison_operators_desugar() {
    let chunk = compile_fresh("1 <= 2").expect("Compile error");
    let ops: Vec<Option<OpCode>> = chunk.code()[4..].iter().map(|b| OpCode::from_byte(*b)).collect();
    assert_eq!(ops, vec![Some(OpCode::Greater), Some(OpCode::Not), Some(OpCode::Return)]);

    let chunk = compile_fresh("!true != -1").expect("Compile error");
    let expected: Vec<u8> = vec![
        OpCode::True.to_byte(),
        OpCode::Not.to_byte(),
        OpCode::Constant.to_byte(),
        0,
        OpCode::Negate.to_byte(),
        OpCode::Equal.to_byte(),
        OpCode::Not.to_byte(),
        OpCode::Return.to_byte(),
    ];
    assert_eq!(chunk.code(), &expected);
}

#[test]
fn test_precedence_left_associates() {
    // 1 - 2 - 3 is (1 - 2) - 3.
    let chunk = compile_fresh("1 - 2 - 3").expect("Compile error");
    let code = chunk.code();
    assert_eq!(OpCode::from_byte(code[4]), Some(OpCode::Subtract));
    assert_eq!(OpCode::from_byte(code[7]), Some(OpCode::Subtract));
    assert_eq!(OpCode::from_byte(code[8]), Some(OpCode::Return));
}

#[test]
fn test_strings_are_interned_constants() {
    let mut chunk = Chunk::new();
    let mut heap = Heap::new();
    let mut errors = Vec::new();
    compile("\"ab\" + \"ab\"", &mut chunk, &mut heap, &number_bits, &mut errors).expect("Compile error");
    assert_eq!(heap.strings_len(), 1);
    match (chunk.constant_at_index(0), chunk.constant_at_index(1)) {
        (Value::Obj(a), Value::Obj(b)) => {
            assert_eq!(a.index(), b.index());
            assert_eq!(heap.get_unchecked_objstr(a.clone()).string(), "ab");
        },
        _ => panic!("expected two string constants"),
    }
}

#[test]
fn test_parse_errors_are_reported() {
    let errors = compile_errors("(1");
    assert_eq!(errors.len(), 1);
    match &errors[0] {
        CompileError::Parse { line, at, message } => {
            assert_eq!(*line, 1);
            assert_eq!(*at, None);
            assert_eq!(message, "Expect ')' after expression.");
        },
        other => panic!("unexpected error {other:?}"),
    }

    let errors = compile_errors("+");
    match &errors[0] {
        CompileError::Parse { at, message, .. } => {
            assert_eq!(at.as_deref(), Some("+"));
            assert_eq!(message, "Expect expression.");
        },
        other => panic!("unexpected error {other:?}"),
    }

    let errors = compile_errors("1 2");
    match &errors[0] {
        CompileError::Parse { at, message, .. } => {
            assert_eq!(at.as_deref(), Some("2"));
            assert_eq!(message, "Expect end of expression.");
        },
        other => panic!("unexpected error {other:?}"),
    }
}

#[test]
fn test_scan_errors_fail_the_compile() {
    let errors = compile_errors("1 + %");
    assert!(matches!(errors[0], CompileError::Scan(_)));
}

fn describe(value: &Value) -> String {
    match value {
        Value::Nil => "Nil".to_string(),
        Value::Bool(b) => format!("{b}"),
        Value::Number(bits) => format!("'{}'", f64::from_bits(*bits)),
        Value::Obj(_) => "<obj>".to_string(),
    }
}

#[test]
fn test_constant_long_runs() {
    let mut chunk = Chunk::new();
    for i in 0..300 {
        chunk.write_constant(Value::new_number((i as f64).to_bits()), 123);
    }
    chunk.write_op(OpCode::Return, 123);

    let mut disassembler = Disassembler::new();
    let mut out = String::new();
    disassembler.disassemble_chunk(&chunk, "test chunk", &describe, &mut out);
}

#[test]
fn test_disassembly_text() {
    let mut chunk = Chunk::new();
    chunk.write_constant(Value::new_number(1.5f64.to_bits()), 7);
    chunk.write_op(OpCode::Negate, 7);
    chunk.write_op(OpCode::Return, 8);

    let heap = Heap::new();
    let number_text = |bits: u64| format!("{}", f64::from_bits(bits));
    let describe_constant = |v: &Value| v.debug_text(&heap, &number_text);
    let mut disassembler = Disassembler::new();
    let mut out = String::new();
    disassembler.disassemble_chunk(&chunk, "code", &describe_constant, &mut out);
    assert_eq!(
        out,
        "== code ==\n\
         offs line op            cidx cval\n\
         0000 0007 CONSTANT          0 '1.5'\n\
         0002    | NEGATE\n\
         0003 0008 RETURN\n"
    );
}

#[test]
fn test_simple_instruction_moves_one_byte() {
    let mut disassembler = Disassembler::new();
    let mut out = String::new();
    assert_eq!(disassembler.simple_instruction("RETURN", 41, &mut out), 42);
    assert_eq!(out, "RETURN\n");
}

#[test]
fn test_compiled_code_disassembles_and_ends_with_return() {
    let mut chunk = Chunk::new();
    let mut heap = Heap::new();
    let mut errors = Vec::new();
    let mut source = String::from("0");
    for i in 1..300 {
        source.push_str(&format!(" + {i}"));
    }
    compile(&source, &mut chunk, &mut heap, &number_bits, &mut errors).expect("Compile error");
    assert_eq!(chunk.constants_len(), 300);
    assert_eq!(OpCode::from_byte(*chunk.code().last().unwrap()), Some(OpCode::Return));

    let mut disassembler = Disassembler::new();
    let mut out = String::new();
    disassembler.disassemble_chunk(&chunk, "sum", &describe, &mut out);
    assert!(out.contains("CONSTANT_LONG   256 '256'"));
    assert!(out.ends_with("RETURN\n"));
}

#[test]
fn test_failed_compile_reports_an_error() {
    for source in ["", ")", "1 +", "(1", "1 2", "\"unterminated"] {
        let errors = compile_errors(source);
        assert!(!errors.is_empty(), "no error for {source:?}");
    }
}

fn scanned(token_type: TokenType, lexeme: &'static str) -> rlox::compiler::ScannedToken<'static> {
    rlox::compiler::ScannedToken {
        token: rlox::scanner::token::Token { token_type, line: 1, lexeme },
        after_error: false,
    }
}

#[test]
fn test_compile_tokens_writes_the_expression() {
    let tokens = vec![
        scanned(TokenType::Number, "1"),
        scanned(TokenType::Plus, "+"),
        scanned(TokenType::Number, "2"),
        scanned(TokenType::Star, "*"),
        scanned(TokenType::String, "\"s\""),
        scanned(TokenType::Eof, ""),
    ];
    let mut chunk = Chunk::new();
    let mut heap = Heap::new();
    let mut errors = Vec::new();
    rlox::compiler::compile_tokens(tokens, &mut chunk, &mut heap, &number_bits, &mut errors).expect("Compile error");
    let expected: Vec<u8> = vec![
        OpCode::Constant.to_byte(),
        0,
        OpCode::Constant.to_byte(),
        1,
        OpCode::Constant.to_byte(),
        2,
        OpCode::Multiply.to_byte(),
        OpCode::Add.to_byte(),
        OpCode::Return.to_byte(),
    ];
    assert_eq!(chunk.code(), &expected);
    assert!(is_number(chunk.constant_at_index(1), 2.0));
    match chunk.constant_at_index(2) {
        Value::Obj(o) => assert_eq!(heap.get_unchecked_objstr(o.clone()).string(), "s"),
        _ => panic!("expected a string constant"),
    }
}

#[test]
fn test_compile_tokens_refuses_a_scanning_error() {
    let mut bad = scanned(TokenType::Number, "2");
    bad.after_error = true;
    let tokens = vec![scanned(TokenType::Number, "1"), scanned(TokenType::Plus, "+"), bad, scanned(TokenType::Eof, "")];
    let mut chunk = Chunk::new();
    let mut heap = Heap::new();
    let mut errors = Vec::new();
    assert!(rlox::compiler::compile_tokens(tokens, &mut chunk, &mut heap, &number_bits, &mut errors).is_err());
}

#[test]
fn test_debug_text_of_values() {
    let mut heap = Heap::new();
    let s = heap.allocate_string("hi".to_string());
    let number_text = |bits: u64| format!("{}", f64::from_bits(bits));
    assert_eq!(Value::Nil.debug_text(&heap, &number_text), "Nil");
    assert_eq!(Value::Bool(false).debug_text(&heap, &number_text), "false");
    assert_eq!(Value::Number(2.5f64.to_bits()).debug_text(&heap, &number_text), "'2.5'");
    assert_eq!(s.debug_text(&heap, &number_text), "hi");
}

#[test]
fn test_equality_binds_looser_than_comparison() {
    // 1 == 2 < 3 is 1 == (2 < 3).
    let chunk = compile_fresh("1 == 2 < 3").expect("Compile error");
    let expected: Vec<u8> = vec![
        OpCode::Constant.to_byte(),
        0,
        OpCode::Constant.to_byte(),
        1,
        OpCode::Constant.to_byte(),
        2,
        OpCode::Less.to_byte(),
        OpCode::Equal.to_byte(),
        OpCode::Return.to_byte(),
    ];
    assert_eq!(chunk.code(), &expected);
}

#[test]
fn test_constant_instructions_carry_their_line() {
    let chunk = compile_fresh("1 +\n2").expect("Compile error");
    // Constant 0 on line 1, Constant 1 on line 2, Add and Return on line 2.
    assert_eq!(chunk.line_at_index(0), 1);
    assert_eq!(chunk.line_at_index(1), 1);
    assert_eq!(chunk.line_at_index(2), 2);
    assert_eq!(chunk.line_at_index(3), 2);
    assert_eq!(chunk.line_at_index(4), 2);
}

#[test]
fn test_a_clean_expression_compiles() {
    // A stream free of scanning errors that forms an expression compiles.
    for source in ["nil", "\"a\" + \"b\"", "(1 + 2) * -3 >= 4 == !false"] {
        assert!(compile_fresh(source).is_ok(), "{source}");
    }
}
