use rlox::bytecode::{Chunk, OpCode};
use rlox::vm::{post_increment, runtime_error_text, Action, ArithOp, InterpretResult, VirtualMachine};
use rlox::value::heap::Heap;
use rlox::value::Value;

fn number_bits(lexeme: &str) -> u64 {
    lexeme.parse::<f64>().expect("a number lexeme").to_bits()
}

/// Runs the loaded program to its end; returns the value it left on top,
/// rendered, or the runtime error.
fn run_to_end(vm: &mut VirtualMachine) -> Result<Vec<String>, (String, usize)> {
    let mut printed = Vec::new();
    loop {
        match vm.step() {
            Action::Continue => {},
            Action::Return => return Ok(printed),
            Action::Print(value) => printed.push(render(vm, &value)),
            Action::Arithmetic(op, a, b) => {
                let (a, b) = (f64::from_bits(a), f64::from_bits(b));
                let r = match op {
                    ArithOp::Add => a + b,
                    ArithOp::Subtract => a - b,
                    ArithOp::Multiply => a * b,
                    ArithOp::Divide => a / b,
                };
                vm.push_number(r.to_bits());
            },
            Action::RuntimeError(message, line) => return Err((message, line)),
            other => panic!("unexpected action {other:?}"),
        }
    }
}

fn render(vm: &VirtualMachine, value: &Value) -> String {
    match value {
        Value::Nil => "nil".to_string(),
        Value::Bool(b) => b.to_string(),
        Value::Number(bits) => f64::from_bits(*bits).to_string(),
        Value::Obj(index) => vm.heap().get_unchecked_objstr(index.clone()).string().to_string(),
    }
}

#[test]
fn test_post_increment() {
    let mut x: usize = 7;
    assert_eq!(post_increment(&mut x), 7);
    assert_eq!(x, 8);
}

#[test]
fn test_interpret_loads_expression() {
    let mut vm = VirtualMachine::new();
    let mut errors = Vec::new();
    assert_eq!(vm.interpret("1 + 2 * 3;", &number_bits, &mut errors), InterpretResult::InterpretOk);
    assert!(errors.is_empty());
    assert_eq!(run_to_end(&mut vm), Ok(vec![]));
}

#[test]
fn test_interpret_reports_compile_errors() {
    let mut vm = VirtualMachine::new();
    let mut errors = Vec::new();
    assert_eq!(vm.interpret("1 +", &number_bits, &mut errors), InterpretResult::InterpretCompileError);
    assert_eq!(errors.len(), 1);
}

#[test]
fn test_negating_a_bool_is_a_runtime_error() {
    let mut vm = VirtualMachine::new();
    let mut errors = Vec::new();
    assert_eq!(vm.interpret("\n-true;", &number_bits, &mut errors), InterpretResult::InterpretOk);
    let err = run_to_end(&mut vm).unwrap_err();
    assert_eq!(err.0, "Operand must be a number.");
    assert_eq!(err.1, 2);
}

#[test]
fn test_print_action() {
    let mut chunk = Chunk::new();
    chunk.write_op(OpCode::Nil, 1);
    chunk.write_op(OpCode::Print, 1);
    chunk.write_op(OpCode::True, 1);
    chunk.write_op(OpCode::Print, 1);
    chunk.write_op(OpCode::Return, 1);
    let mut vm = VirtualMachine::new();
    vm.load(chunk);
    assert_eq!(run_to_end(&mut vm), Ok(vec!["nil".to_string(), "true".to_string()]));
}

#[test]
fn test_string_concatenation_runs() {
    let mut vm = VirtualMachine::new();
    let mut errors = Vec::new();
    assert_eq!(vm.interpret("print \"ab\" + \"cd\" == \"abcd\";", &number_bits, &mut errors), InterpretResult::InterpretOk);
    assert_eq!(run_to_end(&mut vm), Ok(vec!["true".to_string()]));
    // Interning: the joined string is the literal's object.
    assert_eq!(vm.heap().strings_len(), 3);
}

#[test]
fn test_runtime_error_stops_on_its_line() {
    let mut chunk = Chunk::new();
    chunk.write_constant(Value::Number(1.0f64.to_bits()), 3);
    chunk.write_op(OpCode::True, 3);
    chunk.write_op(OpCode::Subtract, 3);
    chunk.write_op(OpCode::Print, 3);
    chunk.write_op(OpCode::Return, 3);
    let mut vm = VirtualMachine::new();
    vm.load(chunk);
    // The failing Subtract ends the run: Print never runs.
    assert_eq!(run_to_end(&mut vm), Err(("Operands must be numbers.".to_string(), 3)));
    // A failed step leaves the machine where it was: stepping again fails the same way.
    match vm.step() {
        Action::RuntimeError(message, line) => {
            assert_eq!(message, "Operands must be numbers.");
            assert_eq!(line, 3);
        },
        other => panic!("unexpected action {other:?}"),
    }
}

/// The value interned as `text` in a fresh heap: the first string a heap
/// interns is object 0, as it is in a machine whose first string is `text`.
fn first_string(text: &str) -> Value {
    let mut heap = Heap::new();
    heap.allocate_string(text.to_string())
}

#[test]
fn test_globals_read_back_and_undefined_set_fails() {
    let mut vm = VirtualMachine::new();
    let mut errors = Vec::new();
    assert_eq!(vm.interpret("\"x\";", &number_bits, &mut errors), InterpretResult::InterpretOk);
    assert_eq!(run_to_end(&mut vm), Ok(vec![]));

    let mut chunk = Chunk::new();
    let name = chunk.write_constant(first_string("x"), 1);
    chunk.write_op(OpCode::Pop, 1);
    chunk.write_constant(Value::Number(7.0f64.to_bits()), 1);
    chunk.define_global(name, 1);
    chunk.get_global(name, 1);
    chunk.write_op(OpCode::Print, 1);
    chunk.write_constant(Value::Number(8.0f64.to_bits()), 2);
    chunk.set_global(name, 2);
    chunk.write_op(OpCode::Print, 2);
    chunk.get_global(name, 2);
    chunk.write_op(OpCode::Print, 2);
    chunk.write_op(OpCode::Return, 2);
    vm.load(chunk);
    assert_eq!(run_to_end(&mut vm), Ok(vec!["7".to_string(), "8".to_string(), "8".to_string()]));
}

#[test]
fn test_set_of_undefined_global_is_a_runtime_error() {
    let mut vm = VirtualMachine::new();
    let mut errors = Vec::new();
    assert_eq!(vm.interpret("\"y\";", &number_bits, &mut errors), InterpretResult::InterpretOk);
    assert_eq!(run_to_end(&mut vm), Ok(vec![]));

    let mut chunk = Chunk::new();
    let name = chunk.write_constant(first_string("y"), 1);
    chunk.write_op(OpCode::Pop, 1);
    chunk.write_op(OpCode::Nil, 4);
    chunk.set_global(name, 4);
    chunk.write_op(OpCode::Return, 4);
    vm.load(chunk);
    assert_eq!(run_to_end(&mut vm), Err(("Undefined variable 'y'.".to_string(), 4)));
}

/// Runs `source` on a fresh machine: what it printed, one line per `print`,
/// and how the run ended.
fn run_source(source: &str) -> (String, InterpretResult) {
    let mut vm = VirtualMachine::new();
    let mut errors = Vec::new();
    let result = vm.interpret(source, &number_bits, &mut errors);
    if result != InterpretResult::InterpretOk {
        return (String::new(), result);
    }
    match run_to_end(&mut vm) {
        Ok(printed) => (printed.iter().map(|line| format!("{line}\n")).collect(), InterpretResult::InterpretOk),
        Err(_) => (String::new(), InterpretResult::InterpretRuntimeError),
    }
}

fn assert_expression_prints_expected(source: &str, expected: &str) {
    let (printed, result) = run_source(&format!("print {source};"));
    assert_eq!(result, InterpretResult::InterpretOk);
    assert_eq!(printed, format!("{expected}\n"));
}

#[test]
fn test_load() {
    assert_expression_prints_expected("1", "1");
}

#[test]
fn test_arithmetic() {
    assert_expression_prints_expected("1 + 1", "2");
    assert_expression_prints_expected("1 / 2", "0.5");
    assert_expression_prints_expected("2 * 3", "6");
    assert_expression_prints_expected("4 - 5", "-1");
}

#[test]
fn test_string_concat() {
    assert_expression_prints_expected(r#""Hello, " + "World!""#, "Hello, World!");
}

#[test]
fn test_string_equality() {
    assert_expression_prints_expected(r#" "abc" == "abc" "#, "true");
}

#[test]
fn test_statements_run_in_order() {
    let (printed, result) = run_source("print 1; 2 + 3; print \"a\" + \"b\";\nprint nil;");
    assert_eq!(result, InterpretResult::InterpretOk);
    assert_eq!(printed, "1\nab\nnil\n");
    let (_, result) = run_source("print 1");
    assert_eq!(result, InterpretResult::InterpretCompileError);
}

#[test]
fn test_runtime_error_reports_the_line_of_its_token() {
    let mut vm = VirtualMachine::new();
    let mut errors = Vec::new();
    assert_eq!(vm.interpret("print 1;\n\nprint 1 -\n true;", &number_bits, &mut errors), InterpretResult::InterpretOk);
    let err = run_to_end(&mut vm).unwrap_err();
    assert_eq!(err.0, "Operands must be numbers.");
    assert_eq!(err.1, 4);
    assert_eq!(runtime_error_text(&err.0, err.1), "Operands must be numbers.\n[line 4] in script");
}
