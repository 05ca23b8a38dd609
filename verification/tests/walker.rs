use std::rc::Rc;

use rlox::walker::ast::{
    Assign, Binary, Block, Break, Expr, Function, Grouping, LiteralExpr, Print, Stmt, StmtExpression, Unary,
    Var, Variable, While,
};
use rlox::vm::ArithOp;
use rlox::walker::ast_printer::pretty_print_expr;
use rlox::walker::operators::{binary, unary, Operand, Outcome};
use rlox::walker::callables::{check_arity, ArgLengthMismatch, LoxClass, LoxFunction, RuntimeError};
use rlox::walker::parsed_token::{BinaryOp, BinaryToken, IdentifierToken, ParsedLiteral, UnaryOp, UnaryToken};
use rlox::walker::parser::{parse, parse_expression, parse_for_repl, ParseError, ReplParseOutput};
use rlox::walker::resolver::{resolve, Resolution, ResolveError};
use rlox::walker::scanner::scan_tokens;

fn literal_num(n: &str) -> Expr {
    LiteralExpr::lift(ParsedLiteral::Number(n.to_string()))
}

fn literal_str(s: &str) -> Expr {
    LiteralExpr::lift(ParsedLiteral::String(s.to_string()))
}

fn single_expr(expr: Expr) -> Vec<Stmt> {
    vec![StmtExpression::lift(expr)]
}

fn parse_str(s: &str) -> Result<Vec<Stmt>, Vec<ParseError>> {
    let mut errors = Vec::new();
    match parse(scan_tokens(s).expect("Error scanning"), &mut errors) {
        Ok(stmts) => Ok(stmts),
        Err(_) => Err(errors),
    }
}

fn x() -> IdentifierToken {
    IdentifierToken::new("x".into(), 1)
}

#[test]
fn parser_test_parse_simple() {
    assert_eq!(parse_str("123;").expect("Error parsing"), single_expr(literal_num("123")));
    assert_eq!(parse_str(r#""123";"#).expect("Error parsing"), single_expr(literal_str("123")));
}

#[test]
fn parser_test_parse_complex() {
    let expected = single_expr(Binary::lift(
        Unary::lift(UnaryToken::new(UnaryOp::Minus, 1), literal_num("123")),
        BinaryToken::new(BinaryOp::Star, 1),
        Grouping::lift(literal_num("45.67")),
    ));
    assert_eq!(parse_str("-123 * (45.67);").expect("Error parsing"), expected);
    assert_eq!(parse_str("-123.0 /* comment */ * (45.67);").expect("Error parsing"), expected);
    assert_eq!(parse_str("-123 /* comment */ * (45.67);  //").expect("Error parsing"), expected);

    let expected = single_expr(Binary::lift(
        Unary::lift(UnaryToken::new(UnaryOp::Minus, 1), literal_num("123")),
        BinaryToken::new(BinaryOp::EqualEqual, 1),
        Grouping::lift(literal_num("45.67")),
    ));
    assert_eq!(parse_str("-123 == (45.67);").expect("Error parsing"), expected);
}

#[test]
fn parser_test_parse_errors() {
    assert!(parse_str("+123;").is_err());
    assert!(parse_str("class;").is_err());
    assert!(parse_str("break;").is_err());
}

#[test]
fn test_statement() {
    let parsed = parse_str("var x = 5;").expect("Error parsing");
    assert_eq!(vec![Var::lift(x(), Some(literal_num("5")))], parsed);

    let parsed = parse_str("var x;").expect("Error parsing");
    assert_eq!(vec![Var::lift(x(), None)], parsed);
}

#[test]
fn test_statements() {
    let parsed = parse_str("var x = 5; print x;").expect("Error parsing");
    assert_eq!(vec![Var::lift(x(), Some(literal_num("5"))), Print::lift(Variable::lift(x()))], parsed);
}

fn increment_x() -> Stmt {
    StmtExpression::lift(Assign::lift(
        x(),
        Binary::lift(Variable::lift(x()), BinaryToken::new(BinaryOp::Plus, 1), literal_num("1")),
    ))
}

fn x_less_than_5() -> Expr {
    Binary::lift(Variable::lift(x()), BinaryToken::new(BinaryOp::Less, 1), literal_num("5"))
}

#[test]
fn test_while_loop_parses_to_while_loop() {
    let parsed = parse_str("var x = 0; while (x < 5) {print x; x = x + 1;}").expect("Error parsing");
    assert_eq!(
        vec![
            Var::lift(x(), Some(literal_num("0"))),
            While::lift(x_less_than_5(), Block::lift(vec![Print::lift(Variable::lift(x())), increment_x()])),
        ],
        parsed
    );
}

#[test]
fn test_for_loop_parses_to_while_loop() {
    let parsed = parse_str("for (var x = 0; x < 5; x = x + 1) {print x;}").expect("Error parsing");
    assert_eq!(
        vec![Block::lift(vec![
            Var::lift(x(), Some(literal_num("0"))),
            While::lift(
                x_less_than_5(),
                Block::lift(vec![Block::lift(vec![Print::lift(Variable::lift(x()))]), increment_x()]),
            ),
        ])],
        parsed
    );
}

#[test]
fn parser_test_break() {
    let parsed = parse_str("while (true) break;").expect("Error parsing");
    assert_eq!(vec![While::lift(LiteralExpr::lift(ParsedLiteral::True), Break::lift())], parsed);
}

#[test]
fn test_parse_for_repl() {
    let mut errors = Vec::new();
    let parsed = parse_for_repl(scan_tokens("var x = 5;").expect("Error scanning"), &mut errors)
        .expect("Error parsing");
    if let ReplParseOutput::Expr(_) = parsed {
        assert!(false, "Input was valid statement, but got parsed as expression.")
    }

    let parsed = parse_for_repl(scan_tokens("1").expect("Error scanning"), &mut errors).expect("Error parsing");
    assert_eq!(parsed, ReplParseOutput::Expr(literal_num("1")));
}

#[test]
fn test_parse_error_report() {
    let errors = parse_str("print 1").unwrap_err();
    assert_eq!(errors.len(), 1);
    assert_eq!(errors[0].line, 1);
    assert_eq!(errors[0].message, "Expect ';' after value.");
}

#[test]
fn ast_printer_test_pretty_print() {
    let exp = Binary::lift(
        Unary::lift(UnaryToken::new(UnaryOp::Minus, 1), literal_num("123")),
        BinaryToken::new(BinaryOp::Star, 1),
        Grouping::lift(literal_num("45.67")),
    );
    assert_eq!(pretty_print_expr(&exp), "((- 123) * (45.67))");

    let mut errors = Vec::new();
    let expression = parse_expression(scan_tokens("-123 * (45.67)").expect("Error scanning"), &mut errors)
        .expect("Error parsing");
    assert_eq!(pretty_print_expr(&expression), "((- 123) * (45.67))");

    let expression = parse_expression(scan_tokens("x    =      1").expect("Error scanning"), &mut errors)
        .expect("Error parsing");
    assert_eq!(pretty_print_expr(&expression), "x = 1");
}

fn resolve_str(s: &str) -> (Result<(), ()>, Vec<ResolveError>, Vec<Resolution>) {
    let stmts = parse_str(s).expect("Error parsing");
    let mut errors = Vec::new();
    let mut resolutions = Vec::new();
    let res = resolve(&stmts, &mut errors, &mut resolutions);
    (res, errors, resolutions)
}

fn resolves_from_str(s: &str) -> bool {
    resolve_str(s).0.is_ok()
}

#[test]
fn test_use_of_var_in_declaration() {
    assert!(!resolves_from_str("var a; {var a=a;}"))
}

#[test]
fn test_double_declare_at_non_global_scope() {
    assert!(!resolves_from_str("fun bad() {var a = 1; var a = 2;}"))
}

#[test]
fn test_return_from_init() {
    assert!(!resolves_from_str("class Foo {init() {return 5;}}"))
}

#[test]
fn test_super_misuses() {
    assert!(!resolves_from_str("super.hi();"));
    assert!(!resolves_from_str("class A {f() { super.hi(); }}"));
    assert!(resolves_from_str("class A < B {f() { super.hi(); }}"));
}

#[test]
fn test_resolution_depths() {
    let (res, errors, resolutions) = resolve_str("{var a = 1; {print a;}}");
    assert!(res.is_ok());
    assert!(errors.is_empty());
    assert_eq!(resolutions, vec![Resolution { name: "a".to_string(), line: 1, depth: 1 }]);

    // Globals are not resolved.
    let (res, _, resolutions) = resolve_str("var g = 1; print g;");
    assert!(res.is_ok());
    assert!(resolutions.is_empty());
}

#[test]
fn test_resolve_error_message() {
    let (res, errors, _) = resolve_str("class A < A {}");
    assert!(res.is_err());
    assert_eq!(errors.len(), 1);
    assert_eq!(errors[0].message, "A class can't inherit from itself.");
}

#[test]
fn test_arity_checks() {
    assert_eq!(check_arity(2, 2), Ok(()));
    let err = check_arity(2, 3).unwrap_err();
    assert_eq!(err, ArgLengthMismatch::new(2, 3));
    assert_eq!(err.expected(), 2);
    assert_eq!(err.provided(), 3);
}

fn function_named(name: &str, params: usize) -> Rc<Function> {
    let params: Vec<IdentifierToken> = (0..params).map(|i| IdentifierToken::new(format!("p{i}"), 1)).collect();
    match Function::lift(IdentifierToken::new(name.to_string(), 1), params, vec![]) {
        Stmt::Function(f) => Rc::new(*f),
        _ => panic!("expected a function"),
    }
}

#[test]
fn test_functions_and_classes() {
    let f = LoxFunction::new(function_named("add", 2), (), false);
    assert_eq!(f.arity(), 2);
    assert!(f.align_arguments(2).is_ok());
    assert_eq!(f.align_arguments(1), Err(ArgLengthMismatch::new(2, 1)));
    assert_eq!(f.to_display_string(), "<fn add>");

    let base = Rc::new(LoxClass::new(
        "Base".to_string(),
        None,
        vec![("greet".to_string(), LoxFunction::new(function_named("greet", 0), (), false))],
    ));
    let derived = LoxClass::new(
        "Derived".to_string(),
        Some(base.clone()),
        vec![("init".to_string(), LoxFunction::new(function_named("init", 1), (), true))],
    );
    assert_eq!(derived.find_method("init").map(|m| m.arity()), Some(1));
    assert_eq!(derived.find_method("greet").map(|m| m.to_display_string()), Some("<fn greet>".to_string()));
    assert!(derived.find_method("missing").is_none());
    assert!(base.find_method("init").is_none());
}

#[test]
fn test_runtime_error_carries_token() {
    let token = IdentifierToken::new("y".to_string(), 4);
    let err = RuntimeError::new(&token, "Undefined variable 'y'.".to_string());
    assert_eq!(err.line, 4);
    assert_eq!(err.message, "Undefined variable 'y'.");
}

#[test]
fn test_environments_scope_chain() {
    use_environments();
}

fn use_environments() {
    let mut envs: rlox::walker::environment::Environments<i32> = rlox::walker::environment::Environments::new();
    envs.define(0, "a", 1);
    let inner = envs.new_scope(0);
    envs.define(inner, "b", 2);
    assert_eq!(envs.get(inner, "a"), Some(&1));
    assert_eq!(envs.get(inner, "b"), Some(&2));
    assert_eq!(envs.get(0, "b"), None);
    assert_eq!(envs.get_here(inner, "a"), None);
    assert_eq!(envs.ancestor_of(inner, 1), Some(0));
    assert_eq!(envs.ancestor_of(inner, 2), None);
    // Assignment finds the scope that holds the name.
    assert!(envs.assign(inner, "a", 10));
    assert_eq!(envs.get(0, "a"), Some(&10));
    assert!(!envs.assign(inner, "c", 3));
    // Defining again shadows in the inner scope only.
    envs.define(inner, "a", 20);
    assert_eq!(envs.get(inner, "a"), Some(&20));
    assert_eq!(envs.get(0, "a"), Some(&10));
    assert_eq!(envs.len(), 2);
}

#[test]
fn test_use_resolves_to_nearest_declaration() {
    let (res, errors, resolutions) = resolve_str("{var a = 1; {var a = 2; print a;}}");
    assert!(res.is_ok());
    assert!(errors.is_empty());
    assert_eq!(resolutions, vec![Resolution { name: "a".to_string(), line: 1, depth: 0 }]);
}

#[test]
fn test_invalid_assignment_target_fails_the_parse() {
    let errors = parse_str("1 = 2;").unwrap_err();
    assert_eq!(errors.len(), 1);
    assert_eq!(errors[0].message, "Invalid assignment target.");
}

#[test]
fn test_too_many_arguments() {
    let args: Vec<String> = (0..256).map(|i| i.to_string()).collect();
    let source = format!("f({});", args.join(", "));
    let errors = parse_str(&source).unwrap_err();
    assert!(errors.iter().any(|e| e.message == "Can't have more than 255 arguments."));

    let args: Vec<String> = (0..255).map(|i| i.to_string()).collect();
    let source = format!("f({});", args.join(", "));
    assert!(parse_str(&source).is_ok());
}

fn num(x: f64) -> Operand {
    Operand::Number(x.to_bits())
}

#[test]
fn test_binary_operators() {
    assert!(matches!(binary(BinaryOp::Plus, &num(1.0), &num(2.0)),
        Outcome::Arithmetic(ArithOp::Add, a, b) if a == 1.0f64.to_bits() && b == 2.0f64.to_bits()));
    let joined = binary(BinaryOp::Plus, &Operand::Str("ab".to_string()), &Operand::Str("cd".to_string()));
    assert!(matches!(joined, Outcome::Value(Operand::Str(s)) if s == "abcd"));
    assert!(matches!(binary(BinaryOp::Plus, &num(1.0), &Operand::Nil),
        Outcome::Error(m) if m == "Type error: + with incompatible types"));
    assert!(matches!(binary(BinaryOp::Slash, &num(1.0), &num(-0.0)), Outcome::Error(m) if m == "Division by zero"));
    assert!(matches!(binary(BinaryOp::Slash, &Operand::Nil, &Operand::Bool(true)),
        Outcome::Error(m) if m == "Type error: expected Number, found Boolean"));
    assert!(matches!(binary(BinaryOp::Minus, &Operand::Str("a".to_string()), &num(1.0)),
        Outcome::Error(m) if m == "Type error: expected Number, found String"));
    assert!(matches!(binary(BinaryOp::Less, &num(1.0), &num(2.0)), Outcome::Value(Operand::Bool(true))));
    assert!(matches!(binary(BinaryOp::GreaterEqual, &num(2.0), &num(2.0)), Outcome::Value(Operand::Bool(true))));
    assert!(matches!(binary(BinaryOp::Greater, &num(f64::NAN), &num(2.0)), Outcome::Value(Operand::Bool(false))));
    assert!(matches!(binary(BinaryOp::EqualEqual, &num(f64::NAN), &num(f64::NAN)), Outcome::Value(Operand::Bool(true))));
    assert!(matches!(binary(BinaryOp::EqualEqual, &num(0.0), &num(-0.0)), Outcome::Value(Operand::Bool(true))));
    assert!(matches!(binary(BinaryOp::BangEqual, &Operand::Nil, &Operand::Bool(false)), Outcome::Value(Operand::Bool(true))));
    assert!(matches!(binary(BinaryOp::Comma, &num(1.0), &num(2.0)), Outcome::Right));
}

#[test]
fn test_unary_operators() {
    assert!(matches!(unary(UnaryOp::Minus, &num(3.0)), Outcome::Value(Operand::Number(b)) if b == (-3.0f64).to_bits()));
    assert!(matches!(unary(UnaryOp::Bang, &Operand::Nil), Outcome::Value(Operand::Bool(true))));
    assert!(matches!(unary(UnaryOp::Bang, &num(0.0)), Outcome::Value(Operand::Bool(false))));
    assert!(matches!(unary(UnaryOp::Minus, &Operand::Nil), Outcome::Error(m) if m == "Type error: expected Number, found Nil"));
}

#[test]
fn test_number_literal_keeps_its_canonical_text() {
    assert_eq!(parse_str("1.0;").expect("Error parsing"), single_expr(literal_num("1")));
    let expression = parse_expression(scan_tokens("2.50").expect("Error scanning"), &mut Vec::new()).expect("Error parsing");
    assert_eq!(pretty_print_expr(&expression), "2.5");
}

#[test]
fn test_runtime_error_text() {
    let e = RuntimeError::new(&IdentifierToken::new("x".to_string(), 7), "Undefined variable 'x'.".to_string());
    assert_eq!(e.text(), "[Runtime Error line: 7, token: x] Undefined variable 'x'.");
}
