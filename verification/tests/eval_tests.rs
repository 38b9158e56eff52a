use snowc::ast::{Atom, Expr};
use snowc::eval::{Interpreter, RuntimeErrorKind};
use snowc::parser::parse;
use snowc::span::Span;

fn run(src: &str) -> Result<Atom, snowc::eval::RuntimeError> {
    let ast = parse(src).expect("program should parse");
    let mut interpreter = Interpreter::new();
    interpreter.run(&ast)
}

fn run_with_output(src: &str) -> (Result<Atom, snowc::eval::RuntimeError>, Vec<String>) {
    let ast = parse(src).expect("program should parse");
    let mut interpreter = Interpreter::new();
    let r = interpreter.run(&ast);
    (r, interpreter.output.clone())
}

fn expect_int(src: &str, expected: i64) {
    match run(src) {
        Ok(Atom::Int(v)) => assert_eq!(v, expected),
        other => panic!("expected Int({expected}), got {other:?}"),
    }
}

fn expect_error(src: &str, kind: RuntimeErrorKind) {
    match run(src) {
        Err(err) => assert_eq!(err.kind, kind),
        other => panic!("expected {kind:?}, got {other:?}"),
    }
}

#[test]
fn end_to_end_addition() {
    expect_int("add x y = x + y; main = add 1 2;", 3);
}

#[test]
fn end_to_end_conditional() {
    expect_int("main = if 1 > 0 then 10 else 20;", 10);
    expect_int("main = if 1 < 0 then 10 else 20;", 20);
}

#[test]
fn end_to_end_push_nth() {
    expect_int("main = nth (push [1,2] 3) 2;", 3);
}

#[test]
fn pop_returns_last_element() {
    expect_int("main = pop [1,2,3];", 3);
}

#[test]
fn arithmetic_operators() {
    expect_int("main = 10 - 3;", 7);
    expect_int("main = 6 * 7;", 42);
    expect_int("main = 7 / 2;", 3);
    expect_int("main = (0 - 7) / 2;", -3);
    expect_int("main = -5;", -5);
}

#[test]
fn comparison_operators() {
    expect_int("main = if 2 >= 2 then 1 else 0;", 1);
    expect_int("main = if 2 <= 1 then 1 else 0;", 0);
    expect_int("main = if 2 == 2 then 1 else 0;", 1);
    expect_int("main = if 2 != 2 then 1 else 0;", 0);
    expect_int("main = if !(1 > 2) then 1 else 0;", 1);
}

#[test]
fn undefined_name_is_an_error_not_a_panic() {
    expect_error("main = undefined_fn 1;", RuntimeErrorKind::UndefinedName);
}

#[test]
fn error_kinds() {
    expect_error("main = 1 + true;", RuntimeErrorKind::TypeMismatch);
    expect_error("main = 1 / 0;", RuntimeErrorKind::DivisionByZero);
    expect_error("main = nth [1] 5;", RuntimeErrorKind::IndexOutOfRange);
    expect_error("main = pop [];", RuntimeErrorKind::EmptyCollection);
    expect_error("add x y = x + y; main = add 1;", RuntimeErrorKind::ArityMismatch);
    expect_error("f = f; main = f;", RuntimeErrorKind::RecursionLimit);
    expect_error("main = if 1 then 2 else 3;", RuntimeErrorKind::TypeMismatch);
}

#[test]
fn missing_entry_point() {
    expect_error("add x y = x + y;", RuntimeErrorKind::MissingEntryPoint);
}

#[test]
fn declaration_in_body_position_fails_loudly() {
    let mut interpreter = Interpreter::new();
    let empty: Vec<(String, Expr)> = Vec::new();
    let r = interpreter.eval(
        &Expr::Error(Span::new(0, 0)),
        &empty,
        &empty,
        16,
    );
    match r {
        Err(err) => assert_eq!(err.kind, RuntimeErrorKind::MalformedBody),
        other => panic!("expected MalformedBody, got {other:?}"),
    }
}

#[test]
fn print_builtins_collect_output() {
    let (r, out) = run_with_output("main = print_int 42;");
    match r {
        Ok(Atom::Int(v)) => assert_eq!(v, 42),
        other => panic!("expected Int(42), got {other:?}"),
    }
    assert_eq!(out, vec!["42".to_string()]);
}

#[test]
fn print_str_emits_the_string() {
    let (r, out) = run_with_output("main = print_str \"hi there\";");
    match r {
        Ok(Atom::Str(s)) => assert_eq!(s, "hi there"),
        other => panic!("expected a string, got {other:?}"),
    }
    assert_eq!(out, vec!["hi there".to_string()]);
}

#[test]
fn local_bindings_shadow_globals() {
    // The lookup order is local-first, so a parameter shadows a global
    // definition of the same name.
    expect_int("x = 1; f x = x; main = f 2;", 2);
}

#[test]
fn lambda_application() {
    expect_int("main = (\\x -> x + 1) 41;", 42);
}

#[test]
fn let_binding_desugars_to_application() {
    expect_int("main = let x = 2, y = 3 in x * y;", 6);
}

#[test]
fn array_literal_evaluates_elements() {
    expect_int("main = nth [1 + 1, 2 + 2] 1;", 4);
}

#[test]
fn non_function_declarations_are_skipped_by_the_evaluator() {
    expect_int(
        "enum Option = Some Int | None; inc :: Int -> Int; inc x = x + 1; main = inc 41;",
        42,
    );
}

#[test]
fn run_source_end_to_end() {
    match snowc::eval::run_source("add x y = x + y; main = add 20 22;") {
        Ok((Atom::Int(v), out)) => {
            assert_eq!(v, 42);
            assert!(out.is_empty());
        }
        other => panic!("expected Int(42), got {other:?}"),
    }
}
