use snowc::display::{i64_to_string, u64_to_string};
use snowc::opcode::OpCode;
use snowc::settings::{Settings, Target};

#[test]
fn decimal_rendering() {
    assert_eq!(u64_to_string(0), "0");
    assert_eq!(u64_to_string(12345), "12345");
    assert_eq!(i64_to_string(-42), "-42");
    assert_eq!(i64_to_string(i64::MIN), "-9223372036854775808");
    assert_eq!(i64_to_string(i64::MAX), "9223372036854775807");
}

#[test]
fn opcode_decoding() {
    assert_eq!(OpCode::from(0u8), OpCode::Load);
    assert_eq!(OpCode::from(3u8), OpCode::Div);
    assert_eq!(OpCode::from(13u8), OpCode::Hlt);
    assert_eq!(OpCode::from(14u8), OpCode::Nop);
    assert_eq!(OpCode::from(15u8), OpCode::Ige);
    assert_eq!(OpCode::from(255u8), OpCode::Ige);
}

#[test]
fn settings_start_empty() {
    let settings = Settings::default();
    assert!(settings.filename.is_none());
    assert!(settings.target.is_none());
    assert!(!settings.debug_token);
    assert!(!settings.debug_ast);
    assert!(!settings.debug_graph);
    assert!(!settings.option_no_type_check);
    assert!(!settings.option_compile_string);
    assert!(!settings.verbose);
    assert!(!settings.run);
    assert_eq!(Target::JS, Target::JS);
}

#[test]
fn runtime_errors_carry_a_message_and_a_span() {
    let ast = snowc::parser::parse("main = 1 / 0;").expect("program should parse");
    let mut interpreter = snowc::eval::Interpreter::new();
    let err = interpreter.run(&ast).expect_err("division by zero expected");
    assert_eq!(err.message(), "division by zero");
    assert!(err.span.start <= err.span.end);
}

#[test]
fn resynchronization_reports_every_error() {
    // Two malformed declarations in one pass: both are reported, and the
    // well-formed one in between still parses.
    let result = snowc::parser::parse("= bad; good x = x; ( also bad");
    match result {
        Err(errors) => assert!(errors.len() >= 2),
        Ok(ast) => panic!("expected parse errors, got {ast:?}"),
    }
}

#[test]
fn type_declaration_types_reach_the_definition() {
    let ast = snowc::parser::parse("inc :: Int -> Int; inc x = x + 1;")
        .expect("program should parse");
    let func = ast
        .iter()
        .find(|d| matches!(d, snowc::ast::Expr::Func(..)))
        .expect("one definition expected");
    match func {
        snowc::ast::Expr::Func(name, types, _, _) => {
            assert_eq!(name, "inc");
            assert_eq!(types.len(), 2);
        }
        _ => unreachable!(),
    }
}
