use snowc::haskell::{code_gen_expr, haskell_code_gen};
use snowc::java::java_gen_code;
use snowc::js::gen_code;
use snowc::parser::{parse, parse_expr};

#[test]
fn haskell_application() {
    let e = parse_expr("add 1 2").expect("expression should parse");
    assert_eq!(code_gen_expr(&e), "add 1 2 ");
}

#[test]
fn haskell_nested_application() {
    let e = parse_expr("f (g 1) 2").expect("expression should parse");
    assert_eq!(code_gen_expr(&e), "f g 1  2 ");
}

#[test]
fn haskell_program() {
    let ast = parse("add x y = add x y;").expect("program should parse");
    assert_eq!(haskell_code_gen(&ast), "addx y  = add x y ");
}

#[test]
fn js_program_is_prettified() {
    let ast = parse("add x y = x + y; main = add 1 2;").expect("program should parse");
    let pretty = gen_code(&ast).expect("translation should succeed");
    let raw = "const add = (x) => (y) => (x + y)\nconst main = add(1,2)";
    assert!(pretty.contains("const add"));
    assert!(pretty.contains("=>"));
    assert_ne!(pretty, raw);
}

#[test]
fn js_empty_program() {
    let ast: Vec<snowc::ast::Expr> = Vec::new();
    let pretty = gen_code(&ast).expect("translation should succeed");
    assert_eq!(pretty, "\n");
}

#[test]
fn java_program() {
    let ast = parse("add :: Int -> Int -> Int; add x y = x + y; main = add 1 2;")
        .expect("program should parse");
    let only_funcs: Vec<snowc::ast::Expr> = ast
        .into_iter()
        .filter(|d| matches!(d, snowc::ast::Expr::Func(..)))
        .collect();
    let program = java_gen_code(&only_funcs).expect("translation should succeed");
    let expected = "import java.util.function.Function;\n\nFunction<Integer, Function<?, ?>> add() {\n\treturn (Integer x) -> (Integer y) -> (x + y);\n}\npublic static void main(String[] args) {\n\tvar add_0 = add().apply(1);\n\t((Function<?, ?>) add_0).apply(2);;\n}";
    assert_eq!(program, expected);
}
