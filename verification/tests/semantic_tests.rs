use lib::ast::{Expr, Program, Type};
use lib::driver::{check_program, parse_tokens};
use lib::lexer::Lexer;
use lib::semantic::SemanticAnalyzer;
use lib::table::Table;

fn parse(src: &str) -> Program {
    let mut lx = Lexer::new(src);
    let toks = lx.tokenize().unwrap();
    parse_tokens(toks, &Table::new()).unwrap().unwrap()
}

fn errors(src: &str) -> Vec<String> {
    check_program(&parse(src)).unwrap()
}

#[test]
fn let_bindings_cannot_be_reassigned() {
    assert_eq!(errors("let x = 1; x = 2;"), vec!["Cannot assign to immutable variable `x`".to_string()]);
}

#[test]
fn mut_bindings_can_be_reassigned() {
    assert!(errors("mut x = 1; x = 2;").is_empty());
}

#[test]
fn print_is_refused_in_gpu_blocks() {
    assert_eq!(
        errors("gpu { print(1); }"),
        vec!["GPU block: `print` is not allowed inside gpu blocks".to_string()]
    );
}

#[test]
fn file_write_is_refused_in_gpu_blocks() {
    assert_eq!(
        errors("gpu { file_write(\"a\", \"b\"); }"),
        vec!["GPU block: `file_write` is not allowed inside gpu blocks".to_string()]
    );
}

#[test]
fn print_is_fine_outside_gpu_blocks() {
    assert!(errors("print(1);").is_empty());
}

#[test]
fn cpu_tensor_argument_in_gpu_block_is_refused() {
    assert_eq!(
        errors("fn f(tensor@cpu t) { gpu { g(t); } }"),
        vec![
            "Arg 1 to `g`: `tensor@cpu` in gpu block \u{2014} use `.toGpu()` first".to_string(),
            "Undefined function `g`".to_string(),
        ]
    );
}

#[test]
fn break_outside_a_loop_is_refused() {
    assert_eq!(errors("break;"), vec!["`break` outside of loop".to_string()]);
    assert_eq!(errors("continue;"), vec!["`continue` outside of loop".to_string()]);
}

#[test]
fn break_inside_a_loop_is_fine() {
    assert!(errors("while (true) { break; }").is_empty());
}

#[test]
fn undefined_variable_is_reported() {
    assert_eq!(errors("let y = z;"), vec!["Undefined variable `z`".to_string()]);
}

#[test]
fn if_condition_must_be_bool() {
    assert_eq!(errors("if (\"s\") { }"), vec!["if condition must be `bool`, got `string`".to_string()]);
    assert!(errors("if (1) { }").is_empty());
}

#[test]
fn literals_infer_their_types() {
    let mut sem = SemanticAnalyzer::new();
    assert!(matches!(sem.infer_expr(&Expr::IntLit(42)), Type::Int64));
    assert!(matches!(sem.infer_expr(&Expr::FloatLit("3.14".to_string())), Type::Float64));
    assert!(matches!(sem.infer_expr(&Expr::StringLit("hi".to_string())), Type::Str));
}

#[test]
fn analyze_reports_in_order() {
    let mut sem = SemanticAnalyzer::new();
    let errs = sem.analyze(&parse("let a = b; let c = d;"));
    assert_eq!(errs, vec!["Undefined variable `b`".to_string(), "Undefined variable `d`".to_string()]);
}

#[test]
fn strings_are_not_compared_with_double_equals() {
    assert_eq!(
        errors("let name = \"x\";\nif (name == \"ionic\") { }"),
        vec!["Strings are compared with `str_eq`, not `==`".to_string()]
    );
    assert_eq!(
        errors("let name = \"x\";\nlet d = name != \"y\";"),
        vec!["Strings are compared with `str_eq`, not `!=`".to_string()]
    );
    assert!(errors("let name = \"x\";\nif (str_eq(name, \"ionic\")) { }").is_empty());
}

#[test]
fn bindings_take_the_type_of_their_value_or_annotation() {
    assert!(errors("let x = 42;\nlet y: int64 = x;").is_empty());
    assert_eq!(
        errors("let f = 3.14;\nlet g: int64 = f;"),
        vec!["Type mismatch for `g`: declared `int64` but init is `float64`".to_string()]
    );
    assert_eq!(
        errors("let h: float64 = 1;\nlet k = h + 2;"),
        vec![
            "Type mismatch for `h`: declared `float64` but init is `int64`".to_string(),
            "Type mismatch: `float64` vs `int64`".to_string(),
        ]
    );
}
