use lib::ast::{BinOp, Expr, HwAnnotation, ImportKind, Program, Stmt, TypeAnnotation};
use lib::driver::parse_tokens;
use lib::lexer::Lexer;
use lib::parser::Parser;
use lib::table::Table;

fn parse(src: &str) -> Result<Program, String> {
    let mut lx = Lexer::new(src);
    let toks = lx.tokenize().unwrap();
    parse_tokens(toks, &Table::new()).unwrap()
}

#[test]
fn multiplication_binds_tighter_than_addition() {
    let p = parse("let x = 1 + 2 * 3;").unwrap();
    assert_eq!(p.top_level.len(), 1);
    match &p.top_level[0] {
        Stmt::Let { mutable, name, ty, init, .. } => {
            assert!(!mutable);
            assert_eq!(name, "x");
            assert!(ty.is_none());
            match init {
                Expr::BinOp { op, lhs, rhs } => {
                    assert_eq!(*op, BinOp::Add);
                    assert!(matches!(**lhs, Expr::IntLit(1)));
                    assert!(matches!(&**rhs, Expr::BinOp { op: BinOp::Mul, .. }));
                }
                other => panic!("unexpected {:?}", other),
            }
        }
        other => panic!("unexpected {:?}", other),
    }
}

#[test]
fn mut_declares_a_mutable_binding() {
    let p = parse("mut count = 0;").unwrap();
    assert!(matches!(&p.top_level[0], Stmt::Let { mutable: true, name, .. } if name == "count"));
}

#[test]
fn function_with_typed_parameter() {
    let p = parse("fn gcd(int64 a, int64 b) -> int64 { return a; }").unwrap();
    assert_eq!(p.fns.len(), 1);
    let f = &p.fns[0];
    assert_eq!(f.name, "gcd");
    assert_eq!(f.params.len(), 2);
    assert_eq!(f.params[0].name, "a");
    assert!(matches!(f.params[1].ty, TypeAnnotation::Int64));
    assert!(matches!(f.ret_ty, TypeAnnotation::Int64));
    assert!(matches!(&f.body[0], Stmt::Return(Some(Expr::Ident(n))) if n == "a"));
}

#[test]
fn glob_and_named_imports() {
    let p = parse("import std.math.*;\nimport std.str.{contains, trim};").unwrap();
    assert_eq!(p.imports.len(), 2);
    assert_eq!(p.imports[0].path, vec!["std".to_string(), "math".to_string()]);
    assert!(matches!(p.imports[0].kind, ImportKind::Glob));
    match &p.imports[1].kind {
        ImportKind::Named(ns) => assert_eq!(ns, &vec!["contains".to_string(), "trim".to_string()]),
        other => panic!("unexpected {:?}", other),
    }
}

#[test]
fn struct_definition() {
    let p = parse("struct Point { x: int64, y: int64 }").unwrap();
    assert_eq!(p.structs.len(), 1);
    assert_eq!(p.structs[0].name, "Point");
    assert_eq!(p.structs[0].fields.len(), 2);
    assert_eq!(p.structs[0].fields[1].name, "y");
}

#[test]
fn missing_expression_is_reported_with_its_line() {
    assert_eq!(parse("let x = ;").unwrap_err(), "Line 1: unexpected `;` in expression");
}

#[test]
fn missing_name_is_reported() {
    assert_eq!(parse("let = 1;").unwrap_err(), "Line 1: expected identifier, got `=`");
}

#[test]
fn missing_semicolon_is_reported() {
    assert_eq!(parse("\nlet x = 1").unwrap_err(), "Line 2: expected `;`, got `<EOF>`");
}

#[test]
fn a_stream_without_eof_is_refused() {
    assert!(parse_tokens(Vec::new(), &Table::new()).is_none());
}

#[test]
fn parse_expr_reads_one_expression() {
    let mut lx = Lexer::new("a.b[2]");
    let toks = lx.tokenize().unwrap();
    let mut p = Parser::new(toks);
    let e = p.parse_expr().unwrap();
    match e {
        Expr::Index { obj, idx } => {
            assert!(matches!(*idx, Expr::IntLit(2)));
            assert!(matches!(&*obj, Expr::FieldAccess { field, .. } if field == "b"));
        }
        other => panic!("unexpected {:?}", other),
    }
}

#[test]
fn model_is_a_reserved_word() {
    assert_eq!(parse("let model = 1;").unwrap_err(), "Line 1: expected identifier, got `model`");
    assert!(parse("let mdl = 1;").is_ok());
}

#[test]
fn array_types_put_the_element_type_in_brackets() {
    assert!(parse("fn sum([int64] a) -> int64 { return 0; }").is_ok());
    assert_eq!(
        parse("fn sum(int64[] a) -> int64 { return 0; }").unwrap_err(),
        "Line 1: expected identifier, got `[`"
    );
}

#[test]
fn doc_lines_document_the_next_definition() {
    let p = parse("/// Adds.\n/// Twice.\nfn f() -> int64 { return 1; }").unwrap();
    assert_eq!(p.fns[0].doc, Some(" Adds.\n Twice.".to_string()));
    let p = parse("fn g() -> int64 { return 1; }").unwrap();
    assert_eq!(p.fns[0].doc, None);
}

#[test]
fn placement_fractions() {
    let p = parse("@gpu(0.5) fn f() { }\n@cpu(1) fn g() { }").unwrap();
    assert!(matches!(&p.fns[0].hw, Some(HwAnnotation::GpuFrac(t)) if t == "0.5"));
    assert!(matches!(&p.fns[1].hw, Some(HwAnnotation::CpuFrac(t)) if t == "1"));
    assert_eq!(
        parse("@gpu(x) fn f() { }").unwrap_err(),
        "Line 1: expected fraction in @gpu(...), got `x`"
    );
}

#[test]
fn import_needs_a_star_or_braces_after_a_final_dot() {
    assert_eq!(parse("import a.;").unwrap_err(), "Line 1: expected `*` or `{` after `.` in import");
    assert!(matches!(parse("import a;").unwrap().imports[0].kind, ImportKind::Module));
}

#[test]
fn annotations_must_be_types() {
    assert_eq!(parse("let x: 5 = 1;").unwrap_err(), "Line 1: expected type, got `5`");
}

#[test]
fn doc_lines_inside_blocks_are_passed_over() {
    let p = parse("fn f() { /// note\n return; }").unwrap();
    assert_eq!(p.fns[0].body.len(), 1);
    assert!(matches!(p.fns[0].body[0], Stmt::Return(None)));
    let p = parse("while (true) { break;\n /// trailing\n }").unwrap();
    assert!(matches!(&p.top_level[0], Stmt::While { body, .. } if body.len() == 1));
}

#[test]
fn doc_lines_at_the_end_document_nothing() {
    let p = parse("print(1);\n/// trailing\n/// note").unwrap();
    assert_eq!(p.top_level.len(), 1);
    assert!(parse("@gpu\n").is_err());
}

#[test]
fn doc_lines_inside_brackets_are_comments() {
    let p = parse("fn f(\n/// first\nint64 a) -> int64 { return a; }").unwrap();
    assert_eq!(p.fns[0].params.len(), 1);
    let p = parse("struct P {\n/// x\nx: int64,\n/// y\ny: int64 }").unwrap();
    assert_eq!(p.structs[0].fields.len(), 2);
    let p = parse("let x = [1,\n/// two\n2];").unwrap();
    assert_eq!(p.top_level.len(), 1);
}

#[test]
fn doc_lines_inside_statements_are_comments() {
    let p = parse("let x = 1 +\n/// two\n2;").unwrap();
    assert_eq!(p.top_level.len(), 1);
    let p = parse("if (true) { }\n/// note\nelse { }").unwrap();
    assert_eq!(p.top_level.len(), 1);
    assert!(matches!(&p.top_level[0], Stmt::If { .. }));
}

fn parse_showing(src: &str, text: &str, value: f64) -> Result<Program, String> {
    let mut shown: Table<String> = Table::new();
    shown.insert(text.to_string(), value.to_string());
    let toks = Lexer::new(src).tokenize().unwrap();
    parse_tokens(toks, &shown).unwrap()
}

#[test]
fn fractions_are_shown_as_their_values() {
    assert_eq!(parse_showing("let 1.0 = 2;", "1.0", 1.0).unwrap_err(), "Line 1: expected identifier, got `1`");
    assert_eq!(parse_showing("let 2.50 = 2;", "2.50", 2.5).unwrap_err(), "Line 1: expected identifier, got `2.5`");
    let p = parse_showing("let x = 1.0;", "1.0", 1.0).unwrap();
    assert!(matches!(&p.top_level[0], Stmt::Let { init: Expr::FloatLit(t), .. } if t == "1"));
    assert_eq!(parse("let 1.0 = 2;").unwrap_err(), "Line 1: expected identifier, got `1.0`");
}
