use lib::ast::Program;
use lib::codegen::{can_generate, compile_ir, escape_text, raw_byte_count, Codegen, FloatText};
use lib::driver::parse_tokens;
use lib::lexer::Lexer;
use lib::table::Table;

fn parse(src: &str) -> Program {
    let mut lx = Lexer::new(src);
    let toks = lx.tokenize().unwrap();
    parse_tokens(toks, &Table::new()).unwrap().unwrap()
}

#[test]
fn printing_an_integer_at_top_level() {
    let ir = compile_ir(&parse("print(42);"), Vec::new()).unwrap();
    assert!(ir.starts_with("; Ionic compiled output"));
    assert!(ir.contains("define i32 @main(i32 %_argc, ptr %_argv) {\nentry:\n  call void @ionic_runtime_init(i32 %_argc, ptr %_argv)\n"));
    assert!(ir.contains("  call i32 (ptr, ...) @printf(ptr @fmt_int, i64 42)\n"));
    assert!(ir.contains("  ret i32 0\n}\n"));
}

#[test]
fn string_literals_become_constants() {
    let ir = compile_ir(&parse("print(\"hi\");"), Vec::new()).unwrap();
    assert!(ir.contains("@str0 = private constant [3 x i8] c\"hi\\00\""));
    assert!(ir.contains("getelementptr [3 x i8], ptr @str0, i32 0, i32 0"));
}

#[test]
fn registered_float_renderings_are_used() {
    let floats = vec![(
        "1.5".to_string(),
        FloatText {
            fixed: "1.50000000000000000".to_string(),
            sci: "1.50000000000000000e0".to_string(),
            places3: "1.500".to_string(),
        },
    )];
    let ir = compile_ir(&parse("print(1.5);"), floats).unwrap();
    assert!(ir.contains("@printf(ptr @fmt_float, double 1.50000000000000000)"));
}

#[test]
fn unregistered_float_text_is_written_as_is() {
    let ir = compile_ir(&parse("print(2.25);"), Vec::new()).unwrap();
    assert!(ir.contains("@printf(ptr @fmt_float, double 2.25)"));
}

#[test]
fn a_call_missing_arguments_cannot_be_generated() {
    let p = parse("let r = sqrt();");
    assert!(!can_generate(&p));
    assert!(compile_ir(&p, Vec::new()).is_none());
}

#[test]
fn generate_matches_compile_ir() {
    let p = parse("fn f(int64 a) -> int64 { return a + 1; }\nprint(f(2));");
    let mut cg = Codegen::new();
    let ir = cg.generate(&p);
    assert_eq!(&ir, cg.output());
    assert_eq!(Some(ir), compile_ir(&p, Vec::new()));
}

#[test]
fn user_main_is_called_from_the_entry_point() {
    let ir = compile_ir(&parse("fn main() -> int64 { return 3; }"), Vec::new()).unwrap();
    assert!(ir.contains("  %_exit = call i64 @ionic_user_main()\n  %_exit32 = trunc i64 %_exit to i32\n  ret i32 %_exit32\n"));
}

#[test]
fn escaping_and_byte_counts() {
    let e = escape_text(&"a\n\"\\\t".to_string());
    assert_eq!(e, "a\\0A\\22\\5C\\09");
    assert_eq!(raw_byte_count(&e), 5);
    assert_eq!(raw_byte_count("x\\0"), 3);
    assert_eq!(raw_byte_count("é"), 2);
}

#[test]
fn for_ranges_exclude_their_end() {
    let ir = compile_ir(&parse("for (i in 0..3) { print(i); }"), Vec::new()).unwrap();
    assert!(ir.contains(" = icmp slt i64 "));
    assert!(!ir.contains(" = icmp sle i64 "));
}

#[test]
fn constants_close_the_module_in_interning_order() {
    let ir = compile_ir(&parse("print(\"a\");\nprint(\"bc\");"), Vec::new()).unwrap();
    assert!(ir.ends_with("@str0 = private constant [2 x i8] c\"a\\00\"\n@str1 = private constant [3 x i8] c\"bc\\00\"\n"));
}
