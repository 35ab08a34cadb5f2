use lib::ast::{Program, Stmt};
use lib::driver::{link_args, merge_library, output_paths, parse_args, parse_tokens, runtime_args, ArgsOutcome};
use lib::lexer::Lexer;
use lib::table::Table;

fn args(xs: &[&str]) -> Vec<String> {
    xs.iter().map(|s| s.to_string()).collect()
}

fn parse(src: &str) -> Program {
    let mut lx = Lexer::new(src);
    let toks = lx.tokenize().unwrap();
    parse_tokens(toks, &Table::new()).unwrap().unwrap()
}

#[test]
fn too_few_arguments_ask_for_usage() {
    assert!(matches!(parse_args(&args(&["ionic"])), ArgsOutcome::Usage));
    assert!(matches!(parse_args(&args(&[])), ArgsOutcome::Usage));
}

#[test]
fn flags_are_read() {
    match parse_args(&args(&["ionic", "a.ionic", "--emit-ir", "--run", "-o", "out"])) {
        ArgsOutcome::Compile { source, flags } => {
            assert_eq!(source, "a.ionic");
            assert!(flags.emit_ir && flags.run);
            assert!(!flags.dump_ast && !flags.dump_tokens);
            assert_eq!(flags.output, Some("out".to_string()));
        }
        _ => panic!("expected a compile request"),
    }
}

#[test]
fn dump_flags_are_read() {
    match parse_args(&args(&["ionic", "a.ionic", "--dump-tokens", "--dump-ast"])) {
        ArgsOutcome::Compile { flags, .. } => assert!(flags.dump_tokens && flags.dump_ast && flags.output.is_none()),
        _ => panic!("expected a compile request"),
    }
}

#[test]
fn a_trailing_dash_o_names_no_output() {
    match parse_args(&args(&["ionic", "a.ionic", "-o", "x", "-o"])) {
        ArgsOutcome::Compile { flags, .. } => assert_eq!(flags.output, None),
        _ => panic!("expected a compile request"),
    }
}

#[test]
fn unknown_flags_are_refused() {
    match parse_args(&args(&["ionic", "a.ionic", "--run", "--fast", "--emit-ir"])) {
        ArgsOutcome::UnknownFlag(f) => assert_eq!(f, "--fast"),
        _ => panic!("expected an unknown flag"),
    }
}

#[test]
fn library_definitions_come_first() {
    let lib = parse("fn sq(int64 x) -> int64 { return x * x; }\nlet K = 2;");
    let main = parse("fn f() -> int64 { return sq(K); }\nprint(f());");
    let merged = merge_library(main, (lib.fns, lib.structs, lib.top_level));
    let names: Vec<&str> = merged.fns.iter().map(|f| f.name.as_str()).collect();
    assert_eq!(names, vec!["sq", "f"]);
    assert_eq!(merged.top_level.len(), 2);
    assert!(matches!(&merged.top_level[0], Stmt::Let { name, .. } if name == "K"));
}

#[test]
fn output_paths_follow_the_stem() {
    let (ir, bin) = output_paths(&"fib".to_string(), &None);
    assert_eq!((ir.as_str(), bin.as_str()), ("/tmp/fib.ll", "fib"));
    let (_, bin) = output_paths(&"fib".to_string(), &Some("app".to_string()));
    assert_eq!(bin, "app");
}

#[test]
fn runtime_compile_arguments() {
    let none: Option<String> = None;
    let r = runtime_args(&"rt.c".to_string(), "/tmp/rt.o", &none, &none, &none, &none);
    assert_eq!(r, args(&["-c", "rt.c", "-o", "/tmp/rt.o"]));
    let inc = Some("/inc".to_string());
    let lib = Some("/lib".to_string());
    let r = runtime_args(&"rt.c".to_string(), "/tmp/rt.o", &inc, &lib, &inc, &none);
    assert_eq!(r, args(&["-c", "rt.c", "-o", "/tmp/rt.o", "-DIONIC_HAVE_ORT", "-I/inc"]));
}

#[test]
fn link_arguments() {
    let none: Option<String> = None;
    let r = link_args(&"/tmp/a.ll".to_string(), &"a".to_string(), &none, &none, &none, &none, &none);
    assert_eq!(r, args(&["/tmp/a.ll", "-o", "a", "-lm"]));
    let inc = Some("/inc".to_string());
    let lib = Some("/lib".to_string());
    let obj = Some("/tmp/rt.o".to_string());
    let r = link_args(&"/tmp/a.ll".to_string(), &"a".to_string(), &obj, &none, &lib, &inc, &lib);
    assert_eq!(
        r,
        args(&["/tmp/a.ll", "-o", "a", "-lm", "/tmp/rt.o", "-L/lib", "-lllama", "-Wl,-rpath,/lib"])
    );
}
