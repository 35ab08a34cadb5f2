use lib::ast::Program;
use lib::codegen::compile_ir;
use lib::driver::parse_tokens;
use lib::imports::{bfs_reachable, build_lib_pool, LibSource};
use lib::lexer::Lexer;
use lib::table::Table;

fn parse(src: &str) -> Program {
    let mut lx = Lexer::new(src);
    let toks = lx.tokenize().unwrap();
    parse_tokens(toks, &Table::new()).unwrap().unwrap()
}

const LIB: &str = "fn a() -> int64 { return b(); }\nfn b() -> int64 { return 1; }\nfn c() -> int64 { return d(); }\nfn d() -> int64 { return 2; }\n";

fn needed_fns(main_src: &str) -> Vec<String> {
    let main = parse(main_src);
    let src = LibSource::Loaded { path: "lib/m.ionic".to_string(), text: LIB.to_string() };
    let pool = build_lib_pool(&main.imports, vec![src], &Table::new()).ok().unwrap();
    let (fns, _, _) = bfs_reachable(&main, pool);
    fns.iter().map(|f| f.name.clone()).collect()
}

#[test]
fn naming_more_needs_more() {
    let small = needed_fns("import m.*;\nprint(a());");
    let large = needed_fns("import m.*;\nprint(a());\nprint(c());");
    assert_eq!(small, vec!["b".to_string(), "a".to_string()]);
    assert!(small.iter().all(|n| large.contains(n)));
    let mut sorted = large.clone();
    sorted.sort();
    assert_eq!(sorted, vec!["a".to_string(), "b".to_string(), "c".to_string(), "d".to_string()]);
    let at = |n: &str| large.iter().position(|x| x == n).unwrap();
    assert!(at("b") < at("a"));
    assert!(at("d") < at("c"));
}

#[test]
fn needed_definitions_are_closed_under_calls() {
    let got = needed_fns("import m.*;\nprint(c());");
    assert_eq!(got, vec!["d".to_string(), "c".to_string()]);
}

#[test]
fn loaded_pools_keep_definitions_under_their_names() {
    let main = parse("import m.*;\nimport m.{b};");
    let s1 = LibSource::Loaded { path: "lib/m.ionic".to_string(), text: LIB.to_string() };
    let s2 = LibSource::Loaded { path: "lib/m.ionic".to_string(), text: LIB.to_string() };
    let pool = build_lib_pool(&main.imports, vec![s1, s2], &Table::new()).ok().unwrap();
    assert_eq!(pool.fns.len(), 4);
    for i in 0..pool.fns.len() {
        let (k, f) = pool.fns.entry(i);
        assert_eq!(k, &f.name);
    }
}

#[test]
fn lexed_streams_always_parse_or_report() {
    for src in ["", "let", "fn f( {", "print(1);", "struct S { x: int64 }"] {
        let mut lx = Lexer::new(src);
        let toks = lx.tokenize().unwrap();
        assert!(parse_tokens(toks, &Table::new()).is_some());
    }
}

#[test]
fn registers_are_not_reused_within_a_function() {
    let ir = compile_ir(&parse("print(1 + 2);\nprint(3 * 4);\nlet s = \"x\";"), Vec::new()).unwrap();
    let defs: Vec<&str> = ir
        .lines()
        .filter_map(|l| l.trim_start().split(" = ").next())
        .filter(|d| d.len() > 2 && d.starts_with("%r") && d[2..].chars().all(|c| c.is_ascii_digit()))
        .collect();
    assert!(defs.len() >= 2);
    let mut sorted = defs.clone();
    sorted.sort();
    sorted.dedup();
    assert_eq!(sorted.len(), defs.len());
}

#[test]
fn a_wildcard_import_compiles_like_naming_what_is_used() {
    let glob = needed_fns("import m.*;\nprint(a());");
    let named = needed_fns("import m.{a, b};\nprint(a());");
    assert_eq!(glob, named);
    assert_eq!(named, vec!["b".to_string(), "a".to_string()]);
}

#[test]
fn a_module_import_admits_what_a_wildcard_admits() {
    let src = || LibSource::Loaded { path: "lib/m.ionic".to_string(), text: LIB.to_string() };
    let by_name = build_lib_pool(&parse("import m;").imports, vec![src()], &Table::new()).ok().unwrap();
    let by_glob = build_lib_pool(&parse("import m.*;").imports, vec![src()], &Table::new()).ok().unwrap();
    assert_eq!(by_name.fns.len(), by_glob.fns.len());
    for i in 0..by_glob.fns.len() {
        assert_eq!(by_name.fns.entry(i).0, by_glob.fns.entry(i).0);
    }
}

#[test]
fn callees_come_before_callers() {
    let lib = "fn a() { b(); }\nfn b() { }\n";
    let main = parse("import m.*;\na();");
    let src = LibSource::Loaded { path: "lib/m.ionic".to_string(), text: lib.to_string() };
    let pool = build_lib_pool(&main.imports, vec![src], &Table::new()).ok().unwrap();
    let (fns, structs, globals) = bfs_reachable(&main, pool);
    let names: Vec<String> = fns.iter().map(|f| f.name.clone()).collect();
    assert_eq!(names, vec!["b".to_string(), "a".to_string()]);
    assert!(structs.is_empty() && globals.is_empty());
}

#[test]
fn a_call_cycle_still_keeps_each_definition_once() {
    let lib = "fn p() { q(); }\nfn q() { p(); }\nfn r() { p(); }\n";
    let main = parse("import m.*;\nr();");
    let src = LibSource::Loaded { path: "lib/m.ionic".to_string(), text: lib.to_string() };
    let pool = build_lib_pool(&main.imports, vec![src], &Table::new()).ok().unwrap();
    let (fns, _, _) = bfs_reachable(&main, pool);
    let names: Vec<String> = fns.iter().map(|f| f.name.clone()).collect();
    let mut sorted = names.clone();
    sorted.sort();
    assert_eq!(sorted, vec!["p".to_string(), "q".to_string(), "r".to_string()]);
    let at = |n: &str| names.iter().position(|x| x == n).unwrap();
    assert!(at("p") < at("r"));
}

#[test]
fn each_runtime_helper_is_defined_once() {
    let ir = compile_ir(&parse("let a = [1, 2];\na.push(3);\nprint(len(a));"), Vec::new()).unwrap();
    for name in [
        "@ionic_array_new(",
        "@ionic_array_len(",
        "@ionic_array_get(",
        "@ionic_array_set(",
        "@ionic_array_push(",
        "@ionic_str_concat(",
        "@ionic_int64_to_str(",
        "@ionic_float64_to_str(",
        "@ionic_char_to_str(",
        "@ionic_file_read(",
    ] {
        let defs = ir.lines().filter(|l| l.starts_with("define ") && l.contains(name)).count();
        assert_eq!(defs, 1, "{}", name);
    }
    for c in ["@fmt_lld =", "@fmt_lf =", "@mode_r =", "@mode_w ="] {
        assert_eq!(ir.matches(c).count(), 1, "{}", c);
    }
}

#[test]
fn the_entry_header_is_written_once() {
    let ir = compile_ir(&parse("fn f() -> int64 { return 1; }\nprint(f());"), Vec::new()).unwrap();
    assert_eq!(ir.matches("define i32 @main(i32 %_argc, ptr %_argv)").count(), 1);
    assert!(!ir.contains("@ionic_user_main"));
    assert!(ir.trim_end().ends_with("}") || ir.contains("  ret i32 0\n}\n"));
}

#[test]
fn preparing_keeps_every_code_token() {
    let src = "/// doc\nfn f(\n/// x\nint64 a) -> float64 { return 2.50; }\n/// tail";
    let toks = Lexer::new(src).tokenize().unwrap();
    let code = |ts: &[lib::lexer::SpannedToken]| -> Vec<String> {
        ts.iter()
            .filter(|t| !matches!(t.node, lib::lexer::Token::DocComment(_)))
            .map(|t| format!("{:?}@{}:{}", t.node, t.line, t.col))
            .collect()
    };
    let mut shown: Table<String> = Table::new();
    shown.insert("2.50".to_string(), "2.5".to_string());
    let before: Vec<String> = code(&toks).into_iter().map(|s| s.replace("\"2.50\"", "\"2.5\"")).collect();
    let prepared = lib::parser::prepare_tokens(toks, &shown);
    assert_eq!(code(&prepared), before);
    let docs = prepared.iter().filter(|t| matches!(t.node, lib::lexer::Token::DocComment(_))).count();
    assert_eq!(docs, 2);
}
