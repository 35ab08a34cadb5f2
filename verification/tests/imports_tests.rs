use lib::ast::{Program, Stmt};
use lib::driver::parse_tokens;
use lib::imports::{bfs_reachable, build_lib_pool, program_refs, LibPool, LibSource};
use lib::lexer::Lexer;
use lib::table::Table;

fn parse(src: &str) -> Program {
    let mut lx = Lexer::new(src);
    let toks = lx.tokenize().unwrap();
    parse_tokens(toks, &Table::new()).unwrap().unwrap()
}

const MATH: &str = "fn sq(float64 x) -> float64 { return x * x; }\n\
fn cube(float64 x) -> float64 { return x * sq(x); }\n\
fn unused() -> int64 { return 0; }\n\
struct Pair { a: int64, b: int64 }\n\
let PI = 3.14;\n\
let TAU = PI * 2.0;\n";

fn loaded(text: &str) -> LibSource {
    LibSource::Loaded { path: "lib/std/math.ionic".to_string(), text: text.to_string() }
}

fn pool_for(main: &Program) -> LibPool {
    build_lib_pool(&main.imports, vec![loaded(MATH)], &Table::new()).ok().unwrap()
}

fn fn_names(fns: &[lib::ast::FnDef]) -> Vec<String> {
    fns.iter().map(|f| f.name.clone()).collect()
}

fn global_names(gs: &[Stmt]) -> Vec<String> {
    gs.iter()
        .map(|s| match s {
            Stmt::Let { name, .. } => name.clone(),
            other => panic!("unexpected {:?}", other),
        })
        .collect()
}

#[test]
fn missing_module_is_reported() {
    let main = parse("import std.math.*;");
    let r = build_lib_pool(&main.imports, vec![LibSource::Missing], &Table::new());
    assert_eq!(r.err().unwrap(), "Cannot find library module `std.math` \u{2014} searched ./lib/std/math.ionic");
}

#[test]
fn unreadable_module_is_reported() {
    let main = parse("import std.io;");
    let src = LibSource::Unreadable { path: "lib/std/io.ionic".to_string(), reason: "denied".to_string() };
    let r = build_lib_pool(&main.imports, vec![src], &Table::new());
    assert_eq!(r.err().unwrap(), "Cannot read lib/std/io.ionic: denied");
}

#[test]
fn lex_errors_in_a_module_are_reported() {
    let main = parse("import std.math.*;");
    let r = build_lib_pool(&main.imports, vec![loaded("$")], &Table::new());
    assert_eq!(r.err().unwrap(), "Lex error in lib/std/math.ionic: Unexpected character '$' at line 1, col 1");
}

#[test]
fn parse_errors_in_a_module_are_reported() {
    let main = parse("import std.math.*;");
    let r = build_lib_pool(&main.imports, vec![loaded("let = 1;")], &Table::new());
    assert_eq!(r.err().unwrap(), "Parse error in lib/std/math.ionic: Line 1: expected identifier, got `=`");
}

#[test]
fn the_first_failing_import_is_the_error() {
    let main = parse("import std.math.*;\nimport std.io;");
    let r = build_lib_pool(&main.imports, vec![loaded(MATH), LibSource::Missing], &Table::new());
    assert_eq!(r.err().unwrap(), "Cannot find library module `std.io` \u{2014} searched ./lib/std/io.ionic");
}

#[test]
fn glob_import_admits_everything() {
    let main = parse("import std.math.*;");
    let pool = pool_for(&main);
    assert_eq!(pool.fns.len(), 3);
    assert_eq!(pool.structs.len(), 1);
    assert_eq!(pool.globals.len(), 2);
    assert!(pool.has(&"cube".to_string()));
    assert!(pool.has(&"Pair".to_string()));
    assert!(pool.has(&"TAU".to_string()));
    assert!(!pool.has(&"main".to_string()));
}

#[test]
fn named_import_admits_only_its_names() {
    let main = parse("import std.math.{cube, PI};");
    let pool = pool_for(&main);
    assert_eq!(pool.fns.len(), 1);
    assert!(pool.fns.contains(&"cube".to_string()));
    assert!(!pool.fns.contains(&"sq".to_string()));
    assert_eq!(pool.structs.len(), 0);
    assert_eq!(pool.globals.len(), 1);
}

#[test]
fn calls_pull_in_their_callees_and_nothing_else() {
    let main = parse("import std.math.*;\nlet v = cube(2.0);");
    let pool = pool_for(&main);
    let (fns, structs, globals) = bfs_reachable(&main, pool);
    assert_eq!(fn_names(&fns), vec!["sq".to_string(), "cube".to_string()]);
    assert!(structs.is_empty());
    assert!(globals.is_empty());
}

#[test]
fn globals_pull_in_the_globals_they_use() {
    let main = parse("import std.math.*;\nprint(TAU);");
    let pool = pool_for(&main);
    let (fns, _structs, globals) = bfs_reachable(&main, pool);
    assert!(fns.is_empty());
    assert_eq!(global_names(&globals), vec!["PI".to_string(), "TAU".to_string()]);
}

#[test]
fn types_named_by_the_program_pull_in_structs() {
    let main = parse("import std.math.*;\nfn f(Pair p) -> int64 { return 0; }");
    let pool = pool_for(&main);
    let (fns, structs, _globals) = bfs_reachable(&main, pool);
    assert!(fns.is_empty());
    assert_eq!(structs.len(), 1);
    assert_eq!(structs[0].name, "Pair");
}

#[test]
fn a_program_naming_nothing_needs_nothing() {
    let main = parse("import std.math.*;\nlet z = 1;");
    let pool = pool_for(&main);
    let (fns, structs, globals) = bfs_reachable(&main, pool);
    assert!(fns.is_empty() && structs.is_empty() && globals.is_empty());
}

#[test]
fn program_refs_collects_every_named_symbol() {
    let main = parse("fn f(Pair p) -> int64 { return g(x); }\nlet y = Point { a: h() };");
    let mut names = program_refs(&main);
    names.sort();
    names.dedup();
    assert_eq!(
        names,
        vec!["Pair", "Point", "g", "h", "x"].into_iter().map(|s| s.to_string()).collect::<Vec<_>>()
    );
}
