//! The compiler's decisions around the phases: reading the command line,
//! placing the needed library definitions before the program's own, checking
//! that a program fits the analyzer and the generator, and the arguments of
//! the native compile and link steps.
use vstd::prelude::*;
use crate::ast::{FnDef, StructDef, Stmt, Program, names_view, program_view};
use crate::lexer::{SpannedToken, stoks, lex, start, lemma_lex_ends_with_eof};
use crate::parser::{Parser, valid_toks, program_s, empty_program, prepared, prepare_tokens, lemma_prepared_valid};
use crate::table::Table;
use crate::semantic::{SemanticAnalyzer, stmt_nest, block_nest, nesting_fits, analyze_program, initial_env, msgs_view};
use crate::codegen::fits_as;
use crate::text::{copy_string, owned, text_is};

verus! {

// ── The command line ────────────────────────────────────────────────────────

/// What the command line asks for besides the source file.
pub struct Flags {
    pub dump_tokens: bool,
    pub dump_ast: bool,
    pub emit_ir: bool,
    pub run: bool,
    pub output: Option<String>,
}

pub struct FlagsV {
    pub dump_tokens: bool,
    pub dump_ast: bool,
    pub emit_ir: bool,
    pub run: bool,
    pub output: Option<Seq<char>>,
}

pub open spec fn flags_view(f: &Flags) -> FlagsV {
    FlagsV {
        dump_tokens: f.dump_tokens,
        dump_ast: f.dump_ast,
        emit_ir: f.emit_ir,
        run: f.run,
        output: match &f.output {
            Some(o) => Some(o@),
            None => None,
        },
    }
}

pub open spec fn no_flags() -> FlagsV {
    FlagsV { dump_tokens: false, dump_ast: false, emit_ir: false, run: false, output: None }
}

/// The flags from position `i` on: each known flag sets its field, `-o` takes
/// the next argument as the output name (none when it is last), and the first
/// unknown argument is the error.
pub open spec fn flags_from(args: Seq<Seq<char>>, i: nat, f: FlagsV) -> Result<FlagsV, Seq<char>>
    decreases args.len() + 2 - i,
{
    if i >= args.len() {
        Ok(f)
    } else {
        let a = args[i as int];
        if a == "--dump-tokens"@ {
            flags_from(args, i + 1, FlagsV { dump_tokens: true, ..f })
        } else if a == "--dump-ast"@ {
            flags_from(args, i + 1, FlagsV { dump_ast: true, ..f })
        } else if a == "--emit-ir"@ {
            flags_from(args, i + 1, FlagsV { emit_ir: true, ..f })
        } else if a == "--run"@ {
            flags_from(args, i + 1, FlagsV { run: true, ..f })
        } else if a == "-o"@ {
            flags_from(
                args,
                i + 2,
                FlagsV {
                    output: if i + 1 < args.len() {
                        Some(args[i + 1int])
                    } else {
                        None
                    },
                    ..f
                },
            )
        } else {
            Err(a)
        }
    }
}

/// What the command line asks for.
pub enum ArgsOutcome {
    /// Fewer than two arguments: show how to use the compiler.
    Usage,
    /// An argument that is no flag.
    UnknownFlag(String),
    /// Compile the source file with the flags.
    Compile { source: String, flags: Flags },
}

/// Reads the command line (the program's name first, then the source file,
/// then flags).
pub fn parse_args(args: &Vec<String>) -> (r: ArgsOutcome)
    ensures
        match r {
            ArgsOutcome::Usage => args@.len() < 2,
            ArgsOutcome::UnknownFlag(a) => args@.len() >= 2 && flags_from(names_view(args@), 2, no_flags())
                == Err::<FlagsV, Seq<char>>(a@),
            ArgsOutcome::Compile { source, flags } => args@.len() >= 2 && source@ == args@[1]@ && flags_from(
                names_view(args@),
                2,
                no_flags(),
            ) == Ok::<FlagsV, Seq<char>>(flags_view(&flags)),
        },
{
    if args.len() < 2 {
        return ArgsOutcome::Usage;
    }
    let ghost av = names_view(args@);
    let source = copy_string(&args[1]);
    let mut flags = Flags { dump_tokens: false, dump_ast: false, emit_ir: false, run: false, output: None };
    let mut i: usize = 2;
    while i < args.len()
        invariant
            2 <= i <= args@.len(),
            av == names_view(args@),
            flags_from(av, 2, no_flags()) == flags_from(av, i as nat, flags_view(&flags)),
        decreases args.len() - i,
    {
        let a = &args[i];
        let ghost i0 = i as nat;
        let ghost f0 = flags_view(&flags);
        assert(av[i0 as int] == a@);
        if text_is(a, "--dump-tokens") {
            flags.dump_tokens = true;
            i = i + 1;
        } else if text_is(a, "--dump-ast") {
            flags.dump_ast = true;
            i = i + 1;
        } else if text_is(a, "--emit-ir") {
            flags.emit_ir = true;
            i = i + 1;
        } else if text_is(a, "--run") {
            flags.run = true;
            i = i + 1;
        } else if text_is(a, "-o") {
            if i + 1 < args.len() {
                flags.output = Some(copy_string(&args[i + 1]));
                i = i + 2;
            } else {
                flags.output = None;
                i = args.len();
                assert(flags_from(av, i0 + 2, flags_view(&flags)) == Ok::<FlagsV, Seq<char>>(flags_view(&flags)));
            }
        } else {
            return ArgsOutcome::UnknownFlag(copy_string(a));
        }
        assert(flags_from(av, i0, f0) == flags_from(av, i as nat, flags_view(&flags)));
    }
    ArgsOutcome::Compile { source, flags }
}

// ── Between the phases ──────────────────────────────────────────────────────

/// Lexing succeeds only with a stream that the parser can take: it ends with
/// `EOF`.
pub proof fn law_lexed_tokens_parse(src: Seq<char>, shown: Map<Seq<char>, Seq<char>>)
    ensures
        lex(src) matches Ok(ts) ==> valid_toks(ts) && valid_toks(prepared(ts, shown)),
{
    lemma_lex_ends_with_eof(src, start());
    match lex(src) {
        Ok(ts) => lemma_prepared_valid(ts, shown),
        Err(_) => {},
    }
}

/// Parses a token stream that ends with `EOF`, as `Lexer::tokenize` gives it,
/// once prepared (`prepare_tokens`): documentation lines that are comments
/// dropped, fractional literals written as `shown` renders their values.
/// `None` for a stream that does not end with `EOF`.
pub fn parse_tokens(tokens: Vec<SpannedToken>, shown: &Table<String>) -> (r: Option<Result<Program, String>>)
    ensures
        r is Some <==> valid_toks(prepared(stoks(tokens@), shown.view_map())),
        r matches Some(res) ==> match (res, program_s(prepared(stoks(tokens@), shown.view_map()), 0, empty_program())) {
            (Ok(v), Ok(sv)) => program_view(&v) == sv,
            (Err(e), Err(m)) => e@ == m,
            _ => false,
        },
{
    let ts = prepare_tokens(tokens, shown);
    let n = ts.len();
    if n == 0 || !ts[n - 1].node.is_eof() {
        return None;
    }
    let mut parser = Parser::new(ts);
    Some(parser.parse())
}

/// The program with the library definitions it needs placed before its own:
/// functions, structs and top-level statements each go first.
pub fn merge_library(program: Program, lib: (Vec<FnDef>, Vec<StructDef>, Vec<Stmt>)) -> (r: Program)
    ensures
        r.imports@ == program.imports@,
        r.fns@ == lib.0@ + program.fns@,
        r.structs@ == lib.1@ + program.structs@,
        r.top_level@ == lib.2@ + program.top_level@,
{
    let Program { imports, structs, fns, top_level } = program;
    let (lib_fns, lib_structs, lib_top) = lib;
    let mut fns = fns;
    let mut structs = structs;
    let mut top_level = top_level;
    let mut merged_fns = lib_fns;
    merged_fns.append(&mut fns);
    let mut merged_structs = lib_structs;
    merged_structs.append(&mut structs);
    let mut merged_top = lib_top;
    merged_top.append(&mut top_level);
    Program { imports, structs: merged_structs, fns: merged_fns, top_level: merged_top }
}

fn max_of(a: Option<usize>, b: Option<usize>, Ghost(x): Ghost<nat>, Ghost(y): Ghost<nat>) -> (r: Option<usize>)
    requires
        fits_as(a, x),
        fits_as(b, y),
    ensures
        fits_as(r, if x >= y { x } else { y }),
{
    match (a, b) {
        (Some(p), Some(q)) => if p >= q {
            Some(p)
        } else {
            Some(q)
        },
        _ => None,
    }
}

fn one_more(a: Option<usize>, Ghost(x): Ghost<nat>) -> (r: Option<usize>)
    requires
        fits_as(a, x),
    ensures
        fits_as(r, 1 + x),
{
    match a {
        Some(p) => p.checked_add(1),
        None => None,
    }
}

fn stmt_nesting(s: &Stmt) -> (r: Option<usize>)
    ensures
        fits_as(r, stmt_nest(s)),
    decreases s, 0nat,
{
    match s {
        Stmt::If { then_block, else_block, .. } => {
            let a = block_nesting(then_block);
            let ghost y: nat = match else_block {
                Some(eb) => block_nest(eb@),
                None => 0,
            };
            let b = match else_block {
                Some(eb) => block_nesting(eb),
                None => Some(0),
            };
            max_of(a, b, Ghost(block_nest(then_block@)), Ghost(y))
        },
        Stmt::While { body, .. } => one_more(block_nesting(body), Ghost(block_nest(body@))),
        Stmt::For { body, .. } => one_more(block_nesting(body), Ghost(block_nest(body@))),
        Stmt::GpuBlock(body) => block_nesting(body),
        _ => Some(0),
    }
}

fn block_nesting(s: &Vec<Stmt>) -> (r: Option<usize>)
    ensures
        fits_as(r, block_nest(s@)),
    decreases s, 1nat,
{
    let mut m: Option<usize> = Some(0);
    let mut i: usize = 0;
    assert(s@.subrange(0, 0) =~= Seq::<Stmt>::empty());
    while i < s.len()
        invariant
            i <= s@.len(),
            fits_as(m, block_nest(s@.subrange(0, i as int))),
        decreases s.len() - i,
    {
        let b = stmt_nesting(&s[i]);
        proof {
            assert(s@.subrange(0, i as int + 1).drop_last() =~= s@.subrange(0, i as int));
        }
        m = max_of(m, b, Ghost(block_nest(s@.subrange(0, i as int))), Ghost(stmt_nest(&s@[i as int])));
        i = i + 1;
    }
    assert(s@.subrange(0, s@.len() as int) =~= s@);
    m
}

/// Whether the analyzer can take the program: its loop nesting fits the
/// analyzer's loop counter.
pub fn can_analyze(program: &Program) -> (r: bool)
    ensures
        r == nesting_fits(program, 0),
{
    let top = block_nesting(&program.top_level);
    let mut ok = top.is_some();
    let mut i: usize = 0;
    while i < program.fns.len()
        invariant
            i <= program.fns@.len(),
            ok == (fits_as(top, block_nest(program.top_level@)) && top is Some && forall|j: int|
                0 <= j < i ==> block_nest(#[trigger] program.fns@[j].body@) <= usize::MAX),
            fits_as(top, block_nest(program.top_level@)),
        decreases program.fns.len() - i,
    {
        let b = block_nesting(&program.fns[i].body);
        ok = ok && b.is_some();
        i = i + 1;
    }
    ok
}

/// The type errors of a program, in order, found by a fresh analyzer; `None`
/// where the program's loop nesting does not fit the analyzer (see
/// `can_analyze`).
pub fn check_program(program: &Program) -> (r: Option<Vec<String>>)
    ensures
        r is Some <==> nesting_fits(program, 0),
        r matches Some(errs) ==> msgs_view(errs@) == analyze_program(initial_env(), program).1,
{
    if !can_analyze(program) {
        return None;
    }
    let mut sem = SemanticAnalyzer::new();
    let errs = sem.analyze(program);
    assert(msgs_view(errs@) =~= analyze_program(initial_env(), program).1);
    Some(errs)
}

// ── The native compile and link steps ──────────────────────────────────────

/// Where the IR goes and what the binary is called, for a source file whose
/// stem is `stem`: the IR under `/tmp`, the binary under the `-o` name if
/// there is one, else under the stem.
pub fn output_paths(stem: &String, output: &Option<String>) -> (r: (String, String))
    ensures
        r.0@ == "/tmp/"@ + stem@ + ".ll"@,
        r.1@ == match output {
            Some(o) => o@,
            None => stem@,
        },
{
    let mut ir = owned("/tmp/");
    ir.append(stem.as_str());
    ir.append(".ll");
    let bin = match output {
        Some(o) => copy_string(o),
        None => copy_string(stem),
    };
    (ir, bin)
}

fn prefixed(p: &str, s: &String) -> (r: String)
    ensures
        r@ == p@ + s@,
{
    let mut r = owned(p);
    r.append(s.as_str());
    r
}

fn push_arg(v: &mut Vec<String>, s: String)
    ensures
        names_view(final(v)@) == names_view(old(v)@).push(s@),
{
    let ghost s0 = s@;
    v.push(s);
    assert(names_view(v@) =~= names_view(old(v)@).push(s0));
}

/// Both directories of a native back end were found.
pub open spec fn found(inc: Option<Seq<char>>, lib: Option<Seq<char>>) -> bool {
    inc is Some && lib is Some
}

pub open spec fn opt_view(o: &Option<String>) -> Option<Seq<char>> {
    match o {
        Some(s) => Some(s@),
        None => None,
    }
}

/// Arguments that compile the model runtime `rc` into the object `obj`,
/// defining each back end whose include and library directories were both
/// found and adding its include directory.
pub open spec fn runtime_args_spec(
    rc: Seq<char>,
    obj: Seq<char>,
    ort_inc: Option<Seq<char>>,
    ort_lib: Option<Seq<char>>,
    llama_inc: Option<Seq<char>>,
    llama_lib: Option<Seq<char>>,
) -> Seq<Seq<char>> {
    seq!["-c"@, rc, "-o"@, obj] + (if found(ort_inc, ort_lib) {
        seq!["-DIONIC_HAVE_ORT"@, "-I"@ + ort_inc->0]
    } else {
        seq![]
    }) + (if found(llama_inc, llama_lib) {
        seq!["-DIONIC_HAVE_LLAMA"@, "-I"@ + llama_inc->0]
    } else {
        seq![]
    })
}

/// Arguments that link the IR file into the binary: the math library, the
/// compiled runtime object if there is one, and each back end whose include
/// and library directories were both found, with its library directory on the
/// search and run paths.
pub open spec fn link_args_spec(
    ir: Seq<char>,
    out: Seq<char>,
    runtime_obj: Option<Seq<char>>,
    ort_inc: Option<Seq<char>>,
    ort_lib: Option<Seq<char>>,
    llama_inc: Option<Seq<char>>,
    llama_lib: Option<Seq<char>>,
) -> Seq<Seq<char>> {
    seq![ir, "-o"@, out, "-lm"@] + (match runtime_obj {
        Some(o) => seq![o],
        None => seq![],
    }) + (if found(ort_inc, ort_lib) {
        seq!["-L"@ + ort_lib->0, "-lonnxruntime"@, "-Wl,-rpath,"@ + ort_lib->0]
    } else {
        seq![]
    }) + (if found(llama_inc, llama_lib) {
        seq!["-L"@ + llama_lib->0, "-lllama"@, "-Wl,-rpath,"@ + llama_lib->0]
    } else {
        seq![]
    })
}

/// The arguments of the compile step of the model runtime.
pub fn runtime_args(
    rc: &String,
    obj: &str,
    ort_inc: &Option<String>,
    ort_lib: &Option<String>,
    llama_inc: &Option<String>,
    llama_lib: &Option<String>,
) -> (r: Vec<String>)
    ensures
        names_view(r@) == runtime_args_spec(
            rc@,
            obj@,
            opt_view(ort_inc),
            opt_view(ort_lib),
            opt_view(llama_inc),
            opt_view(llama_lib),
        ),
{
    let mut v: Vec<String> = Vec::new();
    assert(names_view(v@) =~= Seq::<Seq<char>>::empty());
    push_arg(&mut v, owned("-c"));
    push_arg(&mut v, copy_string(rc));
    push_arg(&mut v, owned("-o"));
    push_arg(&mut v, owned(obj));
    let ghost base = names_view(v@);
    assert(base =~= seq!["-c"@, rc@, "-o"@, obj@]);
    match (ort_inc, ort_lib) {
        (Some(inc), Some(_)) => {
            push_arg(&mut v, owned("-DIONIC_HAVE_ORT"));
            push_arg(&mut v, prefixed("-I", inc));
            assert(names_view(v@) =~= base + seq!["-DIONIC_HAVE_ORT"@, "-I"@ + inc@]);
        },
        _ => {
            assert(names_view(v@) =~= base + Seq::<Seq<char>>::empty());
        },
    }
    let ghost mid = names_view(v@);
    match (llama_inc, llama_lib) {
        (Some(inc), Some(_)) => {
            push_arg(&mut v, owned("-DIONIC_HAVE_LLAMA"));
            push_arg(&mut v, prefixed("-I", inc));
            assert(names_view(v@) =~= mid + seq!["-DIONIC_HAVE_LLAMA"@, "-I"@ + inc@]);
        },
        _ => {
            assert(names_view(v@) =~= mid + Seq::<Seq<char>>::empty());
        },
    }
    v
}

/// The arguments of the link step.
pub fn link_args(
    ir: &String,
    out: &String,
    runtime_obj: &Option<String>,
    ort_inc: &Option<String>,
    ort_lib: &Option<String>,
    llama_inc: &Option<String>,
    llama_lib: &Option<String>,
) -> (r: Vec<String>)
    ensures
        names_view(r@) == link_args_spec(
            ir@,
            out@,
            opt_view(runtime_obj),
            opt_view(ort_inc),
            opt_view(ort_lib),
            opt_view(llama_inc),
            opt_view(llama_lib),
        ),
{
    let mut v: Vec<String> = Vec::new();
    assert(names_view(v@) =~= Seq::<Seq<char>>::empty());
    push_arg(&mut v, copy_string(ir));
    push_arg(&mut v, owned("-o"));
    push_arg(&mut v, copy_string(out));
    push_arg(&mut v, owned("-lm"));
    let ghost base = names_view(v@);
    assert(base =~= seq![ir@, "-o"@, out@, "-lm"@]);
    match runtime_obj {
        Some(o) => {
            push_arg(&mut v, copy_string(o));
            assert(names_view(v@) =~= base + seq![o@]);
        },
        None => {
            assert(names_view(v@) =~= base + Seq::<Seq<char>>::empty());
        },
    }
    let ghost b1 = names_view(v@);
    match (ort_inc, ort_lib) {
        (Some(_), Some(lib)) => {
            push_arg(&mut v, prefixed("-L", lib));
            push_arg(&mut v, owned("-lonnxruntime"));
            push_arg(&mut v, prefixed("-Wl,-rpath,", lib));
            assert(names_view(v@) =~= b1 + seq!["-L"@ + lib@, "-lonnxruntime"@, "-Wl,-rpath,"@ + lib@]);
        },
        _ => {
            assert(names_view(v@) =~= b1 + Seq::<Seq<char>>::empty());
        },
    }
    let ghost b2 = names_view(v@);
    match (llama_inc, llama_lib) {
        (Some(_), Some(lib)) => {
            push_arg(&mut v, prefixed("-L", lib));
            push_arg(&mut v, owned("-lllama"));
            push_arg(&mut v, prefixed("-Wl,-rpath,", lib));
            assert(names_view(v@) =~= b2 + seq!["-L"@ + lib@, "-lllama"@, "-Wl,-rpath,"@ + lib@]);
        },
        _ => {
            assert(names_view(v@) =~= b2 + Seq::<Seq<char>>::empty());
        },
    }
    v
}

} // verus!
