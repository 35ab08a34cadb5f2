//! Import resolution and selective compilation.
//!
//! The library modules a program imports are parsed into a pool of
//! definitions (functions, structs and top-level variables, each under its
//! name). Then only the definitions the program needs are kept: those it
//! names, and, transitively, those that kept definitions name.
use vstd::prelude::*;
use crate::ast::{
    Expr, Stmt, AssignTarget, TypeAnnotation, FnDef, StructDef, Program, Import, ImportKind, ExprV, StmtV, TargetV,
    TyAnnV, FnV, StructV, ProgramV, ImportKindV, ImportV, expr_view, exprs_view, inits_view, stmt_view, stmts_view,
    ann_view, program_view, import_view, names_view,
};
use crate::table::Table;
use crate::text::{copy_string, same_text, owned};
use crate::lexer::{Lexer, lex, start, lemma_lex_ends_with_eof, stoks};
use crate::parser::{Parser, program_s, empty_program, prepared, prepare_tokens, lemma_prepared_valid};

verus! {

// ── Names a definition refers to ────────────────────────────────────────────

pub open spec fn ty_names(t: TyAnnV) -> Set<Seq<char>>
    decreases t,
{
    match t {
        TyAnnV::Named(n) => set![n],
        TyAnnV::Array(inner) => ty_names(*inner),
        _ => Set::empty(),
    }
}

pub open spec fn expr_names(e: ExprV) -> Set<Seq<char>>
    decreases e, 1nat,
{
    match e {
        ExprV::Ident(n) => set![n],
        ExprV::Call(c, args) => set![c].union(list_names(args)),
        ExprV::MethodCall(o, _, args) => expr_names(*o).union(list_names(args)),
        ExprV::BinOp(_, l, r) => expr_names(*l).union(expr_names(*r)),
        ExprV::UnOp(_, x) => expr_names(*x),
        ExprV::StructLit(n, fs) => set![n].union(init_names(fs)),
        ExprV::FieldAccess(o, _) => expr_names(*o),
        ExprV::Index(o, i) => expr_names(*o).union(expr_names(*i)),
        ExprV::ArrayLit(es) => list_names(es),
        ExprV::ToGpu(x) => expr_names(*x),
        ExprV::ToCpu(x) => expr_names(*x),
        _ => Set::empty(),
    }
}

pub open spec fn list_names(s: Seq<ExprV>) -> Set<Seq<char>>
    decreases s, 0nat,
{
    if s.len() == 0 {
        Set::empty()
    } else {
        list_names(s.drop_last()).union(expr_names(s.last()))
    }
}

pub open spec fn init_names(s: Seq<(Seq<char>, ExprV)>) -> Set<Seq<char>>
    decreases s, 0nat,
{
    if s.len() == 0 {
        Set::empty()
    } else {
        init_names(s.drop_last()).union(expr_names(s.last().1))
    }
}

pub open spec fn target_names(t: TargetV) -> Set<Seq<char>> {
    match t {
        TargetV::Ident(_) => Set::empty(),
        TargetV::Field(o, _) => expr_names(*o),
        TargetV::Index(o, i) => expr_names(*o).union(expr_names(*i)),
    }
}

pub open spec fn stmt_names(s: StmtV) -> Set<Seq<char>>
    decreases s, 1nat,
{
    match s {
        StmtV::Let { init, .. } => expr_names(init),
        StmtV::Assign(t, v) => expr_names(v).union(target_names(t)),
        StmtV::ExprStmt(e) => expr_names(e),
        StmtV::Return(x) => match x {
            Some(e) => expr_names(e),
            None => Set::empty(),
        },
        StmtV::If(c, t, e) => expr_names(c).union(block_names(t)).union(
            match e {
                Some(b) => block_names(b),
                None => Set::empty(),
            },
        ),
        StmtV::While(c, b) => expr_names(c).union(block_names(b)),
        StmtV::For(_, st, en, b) => expr_names(st).union(expr_names(en)).union(block_names(b)),
        StmtV::GpuBlock(b) => block_names(b),
        _ => Set::empty(),
    }
}

pub open spec fn block_names(s: Seq<StmtV>) -> Set<Seq<char>>
    decreases s, 0nat,
{
    if s.len() == 0 {
        Set::empty()
    } else {
        block_names(s.drop_last()).union(stmt_names(s.last()))
    }
}

/// Types named by a sequence of type annotations.
pub open spec fn tys_names(ts: Seq<TyAnnV>) -> Set<Seq<char>>
    decreases ts.len(),
{
    if ts.len() == 0 {
        Set::empty()
    } else {
        tys_names(ts.drop_last()).union(ty_names(ts.last()))
    }
}

/// Names a function refers to: its parameter and return types and its body.
pub open spec fn fn_names(f: FnV) -> Set<Seq<char>> {
    tys_names(Seq::new(f.params.len(), |i: int| f.params[i].ty)).union(ty_names(f.ret_ty)).union(
        block_names(f.body),
    )
}

/// Names a struct refers to: its field types.
pub open spec fn struct_names(s: StructV) -> Set<Seq<char>> {
    tys_names(Seq::new(s.fields.len(), |i: int| s.fields[i].1))
}

/// Names a top-level variable refers to: those of its initial value.
pub open spec fn global_names(s: StmtV) -> Set<Seq<char>> {
    match s {
        StmtV::Let { init, .. } => expr_names(init),
        _ => Set::empty(),
    }
}

pub open spec fn fns_names(fs: Seq<FnV>) -> Set<Seq<char>>
    decreases fs.len(),
{
    if fs.len() == 0 {
        Set::empty()
    } else {
        fns_names(fs.drop_last()).union(fn_names(fs.last()))
    }
}

pub open spec fn structs_names(ss: Seq<StructV>) -> Set<Seq<char>>
    decreases ss.len(),
{
    if ss.len() == 0 {
        Set::empty()
    } else {
        structs_names(ss.drop_last()).union(struct_names(ss.last()))
    }
}

/// Everything a program names: in its functions, its top-level statements and
/// its struct field types.
pub open spec fn program_names(p: ProgramV) -> Set<Seq<char>> {
    fns_names(p.fns).union(block_names(p.top_level)).union(structs_names(p.structs))
}

// ── The pool and reachability ───────────────────────────────────────────────

/// Library definitions by name.
pub struct PoolV {
    pub fns: Map<Seq<char>, FnV>,
    pub structs: Map<Seq<char>, StructV>,
    pub globals: Map<Seq<char>, StmtV>,
}

pub open spec fn in_pool(p: PoolV, n: Seq<char>) -> bool {
    p.fns.contains_key(n) || p.structs.contains_key(n) || p.globals.contains_key(n)
}

/// The names the definitions called `n` refer to.
pub open spec fn uses(p: PoolV, n: Seq<char>) -> Set<Seq<char>> {
    (if p.fns.contains_key(n) {
        fn_names(p.fns[n])
    } else {
        Set::empty()
    }).union(
        if p.structs.contains_key(n) {
            struct_names(p.structs[n])
        } else {
            Set::empty()
        },
    ).union(
        if p.globals.contains_key(n) {
            global_names(p.globals[n])
        } else {
            Set::empty()
        },
    )
}

/// Pool names reached from `seed` in at most `k` steps.
pub open spec fn reach(p: PoolV, seed: Set<Seq<char>>, k: nat) -> Set<Seq<char>>
    decreases k,
{
    if k == 0 {
        seed.filter(|n: Seq<char>| in_pool(p, n))
    } else {
        let prev = reach(p, seed, (k - 1) as nat);
        prev.union(Set::new(|m: Seq<char>| in_pool(p, m) && exists|n: Seq<char>| #[trigger] prev.contains(n) && uses(p, n).contains(m)))
    }
}

/// A pool name the seed names need: named by the seed, or by a needed definition.
pub open spec fn reachable(p: PoolV, seed: Set<Seq<char>>, n: Seq<char>) -> bool {
    exists|k: nat| #[trigger] reach(p, seed, k).contains(n)
}

/// The name a top-level variable is kept under.
pub open spec fn global_key(s: StmtV) -> Option<Seq<char>> {
    match s {
        StmtV::Let { name, .. } => Some(name),
        StmtV::Assign(TargetV::Ident(n), _) => Some(n),
        _ => None,
    }
}

/// Every definition is kept under its own name.
pub open spec fn keyed(p: PoolV) -> bool {
    &&& forall|k: Seq<char>| #[trigger] p.fns.contains_key(k) ==> p.fns[k].name == k
    &&& forall|k: Seq<char>| #[trigger] p.structs.contains_key(k) ==> p.structs[k].name == k
    &&& forall|k: Seq<char>| #[trigger] p.globals.contains_key(k) ==> global_key(p.globals[k]) == Some(k)
}

// ── Loading library modules ─────────────────────────────────────────────────

/// The text a library import can come from: not found, found but unreadable,
/// or read from a file.
pub enum LibSource {
    Missing,
    Unreadable { path: String, reason: String },
    Loaded { path: String, text: String },
}

pub enum LibSourceV {
    Missing,
    Unreadable(Seq<char>, Seq<char>),
    Loaded(Seq<char>, Seq<char>),
}

pub open spec fn source_view(s: &LibSource) -> LibSourceV {
    match s {
        LibSource::Missing => LibSourceV::Missing,
        LibSource::Unreadable { path, reason } => LibSourceV::Unreadable(path@, reason@),
        LibSource::Loaded { path, text } => LibSourceV::Loaded(path@, text@),
    }
}

pub open spec fn sources_view(s: Seq<LibSource>) -> Seq<LibSourceV> {
    Seq::new(s.len(), |i: int| source_view(&s[i]))
}

pub open spec fn imports_view(s: Seq<Import>) -> Seq<ImportV> {
    Seq::new(s.len(), |i: int| import_view(&s[i]))
}

/// The parts joined with a separator between neighbours.
pub open spec fn joined(parts: Seq<Seq<char>>, sep: Seq<char>) -> Seq<char>
    decreases parts.len(),
{
    if parts.len() == 0 {
        seq![]
    } else if parts.len() == 1 {
        parts[0]
    } else {
        joined(parts.drop_last(), sep) + sep + parts.last()
    }
}

/// Whether an import admits the symbol called `n`.
pub open spec fn admits(k: ImportKindV, n: Seq<char>) -> bool {
    match k {
        ImportKindV::Named(ns) => ns.contains(n),
        _ => true,
    }
}

pub open spec fn admit_fns(m: Map<Seq<char>, FnV>, fs: Seq<FnV>, k: ImportKindV) -> Map<Seq<char>, FnV>
    decreases fs.len(),
{
    if fs.len() == 0 {
        m
    } else {
        let m1 = admit_fns(m, fs.drop_last(), k);
        if admits(k, fs.last().name) {
            m1.insert(fs.last().name, fs.last())
        } else {
            m1
        }
    }
}

pub open spec fn admit_structs(m: Map<Seq<char>, StructV>, ss: Seq<StructV>, k: ImportKindV) -> Map<Seq<char>, StructV>
    decreases ss.len(),
{
    if ss.len() == 0 {
        m
    } else {
        let m1 = admit_structs(m, ss.drop_last(), k);
        if admits(k, ss.last().name) {
            m1.insert(ss.last().name, ss.last())
        } else {
            m1
        }
    }
}

pub open spec fn admit_globals(m: Map<Seq<char>, StmtV>, ss: Seq<StmtV>, k: ImportKindV) -> Map<Seq<char>, StmtV>
    decreases ss.len(),
{
    if ss.len() == 0 {
        m
    } else {
        let m1 = admit_globals(m, ss.drop_last(), k);
        match global_key(ss.last()) {
            Some(n) => if admits(k, n) {
                m1.insert(n, ss.last())
            } else {
                m1
            },
            None => m1,
        }
    }
}

/// The pool after admitting what a parsed module offers to one import: its
/// functions, its structs and its top-level variables, each under its name,
/// a later definition replacing an earlier one of the same name.
pub open spec fn admit_program(p: PoolV, m: ProgramV, k: ImportKindV) -> PoolV {
    PoolV {
        fns: admit_fns(p.fns, m.fns, k),
        structs: admit_structs(p.structs, m.structs, k),
        globals: admit_globals(p.globals, m.top_level, k),
    }
}

pub open spec fn empty_pool() -> PoolV {
    PoolV { fns: Map::empty(), structs: Map::empty(), globals: Map::empty() }
}

pub open spec fn msg_missing(path: Seq<Seq<char>>) -> Seq<char> {
    "Cannot find library module `"@ + joined(path, "."@) + "` — searched ./lib/"@ + joined(path, "/"@)
        + ".ionic"@
}

pub open spec fn msg_unreadable(path: Seq<char>, reason: Seq<char>) -> Seq<char> {
    "Cannot read "@ + path + ": "@ + reason
}

pub open spec fn msg_lex(path: Seq<char>, e: Seq<char>) -> Seq<char> {
    "Lex error in "@ + path + ": "@ + e
}

pub open spec fn msg_parse(path: Seq<char>, e: Seq<char>) -> Seq<char> {
    "Parse error in "@ + path + ": "@ + e
}

/// Loading one imported module into the pool: it must have been found and
/// read, and it must lex and parse (its tokens prepared as for the program,
/// with the renderings `shown`).
pub open spec fn load_module(p: PoolV, imp: ImportV, src: LibSourceV, shown: Map<Seq<char>, Seq<char>>) -> Result<PoolV, Seq<char>> {
    match src {
        LibSourceV::Missing => Err(msg_missing(imp.path)),
        LibSourceV::Unreadable(path, reason) => Err(msg_unreadable(path, reason)),
        LibSourceV::Loaded(path, text) => match lex(text) {
            Err(e) => Err(msg_lex(path, e)),
            Ok(ts) => match program_s(prepared(ts, shown), 0, empty_program()) {
                Err(e) => Err(msg_parse(path, e)),
                Ok(m) => Ok(admit_program(p, m, imp.kind)),
            },
        },
    }
}

/// Loading the imported modules in order; the first failure is the result.
pub open spec fn load_all(p: PoolV, imps: Seq<ImportV>, srcs: Seq<LibSourceV>, shown: Map<Seq<char>, Seq<char>>) -> Result<PoolV, Seq<char>>
    decreases imps.len(),
{
    if imps.len() == 0 {
        Ok(p)
    } else {
        match load_all(p, imps.drop_last(), srcs.drop_last(), shown) {
            Err(e) => Err(e),
            Ok(q) => load_module(q, imps.last(), srcs[imps.len() - 1], shown),
        }
    }
}

/// Every needed pool name that `n` uses, `n` itself aside, is in `done`.
pub open spec fn ready(p: PoolV, keep: Set<Seq<char>>, done: Set<Seq<char>>, n: Seq<char>) -> bool {
    forall|m: Seq<char>| #[trigger] uses(p, n).contains(m) && keep.contains(m) && m != n ==> done.contains(m)
}

/// No needed name outside `done` is ready: what is left uses itself in a cycle.
pub open spec fn stuck(p: PoolV, keep: Set<Seq<char>>, done: Set<Seq<char>>) -> bool {
    forall|n: Seq<char>| keep.contains(n) && !done.contains(n) ==> !#[trigger] ready(p, keep, done, n)
}

/// `s` lists the needed names once each, dependencies first: every name comes
/// after the needed names it uses, except where nothing left was ready (the
/// names left use each other in a cycle), and then the next name is one of
/// those left.
pub open spec fn dependency_first(p: PoolV, keep: Set<Seq<char>>, s: Seq<Seq<char>>) -> bool {
    &&& s.no_duplicates()
    &&& s.to_set() == keep
    &&& forall|i: int|
        0 <= i < s.len() ==> ready(p, keep, s.take(i).to_set(), #[trigger] s[i]) || stuck(
            p,
            keep,
            s.take(i).to_set(),
        )
}

/// The names of `s` that `m` holds, in the order of `s`.
pub open spec fn picked<V>(s: Seq<Seq<char>>, m: Map<Seq<char>, V>) -> Seq<Seq<char>>
    decreases s.len(),
{
    if s.len() == 0 {
        seq![]
    } else if m.contains_key(s.last()) {
        picked(s.drop_last(), m).push(s.last())
    } else {
        picked(s.drop_last(), m)
    }
}

/// The values `m` holds under the names of `s`, in the order of `s`.
pub open spec fn pick<V>(s: Seq<Seq<char>>, m: Map<Seq<char>, V>) -> Seq<V> {
    Seq::new(picked(s, m).len(), |i: int| m[picked(s, m)[i]])
}

/// The pool names a set of seed names needs.
pub open spec fn needed(p: PoolV, seed: Set<Seq<char>>) -> Set<Seq<char>> {
    Set::new(|n: Seq<char>| reachable(p, seed, n))
}

// ── Collecting the names a definition refers to ─────────────────────────────

/// The names held in a list of strings.
pub open spec fn names_set(v: Seq<String>) -> Set<Seq<char>> {
    Set::new(|n: Seq<char>| exists|i: int| 0 <= i < v.len() && #[trigger] v[i]@ == n)
}

proof fn lemma_names_push(v: Seq<String>, s: String)
    ensures
        names_set(v.push(s)) == names_set(v).insert(s@),
{
    let w = v.push(s);
    assert forall|n: Seq<char>| names_set(w).contains(n) == names_set(v).insert(s@).contains(n) by {
        if names_set(w).contains(n) {
            let i = choose|i: int| 0 <= i < w.len() && #[trigger] w[i]@ == n;
            if i < v.len() {
                assert(v[i]@ == n);
            }
        }
        if names_set(v).contains(n) {
            let i = choose|i: int| 0 <= i < v.len() && #[trigger] v[i]@ == n;
            assert(w[i]@ == n);
        }
        if n == s@ {
            assert(w[v.len() as int]@ == n);
        }
    }
    assert(names_set(w) =~= names_set(v).insert(s@));
}

fn add_name(out: &mut Vec<String>, n: &String)
    ensures
        names_set(final(out)@) == names_set(old(out)@).insert(n@),
{
    let c = copy_string(n);
    proof {
        lemma_names_push(out@, c);
    }
    out.push(c);
}

/// Whether a list holds a name.
fn has_name(v: &Vec<String>, n: &String) -> (r: bool)
    ensures
        r == names_set(v@).contains(n@),
{
    let mut i: usize = 0;
    while i < v.len()
        invariant
            i <= v@.len(),
            forall|j: int| 0 <= j < i ==> v@[j]@ != n@,
        decreases v.len() - i,
    {
        if same_text(&v[i], n) {
            assert(v@[i as int]@ == n@);
            return true;
        }
        i = i + 1;
    }
    false
}

fn refs_type(ty: &TypeAnnotation, out: &mut Vec<String>)
    ensures
        names_set(final(out)@) == names_set(old(out)@).union(ty_names(ann_view(ty))),
    decreases ty,
{
    let ghost before = names_set(out@);
    match ty {
        TypeAnnotation::Named(n) => {
            add_name(out, n);
            assert(names_set(out@) =~= before.union(set![n@]));
        },
        TypeAnnotation::Array(inner) => refs_type(inner, out),
        _ => {
            assert(before.union(Set::empty()) =~= before);
        },
    }
}

fn refs_expr(expr: &Expr, out: &mut Vec<String>)
    ensures
        names_set(final(out)@) == names_set(old(out)@).union(expr_names(expr_view(expr))),
    decreases expr, 1nat,
{
    let ghost before = names_set(out@);
    match expr {
        Expr::Ident(name) => {
            add_name(out, name);
            assert(names_set(out@) =~= before.union(set![name@]));
        },
        Expr::Call { callee, args } => {
            add_name(out, callee);
            refs_exprs(args, out);
            assert(names_set(out@) =~= before.union(set![callee@].union(list_names(exprs_view(args@)))));
        },
        Expr::MethodCall { obj, args, .. } => {
            refs_expr(obj, out);
            refs_exprs(args, out);
            assert(names_set(out@) =~= before.union(
                expr_names(expr_view(obj)).union(list_names(exprs_view(args@))),
            ));
        },
        Expr::BinOp { lhs, rhs, .. } => {
            refs_expr(lhs, out);
            refs_expr(rhs, out);
            assert(names_set(out@) =~= before.union(expr_names(expr_view(lhs)).union(expr_names(expr_view(rhs)))));
        },
        Expr::UnOp { expr: x, .. } => refs_expr(x, out),
        Expr::StructLit { name, fields } => {
            add_name(out, name);
            refs_inits(fields, out);
            assert(names_set(out@) =~= before.union(set![name@].union(init_names(inits_view(fields@)))));
        },
        Expr::FieldAccess { obj, .. } => refs_expr(obj, out),
        Expr::Index { obj, idx } => {
            refs_expr(obj, out);
            refs_expr(idx, out);
            assert(names_set(out@) =~= before.union(expr_names(expr_view(obj)).union(expr_names(expr_view(idx)))));
        },
        Expr::ArrayLit(elems) => refs_exprs(elems, out),
        Expr::ToGpu(x) => refs_expr(x, out),
        Expr::ToCpu(x) => refs_expr(x, out),
        _ => {
            assert(before.union(Set::empty()) =~= before);
        },
    }
}

fn refs_exprs(es: &Vec<Expr>, out: &mut Vec<String>)
    ensures
        names_set(final(out)@) == names_set(old(out)@).union(list_names(exprs_view(es@))),
    decreases es, 0nat,
{
    let ghost before = names_set(out@);
    let mut i: usize = 0;
    assert(es@.subrange(0, 0) =~= Seq::<Expr>::empty());
    assert(before.union(list_names(exprs_view(es@.subrange(0, 0)))) =~= before);
    while i < es.len()
        invariant
            i <= es@.len(),
            names_set(out@) == before.union(list_names(exprs_view(es@.subrange(0, i as int)))),
        decreases es.len() - i,
    {
        refs_expr(&es[i], out);
        proof {
            let s1 = es@.subrange(0, i as int + 1);
            assert(s1.drop_last() =~= es@.subrange(0, i as int));
            let v1 = exprs_view(s1);
            assert(v1.drop_last() =~= exprs_view(es@.subrange(0, i as int)));
            assert(v1.last() == expr_view(&es@[i as int]));
            assert(names_set(out@) =~= before.union(list_names(v1)));
        }
        i = i + 1;
    }
    assert(es@.subrange(0, es@.len() as int) =~= es@);
}

fn refs_inits(fs: &Vec<(String, Expr)>, out: &mut Vec<String>)
    ensures
        names_set(final(out)@) == names_set(old(out)@).union(init_names(inits_view(fs@))),
    decreases fs, 0nat,
{
    let ghost before = names_set(out@);
    let mut i: usize = 0;
    assert(fs@.subrange(0, 0) =~= Seq::<(String, Expr)>::empty());
    assert(before.union(init_names(inits_view(fs@.subrange(0, 0)))) =~= before);
    while i < fs.len()
        invariant
            i <= fs@.len(),
            names_set(out@) == before.union(init_names(inits_view(fs@.subrange(0, i as int)))),
        decreases fs.len() - i,
    {
        refs_expr(&fs[i].1, out);
        proof {
            let s1 = fs@.subrange(0, i as int + 1);
            assert(s1.drop_last() =~= fs@.subrange(0, i as int));
            let v1 = inits_view(s1);
            assert(v1.drop_last() =~= inits_view(fs@.subrange(0, i as int)));
            assert(v1.last().1 == expr_view(&fs@[i as int].1));
            assert(names_set(out@) =~= before.union(init_names(v1)));
        }
        i = i + 1;
    }
    assert(fs@.subrange(0, fs@.len() as int) =~= fs@);
}

fn refs_stmt(stmt: &Stmt, out: &mut Vec<String>)
    ensures
        names_set(final(out)@) == names_set(old(out)@).union(stmt_names(stmt_view(stmt))),
    decreases stmt, 1nat,
{
    let ghost before = names_set(out@);
    match stmt {
        Stmt::Let { init, .. } => refs_expr(init, out),
        Stmt::Assign { target, value } => {
            refs_expr(value, out);
            match target {
                AssignTarget::Field(e, _) => refs_expr(e, out),
                AssignTarget::Index(o, i) => {
                    refs_expr(o, out);
                    refs_expr(i, out);
                },
                AssignTarget::Ident(_) => {},
            }
            assert(names_set(out@) =~= before.union(stmt_names(stmt_view(stmt))));
        },
        Stmt::ExprStmt(e) => refs_expr(e, out),
        Stmt::Return(r) => match r {
            Some(e) => refs_expr(e, out),
            None => {
                assert(before.union(Set::empty()) =~= before);
            },
        },
        Stmt::If { cond, then_block, else_block } => {
            refs_expr(cond, out);
            refs_block(then_block, out);
            match else_block {
                Some(b) => refs_block(b, out),
                None => {},
            }
            assert(names_set(out@) =~= before.union(stmt_names(stmt_view(stmt))));
        },
        Stmt::While { cond, body } => {
            refs_expr(cond, out);
            refs_block(body, out);
            assert(names_set(out@) =~= before.union(stmt_names(stmt_view(stmt))));
        },
        Stmt::For { start, end, body, .. } => {
            refs_expr(start, out);
            refs_expr(end, out);
            refs_block(body, out);
            assert(names_set(out@) =~= before.union(stmt_names(stmt_view(stmt))));
        },
        Stmt::GpuBlock(body) => refs_block(body, out),
        _ => {
            assert(before.union(Set::empty()) =~= before);
        },
    }
}

fn refs_block(b: &Vec<Stmt>, out: &mut Vec<String>)
    ensures
        names_set(final(out)@) == names_set(old(out)@).union(block_names(stmts_view(b@))),
    decreases b, 0nat,
{
    let ghost before = names_set(out@);
    let mut i: usize = 0;
    assert(b@.subrange(0, 0) =~= Seq::<Stmt>::empty());
    assert(before.union(block_names(stmts_view(b@.subrange(0, 0)))) =~= before);
    while i < b.len()
        invariant
            i <= b@.len(),
            names_set(out@) == before.union(block_names(stmts_view(b@.subrange(0, i as int)))),
        decreases b.len() - i,
    {
        refs_stmt(&b[i], out);
        proof {
            let s1 = b@.subrange(0, i as int + 1);
            assert(s1.drop_last() =~= b@.subrange(0, i as int));
            let v1 = stmts_view(s1);
            assert(v1.drop_last() =~= stmts_view(b@.subrange(0, i as int)));
            assert(v1.last() == stmt_view(&b@[i as int]));
            assert(names_set(out@) =~= before.union(block_names(v1)));
        }
        i = i + 1;
    }
    assert(b@.subrange(0, b@.len() as int) =~= b@);
}

fn refs_fn(fd: &FnDef, out: &mut Vec<String>)
    ensures
        names_set(final(out)@) == names_set(old(out)@).union(fn_names(fd@)),
{
    let ghost before = names_set(out@);
    let ghost tys = Seq::new(fd@.params.len(), |i: int| fd@.params[i].ty);
    let mut i: usize = 0;
    assert(tys.subrange(0, 0) =~= Seq::<TyAnnV>::empty());
    assert(before.union(tys_names(tys.subrange(0, 0))) =~= before);
    while i < fd.params.len()
        invariant
            i <= fd.params@.len(),
            tys.len() == fd.params@.len(),
            tys == Seq::new(fd@.params.len(), |i: int| fd@.params[i].ty),
            names_set(out@) == before.union(tys_names(tys.subrange(0, i as int))),
        decreases fd.params.len() - i,
    {
        refs_type(&fd.params[i].ty, out);
        proof {
            let s1 = tys.subrange(0, i as int + 1);
            assert(s1.drop_last() =~= tys.subrange(0, i as int));
            assert(s1.last() == ann_view(&fd.params@[i as int].ty));
            assert(names_set(out@) =~= before.union(tys_names(s1)));
        }
        i = i + 1;
    }
    assert(tys.subrange(0, tys.len() as int) =~= tys);
    refs_type(&fd.ret_ty, out);
    refs_block(&fd.body, out);
    assert(names_set(out@) =~= before.union(fn_names(fd@)));
}

fn refs_struct(sd: &StructDef, out: &mut Vec<String>)
    ensures
        names_set(final(out)@) == names_set(old(out)@).union(struct_names(sd@)),
{
    let ghost before = names_set(out@);
    let ghost tys = Seq::new(sd@.fields.len(), |i: int| sd@.fields[i].1);
    let mut i: usize = 0;
    assert(tys.subrange(0, 0) =~= Seq::<TyAnnV>::empty());
    assert(before.union(tys_names(tys.subrange(0, 0))) =~= before);
    while i < sd.fields.len()
        invariant
            i <= sd.fields@.len(),
            tys.len() == sd.fields@.len(),
            tys == Seq::new(sd@.fields.len(), |i: int| sd@.fields[i].1),
            names_set(out@) == before.union(tys_names(tys.subrange(0, i as int))),
        decreases sd.fields.len() - i,
    {
        refs_type(&sd.fields[i].ty, out);
        proof {
            let s1 = tys.subrange(0, i as int + 1);
            assert(s1.drop_last() =~= tys.subrange(0, i as int));
            assert(s1.last() == ann_view(&sd.fields@[i as int].ty));
            assert(names_set(out@) =~= before.union(tys_names(s1)));
        }
        i = i + 1;
    }
    assert(tys.subrange(0, tys.len() as int) =~= tys);
    assert(names_set(out@) =~= before.union(struct_names(sd@)));
}

/// Every name the main program refers to: in its functions, its top-level
/// statements and its struct field types.
pub fn program_refs(main: &Program) -> (r: Vec<String>)
    ensures
        names_set(r@) == program_names(program_view(main)),
{
    let mut out: Vec<String> = Vec::new();
    let ghost pv = program_view(main);
    assert(names_set(out@) =~= Set::<Seq<char>>::empty());
    let mut i: usize = 0;
    assert(pv.fns.subrange(0, 0) =~= Seq::<FnV>::empty());
    while i < main.fns.len()
        invariant
            i <= main.fns@.len(),
            pv == program_view(main),
            names_set(out@) == fns_names(pv.fns.subrange(0, i as int)),
        decreases main.fns.len() - i,
    {
        refs_fn(&main.fns[i], &mut out);
        proof {
            let s1 = pv.fns.subrange(0, i as int + 1);
            assert(s1.drop_last() =~= pv.fns.subrange(0, i as int));
            assert(s1.last() == main.fns@[i as int]@);
        }
        i = i + 1;
    }
    assert(pv.fns.subrange(0, pv.fns.len() as int) =~= pv.fns);
    refs_block(&main.top_level, &mut out);
    let ghost mid = names_set(out@);
    let mut j: usize = 0;
    assert(pv.structs.subrange(0, 0) =~= Seq::<StructV>::empty());
    assert(mid.union(structs_names(pv.structs.subrange(0, 0))) =~= mid);
    while j < main.structs.len()
        invariant
            j <= main.structs@.len(),
            pv == program_view(main),
            names_set(out@) == mid.union(structs_names(pv.structs.subrange(0, j as int))),
        decreases main.structs.len() - j,
    {
        refs_struct(&main.structs[j], &mut out);
        proof {
            let s1 = pv.structs.subrange(0, j as int + 1);
            assert(s1.drop_last() =~= pv.structs.subrange(0, j as int));
            assert(s1.last() == main.structs@[j as int]@);
            assert(names_set(out@) =~= mid.union(structs_names(s1)));
        }
        j = j + 1;
    }
    assert(pv.structs.subrange(0, pv.structs.len() as int) =~= pv.structs);
    out
}

// ── The library pool ────────────────────────────────────────────────────────

/// The definitions that the imported library modules offer, each under its name.
pub struct LibPool {
    pub fns: Table<FnDef>,
    pub structs: Table<StructDef>,
    pub globals: Table<Stmt>,
}

impl View for LibPool {
    type V = PoolV;

    open spec fn view(&self) -> PoolV {
        PoolV { fns: self.fns.view_map(), structs: self.structs.view_map(), globals: self.globals.view_map() }
    }
}

/// Whether an import admits the symbol called `n`.
fn admits_name(imp: &Import, n: &String) -> (r: bool)
    ensures
        r == admits(import_view(imp).kind, n@),
{
    match &imp.kind {
        ImportKind::Named(ns) => {
            let r = has_name(ns, n);
            proof {
                if names_set(ns@).contains(n@) {
                    let i = choose|i: int| 0 <= i < ns@.len() && #[trigger] ns@[i]@ == n@;
                    assert(names_view(ns@)[i] == n@);
                }
                if names_view(ns@).contains(n@) {
                    let i = choose|i: int| 0 <= i < names_view(ns@).len() && names_view(ns@)[i] == n@;
                    assert(ns@[i]@ == n@);
                }
            }
            r
        },
        _ => true,
    }
}

/// `a`, `b`, `c` and `d`, one after the other.
fn cat4(a: &str, b: &String, c: &str, d: &String) -> (r: String)
    ensures
        r@ == a@ + b@ + c@ + d@,
{
    let mut s = owned(a);
    s.append(b.as_str());
    s.append(c);
    s.append(d.as_str());
    s
}

/// The names joined with `sep` between neighbours.
fn join_names(parts: &Vec<String>, sep: &str) -> (r: String)
    ensures
        r@ == joined(names_view(parts@), sep@),
{
    let mut s = String::new();
    let mut i: usize = 0;
    assert(names_view(parts@.subrange(0, 0)) =~= Seq::<Seq<char>>::empty());
    assert(s@ =~= joined(names_view(parts@.subrange(0, 0)), sep@));
    while i < parts.len()
        invariant
            i <= parts@.len(),
            s@ == joined(names_view(parts@.subrange(0, i as int)), sep@),
        decreases parts.len() - i,
    {
        if i > 0 {
            s.append(sep);
        }
        s.append(parts[i].as_str());
        proof {
            let v1 = names_view(parts@.subrange(0, i as int + 1));
            assert(v1.drop_last() =~= names_view(parts@.subrange(0, i as int)));
            assert(v1.last() == parts@[i as int]@);
            if i == 0 {
                assert(s@ =~= v1[0]);
            } else {
                assert(s@ =~= joined(v1.drop_last(), sep@) + sep@ + v1.last());
            }
        }
        i = i + 1;
    }
    assert(parts@.subrange(0, parts@.len() as int) =~= parts@);
    s
}

fn missing_message(path: &Vec<String>) -> (r: String)
    ensures
        r@ == msg_missing(names_view(path@)),
{
    let mut s = owned("Cannot find library module `");
    s.append(join_names(path, ".").as_str());
    s.append("` — searched ./lib/");
    s.append(join_names(path, "/").as_str());
    s.append(".ionic");
    s
}

proof fn lemma_load_err_stays(p: PoolV, imps: Seq<ImportV>, srcs: Seq<LibSourceV>, shown: Map<Seq<char>, Seq<char>>, j: int)
    requires
        0 <= j <= imps.len(),
        srcs.len() == imps.len(),
        load_all(p, imps.subrange(0, j), srcs.subrange(0, j), shown) is Err,
    ensures
        load_all(p, imps, srcs, shown) == load_all(p, imps.subrange(0, j), srcs.subrange(0, j), shown),
    decreases imps.len(),
{
    if j == imps.len() {
        assert(imps.subrange(0, j) =~= imps);
        assert(srcs.subrange(0, j) =~= srcs);
    } else {
        assert(imps.drop_last().subrange(0, j) =~= imps.subrange(0, j));
        assert(srcs.drop_last().subrange(0, j) =~= srcs.subrange(0, j));
        lemma_load_err_stays(p, imps.drop_last(), srcs.drop_last(), shown, j);
    }
}

impl LibPool {
    /// An empty pool.
    pub fn new() -> (r: LibPool)
        ensures
            r@ == empty_pool(),
    {
        LibPool { fns: Table::new(), structs: Table::new(), globals: Table::new() }
    }

    /// Whether a definition of any kind is called `n`.
    pub fn has(&self, n: &String) -> (r: bool)
        ensures
            r == in_pool(self@, n@),
    {
        self.fns.contains(n) || self.structs.contains(n) || self.globals.contains(n)
    }

    /// The names the definitions called `n` refer to.
    fn uses_of(&self, n: &String) -> (r: Vec<String>)
        ensures
            names_set(r@) == uses(self@, n@),
    {
        let ghost p = self@;
        let ghost u1 = if p.fns.contains_key(n@) {
            fn_names(p.fns[n@])
        } else {
            Set::empty()
        };
        let ghost u2 = if p.structs.contains_key(n@) {
            struct_names(p.structs[n@])
        } else {
            Set::empty()
        };
        let ghost u3 = if p.globals.contains_key(n@) {
            global_names(p.globals[n@])
        } else {
            Set::empty()
        };
        let mut out: Vec<String> = Vec::new();
        assert(names_set(out@) =~= Set::<Seq<char>>::empty());
        match self.fns.get(n) {
            Some(fd) => {
                refs_fn(fd, &mut out);
                assert(names_set(out@) =~= u1);
            },
            None => {
                assert(names_set(out@) =~= u1);
            },
        }
        match self.structs.get(n) {
            Some(sd) => {
                refs_struct(sd, &mut out);
                assert(names_set(out@) =~= u1.union(u2));
            },
            None => {
                assert(names_set(out@) =~= u1.union(u2));
            },
        }
        match self.globals.get(n) {
            Some(s) => match s {
                Stmt::Let { init, .. } => {
                    refs_expr(init, &mut out);
                    assert(names_set(out@) =~= u1.union(u2).union(u3));
                },
                _ => {
                    assert(names_set(out@) =~= u1.union(u2).union(u3));
                },
            },
            None => {
                assert(names_set(out@) =~= u1.union(u2).union(u3));
            },
        }
        out
    }

    fn admit_fns(&mut self, fns: Vec<FnDef>, imp: &Import)
        ensures
            final(self)@.fns == admit_fns(old(self)@.fns, Seq::new(fns@.len(), |i: int| fns@[i]@), import_view(imp).kind),
            final(self)@.structs == old(self)@.structs,
            final(self)@.globals == old(self)@.globals,
    {
        let ghost all = fns@;
        let ghost k = import_view(imp).kind;
        let ghost m0 = self@.fns;
        let ghost s0 = self@.structs;
        let ghost g0 = self@.globals;
        let ghost fv = Seq::new(all.len(), |i: int| all[i]@);
        let mut rest = fns;
        let ghost mut i: int = 0;
        assert(fv.subrange(0, 0) =~= Seq::<FnV>::empty());
        assert(rest@ =~= all.subrange(0, all.len() as int));
        while rest.len() > 0
            invariant
                0 <= i <= all.len(),
                rest@ == all.subrange(i as int, all.len() as int),
                fv == Seq::new(all.len(), |j: int| all[j]@),
                k == import_view(imp).kind,
                self@.fns == admit_fns(m0, fv.subrange(0, i as int), k),
                self@.structs == s0,
                self@.globals == g0,
            decreases rest.len(),
        {
            let ghost before = rest@;
            let fd = rest.remove(0);
            let ghost fdv = fd@;
            proof {
                assert(fd == all[i as int]);
                assert(rest@ =~= all.subrange(i as int + 1, all.len() as int));
            }
            if admits_name(imp, &fd.name) {
                let key = copy_string(&fd.name);
                self.fns.insert(key, fd);
            }
            proof {
                let s1 = fv.subrange(0, i as int + 1);
                assert(s1.drop_last() =~= fv.subrange(0, i as int));
                assert(s1.last() == fdv);
            }
            proof {
                i = i + 1;
            }
        }
        assert(fv.subrange(0, i as int) =~= fv);
    }

    fn admit_structs(&mut self, structs: Vec<StructDef>, imp: &Import)
        ensures
            final(self)@.structs == admit_structs(
                old(self)@.structs,
                Seq::new(structs@.len(), |i: int| structs@[i]@),
                import_view(imp).kind,
            ),
            final(self)@.fns == old(self)@.fns,
            final(self)@.globals == old(self)@.globals,
    {
        let ghost all = structs@;
        let ghost k = import_view(imp).kind;
        let ghost m0 = self@.structs;
        let ghost f0 = self@.fns;
        let ghost g0 = self@.globals;
        let ghost sv = Seq::new(all.len(), |i: int| all[i]@);
        let mut rest = structs;
        let ghost mut i: int = 0;
        assert(sv.subrange(0, 0) =~= Seq::<StructV>::empty());
        assert(rest@ =~= all.subrange(0, all.len() as int));
        while rest.len() > 0
            invariant
                0 <= i <= all.len(),
                rest@ == all.subrange(i as int, all.len() as int),
                sv == Seq::new(all.len(), |j: int| all[j]@),
                k == import_view(imp).kind,
                self@.structs == admit_structs(m0, sv.subrange(0, i as int), k),
                self@.fns == f0,
                self@.globals == g0,
            decreases rest.len(),
        {
            let sd = rest.remove(0);
            let ghost sdv = sd@;
            proof {
                assert(sd == all[i as int]);
                assert(rest@ =~= all.subrange(i as int + 1, all.len() as int));
            }
            if admits_name(imp, &sd.name) {
                let key = copy_string(&sd.name);
                self.structs.insert(key, sd);
            }
            proof {
                let s1 = sv.subrange(0, i as int + 1);
                assert(s1.drop_last() =~= sv.subrange(0, i as int));
                assert(s1.last() == sdv);
            }
            proof {
                i = i + 1;
            }
        }
        assert(sv.subrange(0, i as int) =~= sv);
    }

    fn admit_globals(&mut self, top: Vec<Stmt>, imp: &Import)
        ensures
            final(self)@.globals == admit_globals(old(self)@.globals, stmts_view(top@), import_view(imp).kind),
            final(self)@.fns == old(self)@.fns,
            final(self)@.structs == old(self)@.structs,
    {
        let ghost all = top@;
        let ghost k = import_view(imp).kind;
        let ghost m0 = self@.globals;
        let ghost f0 = self@.fns;
        let ghost s0 = self@.structs;
        let mut rest = top;
        let ghost mut i: int = 0;
        assert(all.subrange(0, 0) =~= Seq::<Stmt>::empty());
        assert(rest@ =~= all.subrange(0, all.len() as int));
        while rest.len() > 0
            invariant
                0 <= i <= all.len(),
                rest@ == all.subrange(i as int, all.len() as int),
                k == import_view(imp).kind,
                self@.globals == admit_globals(m0, stmts_view(all.subrange(0, i as int)), k),
                self@.fns == f0,
                self@.structs == s0,
            decreases rest.len(),
        {
            let s = rest.remove(0);
            let ghost sv = s@;
            proof {
                assert(s == all[i as int]);
                assert(rest@ =~= all.subrange(i as int + 1, all.len() as int));
                let s1 = all.subrange(0, i as int + 1);
                assert(s1.drop_last() =~= all.subrange(0, i as int));
                assert(stmts_view(s1).drop_last() =~= stmts_view(all.subrange(0, i as int)));
                assert(stmts_view(s1).last() == sv);
            }
            let key: Option<String> = match &s {
                Stmt::Let { name, .. } => Some(copy_string(name)),
                Stmt::Assign { target: AssignTarget::Ident(n), .. } => Some(copy_string(n)),
                _ => None,
            };
            match key {
                Some(n) => {
                    assert(global_key(sv) == Some(n@));
                    if admits_name(imp, &n) {
                        self.globals.insert(n, s);
                    }
                },
                None => {
                    assert(global_key(sv) is None);
                },
            }
            proof {
                i = i + 1;
            }
        }
        assert(all.subrange(0, i as int) =~= all);
    }

    fn admit_program(&mut self, m: Program, imp: &Import)
        ensures
            final(self)@ == admit_program(old(self)@, program_view(&m), import_view(imp).kind),
    {
        let ghost pv = program_view(&m);
        let Program { imports: _, structs, fns, top_level } = m;
        assert(Seq::new(fns@.len(), |i: int| fns@[i]@) =~= pv.fns);
        assert(Seq::new(structs@.len(), |i: int| structs@[i]@) =~= pv.structs);
        self.admit_fns(fns, imp);
        self.admit_structs(structs, imp);
        self.admit_globals(top_level, imp);
    }

    /// Lexes and parses one imported module and admits what the import names.
    fn load_module(&mut self, imp: &Import, src: LibSource, shown: &Table<String>) -> (r: Result<(), String>)
        requires
            src matches LibSource::Loaded { text, .. } ==> text@.len() < usize::MAX,
        ensures
            match (r, load_module(old(self)@, import_view(imp), source_view(&src), shown.view_map())) {
                (Ok(_), Ok(q)) => final(self)@ == q,
                (Err(e), Err(m)) => e@ == m,
                _ => false,
            },
    {
        match src {
            LibSource::Missing => Err(missing_message(&imp.path)),
            LibSource::Unreadable { path, reason } => Err(cat4("Cannot read ", &path, ": ", &reason)),
            LibSource::Loaded { path, text } => {
                let mut lexer = Lexer::new(text.as_str());
                match lexer.tokenize() {
                    Err(e) => Err(cat4("Lex error in ", &path, ": ", &e)),
                    Ok(tokens) => {
                        proof {
                            lemma_lex_ends_with_eof(text@, start());
                            lemma_prepared_valid(stoks(tokens@), shown.view_map());
                        }
                        let mut parser = Parser::new(prepare_tokens(tokens, shown));
                        match parser.parse() {
                            Err(e) => Err(cat4("Parse error in ", &path, ": ", &e)),
                            Ok(m) => {
                                self.admit_program(m, imp);
                                Ok(())
                            },
                        }
                    },
                }
            },
        }
    }
}

/// Builds the pool from the imports of a program and, for each import in the
/// same position, the text of its module (or why there is none). Modules are
/// lexed, parsed and admitted in order; the first failure is the error.
pub fn build_lib_pool(imports: &Vec<Import>, sources: Vec<LibSource>, shown: &Table<String>) -> (r: Result<LibPool, String>)
    requires
        sources@.len() == imports@.len(),
        forall|i: int|
            0 <= i < sources@.len() ==> (#[trigger] sources@[i] matches LibSource::Loaded { text, .. }
                ==> text@.len() < usize::MAX),
    ensures
        match (r, load_all(empty_pool(), imports_view(imports@), sources_view(sources@), shown.view_map())) {
            (Ok(p), Ok(q)) => p@ == q,
            (Err(e), Err(m)) => e@ == m,
            _ => false,
        },
{
    let mut pool = LibPool::new();
    let ghost all = sources@;
    let ghost iv = imports_view(imports@);
    let ghost sv = sources_view(sources@);
    let mut rest = sources;
    let mut i: usize = 0;
    assert(iv.subrange(0, 0) =~= Seq::<ImportV>::empty());
    assert(sv.subrange(0, 0) =~= Seq::<LibSourceV>::empty());
    assert(rest@ =~= all.subrange(0, all.len() as int));
    while i < imports.len()
        invariant
            i <= imports@.len(),
            all.len() == imports@.len(),
            rest@ == all.subrange(i as int, all.len() as int),
            iv == imports_view(imports@),
            sv == sources_view(all),
            all == sources@,
            forall|j: int|
                0 <= j < all.len() ==> (#[trigger] all[j] matches LibSource::Loaded { text, .. }
                    ==> text@.len() < usize::MAX),
            load_all(empty_pool(), iv.subrange(0, i as int), sv.subrange(0, i as int), shown.view_map()) == Ok::<PoolV, Seq<char>>(pool@),
        decreases imports.len() - i,
    {
        let src = rest.remove(0);
        proof {
            assert(src == all[i as int]);
            assert(rest@ =~= all.subrange(i as int + 1, all.len() as int));
            let i1 = iv.subrange(0, i as int + 1);
            let s1 = sv.subrange(0, i as int + 1);
            assert(i1.drop_last() =~= iv.subrange(0, i as int));
            assert(s1.drop_last() =~= sv.subrange(0, i as int));
            assert(i1.last() == import_view(&imports@[i as int]));
            assert(s1[i as int] == source_view(&src));
        }
        let ghost p0 = pool@;
        match pool.load_module(&imports[i], src, shown) {
            Err(e) => {
                proof {
                    assert(load_all(empty_pool(), iv.subrange(0, i as int + 1), sv.subrange(0, i as int + 1), shown.view_map())
                        == Err::<PoolV, Seq<char>>(e@));
                    lemma_load_err_stays(empty_pool(), iv, sv, shown.view_map(), i as int + 1);
                    assert(load_all(empty_pool(), iv, sv, shown.view_map()) == Err::<PoolV, Seq<char>>(e@));
                    assert(sv == sources_view(sources@));
                }
                return Err(e);
            },
            Ok(_) => {},
        }
        i = i + 1;
    }
    assert(iv.subrange(0, i as int) =~= iv);
    assert(sv.subrange(0, i as int) =~= sv);
    Ok(pool)
}

// ── Selecting what the program needs ───────────────────────────────────────

/// No name occurs twice.
pub open spec fn distinct_names(v: Seq<String>) -> bool {
    forall|a: int, b: int| 0 <= a < v.len() && 0 <= b < v.len() && a != b ==> v[a]@ != v[b]@
}

/// The number of definitions in a pool, of all kinds.
pub open spec fn pool_size(pool: &LibPool) -> nat {
    pool.fns.names().len() + pool.structs.names().len() + pool.globals.names().len()
}

/// Distinct pool names are no more than the pool's definitions.
proof fn lemma_pool_bound(pool: &LibPool, v: Seq<String>)
    requires
        distinct_names(v),
        forall|a: int| 0 <= a < v.len() ==> in_pool(pool@, #[trigger] v[a]@),
    ensures
        v.len() <= pool_size(pool),
{
    pool.fns.lemma_names();
    pool.structs.lemma_names();
    pool.globals.lemma_names();
    let nf = pool.fns.names();
    let ns = pool.structs.names();
    let ng = pool.globals.names();
    let all = nf + ns + ng;
    let vs = Seq::new(v.len(), |i: int| v[i]@);
    assert(vs.no_duplicates());
    vs.unique_seq_to_set();
    assert forall|x: Seq<char>| vs.to_set().contains(x) implies all.to_set().contains(x) by {
        let i = choose|i: int| 0 <= i < vs.len() && vs[i] == x;
        assert(in_pool(pool@, v[i]@));
        if nf.contains(x) {
            let j = choose|j: int| 0 <= j < nf.len() && nf[j] == x;
            assert(all[j] == x);
        } else if ns.contains(x) {
            let j = choose|j: int| 0 <= j < ns.len() && ns[j] == x;
            assert(all[nf.len() + j] == x);
        } else {
            let j = choose|j: int| 0 <= j < ng.len() && ng[j] == x;
            assert(all[nf.len() + ns.len() + j] == x);
        }
    }
    all.lemma_cardinality_of_set();
    vstd::seq_lib::seq_to_set_is_finite(all);
    vstd::set_lib::lemma_len_subset(vs.to_set(), all.to_set());
}

/// Appends to `order`, in turn, each pool name among `names` that it lacks.
fn append_new(pool: &LibPool, names: &Vec<String>, order: &mut Vec<String>, Ghost(seed): Ghost<Set<Seq<char>>>)
    requires
        distinct_names(old(order)@),
        forall|a: int|
            0 <= a < old(order)@.len() ==> in_pool(pool@, #[trigger] old(order)@[a]@) && reachable(
                pool@,
                seed,
                old(order)@[a]@,
            ),
        forall|b: int|
            0 <= b < names@.len() && in_pool(pool@, #[trigger] names@[b]@) ==> reachable(pool@, seed, names@[b]@),
    ensures
        distinct_names(final(order)@),
        forall|a: int|
            0 <= a < final(order)@.len() ==> in_pool(pool@, #[trigger] final(order)@[a]@) && reachable(
                pool@,
                seed,
                final(order)@[a]@,
            ),
        final(order)@.len() >= old(order)@.len(),
        forall|a: int| 0 <= a < old(order)@.len() ==> #[trigger] final(order)@[a] == old(order)@[a],
        forall|n: Seq<char>|
            #[trigger] names_set(final(order)@).contains(n) <==> names_set(old(order)@).contains(n) || (
            names_set(names@).contains(n) && in_pool(pool@, n)),
{
    let ghost o0 = order@;
    let mut q: usize = 0;
    while q < names.len()
        invariant
            q <= names@.len(),
            distinct_names(order@),
            forall|a: int|
                0 <= a < order@.len() ==> in_pool(pool@, #[trigger] order@[a]@) && reachable(pool@, seed, order@[a]@),
            forall|b: int|
                0 <= b < names@.len() && in_pool(pool@, #[trigger] names@[b]@) ==> reachable(
                    pool@,
                    seed,
                    names@[b]@,
                ),
            order@.len() >= o0.len(),
            forall|a: int| 0 <= a < o0.len() ==> #[trigger] order@[a] == o0[a],
            forall|n: Seq<char>|
                #[trigger] names_set(order@).contains(n) <==> names_set(o0).contains(n) || (exists|b: int|
                    0 <= b < q && names@[b]@ == n && in_pool(pool@, n)),
        decreases names.len() - q,
    {
        let ghost nq = names@[q as int]@;
        if pool.has(&names[q]) && !has_name(order, &names[q]) {
            let c = copy_string(&names[q]);
            let ghost before = order@;
            proof {
                lemma_names_push(order@, c);
                assert forall|a: int| 0 <= a < before.len() implies before[a]@ != c@ by {
                    if before[a]@ == c@ {
                        assert(names_set(before).contains(c@));
                    }
                }
            }
            order.push(c);
            proof {
                assert(order@[before.len() as int] == c);
                assert forall|n: Seq<char>| #[trigger] names_set(order@).contains(n) <==> names_set(o0).contains(n) || (
                exists|b: int| 0 <= b < q + 1 && names@[b]@ == n && in_pool(pool@, n)) by {
                    if n == nq {
                        assert(names@[q as int]@ == n);
                    }
                    if exists|b: int| 0 <= b < q + 1 && names@[b]@ == n && in_pool(pool@, n) {
                        let b = choose|b: int| 0 <= b < q + 1 && names@[b]@ == n && in_pool(pool@, n);
                        if b < q {
                            assert(names_set(before).contains(n));
                        }
                    }
                }
            }
        } else {
            proof {
                assert forall|n: Seq<char>| #[trigger] names_set(order@).contains(n) <==> names_set(o0).contains(n) || (
                exists|b: int| 0 <= b < q + 1 && names@[b]@ == n && in_pool(pool@, n)) by {
                    if exists|b: int| 0 <= b < q + 1 && names@[b]@ == n && in_pool(pool@, n) {
                        let b = choose|b: int| 0 <= b < q + 1 && names@[b]@ == n && in_pool(pool@, n);
                        if b < q {
                            assert(names_set(order@).contains(n));
                        } else {
                            assert(names@[q as int]@ == n);
                        }
                    }
                }
            }
        }
        q = q + 1;
    }
    proof {
        assert forall|n: Seq<char>| #[trigger] names_set(order@).contains(n) <==> names_set(o0).contains(n) || (
        names_set(names@).contains(n) && in_pool(pool@, n)) by {
            if names_set(names@).contains(n) && in_pool(pool@, n) {
                let b = choose|b: int| 0 <= b < names@.len() && #[trigger] names@[b]@ == n;
                assert(names@[b]@ == n);
            }
        }
    }
}

/// A pool name the seed reaches in `k` steps is reachable.
proof fn lemma_reach_step(p: PoolV, seed: Set<Seq<char>>, n: Seq<char>, m: Seq<char>)
    requires
        reachable(p, seed, n),
        uses(p, n).contains(m),
        in_pool(p, m),
    ensures
        reachable(p, seed, m),
{
    let k = choose|k: nat| #[trigger] reach(p, seed, k).contains(n);
    let k1 = (k + 1) as nat;
    assert(reach(p, seed, (k1 - 1) as nat).contains(n));
    assert(reach(p, seed, k1).contains(m));
}

/// Everything in reach is a pool name.
proof fn lemma_reach_in_pool(p: PoolV, seed: Set<Seq<char>>, k: nat)
    ensures
        forall|n: Seq<char>| #[trigger] reach(p, seed, k).contains(n) ==> in_pool(p, n),
    decreases k,
{
    if k > 0 {
        lemma_reach_in_pool(p, seed, (k - 1) as nat);
        let prev = reach(p, seed, (k - 1) as nat);
        assert forall|n: Seq<char>| #[trigger] reach(p, seed, k).contains(n) implies in_pool(p, n) by {
            if prev.contains(n) {
                assert(in_pool(p, n));
            }
        }
    } else {
        assert forall|n: Seq<char>| #[trigger] reach(p, seed, k).contains(n) implies in_pool(p, n) by {
            assert(seed.filter(|x: Seq<char>| in_pool(p, x)).contains(n));
        }
    }
}

/// A set holding the seed's pool names, and with each of its names every pool
/// name that it uses, holds everything in reach.
proof fn lemma_reach_within(p: PoolV, seed: Set<Seq<char>>, t: Set<Seq<char>>, k: nat)
    requires
        forall|n: Seq<char>| seed.contains(n) && in_pool(p, n) ==> #[trigger] t.contains(n),
        forall|n: Seq<char>, m: Seq<char>|
            #[trigger] t.contains(n) && #[trigger] uses(p, n).contains(m) && in_pool(p, m) ==> t.contains(m),
    ensures
        forall|n: Seq<char>| #[trigger] reach(p, seed, k).contains(n) ==> t.contains(n),
    decreases k,
{
    if k > 0 {
        lemma_reach_within(p, seed, t, (k - 1) as nat);
        let prev = reach(p, seed, (k - 1) as nat);
        assert forall|m: Seq<char>| #[trigger] reach(p, seed, k).contains(m) implies t.contains(m) by {
            if !prev.contains(m) {
                let n = choose|n: Seq<char>| #[trigger] prev.contains(n) && uses(p, n).contains(m);
                assert(t.contains(n));
            }
        }
    }
}

/// The pool names the seed names need, each once.
fn needed_names(pool: &LibPool, seed: &Vec<String>) -> (order: Vec<String>)
    ensures
        distinct_names(order@),
        forall|n: Seq<char>| #[trigger] names_set(order@).contains(n) <==> reachable(pool@, names_set(seed@), n),
{
    let ghost p = pool@;
    let ghost s = names_set(seed@);
    let mut order: Vec<String> = Vec::new();
    proof {
        assert forall|b: int| 0 <= b < seed@.len() && in_pool(p, #[trigger] seed@[b]@) implies reachable(
            p,
            s,
            seed@[b]@,
        ) by {
            assert(s.contains(seed@[b]@));
            assert(reach(p, s, 0).contains(seed@[b]@));
        }
        assert(names_set(order@) =~= Set::<Seq<char>>::empty());
    }
    append_new(pool, seed, &mut order, Ghost(s));
    let mut i: usize = 0;
    while i < order.len()
        invariant
            i <= order@.len(),
            p == pool@,
            s == names_set(seed@),
            distinct_names(order@),
            forall|a: int| 0 <= a < order@.len() ==> in_pool(p, #[trigger] order@[a]@) && reachable(p, s, order@[a]@),
            forall|n: Seq<char>| s.contains(n) && in_pool(p, n) ==> #[trigger] names_set(order@).contains(n),
            forall|a: int, m: Seq<char>|
                0 <= a < i && #[trigger] uses(p, order@[a]@).contains(m) && in_pool(p, m) ==> names_set(
                    order@,
                ).contains(m),
        decreases pool_size(pool) - i,
    {
        proof {
            lemma_pool_bound(pool, order@);
        }
        let name = copy_string(&order[i]);
        let inner = pool.uses_of(&name);
        proof {
            assert forall|b: int| 0 <= b < inner@.len() && in_pool(p, #[trigger] inner@[b]@) implies reachable(
                p,
                s,
                inner@[b]@,
            ) by {
                assert(names_set(inner@).contains(inner@[b]@));
                lemma_reach_step(p, s, order@[i as int]@, inner@[b]@);
            }
        }
        let ghost before = order@;
        append_new(pool, &inner, &mut order, Ghost(s));
        proof {
            assert forall|a: int, m: Seq<char>|
                0 <= a < i + 1 && #[trigger] uses(p, order@[a]@).contains(m) && in_pool(p, m) implies names_set(
                order@,
            ).contains(m) by {
                assert(order@[a] == before[a]);
                if a < i {
                    assert(names_set(before).contains(m));
                } else {
                    assert(names_set(inner@).contains(m));
                }
            }
            assert forall|n: Seq<char>| s.contains(n) && in_pool(p, n) implies #[trigger] names_set(order@).contains(n) by {
                assert(names_set(before).contains(n));
            }
        }
        i = i + 1;
    }
    proof {
        let t = names_set(order@);
        assert forall|n: Seq<char>, m: Seq<char>|
            #[trigger] t.contains(n) && #[trigger] uses(p, n).contains(m) && in_pool(p, m) implies t.contains(m) by {
            let a = choose|a: int| 0 <= a < order@.len() && #[trigger] order@[a]@ == n;
            assert(uses(p, order@[a]@).contains(m));
        }
        assert forall|n: Seq<char>| #[trigger] t.contains(n) <==> reachable(p, s, n) by {
            if t.contains(n) {
                let a = choose|a: int| 0 <= a < order@.len() && #[trigger] order@[a]@ == n;
                assert(reachable(p, s, order@[a]@));
            }
            if reachable(p, s, n) {
                let k = choose|k: nat| #[trigger] reach(p, s, k).contains(n);
                lemma_reach_within(p, s, t, k);
            }
        }
    }
    order
}

proof fn lemma_names_view_set(v: Seq<String>)
    ensures
        names_view(v).to_set() == names_set(v),
        names_view(v).len() == v.len(),
{
    assert forall|n: Seq<char>| names_view(v).to_set().contains(n) == names_set(v).contains(n) by {
        if names_view(v).to_set().contains(n) {
            let i = choose|i: int| 0 <= i < names_view(v).len() && names_view(v)[i] == n;
            assert(v[i]@ == n);
        }
        if names_set(v).contains(n) {
            let i = choose|i: int| 0 <= i < v.len() && #[trigger] v[i]@ == n;
            assert(names_view(v)[i] == n);
        }
    }
    assert(names_view(v).to_set() =~= names_set(v));
}

proof fn lemma_names_remove(v: Seq<String>, j: int)
    requires
        0 <= j < v.len(),
        distinct_names(v),
    ensures
        names_set(v.remove(j)) == names_set(v).remove(v[j]@),
        distinct_names(v.remove(j)),
{
    let w = v.remove(j);
    assert forall|n: Seq<char>| names_set(w).contains(n) == names_set(v).remove(v[j]@).contains(n) by {
        if names_set(w).contains(n) {
            let i = choose|i: int| 0 <= i < w.len() && #[trigger] w[i]@ == n;
            if i < j {
                assert(v[i]@ == n);
            } else {
                assert(v[i + 1]@ == n);
            }
        }
        if names_set(v).remove(v[j]@).contains(n) {
            let i = choose|i: int| 0 <= i < v.len() && #[trigger] v[i]@ == n;
            assert(i != j);
            if i < j {
                assert(w[i]@ == n);
            } else {
                assert(w[i - 1]@ == n);
            }
        }
    }
    assert(names_set(w) =~= names_set(v).remove(v[j]@));
    assert forall|a: int, b: int| 0 <= a < w.len() && 0 <= b < w.len() && a != b implies w[a]@ != w[b]@ by {
        let a1 = if a < j { a } else { a + 1 };
        let b1 = if b < j { b } else { b + 1 };
        assert(w[a] == v[a1]);
        assert(w[b] == v[b1]);
    }
}

/// Whether every needed pool name that `n` uses, `n` aside, is in `done`.
fn is_ready(pool: &LibPool, order: &Vec<String>, done: &Vec<String>, n: &String) -> (r: bool)
    ensures
        r == ready(pool@, names_set(order@), names_set(done@), n@),
{
    let us = pool.uses_of(n);
    let mut q: usize = 0;
    while q < us.len()
        invariant
            q <= us@.len(),
            names_set(us@) == uses(pool@, n@),
            forall|b: int|
                0 <= b < q ==> !(names_set(order@).contains(#[trigger] us@[b]@) && us@[b]@ != n@) || names_set(
                    done@,
                ).contains(us@[b]@),
        decreases us.len() - q,
    {
        let m = &us[q];
        if !same_text(m, n) && has_name(order, m) && !has_name(done, m) {
            assert(names_set(us@).contains(us@[q as int]@));
            return false;
        }
        q = q + 1;
    }
    proof {
        assert forall|m: Seq<char>|
            #[trigger] uses(pool@, n@).contains(m) && names_set(order@).contains(m) && m != n@ implies names_set(
            done@,
        ).contains(m) by {
            assert(names_set(us@).contains(m));
            let b = choose|b: int| 0 <= b < us@.len() && #[trigger] us@[b]@ == m;
            assert(us@[b]@ == m);
        }
    }
    true
}

/// The position of the first name in `rest` that is ready, if there is one.
fn first_ready(pool: &LibPool, order: &Vec<String>, done: &Vec<String>, rest: &Vec<String>) -> (r: Option<usize>)
    ensures
        match r {
            Some(j) => j < rest@.len() && ready(pool@, names_set(order@), names_set(done@), rest@[j as int]@),
            None => forall|k: int|
                0 <= k < rest@.len() ==> !ready(pool@, names_set(order@), names_set(done@), #[trigger] rest@[k]@),
        },
{
    let mut j: usize = 0;
    while j < rest.len()
        invariant
            j <= rest@.len(),
            forall|k: int|
                0 <= k < j ==> !ready(pool@, names_set(order@), names_set(done@), #[trigger] rest@[k]@),
        decreases rest.len() - j,
    {
        if is_ready(pool, order, done, &rest[j]) {
            return Some(j);
        }
        j = j + 1;
    }
    None
}

/// Where no name left is ready, a name left that lies on a cycle of uses:
/// following, from the first name left, each name's first use that is still
/// left, as many steps as there are names left.
fn cycle_member(pool: &LibPool, order: &Vec<String>, done: &Vec<String>, rest: &Vec<String>) -> (r: usize)
    requires
        rest@.len() > 0,
    ensures
        r < rest@.len(),
{
    let mut idx: usize = 0;
    let mut step: usize = 0;
    while step < rest.len()
        invariant
            idx < rest@.len(),
            step <= rest@.len(),
        decreases rest.len() - step,
    {
        let us = pool.uses_of(&rest[idx]);
        let mut q: usize = 0;
        let mut next: Option<usize> = None;
        while q < us.len() && next.is_none()
            invariant
                q <= us@.len(),
                idx < rest@.len(),
                next matches Some(k) ==> k < rest@.len(),
            decreases us.len() - q,
        {
            let m = &us[q];
            if !same_text(m, &rest[idx]) && has_name(order, m) && !has_name(done, m) {
                match find_name(rest, m) {
                    Some(k) => {
                        next = Some(k);
                    },
                    None => {},
                }
            }
            q = q + 1;
        }
        match next {
            Some(k) => {
                idx = k;
            },
            None => {},
        }
        step = step + 1;
    }
    idx
}

/// The position of a name in a list, if it is there.
fn find_name(v: &Vec<String>, n: &String) -> (r: Option<usize>)
    ensures
        r matches Some(k) ==> k < v@.len() && v@[k as int]@ == n@,
{
    let mut i: usize = 0;
    while i < v.len()
        invariant
            i <= v@.len(),
        decreases v.len() - i,
    {
        if same_text(&v[i], n) {
            return Some(i);
        }
        i = i + 1;
    }
    None
}

/// The names of `order`, once each, dependencies first: at each step the
/// first name left whose needed uses are all placed, or, where none is, a
/// name left on a cycle of uses.
fn dependency_order(pool: &LibPool, order: &Vec<String>) -> (s: Vec<String>)
    requires
        distinct_names(order@),
    ensures
        dependency_first(pool@, names_set(order@), names_view(s@)),
{
    let ghost p = pool@;
    let ghost keep = names_set(order@);
    let mut rest: Vec<String> = Vec::new();
    let mut k: usize = 0;
    while k < order.len()
        invariant
            k <= order@.len(),
            rest@.len() == k,
            forall|a: int| 0 <= a < k ==> #[trigger] rest@[a]@ == order@[a]@,
        decreases order.len() - k,
    {
        rest.push(copy_string(&order[k]));
        k = k + 1;
    }
    assert(names_set(rest@) =~= keep) by {
        assert forall|n: Seq<char>| names_set(rest@).contains(n) implies keep.contains(n) by {
            let a = choose|a: int| 0 <= a < rest@.len() && #[trigger] rest@[a]@ == n;
            assert(order@[a]@ == n);
        }
        assert forall|n: Seq<char>| keep.contains(n) implies names_set(rest@).contains(n) by {
            let a = choose|a: int| 0 <= a < order@.len() && #[trigger] order@[a]@ == n;
            assert(rest@[a]@ == n);
        }
    }
    assert(distinct_names(rest@));
    let mut sorted: Vec<String> = Vec::new();
    assert(names_set(sorted@) =~= Set::<Seq<char>>::empty());
    while rest.len() > 0
        invariant
            p == pool@,
            keep == names_set(order@),
            distinct_names(sorted@),
            distinct_names(rest@),
            forall|n: Seq<char>|
                keep.contains(n) <==> (names_set(sorted@).contains(n) || names_set(rest@).contains(n)),
            forall|n: Seq<char>| !(names_set(sorted@).contains(n) && names_set(rest@).contains(n)),
            forall|i: int|
                0 <= i < sorted@.len() ==> ready(p, keep, names_view(sorted@).take(i).to_set(), #[trigger] names_view(
                    sorted@,
                )[i]) || stuck(p, keep, names_view(sorted@).take(i).to_set()),
        decreases rest.len(),
    {
        let choice = first_ready(pool, order, &sorted, &rest);
        let j: usize = match choice {
            Some(j) => j,
            None => cycle_member(pool, order, &sorted, &rest),
        };
        let ghost before = sorted@;
        let ghost rest0 = rest@;
        proof {
            lemma_names_view_set(before);
            lemma_names_remove(rest0, j as int);
            if choice is None {
                assert forall|n: Seq<char>|
                    keep.contains(n) && !names_set(before).contains(n) implies !#[trigger] ready(
                    p,
                    keep,
                    names_set(before),
                    n,
                ) by {
                    let k = choose|k: int| 0 <= k < rest0.len() && #[trigger] rest0[k]@ == n;
                    assert(!ready(p, keep, names_set(before), rest0[k]@));
                }
            }
        }
        let x = rest.remove(j);
        let ghost xv = x@;
        proof {
            assert(xv == rest0[j as int]@);
            assert(names_set(rest0).contains(xv));
            lemma_names_push(before, x);
        }
        sorted.push(x);
        proof {
            let sv = names_view(sorted@);
            let bv = names_view(before);
            assert(sv.take(before.len() as int) =~= bv);
            assert(sv[before.len() as int] == xv);
            assert forall|i: int| 0 <= i < sorted@.len() implies ready(p, keep, sv.take(i).to_set(), #[trigger] sv[i])
                || stuck(p, keep, sv.take(i).to_set()) by {
                if i < before.len() {
                    assert(sv.take(i) =~= bv.take(i));
                    assert(sv[i] == bv[i]);
                }
            }
            assert forall|a: int, b: int|
                0 <= a < sorted@.len() && 0 <= b < sorted@.len() && a != b implies sorted@[a]@ != sorted@[b]@ by {
                if a < before.len() && b < before.len() {
                    assert(sorted@[a] == before[a]);
                    assert(sorted@[b] == before[b]);
                } else if a < before.len() {
                    assert(sorted@[a] == before[a]);
                    assert(names_set(before).contains(before[a]@));
                } else {
                    assert(sorted@[b] == before[b]);
                    assert(names_set(before).contains(before[b]@));
                }
            }
        }
    }
    proof {
        lemma_names_view_set(sorted@);
        let sv = names_view(sorted@);
        assert(sv.to_set() =~= keep);
        assert(sv.no_duplicates()) by {
            assert forall|a: int, b: int| 0 <= a < sv.len() && 0 <= b < sv.len() && a != b implies sv[a] != sv[b] by {
                assert(sorted@[a]@ != sorted@[b]@);
            }
        }
    }
    sorted
}

/// The position of the entry named `k`, if there is one.
fn find_entry<V>(es: &Vec<(String, V)>, k: &String) -> (r: Option<usize>)
    ensures
        match r {
            Some(q) => q < es@.len() && es@[q as int].0@ == k@,
            None => forall|i: int| 0 <= i < es@.len() ==> (#[trigger] es@[i]).0@ != k@,
        },
{
    let mut i: usize = 0;
    while i < es.len()
        invariant
            i <= es@.len(),
            forall|j: int| 0 <= j < i ==> (#[trigger] es@[j]).0@ != k@,
        decreases es.len() - i,
    {
        if same_text(&es[i].0, k) {
            return Some(i);
        }
        i = i + 1;
    }
    None
}

/// The values held under the names of `s`, in the order of `s`.
fn pick_entries<V: View>(es: Vec<(String, V)>, s: &Vec<String>, Ghost(m): Ghost<Map<Seq<char>, V::V>>) -> (r: Vec<
    V,
>)
    requires
        forall|i: int, j: int| 0 <= i < es@.len() && 0 <= j < es@.len() && i != j ==> es@[i].0@ != es@[j].0@,
        forall|i: int|
            0 <= i < es@.len() ==> #[trigger] m.contains_key(es@[i].0@) && m[es@[i].0@] == es@[i].1@,
        forall|k: Seq<char>| #[trigger] m.contains_key(k) ==> exists|i: int| 0 <= i < es@.len() && es@[i].0@ == k,
        distinct_names(s@),
    ensures
        Seq::new(r@.len(), |i: int| r@[i]@) == pick(names_view(s@), m),
{
    let ghost sv = names_view(s@);
    let ghost e0 = es@;
    let mut rest = es;
    assert(rest@ == e0);
    assert forall|a: int| 0 <= a < rest@.len() implies #[trigger] m.contains_key(rest@[a].0@) && m[rest@[a].0@]
        == rest@[a].1@ by {
        assert(rest@[a] == e0[a]);
        assert(m.contains_key(e0[a].0@));
    }
    let mut out: Vec<V> = Vec::new();
    let mut i: usize = 0;
    assert(sv.take(0) =~= Seq::<Seq<char>>::empty());
    assert(Seq::new(out@.len(), |j: int| out@[j]@) =~= pick(sv.take(0), m));
    while i < s.len()
        invariant
            i <= s@.len(),
            sv == names_view(s@),
            distinct_names(s@),
            forall|a: int, b: int|
                0 <= a < rest@.len() && 0 <= b < rest@.len() && a != b ==> rest@[a].0@ != rest@[b].0@,
            forall|a: int|
                0 <= a < rest@.len() ==> #[trigger] m.contains_key(rest@[a].0@) && m[rest@[a].0@] == rest@[a].1@,
            forall|k: Seq<char>|
                #[trigger] m.contains_key(k) && !sv.take(i as int).contains(k) ==> exists|a: int|
                    0 <= a < rest@.len() && rest@[a].0@ == k,
            Seq::new(out@.len(), |j: int| out@[j]@) == pick(sv.take(i as int), m),
        decreases s.len() - i,
    {
        let ghost t0 = sv.take(i as int);
        let ghost t1 = sv.take(i as int + 1);
        let ghost x = sv[i as int];
        let ghost prev = Seq::new(out@.len(), |j: int| out@[j]@);
        proof {
            assert(t1.drop_last() =~= t0);
            assert(t1.last() == x);
            assert(!t0.contains(x)) by {
                if t0.contains(x) {
                    let a = choose|a: int| 0 <= a < t0.len() && t0[a] == x;
                    assert(s@[a]@ == s@[i as int]@);
                }
            }
        }
        match find_entry(&rest, &s[i]) {
            Some(q) => {
                let ghost rest0 = rest@;
                proof {
                    assert(m.contains_key(rest0[q as int].0@));
                }
                let e = rest.remove(q);
                let ghost ee = e;
                let (_k, v) = e;
                let ghost vv = v@;
                proof {
                    assert(ee == rest0[q as int]);
                    assert(ee.1@ == vv);
                    assert(m.contains_key(x) && m[x] == vv);
                }
                let ghost oo = out@;
                out.push(v);
                proof {
                    assert(picked(t1, m) == picked(t0, m).push(x));
                    let np = Seq::new(out@.len(), |j: int| out@[j]@);
                    assert(prev.len() == oo.len());
                    assert(prev == pick(t0, m));
                    assert(pick(t0, m).len() == picked(t0, m).len());
                    assert(pick(t1, m).len() == picked(t1, m).len());
                    assert(np.len() == pick(t1, m).len());
                    assert forall|j: int| 0 <= j < np.len() implies np[j] == pick(t1, m)[j] by {
                        if j < oo.len() {
                            assert(out@[j] == oo[j]);
                            assert(prev[j] == oo[j]@);
                            assert(pick(t0, m)[j] == m[picked(t0, m)[j]]);
                        } else {
                            assert(out@[j] == v);
                        }
                    }
                    assert(np =~= pick(t1, m));
                    assert forall|k: Seq<char>| #[trigger] m.contains_key(k) && !t1.contains(k) implies exists|a: int|
                        0 <= a < rest@.len() && rest@[a].0@ == k by {
                        assert(!t0.contains(k)) by {
                            if t0.contains(k) {
                                let a = choose|a: int| 0 <= a < t0.len() && t0[a] == k;
                                assert(t1[a] == k);
                            }
                        }
                        let a = choose|a: int| 0 <= a < rest0.len() && rest0[a].0@ == k;
                        assert(k != x) by {
                            assert(t1[i as int] == x);
                        }
                        assert(a != q);
                        if a < q {
                            assert(rest@[a] == rest0[a]);
                        } else {
                            assert(rest@[a - 1] == rest0[a]);
                        }
                    }
                    assert forall|a: int, b: int|
                        0 <= a < rest@.len() && 0 <= b < rest@.len() && a != b implies rest@[a].0@ != rest@[b].0@ by {
                        let a1 = if a < q { a } else { a + 1 };
                        let b1 = if b < q { b } else { b + 1 };
                        assert(rest@[a] == rest0[a1]);
                        assert(rest@[b] == rest0[b1]);
                    }
                    assert forall|a: int| 0 <= a < rest@.len() implies #[trigger] m.contains_key(rest@[a].0@) && m[rest@[a].0@]
                        == rest@[a].1@ by {
                        let a1 = if a < q { a } else { a + 1 };
                        assert(rest@[a] == rest0[a1]);
                        assert(m.contains_key(rest0[a1].0@));
                    }
                }
            },
            None => {
                proof {
                    assert(!m.contains_key(x)) by {
                        if m.contains_key(x) {
                            let a = choose|a: int| 0 <= a < rest@.len() && rest@[a].0@ == x;
                            assert(rest@[a].0@ != s@[i as int]@);
                        }
                    }
                    assert(picked(t1, m) == picked(t0, m));
                    assert(Seq::new(out@.len(), |j: int| out@[j]@) =~= pick(t1, m));
                    assert forall|k: Seq<char>| #[trigger] m.contains_key(k) && !t1.contains(k) implies exists|a: int|
                        0 <= a < rest@.len() && rest@[a].0@ == k by {
                        assert(!t0.contains(k)) by {
                            if t0.contains(k) {
                                let a = choose|a: int| 0 <= a < t0.len() && t0[a] == k;
                                assert(t1[a] == k);
                            }
                        }
                    }
                }
            },
        }
        i = i + 1;
    }
    assert(sv.take(s@.len() as int) =~= sv);
    out
}

/// Selective compilation: the library definitions that the main program needs
/// (those it names, and, transitively, those that needed definitions name),
/// as functions, structs and top-level variables, callees before callers:
/// each list follows one order of the needed names in which every name comes
/// after the needed names it uses, but where the names left use each other
/// in a cycle. Everything else in the pool is dropped.
pub fn bfs_reachable(main: &Program, pool: LibPool) -> (r: (Vec<FnDef>, Vec<StructDef>, Vec<Stmt>))
    ensures
        exists|s: Seq<Seq<char>>|
            #[trigger] dependency_first(pool@, needed(pool@, program_names(program_view(main))), s) && Seq::new(
                r.0@.len(),
                |i: int| r.0@[i]@,
            ) == pick(s, pool@.fns) && Seq::new(r.1@.len(), |i: int| r.1@[i]@) == pick(s, pool@.structs)
                && Seq::new(r.2@.len(), |i: int| r.2@[i]@) == pick(s, pool@.globals),
{
    let seed = program_refs(main);
    let order = needed_names(&pool, &seed);
    let ghost keep = needed(pool@, program_names(program_view(main)));
    assert(names_set(order@) =~= keep);
    let s = dependency_order(&pool, &order);
    let ghost pv = pool@;
    let ghost sv = names_view(s@);
    assert(distinct_names(s@)) by {
        assert forall|a: int, b: int| 0 <= a < s@.len() && 0 <= b < s@.len() && a != b implies s@[a]@ != s@[b]@ by {
            assert(sv[a] != sv[b]);
        }
    }
    let LibPool { fns, structs, globals } = pool;
    let fv = fns.into_entries();
    let sv2 = structs.into_entries();
    let gv = globals.into_entries();
    let rf = pick_entries(fv, &s, Ghost(pv.fns));
    let rs = pick_entries(sv2, &s, Ghost(pv.structs));
    let rg = pick_entries(gv, &s, Ghost(pv.globals));
    assert(dependency_first(pv, keep, sv));
    (rf, rs, rg)
}

// ── Laws ────────────────────────────────────────────────────────────────────

/// What a program needs holds every pool name that it names, only pool names,
/// and, with each needed name, every pool name that its definitions refer to:
/// library functions that call other library functions pull them in.
pub proof fn law_needed_closed(p: PoolV, seed: Set<Seq<char>>)
    ensures
        forall|n: Seq<char>| seed.contains(n) && in_pool(p, n) ==> #[trigger] needed(p, seed).contains(n),
        forall|n: Seq<char>| #[trigger] needed(p, seed).contains(n) ==> in_pool(p, n),
        forall|n: Seq<char>, m: Seq<char>|
            #[trigger] needed(p, seed).contains(n) && #[trigger] uses(p, n).contains(m) && in_pool(p, m)
                ==> needed(p, seed).contains(m),
{
    assert forall|n: Seq<char>| seed.contains(n) && in_pool(p, n) implies #[trigger] needed(p, seed).contains(n) by {
        assert(reach(p, seed, 0).contains(n));
    }
    assert forall|n: Seq<char>| #[trigger] needed(p, seed).contains(n) implies in_pool(p, n) by {
        let k = choose|k: nat| #[trigger] reach(p, seed, k).contains(n);
        lemma_reach_in_pool(p, seed, k);
    }
    assert forall|n: Seq<char>, m: Seq<char>|
        #[trigger] needed(p, seed).contains(n) && #[trigger] uses(p, n).contains(m) && in_pool(p, m) implies needed(
        p,
        seed,
    ).contains(m) by {
        lemma_reach_step(p, seed, n, m);
    }
}

/// Nothing more is needed than that: any set that holds the seed's pool names
/// and is closed in the same way holds everything the program needs.
pub proof fn law_needed_least(p: PoolV, seed: Set<Seq<char>>, t: Set<Seq<char>>)
    requires
        forall|n: Seq<char>| seed.contains(n) && in_pool(p, n) ==> #[trigger] t.contains(n),
        forall|n: Seq<char>, m: Seq<char>|
            #[trigger] t.contains(n) && #[trigger] uses(p, n).contains(m) && in_pool(p, m) ==> t.contains(m),
    ensures
        needed(p, seed).subset_of(t),
{
    assert forall|n: Seq<char>| #[trigger] needed(p, seed).contains(n) implies t.contains(n) by {
        let k = choose|k: nat| #[trigger] reach(p, seed, k).contains(n);
        lemma_reach_within(p, seed, t, k);
    }
}

proof fn lemma_reach_monotone(p: PoolV, s1: Set<Seq<char>>, s2: Set<Seq<char>>, k: nat)
    requires
        s1.subset_of(s2),
    ensures
        reach(p, s1, k).subset_of(reach(p, s2, k)),
    decreases k,
{
    if k > 0 {
        lemma_reach_monotone(p, s1, s2, (k - 1) as nat);
        let a = reach(p, s1, (k - 1) as nat);
        let b = reach(p, s2, (k - 1) as nat);
        assert forall|m: Seq<char>| #[trigger] reach(p, s1, k).contains(m) implies reach(p, s2, k).contains(m) by {
            if !a.contains(m) {
                let n = choose|n: Seq<char>| #[trigger] a.contains(n) && uses(p, n).contains(m);
                assert(b.contains(n));
            }
        }
    } else {
        assert forall|m: Seq<char>| #[trigger] reach(p, s1, k).contains(m) implies reach(p, s2, k).contains(m) by {
            assert(s1.filter(|x: Seq<char>| in_pool(p, x)).contains(m));
            assert(s2.filter(|x: Seq<char>| in_pool(p, x)).contains(m));
        }
    }
}

/// A program that names more needs more.
pub proof fn law_needed_monotone(p: PoolV, s1: Set<Seq<char>>, s2: Set<Seq<char>>)
    requires
        s1.subset_of(s2),
    ensures
        needed(p, s1).subset_of(needed(p, s2)),
{
    assert forall|n: Seq<char>| #[trigger] needed(p, s1).contains(n) implies needed(p, s2).contains(n) by {
        let k = choose|k: nat| #[trigger] reach(p, s1, k).contains(n);
        lemma_reach_monotone(p, s1, s2, k);
        assert(reach(p, s2, k).contains(n));
    }
}

proof fn lemma_admit_keyed(p: PoolV, m: ProgramV, k: ImportKindV)
    requires
        keyed(p),
    ensures
        keyed(admit_program(p, m, k)),
{
    lemma_admit_fns_keyed(p.fns, m.fns, k);
    lemma_admit_structs_keyed(p.structs, m.structs, k);
    lemma_admit_globals_keyed(p.globals, m.top_level, k);
}

proof fn lemma_admit_fns_keyed(m: Map<Seq<char>, FnV>, fs: Seq<FnV>, k: ImportKindV)
    requires
        forall|n: Seq<char>| #[trigger] m.contains_key(n) ==> m[n].name == n,
    ensures
        forall|n: Seq<char>| #[trigger] admit_fns(m, fs, k).contains_key(n) ==> admit_fns(m, fs, k)[n].name == n,
    decreases fs.len(),
{
    if fs.len() > 0 {
        lemma_admit_fns_keyed(m, fs.drop_last(), k);
    }
}

proof fn lemma_admit_structs_keyed(m: Map<Seq<char>, StructV>, ss: Seq<StructV>, k: ImportKindV)
    requires
        forall|n: Seq<char>| #[trigger] m.contains_key(n) ==> m[n].name == n,
    ensures
        forall|n: Seq<char>| #[trigger] admit_structs(m, ss, k).contains_key(n) ==> admit_structs(m, ss, k)[n].name == n,
    decreases ss.len(),
{
    if ss.len() > 0 {
        lemma_admit_structs_keyed(m, ss.drop_last(), k);
    }
}

proof fn lemma_admit_globals_keyed(m: Map<Seq<char>, StmtV>, ss: Seq<StmtV>, k: ImportKindV)
    requires
        forall|n: Seq<char>| #[trigger] m.contains_key(n) ==> global_key(m[n]) == Some(n),
    ensures
        forall|n: Seq<char>|
            #[trigger] admit_globals(m, ss, k).contains_key(n) ==> global_key(admit_globals(m, ss, k)[n]) == Some(n),
    decreases ss.len(),
{
    if ss.len() > 0 {
        lemma_admit_globals_keyed(m, ss.drop_last(), k);
    }
}

/// Every definition of a loaded pool is kept under its own name.
pub proof fn law_loaded_pool_keyed(imps: Seq<ImportV>, srcs: Seq<LibSourceV>, shown: Map<Seq<char>, Seq<char>>)
    ensures
        load_all(empty_pool(), imps, srcs, shown) matches Ok(q) ==> keyed(q),
    decreases imps.len(),
{
    if imps.len() > 0 {
        law_loaded_pool_keyed(imps.drop_last(), srcs.drop_last(), shown);
        match load_all(empty_pool(), imps.drop_last(), srcs.drop_last(), shown) {
            Ok(q) => {
                match srcs[imps.len() - 1] {
                    LibSourceV::Loaded(path, text) => match lex(text) {
                        Ok(ts) => match program_s(prepared(ts, shown), 0, empty_program()) {
                            Ok(m) => lemma_admit_keyed(q, m, imps.last().kind),
                            Err(_) => {},
                        },
                        Err(_) => {},
                    },
                    _ => {},
                }
            },
            Err(_) => {},
        }
    }
}

proof fn lemma_named_fns(fs: Seq<FnV>, ns: Seq<Seq<char>>)
    ensures
        forall|n: Seq<char>|
            #[trigger] admit_fns(Map::empty(), fs, ImportKindV::Named(ns)).contains_key(n) <==> (ns.contains(n)
                && admit_fns(Map::empty(), fs, ImportKindV::Glob).contains_key(n)),
        forall|n: Seq<char>|
            ns.contains(n) && #[trigger] admit_fns(Map::empty(), fs, ImportKindV::Glob).contains_key(n)
                ==> admit_fns(Map::empty(), fs, ImportKindV::Named(ns))[n] == admit_fns(
                Map::empty(),
                fs,
                ImportKindV::Glob,
            )[n],
    decreases fs.len(),
{
    let e = Map::empty();
    let kg = ImportKindV::Glob;
    let kn = ImportKindV::Named(ns);
    if fs.len() > 0 {
        lemma_named_fns(fs.drop_last(), ns);
        let a = admit_fns(e, fs.drop_last(), kn);
        let b = admit_fns(e, fs.drop_last(), kg);
        let l = fs.last();
        assert(admit_fns(e, fs, kg) == b.insert(l.name, l));
        assert(admit_fns(e, fs, kn) == if ns.contains(l.name) {
            a.insert(l.name, l)
        } else {
            a
        });
        assert forall|n: Seq<char>| #[trigger] admit_fns(e, fs, kn).contains_key(n) <==> (ns.contains(n) && admit_fns(e, fs, kg).contains_key(n)) by {
            if n == l.name {
            } else {
                assert(a.contains_key(n) <==> (ns.contains(n) && b.contains_key(n)));
            }
        }
        assert forall|n: Seq<char>| ns.contains(n) && #[trigger] admit_fns(e, fs, kg).contains_key(n) implies admit_fns(e, fs, kn)[n] == admit_fns(e, fs, kg)[n] by {
            if n != l.name {
                assert(b.contains_key(n));
                assert(a[n] == b[n]);
            }
        }
    }
}

proof fn lemma_named_structs(ss: Seq<StructV>, ns: Seq<Seq<char>>)
    ensures
        forall|n: Seq<char>|
            #[trigger] admit_structs(Map::empty(), ss, ImportKindV::Named(ns)).contains_key(n) <==> (ns.contains(n)
                && admit_structs(Map::empty(), ss, ImportKindV::Glob).contains_key(n)),
        forall|n: Seq<char>|
            ns.contains(n) && #[trigger] admit_structs(Map::empty(), ss, ImportKindV::Glob).contains_key(n)
                ==> admit_structs(Map::empty(), ss, ImportKindV::Named(ns))[n] == admit_structs(
                Map::empty(),
                ss,
                ImportKindV::Glob,
            )[n],
    decreases ss.len(),
{
    let e = Map::empty();
    let kg = ImportKindV::Glob;
    let kn = ImportKindV::Named(ns);
    if ss.len() > 0 {
        lemma_named_structs(ss.drop_last(), ns);
        let a = admit_structs(e, ss.drop_last(), kn);
        let b = admit_structs(e, ss.drop_last(), kg);
        let l = ss.last();
        assert(admit_structs(e, ss, kg) == b.insert(l.name, l));
        assert(admit_structs(e, ss, kn) == if ns.contains(l.name) {
            a.insert(l.name, l)
        } else {
            a
        });
        assert forall|n: Seq<char>| #[trigger] admit_structs(e, ss, kn).contains_key(n) <==> (ns.contains(n) && admit_structs(e, ss, kg).contains_key(n)) by {
            if n == l.name {
            } else {
                assert(a.contains_key(n) <==> (ns.contains(n) && b.contains_key(n)));
            }
        }
        assert forall|n: Seq<char>| ns.contains(n) && #[trigger] admit_structs(e, ss, kg).contains_key(n) implies admit_structs(e, ss, kn)[n] == admit_structs(e, ss, kg)[n] by {
            if n != l.name {
                assert(b.contains_key(n));
                assert(a[n] == b[n]);
            }
        }
    }
}

proof fn lemma_named_globals(ss: Seq<StmtV>, ns: Seq<Seq<char>>)
    ensures
        forall|n: Seq<char>|
            #[trigger] admit_globals(Map::empty(), ss, ImportKindV::Named(ns)).contains_key(n) <==> (ns.contains(n)
                && admit_globals(Map::empty(), ss, ImportKindV::Glob).contains_key(n)),
        forall|n: Seq<char>|
            ns.contains(n) && #[trigger] admit_globals(Map::empty(), ss, ImportKindV::Glob).contains_key(n)
                ==> admit_globals(Map::empty(), ss, ImportKindV::Named(ns))[n] == admit_globals(
                Map::empty(),
                ss,
                ImportKindV::Glob,
            )[n],
    decreases ss.len(),
{
    let e = Map::empty();
    let kg = ImportKindV::Glob;
    let kn = ImportKindV::Named(ns);
    if ss.len() > 0 {
        lemma_named_globals(ss.drop_last(), ns);
        let a = admit_globals(e, ss.drop_last(), kn);
        let b = admit_globals(e, ss.drop_last(), kg);
        let l = ss.last();
        match global_key(l) {
            Some(k) => {
                assert(admit_globals(e, ss, kg) == b.insert(k, l));
                assert(admit_globals(e, ss, kn) == if ns.contains(k) {
                    a.insert(k, l)
                } else {
                    a
                });
                assert forall|n: Seq<char>| #[trigger] admit_globals(e, ss, kn).contains_key(n) <==> (ns.contains(n) && admit_globals(e, ss, kg).contains_key(n)) by {
                    if n != k {
                        assert(a.contains_key(n) <==> (ns.contains(n) && b.contains_key(n)));
                    }
                }
                assert forall|n: Seq<char>| ns.contains(n) && #[trigger] admit_globals(e, ss, kg).contains_key(n) implies admit_globals(e, ss, kn)[n] == admit_globals(e, ss, kg)[n] by {
                    if n != k {
                        assert(b.contains_key(n));
                        assert(a[n] == b[n]);
                    }
                }
            },
            None => {
                assert(admit_globals(e, ss, kg) == b);
                assert(admit_globals(e, ss, kn) == a);
            },
        }
    }
}

/// Importing a module by name keeps, of what a wildcard import of it offers,
/// exactly the named definitions.
proof fn lemma_named_pool(m: ProgramV, ns: Seq<Seq<char>>)
    ensures
        ({
            let g = admit_program(empty_pool(), m, ImportKindV::Glob);
            let p = admit_program(empty_pool(), m, ImportKindV::Named(ns));
            &&& forall|n: Seq<char>| #[trigger] in_pool(p, n) <==> ns.contains(n) && in_pool(g, n)
            &&& forall|n: Seq<char>| ns.contains(n) ==> #[trigger] uses(p, n) == uses(g, n)
            &&& forall|n: Seq<char>|
                ns.contains(n) ==> (#[trigger] p.fns.contains_key(n) == g.fns.contains_key(n) && p.structs.contains_key(
                    n,
                ) == g.structs.contains_key(n) && p.globals.contains_key(n) == g.globals.contains_key(n))
            &&& forall|n: Seq<char>| ns.contains(n) && #[trigger] g.fns.contains_key(n) ==> p.fns[n] == g.fns[n]
            &&& forall|n: Seq<char>| ns.contains(n) && #[trigger] g.structs.contains_key(n) ==> p.structs[n] == g.structs[n]
            &&& forall|n: Seq<char>| ns.contains(n) && #[trigger] g.globals.contains_key(n) ==> p.globals[n] == g.globals[n]
        }),
{
    lemma_named_fns(m.fns, ns);
    lemma_named_structs(m.structs, ns);
    lemma_named_globals(m.top_level, ns);
    let g = admit_program(empty_pool(), m, ImportKindV::Glob);
    let p = admit_program(empty_pool(), m, ImportKindV::Named(ns));
    assert forall|n: Seq<char>| ns.contains(n) implies #[trigger] uses(p, n) == uses(g, n) by {
        assert(p.fns.contains_key(n) == g.fns.contains_key(n));
        assert(p.structs.contains_key(n) == g.structs.contains_key(n));
        assert(p.globals.contains_key(n) == g.globals.contains_key(n));
    }
}

proof fn lemma_reach_smaller_pool(p: PoolV, g: PoolV, seed: Set<Seq<char>>, k: nat)
    requires
        forall|n: Seq<char>| #[trigger] in_pool(p, n) ==> in_pool(g, n) && uses(p, n) == uses(g, n),
    ensures
        reach(p, seed, k).subset_of(reach(g, seed, k)),
    decreases k,
{
    if k > 0 {
        lemma_reach_smaller_pool(p, g, seed, (k - 1) as nat);
        let a = reach(p, seed, (k - 1) as nat);
        let b = reach(g, seed, (k - 1) as nat);
        assert forall|m: Seq<char>| #[trigger] reach(p, seed, k).contains(m) implies reach(g, seed, k).contains(m) by {
            if !a.contains(m) {
                let n = choose|n: Seq<char>| #[trigger] a.contains(n) && uses(p, n).contains(m);
                lemma_reach_in_pool(p, seed, (k - 1) as nat);
                assert(in_pool(p, n));
                assert(b.contains(n));
            }
        }
    } else {
        assert forall|m: Seq<char>| #[trigger] reach(p, seed, k).contains(m) implies reach(g, seed, k).contains(m) by {
            assert(seed.filter(|x: Seq<char>| in_pool(p, x)).contains(m));
            assert(seed.filter(|x: Seq<char>| in_pool(g, x)).contains(m));
        }
    }
}

/// A wildcard import costs nothing over naming what is used: where everything
/// that the program needs from a module is among `ns`, importing the module by
/// `*` or by `{ns}` leaves the program needing the same names, each with the
/// same definition.
pub proof fn law_glob_import_matches_named(m: ProgramV, ns: Seq<Seq<char>>, seed: Set<Seq<char>>)
    requires
        forall|n: Seq<char>|
            #[trigger] needed(admit_program(empty_pool(), m, ImportKindV::Glob), seed).contains(n) ==> ns.contains(n),
    ensures
        ({
            let g = admit_program(empty_pool(), m, ImportKindV::Glob);
            let p = admit_program(empty_pool(), m, ImportKindV::Named(ns));
            &&& needed(p, seed) == needed(g, seed)
            &&& forall|n: Seq<char>|
                #[trigger] needed(g, seed).contains(n) ==> p.fns.contains_key(n) == g.fns.contains_key(n)
                    && p.structs.contains_key(n) == g.structs.contains_key(n) && p.globals.contains_key(n)
                    == g.globals.contains_key(n) && (g.fns.contains_key(n) ==> p.fns[n] == g.fns[n]) && (
                    g.structs.contains_key(n) ==> p.structs[n] == g.structs[n]) && (g.globals.contains_key(n)
                    ==> p.globals[n] == g.globals[n])
        }),
{
    let g = admit_program(empty_pool(), m, ImportKindV::Glob);
    let p = admit_program(empty_pool(), m, ImportKindV::Named(ns));
    lemma_named_pool(m, ns);
    law_needed_closed(g, seed);
    law_needed_closed(p, seed);
    let ng = needed(g, seed);
    let np = needed(p, seed);
    assert forall|n: Seq<char>| #[trigger] np.contains(n) implies ng.contains(n) by {
        let k = choose|k: nat| #[trigger] reach(p, seed, k).contains(n);
        lemma_reach_smaller_pool(p, g, seed, k);
        assert(reach(g, seed, k).contains(n));
    }
    assert forall|n: Seq<char>| seed.contains(n) && in_pool(g, n) implies #[trigger] np.contains(n) by {
        assert(ng.contains(n));
        assert(in_pool(p, n));
    }
    assert forall|n: Seq<char>, x: Seq<char>|
        #[trigger] np.contains(n) && #[trigger] uses(g, n).contains(x) && in_pool(g, x) implies np.contains(x) by {
        assert(in_pool(p, n));
        assert(ns.contains(n));
        assert(uses(p, n) == uses(g, n));
        assert(ng.contains(n));
        assert(ng.contains(x));
        assert(in_pool(p, x));
    }
    assert forall|n: Seq<char>| #[trigger] ng.contains(n) implies np.contains(n) by {
        let k = choose|k: nat| #[trigger] reach(g, seed, k).contains(n);
        lemma_reach_within(g, seed, np, k);
    }
    assert(np =~= ng);
}

/// Importing a module by its name alone admits what a wildcard import admits.
pub proof fn law_module_import_is_glob(p: PoolV, m: ProgramV)
    ensures
        admit_program(p, m, ImportKindV::Module) == admit_program(p, m, ImportKindV::Glob),
{
    lemma_same_admission(p, m);
}

proof fn lemma_same_admission(p: PoolV, m: ProgramV)
    ensures
        admit_fns(p.fns, m.fns, ImportKindV::Module) == admit_fns(p.fns, m.fns, ImportKindV::Glob),
        admit_structs(p.structs, m.structs, ImportKindV::Module) == admit_structs(p.structs, m.structs, ImportKindV::Glob),
        admit_globals(p.globals, m.top_level, ImportKindV::Module) == admit_globals(
            p.globals,
            m.top_level,
            ImportKindV::Glob,
        ),
    decreases m.fns.len() + m.structs.len() + m.top_level.len(),
{
    if m.fns.len() > 0 {
        lemma_same_admission(p, ProgramV { fns: m.fns.drop_last(), ..m });
    }
    if m.structs.len() > 0 {
        lemma_same_admission(p, ProgramV { structs: m.structs.drop_last(), ..m });
    }
    if m.top_level.len() > 0 {
        lemma_same_admission(p, ProgramV { top_level: m.top_level.drop_last(), ..m });
    }
}

/// Callees come before callers: in a dependency-first order, a needed name
/// that something placed uses was placed before it, unless at that point every
/// name left used another one left (a cycle of uses).
pub proof fn law_callees_come_first(p: PoolV, keep: Set<Seq<char>>, s: Seq<Seq<char>>, i: int, m: Seq<char>)
    requires
        dependency_first(p, keep, s),
        0 <= i < s.len(),
        !stuck(p, keep, s.take(i).to_set()),
        uses(p, s[i]).contains(m),
        keep.contains(m),
        m != s[i],
    ensures
        exists|j: int| 0 <= j < i && s[j] == m,
{
    assert(ready(p, keep, s.take(i).to_set(), s[i]));
    assert(s.take(i).to_set().contains(m));
    let j = choose|j: int| 0 <= j < s.take(i).len() && s.take(i)[j] == m;
    assert(s[j] == m);
}

proof fn lemma_picked<V>(s: Seq<Seq<char>>, m: Map<Seq<char>, V>)
    ensures
        forall|k: Seq<char>| #[trigger] picked(s, m).contains(k) <==> s.contains(k) && m.contains_key(k),
        s.no_duplicates() ==> picked(s, m).no_duplicates(),
    decreases s.len(),
{
    if s.len() > 0 {
        let t = s.drop_last();
        lemma_picked(t, m);
        assert forall|k: Seq<char>| #[trigger] picked(s, m).contains(k) <==> s.contains(k) && m.contains_key(k) by {
            if s.contains(k) && k != s.last() {
                let j = choose|j: int| 0 <= j < s.len() && s[j] == k;
                assert(t[j] == k);
            }
            if t.contains(k) {
                let j = choose|j: int| 0 <= j < t.len() && t[j] == k;
                assert(s[j] == k);
            }
            if m.contains_key(s.last()) {
                assert(picked(s, m).last() == s.last());
                if picked(t, m).contains(k) {
                    let j = choose|j: int| 0 <= j < picked(t, m).len() && picked(t, m)[j] == k;
                    assert(picked(s, m)[j] == k);
                }
                if picked(s, m).contains(k) {
                    let j = choose|j: int| 0 <= j < picked(s, m).len() && picked(s, m)[j] == k;
                    if j < picked(t, m).len() {
                        assert(picked(t, m)[j] == k);
                    }
                }
            }
            assert(s.contains(s.last())) by {
                assert(s[s.len() - 1] == s.last());
            }
        }
        if s.no_duplicates() {
            assert(t.no_duplicates()) by {
                assert forall|a: int, b: int| 0 <= a < t.len() && 0 <= b < t.len() && a != b implies t[a] != t[b] by {
                    assert(t[a] == s[a]);
                    assert(t[b] == s[b]);
                }
            }
            if m.contains_key(s.last()) {
                assert(!t.contains(s.last())) by {
                    if t.contains(s.last()) {
                        let j = choose|j: int| 0 <= j < t.len() && t[j] == s.last();
                        assert(s[j] == s[s.len() - 1]);
                    }
                }
                let pt = picked(t, m);
                let ps = picked(s, m);
                assert forall|a: int, b: int| 0 <= a < ps.len() && 0 <= b < ps.len() && a != b implies ps[a] != ps[b] by {
                    if a < pt.len() && b < pt.len() {
                        assert(ps[a] == pt[a]);
                        assert(ps[b] == pt[b]);
                    } else if a < pt.len() {
                        assert(ps[a] == pt[a]);
                        assert(pt.contains(pt[a]));
                    } else {
                        assert(ps[b] == pt[b]);
                        assert(pt.contains(pt[b]));
                    }
                }
            }
        }
    }
}

/// What is kept of one kind of definition is exactly the needed names that
/// have a definition of that kind, each once.
pub proof fn law_kept_names_are_needed_once<V>(p: PoolV, keep: Set<Seq<char>>, s: Seq<Seq<char>>, m: Map<Seq<char>, V>)
    requires
        dependency_first(p, keep, s),
    ensures
        picked(s, m).no_duplicates(),
        forall|k: Seq<char>| #[trigger] picked(s, m).contains(k) <==> keep.contains(k) && m.contains_key(k),
        pick(s, m).len() == picked(s, m).len(),
{
    lemma_picked(s, m);
    assert forall|k: Seq<char>| #[trigger] picked(s, m).contains(k) <==> keep.contains(k) && m.contains_key(k) by {
        assert(s.to_set().contains(k) == s.contains(k));
    }
}

// ── Every name a definition uses is among the names it refers to ───────────

/// The expressions an expression is made of, one level down.
pub open spec fn expr_parts(e: ExprV) -> Seq<ExprV> {
    match e {
        ExprV::Call(_, args) => args,
        ExprV::MethodCall(o, _, args) => seq![*o] + args,
        ExprV::BinOp(_, l, r) => seq![*l, *r],
        ExprV::UnOp(_, x) => seq![*x],
        ExprV::StructLit(_, fs) => Seq::new(fs.len(), |i: int| fs[i].1),
        ExprV::FieldAccess(o, _) => seq![*o],
        ExprV::Index(o, i) => seq![*o, *i],
        ExprV::ArrayLit(es) => es,
        ExprV::ToGpu(x) => seq![*x],
        ExprV::ToCpu(x) => seq![*x],
        _ => seq![],
    }
}

/// The expressions a statement holds itself (not those of its blocks),
/// the parts of an assignment's target included.
pub open spec fn stmt_exprs(s: StmtV) -> Seq<ExprV> {
    match s {
        StmtV::Let { init, .. } => seq![init],
        StmtV::Assign(t, v) => seq![v] + match t {
            TargetV::Ident(_) => Seq::<ExprV>::empty(),
            TargetV::Field(o, _) => seq![*o],
            TargetV::Index(o, i) => seq![*o, *i],
        },
        StmtV::ExprStmt(e) => seq![e],
        StmtV::Return(Some(e)) => seq![e],
        StmtV::If(c, _, _) => seq![c],
        StmtV::While(c, _) => seq![c],
        StmtV::For(_, a, b, _) => seq![a, b],
        _ => seq![],
    }
}

/// The blocks a statement holds.
pub open spec fn stmt_blocks(s: StmtV) -> Seq<Seq<StmtV>> {
    match s {
        StmtV::If(_, t, Some(e)) => seq![t, e],
        StmtV::If(_, t, None) => seq![t],
        StmtV::While(_, b) => seq![b],
        StmtV::For(_, _, _, b) => seq![b],
        StmtV::GpuBlock(b) => seq![b],
        _ => seq![],
    }
}

proof fn lemma_list_names_cover(s: Seq<ExprV>, i: int)
    requires
        0 <= i < s.len(),
    ensures
        expr_names(s[i]).subset_of(list_names(s)),
    decreases s.len(),
{
    if i < s.len() - 1 {
        lemma_list_names_cover(s.drop_last(), i);
    }
}

proof fn lemma_init_names_cover(s: Seq<(Seq<char>, ExprV)>, i: int)
    requires
        0 <= i < s.len(),
    ensures
        expr_names(s[i].1).subset_of(init_names(s)),
    decreases s.len(),
{
    if i < s.len() - 1 {
        lemma_init_names_cover(s.drop_last(), i);
    }
}

/// An expression refers to every name its parts refer to, to the variable
/// it reads, to the function it calls and to the struct it builds.
pub proof fn law_expression_names_cover_parts(e: ExprV)
    ensures
        forall|i: int| 0 <= i < expr_parts(e).len() ==> expr_names(#[trigger] expr_parts(e)[i]).subset_of(expr_names(e)),
        e matches ExprV::Ident(n) ==> expr_names(e).contains(n),
        e matches ExprV::Call(c, _) ==> expr_names(e).contains(c),
        e matches ExprV::StructLit(n, _) ==> expr_names(e).contains(n),
{
    assert forall|i: int| 0 <= i < expr_parts(e).len() implies expr_names(#[trigger] expr_parts(e)[i]).subset_of(
        expr_names(e),
    ) by {
        match e {
            ExprV::Call(_, args) => lemma_list_names_cover(args, i),
            ExprV::MethodCall(o, _, args) => {
                if i > 0 {
                    assert(expr_parts(e)[i] == args[i - 1]);
                    lemma_list_names_cover(args, i - 1);
                }
            },
            ExprV::StructLit(_, fs) => lemma_init_names_cover(fs, i),
            ExprV::ArrayLit(es) => lemma_list_names_cover(es, i),
            _ => {},
        }
    }
}

/// The statements of a block each refer only to names the block refers to.
pub proof fn law_block_names_cover(b: Seq<StmtV>, i: int)
    requires
        0 <= i < b.len(),
    ensures
        stmt_names(b[i]).subset_of(block_names(b)),
    decreases b.len(),
{
    if i < b.len() - 1 {
        law_block_names_cover(b.drop_last(), i);
    }
}

/// A statement refers to every name used in the expressions it holds (a
/// loop's condition and bounds, a branch's condition, an assignment's value
/// and target) and in its blocks.
pub proof fn law_statement_names_cover_parts(s: StmtV)
    ensures
        forall|i: int| 0 <= i < stmt_exprs(s).len() ==> expr_names(#[trigger] stmt_exprs(s)[i]).subset_of(stmt_names(s)),
        forall|i: int| 0 <= i < stmt_blocks(s).len() ==> block_names(#[trigger] stmt_blocks(s)[i]).subset_of(stmt_names(s)),
{
}

/// A name used at the top level of a program, or in one of its functions,
/// that a pool defines is among the definitions the program needs.
pub proof fn law_used_names_are_needed(pool: PoolV, p: ProgramV, n: Seq<char>)
    requires
        in_pool(pool, n),
        (exists|i: int| 0 <= i < p.top_level.len() && #[trigger] stmt_names(p.top_level[i]).contains(n))
            || (exists|i: int| 0 <= i < p.fns.len() && #[trigger] fn_names(p.fns[i]).contains(n)),
    ensures
        program_names(p).contains(n),
        needed(pool, program_names(p)).contains(n),
{
    if exists|i: int| 0 <= i < p.top_level.len() && #[trigger] stmt_names(p.top_level[i]).contains(n) {
        let i = choose|i: int| 0 <= i < p.top_level.len() && #[trigger] stmt_names(p.top_level[i]).contains(n);
        law_block_names_cover(p.top_level, i);
    } else {
        let i = choose|i: int| 0 <= i < p.fns.len() && #[trigger] fn_names(p.fns[i]).contains(n);
        lemma_fns_names_cover(p.fns, i);
    }
    law_needed_closed(pool, program_names(p));
}

proof fn lemma_fns_names_cover(fs: Seq<FnV>, i: int)
    requires
        0 <= i < fs.len(),
    ensures
        fn_names(fs[i]).subset_of(fns_names(fs)),
    decreases fs.len(),
{
    if i < fs.len() - 1 {
        lemma_fns_names_cover(fs.drop_last(), i);
    }
}

/// The names of the parts of a list of expressions.
pub open spec fn parts_names(es: Seq<ExprV>) -> Set<Seq<char>>
    decreases es.len(),
{
    if es.len() == 0 {
        Set::empty()
    } else {
        parts_names(es.drop_last()).union(expr_names(es.last()))
    }
}

/// The names of a list of blocks.
pub open spec fn blocks_names(bs: Seq<Seq<StmtV>>) -> Set<Seq<char>>
    decreases bs.len(),
{
    if bs.len() == 0 {
        Set::empty()
    } else {
        blocks_names(bs.drop_last()).union(block_names(bs.last()))
    }
}

proof fn lemma_parts_names_list(es: Seq<ExprV>)
    ensures
        parts_names(es) == list_names(es),
    decreases es.len(),
{
    if es.len() > 0 {
        lemma_parts_names_list(es.drop_last());
    }
}

proof fn lemma_parts_names_inits(fs: Seq<(Seq<char>, ExprV)>)
    ensures
        parts_names(Seq::new(fs.len(), |i: int| fs[i].1)) == init_names(fs),
    decreases fs.len(),
{
    if fs.len() > 0 {
        lemma_parts_names_inits(fs.drop_last());
        assert(Seq::new(fs.len(), |i: int| fs[i].1).drop_last() =~= Seq::new(fs.drop_last().len(), |i: int| fs.drop_last()[i].1));
    }
}

proof fn lemma_parts_names_two(a: ExprV, b: ExprV)
    ensures
        parts_names(seq![a]) == expr_names(a),
        parts_names(seq![a, b]) == expr_names(a).union(expr_names(b)),
{
    assert(seq![a].drop_last() =~= Seq::<ExprV>::empty());
    assert(seq![a].last() == a);
    assert(parts_names(Seq::<ExprV>::empty()) == Set::<Seq<char>>::empty());
    assert(parts_names(seq![a]) == parts_names(seq![a].drop_last()).union(expr_names(a)));
    assert(Set::<Seq<char>>::empty().union(expr_names(a)) =~= expr_names(a));
    assert(seq![a, b].drop_last() =~= seq![a]);
    assert(seq![a, b].last() == b);
    assert(parts_names(seq![a, b]) == parts_names(seq![a, b].drop_last()).union(expr_names(b)));
}

proof fn lemma_parts_names_cons(a: ExprV, es: Seq<ExprV>)
    ensures
        parts_names(seq![a] + es) == expr_names(a).union(parts_names(es)),
    decreases es.len(),
{
    if es.len() == 0 {
        assert(seq![a] + es =~= seq![a]);
        lemma_parts_names_two(a, a);
        assert(expr_names(a).union(Set::<Seq<char>>::empty()) =~= expr_names(a));
    } else {
        lemma_parts_names_cons(a, es.drop_last());
        assert((seq![a] + es).drop_last() =~= seq![a] + es.drop_last());
        assert((seq![a] + es).last() == es.last());
        assert(expr_names(a).union(parts_names(es.drop_last())).union(expr_names(es.last())) =~= expr_names(a).union(
            parts_names(es.drop_last()).union(expr_names(es.last())),
        ));
    }
}

/// An expression refers to exactly the names of its parts, together with
/// the variable it reads, the function it calls or the struct it builds;
/// no other name.
pub proof fn law_expression_names_are_its_parts(e: ExprV)
    ensures
        expr_names(e) == parts_names(expr_parts(e)).union(match e {
            ExprV::Ident(n) => set![n],
            ExprV::Call(c, _) => set![c],
            ExprV::StructLit(n, _) => set![n],
            _ => Set::<Seq<char>>::empty(),
        }),
{
    match e {
        ExprV::Ident(n) => {
            assert(Set::<Seq<char>>::empty().union(set![n]) =~= set![n]);
        },
        ExprV::Call(c, args) => {
            lemma_parts_names_list(args);
            assert(list_names(args).union(set![c]) =~= set![c].union(list_names(args)));
        },
        ExprV::MethodCall(o, _, args) => {
            lemma_parts_names_cons(*o, args);
            lemma_parts_names_list(args);
            assert(expr_names(*o).union(list_names(args)).union(Set::<Seq<char>>::empty()) =~= expr_names(*o).union(
                list_names(args),
            ));
        },
        ExprV::StructLit(n, fs) => {
            lemma_parts_names_inits(fs);
            assert(init_names(fs).union(set![n]) =~= set![n].union(init_names(fs)));
        },
        ExprV::ArrayLit(es) => {
            lemma_parts_names_list(es);
            assert(list_names(es).union(Set::<Seq<char>>::empty()) =~= list_names(es));
        },
        ExprV::BinOp(_, l, r) => {
            lemma_parts_names_two(*l, *r);
            assert(expr_names(*l).union(expr_names(*r)).union(Set::<Seq<char>>::empty()) =~= expr_names(*l).union(
                expr_names(*r),
            ));
        },
        ExprV::Index(o, i) => {
            lemma_parts_names_two(*o, *i);
            assert(expr_names(*o).union(expr_names(*i)).union(Set::<Seq<char>>::empty()) =~= expr_names(*o).union(
                expr_names(*i),
            ));
        },
        ExprV::UnOp(_, x) => {
            lemma_parts_names_two(*x, *x);
            assert(expr_names(*x).union(Set::<Seq<char>>::empty()) =~= expr_names(*x));
        },
        ExprV::FieldAccess(x, _) => {
            lemma_parts_names_two(*x, *x);
            assert(expr_names(*x).union(Set::<Seq<char>>::empty()) =~= expr_names(*x));
        },
        ExprV::ToGpu(x) => {
            lemma_parts_names_two(*x, *x);
            assert(expr_names(*x).union(Set::<Seq<char>>::empty()) =~= expr_names(*x));
        },
        ExprV::ToCpu(x) => {
            lemma_parts_names_two(*x, *x);
            assert(expr_names(*x).union(Set::<Seq<char>>::empty()) =~= expr_names(*x));
        },
        _ => {
            assert(parts_names(expr_parts(e)) =~= Set::<Seq<char>>::empty());
            assert(Set::<Seq<char>>::empty().union(Set::<Seq<char>>::empty()) =~= Set::<Seq<char>>::empty());
        },
    }
}

/// A statement refers to exactly the names of the expressions it holds and
/// of its blocks; no other name (a `for` loop's own variable, say, is not
/// one).
pub proof fn law_statement_names_are_its_parts(s: StmtV)
    ensures
        stmt_names(s) == parts_names(stmt_exprs(s)).union(blocks_names(stmt_blocks(s))),
{
    let e: Set<Seq<char>> = Set::empty();
    assert(blocks_names(Seq::<Seq<StmtV>>::empty()) == e);
    assert(parts_names(Seq::<ExprV>::empty()) == e);
    match s {
        StmtV::Let { init, .. } => {
            lemma_parts_names_two(init, init);
            assert(expr_names(init).union(e) =~= expr_names(init));
        },
        StmtV::Assign(t, v) => {
            match t {
                TargetV::Ident(_) => {
                    assert(seq![v] + Seq::<ExprV>::empty() =~= seq![v]);
                    lemma_parts_names_two(v, v);
                    assert(expr_names(v).union(e) =~= expr_names(v));
                    assert(expr_names(v).union(e).union(e) =~= expr_names(v).union(target_names(t)));
                },
                TargetV::Field(o, _) => {
                    assert(seq![v] + seq![*o] =~= seq![v, *o]);
                    lemma_parts_names_two(v, *o);
                    assert(expr_names(v).union(expr_names(*o)).union(e) =~= expr_names(v).union(target_names(t)));
                },
                TargetV::Index(o, i) => {
                    assert(seq![v] + seq![*o, *i] =~= seq![v, *o, *i]);
                    assert(seq![v, *o, *i].drop_last() =~= seq![v, *o]);
                    lemma_parts_names_two(v, *o);
                    assert(expr_names(v).union(expr_names(*o)).union(expr_names(*i)).union(e) =~= expr_names(v).union(
                        target_names(t),
                    ));
                },
            }
        },
        StmtV::ExprStmt(x) => {
            lemma_parts_names_two(x, x);
            assert(expr_names(x).union(e) =~= expr_names(x));
        },
        StmtV::Return(Some(x)) => {
            lemma_parts_names_two(x, x);
            assert(expr_names(x).union(e) =~= expr_names(x));
        },
        StmtV::If(c, t, eb) => {
            lemma_parts_names_two(c, c);
            match eb {
                Some(b) => {
                    assert(seq![t, b].drop_last() =~= seq![t]);
                    assert(seq![t, b].last() == b);
                    assert(seq![t].drop_last() =~= Seq::<Seq<StmtV>>::empty());
                    assert(seq![t].last() == t);
                    assert(blocks_names(seq![t]) == e.union(block_names(t)));
                    assert(blocks_names(seq![t, b]) == blocks_names(seq![t]).union(block_names(b)));
                    assert(e.union(block_names(t)).union(block_names(b)) =~= block_names(t).union(block_names(b)));
                    assert(expr_names(c).union(block_names(t).union(block_names(b))) =~= expr_names(c).union(block_names(t)).union(
                        block_names(b),
                    ));
                },
                None => {
                    assert(seq![t].drop_last() =~= Seq::<Seq<StmtV>>::empty());
                    assert(seq![t].last() == t);
                    assert(blocks_names(seq![t]) == e.union(block_names(t)));
                    assert(e.union(block_names(t)) =~= block_names(t));
                    assert(expr_names(c).union(block_names(t)).union(e) =~= expr_names(c).union(block_names(t)));
                },
            }
        },
        StmtV::While(c, b) => {
            lemma_parts_names_two(c, c);
            assert(seq![b].drop_last() =~= Seq::<Seq<StmtV>>::empty());
            assert(e.union(block_names(b)) =~= block_names(b));
        },
        StmtV::For(_, a, z, b) => {
            lemma_parts_names_two(a, z);
            assert(seq![b].drop_last() =~= Seq::<Seq<StmtV>>::empty());
            assert(e.union(block_names(b)) =~= block_names(b));
        },
        StmtV::GpuBlock(b) => {
            assert(seq![b].drop_last() =~= Seq::<Seq<StmtV>>::empty());
            assert(e.union(block_names(b)) =~= block_names(b));
            assert(e.union(block_names(b)) =~= block_names(b));
        },
        _ => {
            assert(stmt_exprs(s) =~= Seq::<ExprV>::empty());
            assert(stmt_blocks(s) =~= Seq::<Seq<StmtV>>::empty());
            assert(stmt_names(s) =~= e);
            assert(e.union(e) =~= e);
        },
    }
}

} // verus!
