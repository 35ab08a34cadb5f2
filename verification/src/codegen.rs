//! The code generator: turns a checked program into LLVM IR text.
//!
//! The IR is built as text, line by line. Registers (`%rN`), labels (`lblN`)
//! and variable slots (`%name.sN`) are numbered by counters that restart for
//! every function; string literals are collected and written out as private
//! constants at the end.
//!
//! Number literals with a fractional part are kept as their decimal text. The
//! renderings of their binary value that the IR needs (seventeen places, and
//! seventeen places in scientific notation) and the three-place rendering of a
//! placement fraction are registered with the generator beforehand; a text
//! with no registered rendering is written as it stands in the source.
use vstd::prelude::*;
use crate::ast::{
    Type, Ty, HwTarget, HwAnnotation, TypeAnnotation, annotation_type, BinOp, UnOp, Expr, Stmt,
    AssignTarget, FnDef, Program, Param, StructDef, FieldDef,
};
use crate::semantic::{FnSig, types_view, fields_view};
use crate::table::Table;
use crate::text::{decimal, lemma_decimal_injective, int_text, owned, text_is, same_text, usize_text, i64_text, succ_text, copy_string, chars_of, push_decimal};

verus! {

/// The generator's state as a mathematical value.
#[verifier::ext_equal]
pub struct Cg {
    /// The IR written so far.
    pub out: Seq<char>,
    /// Last register number handed out in the current function.
    pub reg: nat,
    /// Last variable slot number handed out in the current function.
    pub slot: nat,
    /// Last label number handed out in the current function.
    pub label: nat,
    /// Interned string literals: escaped text and byte count.
    pub lits: Seq<(Seq<char>, nat)>,
    /// Variable scopes (innermost last): name to (slot, type).
    pub vars: Seq<Map<Seq<char>, (Seq<char>, Ty)>>,
    /// Function signatures.
    pub fns: Map<Seq<char>, (Seq<Ty>, Ty)>,
    /// Struct layouts: field names and types in order.
    pub structs: Map<Seq<char>, Seq<(Seq<char>, Ty)>>,
    /// Struct names in the order they were registered.
    pub struct_order: Seq<Seq<char>>,
    /// Return type of the function being generated.
    pub ret: Ty,
    /// Targets of `break`, innermost last.
    pub breaks: Seq<Seq<char>>,
    /// Targets of `continue`, innermost last.
    pub conts: Seq<Seq<char>>,
    /// Top-level variables held in IR globals.
    pub globals: Set<Seq<char>>,
    /// Registered renderings of fractional literals: (seventeen places,
    /// scientific with seventeen places, three places).
    pub floats: Map<Seq<char>, (Seq<char>, Seq<char>, Seq<char>)>,
}

// ── Primitive steps ─────────────────────────────────────────────────────────

pub open spec fn emit(c: Cg, line: Seq<char>) -> Cg {
    Cg { out: c.out + line + "\n"@, ..c }
}

pub open spec fn reg_name(n: nat) -> Seq<char> {
    "%r"@ + decimal(n)
}

pub open spec fn label_name(n: nat) -> Seq<char> {
    "lbl"@ + decimal(n)
}

pub open spec fn slot_name(var: Seq<char>, n: nat) -> Seq<char> {
    "%"@ + var + ".s"@ + decimal(n)
}

pub open spec fn fresh_reg(c: Cg) -> (Cg, Seq<char>) {
    (Cg { reg: c.reg + 1, ..c }, reg_name(c.reg + 1))
}

pub open spec fn fresh_label(c: Cg) -> (Cg, Seq<char>) {
    (Cg { label: c.label + 1, ..c }, label_name(c.label + 1))
}

pub open spec fn fresh_slot(c: Cg, var: Seq<char>) -> (Cg, Seq<char>) {
    (Cg { slot: c.slot + 1, ..c }, slot_name(var, c.slot + 1))
}

pub open spec fn push_scope(c: Cg) -> Cg {
    Cg { vars: c.vars.push(Map::empty()), ..c }
}

pub open spec fn pop_scope(c: Cg) -> Cg {
    Cg { vars: drop_top(c.vars), ..c }
}

/// Removing the innermost element; nothing happens to an empty stack.
pub open spec fn drop_top<A>(s: Seq<A>) -> Seq<A> {
    if s.len() > 0 {
        s.drop_last()
    } else {
        s
    }
}

/// Declares in the innermost scope; with no scope nothing is declared.
pub open spec fn declare(c: Cg, name: Seq<char>, v: (Seq<char>, Ty)) -> Cg {
    if c.vars.len() > 0 {
        Cg { vars: c.vars.update(c.vars.len() - 1, c.vars.last().insert(name, v)), ..c }
    } else {
        c
    }
}

/// The innermost declaration of a variable.
pub open spec fn lookup_slot(vars: Seq<Map<Seq<char>, (Seq<char>, Ty)>>, k: Seq<char>) -> Option<(Seq<char>, Ty)>
    decreases vars.len(),
{
    if vars.len() == 0 {
        None
    } else if vars.last().contains_key(k) {
        Some(vars.last()[k])
    } else {
        lookup_slot(vars.drop_last(), k)
    }
}

/// The IR type that holds a value of a type.
pub open spec fn llvm_ty(t: Ty) -> Seq<char> {
    match t {
        Ty::Int64 | Ty::Bool => "i64"@,
        Ty::Float64 => "double"@,
        Ty::Str | Ty::Array(_) | Ty::Tensor(_) | Ty::Model(_) | Ty::Struct(_) => "ptr"@,
        Ty::Void | Ty::Unknown => "void"@,
    }
}

/// Values of these types are pointers; array elements hold them as integers.
pub open spec fn is_ptr_ty(t: Ty) -> bool {
    t is Str || t is Array || t is Struct || t is Tensor || t is Model
}

pub open spec fn ptr_to_i64(c: Cg, v: Seq<char>, t: Ty) -> (Cg, Seq<char>) {
    if is_ptr_ty(t) {
        let (c1, r) = fresh_reg(c);
        (emit(c1, "  "@ + r + " = ptrtoint ptr "@ + v + " to i64"@), r)
    } else {
        (c, v)
    }
}

pub open spec fn i64_to_elem(c: Cg, v: Seq<char>, t: Ty) -> (Cg, Seq<char>) {
    if is_ptr_ty(t) {
        let (c1, r) = fresh_reg(c);
        (emit(c1, "  "@ + r + " = inttoptr i64 "@ + v + " to ptr"@), r)
    } else {
        (c, v)
    }
}

/// Branch condition: the value's low bit.
pub open spec fn coerce_to_i1(c: Cg, v: Seq<char>) -> (Cg, Seq<char>) {
    let (c1, r) = fresh_reg(c);
    (emit(c1, "  "@ + r + " = trunc i64 "@ + v + " to i1"@), r)
}

/// Position of the first field of the given name.
pub open spec fn field_pos(fs: Seq<(Seq<char>, Ty)>, k: Seq<char>) -> Option<nat>
    decreases fs.len(),
{
    if fs.len() == 0 {
        None
    } else if fs[0].0 == k {
        Some(0)
    } else {
        match field_pos(fs.drop_first(), k) {
            Some(i) => Some(i + 1),
            None => None,
        }
    }
}

// ── String literals ─────────────────────────────────────────────────────────

/// A character as written inside an IR string constant.
pub open spec fn escape_char(ch: char) -> Seq<char> {
    if ch == '\\' {
        "\\5C"@
    } else if ch == '\n' {
        "\\0A"@
    } else if ch == '\t' {
        "\\09"@
    } else if ch == '"' {
        "\\22"@
    } else {
        seq![ch]
    }
}

pub open spec fn escape(s: Seq<char>) -> Seq<char>
    decreases s.len(),
{
    if s.len() == 0 {
        seq![]
    } else {
        escape(s.drop_last()) + escape_char(s.last())
    }
}

/// Bytes a constant occupies, counting a three-byte `\XX` escape as one.
pub open spec fn raw_count_from(b: Seq<u8>, i: nat) -> nat
    decreases b.len() - i,
{
    if i >= b.len() {
        0
    } else if b[i as int] == 92u8 && i + 2 < b.len() {
        1 + raw_count_from(b, i + 3)
    } else {
        1 + raw_count_from(b, i + 1)
    }
}

pub open spec fn raw_count(escaped: Seq<char>) -> nat {
    raw_count_from(vstd::utf8::encode_utf8(escaped), 0)
}

/// Interns a literal: records its escaped text and byte count; gives its index.
pub open spec fn intern(c: Cg, s: Seq<char>) -> (Cg, nat) {
    let esc = escape(s);
    (Cg { lits: c.lits.push((esc, raw_count(esc))), ..c }, c.lits.len())
}

// ── Fractional literals ─────────────────────────────────────────────────────

pub open spec fn float_fixed(c: Cg, t: Seq<char>) -> Seq<char> {
    if c.floats.contains_key(t) {
        c.floats[t].0
    } else {
        t
    }
}

pub open spec fn float_sci(c: Cg, t: Seq<char>) -> Seq<char> {
    if c.floats.contains_key(t) {
        c.floats[t].1
    } else {
        t
    }
}

pub open spec fn float_places3(c: Cg, t: Seq<char>) -> Seq<char> {
    if c.floats.contains_key(t) {
        c.floats[t].2
    } else {
        t
    }
}

/// The placement comment written above a function's definition.
pub open spec fn ir_comment_text(c: Cg, hw: HwAnnotation) -> Seq<char> {
    match hw {
        HwAnnotation::Cpu => "; placement=cpu"@,
        HwAnnotation::Gpu => "; placement=gpu"@,
        HwAnnotation::CpuFrac(f) => "; placement=cpu cores="@ + float_places3(c, f@),
        HwAnnotation::GpuFrac(f) => "; placement=gpu alloc="@ + float_places3(c, f@),
    }
}

// ── Budget of counters ──────────────────────────────────────────────────────

/// Room for `k` more registers, labels and slots.
pub open spec fn fits(c: Cg, k: nat) -> bool {
    &&& c.reg + k <= usize::MAX
    &&& c.label + k <= usize::MAX
    &&& c.slot + k <= usize::MAX
}

/// `d` used at most `k` of each counter after `c`, and the program's
/// structs are unchanged.
pub open spec fn within(c: Cg, d: Cg, k: nat) -> bool {
    &&& c.reg <= d.reg <= c.reg + k
    &&& c.label <= d.label <= c.label + k
    &&& c.slot <= d.slot <= c.slot + k
    &&& d.structs == c.structs
}

/// Counter budget of an expression: four per node.
pub open spec fn ecost(e: &Expr) -> nat
    decreases e, 1nat,
{
    4 + match e {
        Expr::BinOp { lhs, rhs, .. } => ecost(lhs) + ecost(rhs),
        Expr::UnOp { expr, .. } => ecost(expr),
        Expr::Call { args, .. } => ecost_list(args@),
        Expr::MethodCall { obj, args, .. } => ecost(obj) + ecost_list(args@),
        Expr::StructLit { fields, .. } => ecost_fields(fields@),
        Expr::FieldAccess { obj, .. } => ecost(obj),
        Expr::Index { obj, idx } => ecost(obj) + ecost(idx),
        Expr::ArrayLit(es) => ecost_list(es@) + es@.len(),
        Expr::ToGpu(x) => ecost(x),
        Expr::ToCpu(x) => ecost(x),
        _ => 0,
    }
}

pub open spec fn ecost_list(s: Seq<Expr>) -> nat
    decreases s, 0nat,
{
    if s.len() == 0 {
        0
    } else {
        ecost_list(s.drop_last()) + ecost(&s.last())
    }
}

pub open spec fn ecost_fields(s: Seq<(String, Expr)>) -> nat
    decreases s, 0nat,
{
    if s.len() == 0 {
        0
    } else {
        ecost_fields(s.drop_last()) + ecost(&s.last().1) + 1
    }
}

/// Counter budget of the expressions of an assignment target.
pub open spec fn target_cost(t: &AssignTarget) -> nat {
    match t {
        AssignTarget::Ident(_) => 0,
        AssignTarget::Field(obj, _) => ecost(obj),
        AssignTarget::Index(obj, idx) => ecost(obj) + ecost(idx),
    }
}

/// Counter budget of a statement.
pub open spec fn scost(s: &Stmt) -> nat
    decreases s, 1nat,
{
    8 + match s {
        Stmt::Let { init, .. } => ecost(init),
        Stmt::Assign { target, value } => ecost(value) + target_cost(target),
        Stmt::ExprStmt(e) => ecost(e),
        Stmt::Return(x) => match x {
            Some(e) => ecost(e),
            None => 0,
        },
        Stmt::If { cond, then_block, else_block } => ecost(cond) + bcost(then_block@) + match else_block {
            Some(b) => bcost(b@),
            None => 0,
        },
        Stmt::While { cond, body } => ecost(cond) + bcost(body@),
        Stmt::For { start, end, body, .. } => ecost(start) + ecost(end) + bcost(body@),
        Stmt::GpuBlock(b) => bcost(b@),
        _ => 0,
    }
}

pub open spec fn bcost(s: Seq<Stmt>) -> nat
    decreases s, 0nat,
{
    if s.len() == 0 {
        0
    } else {
        bcost(s.drop_last()) + scost(&s.last())
    }
}

// ── Calls with enough arguments ─────────────────────────────────────────────

/// Every call in the expression passes at least as many arguments as the
/// generator reads (`args[0]` of a built-in, the pushed value of `.push`).
pub open spec fn args_ok(e: &Expr) -> bool
    decreases e, 1nat,
{
    match e {
        Expr::BinOp { lhs, rhs, .. } => args_ok(lhs) && args_ok(rhs),
        Expr::UnOp { expr, .. } => args_ok(expr),
        Expr::Call { callee, args } => args@.len() >= call_arity(callee@) && args_ok_list(args@),
        Expr::MethodCall { obj, method, args } => (method@ == "push"@ ==> args@.len() >= 1) && args_ok(obj)
            && args_ok_list(args@),
        Expr::StructLit { fields, .. } => args_ok_fields(fields@),
        Expr::FieldAccess { obj, .. } => args_ok(obj),
        Expr::Index { obj, idx } => args_ok(obj) && args_ok(idx),
        Expr::ArrayLit(es) => args_ok_list(es@),
        Expr::ToGpu(x) => args_ok(x),
        Expr::ToCpu(x) => args_ok(x),
        _ => true,
    }
}

pub open spec fn args_ok_list(s: Seq<Expr>) -> bool
    decreases s, 0nat,
{
    if s.len() == 0 {
        true
    } else {
        args_ok_list(s.drop_last()) && args_ok(&s.last())
    }
}

pub open spec fn args_ok_fields(s: Seq<(String, Expr)>) -> bool
    decreases s, 0nat,
{
    if s.len() == 0 {
        true
    } else {
        args_ok_fields(s.drop_last()) && args_ok(&s.last().1)
    }
}

pub open spec fn target_args_ok(t: &AssignTarget) -> bool {
    match t {
        AssignTarget::Ident(_) => true,
        AssignTarget::Field(obj, _) => args_ok(obj),
        AssignTarget::Index(obj, idx) => args_ok(obj) && args_ok(idx),
    }
}

pub open spec fn stmt_args_ok(s: &Stmt) -> bool
    decreases s, 1nat,
{
    match s {
        Stmt::Let { init, .. } => args_ok(init),
        Stmt::Assign { target, value } => args_ok(value) && target_args_ok(target),
        Stmt::ExprStmt(e) => args_ok(e),
        Stmt::Return(x) => match x {
            Some(e) => args_ok(e),
            None => true,
        },
        Stmt::If { cond, then_block, else_block } => args_ok(cond) && block_args_ok(then_block@) && match else_block {
            Some(b) => block_args_ok(b@),
            None => true,
        },
        Stmt::While { cond, body } => args_ok(cond) && block_args_ok(body@),
        Stmt::For { start, end, body, .. } => args_ok(start) && args_ok(end) && block_args_ok(body@),
        Stmt::GpuBlock(b) => block_args_ok(b@),
        _ => true,
    }
}

pub open spec fn block_args_ok(s: Seq<Stmt>) -> bool
    decreases s, 0nat,
{
    if s.len() == 0 {
        true
    } else {
        block_args_ok(s.drop_last()) && stmt_args_ok(&s.last())
    }
}

/// Struct layouts whose byte size fits in an `i64`.
pub open spec fn layouts_fit(m: Map<Seq<char>, Seq<(Seq<char>, Ty)>>) -> bool {
    forall|k: Seq<char>| #[trigger] m.contains_key(k) ==> m[k].len() * 8 <= i64::MAX
}

/// Start of every module: format strings and external declarations.
pub const PRELUDE: &'static str = "; Ionic compiled output — LLVM 15+ opaque pointers\n; Generated by ionic v0.1.0\n\n@fmt_int   = private constant [6 x i8]  c\"%lld\\0A\\00\"\n@fmt_float = private constant [5 x i8]  c\"%lf\\0A\\00\"\n@fmt_str   = private constant [4 x i8]  c\"%s\\0A\\00\"\n@fmt_bool_t = private constant [6 x i8] c\"true\\0A\\00\"\n@fmt_bool_f = private constant [7 x i8] c\"false\\0A\\00\"\n\ndeclare i32  @printf(ptr, ...)\ndeclare i32  @puts(ptr)\ndeclare ptr  @malloc(i64)\ndeclare void @free(ptr)\ndeclare ptr  @realloc(ptr, i64)\ndeclare ptr  @memcpy(ptr, ptr, i64)\ndeclare i64  @strlen(ptr)\ndeclare ptr  @strcat(ptr, ptr)\ndeclare ptr  @strcpy(ptr, ptr)\ndeclare i32  @strcmp(ptr, ptr)\ndeclare ptr  @strdup(ptr)\ndeclare i32  @sprintf(ptr, ptr, ...)\ndeclare i32  @snprintf(ptr, i64, ptr, ...)\ndeclare double @sqrt(double)\ndeclare double @fabs(double)\ndeclare void @exit(i32)\ndeclare ptr  @fopen(ptr, ptr)\ndeclare i32  @fclose(ptr)\ndeclare ptr  @fgets(ptr, i32, ptr)\ndeclare i32  @fputs(ptr, ptr)\ndeclare i32  @feof(ptr)\ndeclare i32  @fseek(ptr, i64, i32)\ndeclare i64  @ftell(ptr)\ndeclare i64  @fread(ptr, i64, i64, ptr)\ndeclare ptr  @ionic_load_model(ptr)\ndeclare ptr  @ionic_model_forward(ptr, ptr)\ndeclare void @ionic_model_free(ptr)\ndeclare ptr  @ionic_piper_forward(ptr, ptr, double, double, double)\ndeclare void @ionic_write_wav(ptr, ptr, i64, i64)\ndeclare ptr  @ionic_gguf_generate(ptr, ptr, i64)\ndeclare void @ionic_gguf_set_temp(ptr, double)\ndeclare void @ionic_gguf_set_top_p(ptr, double)\ndeclare ptr  @ionic_fgets_stdin(ptr, i32)\ndeclare void @ionic_runtime_init(i32, ptr)\ndeclare ptr  @ionic_get_arg(i64)\ndeclare i64  @ionic_cpu_core_count()\ndeclare i32  @access(ptr, i32)\n\n";

/// The runtime helpers every module defines: a growable array (a fixed
/// header holding length, capacity and data pointer), string concatenation,
/// number and character conversion to strings, and whole-file reading.
pub const RUNTIME_HELPERS: &'static str = "; --- Ionic runtime: dynamic array ---\ndefine ptr @ionic_array_new(i64 %elem_size, i64 %cap) {\nentry:\n  %hdr = call ptr @malloc(i64 24)\n  %data_size = mul i64 %elem_size, %cap\n  %data = call ptr @malloc(i64 %data_size)\n  store i64 0, ptr %hdr, align 8\n  %cap_f = getelementptr i64, ptr %hdr, i64 1\n  store i64 %cap, ptr %cap_f, align 8\n  %dat_f = getelementptr i64, ptr %hdr, i64 2\n  store ptr %data, ptr %dat_f, align 8\n  ret ptr %hdr\n}\n\ndefine i64 @ionic_array_len(ptr %arr) {\nentry:\n  %len = load i64, ptr %arr, align 8\n  ret i64 %len\n}\n\ndefine i64 @ionic_array_get(ptr %arr, i64 %idx) {\nentry:\n  %dat_f = getelementptr i64, ptr %arr, i64 2\n  %dp = load ptr, ptr %dat_f, align 8\n  %ep = getelementptr i64, ptr %dp, i64 %idx\n  %val = load i64, ptr %ep, align 8\n  ret i64 %val\n}\n\ndefine void @ionic_array_set(ptr %arr, i64 %idx, i64 %val) {\nentry:\n  %dat_f = getelementptr i64, ptr %arr, i64 2\n  %dp = load ptr, ptr %dat_f, align 8\n  %ep = getelementptr i64, ptr %dp, i64 %idx\n  store i64 %val, ptr %ep, align 8\n  ret void\n}\n\ndefine void @ionic_array_push(ptr %arr, i64 %val) {\nentry:\n  %len     = load i64, ptr %arr, align 8\n  %cap_f   = getelementptr i64, ptr %arr, i64 1\n  %cap     = load i64, ptr %cap_f, align 8\n  %dat_f   = getelementptr i64, ptr %arr, i64 2\n  %dp      = load ptr, ptr %dat_f, align 8\n  %full    = icmp sge i64 %len, %cap\n  br i1 %full, label %grow, label %store\ngrow:\n  %new_cap  = mul i64 %cap, 2\n  %new_sz   = mul i64 %new_cap, 8\n  %new_dp   = call ptr @realloc(ptr %dp, i64 %new_sz)\n  store i64 %new_cap, ptr %cap_f, align 8\n  store ptr %new_dp, ptr %dat_f, align 8\n  br label %store\nstore:\n  %cur_dp  = load ptr, ptr %dat_f, align 8\n  %ep      = getelementptr i64, ptr %cur_dp, i64 %len\n  store i64 %val, ptr %ep, align 8\n  %nlen    = add i64 %len, 1\n  store i64 %nlen, ptr %arr, align 8\n  ret void\n}\n\ndefine ptr @ionic_str_concat(ptr %a, ptr %b) {\nentry:\n  %la = call i64 @strlen(ptr %a)\n  %lb = call i64 @strlen(ptr %b)\n  %tot1 = add i64 %la, %lb\n  %tot = add i64 %tot1, 1\n  %buf = call ptr @malloc(i64 %tot)\n  call ptr @strcpy(ptr %buf, ptr %a)\n  call ptr @strcat(ptr %buf, ptr %b)\n  ret ptr %buf\n}\n\n@fmt_lld = private constant [5 x i8] c\"%lld\\00\"\ndefine ptr @ionic_int64_to_str(i64 %n) {\nentry:\n  %buf = call ptr @malloc(i64 32)\n  call i32 (ptr, ptr, ...) @sprintf(ptr %buf, ptr @fmt_lld, i64 %n)\n  ret ptr %buf\n}\n\n@fmt_lf = private constant [4 x i8] c\"%lf\\00\"\ndefine ptr @ionic_float64_to_str(double %f) {\nentry:\n  %buf = call ptr @malloc(i64 64)\n  call i32 (ptr, ptr, ...) @sprintf(ptr %buf, ptr @fmt_lf, double %f)\n  ret ptr %buf\n}\n\ndefine ptr @ionic_char_to_str(i64 %c) {\nentry:\n  %buf = call ptr @malloc(i64 2)\n  %c8 = trunc i64 %c to i8\n  store i8 %c8, ptr %buf, align 1\n  %nul_ptr = getelementptr i8, ptr %buf, i64 1\n  store i8 0, ptr %nul_ptr, align 1\n  ret ptr %buf\n}\n\n@mode_r = private constant [2 x i8] c\"r\\00\"\n@mode_w = private constant [2 x i8] c\"w\\00\"\ndefine ptr @ionic_file_read(ptr %path) {\nentry:\n  %fp = call ptr @fopen(ptr %path, ptr @mode_r)\n  call i32 @fseek(ptr %fp, i64 0, i32 2)\n  %fsz = call i64 @ftell(ptr %fp)\n  call i32 @fseek(ptr %fp, i64 0, i32 0)\n  %bufsz = add i64 %fsz, 1\n  %buf = call ptr @malloc(i64 %bufsz)\n  call i64 @fread(ptr %buf, i64 1, i64 %fsz, ptr %fp)\n  %end = getelementptr i8, ptr %buf, i64 %fsz\n  store i8 0, ptr %end, align 1\n  call i32 @fclose(ptr %fp)\n  ret ptr %buf\n}\n\n";

// ── Expressions ─────────────────────────────────────────────────────────────

pub open spec fn is_cmp(op: BinOp) -> bool {
    op is EqEq || op is NotEq || op is Lt || op is Gt || op is LtEq || op is GtEq
}

/// The comparison instruction (without its result register).
pub open spec fn cmp_instr(op: BinOp, is_float: bool, ll: Seq<char>, lv: Seq<char>, rv: Seq<char>) -> Seq<char> {
    let mnemonic = match op {
        BinOp::EqEq => if is_float { "fcmp oeq "@ } else { "icmp eq "@ },
        BinOp::NotEq => if is_float { "fcmp une "@ } else { "icmp ne "@ },
        BinOp::Lt => if is_float { "fcmp olt "@ } else { "icmp slt "@ },
        BinOp::Gt => if is_float { "fcmp ogt "@ } else { "icmp sgt "@ },
        BinOp::LtEq => if is_float { "fcmp ole "@ } else { "icmp sle "@ },
        _ => if is_float { "fcmp oge "@ } else { "icmp sge "@ },
    };
    mnemonic + ll + " "@ + lv + ", "@ + rv
}

/// The arithmetic or logic instruction (without its result register).
pub open spec fn arith_instr(op: BinOp, is_float: bool, ll: Seq<char>, lv: Seq<char>, rv: Seq<char>) -> Seq<char> {
    match op {
        BinOp::And => "and i64 "@ + lv + ", "@ + rv,
        BinOp::Or => "or i64 "@ + lv + ", "@ + rv,
        _ => {
            let mnemonic = match op {
                BinOp::Add => if is_float { "fadd "@ } else { "add "@ },
                BinOp::Sub => if is_float { "fsub "@ } else { "sub "@ },
                BinOp::Mul => if is_float { "fmul "@ } else { "mul "@ },
                BinOp::Div => if is_float { "fdiv "@ } else { "sdiv "@ },
                _ => if is_float { "frem "@ } else { "srem "@ },
            };
            mnemonic + ll + " "@ + lv + ", "@ + rv
        },
    }
}

pub open spec fn arith_ty(op: BinOp, lt: Ty) -> Ty {
    if op is And || op is Or {
        Ty::Int64
    } else {
        lt
    }
}

pub open spec fn gen_binop(c: Cg, op: BinOp, lv: Seq<char>, lt: Ty, rv: Seq<char>) -> (Cg, Seq<char>, Ty) {
    let (c1, reg) = fresh_reg(c);
    let f = lt == Ty::Float64;
    let ll = llvm_ty(lt);
    if is_cmp(op) {
        let (c2, i1) = fresh_reg(c1);
        let c3 = emit(c2, "  "@ + i1 + " = "@ + cmp_instr(op, f, ll, lv, rv));
        let c4 = emit(c3, "  "@ + reg + " = zext i1 "@ + i1 + " to i64"@);
        (c4, reg, Ty::Int64)
    } else {
        (emit(c1, "  "@ + reg + " = "@ + arith_instr(op, f, ll, lv, rv)), reg, arith_ty(op, lt))
    }
}

pub open spec fn gen_unop(c: Cg, op: UnOp, v: Seq<char>, t: Ty) -> (Cg, Seq<char>, Ty) {
    let (c1, reg) = fresh_reg(c);
    match op {
        UnOp::Neg => if t == Ty::Float64 {
            (emit(c1, "  "@ + reg + " = fneg double "@ + v), reg, t)
        } else {
            (emit(c1, "  "@ + reg + " = sub i64 0, "@ + v), reg, t)
        },
        UnOp::Not => (emit(c1, "  "@ + reg + " = xor i64 "@ + v + ", 1"@), reg, Ty::Int64),
    }
}

pub open spec fn gen_ident(c: Cg, name: Seq<char>) -> (Cg, Seq<char>, Ty) {
    match lookup_slot(c.vars, name) {
        Some((slot, t)) => if t is Void || t is Unknown {
            (c, "0"@, Ty::Unknown)
        } else {
            let (c1, reg) = fresh_reg(c);
            (emit(c1, "  "@ + reg + " = load "@ + llvm_ty(t) + ", ptr "@ + slot + ", align 8"@), reg, t)
        },
        None => (c, "0 ; undef:"@ + name, Ty::Unknown),
    }
}

pub open spec fn gen_string_lit(c: Cg, s: Seq<char>) -> (Cg, Seq<char>, Ty) {
    let (c1, idx) = intern(c, s);
    let bc = c1.lits[idx as int].1;
    let (c2, reg) = fresh_reg(c1);
    (
        emit(c2, "  "@ + reg + " = getelementptr ["@ + decimal(bc + 1) + " x i8], ptr @str"@ + decimal(idx)
            + ", i32 0, i32 0"@),
        reg,
        Ty::Str,
    )
}

/// A method call on a value `ov` of type `ot`, given the argument values.
pub open spec fn gen_method(c: Cg, ov: Seq<char>, ot: Ty, m: Seq<char>, a: Seq<(Seq<char>, Ty)>) -> (Cg, Seq<char>, Ty) {
    if ot is Array && m == "len"@ {
        let (c1, r) = fresh_reg(c);
        (emit(c1, "  "@ + r + " = call i64 @ionic_array_len(ptr "@ + ov + ")"@), r, Ty::Int64)
    } else if ot is Array && m == "push"@ {
        let (c1, iv) = ptr_to_i64(c, a[0].0, a[0].1);
        (emit(c1, "  call void @ionic_array_push(ptr "@ + ov + ", i64 "@ + iv + ")"@), "0"@, Ty::Void)
    } else if ot is Str && m == "len"@ {
        let (c1, r) = fresh_reg(c);
        (emit(c1, "  "@ + r + " = call i64 @strlen(ptr "@ + ov + ")"@), r, Ty::Int64)
    } else if ot is Model && m == "forward"@ {
        let tv = if a.len() > 0 {
            a[0].0
        } else {
            "null"@
        };
        let (c1, r) = fresh_reg(c);
        (
            emit(c1, "  "@ + r + " = call ptr @ionic_model_forward(ptr "@ + ov + ", ptr "@ + tv + ")"@),
            r,
            Ty::Tensor(ot->Model_0),
        )
    } else if ot is Model && m == "to_gpu"@ {
        (emit(c, "  ; model.to_gpu() — stub: Phase 1 returns same handle"@), ov, Ty::Model(HwTarget::Gpu))
    } else if ot is Model && m == "to_cpu"@ {
        (emit(c, "  ; model.to_cpu() — stub"@), ov, Ty::Model(HwTarget::Cpu))
    } else {
        let (c1, r) = fresh_reg(c);
        (emit(c1, "  "@ + r + " = add i64 0, 0 ; stub method ."@ + m), r, Ty::Int64)
    }
}

/// `obj.field`: the length of an array or string, or a struct field.
pub open spec fn gen_field(c: Cg, ov: Seq<char>, ot: Ty, field: Seq<char>) -> (Cg, Seq<char>, Ty) {
    if field == "len"@ && ot is Array {
        let (c1, r) = fresh_reg(c);
        (emit(c1, "  "@ + r + " = call i64 @ionic_array_len(ptr "@ + ov + ")"@), r, Ty::Int64)
    } else if field == "len"@ && ot is Str {
        let (c1, r) = fresh_reg(c);
        (emit(c1, "  "@ + r + " = call i64 @strlen(ptr "@ + ov + ")"@), r, Ty::Int64)
    } else if ot is Struct && c.structs.contains_key(ot->Struct_0) && field_pos(
        c.structs[ot->Struct_0],
        field,
    ) is Some {
        let layout = c.structs[ot->Struct_0];
        let idx = field_pos(layout, field)->0;
        let ft = layout[idx as int].1;
        let (c1, gep) = fresh_reg(c);
        let (c2, reg) = fresh_reg(c1);
        let c3 = emit(c2, "  "@ + gep + " = getelementptr i64, ptr "@ + ov + ", i64 "@ + decimal(idx));
        (emit(c3, "  "@ + reg + " = load "@ + llvm_ty(ft) + ", ptr "@ + gep + ", align 8"@), reg, ft)
    } else {
        (c, "0"@, Ty::Unknown)
    }
}

pub open spec fn index_elem_ty(ot: Ty) -> Ty {
    match ot {
        Ty::Array(inner) => *inner,
        Ty::Str => Ty::Int64,
        _ => Ty::Unknown,
    }
}

pub open spec fn gen_index(c: Cg, ov: Seq<char>, ot: Ty, iv: Seq<char>) -> (Cg, Seq<char>, Ty) {
    let et = index_elem_ty(ot);
    let (c1, raw) = fresh_reg(c);
    let c2 = emit(c1, "  "@ + raw + " = call i64 @ionic_array_get(ptr "@ + ov + ", i64 "@ + iv + ")"@);
    let (c3, reg) = i64_to_elem(c2, raw, et);
    (c3, reg, et)
}

/// Capacity of a new array literal.
pub open spec fn array_cap(n: nat) -> i64 {
    (if n >= 8 {
        n
    } else {
        8
    }) as i64
}

pub open spec fn print_val(c: Cg, v: Seq<char>, t: Ty) -> Cg {
    match t {
        Ty::Float64 => emit(c, "  call i32 (ptr, ...) @printf(ptr @fmt_float, double "@ + v + ")"@),
        Ty::Str => emit(c, "  call i32 (ptr, ...) @printf(ptr @fmt_str, ptr "@ + v + ")"@),
        _ => emit(c, "  call i32 (ptr, ...) @printf(ptr @fmt_int, i64 "@ + v + ")"@),
    }
}

pub open spec fn print_vals(c: Cg, a: Seq<(Seq<char>, Ty)>) -> Cg
    decreases a.len(),
{
    if a.len() == 0 {
        c
    } else {
        let c1 = print_vals(c, a.drop_last());
        print_val(c1, a.last().0, a.last().1)
    }
}

/// `type value` pairs of a call to a user function, comma separated.
pub open spec fn args_ir(a: Seq<(Seq<char>, Ty)>) -> Seq<char>
    decreases a.len(),
{
    if a.len() == 0 {
        seq![]
    } else if a.len() == 1 {
        llvm_ty(a[0].1) + " "@ + a[0].0
    } else {
        args_ir(a.drop_last()) + ", "@ + llvm_ty(a.last().1) + " "@ + a.last().0
    }
}

pub open spec fn gen_user_call(c: Cg, n: Seq<char>, a: Seq<(Seq<char>, Ty)>) -> (Cg, Seq<char>, Ty) {
    let rt = if c.fns.contains_key(n) {
        c.fns[n].1
    } else {
        Ty::Void
    };
    if rt == Ty::Void {
        (emit(c, "  call void @"@ + n + "("@ + args_ir(a) + ")"@), "0"@, Ty::Void)
    } else {
        let (c1, r) = fresh_reg(c);
        (emit(c1, "  "@ + r + " = call "@ + llvm_ty(rt) + " @"@ + n + "("@ + args_ir(a) + ")"@), r, rt)
    }
}

/// A call of `n` with the argument values `a`.
pub open spec fn gen_call(c: Cg, n: Seq<char>, a: Seq<(Seq<char>, Ty)>) -> (Cg, Seq<char>, Ty) {
    if n == "print"@ || n == "println"@ {
        (print_vals(c, a), "0"@, Ty::Void)
    } else if n == "len"@ {
        let (c1, r) = fresh_reg(c);
        let line = match a[0].1 {
            Ty::Array(_) => "  "@ + r + " = call i64 @ionic_array_len(ptr "@ + a[0].0 + ")"@,
            Ty::Str => "  "@ + r + " = call i64 @strlen(ptr "@ + a[0].0 + ")"@,
            _ => "  "@ + r + " = add i64 0, 0 ; len unsupported type"@,
        };
        (emit(c1, line), r, Ty::Int64)
    } else if n == "push"@ {
        let (c1, iv) = ptr_to_i64(c, a[1].0, a[1].1);
        (emit(c1, "  call void @ionic_array_push(ptr "@ + a[0].0 + ", i64 "@ + iv + ")"@), "0"@, Ty::Void)
    } else if in_call_group_1(n) {
        gen_call_group_1(c, n, a)
    } else if in_call_group_2(n) {
        gen_call_group_2(c, n, a)
    } else if in_call_group_3(n) {
        gen_call_group_3(c, n, a)
    } else if in_call_group_4(n) {
        gen_call_group_4(c, n, a)
    } else {
        gen_user_call(c, n, a)
    }
}

/// Generates an expression: the new state, the value (a register, a constant
/// or a global), and its type.
pub open spec fn gen_expr(c: Cg, e: &Expr) -> (Cg, Seq<char>, Ty)
    decreases e, 1nat,
{
    match e {
        Expr::IntLit(n) => (c, int_text(*n as int), Ty::Int64),
        Expr::FloatLit(t) => (c, float_fixed(c, t@), Ty::Float64),
        Expr::BoolLit(b) => (c, if *b { "1"@ } else { "0"@ }, Ty::Int64),
        Expr::StringLit(s) => gen_string_lit(c, s@),
        Expr::Ident(n) => gen_ident(c, n@),
        Expr::BinOp { op, lhs, rhs } => {
            let (c1, lv, lt) = gen_expr(c, lhs);
            let (c2, rv, _) = gen_expr(c1, rhs);
            gen_binop(c2, *op, lv, lt, rv)
        },
        Expr::UnOp { op, expr } => {
            let (c1, v, t) = gen_expr(c, expr);
            gen_unop(c1, *op, v, t)
        },
        Expr::Call { callee, args } => {
            let (c1, a) = gen_args(c, args@);
            gen_call(c1, callee@, a)
        },
        Expr::MethodCall { obj, method, args } => {
            let (c1, ov, ot) = gen_expr(c, obj);
            let (c2, a) = gen_args(c1, args@);
            gen_method(c2, ov, ot, method@, a)
        },
        Expr::StructLit { name, fields } => if c.structs.contains_key(name@) {
            let layout = c.structs[name@];
            let (c1, p) = fresh_reg(c);
            let c2 = emit(c1, "  "@ + p + " = call ptr @malloc(i64 "@ + int_text((layout.len() * 8) as int) + ")"@);
            (gen_fields(c2, layout, p, fields@), p, Ty::Struct(name@))
        } else {
            (c, "null"@, Ty::Unknown)
        },
        Expr::FieldAccess { obj, field } => {
            let (c1, ov, ot) = gen_expr(c, obj);
            gen_field(c1, ov, ot, field@)
        },
        Expr::Index { obj, idx } => {
            let (c1, ov, ot) = gen_expr(c, obj);
            let (c2, iv, _) = gen_expr(c1, idx);
            gen_index(c2, ov, ot, iv)
        },
        Expr::ArrayLit(es) => {
            let (c1, p) = fresh_reg(c);
            let c2 = emit(
                c1,
                "  "@ + p + " = call ptr @ionic_array_new(i64 8, i64 "@ + int_text(array_cap(es@.len()) as int) + ")"@,
            );
            let (c3, et) = gen_elems(c2, p, es@);
            (c3, p, Ty::Array(Box::new(et)))
        },
        Expr::ToGpu(x) => {
            let (c1, v, _) = gen_expr(c, x);
            (emit(c1, "  ; .toGpu() — Phase 1 stub"@), v, Ty::Tensor(HwTarget::Gpu))
        },
        Expr::ToCpu(x) => {
            let (c1, v, _) = gen_expr(c, x);
            (emit(c1, "  ; .toCpu() — Phase 1 stub"@), v, Ty::Tensor(HwTarget::Cpu))
        },
    }
}

/// Argument values, left to right.
pub open spec fn gen_args(c: Cg, s: Seq<Expr>) -> (Cg, Seq<(Seq<char>, Ty)>)
    decreases s, 0nat,
{
    if s.len() == 0 {
        (c, seq![])
    } else {
        let (c1, a) = gen_args(c, s.drop_last());
        let (c2, v, t) = gen_expr(c1, &s.last());
        (c2, a.push((v, t)))
    }
}

/// Stores the fields of a struct literal at `p`; fields the layout lacks are
/// evaluated and dropped.
pub open spec fn gen_fields(c: Cg, layout: Seq<(Seq<char>, Ty)>, p: Seq<char>, fs: Seq<(String, Expr)>) -> Cg
    decreases fs, 0nat,
{
    if fs.len() == 0 {
        c
    } else {
        let c1 = gen_fields(c, layout, p, fs.drop_last());
        let (c2, v, t) = gen_expr(c1, &fs.last().1);
        match field_pos(layout, fs.last().0@) {
            Some(idx) => {
                let (c3, gep) = fresh_reg(c2);
                let c4 = emit(c3, "  "@ + gep + " = getelementptr i64, ptr "@ + p + ", i64 "@ + decimal(idx));
                emit(c4, "  store "@ + llvm_ty(t) + " "@ + v + ", ptr "@ + gep + ", align 8"@)
            },
            None => c2,
        }
    }
}

/// Pushes the elements of an array literal onto `p`; the element type is the
/// first known one.
pub open spec fn gen_elems(c: Cg, p: Seq<char>, es: Seq<Expr>) -> (Cg, Ty)
    decreases es, 0nat,
{
    if es.len() == 0 {
        (c, Ty::Unknown)
    } else {
        let (c1, et) = gen_elems(c, p, es.drop_last());
        let (c2, v, t) = gen_expr(c1, &es.last());
        let et2 = if et == Ty::Unknown {
            t
        } else {
            et
        };
        let (c3, iv) = ptr_to_i64(c2, v, t);
        (emit(c3, "  call void @ionic_array_push(ptr "@ + p + ", i64 "@ + iv + ")"@), et2)
    }
}

// ── Statements ──────────────────────────────────────────────────────────────

pub open spec fn with_jumps(c: Cg, brk: Seq<char>, cont: Seq<char>) -> Cg {
    Cg { breaks: c.breaks.push(brk), conts: c.conts.push(cont), ..c }
}

pub open spec fn drop_jumps(c: Cg) -> Cg {
    Cg { breaks: drop_top(c.breaks), conts: drop_top(c.conts), ..c }
}

/// A block in a scope of its own.
pub open spec fn gen_scoped(c: Cg, b: Seq<Stmt>) -> Cg
    decreases b, 1nat,
{
    pop_scope(gen_block(push_scope(c), b))
}

pub open spec fn gen_let(c: Cg, name: Seq<char>, ty: Option<Ty>, init: &Expr) -> Cg {
    let (c1, v, vt) = gen_expr(c, init);
    let rt = match ty {
        Some(t) => t,
        None => vt,
    };
    let ll = llvm_ty(rt);
    if c1.globals.contains(name) && c1.vars.len() == 1 {
        let c2 = emit(c1, "  store "@ + ll + " "@ + v + ", ptr @"@ + name + ", align 8"@);
        declare(c2, name, ("@"@ + name, rt))
    } else {
        let (c2, slot) = fresh_slot(c1, name);
        let c3 = emit(c2, "  "@ + slot + " = alloca "@ + ll + ", align 8"@);
        let c4 = emit(c3, "  store "@ + ll + " "@ + v + ", ptr "@ + slot + ", align 8"@);
        declare(c4, name, (slot, rt))
    }
}

/// Stores `v` (of type `vt`) through an assignment target.
pub open spec fn gen_store(c: Cg, target: &AssignTarget, v: Seq<char>, vt: Ty) -> Cg {
    let ll = llvm_ty(vt);
    match target {
        AssignTarget::Ident(n) => match lookup_slot(c.vars, n@) {
            Some((slot, _)) => emit(c, "  store "@ + ll + " "@ + v + ", ptr "@ + slot + ", align 8"@),
            None => c,
        },
        AssignTarget::Field(obj, field) => {
            let (c1, ov, ot) = gen_expr(c, obj);
            if ot is Struct && c1.structs.contains_key(ot->Struct_0) && field_pos(
                c1.structs[ot->Struct_0],
                field@,
            ) is Some {
                let idx = field_pos(c1.structs[ot->Struct_0], field@)->0;
                let (c2, gep) = fresh_reg(c1);
                let c3 = emit(c2, "  "@ + gep + " = getelementptr i64, ptr "@ + ov + ", i64 "@ + decimal(idx));
                emit(c3, "  store "@ + ll + " "@ + v + ", ptr "@ + gep + ", align 8"@)
            } else {
                c1
            }
        },
        AssignTarget::Index(obj, idx) => {
            let (c1, ov, _) = gen_expr(c, obj);
            let (c2, iv, _) = gen_expr(c1, idx);
            let (c3, w) = ptr_to_i64(c2, v, vt);
            emit(c3, "  call void @ionic_array_set(ptr "@ + ov + ", i64 "@ + iv + ", i64 "@ + w + ")"@)
        },
    }
}

pub open spec fn gen_if(c: Cg, s: &Stmt) -> Cg
    decreases s, 2nat,
{
    match s {
        Stmt::If { cond, then_block, else_block } => {
            let (c1, cv, _) = gen_expr(c, cond);
            let (c2, ci) = coerce_to_i1(c1, cv);
            let (c3, tl) = fresh_label(c2);
            let (c4, ml) = fresh_label(c3);
            match else_block {
                Some(eb) => {
                    let (c5, el) = fresh_label(c4);
                    let c6 = emit(c5, "  br i1 "@ + ci + ", label %"@ + tl + ", label %"@ + el);
                    let c7 = emit(c6, tl + ":"@);
                    let c8 = gen_scoped(c7, then_block@);
                    let c9 = emit(c8, "  br label %"@ + ml);
                    let c10 = emit(c9, el + ":"@);
                    let c11 = gen_scoped(c10, eb@);
                    let c12 = emit(c11, "  br label %"@ + ml);
                    emit(c12, ml + ":"@)
                },
                None => {
                    let c6 = emit(c4, "  br i1 "@ + ci + ", label %"@ + tl + ", label %"@ + ml);
                    let c7 = emit(c6, tl + ":"@);
                    let c8 = gen_scoped(c7, then_block@);
                    let c9 = emit(c8, "  br label %"@ + ml);
                    emit(c9, ml + ":"@)
                },
            }
        },
        _ => c,
    }
}

pub open spec fn gen_while(c: Cg, s: &Stmt) -> Cg
    decreases s, 2nat,
{
    match s {
        Stmt::While { cond, body } => {
            let (c1, cl) = fresh_label(c);
            let (c2, bl) = fresh_label(c1);
            let (c3, xl) = fresh_label(c2);
            let c4 = with_jumps(c3, xl, cl);
            let c5 = emit(c4, "  br label %"@ + cl);
            let c6 = emit(c5, cl + ":"@);
            let (c7, cv, _) = gen_expr(c6, cond);
            let (c8, ci) = coerce_to_i1(c7, cv);
            let c9 = emit(c8, "  br i1 "@ + ci + ", label %"@ + bl + ", label %"@ + xl);
            let c10 = emit(c9, bl + ":"@);
            let c11 = gen_scoped(c10, body@);
            let c12 = emit(c11, "  br label %"@ + cl);
            drop_jumps(emit(c12, xl + ":"@))
        },
        _ => c,
    }
}

/// The loop test of a `for`: the counter compared with the end value.
pub open spec fn gen_for_test(c: Cg, slot: Seq<char>, ev: Seq<char>, bl: Seq<char>, xl: Seq<char>) -> Cg {
    let (c1, cur) = fresh_reg(c);
    let c2 = emit(c1, "  "@ + cur + " = load i64, ptr "@ + slot + ", align 8"@);
    let (c3, cmp1) = fresh_reg(c2);
    let (c4, cmp) = fresh_reg(c3);
    let c5 = emit(c4, "  "@ + cmp1 + " = icmp slt i64 "@ + cur + ", "@ + ev);
    let c6 = emit(c5, "  "@ + cmp + " = zext i1 "@ + cmp1 + " to i64"@);
    let (c7, br) = fresh_reg(c6);
    let c8 = emit(c7, "  "@ + br + " = trunc i64 "@ + cmp + " to i1"@);
    emit(c8, "  br i1 "@ + br + ", label %"@ + bl + ", label %"@ + xl)
}

/// The step of a `for`: the counter incremented.
pub open spec fn gen_for_step(c: Cg, slot: Seq<char>, cl: Seq<char>) -> Cg {
    let (c1, cur) = fresh_reg(c);
    let (c2, inc) = fresh_reg(c1);
    let c3 = emit(c2, "  "@ + cur + " = load i64, ptr "@ + slot + ", align 8"@);
    let c4 = emit(c3, "  "@ + inc + " = add i64 "@ + cur + ", 1"@);
    let c5 = emit(c4, "  store i64 "@ + inc + ", ptr "@ + slot + ", align 8"@);
    emit(c5, "  br label %"@ + cl)
}

pub open spec fn gen_for(c: Cg, s: &Stmt) -> Cg
    decreases s, 2nat,
{
    match s {
        Stmt::For { var, start, end, body } => {
            let (c1, sv, _) = gen_expr(c, start);
            let (c2, ev, _) = gen_expr(c1, end);
            let (c3, slot) = fresh_slot(c2, var@);
            let c4 = emit(c3, "  "@ + slot + " = alloca i64, align 8"@);
            let c5 = emit(c4, "  store i64 "@ + sv + ", ptr "@ + slot + ", align 8"@);
            let (c6, cl) = fresh_label(c5);
            let (c7, bl) = fresh_label(c6);
            let (c8, il) = fresh_label(c7);
            let (c9, xl) = fresh_label(c8);
            let c10 = with_jumps(c9, xl, il);
            let c11 = emit(c10, "  br label %"@ + cl);
            let c12 = emit(c11, cl + ":"@);
            let c13 = gen_for_test(c12, slot, ev, bl, xl);
            let c14 = emit(c13, bl + ":"@);
            let c15 = pop_scope(gen_block(declare(push_scope(c14), var@, (slot, Ty::Int64)), body@));
            let c16 = emit(c15, "  br label %"@ + il);
            let c17 = emit(c16, il + ":"@);
            let c18 = gen_for_step(c17, slot, cl);
            drop_jumps(emit(c18, xl + ":"@))
        },
        _ => c,
    }
}

/// A jump to the innermost target, followed by a fresh block so that the IR
/// stays well formed; without a target nothing is written.
pub open spec fn gen_jump(c: Cg, targets: Seq<Seq<char>>) -> Cg {
    if targets.len() > 0 {
        let c1 = emit(c, "  br label %"@ + targets.last());
        let (c2, dead) = fresh_label(c1);
        emit(c2, dead + ":"@)
    } else {
        c
    }
}

pub open spec fn gen_stmt(c: Cg, s: &Stmt) -> Cg
    decreases s, 3nat,
{
    match s {
        Stmt::Let { name, ty, init, .. } => gen_let(
            c,
            name@,
            match ty {
                Some(a) => Some(annotation_type(a)),
                None => None,
            },
            init,
        ),
        Stmt::Assign { target, value } => {
            let (c1, v, vt) = gen_expr(c, value);
            gen_store(c1, target, v, vt)
        },
        Stmt::ExprStmt(e) => gen_expr(c, e).0,
        Stmt::Return(x) => match x {
            Some(e) => {
                let (c1, v, t) = gen_expr(c, e);
                emit(c1, "  ret "@ + llvm_ty(t) + " "@ + v)
            },
            None => emit(c, "  ret void"@),
        },
        Stmt::If { .. } => gen_if(c, s),
        Stmt::While { .. } => gen_while(c, s),
        Stmt::For { .. } => gen_for(c, s),
        Stmt::GpuBlock(b) => {
            let c1 = emit(c, "  ; === gpu block begin ==="@);
            emit(gen_scoped(c1, b@), "  ; === gpu block end ==="@)
        },
        Stmt::Break => gen_jump(c, c.breaks),
        Stmt::Continue => gen_jump(c, c.conts),
        Stmt::Import(_) => c,
    }
}

pub open spec fn gen_block(c: Cg, s: Seq<Stmt>) -> Cg
    decreases s, 0nat,
{
    if s.len() == 0 {
        c
    } else {
        gen_stmt(gen_block(c, s.drop_last()), &s.last())
    }
}

// ── Functions and the program ───────────────────────────────────────────────

/// `type %name` of each parameter, comma separated.
pub open spec fn params_ir(ps: Seq<Param>) -> Seq<char>
    decreases ps.len(),
{
    if ps.len() == 0 {
        seq![]
    } else if ps.len() == 1 {
        llvm_ty(annotation_type(&ps[0].ty)) + " %"@ + ps[0].name@
    } else {
        params_ir(ps.drop_last()) + ", "@ + llvm_ty(annotation_type(&ps.last().ty)) + " %"@ + ps.last().name@
    }
}

/// A user's parameterless `main` is renamed: the entry point is the generated `@main`.
pub open spec fn fn_emit_name(f: &FnDef) -> Seq<char> {
    if f.name@ == "main"@ && f.params@.len() == 0 {
        "ionic_user_main"@
    } else {
        f.name@
    }
}

/// Each parameter is copied into a slot of its own.
pub open spec fn gen_params(c: Cg, ps: Seq<Param>) -> Cg
    decreases ps.len(),
{
    if ps.len() == 0 {
        c
    } else {
        let c1 = gen_params(c, ps.drop_last());
        let p = ps.last();
        let t = annotation_type(&p.ty);
        let ll = llvm_ty(t);
        let (c2, slot) = fresh_slot(c1, p.name@);
        let c3 = emit(c2, "  "@ + slot + " = alloca "@ + ll + ", align 8"@);
        let c4 = emit(c3, "  store "@ + ll + " %"@ + p.name@ + ", ptr "@ + slot + ", align 8"@);
        declare(c4, p.name@, (slot, t))
    }
}

/// Counters restart for every function.
pub open spec fn restart(c: Cg, ret: Ty) -> Cg {
    Cg { reg: 0, label: 0, slot: 0, ret: ret, ..c }
}

pub open spec fn gen_fn(c: Cg, f: &FnDef) -> Cg {
    let rt = annotation_type(&f.ret_ty);
    let c1 = push_scope(restart(c, rt));
    let c2 = match f.hw {
        Some(hw) => emit(c1, "  "@ + ir_comment_text(c1, hw)),
        None => c1,
    };
    let c3 = emit(c2, "define "@ + llvm_ty(rt) + " @"@ + fn_emit_name(f) + "("@ + params_ir(f.params@) + ") {"@);
    let c4 = emit(c3, "entry:"@);
    let c5 = gen_params(c4, f.params@);
    let c6 = gen_block(c5, f.body@);
    let c7 = if rt == Ty::Void {
        emit(c6, "  ret void"@)
    } else {
        c6
    };
    pop_scope(emit(emit(c7, "}"@), ""@))
}

pub open spec fn gen_fns(c: Cg, fs: Seq<FnDef>) -> Cg
    decreases fs.len(),
{
    if fs.len() == 0 {
        c
    } else {
        gen_fn(gen_fns(c, fs.drop_last()), &fs.last())
    }
}

/// The entry point: runtime set-up, the top-level statements, then the user's
/// `main` if there is one.
pub open spec fn gen_main(c: Cg, stmts: Seq<Stmt>, user_main: bool) -> Cg {
    let c1 = restart(c, Ty::Void);
    let c2 = emit(c1, "define i32 @main(i32 %_argc, ptr %_argv) {"@);
    let c3 = emit(c2, "entry:"@);
    let c4 = emit(c3, "  call void @ionic_runtime_init(i32 %_argc, ptr %_argv)"@);
    let c5 = gen_block(c4, stmts);
    let c6 = if user_main {
        let d1 = emit(c5, "  %_exit = call i64 @ionic_user_main()"@);
        let d2 = emit(d1, "  %_exit32 = trunc i64 %_exit to i32"@);
        emit(d2, "  ret i32 %_exit32"@)
    } else {
        emit(c5, "  ret i32 0"@)
    };
    emit(emit(c6, "}"@), ""@)
}

pub open spec fn has_user_main(fs: Seq<FnDef>) -> bool {
    exists|i: int| 0 <= i < fs.len() && #[trigger] fs[i].name@ == "main"@ && fs[i].params@.len() == 0
}

pub open spec fn layout_of(s: &StructDef) -> Seq<(Seq<char>, Ty)> {
    Seq::new(s.fields@.len(), |i: int| (s.fields@[i].name@, annotation_type(&s.fields@[i].ty)))
}

pub open spec fn register_layouts(c: Cg, ss: Seq<StructDef>) -> Cg
    decreases ss.len(),
{
    if ss.len() == 0 {
        c
    } else {
        let c1 = register_layouts(c, ss.drop_last());
        let n = ss.last().name@;
        Cg {
            structs: c1.structs.insert(n, layout_of(&ss.last())),
            struct_order: if c1.structs.contains_key(n) {
                c1.struct_order
            } else {
                c1.struct_order.push(n)
            },
            ..c1
        }
    }
}

pub open spec fn signature_of(f: &FnDef) -> (Seq<Ty>, Ty) {
    (Seq::new(f.params@.len(), |i: int| annotation_type(&f.params@[i].ty)), annotation_type(&f.ret_ty))
}

pub open spec fn register_sigs(c: Cg, fs: Seq<FnDef>) -> Cg
    decreases fs.len(),
{
    if fs.len() == 0 {
        c
    } else {
        let c1 = register_sigs(c, fs.drop_last());
        Cg { fns: c1.fns.insert(fs.last().name@, signature_of(&fs.last())), ..c1 }
    }
}

/// One comment line per struct, in registration order.
pub open spec fn struct_comments(c: Cg, names: Seq<Seq<char>>) -> Cg
    decreases names.len(),
{
    if names.len() == 0 {
        c
    } else {
        let c1 = struct_comments(c, names.drop_last());
        let n = names.last();
        let size = c1.structs[n].len();
        emit(c1, "; struct "@ + n + " : "@ + decimal(size) + " fields ("@ + decimal(size * 8) + " bytes)"@)
    }
}

/// IR type, initial value and type of a top-level variable's global.
pub open spec fn global_ty(c: Cg, init: &Expr) -> (Seq<char>, Seq<char>, Ty) {
    match init {
        Expr::IntLit(n) => ("i64"@, int_text(*n as int), Ty::Int64),
        Expr::BoolLit(b) => ("i64"@, if *b { "1"@ } else { "0"@ }, Ty::Int64),
        Expr::FloatLit(t) => ("double"@, float_sci(c, t@), Ty::Float64),
        Expr::StringLit(_) => ("ptr"@, "null"@, Ty::Str),
        Expr::ArrayLit(es) => {
            let inner = if es@.len() == 0 {
                Ty::Int64
            } else {
                match es@[0] {
                    Expr::FloatLit(_) => Ty::Float64,
                    Expr::StringLit(_) => Ty::Str,
                    _ => Ty::Int64,
                }
            };
            ("ptr"@, "null"@, Ty::Array(Box::new(inner)))
        },
        _ => ("ptr"@, "null"@, Ty::Str),
    }
}

/// Every top-level `let`/`mut` becomes an IR global; scalars get their value
/// at compile time, the rest is set when `main` runs.
pub open spec fn gen_globals(c: Cg, ss: Seq<Stmt>) -> (Cg, bool)
    decreases ss.len(),
{
    if ss.len() == 0 {
        (c, false)
    } else {
        let (c1, had) = gen_globals(c, ss.drop_last());
        match ss.last() {
            Stmt::Let { mutable, name, init, .. } => {
                let (ll, zero, t) = global_ty(c1, &init);
                let vis = if !mutable && (init is IntLit || init is BoolLit) {
                    "private global"@
                } else {
                    "global"@
                };
                let c2 = emit(c1, "@"@ + name@ + " = "@ + vis + " "@ + ll + " "@ + zero + ", align 8"@);
                let c3 = declare(c2, name@, ("@"@ + name@, t));
                (Cg { globals: c3.globals.insert(name@), ..c3 }, true)
            },
            _ => (c1, had),
        }
    }
}

/// The string constants, numbered in order of interning.
pub open spec fn flush_lits(c: Cg, lits: Seq<(Seq<char>, nat)>) -> Cg
    decreases lits.len(),
{
    if lits.len() == 0 {
        c
    } else {
        let c1 = flush_lits(c, lits.drop_last());
        let i = (lits.len() - 1) as nat;
        let (esc, bc) = lits.last();
        emit(
            c1,
            "@str"@ + decimal(i) + " = private constant ["@ + decimal(bc + 1) + " x i8] c\""@ + esc + "\\00\""@,
        )
    }
}

/// The prelude (declarations of the C functions used) and the runtime helper
/// definitions written after what `c` holds.
pub open spec fn with_runtime(c: Cg) -> Cg {
    Cg { out: c.out + PRELUDE@ + RUNTIME_HELPERS@, ..c }
}

/// The whole module for a program.
pub open spec fn gen_program(c: Cg, p: &Program) -> Cg {
    let c1 = register_sigs(register_layouts(c, p.structs@), p.fns@);
    let c2 = with_runtime(c1);
    let c3 = struct_comments(c2, c2.struct_order);
    let c4 = if c2.struct_order.len() > 0 {
        emit(c3, ""@)
    } else {
        c3
    };
    let (c5, had) = gen_globals(c4, p.top_level@);
    let c6 = if had {
        emit(c5, ""@)
    } else {
        c5
    };
    let c7 = gen_fns(c6, p.fns@);
    let c8 = gen_main(c7, p.top_level@, has_user_main(p.fns@));
    flush_lits(c8, c8.lits)
}

/// Counter budget of a program: every function's, and the top level's.
pub open spec fn fns_cost(fs: Seq<FnDef>) -> nat
    decreases fs.len(),
{
    if fs.len() == 0 {
        0
    } else {
        fns_cost(fs.drop_last()) + fs.last().params@.len() + bcost(fs.last().body@)
    }
}

pub open spec fn program_cost(p: &Program) -> nat {
    fns_cost(p.fns@) + bcost(p.top_level@)
}

/// Every call of the program reads only arguments it is given.
pub open spec fn program_args_ok(p: &Program) -> bool {
    &&& block_args_ok(p.top_level@)
    &&& forall|i: int| 0 <= i < p.fns@.len() ==> block_args_ok(#[trigger] p.fns@[i].body@)
}

/// Struct byte sizes fit in an `i64`.
pub open spec fn structs_fit(ss: Seq<StructDef>) -> bool {
    forall|i: int| 0 <= i < ss.len() ==> #[trigger] ss[i].fields@.len() * 8 <= i64::MAX
}

pub open spec fn in_call_group_1(n: Seq<char>) -> bool {
    n == "exit"@
    || n == "sqrt"@
    || n == "abs"@
    || n == "int64_to_float64"@
    || n == "float64_to_int64"@
    || n == "str_len"@
    || n == "str_concat"@
    || n == "str_eq"@
}

pub open spec fn gen_call_group_1(c: Cg, n: Seq<char>, a: Seq<(Seq<char>, Ty)>) -> (Cg, Seq<char>, Ty) {
    if n == "exit"@ {
        let (c1, t) = fresh_reg(c);
        let c2 = emit(c1, "  "@ + t + " = trunc i64 "@ + a[0].0 + " to i32"@);
        let c3 = emit(c2, "  call void @exit(i32 "@ + t + ")"@);
        (c3, "0"@, Ty::Void)
    }
    else if n == "sqrt"@ {
        let (c1, r) = fresh_reg(c);
        let c2 = emit(c1, "  "@ + r + " = call double @sqrt(double "@ + a[0].0 + ")"@);
        (c2, r, Ty::Float64)
    }
    else if n == "abs"@ {
        let (c1, r) = fresh_reg(c);
        let c2 = emit(c1, "  "@ + r + " = call double @fabs(double "@ + a[0].0 + ")"@);
        (c2, r, Ty::Float64)
    }
    else if n == "int64_to_float64"@ {
        let (c1, r) = fresh_reg(c);
        let c2 = emit(c1, "  "@ + r + " = sitofp i64 "@ + a[0].0 + " to double"@);
        (c2, r, Ty::Float64)
    }
    else if n == "float64_to_int64"@ {
        let (c1, r) = fresh_reg(c);
        let c2 = emit(c1, "  "@ + r + " = fptosi double "@ + a[0].0 + " to i64"@);
        (c2, r, Ty::Int64)
    }
    else if n == "str_len"@ {
        let (c1, r) = fresh_reg(c);
        let c2 = emit(c1, "  "@ + r + " = call i64 @strlen(ptr "@ + a[0].0 + ")"@);
        (c2, r, Ty::Int64)
    }
    else if n == "str_concat"@ {
        let (c1, r) = fresh_reg(c);
        let c2 = emit(c1, "  "@ + r + " = call ptr @ionic_str_concat(ptr "@ + a[0].0 + ", ptr "@ + a[1].0 + ")"@);
        (c2, r, Ty::Str)
    }
    else if n == "str_eq"@ {
        let (c1, cmp) = fresh_reg(c);
        let (c2, r) = fresh_reg(c1);
        let c3 = emit(c2, "  "@ + cmp + " = call i32 @strcmp(ptr "@ + a[0].0 + ", ptr "@ + a[1].0 + ")"@);
        let c4 = emit(c3, "  "@ + r + " = icmp eq i32 "@ + cmp + ", 0"@);
        let (c5, ext) = fresh_reg(c4);
        let c6 = emit(c5, "  "@ + ext + " = zext i1 "@ + r + " to i64"@);
        (c6, ext, Ty::Int64)
    }
    else {
        (c, seq![], Ty::Unknown)
    }
}


pub open spec fn in_call_group_2(n: Seq<char>) -> bool {
    n == "str_index"@
    || n == "int64_to_str"@
    || n == "float64_to_str"@
    || n == "char_to_str"@
    || n == "get_arg"@
    || n == "cpu_core_count"@
    || n == "file_exists"@
    || n == "load_model"@
}

pub open spec fn gen_call_group_2(c: Cg, n: Seq<char>, a: Seq<(Seq<char>, Ty)>) -> (Cg, Seq<char>, Ty) {
    if n == "str_index"@ {
        let (c1, r) = fresh_reg(c);
        let (c2, gep) = fresh_reg(c1);
        let c3 = emit(c2, "  "@ + gep + " = getelementptr i8, ptr "@ + a[0].0 + ", i64 "@ + a[1].0);
        let (c4, byte) = fresh_reg(c3);
        let c5 = emit(c4, "  "@ + byte + " = load i8, ptr "@ + gep + ", align 1"@);
        let c6 = emit(c5, "  "@ + r + " = sext i8 "@ + byte + " to i64"@);
        (c6, r, Ty::Int64)
    }
    else if n == "int64_to_str"@ {
        let (c1, r) = fresh_reg(c);
        let c2 = emit(c1, "  "@ + r + " = call ptr @ionic_int64_to_str(i64 "@ + a[0].0 + ")"@);
        (c2, r, Ty::Str)
    }
    else if n == "float64_to_str"@ {
        let (c1, r) = fresh_reg(c);
        let c2 = emit(c1, "  "@ + r + " = call ptr @ionic_float64_to_str(double "@ + a[0].0 + ")"@);
        (c2, r, Ty::Str)
    }
    else if n == "char_to_str"@ {
        let (c1, r) = fresh_reg(c);
        let c2 = emit(c1, "  "@ + r + " = call ptr @ionic_char_to_str(i64 "@ + a[0].0 + ")"@);
        (c2, r, Ty::Str)
    }
    else if n == "get_arg"@ {
        let (c1, r) = fresh_reg(c);
        let c2 = emit(c1, "  "@ + r + " = call ptr @ionic_get_arg(i64 "@ + a[0].0 + ")"@);
        (c2, r, Ty::Str)
    }
    else if n == "cpu_core_count"@ {
        let (c1, r) = fresh_reg(c);
        let c2 = emit(c1, "  "@ + r + " = call i64 @ionic_cpu_core_count()"@);
        (c2, r, Ty::Int64)
    }
    else if n == "file_exists"@ {
        let (c1, r32) = fresh_reg(c);
        let c2 = emit(c1, "  "@ + r32 + " = call i32 @access(ptr "@ + a[0].0 + ", i32 0)"@);
        let (c3, cmp) = fresh_reg(c2);
        let c4 = emit(c3, "  "@ + cmp + " = icmp eq i32 "@ + r32 + ", 0"@);
        let (c5, r) = fresh_reg(c4);
        let c6 = emit(c5, "  "@ + r + " = zext i1 "@ + cmp + " to i64"@);
        (c6, r, Ty::Int64)
    }
    else if n == "load_model"@ {
        let (c1, r) = fresh_reg(c);
        let c2 = emit(c1, "  "@ + r + " = call ptr @ionic_load_model(ptr "@ + a[0].0 + ")"@);
        (c2, r, Ty::Model(HwTarget::Cpu))
    }
    else {
        (c, seq![], Ty::Unknown)
    }
}


pub open spec fn in_call_group_3(n: Seq<char>) -> bool {
    n == "model_free"@
    || n == "piper_forward"@
    || n == "write_wav"@
    || n == "gguf_generate"@
    || n == "gguf_set_temp"@
    || n == "gguf_set_top_p"@
    || n == "fgets_stdin"@
    || n == "file_read"@
}

pub open spec fn gen_call_group_3(c: Cg, n: Seq<char>, a: Seq<(Seq<char>, Ty)>) -> (Cg, Seq<char>, Ty) {
    if n == "model_free"@ {
        let c1 = emit(c, "  call void @ionic_model_free(ptr "@ + a[0].0 + ")"@);
        (c1, "0"@, Ty::Void)
    }
    else if n == "piper_forward"@ {
        let (c1, r) = fresh_reg(c);
        let c2 = emit(c1, "  "@ + r + " = call ptr @ionic_piper_forward(ptr "@ + a[0].0 + ", ptr "@ + a[1].0 + ", double "@ + a[2].0 + ", double "@ + a[3].0 + ", double "@ + a[4].0 + ")"@);
        (c2, r, Ty::Array(Box::new(Ty::Float64)))
    }
    else if n == "write_wav"@ {
        let c1 = emit(c, "  call void @ionic_write_wav(ptr "@ + a[0].0 + ", ptr "@ + a[1].0 + ", i64 "@ + a[2].0 + ", i64 "@ + a[3].0 + ")"@);
        (c1, "0"@, Ty::Void)
    }
    else if n == "gguf_generate"@ {
        let (c1, r) = fresh_reg(c);
        let c2 = emit(c1, "  "@ + r + " = call ptr @ionic_gguf_generate(ptr "@ + a[0].0 + ", ptr "@ + a[1].0 + ", i64 "@ + a[2].0 + ")"@);
        (c2, r, Ty::Str)
    }
    else if n == "gguf_set_temp"@ {
        let c1 = emit(c, "  call void @ionic_gguf_set_temp(ptr "@ + a[0].0 + ", double "@ + a[1].0 + ")"@);
        (c1, "0"@, Ty::Void)
    }
    else if n == "gguf_set_top_p"@ {
        let c1 = emit(c, "  call void @ionic_gguf_set_top_p(ptr "@ + a[0].0 + ", double "@ + a[1].0 + ")"@);
        (c1, "0"@, Ty::Void)
    }
    else if n == "fgets_stdin"@ {
        let (c1, buf) = fresh_reg(c);
        let c2 = emit(c1, "  "@ + buf + " = call ptr @malloc(i64 "@ + a[0].0 + ")"@);
        let (c3, r) = fresh_reg(c2);
        let c4 = emit(c3, "  "@ + r + " = call ptr @ionic_fgets_stdin(ptr "@ + buf + ", i32 "@ + a[0].0 + ")"@);
        (c4, r, Ty::Str)
    }
    else if n == "file_read"@ {
        let (c1, r) = fresh_reg(c);
        let c2 = emit(c1, "  "@ + r + " = call ptr @ionic_file_read(ptr "@ + a[0].0 + ")"@);
        (c2, r, Ty::Str)
    }
    else {
        (c, seq![], Ty::Unknown)
    }
}


pub open spec fn in_call_group_4(n: Seq<char>) -> bool {
    n == "file_write"@
    || n == "file_open_read"@
    || n == "file_open_write"@
    || n == "file_close"@
    || n == "file_read_line"@
    || n == "file_write_line"@
    || n == "file_eof"@
}

pub open spec fn gen_call_group_4(c: Cg, n: Seq<char>, a: Seq<(Seq<char>, Ty)>) -> (Cg, Seq<char>, Ty) {
    if n == "file_write"@ {
        let (c1, fp) = fresh_reg(c);
        let c2 = emit(c1, "  "@ + fp + " = call ptr @fopen(ptr "@ + a[0].0 + ", ptr @mode_w)"@);
        let c3 = emit(c2, "  call i32 @fputs(ptr "@ + a[1].0 + ", ptr "@ + fp + ")"@);
        let c4 = emit(c3, "  call i32 @fclose(ptr "@ + fp + ")"@);
        (c4, "1"@, Ty::Int64)
    }
    else if n == "file_open_read"@ {
        let (c1, r) = fresh_reg(c);
        let c2 = emit(c1, "  "@ + r + " = call ptr @fopen(ptr "@ + a[0].0 + ", ptr @mode_r)"@);
        let (c3, ri) = fresh_reg(c2);
        let c4 = emit(c3, "  "@ + ri + " = ptrtoint ptr "@ + r + " to i64"@);
        (c4, ri, Ty::Int64)
    }
    else if n == "file_open_write"@ {
        let (c1, r) = fresh_reg(c);
        let c2 = emit(c1, "  "@ + r + " = call ptr @fopen(ptr "@ + a[0].0 + ", ptr @mode_w)"@);
        let (c3, ri) = fresh_reg(c2);
        let c4 = emit(c3, "  "@ + ri + " = ptrtoint ptr "@ + r + " to i64"@);
        (c4, ri, Ty::Int64)
    }
    else if n == "file_close"@ {
        let (c1, fp) = fresh_reg(c);
        let c2 = emit(c1, "  "@ + fp + " = inttoptr i64 "@ + a[0].0 + " to ptr"@);
        let c3 = emit(c2, "  call i32 @fclose(ptr "@ + fp + ")"@);
        (c3, "0"@, Ty::Void)
    }
    else if n == "file_read_line"@ {
        let (c1, fp) = fresh_reg(c);
        let c2 = emit(c1, "  "@ + fp + " = inttoptr i64 "@ + a[0].0 + " to ptr"@);
        let (c3, buf) = fresh_reg(c2);
        let c4 = emit(c3, "  "@ + buf + " = call ptr @malloc(i64 4096)"@);
        let (c5, ret) = fresh_reg(c4);
        let c6 = emit(c5, "  "@ + ret + " = call ptr @fgets(ptr "@ + buf + ", i32 4096, ptr "@ + fp + ")"@);
        (c6, buf, Ty::Str)
    }
    else if n == "file_write_line"@ {
        let (c1, fp) = fresh_reg(c);
        let c2 = emit(c1, "  "@ + fp + " = inttoptr i64 "@ + a[0].0 + " to ptr"@);
        let c3 = emit(c2, "  call i32 @fputs(ptr "@ + a[1].0 + ", ptr "@ + fp + ")"@);
        (c3, "0"@, Ty::Void)
    }
    else if n == "file_eof"@ {
        let (c1, fp) = fresh_reg(c);
        let c2 = emit(c1, "  "@ + fp + " = inttoptr i64 "@ + a[0].0 + " to ptr"@);
        let (c3, r32) = fresh_reg(c2);
        let c4 = emit(c3, "  "@ + r32 + " = call i32 @feof(ptr "@ + fp + ")"@);
        let (c5, r) = fresh_reg(c4);
        let c6 = emit(c5, "  "@ + r + " = sext i32 "@ + r32 + " to i64"@);
        (c6, r, Ty::Int64)
    }
    else {
        (c, seq![], Ty::Unknown)
    }
}

pub open spec fn group_arity_1(n: Seq<char>) -> nat {
    if n == "exit"@ {
        1
    }
    else if n == "sqrt"@ {
        1
    }
    else if n == "abs"@ {
        1
    }
    else if n == "int64_to_float64"@ {
        1
    }
    else if n == "float64_to_int64"@ {
        1
    }
    else if n == "str_len"@ {
        1
    }
    else if n == "str_concat"@ {
        2
    }
    else if n == "str_eq"@ {
        2
    }
    else {
        0
    }
}

pub open spec fn group_arity_2(n: Seq<char>) -> nat {
    if n == "str_index"@ {
        2
    }
    else if n == "int64_to_str"@ {
        1
    }
    else if n == "float64_to_str"@ {
        1
    }
    else if n == "char_to_str"@ {
        1
    }
    else if n == "get_arg"@ {
        1
    }
    else if n == "cpu_core_count"@ {
        0
    }
    else if n == "file_exists"@ {
        1
    }
    else if n == "load_model"@ {
        1
    }
    else {
        0
    }
}

pub open spec fn group_arity_3(n: Seq<char>) -> nat {
    if n == "model_free"@ {
        1
    }
    else if n == "piper_forward"@ {
        5
    }
    else if n == "write_wav"@ {
        4
    }
    else if n == "gguf_generate"@ {
        3
    }
    else if n == "gguf_set_temp"@ {
        2
    }
    else if n == "gguf_set_top_p"@ {
        2
    }
    else if n == "fgets_stdin"@ {
        1
    }
    else if n == "file_read"@ {
        1
    }
    else {
        0
    }
}

pub open spec fn group_arity_4(n: Seq<char>) -> nat {
    if n == "file_write"@ {
        2
    }
    else if n == "file_open_read"@ {
        1
    }
    else if n == "file_open_write"@ {
        1
    }
    else if n == "file_close"@ {
        1
    }
    else if n == "file_read_line"@ {
        1
    }
    else if n == "file_write_line"@ {
        2
    }
    else if n == "file_eof"@ {
        1
    }
    else {
        0
    }
}

/// How many arguments a call reads (a call with fewer would index past them).
pub open spec fn call_arity(n: Seq<char>) -> nat {
    if n == "print"@ || n == "println"@ {
        0
    } else if n == "len"@ {
        1
    } else if n == "push"@ {
        2
    } else if in_call_group_1(n) {
        group_arity_1(n)
    } else if in_call_group_2(n) {
        group_arity_2(n)
    } else if in_call_group_3(n) {
        group_arity_3(n)
    } else if in_call_group_4(n) {
        group_arity_4(n)
    } else {
        0
    }
}

pub open spec fn in_call_groups(n: Seq<char>) -> bool {
    in_call_group_1(n) || in_call_group_2(n) || in_call_group_3(n) || in_call_group_4(n)
}

// ── Executable state ────────────────────────────────────────────────────────

/// Struct layout: field names and types in order (every field takes 8 bytes).
#[derive(Debug)]
pub struct StructLayout {
    pub fields: Vec<(String, Type)>,
}

impl View for StructLayout {
    type V = Seq<(Seq<char>, Ty)>;

    open spec fn view(&self) -> Seq<(Seq<char>, Ty)> {
        fields_view(self.fields@)
    }
}

/// Where a variable lives (an `alloca` slot or a global) and its type.
pub struct VarSlot {
    pub ptr: String,
    pub ty: Type,
}

impl View for VarSlot {
    type V = (Seq<char>, Ty);

    open spec fn view(&self) -> (Seq<char>, Ty) {
        (self.ptr@, self.ty@)
    }
}

/// Renderings of a fractional literal's value: seventeen places, scientific
/// notation with seventeen places, and three places.
pub struct FloatText {
    pub fixed: String,
    pub sci: String,
    pub places3: String,
}

impl View for FloatText {
    type V = (Seq<char>, Seq<char>, Seq<char>);

    open spec fn view(&self) -> (Seq<char>, Seq<char>, Seq<char>) {
        (self.fixed@, self.sci@, self.places3@)
    }
}

pub open spec fn vals_view(a: Seq<(String, Type)>) -> Seq<(Seq<char>, Ty)> {
    Seq::new(a.len(), |i: int| (a[i].0@, a[i].1@))
}

/// The IR generator.
pub struct Codegen {
    out: String,
    reg: usize,
    slot_id: usize,
    str_lits: Vec<(String, usize)>,
    vars: Vec<Table<VarSlot>>,
    fns: Table<FnSig>,
    structs: Table<StructLayout>,
    current_fn_ret: Type,
    label: usize,
    break_labels: Vec<String>,
    continue_labels: Vec<String>,
    global_var_names: Vec<String>,
    floats: Table<FloatText>,
}

pub open spec fn texts_view(s: Seq<String>) -> Seq<Seq<char>> {
    Seq::new(s.len(), |i: int| s[i]@)
}

/// The state a new generator starts in: one (top-level) scope, nothing else.
pub open spec fn initial_cg() -> Cg {
    Cg {
        out: seq![],
        reg: 0,
        slot: 0,
        label: 0,
        lits: seq![],
        vars: seq![Map::empty()],
        fns: Map::empty(),
        structs: Map::empty(),
        struct_order: seq![],
        ret: Ty::Void,
        breaks: seq![],
        conts: seq![],
        globals: Set::empty(),
        floats: Map::empty(),
    }
}

impl Codegen {
    /// The state as a mathematical value.
    pub closed spec fn cg(&self) -> Cg {
        Cg {
            out: self.out@,
            reg: self.reg as nat,
            slot: self.slot_id as nat,
            label: self.label as nat,
            lits: Seq::new(self.str_lits@.len(), |i: int| (self.str_lits@[i].0@, self.str_lits@[i].1 as nat)),
            vars: Seq::new(self.vars@.len(), |i: int| self.vars@[i].view_map()),
            fns: self.fns.view_map(),
            structs: self.structs.view_map(),
            struct_order: self.structs.names(),
            ret: self.current_fn_ret@,
            breaks: texts_view(self.break_labels@),
            conts: texts_view(self.continue_labels@),
            globals: Set::new(|k: Seq<char>| texts_view(self.global_var_names@).contains(k)),
            floats: self.floats.view_map(),
        }
    }

    pub fn new() -> (r: Codegen)
        ensures
            r.cg() == initial_cg(),
    {
        let mut vars: Vec<Table<VarSlot>> = Vec::new();
        vars.push(Table::new());
        let r = Codegen {
            out: String::new(),
            reg: 0,
            slot_id: 0,
            str_lits: Vec::new(),
            vars,
            fns: Table::new(),
            structs: Table::new(),
            current_fn_ret: Type::Void,
            label: 0,
            break_labels: Vec::new(),
            continue_labels: Vec::new(),
            global_var_names: Vec::new(),
            floats: Table::new(),
        };
        proof {
            assert(r.cg().vars =~= initial_cg().vars);
            assert(r.cg().lits =~= initial_cg().lits);
            assert(r.cg().breaks =~= initial_cg().breaks);
            assert(r.cg().conts =~= initial_cg().conts);
            assert(r.cg().globals =~= initial_cg().globals);
            assert(r.cg().struct_order =~= initial_cg().struct_order);
        }
        r
    }

    /// Registers the renderings of a fractional literal written as `literal`.
    pub fn add_float_text(&mut self, literal: String, text: FloatText)
        ensures
            final(self).cg() == (Cg { floats: old(self).cg().floats.insert(literal@, text@), ..old(self).cg() }),
    {
        self.floats.insert(literal, text);
    }

    /// The IR generated so far.
    pub fn output(&self) -> (r: &String)
        ensures
            r@ == self.cg().out,
    {
        &self.out
    }
    fn emit1(&mut self, p0: &str)
        ensures
            final(self).cg() == emit(old(self).cg(), p0@),
    {
        self.out.append(p0);
        self.out.append("\n");
        proof {
            assert(self.out@ =~= old(self).out@ + (p0@) + "\n"@);
            assert(self.cg() =~= emit(old(self).cg(), p0@));
        }
    }

    fn emit2(&mut self, p0: &str, p1: &str)
        ensures
            final(self).cg() == emit(old(self).cg(), p0@ + p1@),
    {
        self.out.append(p0);
        self.out.append(p1);
        self.out.append("\n");
        proof {
            assert(self.out@ =~= old(self).out@ + (p0@ + p1@) + "\n"@);
            assert(self.cg() =~= emit(old(self).cg(), p0@ + p1@));
        }
    }

    fn emit3(&mut self, p0: &str, p1: &str, p2: &str)
        ensures
            final(self).cg() == emit(old(self).cg(), p0@ + p1@ + p2@),
    {
        self.out.append(p0);
        self.out.append(p1);
        self.out.append(p2);
        self.out.append("\n");
        proof {
            assert(self.out@ =~= old(self).out@ + (p0@ + p1@ + p2@) + "\n"@);
            assert(self.cg() =~= emit(old(self).cg(), p0@ + p1@ + p2@));
        }
    }

    fn emit4(&mut self, p0: &str, p1: &str, p2: &str, p3: &str)
        ensures
            final(self).cg() == emit(old(self).cg(), p0@ + p1@ + p2@ + p3@),
    {
        self.out.append(p0);
        self.out.append(p1);
        self.out.append(p2);
        self.out.append(p3);
        self.out.append("\n");
        proof {
            assert(self.out@ =~= old(self).out@ + (p0@ + p1@ + p2@ + p3@) + "\n"@);
            assert(self.cg() =~= emit(old(self).cg(), p0@ + p1@ + p2@ + p3@));
        }
    }

    fn emit5(&mut self, p0: &str, p1: &str, p2: &str, p3: &str, p4: &str)
        ensures
            final(self).cg() == emit(old(self).cg(), p0@ + p1@ + p2@ + p3@ + p4@),
    {
        self.out.append(p0);
        self.out.append(p1);
        self.out.append(p2);
        self.out.append(p3);
        self.out.append(p4);
        self.out.append("\n");
        proof {
            assert(self.out@ =~= old(self).out@ + (p0@ + p1@ + p2@ + p3@ + p4@) + "\n"@);
            assert(self.cg() =~= emit(old(self).cg(), p0@ + p1@ + p2@ + p3@ + p4@));
        }
    }

    fn emit6(&mut self, p0: &str, p1: &str, p2: &str, p3: &str, p4: &str, p5: &str)
        ensures
            final(self).cg() == emit(old(self).cg(), p0@ + p1@ + p2@ + p3@ + p4@ + p5@),
    {
        self.out.append(p0);
        self.out.append(p1);
        self.out.append(p2);
        self.out.append(p3);
        self.out.append(p4);
        self.out.append(p5);
        self.out.append("\n");
        proof {
            assert(self.out@ =~= old(self).out@ + (p0@ + p1@ + p2@ + p3@ + p4@ + p5@) + "\n"@);
            assert(self.cg() =~= emit(old(self).cg(), p0@ + p1@ + p2@ + p3@ + p4@ + p5@));
        }
    }

    fn emit7(&mut self, p0: &str, p1: &str, p2: &str, p3: &str, p4: &str, p5: &str, p6: &str)
        ensures
            final(self).cg() == emit(old(self).cg(), p0@ + p1@ + p2@ + p3@ + p4@ + p5@ + p6@),
    {
        self.out.append(p0);
        self.out.append(p1);
        self.out.append(p2);
        self.out.append(p3);
        self.out.append(p4);
        self.out.append(p5);
        self.out.append(p6);
        self.out.append("\n");
        proof {
            assert(self.out@ =~= old(self).out@ + (p0@ + p1@ + p2@ + p3@ + p4@ + p5@ + p6@) + "\n"@);
            assert(self.cg() =~= emit(old(self).cg(), p0@ + p1@ + p2@ + p3@ + p4@ + p5@ + p6@));
        }
    }

    fn emit9(&mut self, p0: &str, p1: &str, p2: &str, p3: &str, p4: &str, p5: &str, p6: &str, p7: &str, p8: &str)
        ensures
            final(self).cg() == emit(old(self).cg(), p0@ + p1@ + p2@ + p3@ + p4@ + p5@ + p6@ + p7@ + p8@),
    {
        self.out.append(p0);
        self.out.append(p1);
        self.out.append(p2);
        self.out.append(p3);
        self.out.append(p4);
        self.out.append(p5);
        self.out.append(p6);
        self.out.append(p7);
        self.out.append(p8);
        self.out.append("\n");
        proof {
            assert(self.out@ =~= old(self).out@ + (p0@ + p1@ + p2@ + p3@ + p4@ + p5@ + p6@ + p7@ + p8@) + "\n"@);
            assert(self.cg() =~= emit(old(self).cg(), p0@ + p1@ + p2@ + p3@ + p4@ + p5@ + p6@ + p7@ + p8@));
        }
    }

    fn emit13(&mut self, p0: &str, p1: &str, p2: &str, p3: &str, p4: &str, p5: &str, p6: &str, p7: &str, p8: &str, p9: &str, p10: &str, p11: &str, p12: &str)
        ensures
            final(self).cg() == emit(old(self).cg(), p0@ + p1@ + p2@ + p3@ + p4@ + p5@ + p6@ + p7@ + p8@ + p9@ + p10@ + p11@ + p12@),
    {
        self.out.append(p0);
        self.out.append(p1);
        self.out.append(p2);
        self.out.append(p3);
        self.out.append(p4);
        self.out.append(p5);
        self.out.append(p6);
        self.out.append(p7);
        self.out.append(p8);
        self.out.append(p9);
        self.out.append(p10);
        self.out.append(p11);
        self.out.append(p12);
        self.out.append("\n");
        proof {
            assert(self.out@ =~= old(self).out@ + (p0@ + p1@ + p2@ + p3@ + p4@ + p5@ + p6@ + p7@ + p8@ + p9@ + p10@ + p11@ + p12@) + "\n"@);
            assert(self.cg() =~= emit(old(self).cg(), p0@ + p1@ + p2@ + p3@ + p4@ + p5@ + p6@ + p7@ + p8@ + p9@ + p10@ + p11@ + p12@));
        }
    }

    // ── Counters ────────────────────────────────────────────────────────────

    fn fresh_reg(&mut self) -> (r: String)
        requires
            old(self).reg < usize::MAX,
        ensures
            final(self).cg() == fresh_reg(old(self).cg()).0,
            r@ == fresh_reg(old(self).cg()).1,
    {
        self.reg = self.reg + 1;
        let mut r = owned("%r");
        r.append(usize_text(self.reg).as_str());
        proof {
            assert(self.cg() =~= fresh_reg(old(self).cg()).0);
        }
        r
    }

    fn fresh_label(&mut self) -> (r: String)
        requires
            old(self).label < usize::MAX,
        ensures
            final(self).cg() == fresh_label(old(self).cg()).0,
            r@ == fresh_label(old(self).cg()).1,
    {
        self.label = self.label + 1;
        let mut r = owned("lbl");
        r.append(usize_text(self.label).as_str());
        proof {
            assert(self.cg() =~= fresh_label(old(self).cg()).0);
        }
        r
    }

    fn fresh_slot(&mut self, name: &String) -> (r: String)
        requires
            old(self).slot_id < usize::MAX,
        ensures
            final(self).cg() == fresh_slot(old(self).cg(), name@).0,
            r@ == fresh_slot(old(self).cg(), name@).1,
    {
        self.slot_id = self.slot_id + 1;
        let mut r = owned("%");
        r.append(name.as_str());
        r.append(".s");
        r.append(usize_text(self.slot_id).as_str());
        proof {
            assert(self.cg() =~= fresh_slot(old(self).cg(), name@).0);
        }
        r
    }

    // ── Scopes ──────────────────────────────────────────────────────────────

    fn push_scope(&mut self)
        ensures
            final(self).cg() == push_scope(old(self).cg()),
    {
        self.vars.push(Table::new());
        proof {
            assert(self.cg().vars =~= push_scope(old(self).cg()).vars);
            assert(self.cg() =~= push_scope(old(self).cg()));
        }
    }

    fn pop_scope(&mut self)
        ensures
            final(self).cg() == pop_scope(old(self).cg()),
    {
        self.vars.pop();
        proof {
            assert(self.cg().vars =~= pop_scope(old(self).cg()).vars);
            assert(self.cg() =~= pop_scope(old(self).cg()));
        }
    }

    fn declare_var(&mut self, name: &String, slot: String, ty: Type)
        ensures
            final(self).cg() == declare(old(self).cg(), name@, (slot@, ty@)),
    {
        match self.vars.pop() {
            Some(mut top) => {
                top.insert(copy_string(name), VarSlot { ptr: slot, ty });
                self.vars.push(top);
                proof {
                    assert(self.cg().vars =~= declare(old(self).cg(), name@, (slot@, ty@)).vars);
                    assert(self.cg() =~= declare(old(self).cg(), name@, (slot@, ty@)));
                }
            },
            None => {},
        }
    }

    fn lookup_var(&self, name: &String) -> (r: Option<(String, Type)>)
        ensures
            match (r, lookup_slot(self.cg().vars, name@)) {
                (Some(v), Some(w)) => v.0@ == w.0 && v.1@ == w.1,
                (None, None) => true,
                _ => false,
            },
    {
        let ghost vs = self.cg().vars;
        let mut i = self.vars.len();
        assert(vs.subrange(0, i as int) =~= vs);
        while i > 0
            invariant
                i <= vs.len(),
                vs == self.cg().vars,
                lookup_slot(vs, name@) == lookup_slot(vs.subrange(0, i as int), name@),
            decreases i,
        {
            proof {
                assert(vs.subrange(0, i as int).drop_last() =~= vs.subrange(0, i as int - 1));
                assert(vs.subrange(0, i as int).last() == vs[i as int - 1]);
            }
            match self.vars[i - 1].get(name) {
                Some(v) => {
                    return Some((copy_string(&v.ptr), v.ty.copy()));
                },
                None => {},
            }
            i = i - 1;
        }
        None
    }

    fn push_jumps(&mut self, brk: String, cont: String)
        ensures
            final(self).cg() == with_jumps(old(self).cg(), brk@, cont@),
    {
        self.break_labels.push(brk);
        self.continue_labels.push(cont);
        proof {
            assert(self.cg().breaks =~= with_jumps(old(self).cg(), brk@, cont@).breaks);
            assert(self.cg().conts =~= with_jumps(old(self).cg(), brk@, cont@).conts);
            assert(self.cg() =~= with_jumps(old(self).cg(), brk@, cont@));
        }
    }

    fn pop_jumps(&mut self)
        ensures
            final(self).cg() == drop_jumps(old(self).cg()),
    {
        self.break_labels.pop();
        self.continue_labels.pop();
        proof {
            assert(self.cg().breaks =~= drop_jumps(old(self).cg()).breaks);
            assert(self.cg().conts =~= drop_jumps(old(self).cg()).conts);
            assert(self.cg() =~= drop_jumps(old(self).cg()));
        }
    }

    // ── Values ──────────────────────────────────────────────────────────────

    fn ptr_to_i64(&mut self, v: &String, t: &Type) -> (r: String)
        requires
            old(self).reg < usize::MAX,
        ensures
            final(self).cg() == ptr_to_i64(old(self).cg(), v@, t@).0,
            r@ == ptr_to_i64(old(self).cg(), v@, t@).1,
    {
        if holds_pointer(t) {
            let r = self.fresh_reg();
            self.emit5("  ", r.as_str(), " = ptrtoint ptr ", v.as_str(), " to i64");
            r
        } else {
            copy_string(v)
        }
    }

    fn i64_to_elem(&mut self, v: &String, t: &Type) -> (r: String)
        requires
            old(self).reg < usize::MAX,
        ensures
            final(self).cg() == i64_to_elem(old(self).cg(), v@, t@).0,
            r@ == i64_to_elem(old(self).cg(), v@, t@).1,
    {
        if holds_pointer(t) {
            let r = self.fresh_reg();
            self.emit5("  ", r.as_str(), " = inttoptr i64 ", v.as_str(), " to ptr");
            r
        } else {
            copy_string(v)
        }
    }

    fn coerce_to_i1(&mut self, v: &String) -> (r: String)
        requires
            old(self).reg < usize::MAX,
        ensures
            final(self).cg() == coerce_to_i1(old(self).cg(), v@).0,
            r@ == coerce_to_i1(old(self).cg(), v@).1,
    {
        let r = self.fresh_reg();
        self.emit5("  ", r.as_str(), " = trunc i64 ", v.as_str(), " to i1");
        r
    }

    /// Interns a string literal; gives its index.
    fn intern_str(&mut self, s: &String) -> (r: usize)
        ensures
            final(self).cg() == intern(old(self).cg(), s@).0,
            r == intern(old(self).cg(), s@).1,
            r < final(self).str_lits@.len(),
            final(self).str_lits@[r as int].1 as nat == intern(old(self).cg(), s@).0.lits[r as int].1,
    {
        let escaped = escape_text(s);
        let bc = raw_byte_count(escaped.as_str());
        self.str_lits.push((escaped, bc));
        proof {
            assert(self.cg().lits =~= intern(old(self).cg(), s@).0.lits);
            assert(self.cg() =~= intern(old(self).cg(), s@).0);
        }
        self.str_lits.len() - 1
    }

    fn float_fixed(&self, t: &String) -> (r: String)
        ensures
            r@ == float_fixed(self.cg(), t@),
    {
        match self.floats.get(t) {
            Some(f) => copy_string(&f.fixed),
            None => copy_string(t),
        }
    }

    fn float_sci(&self, t: &String) -> (r: String)
        ensures
            r@ == float_sci(self.cg(), t@),
    {
        match self.floats.get(t) {
            Some(f) => copy_string(&f.sci),
            None => copy_string(t),
        }
    }

    fn ir_comment(&self, hw: &HwAnnotation) -> (r: String)
        ensures
            r@ == ir_comment_text(self.cg(), *hw),
    {
        match hw {
            HwAnnotation::Cpu => owned("; placement=cpu"),
            HwAnnotation::Gpu => owned("; placement=gpu"),
            HwAnnotation::CpuFrac(f) => {
                let mut r = owned("; placement=cpu cores=");
                match self.floats.get(f) {
                    Some(t) => r.append(t.places3.as_str()),
                    None => r.append(f.as_str()),
                }
                r
            },
            HwAnnotation::GpuFrac(f) => {
                let mut r = owned("; placement=gpu alloc=");
                match self.floats.get(f) {
                    Some(t) => r.append(t.places3.as_str()),
                    None => r.append(f.as_str()),
                }
                r
            },
        }
    }

    // ── Calls ───────────────────────────────────────────────────────────────

    fn print_val(&mut self, v: &String, t: &Type)
        ensures
            final(self).cg() == print_val(old(self).cg(), v@, t@),
    {
        match t {
            Type::Float64 => self.emit3("  call i32 (ptr, ...) @printf(ptr @fmt_float, double ", v.as_str(), ")"),
            Type::Str => self.emit3("  call i32 (ptr, ...) @printf(ptr @fmt_str, ptr ", v.as_str(), ")"),
            _ => self.emit3("  call i32 (ptr, ...) @printf(ptr @fmt_int, i64 ", v.as_str(), ")"),
        }
    }

    fn emit_user_call(&mut self, callee: &String, args: &Vec<(String, Type)>) -> (r: (String, Type))
        requires
            old(self).reg < usize::MAX,
        ensures
            final(self).cg() == gen_user_call(old(self).cg(), callee@, vals_view(args@)).0,
            r.0@ == gen_user_call(old(self).cg(), callee@, vals_view(args@)).1,
            r.1@ == gen_user_call(old(self).cg(), callee@, vals_view(args@)).2,
    {
        let rt = match self.fns.get(callee) {
            Some(sig) => sig.ret.copy(),
            None => Type::Void,
        };
        let ir = args_ir_text(args);
        if rt.is_void() {
            self.emit5("  call void @", callee.as_str(), "(", ir.as_str(), ")");
            (owned("0"), Type::Void)
        } else {
            let r = self.fresh_reg();
            self.emit9("  ", r.as_str(), " = call ", ir_type(&rt), " @", callee.as_str(), "(", ir.as_str(), ")");
            (r, rt)
        }
    }

    /// A call of `callee` with the values of its arguments.
    fn emit_call(&mut self, callee: &String, args: &Vec<(String, Type)>) -> (r: (String, Type))
        requires
            args@.len() >= call_arity(callee@),
            fits(old(self).cg(), 4),
        ensures
            final(self).cg() == gen_call(old(self).cg(), callee@, vals_view(args@)).0,
            r.0@ == gen_call(old(self).cg(), callee@, vals_view(args@)).1,
            r.1@ == gen_call(old(self).cg(), callee@, vals_view(args@)).2,
            within(old(self).cg(), final(self).cg(), 4),
    {
        let ghost c0 = self.cg();
        let ghost a = vals_view(args@);
        if text_is(callee, "print") || text_is(callee, "println") {
            let mut i: usize = 0;
            assert(a.subrange(0, 0) =~= Seq::<(Seq<char>, Ty)>::empty());
            while i < args.len()
                invariant
                    i <= args@.len(),
                    a == vals_view(args@),
                    self.cg() == print_vals(c0, a.subrange(0, i as int)),
                    within(c0, self.cg(), 0),
                decreases args.len() - i,
            {
                self.print_val(&args[i].0, &args[i].1);
                proof {
                    assert(a.subrange(0, i as int + 1).drop_last() =~= a.subrange(0, i as int));
                }
                i = i + 1;
            }
            assert(a.subrange(0, a.len() as int) =~= a);
            (owned("0"), Type::Void)
        } else if text_is(callee, "len") {
            let r = self.fresh_reg();
            match &args[0].1 {
                Type::Array(_) => self.emit5("  ", r.as_str(), " = call i64 @ionic_array_len(ptr ", args[0].0.as_str(), ")"),
                Type::Str => self.emit5("  ", r.as_str(), " = call i64 @strlen(ptr ", args[0].0.as_str(), ")"),
                _ => self.emit3("  ", r.as_str(), " = add i64 0, 0 ; len unsupported type"),
            }
            (r, Type::Int64)
        } else if text_is(callee, "push") {
            let iv = self.ptr_to_i64(&args[1].0, &args[1].1);
            self.emit5("  call void @ionic_array_push(ptr ", args[0].0.as_str(), ", i64 ", iv.as_str(), ")");
            (owned("0"), Type::Void)
        } else if is_call_group_1(callee) {
            self.emit_call_group_1(callee, args)
        } else if is_call_group_2(callee) {
            self.emit_call_group_2(callee, args)
        } else if is_call_group_3(callee) {
            self.emit_call_group_3(callee, args)
        } else if is_call_group_4(callee) {
            self.emit_call_group_4(callee, args)
        } else {
            self.emit_user_call(callee, args)
        }
    }

    // ── Expressions ─────────────────────────────────────────────────────────

    /// Generates an expression; gives its value and type.
    fn emit_expr(&mut self, e: &Expr) -> (r: (String, Type))
        requires
            fits(old(self).cg(), ecost(e)),
            args_ok(e),
            layouts_fit(old(self).cg().structs),
        ensures
            final(self).cg() == gen_expr(old(self).cg(), e).0,
            r.0@ == gen_expr(old(self).cg(), e).1,
            r.1@ == gen_expr(old(self).cg(), e).2,
            within(old(self).cg(), final(self).cg(), ecost(e)),
        decreases e, 1nat,
    {
        match e {
            Expr::IntLit(n) => (i64_text(*n), Type::Int64),
            Expr::FloatLit(t) => (self.float_fixed(t), Type::Float64),
            Expr::BoolLit(b) => (owned(if *b { "1" } else { "0" }), Type::Int64),
            Expr::StringLit(s) => self.emit_string_lit(s),
            Expr::Ident(n) => self.emit_ident(n),
            Expr::BinOp { .. } => self.emit_binop(e),
            Expr::UnOp { .. } => self.emit_unop(e),
            Expr::Call { .. } => self.emit_call_expr(e),
            Expr::MethodCall { .. } => self.emit_method_call(e),
            Expr::StructLit { .. } => self.emit_struct_lit(e),
            Expr::FieldAccess { .. } => self.emit_field_access(e),
            Expr::Index { .. } => self.emit_index(e),
            Expr::ArrayLit(..) => self.emit_array_lit(e),
            Expr::ToGpu(..) | Expr::ToCpu(..) => self.emit_transfer(e),
        }
    }

    fn emit_string_lit(&mut self, s: &String) -> (r: (String, Type))
        requires
            old(self).reg < usize::MAX,
        ensures
            final(self).cg() == gen_string_lit(old(self).cg(), s@).0,
            r.0@ == gen_string_lit(old(self).cg(), s@).1,
            r.1@ == gen_string_lit(old(self).cg(), s@).2,
    {
        let idx = self.intern_str(s);
        let bc = self.str_lits[idx].1;
        let reg = self.fresh_reg();
        let bt = succ_text(bc);
        let it = usize_text(idx);
        self.emit7("  ", reg.as_str(), " = getelementptr [", bt.as_str(), " x i8], ptr @str", it.as_str(), ", i32 0, i32 0");
        (reg, Type::Str)
    }

    fn emit_ident(&mut self, name: &String) -> (r: (String, Type))
        requires
            old(self).reg < usize::MAX,
        ensures
            final(self).cg() == gen_ident(old(self).cg(), name@).0,
            r.0@ == gen_ident(old(self).cg(), name@).1,
            r.1@ == gen_ident(old(self).cg(), name@).2,
    {
        match self.lookup_var(name) {
            Some((slot, ty)) => {
                match ty {
                    Type::Void | Type::Unknown => (owned("0"), Type::Unknown),
                    _ => {
                        let reg = self.fresh_reg();
                        self.emit7("  ", reg.as_str(), " = load ", ir_type(&ty), ", ptr ", slot.as_str(), ", align 8");
                        (reg, ty)
                    },
                }
            },
            None => {
                let mut v = owned("0 ; undef:");
                v.append(name.as_str());
                (v, Type::Unknown)
            },
        }
    }

    fn emit_binop(&mut self, e: &Expr) -> (r: (String, Type))
        requires
            e is BinOp,
            fits(old(self).cg(), ecost(e)),
            args_ok(e),
            layouts_fit(old(self).cg().structs),
        ensures
            final(self).cg() == gen_expr(old(self).cg(), e).0,
            r.0@ == gen_expr(old(self).cg(), e).1,
            r.1@ == gen_expr(old(self).cg(), e).2,
            within(old(self).cg(), final(self).cg(), ecost(e)),
        decreases e, 0nat,
    {
        match e {
            Expr::BinOp { op, lhs, rhs } => {
                let (lv, lt) = self.emit_expr(lhs);
                let (rv, _rt) = self.emit_expr(rhs);
                let reg = self.fresh_reg();
                let f = lt.same(&Type::Float64);
                let ll = ir_type(&lt);
                if is_comparison(*op) {
                    let i1 = self.fresh_reg();
                    let ins = cmp_text(*op, f, ll, &lv, &rv);
                    self.emit4("  ", i1.as_str(), " = ", ins.as_str());
                    self.emit5("  ", reg.as_str(), " = zext i1 ", i1.as_str(), " to i64");
                    (reg, Type::Int64)
                } else {
                    let ins = arith_text(*op, f, ll, &lv, &rv);
                    self.emit4("  ", reg.as_str(), " = ", ins.as_str());
                    let t = match op {
                        BinOp::And | BinOp::Or => Type::Int64,
                        _ => lt,
                    };
                    (reg, t)
                }
            },
            _ => (String::new(), Type::Unknown),
        }
    }

    fn emit_unop(&mut self, e: &Expr) -> (r: (String, Type))
        requires
            e is UnOp,
            fits(old(self).cg(), ecost(e)),
            args_ok(e),
            layouts_fit(old(self).cg().structs),
        ensures
            final(self).cg() == gen_expr(old(self).cg(), e).0,
            r.0@ == gen_expr(old(self).cg(), e).1,
            r.1@ == gen_expr(old(self).cg(), e).2,
            within(old(self).cg(), final(self).cg(), ecost(e)),
        decreases e, 0nat,
    {
        match e {
            Expr::UnOp { op, expr } => {
                let (v, t) = self.emit_expr(expr);
                let reg = self.fresh_reg();
                match op {
                    UnOp::Neg => {
                        if t.same(&Type::Float64) {
                            self.emit4("  ", reg.as_str(), " = fneg double ", v.as_str());
                        } else {
                            self.emit4("  ", reg.as_str(), " = sub i64 0, ", v.as_str());
                        }
                        (reg, t)
                    },
                    UnOp::Not => {
                        self.emit5("  ", reg.as_str(), " = xor i64 ", v.as_str(), ", 1");
                        (reg, Type::Int64)
                    },
                }
            },
            _ => (String::new(), Type::Unknown),
        }
    }

    /// Generates a list of expressions, left to right.
    fn emit_args(&mut self, args: &Vec<Expr>) -> (r: Vec<(String, Type)>)
        requires
            fits(old(self).cg(), ecost_list(args@)),
            args_ok_list(args@),
            layouts_fit(old(self).cg().structs),
        ensures
            final(self).cg() == gen_args(old(self).cg(), args@).0,
            vals_view(r@) == gen_args(old(self).cg(), args@).1,
            r@.len() == args@.len(),
            within(old(self).cg(), final(self).cg(), ecost_list(args@)),
        decreases args, 0nat,
    {
        let ghost c0 = self.cg();
        let mut vals: Vec<(String, Type)> = Vec::new();
        let mut i: usize = 0;
        proof {
            lemma_expr_list_prefix(args@);
            assert(args@.subrange(0, 0) =~= Seq::<Expr>::empty());
            assert(vals_view(vals@) =~= gen_args(c0, args@.subrange(0, 0)).1);
        }
        while i < args.len()
            invariant
                i <= args@.len(),
                vals@.len() == i,
                self.cg() == gen_args(c0, args@.subrange(0, i as int)).0,
                vals_view(vals@) == gen_args(c0, args@.subrange(0, i as int)).1,
                within(c0, self.cg(), ecost_list(args@.subrange(0, i as int))),
                fits(c0, ecost_list(args@)),
                layouts_fit(c0.structs),
                forall|j: int| 0 <= j <= args@.len() ==> ecost_list(#[trigger] args@.subrange(0, j)) <= ecost_list(args@),
                forall|j: int| 0 <= j < args@.len() ==> #[trigger] args_ok(&args@[j]),
            decreases args.len() - i,
        {
            proof {
                assert(args@.subrange(0, i as int + 1).drop_last() =~= args@.subrange(0, i as int));
                assert(args@.subrange(0, i as int + 1).last() == args@[i as int]);
                assert(ecost_list(args@.subrange(0, i as int + 1)) <= ecost_list(args@));
            }
            let v = self.emit_expr(&args[i]);
            let ghost prev = vals@;
            vals.push(v);
            proof {
                assert(vals_view(vals@) =~= vals_view(prev).push((v.0@, v.1@)));
            }
            i = i + 1;
        }
        proof {
            assert(args@.subrange(0, args@.len() as int) =~= args@);
        }
        vals
    }

    fn emit_call_expr(&mut self, e: &Expr) -> (r: (String, Type))
        requires
            e is Call,
            fits(old(self).cg(), ecost(e)),
            args_ok(e),
            layouts_fit(old(self).cg().structs),
        ensures
            final(self).cg() == gen_expr(old(self).cg(), e).0,
            r.0@ == gen_expr(old(self).cg(), e).1,
            r.1@ == gen_expr(old(self).cg(), e).2,
            within(old(self).cg(), final(self).cg(), ecost(e)),
        decreases e, 0nat,
    {
        match e {
            Expr::Call { callee, args } => {
                let vals = self.emit_args(args);
                self.emit_call(callee, &vals)
            },
            _ => (String::new(), Type::Unknown),
        }
    }

    fn emit_method_call(&mut self, e: &Expr) -> (r: (String, Type))
        requires
            e is MethodCall,
            fits(old(self).cg(), ecost(e)),
            args_ok(e),
            layouts_fit(old(self).cg().structs),
        ensures
            final(self).cg() == gen_expr(old(self).cg(), e).0,
            r.0@ == gen_expr(old(self).cg(), e).1,
            r.1@ == gen_expr(old(self).cg(), e).2,
            within(old(self).cg(), final(self).cg(), ecost(e)),
        decreases e, 0nat,
    {
        match e {
            Expr::MethodCall { obj, method, args } => {
                let (ov, ot) = self.emit_expr(obj);
                let vals = self.emit_args(args);
                let is_array = match &ot {
                    Type::Array(_) => true,
                    _ => false,
                };
                let is_model = match &ot {
                    Type::Model(_) => true,
                    _ => false,
                };
                if is_array && text_is(method, "len") {
                    let r = self.fresh_reg();
                    self.emit5("  ", r.as_str(), " = call i64 @ionic_array_len(ptr ", ov.as_str(), ")");
                    (r, Type::Int64)
                } else if is_array && text_is(method, "push") {
                    let iv = self.ptr_to_i64(&vals[0].0, &vals[0].1);
                    self.emit5("  call void @ionic_array_push(ptr ", ov.as_str(), ", i64 ", iv.as_str(), ")");
                    (owned("0"), Type::Void)
                } else if ot.same(&Type::Str) && text_is(method, "len") {
                    let r = self.fresh_reg();
                    self.emit5("  ", r.as_str(), " = call i64 @strlen(ptr ", ov.as_str(), ")");
                    (r, Type::Int64)
                } else if is_model && text_is(method, "forward") {
                    let tv = if vals.len() > 0 {
                        copy_string(&vals[0].0)
                    } else {
                        owned("null")
                    };
                    let r = self.fresh_reg();
                    self.emit7("  ", r.as_str(), " = call ptr @ionic_model_forward(ptr ", ov.as_str(), ", ptr ", tv.as_str(), ")");
                    let hw = match &ot {
                        Type::Model(h) => **h,
                        _ => HwTarget::Cpu,
                    };
                    (r, Type::Tensor(Box::new(hw)))
                } else if is_model && text_is(method, "to_gpu") {
                    self.emit1("  ; model.to_gpu() — stub: Phase 1 returns same handle");
                    (ov, Type::Model(Box::new(HwTarget::Gpu)))
                } else if is_model && text_is(method, "to_cpu") {
                    self.emit1("  ; model.to_cpu() — stub");
                    (ov, Type::Model(Box::new(HwTarget::Cpu)))
                } else {
                    let r = self.fresh_reg();
                    self.emit4("  ", r.as_str(), " = add i64 0, 0 ; stub method .", method.as_str());
                    (r, Type::Int64)
                }
            },
            _ => (String::new(), Type::Unknown),
        }
    }

    fn emit_struct_lit(&mut self, e: &Expr) -> (r: (String, Type))
        requires
            e is StructLit,
            fits(old(self).cg(), ecost(e)),
            args_ok(e),
            layouts_fit(old(self).cg().structs),
        ensures
            final(self).cg() == gen_expr(old(self).cg(), e).0,
            r.0@ == gen_expr(old(self).cg(), e).1,
            r.1@ == gen_expr(old(self).cg(), e).2,
            within(old(self).cg(), final(self).cg(), ecost(e)),
        decreases e, 0nat,
    {
        match e {
            Expr::StructLit { name, fields } => {
                let layout = match self.structs.get(name) {
                    Some(l) => Some(copy_layout(l)),
                    None => None,
                };
                match layout {
                    Some(layout) => {
                        let size = layout.fields.len();
                        let bytes: u64 = (size as u64) * 8;
                        let p = self.fresh_reg();
                        let bt = i64_text(bytes as i64);
                        self.emit5("  ", p.as_str(), " = call ptr @malloc(i64 ", bt.as_str(), ")");
                        self.emit_fields(&layout, &p, fields);
                        (p, Type::Struct(copy_string(name)))
                    },
                    None => (owned("null"), Type::Unknown),
                }
            },
            _ => (String::new(), Type::Unknown),
        }
    }

    /// Stores each field of a struct literal at its offset from `p`.
    fn emit_fields(&mut self, layout: &StructLayout, p: &String, fields: &Vec<(String, Expr)>)
        requires
            fits(old(self).cg(), ecost_fields(fields@)),
            args_ok_fields(fields@),
            layouts_fit(old(self).cg().structs),
        ensures
            final(self).cg() == gen_fields(old(self).cg(), layout@, p@, fields@),
            within(old(self).cg(), final(self).cg(), ecost_fields(fields@)),
        decreases fields, 0nat,
    {
        let ghost c0 = self.cg();
        let mut i: usize = 0;
        proof {
            lemma_fields_prefix(fields@);
            assert(fields@.subrange(0, 0) =~= Seq::<(String, Expr)>::empty());
        }
        while i < fields.len()
            invariant
                i <= fields@.len(),
                self.cg() == gen_fields(c0, layout@, p@, fields@.subrange(0, i as int)),
                within(c0, self.cg(), ecost_fields(fields@.subrange(0, i as int))),
                fits(c0, ecost_fields(fields@)),
                layouts_fit(c0.structs),
                forall|j: int|
                    0 <= j <= fields@.len() ==> ecost_fields(#[trigger] fields@.subrange(0, j)) <= ecost_fields(
                        fields@,
                    ),
                forall|j: int| 0 <= j < fields@.len() ==> #[trigger] args_ok(&fields@[j].1),
            decreases fields.len() - i,
        {
            proof {
                assert(fields@.subrange(0, i as int + 1).drop_last() =~= fields@.subrange(0, i as int));
                assert(fields@.subrange(0, i as int + 1).last() == fields@[i as int]);
                assert(ecost_fields(fields@.subrange(0, i as int + 1)) <= ecost_fields(fields@));
            }
            let (v, t) = self.emit_expr(&fields[i].1);
            match struct_field_offset(layout, &fields[i].0) {
                Some(idx) => {
                    let gep = self.fresh_reg();
                    let it = usize_text(idx);
                    self.emit6("  ", gep.as_str(), " = getelementptr i64, ptr ", p.as_str(), ", i64 ", it.as_str());
                    self.emit7("  store ", ir_type(&t), " ", v.as_str(), ", ptr ", gep.as_str(), ", align 8");
                },
                None => {},
            }
            i = i + 1;
        }
        proof {
            assert(fields@.subrange(0, fields@.len() as int) =~= fields@);
        }
    }

    fn emit_field_access(&mut self, e: &Expr) -> (r: (String, Type))
        requires
            e is FieldAccess,
            fits(old(self).cg(), ecost(e)),
            args_ok(e),
            layouts_fit(old(self).cg().structs),
        ensures
            final(self).cg() == gen_expr(old(self).cg(), e).0,
            r.0@ == gen_expr(old(self).cg(), e).1,
            r.1@ == gen_expr(old(self).cg(), e).2,
            within(old(self).cg(), final(self).cg(), ecost(e)),
        decreases e, 0nat,
    {
        match e {
            Expr::FieldAccess { obj, field } => {
                let (ov, ot) = self.emit_expr(obj);
                let is_len = text_is(field, "len");
                let is_array = match &ot {
                    Type::Array(_) => true,
                    _ => false,
                };
                if is_len && is_array {
                    let r = self.fresh_reg();
                    self.emit5("  ", r.as_str(), " = call i64 @ionic_array_len(ptr ", ov.as_str(), ")");
                    return (r, Type::Int64);
                }
                if is_len && ot.same(&Type::Str) {
                    let r = self.fresh_reg();
                    self.emit5("  ", r.as_str(), " = call i64 @strlen(ptr ", ov.as_str(), ")");
                    return (r, Type::Int64);
                }
                match &ot {
                    Type::Struct(sname) => {
                        let layout = match self.structs.get(sname) {
                            Some(l) => Some(copy_layout(l)),
                            None => None,
                        };
                        match layout {
                            Some(l) => match struct_field_offset(&l, field) {
                                Some(idx) => {
                                    let ft = l.fields[idx].1.copy();
                                    let gep = self.fresh_reg();
                                    let reg = self.fresh_reg();
                                    let it = usize_text(idx);
                                    self.emit6("  ", gep.as_str(), " = getelementptr i64, ptr ", ov.as_str(), ", i64 ", it.as_str());
                                    self.emit7("  ", reg.as_str(), " = load ", ir_type(&ft), ", ptr ", gep.as_str(), ", align 8");
                                    return (reg, ft);
                                },
                                None => {},
                            },
                            None => {},
                        }
                    },
                    _ => {},
                }
                (owned("0"), Type::Unknown)
            },
            _ => (String::new(), Type::Unknown),
        }
    }

    fn emit_index(&mut self, e: &Expr) -> (r: (String, Type))
        requires
            e is Index,
            fits(old(self).cg(), ecost(e)),
            args_ok(e),
            layouts_fit(old(self).cg().structs),
        ensures
            final(self).cg() == gen_expr(old(self).cg(), e).0,
            r.0@ == gen_expr(old(self).cg(), e).1,
            r.1@ == gen_expr(old(self).cg(), e).2,
            within(old(self).cg(), final(self).cg(), ecost(e)),
        decreases e, 0nat,
    {
        match e {
            Expr::Index { obj, idx } => {
                let (ov, ot) = self.emit_expr(obj);
                let (iv, _) = self.emit_expr(idx);
                let et = match &ot {
                    Type::Array(inner) => (**inner).copy(),
                    Type::Str => Type::Int64,
                    _ => Type::Unknown,
                };
                let raw = self.fresh_reg();
                self.emit7("  ", raw.as_str(), " = call i64 @ionic_array_get(ptr ", ov.as_str(), ", i64 ", iv.as_str(), ")");
                let reg = self.i64_to_elem(&raw, &et);
                (reg, et)
            },
            _ => (String::new(), Type::Unknown),
        }
    }

    fn emit_array_lit(&mut self, e: &Expr) -> (r: (String, Type))
        requires
            e is ArrayLit,
            fits(old(self).cg(), ecost(e)),
            args_ok(e),
            layouts_fit(old(self).cg().structs),
        ensures
            final(self).cg() == gen_expr(old(self).cg(), e).0,
            r.0@ == gen_expr(old(self).cg(), e).1,
            r.1@ == gen_expr(old(self).cg(), e).2,
            within(old(self).cg(), final(self).cg(), ecost(e)),
        decreases e, 0nat,
    {
        match e {
            Expr::ArrayLit(elems) => {
                let n = elems.len();
                let cap: usize = if n >= 8 {
                    n
                } else {
                    8
                };
                let p = self.fresh_reg();
                let ct = i64_text(cap as i64);
                self.emit5("  ", p.as_str(), " = call ptr @ionic_array_new(i64 8, i64 ", ct.as_str(), ")");
                let et = self.emit_elems(&p, elems);
                (p, Type::Array(Box::new(et)))
            },
            _ => (String::new(), Type::Unknown),
        }
    }

    /// Pushes each element of an array literal onto `p`; gives the element type.
    fn emit_elems(&mut self, p: &String, elems: &Vec<Expr>) -> (r: Type)
        requires
            fits(old(self).cg(), ecost_list(elems@) + elems@.len()),
            args_ok_list(elems@),
            layouts_fit(old(self).cg().structs),
        ensures
            final(self).cg() == gen_elems(old(self).cg(), p@, elems@).0,
            r@ == gen_elems(old(self).cg(), p@, elems@).1,
            within(old(self).cg(), final(self).cg(), ecost_list(elems@) + elems@.len()),
        decreases elems, 0nat,
    {
        let ghost c0 = self.cg();
        let mut et = Type::Unknown;
        let mut i: usize = 0;
        proof {
            lemma_expr_list_prefix(elems@);
            assert(elems@.subrange(0, 0) =~= Seq::<Expr>::empty());
        }
        while i < elems.len()
            invariant
                i <= elems@.len(),
                self.cg() == gen_elems(c0, p@, elems@.subrange(0, i as int)).0,
                et@ == gen_elems(c0, p@, elems@.subrange(0, i as int)).1,
                within(c0, self.cg(), ecost_list(elems@.subrange(0, i as int)) + i as nat),
                fits(c0, ecost_list(elems@) + elems@.len()),
                layouts_fit(c0.structs),
                forall|j: int| 0 <= j <= elems@.len() ==> ecost_list(#[trigger] elems@.subrange(0, j)) <= ecost_list(elems@),
                forall|j: int| 0 <= j < elems@.len() ==> #[trigger] args_ok(&elems@[j]),
            decreases elems.len() - i,
        {
            proof {
                assert(elems@.subrange(0, i as int + 1).drop_last() =~= elems@.subrange(0, i as int));
                assert(elems@.subrange(0, i as int + 1).last() == elems@[i as int]);
                assert(ecost_list(elems@.subrange(0, i as int + 1)) <= ecost_list(elems@));
            }
            let (v, t) = self.emit_expr(&elems[i]);
            if et.is_unknown() {
                et = t.copy();
            }
            let iv = self.ptr_to_i64(&v, &t);
            self.emit5("  call void @ionic_array_push(ptr ", p.as_str(), ", i64 ", iv.as_str(), ")");
            i = i + 1;
        }
        proof {
            assert(elems@.subrange(0, elems@.len() as int) =~= elems@);
        }
        et
    }

    fn emit_transfer(&mut self, e: &Expr) -> (r: (String, Type))
        requires
            e is ToGpu || e is ToCpu,
            fits(old(self).cg(), ecost(e)),
            args_ok(e),
            layouts_fit(old(self).cg().structs),
        ensures
            final(self).cg() == gen_expr(old(self).cg(), e).0,
            r.0@ == gen_expr(old(self).cg(), e).1,
            r.1@ == gen_expr(old(self).cg(), e).2,
            within(old(self).cg(), final(self).cg(), ecost(e)),
        decreases e, 0nat,
    {
        match e {
            Expr::ToGpu(x) => {
                let (v, _) = self.emit_expr(x);
                self.emit1("  ; .toGpu() — Phase 1 stub");
                (v, Type::Tensor(Box::new(HwTarget::Gpu)))
            },
            Expr::ToCpu(x) => {
                let (v, _) = self.emit_expr(x);
                self.emit1("  ; .toCpu() — Phase 1 stub");
                (v, Type::Tensor(Box::new(HwTarget::Cpu)))
            },
            _ => (String::new(), Type::Unknown),
        }
    }
    #[verifier::rlimit(40)]
    fn emit_call_group_1(&mut self, callee: &String, args: &Vec<(String, Type)>) -> (r: (String, Type))
        requires
            in_call_group_1(callee@),
            args@.len() >= group_arity_1(callee@),
            fits(old(self).cg(), 4),
        ensures
            final(self).cg() == gen_call_group_1(old(self).cg(), callee@, vals_view(args@)).0,
            r.0@ == gen_call_group_1(old(self).cg(), callee@, vals_view(args@)).1,
            r.1@ == gen_call_group_1(old(self).cg(), callee@, vals_view(args@)).2,
            within(old(self).cg(), final(self).cg(), 4),
    {
        let ghost a = vals_view(args@);
        if text_is(callee, "exit") {
            let t = self.fresh_reg();
            self.emit5("  ", t.as_str(), " = trunc i64 ", args[0].0.as_str(), " to i32");
            self.emit3("  call void @exit(i32 ", t.as_str(), ")");
            (owned("0"), Type::Void)
        }
        else if text_is(callee, "sqrt") {
            let r = self.fresh_reg();
            self.emit5("  ", r.as_str(), " = call double @sqrt(double ", args[0].0.as_str(), ")");
            (r, Type::Float64)
        }
        else if text_is(callee, "abs") {
            let r = self.fresh_reg();
            self.emit5("  ", r.as_str(), " = call double @fabs(double ", args[0].0.as_str(), ")");
            (r, Type::Float64)
        }
        else if text_is(callee, "int64_to_float64") {
            let r = self.fresh_reg();
            self.emit5("  ", r.as_str(), " = sitofp i64 ", args[0].0.as_str(), " to double");
            (r, Type::Float64)
        }
        else if text_is(callee, "float64_to_int64") {
            let r = self.fresh_reg();
            self.emit5("  ", r.as_str(), " = fptosi double ", args[0].0.as_str(), " to i64");
            (r, Type::Int64)
        }
        else if text_is(callee, "str_len") {
            let r = self.fresh_reg();
            self.emit5("  ", r.as_str(), " = call i64 @strlen(ptr ", args[0].0.as_str(), ")");
            (r, Type::Int64)
        }
        else if text_is(callee, "str_concat") {
            let r = self.fresh_reg();
            self.emit7("  ", r.as_str(), " = call ptr @ionic_str_concat(ptr ", args[0].0.as_str(), ", ptr ", args[1].0.as_str(), ")");
            (r, Type::Str)
        }
        else if text_is(callee, "str_eq") {
            let cmp = self.fresh_reg();
            let r = self.fresh_reg();
            self.emit7("  ", cmp.as_str(), " = call i32 @strcmp(ptr ", args[0].0.as_str(), ", ptr ", args[1].0.as_str(), ")");
            self.emit5("  ", r.as_str(), " = icmp eq i32 ", cmp.as_str(), ", 0");
            let ext = self.fresh_reg();
            self.emit5("  ", ext.as_str(), " = zext i1 ", r.as_str(), " to i64");
            (ext, Type::Int64)
        }
        else {
            (String::new(), Type::Unknown)
        }
    }

    #[verifier::rlimit(40)]
    fn emit_call_group_2(&mut self, callee: &String, args: &Vec<(String, Type)>) -> (r: (String, Type))
        requires
            in_call_group_2(callee@),
            args@.len() >= group_arity_2(callee@),
            fits(old(self).cg(), 4),
        ensures
            final(self).cg() == gen_call_group_2(old(self).cg(), callee@, vals_view(args@)).0,
            r.0@ == gen_call_group_2(old(self).cg(), callee@, vals_view(args@)).1,
            r.1@ == gen_call_group_2(old(self).cg(), callee@, vals_view(args@)).2,
            within(old(self).cg(), final(self).cg(), 4),
    {
        let ghost a = vals_view(args@);
        if text_is(callee, "str_index") {
            let r = self.fresh_reg();
            let gep = self.fresh_reg();
            self.emit6("  ", gep.as_str(), " = getelementptr i8, ptr ", args[0].0.as_str(), ", i64 ", args[1].0.as_str());
            let byte = self.fresh_reg();
            self.emit5("  ", byte.as_str(), " = load i8, ptr ", gep.as_str(), ", align 1");
            self.emit5("  ", r.as_str(), " = sext i8 ", byte.as_str(), " to i64");
            (r, Type::Int64)
        }
        else if text_is(callee, "int64_to_str") {
            let r = self.fresh_reg();
            self.emit5("  ", r.as_str(), " = call ptr @ionic_int64_to_str(i64 ", args[0].0.as_str(), ")");
            (r, Type::Str)
        }
        else if text_is(callee, "float64_to_str") {
            let r = self.fresh_reg();
            self.emit5("  ", r.as_str(), " = call ptr @ionic_float64_to_str(double ", args[0].0.as_str(), ")");
            (r, Type::Str)
        }
        else if text_is(callee, "char_to_str") {
            let r = self.fresh_reg();
            self.emit5("  ", r.as_str(), " = call ptr @ionic_char_to_str(i64 ", args[0].0.as_str(), ")");
            (r, Type::Str)
        }
        else if text_is(callee, "get_arg") {
            let r = self.fresh_reg();
            self.emit5("  ", r.as_str(), " = call ptr @ionic_get_arg(i64 ", args[0].0.as_str(), ")");
            (r, Type::Str)
        }
        else if text_is(callee, "cpu_core_count") {
            let r = self.fresh_reg();
            self.emit3("  ", r.as_str(), " = call i64 @ionic_cpu_core_count()");
            (r, Type::Int64)
        }
        else if text_is(callee, "file_exists") {
            let r32 = self.fresh_reg();
            self.emit5("  ", r32.as_str(), " = call i32 @access(ptr ", args[0].0.as_str(), ", i32 0)");
            let cmp = self.fresh_reg();
            self.emit5("  ", cmp.as_str(), " = icmp eq i32 ", r32.as_str(), ", 0");
            let r = self.fresh_reg();
            self.emit5("  ", r.as_str(), " = zext i1 ", cmp.as_str(), " to i64");
            (r, Type::Int64)
        }
        else if text_is(callee, "load_model") {
            let r = self.fresh_reg();
            self.emit5("  ", r.as_str(), " = call ptr @ionic_load_model(ptr ", args[0].0.as_str(), ")");
            (r, Type::Model(Box::new(HwTarget::Cpu)))
        }
        else {
            (String::new(), Type::Unknown)
        }
    }

    #[verifier::rlimit(40)]
    fn emit_call_group_3(&mut self, callee: &String, args: &Vec<(String, Type)>) -> (r: (String, Type))
        requires
            in_call_group_3(callee@),
            args@.len() >= group_arity_3(callee@),
            fits(old(self).cg(), 4),
        ensures
            final(self).cg() == gen_call_group_3(old(self).cg(), callee@, vals_view(args@)).0,
            r.0@ == gen_call_group_3(old(self).cg(), callee@, vals_view(args@)).1,
            r.1@ == gen_call_group_3(old(self).cg(), callee@, vals_view(args@)).2,
            within(old(self).cg(), final(self).cg(), 4),
    {
        let ghost a = vals_view(args@);
        if text_is(callee, "model_free") {
            self.emit3("  call void @ionic_model_free(ptr ", args[0].0.as_str(), ")");
            (owned("0"), Type::Void)
        }
        else if text_is(callee, "piper_forward") {
            let r = self.fresh_reg();
            self.emit13("  ", r.as_str(), " = call ptr @ionic_piper_forward(ptr ", args[0].0.as_str(), ", ptr ", args[1].0.as_str(), ", double ", args[2].0.as_str(), ", double ", args[3].0.as_str(), ", double ", args[4].0.as_str(), ")");
            proof {
                reveal_with_fuel(crate::ast::type_view, 2);
            }
            (r, Type::Array(Box::new(Type::Float64)))
        }
        else if text_is(callee, "write_wav") {
            self.emit9("  call void @ionic_write_wav(ptr ", args[0].0.as_str(), ", ptr ", args[1].0.as_str(), ", i64 ", args[2].0.as_str(), ", i64 ", args[3].0.as_str(), ")");
            (owned("0"), Type::Void)
        }
        else if text_is(callee, "gguf_generate") {
            let r = self.fresh_reg();
            self.emit9("  ", r.as_str(), " = call ptr @ionic_gguf_generate(ptr ", args[0].0.as_str(), ", ptr ", args[1].0.as_str(), ", i64 ", args[2].0.as_str(), ")");
            (r, Type::Str)
        }
        else if text_is(callee, "gguf_set_temp") {
            self.emit5("  call void @ionic_gguf_set_temp(ptr ", args[0].0.as_str(), ", double ", args[1].0.as_str(), ")");
            (owned("0"), Type::Void)
        }
        else if text_is(callee, "gguf_set_top_p") {
            self.emit5("  call void @ionic_gguf_set_top_p(ptr ", args[0].0.as_str(), ", double ", args[1].0.as_str(), ")");
            (owned("0"), Type::Void)
        }
        else if text_is(callee, "fgets_stdin") {
            let buf = self.fresh_reg();
            self.emit5("  ", buf.as_str(), " = call ptr @malloc(i64 ", args[0].0.as_str(), ")");
            let r = self.fresh_reg();
            self.emit7("  ", r.as_str(), " = call ptr @ionic_fgets_stdin(ptr ", buf.as_str(), ", i32 ", args[0].0.as_str(), ")");
            (r, Type::Str)
        }
        else if text_is(callee, "file_read") {
            let r = self.fresh_reg();
            self.emit5("  ", r.as_str(), " = call ptr @ionic_file_read(ptr ", args[0].0.as_str(), ")");
            (r, Type::Str)
        }
        else {
            (String::new(), Type::Unknown)
        }
    }

    #[verifier::rlimit(40)]
    fn emit_call_group_4(&mut self, callee: &String, args: &Vec<(String, Type)>) -> (r: (String, Type))
        requires
            in_call_group_4(callee@),
            args@.len() >= group_arity_4(callee@),
            fits(old(self).cg(), 4),
        ensures
            final(self).cg() == gen_call_group_4(old(self).cg(), callee@, vals_view(args@)).0,
            r.0@ == gen_call_group_4(old(self).cg(), callee@, vals_view(args@)).1,
            r.1@ == gen_call_group_4(old(self).cg(), callee@, vals_view(args@)).2,
            within(old(self).cg(), final(self).cg(), 4),
    {
        let ghost a = vals_view(args@);
        if text_is(callee, "file_write") {
            let fp = self.fresh_reg();
            self.emit5("  ", fp.as_str(), " = call ptr @fopen(ptr ", args[0].0.as_str(), ", ptr @mode_w)");
            self.emit5("  call i32 @fputs(ptr ", args[1].0.as_str(), ", ptr ", fp.as_str(), ")");
            self.emit3("  call i32 @fclose(ptr ", fp.as_str(), ")");
            (owned("1"), Type::Int64)
        }
        else if text_is(callee, "file_open_read") {
            let r = self.fresh_reg();
            self.emit5("  ", r.as_str(), " = call ptr @fopen(ptr ", args[0].0.as_str(), ", ptr @mode_r)");
            let ri = self.fresh_reg();
            self.emit5("  ", ri.as_str(), " = ptrtoint ptr ", r.as_str(), " to i64");
            (ri, Type::Int64)
        }
        else if text_is(callee, "file_open_write") {
            let r = self.fresh_reg();
            self.emit5("  ", r.as_str(), " = call ptr @fopen(ptr ", args[0].0.as_str(), ", ptr @mode_w)");
            let ri = self.fresh_reg();
            self.emit5("  ", ri.as_str(), " = ptrtoint ptr ", r.as_str(), " to i64");
            (ri, Type::Int64)
        }
        else if text_is(callee, "file_close") {
            let fp = self.fresh_reg();
            self.emit5("  ", fp.as_str(), " = inttoptr i64 ", args[0].0.as_str(), " to ptr");
            self.emit3("  call i32 @fclose(ptr ", fp.as_str(), ")");
            (owned("0"), Type::Void)
        }
        else if text_is(callee, "file_read_line") {
            let fp = self.fresh_reg();
            self.emit5("  ", fp.as_str(), " = inttoptr i64 ", args[0].0.as_str(), " to ptr");
            let buf = self.fresh_reg();
            self.emit3("  ", buf.as_str(), " = call ptr @malloc(i64 4096)");
            let ret = self.fresh_reg();
            self.emit7("  ", ret.as_str(), " = call ptr @fgets(ptr ", buf.as_str(), ", i32 4096, ptr ", fp.as_str(), ")");
            (buf, Type::Str)
        }
        else if text_is(callee, "file_write_line") {
            let fp = self.fresh_reg();
            self.emit5("  ", fp.as_str(), " = inttoptr i64 ", args[0].0.as_str(), " to ptr");
            self.emit5("  call i32 @fputs(ptr ", args[1].0.as_str(), ", ptr ", fp.as_str(), ")");
            (owned("0"), Type::Void)
        }
        else if text_is(callee, "file_eof") {
            let fp = self.fresh_reg();
            self.emit5("  ", fp.as_str(), " = inttoptr i64 ", args[0].0.as_str(), " to ptr");
            let r32 = self.fresh_reg();
            self.emit5("  ", r32.as_str(), " = call i32 @feof(ptr ", fp.as_str(), ")");
            let r = self.fresh_reg();
            self.emit5("  ", r.as_str(), " = sext i32 ", r32.as_str(), " to i64");
            (r, Type::Int64)
        }
        else {
            (String::new(), Type::Unknown)
        }
    }

    // ── Statements ──────────────────────────────────────────────────────────

    fn is_global(&self, name: &String) -> (r: bool)
        ensures
            r == self.cg().globals.contains(name@),
    {
        let mut i: usize = 0;
        while i < self.global_var_names.len()
            invariant
                i <= self.global_var_names@.len(),
                forall|j: int| 0 <= j < i ==> self.global_var_names@[j]@ != name@,
            decreases self.global_var_names.len() - i,
        {
            if same_text(&self.global_var_names[i], name) {
                assert(texts_view(self.global_var_names@)[i as int] == name@);
                return true;
            }
            i = i + 1;
        }
        proof {
            if texts_view(self.global_var_names@).contains(name@) {
                let j = choose|j: int|
                    0 <= j < texts_view(self.global_var_names@).len() && texts_view(self.global_var_names@)[j]
                        == name@;
                assert(self.global_var_names@[j]@ == name@);
            }
        }
        false
    }

    /// Generates a statement.
    fn emit_stmt(&mut self, s: &Stmt)
        requires
            fits(old(self).cg(), scost(s)),
            stmt_args_ok(s),
            layouts_fit(old(self).cg().structs),
        ensures
            final(self).cg() == gen_stmt(old(self).cg(), s),
            within(old(self).cg(), final(self).cg(), scost(s)),
        decreases s, 3nat,
    {
        match s {
            Stmt::Let { name, ty, init, .. } => {
                let (val, vty) = self.emit_expr(init);
                let resolved = match ty {
                    Some(a) => a.to_type(),
                    None => vty,
                };
                let ll = ir_type(&resolved);
                if self.is_global(name) && self.vars.len() == 1 {
                    self.emit7("  store ", ll, " ", val.as_str(), ", ptr @", name.as_str(), ", align 8");
                    let mut g = owned("@");
                    g.append(name.as_str());
                    self.declare_var(name, g, resolved);
                } else {
                    let slot = self.fresh_slot(name);
                    self.emit5("  ", slot.as_str(), " = alloca ", ll, ", align 8");
                    self.emit7("  store ", ll, " ", val.as_str(), ", ptr ", slot.as_str(), ", align 8");
                    self.declare_var(name, slot, resolved);
                }
            },
            Stmt::Assign { target, value } => {
                let (val, vty) = self.emit_expr(value);
                self.emit_store(target, &val, &vty);
            },
            Stmt::ExprStmt(e) => {
                self.emit_expr(e);
            },
            Stmt::Return(x) => match x {
                Some(e) => {
                    let (v, t) = self.emit_expr(e);
                    self.emit4("  ret ", ir_type(&t), " ", v.as_str());
                },
                None => self.emit1("  ret void"),
            },
            Stmt::If { .. } => self.emit_if(s),
            Stmt::While { .. } => self.emit_while(s),
            Stmt::For { .. } => self.emit_for(s),
            Stmt::GpuBlock(b) => {
                self.emit1("  ; === gpu block begin ===");
                self.emit_scoped(b);
                self.emit1("  ; === gpu block end ===");
            },
            Stmt::Break => {
                let n = self.break_labels.len();
                if n > 0 {
                    let lbl = copy_string(&self.break_labels[n - 1]);
                    self.emit2("  br label %", lbl.as_str());
                    let dead = self.fresh_label();
                    self.emit2(dead.as_str(), ":");
                }
            },
            Stmt::Continue => {
                let n = self.continue_labels.len();
                if n > 0 {
                    let lbl = copy_string(&self.continue_labels[n - 1]);
                    self.emit2("  br label %", lbl.as_str());
                    let dead = self.fresh_label();
                    self.emit2(dead.as_str(), ":");
                }
            },
            Stmt::Import(_) => {},
        }
    }

    /// Stores a value through an assignment target.
    fn emit_store(&mut self, target: &AssignTarget, v: &String, vt: &Type)
        requires
            fits(old(self).cg(), target_cost(target) + 1),
            target_args_ok(target),
            layouts_fit(old(self).cg().structs),
        ensures
            final(self).cg() == gen_store(old(self).cg(), target, v@, vt@),
            within(old(self).cg(), final(self).cg(), target_cost(target) + 1),
    {
        let ll = ir_type(vt);
        match target {
            AssignTarget::Ident(name) => {
                match self.lookup_var(name) {
                    Some((slot, _)) => {
                        self.emit7("  store ", ll, " ", v.as_str(), ", ptr ", slot.as_str(), ", align 8");
                    },
                    None => {},
                }
            },
            AssignTarget::Field(obj, field) => {
                let (ov, ot) = self.emit_expr(obj);
                match &ot {
                    Type::Struct(sname) => {
                        let layout = match self.structs.get(sname) {
                            Some(l) => Some(copy_layout(l)),
                            None => None,
                        };
                        match layout {
                            Some(l) => match struct_field_offset(&l, field) {
                                Some(idx) => {
                                    let gep = self.fresh_reg();
                                    let it = usize_text(idx);
                                    self.emit6("  ", gep.as_str(), " = getelementptr i64, ptr ", ov.as_str(), ", i64 ", it.as_str());
                                    self.emit7("  store ", ll, " ", v.as_str(), ", ptr ", gep.as_str(), ", align 8");
                                },
                                None => {},
                            },
                            None => {},
                        }
                    },
                    _ => {},
                }
            },
            AssignTarget::Index(obj, idx) => {
                let (ov, _) = self.emit_expr(obj);
                let (iv, _) = self.emit_expr(idx);
                let w = self.ptr_to_i64(v, vt);
                self.emit7("  call void @ionic_array_set(ptr ", ov.as_str(), ", i64 ", iv.as_str(), ", i64 ", w.as_str(), ")");
            },
        }
    }

    fn emit_if(&mut self, s: &Stmt)
        requires
            s is If,
            fits(old(self).cg(), scost(s)),
            stmt_args_ok(s),
            layouts_fit(old(self).cg().structs),
        ensures
            final(self).cg() == gen_stmt(old(self).cg(), s),
            within(old(self).cg(), final(self).cg(), scost(s)),
        decreases s, 2nat,
    {
        match s {
            Stmt::If { cond, then_block, else_block } => {
                let (cv, _) = self.emit_expr(cond);
                let ci = self.coerce_to_i1(&cv);
                let tl = self.fresh_label();
                let ml = self.fresh_label();
                match else_block {
                    Some(eb) => {
                        let el = self.fresh_label();
                        self.emit6("  br i1 ", ci.as_str(), ", label %", tl.as_str(), ", label %", el.as_str());
                        self.emit2(tl.as_str(), ":");
                        self.emit_scoped(then_block);
                        self.emit2("  br label %", ml.as_str());
                        self.emit2(el.as_str(), ":");
                        self.emit_scoped(eb);
                        self.emit2("  br label %", ml.as_str());
                        self.emit2(ml.as_str(), ":");
                    },
                    None => {
                        self.emit6("  br i1 ", ci.as_str(), ", label %", tl.as_str(), ", label %", ml.as_str());
                        self.emit2(tl.as_str(), ":");
                        self.emit_scoped(then_block);
                        self.emit2("  br label %", ml.as_str());
                        self.emit2(ml.as_str(), ":");
                    },
                }
            },
            _ => {},
        }
    }

    fn emit_while(&mut self, s: &Stmt)
        requires
            s is While,
            fits(old(self).cg(), scost(s)),
            stmt_args_ok(s),
            layouts_fit(old(self).cg().structs),
        ensures
            final(self).cg() == gen_stmt(old(self).cg(), s),
            within(old(self).cg(), final(self).cg(), scost(s)),
        decreases s, 2nat,
    {
        match s {
            Stmt::While { cond, body } => {
                let cl = self.fresh_label();
                let bl = self.fresh_label();
                let xl = self.fresh_label();
                self.push_jumps(copy_string(&xl), copy_string(&cl));
                self.emit2("  br label %", cl.as_str());
                self.emit2(cl.as_str(), ":");
                let (cv, _) = self.emit_expr(cond);
                let ci = self.coerce_to_i1(&cv);
                self.emit6("  br i1 ", ci.as_str(), ", label %", bl.as_str(), ", label %", xl.as_str());
                self.emit2(bl.as_str(), ":");
                self.emit_scoped(body);
                self.emit2("  br label %", cl.as_str());
                self.emit2(xl.as_str(), ":");
                self.pop_jumps();
            },
            _ => {},
        }
    }

    fn emit_for(&mut self, s: &Stmt)
        requires
            s is For,
            fits(old(self).cg(), scost(s)),
            stmt_args_ok(s),
            layouts_fit(old(self).cg().structs),
        ensures
            final(self).cg() == gen_stmt(old(self).cg(), s),
            within(old(self).cg(), final(self).cg(), scost(s)),
        decreases s, 2nat,
    {
        match s {
            Stmt::For { var, start, end, body } => {
                let (sv, _) = self.emit_expr(start);
                let (ev, _) = self.emit_expr(end);
                let slot = self.fresh_slot(var);
                self.emit3("  ", slot.as_str(), " = alloca i64, align 8");
                self.emit5("  store i64 ", sv.as_str(), ", ptr ", slot.as_str(), ", align 8");
                let cl = self.fresh_label();
                let bl = self.fresh_label();
                let il = self.fresh_label();
                let xl = self.fresh_label();
                self.push_jumps(copy_string(&xl), copy_string(&il));
                self.emit2("  br label %", cl.as_str());
                self.emit2(cl.as_str(), ":");
                self.emit_for_test(&slot, &ev, &bl, &xl);
                self.emit2(bl.as_str(), ":");
                self.push_scope();
                self.declare_var(var, copy_string(&slot), Type::Int64);
                self.emit_block(body);
                self.pop_scope();
                self.emit2("  br label %", il.as_str());
                self.emit2(il.as_str(), ":");
                self.emit_for_step(&slot, &cl);
                self.emit2(xl.as_str(), ":");
                self.pop_jumps();
            },
            _ => {},
        }
    }

    fn emit_for_test(&mut self, slot: &String, ev: &String, bl: &String, xl: &String)
        requires
            old(self).reg + 4 <= usize::MAX,
        ensures
            final(self).cg() == gen_for_test(old(self).cg(), slot@, ev@, bl@, xl@),
    {
        let cur = self.fresh_reg();
        self.emit5("  ", cur.as_str(), " = load i64, ptr ", slot.as_str(), ", align 8");
        let cmp1 = self.fresh_reg();
        let cmp = self.fresh_reg();
        self.emit6("  ", cmp1.as_str(), " = icmp slt i64 ", cur.as_str(), ", ", ev.as_str());
        self.emit5("  ", cmp.as_str(), " = zext i1 ", cmp1.as_str(), " to i64");
        let br = self.fresh_reg();
        self.emit5("  ", br.as_str(), " = trunc i64 ", cmp.as_str(), " to i1");
        self.emit6("  br i1 ", br.as_str(), ", label %", bl.as_str(), ", label %", xl.as_str());
    }

    fn emit_for_step(&mut self, slot: &String, cl: &String)
        requires
            old(self).reg + 2 <= usize::MAX,
        ensures
            final(self).cg() == gen_for_step(old(self).cg(), slot@, cl@),
    {
        let cur = self.fresh_reg();
        let inc = self.fresh_reg();
        self.emit5("  ", cur.as_str(), " = load i64, ptr ", slot.as_str(), ", align 8");
        self.emit5("  ", inc.as_str(), " = add i64 ", cur.as_str(), ", 1");
        self.emit5("  store i64 ", inc.as_str(), ", ptr ", slot.as_str(), ", align 8");
        self.emit2("  br label %", cl.as_str());
    }

    /// A block in a scope of its own.
    fn emit_scoped(&mut self, b: &Vec<Stmt>)
        requires
            fits(old(self).cg(), bcost(b@)),
            block_args_ok(b@),
            layouts_fit(old(self).cg().structs),
        ensures
            final(self).cg() == gen_scoped(old(self).cg(), b@),
            within(old(self).cg(), final(self).cg(), bcost(b@)),
        decreases b, 1nat,
    {
        self.push_scope();
        self.emit_block(b);
        self.pop_scope();
    }

    /// Generates statements in order.
    fn emit_block(&mut self, b: &Vec<Stmt>)
        requires
            fits(old(self).cg(), bcost(b@)),
            block_args_ok(b@),
            layouts_fit(old(self).cg().structs),
        ensures
            final(self).cg() == gen_block(old(self).cg(), b@),
            within(old(self).cg(), final(self).cg(), bcost(b@)),
        decreases b, 0nat,
    {
        let ghost c0 = self.cg();
        let mut i: usize = 0;
        proof {
            lemma_block_prefix(b@);
            assert(b@.subrange(0, 0) =~= Seq::<Stmt>::empty());
        }
        while i < b.len()
            invariant
                i <= b@.len(),
                self.cg() == gen_block(c0, b@.subrange(0, i as int)),
                within(c0, self.cg(), bcost(b@.subrange(0, i as int))),
                fits(c0, bcost(b@)),
                layouts_fit(c0.structs),
                forall|j: int| 0 <= j <= b@.len() ==> bcost(#[trigger] b@.subrange(0, j)) <= bcost(b@),
                forall|j: int| 0 <= j < b@.len() ==> #[trigger] stmt_args_ok(&b@[j]),
            decreases b.len() - i,
        {
            proof {
                assert(b@.subrange(0, i as int + 1).drop_last() =~= b@.subrange(0, i as int));
                assert(b@.subrange(0, i as int + 1).last() == b@[i as int]);
                assert(bcost(b@.subrange(0, i as int + 1)) <= bcost(b@));
            }
            self.emit_stmt(&b[i]);
            i = i + 1;
        }
        proof {
            assert(b@.subrange(0, b@.len() as int) =~= b@);
        }
    }

    // ── Functions ───────────────────────────────────────────────────────────

    fn emit_params(&mut self, ps: &Vec<Param>)
        requires
            old(self).slot_id + ps@.len() <= usize::MAX,
        ensures
            final(self).cg() == gen_params(old(self).cg(), ps@),
            within(old(self).cg(), final(self).cg(), ps@.len()),
    {
        let ghost c0 = self.cg();
        let mut i: usize = 0;
        assert(ps@.subrange(0, 0) =~= Seq::<Param>::empty());
        while i < ps.len()
            invariant
                i <= ps@.len(),
                c0.slot + ps@.len() <= usize::MAX,
                self.cg() == gen_params(c0, ps@.subrange(0, i as int)),
                within(c0, self.cg(), i as nat),
                self.cg().slot == c0.slot + i,
            decreases ps.len() - i,
        {
            proof {
                assert(ps@.subrange(0, i as int + 1).drop_last() =~= ps@.subrange(0, i as int));
                assert(ps@.subrange(0, i as int + 1).last() == ps@[i as int]);
            }
            let p = &ps[i];
            let ty = p.ty.to_type();
            let ll = ir_type(&ty);
            let slot = self.fresh_slot(&p.name);
            self.emit5("  ", slot.as_str(), " = alloca ", ll, ", align 8");
            self.emit7("  store ", ll, " %", p.name.as_str(), ", ptr ", slot.as_str(), ", align 8");
            self.declare_var(&p.name, slot, ty);
            i = i + 1;
        }
        assert(ps@.subrange(0, ps@.len() as int) =~= ps@);
    }

    /// Generates a function definition; counters restart for it.
    fn emit_fn(&mut self, f: &FnDef)
        requires
            f.params@.len() + bcost(f.body@) <= usize::MAX,
            block_args_ok(f.body@),
            layouts_fit(old(self).cg().structs),
        ensures
            final(self).cg() == gen_fn(old(self).cg(), f),
            final(self).cg().structs == old(self).cg().structs,
    {
        self.reg = 0;
        self.label = 0;
        self.slot_id = 0;
        self.current_fn_ret = f.ret_ty.to_type();
        proof {
            assert(self.cg() =~= restart(old(self).cg(), annotation_type(&f.ret_ty)));
        }
        self.push_scope();
        let rt = f.ret_ty.to_type();
        let ret_ll = ir_type(&rt);
        let pir = params_ir_text(&f.params);
        let emit_name = if text_is(&f.name, "main") && f.params.len() == 0 {
            owned("ionic_user_main")
        } else {
            copy_string(&f.name)
        };
        match &f.hw {
            Some(hw) => {
                let cm = self.ir_comment(hw);
                self.emit2("  ", cm.as_str());
            },
            None => {},
        }
        self.emit7("define ", ret_ll, " @", emit_name.as_str(), "(", pir.as_str(), ") {");
        self.emit1("entry:");
        self.emit_params(&f.params);
        self.emit_block(&f.body);
        if rt.is_void() {
            self.emit1("  ret void");
        }
        self.emit1("}");
        self.emit1("");
        self.pop_scope();
    }

    /// Generates the entry point: runtime set-up, the top-level statements,
    /// then the user's `main` when there is one.
    fn emit_main(&mut self, stmts: &Vec<Stmt>, user_main: bool)
        requires
            bcost(stmts@) <= usize::MAX,
            block_args_ok(stmts@),
            layouts_fit(old(self).cg().structs),
        ensures
            final(self).cg() == gen_main(old(self).cg(), stmts@, user_main),
            final(self).cg().structs == old(self).cg().structs,
    {
        self.reg = 0;
        self.label = 0;
        self.slot_id = 0;
        self.current_fn_ret = Type::Void;
        proof {
            assert(self.cg() =~= restart(old(self).cg(), Ty::Void));
        }
        self.emit1("define i32 @main(i32 %_argc, ptr %_argv) {");
        self.emit1("entry:");
        self.emit1("  call void @ionic_runtime_init(i32 %_argc, ptr %_argv)");
        self.emit_block(stmts);
        if user_main {
            self.emit1("  %_exit = call i64 @ionic_user_main()");
            self.emit1("  %_exit32 = trunc i64 %_exit to i32");
            self.emit1("  ret i32 %_exit32");
        } else {
            self.emit1("  ret i32 0");
        }
        self.emit1("}");
        self.emit1("");
    }

    /// IR type, initial value and type of a top-level variable's global.
    fn global_ty(&self, init: &Expr) -> (r: (&'static str, String, Type))
        ensures
            r.0@ == global_ty(self.cg(), init).0,
            r.1@ == global_ty(self.cg(), init).1,
            r.2@ == global_ty(self.cg(), init).2,
    {
        match init {
            Expr::IntLit(n) => ("i64", i64_text(*n), Type::Int64),
            Expr::BoolLit(b) => ("i64", owned(if *b { "1" } else { "0" }), Type::Int64),
            Expr::FloatLit(t) => ("double", self.float_sci(t), Type::Float64),
            Expr::StringLit(_) => ("ptr", owned("null"), Type::Str),
            Expr::ArrayLit(es) => {
                let inner = if es.len() == 0 {
                    Type::Int64
                } else {
                    match &es[0] {
                        Expr::FloatLit(_) => Type::Float64,
                        Expr::StringLit(_) => Type::Str,
                        _ => Type::Int64,
                    }
                };
                proof {
                    reveal_with_fuel(crate::ast::type_view, 2);
                }
                ("ptr", owned("null"), Type::Array(Box::new(inner)))
            },
            _ => ("ptr", owned("null"), Type::Str),
        }
    }

    // ── The program ─────────────────────────────────────────────────────────

    /// Generates the IR module of a checked program: the prelude and runtime
    /// helpers, a comment per struct, a global per top-level variable, every
    /// function, the entry point, and the string constants.
    pub fn generate(&mut self, program: &Program) -> (r: String)
        requires
            layouts_fit(old(self).cg().structs),
            structs_fit(program.structs@),
            program_args_ok(program),
            program_cost(program) <= usize::MAX,
        ensures
            final(self).cg() == gen_program(old(self).cg(), program),
            r@ == final(self).cg().out,
    {
        let ghost c0 = self.cg();
        // Struct layouts.
        let mut i: usize = 0;
        assert(program.structs@.subrange(0, 0) =~= Seq::<StructDef>::empty());
        while i < program.structs.len()
            invariant
                i <= program.structs@.len(),
                self.cg() == register_layouts(c0, program.structs@.subrange(0, i as int)),
                layouts_fit(self.cg().structs),
                structs_fit(program.structs@),
            decreases program.structs.len() - i,
        {
            let s = &program.structs[i];
            let mut fields: Vec<(String, Type)> = Vec::new();
            let mut k: usize = 0;
            while k < s.fields.len()
                invariant
                    k <= s.fields@.len(),
                    fields@.len() == k,
                    forall|j: int|
                        0 <= j < k ==> (#[trigger] fields@[j]).0@ == s.fields@[j].name@ && fields@[j].1@
                            == annotation_type(&s.fields@[j].ty),
                decreases s.fields.len() - k,
            {
                fields.push((copy_string(&s.fields[k].name), s.fields[k].ty.to_type()));
                k = k + 1;
            }
            let layout = StructLayout { fields };
            assert(layout@ =~= layout_of(s));
            let ghost before = self.cg();
            self.structs.insert(copy_string(&s.name), layout);
            proof {
                assert(program.structs@.subrange(0, i as int + 1).drop_last() =~= program.structs@.subrange(0, i as int));
                assert(program.structs@.subrange(0, i as int + 1).last() == program.structs@[i as int]);
                assert(self.cg() =~= register_layouts(c0, program.structs@.subrange(0, i as int + 1)));
                assert(s.fields@.len() * 8 <= i64::MAX);
            }
            i = i + 1;
        }
        assert(program.structs@.subrange(0, program.structs@.len() as int) =~= program.structs@);
        // Function signatures.
        let ghost c1 = self.cg();
        let mut i: usize = 0;
        assert(program.fns@.subrange(0, 0) =~= Seq::<FnDef>::empty());
        while i < program.fns.len()
            invariant
                i <= program.fns@.len(),
                self.cg() == register_sigs(c1, program.fns@.subrange(0, i as int)),
                self.cg().structs == c1.structs,
            decreases program.fns.len() - i,
        {
            let f = &program.fns[i];
            let mut params: Vec<Type> = Vec::new();
            let mut k: usize = 0;
            while k < f.params.len()
                invariant
                    k <= f.params@.len(),
                    params@.len() == k,
                    forall|j: int| 0 <= j < k ==> (#[trigger] params@[j])@ == annotation_type(&f.params@[j].ty),
                decreases f.params.len() - k,
            {
                params.push(f.params[k].ty.to_type());
                k = k + 1;
            }
            let sig = FnSig { params, ret: f.ret_ty.to_type() };
            assert(sig@ =~= signature_of(f));
            self.fns.insert(copy_string(&f.name), sig);
            proof {
                assert(program.fns@.subrange(0, i as int + 1).drop_last() =~= program.fns@.subrange(0, i as int));
                assert(program.fns@.subrange(0, i as int + 1).last() == program.fns@[i as int]);
                assert(self.cg() =~= register_sigs(c1, program.fns@.subrange(0, i as int + 1)));
            }
            i = i + 1;
        }
        assert(program.fns@.subrange(0, program.fns@.len() as int) =~= program.fns@);
        // Prelude and runtime helpers.
        let ghost before = self.cg();
        self.out.append(PRELUDE);
        self.out.append(RUNTIME_HELPERS);
        proof {
            assert(self.cg() =~= with_runtime(before));
        }
        let ghost c2 = self.cg();
        self.emit_struct_comments();
        let n_structs = self.structs.len();
        if n_structs > 0 {
            self.emit1("");
        }
        let ghost c4 = self.cg();
        let had = self.emit_globals(&program.top_level);
        if had {
            self.emit1("");
        }
        let user_main = has_main(&program.fns);
        proof {
            lemma_fns_cost(program.fns@);
        }
        let ghost c6 = self.cg();
        let mut i: usize = 0;
        assert(program.fns@.subrange(0, 0) =~= Seq::<FnDef>::empty());
        while i < program.fns.len()
            invariant
                i <= program.fns@.len(),
                self.cg() == gen_fns(c6, program.fns@.subrange(0, i as int)),
                self.cg().structs == c6.structs,
                layouts_fit(c6.structs),
                program_args_ok(program),
                forall|j: int|
                    0 <= j < program.fns@.len() ==> #[trigger] program.fns@[j].params@.len() + bcost(
                        program.fns@[j].body@,
                    ) <= fns_cost(program.fns@),
                program_cost(program) <= usize::MAX,
            decreases program.fns.len() - i,
        {
            proof {
                assert(program.fns@.subrange(0, i as int + 1).drop_last() =~= program.fns@.subrange(0, i as int));
                assert(program.fns@.subrange(0, i as int + 1).last() == program.fns@[i as int]);
                assert(program.fns@[i as int].params@.len() + bcost(program.fns@[i as int].body@) <= fns_cost(
                    program.fns@,
                ));
                assert(block_args_ok(program.fns@[i as int].body@));
            }
            self.emit_fn(&program.fns[i]);
            i = i + 1;
        }
        assert(program.fns@.subrange(0, program.fns@.len() as int) =~= program.fns@);
        self.emit_main(&program.top_level, user_main);
        self.flush_lits();
        copy_string(&self.out)
    }

    /// One comment line per registered struct, in registration order.
    fn emit_struct_comments(&mut self)
        requires
            layouts_fit(old(self).cg().structs),
        ensures
            final(self).cg() == struct_comments(old(self).cg(), old(self).cg().struct_order),
            final(self).cg().structs == old(self).cg().structs,
            final(self).cg().struct_order == old(self).cg().struct_order,
    {
        let ghost c0 = self.cg();
        let ghost order = c0.struct_order;
        let mut i: usize = 0;
        assert(order.subrange(0, 0) =~= Seq::<Seq<char>>::empty());
        while i < self.structs.len()
            invariant
                i <= order.len(),
                order == self.structs.names(),
                order.len() == self.structs.names().len(),
                self.cg() == struct_comments(c0, order.subrange(0, i as int)),
                self.cg().structs == c0.structs,
                self.cg().struct_order == order,
                layouts_fit(c0.structs),
            decreases order.len() - i,
        {
            let (nm, lay) = self.structs.entry(i);
            let name = copy_string(nm);
            let size = lay.fields.len();
            proof {
                assert(c0.structs.contains_key(name@));
                assert(c0.structs[name@].len() == size);
                assert(order.subrange(0, i as int + 1).drop_last() =~= order.subrange(0, i as int));
                assert(order.subrange(0, i as int + 1).last() == name@);
            }
            let bytes: u64 = (size as u64) * 8;
            let st = usize_text(size);
            let mut bt = String::new();
            push_decimal(&mut bt, bytes);
            self.emit7("; struct ", name.as_str(), " : ", st.as_str(), " fields (", bt.as_str(), " bytes)");
            i = i + 1;
        }
        assert(order.subrange(0, order.len() as int) =~= order);
    }

    /// A global for every top-level `let`/`mut`; tells whether there was one.
    fn emit_globals(&mut self, stmts: &Vec<Stmt>) -> (r: bool)
        ensures
            final(self).cg() == gen_globals(old(self).cg(), stmts@).0,
            r == gen_globals(old(self).cg(), stmts@).1,
            final(self).cg().structs == old(self).cg().structs,
    {
        let ghost c0 = self.cg();
        let mut had = false;
        let mut i: usize = 0;
        assert(stmts@.subrange(0, 0) =~= Seq::<Stmt>::empty());
        while i < stmts.len()
            invariant
                i <= stmts@.len(),
                self.cg() == gen_globals(c0, stmts@.subrange(0, i as int)).0,
                had == gen_globals(c0, stmts@.subrange(0, i as int)).1,
                self.cg().structs == c0.structs,
            decreases stmts.len() - i,
        {
            proof {
                assert(stmts@.subrange(0, i as int + 1).drop_last() =~= stmts@.subrange(0, i as int));
                assert(stmts@.subrange(0, i as int + 1).last() == stmts@[i as int]);
            }
            match &stmts[i] {
                Stmt::Let { mutable, name, init, .. } => {
                    let (ll, zero, t) = self.global_ty(init);
                    let scalar = match init {
                        Expr::IntLit(_) | Expr::BoolLit(_) => true,
                        _ => false,
                    };
                    let vis = if !*mutable && scalar {
                        "private global"
                    } else {
                        "global"
                    };
                    self.emit9("@", name.as_str(), " = ", vis, " ", ll, " ", zero.as_str(), ", align 8");
                    let mut g = owned("@");
                    g.append(name.as_str());
                    self.declare_var(name, g, t);
                    let ghost before = self.cg();
                    let ghost old_names = self.global_var_names@;
                    self.global_var_names.push(copy_string(name));
                    proof {
                        assert(texts_view(self.global_var_names@) =~= texts_view(old_names).push(name@));
                        assert forall|k: Seq<char>| #[trigger] self.cg().globals.contains(k) == before.globals.insert(
                            name@,
                        ).contains(k) by {
                            if texts_view(old_names).contains(k) {
                                let j = choose|j: int| 0 <= j < texts_view(old_names).len() && texts_view(old_names)[j] == k;
                                assert(texts_view(self.global_var_names@)[j] == k);
                            }
                            if k == name@ {
                                assert(texts_view(self.global_var_names@)[old_names.len() as int] == k);
                            }
                        }
                        assert(self.cg().globals =~= before.globals.insert(name@));
                        assert(self.cg() =~= (Cg { globals: before.globals.insert(name@), ..before }));
                    }
                    had = true;
                },
                _ => {},
            }
            i = i + 1;
        }
        assert(stmts@.subrange(0, stmts@.len() as int) =~= stmts@);
        had
    }

    /// The string constants, in order of interning.
    fn flush_lits(&mut self)
        ensures
            final(self).cg() == flush_lits(old(self).cg(), old(self).cg().lits),
    {
        let ghost c0 = self.cg();
        let ghost lits = c0.lits;
        let mut i: usize = 0;
        assert(lits.subrange(0, 0) =~= Seq::<(Seq<char>, nat)>::empty());
        while i < self.str_lits.len()
            invariant
                i <= lits.len(),
                lits == self.cg().lits,
                lits.len() == self.str_lits@.len(),
                self.cg() == flush_lits(c0, lits.subrange(0, i as int)),
            decreases lits.len() - i,
        {
            proof {
                assert(lits.subrange(0, i as int + 1).drop_last() =~= lits.subrange(0, i as int));
                assert(lits.subrange(0, i as int + 1).last() == lits[i as int]);
            }
            let esc = copy_string(&self.str_lits[i].0);
            let bc = self.str_lits[i].1;
            let it = usize_text(i);
            let bt = succ_text(bc);
            self.emit7("@str", it.as_str(), " = private constant [", bt.as_str(), " x i8] c\"", esc.as_str(), "\\00\"");
            i = i + 1;
        }
        assert(lits.subrange(0, lits.len() as int) =~= lits);
    }
}

/// The IR type that holds a value of a type.
pub fn ir_type(t: &Type) -> (r: &'static str)
    ensures
        r@ == llvm_ty(t@),
{
    match t {
        Type::Int64 | Type::Bool => "i64",
        Type::Float64 => "double",
        Type::Str | Type::Array(_) | Type::Tensor(_) | Type::Model(_) | Type::Struct(_) => "ptr",
        Type::Void | Type::Unknown => "void",
    }
}

/// Values of the type are pointers.
pub fn holds_pointer(t: &Type) -> (r: bool)
    ensures
        r == is_ptr_ty(t@),
{
    match t {
        Type::Str | Type::Array(_) | Type::Struct(_) | Type::Tensor(_) | Type::Model(_) => true,
        _ => false,
    }
}

/// Position of the first field of the given name in a layout.
pub fn struct_field_offset(layout: &StructLayout, field: &String) -> (r: Option<usize>)
    ensures
        match (r, field_pos(layout@, field@)) {
            (Some(i), Some(j)) => i == j && i < layout@.len(),
            (None, None) => true,
            _ => false,
        },
{
    let ghost fv = layout@;
    assert(fv.skip(0) =~= fv);
    let mut i: usize = 0;
    while i < layout.fields.len()
        invariant
            i <= fv.len(),
            fv == layout@,
            fv.len() == layout.fields@.len(),
            field_pos(fv, field@) == match field_pos(fv.skip(i as int), field@) {
                Some(k) => Some((k + i) as nat),
                None => None::<nat>,
            },
        decreases layout.fields.len() - i,
    {
        proof {
            assert(fv.skip(i as int)[0] == fv[i as int]);
            assert(fv.skip(i as int).drop_first() =~= fv.skip(i as int + 1));
        }
        if same_text(&layout.fields[i].0, field) {
            return Some(i);
        }
        i = i + 1;
    }
    proof {
        assert(fv.skip(i as int).len() == 0);
    }
    None
}

/// A string literal's text as written inside an IR constant.
pub fn escape_text(s: &String) -> (r: String)
    ensures
        r@ == escape(s@),
{
    let cs = chars_of(s.as_str());
    let mut r = String::new();
    let mut i: usize = 0;
    while i < cs.len()
        invariant
            i <= cs@.len(),
            cs@ == s@,
            r@ == escape(s@.subrange(0, i as int)),
        decreases cs.len() - i,
    {
        let ch = cs[i];
        if ch == '\\' {
            r.append("\\5C");
        } else if ch == '\n' {
            r.append("\\0A");
        } else if ch == '\t' {
            r.append("\\09");
        } else if ch == '"' {
            r.append("\\22");
        } else {
            crate::text::push_char(&mut r, ch);
        }
        proof {
            assert(s@.subrange(0, i as int + 1).drop_last() =~= s@.subrange(0, i as int));
            assert(r@ =~= escape(s@.subrange(0, i as int + 1)));
        }
        i = i + 1;
    }
    assert(s@.subrange(0, s@.len() as int) =~= s@);
    r
}

/// Bytes an escaped constant occupies: a `\XX` escape counts as one.
pub fn raw_byte_count(escaped: &str) -> (r: usize)
    ensures
        r == raw_count(escaped@),
{
    let bytes = escaped.as_bytes();
    let ghost b = bytes@;
    let mut count: usize = 0;
    let mut i: usize = 0;
    while i < bytes.len()
        invariant
            b == bytes@,
            b == vstd::utf8::encode_utf8(escaped@),
            i <= b.len(),
            count <= i,
            count + raw_count_from(b, i as nat) == raw_count_from(b, 0),
        decreases bytes.len() - i,
    {
        if bytes[i] == 92u8 && bytes.len() - i > 2 {
            count = count + 1;
            i = i + 3;
        } else {
            count = count + 1;
            i = i + 1;
        }
    }
    count
}

pub fn is_comparison(op: BinOp) -> (r: bool)
    ensures
        r == is_cmp(op),
{
    match op {
        BinOp::EqEq | BinOp::NotEq | BinOp::Lt | BinOp::Gt | BinOp::LtEq | BinOp::GtEq => true,
        _ => false,
    }
}

fn cmp_text(op: BinOp, is_float: bool, ll: &str, lv: &String, rv: &String) -> (r: String)
    requires
        is_cmp(op),
    ensures
        r@ == cmp_instr(op, is_float, ll@, lv@, rv@),
{
    let mut r = owned(match op {
        BinOp::EqEq => if is_float { "fcmp oeq " } else { "icmp eq " },
        BinOp::NotEq => if is_float { "fcmp une " } else { "icmp ne " },
        BinOp::Lt => if is_float { "fcmp olt " } else { "icmp slt " },
        BinOp::Gt => if is_float { "fcmp ogt " } else { "icmp sgt " },
        BinOp::LtEq => if is_float { "fcmp ole " } else { "icmp sle " },
        _ => if is_float { "fcmp oge " } else { "icmp sge " },
    });
    r.append(ll);
    r.append(" ");
    r.append(lv.as_str());
    r.append(", ");
    r.append(rv.as_str());
    r
}

fn arith_text(op: BinOp, is_float: bool, ll: &str, lv: &String, rv: &String) -> (r: String)
    ensures
        r@ == arith_instr(op, is_float, ll@, lv@, rv@),
{
    match op {
        BinOp::And | BinOp::Or => {
            let mut r = owned(match op {
                BinOp::And => "and i64 ",
                _ => "or i64 ",
            });
            r.append(lv.as_str());
            r.append(", ");
            r.append(rv.as_str());
            r
        },
        _ => {
            let mut r = owned(match op {
                BinOp::Add => if is_float { "fadd " } else { "add " },
                BinOp::Sub => if is_float { "fsub " } else { "sub " },
                BinOp::Mul => if is_float { "fmul " } else { "mul " },
                BinOp::Div => if is_float { "fdiv " } else { "sdiv " },
                _ => if is_float { "frem " } else { "srem " },
            });
            r.append(ll);
            r.append(" ");
            r.append(lv.as_str());
            r.append(", ");
            r.append(rv.as_str());
            r
        },
    }
}

/// `type value` pairs of the arguments of a call, comma separated.
fn args_ir_text(args: &Vec<(String, Type)>) -> (r: String)
    ensures
        r@ == args_ir(vals_view(args@)),
{
    let ghost a = vals_view(args@);
    let mut r = String::new();
    let mut i: usize = 0;
    assert(a.subrange(0, 0) =~= Seq::<(Seq<char>, Ty)>::empty());
    while i < args.len()
        invariant
            i <= args@.len(),
            a == vals_view(args@),
            r@ == args_ir(a.subrange(0, i as int)),
        decreases args.len() - i,
    {
        proof {
            assert(a.subrange(0, i as int + 1).drop_last() =~= a.subrange(0, i as int));
        }
        if i > 0 {
            r.append(", ");
        }
        r.append(ir_type(&args[i].1));
        r.append(" ");
        r.append(args[i].0.as_str());
        proof {
            assert(r@ =~= args_ir(a.subrange(0, i as int + 1)));
        }
        i = i + 1;
    }
    assert(a.subrange(0, a.len() as int) =~= a);
    r
}

fn copy_layout(l: &StructLayout) -> (r: StructLayout)
    ensures
        r@ == l@,
{
    let mut fields: Vec<(String, Type)> = Vec::new();
    let mut i: usize = 0;
    while i < l.fields.len()
        invariant
            i <= l.fields@.len(),
            fields@.len() == i,
            forall|j: int| 0 <= j < i ==> (#[trigger] fields@[j]).0@ == l.fields@[j].0@ && fields@[j].1@ == l.fields@[j].1@,
        decreases l.fields.len() - i,
    {
        fields.push((copy_string(&l.fields[i].0), l.fields[i].1.copy()));
        i = i + 1;
    }
    let r = StructLayout { fields };
    assert(r@ =~= l@);
    r
}

pub proof fn lemma_expr_list_prefix(s: Seq<Expr>)
    ensures
        forall|j: int| 0 <= j <= s.len() ==> ecost_list(#[trigger] s.subrange(0, j)) <= ecost_list(s),
        args_ok_list(s) ==> forall|j: int| 0 <= j < s.len() ==> #[trigger] args_ok(&s[j]),
    decreases s.len(),
{
    if s.len() > 0 {
        lemma_expr_list_prefix(s.drop_last());
        assert forall|j: int| 0 <= j <= s.len() implies ecost_list(#[trigger] s.subrange(0, j)) <= ecost_list(s) by {
            if j < s.len() {
                assert(s.subrange(0, j) =~= s.drop_last().subrange(0, j));
            } else {
                assert(s.subrange(0, j) =~= s);
            }
        }
        if args_ok_list(s) {
            assert forall|j: int| 0 <= j < s.len() implies #[trigger] args_ok(&s[j]) by {
                if j < s.len() - 1 {
                    assert(s.drop_last()[j] == s[j]);
                }
            }
        }
    }
}

pub proof fn lemma_fields_prefix(s: Seq<(String, Expr)>)
    ensures
        forall|j: int| 0 <= j <= s.len() ==> ecost_fields(#[trigger] s.subrange(0, j)) <= ecost_fields(s),
        args_ok_fields(s) ==> forall|j: int| 0 <= j < s.len() ==> #[trigger] args_ok(&s[j].1),
    decreases s.len(),
{
    if s.len() > 0 {
        lemma_fields_prefix(s.drop_last());
        assert forall|j: int| 0 <= j <= s.len() implies ecost_fields(#[trigger] s.subrange(0, j)) <= ecost_fields(s) by {
            if j < s.len() {
                assert(s.subrange(0, j) =~= s.drop_last().subrange(0, j));
            } else {
                assert(s.subrange(0, j) =~= s);
            }
        }
        if args_ok_fields(s) {
            assert forall|j: int| 0 <= j < s.len() implies #[trigger] args_ok(&s[j].1) by {
                if j < s.len() - 1 {
                    assert(s.drop_last()[j] == s[j]);
                }
            }
        }
    }
}

pub proof fn lemma_block_prefix(s: Seq<Stmt>)
    ensures
        forall|j: int| 0 <= j <= s.len() ==> bcost(#[trigger] s.subrange(0, j)) <= bcost(s),
        block_args_ok(s) ==> forall|j: int| 0 <= j < s.len() ==> #[trigger] stmt_args_ok(&s[j]),
    decreases s.len(),
{
    if s.len() > 0 {
        lemma_block_prefix(s.drop_last());
        assert forall|j: int| 0 <= j <= s.len() implies bcost(#[trigger] s.subrange(0, j)) <= bcost(s) by {
            if j < s.len() {
                assert(s.subrange(0, j) =~= s.drop_last().subrange(0, j));
            } else {
                assert(s.subrange(0, j) =~= s);
            }
        }
        if block_args_ok(s) {
            assert forall|j: int| 0 <= j < s.len() implies #[trigger] stmt_args_ok(&s[j]) by {
                if j < s.len() - 1 {
                    assert(s.drop_last()[j] == s[j]);
                }
            }
        }
    }
}

/// A parameterless function named `main` is present.
fn has_main(fs: &Vec<FnDef>) -> (r: bool)
    ensures
        r == has_user_main(fs@),
{
    let mut i: usize = 0;
    while i < fs.len()
        invariant
            i <= fs@.len(),
            forall|j: int| 0 <= j < i ==> !(#[trigger] fs@[j].name@ == "main"@ && fs@[j].params@.len() == 0),
        decreases fs.len() - i,
    {
        if text_is(&fs[i].name, "main") && fs[i].params.len() == 0 {
            return true;
        }
        i = i + 1;
    }
    false
}

/// `type %name` of each parameter, comma separated.
fn params_ir_text(ps: &Vec<Param>) -> (r: String)
    ensures
        r@ == params_ir(ps@),
{
    let mut r = String::new();
    let mut i: usize = 0;
    assert(ps@.subrange(0, 0) =~= Seq::<Param>::empty());
    while i < ps.len()
        invariant
            i <= ps@.len(),
            r@ == params_ir(ps@.subrange(0, i as int)),
        decreases ps.len() - i,
    {
        proof {
            assert(ps@.subrange(0, i as int + 1).drop_last() =~= ps@.subrange(0, i as int));
            assert(ps@.subrange(0, i as int + 1).last() == ps@[i as int]);
        }
        if i > 0 {
            r.append(", ");
        }
        let t = ps[i].ty.to_type();
        r.append(ir_type(&t));
        r.append(" %");
        r.append(ps[i].name.as_str());
        proof {
            assert(r@ =~= params_ir(ps@.subrange(0, i as int + 1)));
        }
        i = i + 1;
    }
    assert(ps@.subrange(0, ps@.len() as int) =~= ps@);
    r
}

pub proof fn lemma_fns_cost(fs: Seq<FnDef>)
    ensures
        forall|j: int| 0 <= j < fs.len() ==> #[trigger] fs[j].params@.len() + bcost(fs[j].body@) <= fns_cost(fs),
    decreases fs.len(),
{
    if fs.len() > 0 {
        lemma_fns_cost(fs.drop_last());
        assert forall|j: int| 0 <= j < fs.len() implies #[trigger] fs[j].params@.len() + bcost(fs[j].body@)
            <= fns_cost(fs) by {
            if j < fs.len() - 1 {
                assert(fs.drop_last()[j] == fs[j]);
            }
        }
    }
}
fn is_call_group_1(n: &String) -> (r: bool)
    ensures
        r == in_call_group_1(n@),
{
    text_is(n, "exit")
        || text_is(n, "sqrt")
        || text_is(n, "abs")
        || text_is(n, "int64_to_float64")
        || text_is(n, "float64_to_int64")
        || text_is(n, "str_len")
        || text_is(n, "str_concat")
        || text_is(n, "str_eq")
}

fn is_call_group_2(n: &String) -> (r: bool)
    ensures
        r == in_call_group_2(n@),
{
    text_is(n, "str_index")
        || text_is(n, "int64_to_str")
        || text_is(n, "float64_to_str")
        || text_is(n, "char_to_str")
        || text_is(n, "get_arg")
        || text_is(n, "cpu_core_count")
        || text_is(n, "file_exists")
        || text_is(n, "load_model")
}

fn is_call_group_3(n: &String) -> (r: bool)
    ensures
        r == in_call_group_3(n@),
{
    text_is(n, "model_free")
        || text_is(n, "piper_forward")
        || text_is(n, "write_wav")
        || text_is(n, "gguf_generate")
        || text_is(n, "gguf_set_temp")
        || text_is(n, "gguf_set_top_p")
        || text_is(n, "fgets_stdin")
        || text_is(n, "file_read")
}

fn is_call_group_4(n: &String) -> (r: bool)
    ensures
        r == in_call_group_4(n@),
{
    text_is(n, "file_write")
        || text_is(n, "file_open_read")
        || text_is(n, "file_open_write")
        || text_is(n, "file_close")
        || text_is(n, "file_read_line")
        || text_is(n, "file_write_line")
        || text_is(n, "file_eof")
}

fn arity_group_1(n: &String) -> (r: usize)
    ensures
        r == group_arity_1(n@),
{
    if text_is(n, "exit") {
        1
    } else if text_is(n, "sqrt") {
        1
    } else if text_is(n, "abs") {
        1
    } else if text_is(n, "int64_to_float64") {
        1
    } else if text_is(n, "float64_to_int64") {
        1
    } else if text_is(n, "str_len") {
        1
    } else if text_is(n, "str_concat") {
        2
    } else if text_is(n, "str_eq") {
        2
    } else {
        0
    }
}

fn arity_group_2(n: &String) -> (r: usize)
    ensures
        r == group_arity_2(n@),
{
    if text_is(n, "str_index") {
        2
    } else if text_is(n, "int64_to_str") {
        1
    } else if text_is(n, "float64_to_str") {
        1
    } else if text_is(n, "char_to_str") {
        1
    } else if text_is(n, "get_arg") {
        1
    } else if text_is(n, "cpu_core_count") {
        0
    } else if text_is(n, "file_exists") {
        1
    } else if text_is(n, "load_model") {
        1
    } else {
        0
    }
}

fn arity_group_3(n: &String) -> (r: usize)
    ensures
        r == group_arity_3(n@),
{
    if text_is(n, "model_free") {
        1
    } else if text_is(n, "piper_forward") {
        5
    } else if text_is(n, "write_wav") {
        4
    } else if text_is(n, "gguf_generate") {
        3
    } else if text_is(n, "gguf_set_temp") {
        2
    } else if text_is(n, "gguf_set_top_p") {
        2
    } else if text_is(n, "fgets_stdin") {
        1
    } else if text_is(n, "file_read") {
        1
    } else {
        0
    }
}

fn arity_group_4(n: &String) -> (r: usize)
    ensures
        r == group_arity_4(n@),
{
    if text_is(n, "file_write") {
        2
    } else if text_is(n, "file_open_read") {
        1
    } else if text_is(n, "file_open_write") {
        1
    } else if text_is(n, "file_close") {
        1
    } else if text_is(n, "file_read_line") {
        1
    } else if text_is(n, "file_write_line") {
        2
    } else if text_is(n, "file_eof") {
        1
    } else {
        0
    }
}

/// The number of arguments the generator reads from a call of `n`.
fn arity_of(n: &String) -> (r: usize)
    ensures
        r == call_arity(n@),
{
    if text_is(n, "print") || text_is(n, "println") {
        0
    } else if text_is(n, "len") {
        1
    } else if text_is(n, "push") {
        2
    } else if is_call_group_1(n) {
        arity_group_1(n)
    } else if is_call_group_2(n) {
        arity_group_2(n)
    } else if is_call_group_3(n) {
        arity_group_3(n)
    } else if is_call_group_4(n) {
        arity_group_4(n)
    } else {
        0
    }
}

// ── Checking a program before generation ────────────────────────────────────

/// `o` holds `v`, or is `None` where `v` does not fit in a `usize`.
pub open spec fn fits_as(o: Option<usize>, v: nat) -> bool {
    match o {
        Some(c) => c == v,
        None => v > usize::MAX,
    }
}

fn sum2(a: Option<usize>, b: Option<usize>, Ghost(x): Ghost<nat>, Ghost(y): Ghost<nat>) -> (r: Option<usize>)
    requires
        fits_as(a, x),
        fits_as(b, y),
    ensures
        fits_as(r, x + y),
{
    match (a, b) {
        (Some(p), Some(q)) => p.checked_add(q),
        _ => None,
    }
}

fn expr_args_ok(e: &Expr) -> (r: bool)
    ensures
        r == args_ok(e),
    decreases e, 1nat,
{
    match e {
        Expr::BinOp { lhs, rhs, .. } => {
            let a = expr_args_ok(lhs);
            let b = expr_args_ok(rhs);
            a && b
        },
        Expr::UnOp { expr, .. } => expr_args_ok(expr),
        Expr::Call { callee, args } => {
            let n = arity_of(callee);
            let b = list_args_ok(args);
            args.len() >= n && b
        },
        Expr::MethodCall { obj, method, args } => {
            let push = text_is(method, "push");
            let a = expr_args_ok(obj);
            let b = list_args_ok(args);
            (!push || args.len() >= 1) && a && b
        },
        Expr::StructLit { fields, .. } => fields_args_ok(fields),
        Expr::FieldAccess { obj, .. } => expr_args_ok(obj),
        Expr::Index { obj, idx } => {
            let a = expr_args_ok(obj);
            let b = expr_args_ok(idx);
            a && b
        },
        Expr::ArrayLit(es) => list_args_ok(es),
        Expr::ToGpu(x) => expr_args_ok(x),
        Expr::ToCpu(x) => expr_args_ok(x),
        _ => true,
    }
}

fn list_args_ok(s: &Vec<Expr>) -> (r: bool)
    ensures
        r == args_ok_list(s@),
    decreases s, 0nat,
{
    let mut ok = true;
    let mut i: usize = 0;
    assert(s@.subrange(0, 0) =~= Seq::<Expr>::empty());
    while i < s.len()
        invariant
            i <= s@.len(),
            ok == args_ok_list(s@.subrange(0, i as int)),
        decreases s.len() - i,
    {
        let b = expr_args_ok(&s[i]);
        proof {
            assert(s@.subrange(0, i as int + 1).drop_last() =~= s@.subrange(0, i as int));
        }
        ok = ok && b;
        i = i + 1;
    }
    assert(s@.subrange(0, s@.len() as int) =~= s@);
    ok
}

fn fields_args_ok(s: &Vec<(String, Expr)>) -> (r: bool)
    ensures
        r == args_ok_fields(s@),
    decreases s, 0nat,
{
    let mut ok = true;
    let mut i: usize = 0;
    assert(s@.subrange(0, 0) =~= Seq::<(String, Expr)>::empty());
    while i < s.len()
        invariant
            i <= s@.len(),
            ok == args_ok_fields(s@.subrange(0, i as int)),
        decreases s.len() - i,
    {
        let b = expr_args_ok(&s[i].1);
        proof {
            assert(s@.subrange(0, i as int + 1).drop_last() =~= s@.subrange(0, i as int));
        }
        ok = ok && b;
        i = i + 1;
    }
    assert(s@.subrange(0, s@.len() as int) =~= s@);
    ok
}

fn stmt_args_check(s: &Stmt) -> (r: bool)
    ensures
        r == stmt_args_ok(s),
    decreases s, 1nat,
{
    match s {
        Stmt::Let { init, .. } => expr_args_ok(init),
        Stmt::Assign { target, value } => {
            let a = expr_args_ok(value);
            let b = match target {
                AssignTarget::Ident(_) => true,
                AssignTarget::Field(obj, _) => expr_args_ok(obj),
                AssignTarget::Index(obj, idx) => {
                    let x = expr_args_ok(obj);
                    let y = expr_args_ok(idx);
                    x && y
                },
            };
            a && b
        },
        Stmt::ExprStmt(e) => expr_args_ok(e),
        Stmt::Return(x) => match x {
            Some(e) => expr_args_ok(e),
            None => true,
        },
        Stmt::If { cond, then_block, else_block } => {
            let a = expr_args_ok(cond);
            let b = block_args_check(then_block);
            let c = match else_block {
                Some(eb) => block_args_check(eb),
                None => true,
            };
            a && b && c
        },
        Stmt::While { cond, body } => {
            let a = expr_args_ok(cond);
            let b = block_args_check(body);
            a && b
        },
        Stmt::For { start, end, body, .. } => {
            let a = expr_args_ok(start);
            let b = expr_args_ok(end);
            let c = block_args_check(body);
            a && b && c
        },
        Stmt::GpuBlock(b) => block_args_check(b),
        _ => true,
    }
}

fn block_args_check(s: &Vec<Stmt>) -> (r: bool)
    ensures
        r == block_args_ok(s@),
    decreases s, 0nat,
{
    let mut ok = true;
    let mut i: usize = 0;
    assert(s@.subrange(0, 0) =~= Seq::<Stmt>::empty());
    while i < s.len()
        invariant
            i <= s@.len(),
            ok == block_args_ok(s@.subrange(0, i as int)),
        decreases s.len() - i,
    {
        let b = stmt_args_check(&s[i]);
        proof {
            assert(s@.subrange(0, i as int + 1).drop_last() =~= s@.subrange(0, i as int));
        }
        ok = ok && b;
        i = i + 1;
    }
    assert(s@.subrange(0, s@.len() as int) =~= s@);
    ok
}

fn expr_cost(e: &Expr) -> (r: Option<usize>)
    ensures
        fits_as(r, ecost(e)),
    decreases e, 1nat,
{
    let inner: Option<usize> = match e {
        Expr::BinOp { lhs, rhs, .. } => {
            let a = expr_cost(lhs);
            let b = expr_cost(rhs);
            sum2(a, b, Ghost(ecost(lhs)), Ghost(ecost(rhs)))
        },
        Expr::UnOp { expr, .. } => expr_cost(expr),
        Expr::Call { args, .. } => list_cost(args),
        Expr::MethodCall { obj, args, .. } => {
            let a = expr_cost(obj);
            let b = list_cost(args);
            sum2(a, b, Ghost(ecost(obj)), Ghost(ecost_list(args@)))
        },
        Expr::StructLit { fields, .. } => fields_cost(fields),
        Expr::FieldAccess { obj, .. } => expr_cost(obj),
        Expr::Index { obj, idx } => {
            let a = expr_cost(obj);
            let b = expr_cost(idx);
            sum2(a, b, Ghost(ecost(obj)), Ghost(ecost(idx)))
        },
        Expr::ArrayLit(es) => {
            let a = list_cost(es);
            sum2(a, Some(es.len()), Ghost(ecost_list(es@)), Ghost(es@.len()))
        },
        Expr::ToGpu(x) => expr_cost(x),
        Expr::ToCpu(x) => expr_cost(x),
        _ => Some(0),
    };
    let ghost body: nat = (ecost(e) - 4) as nat;
    assert(fits_as(inner, body));
    sum2(Some(4), inner, Ghost(4), Ghost(body))
}

fn list_cost(s: &Vec<Expr>) -> (r: Option<usize>)
    ensures
        fits_as(r, ecost_list(s@)),
    decreases s, 0nat,
{
    let mut acc: Option<usize> = Some(0);
    let mut i: usize = 0;
    assert(s@.subrange(0, 0) =~= Seq::<Expr>::empty());
    while i < s.len()
        invariant
            i <= s@.len(),
            fits_as(acc, ecost_list(s@.subrange(0, i as int))),
        decreases s.len() - i,
    {
        let c = expr_cost(&s[i]);
        proof {
            assert(s@.subrange(0, i as int + 1).drop_last() =~= s@.subrange(0, i as int));
        }
        acc = sum2(acc, c, Ghost(ecost_list(s@.subrange(0, i as int))), Ghost(ecost(&s@[i as int])));
        i = i + 1;
    }
    assert(s@.subrange(0, s@.len() as int) =~= s@);
    acc
}

fn fields_cost(s: &Vec<(String, Expr)>) -> (r: Option<usize>)
    ensures
        fits_as(r, ecost_fields(s@)),
    decreases s, 0nat,
{
    let mut acc: Option<usize> = Some(0);
    let mut i: usize = 0;
    assert(s@.subrange(0, 0) =~= Seq::<(String, Expr)>::empty());
    while i < s.len()
        invariant
            i <= s@.len(),
            fits_as(acc, ecost_fields(s@.subrange(0, i as int))),
        decreases s.len() - i,
    {
        let c = expr_cost(&s[i].1);
        proof {
            assert(s@.subrange(0, i as int + 1).drop_last() =~= s@.subrange(0, i as int));
        }
        let ghost x = ecost_fields(s@.subrange(0, i as int));
        let ghost y = ecost(&s@[i as int].1);
        let a = sum2(acc, c, Ghost(x), Ghost(y));
        acc = sum2(a, Some(1), Ghost(x + y), Ghost(1));
        i = i + 1;
    }
    assert(s@.subrange(0, s@.len() as int) =~= s@);
    acc
}

fn stmt_cost(s: &Stmt) -> (r: Option<usize>)
    ensures
        fits_as(r, scost(s)),
    decreases s, 1nat,
{
    let inner: Option<usize> = match s {
        Stmt::Let { init, .. } => expr_cost(init),
        Stmt::Assign { target, value } => {
            let a = expr_cost(value);
            let b: Option<usize> = match target {
                AssignTarget::Ident(_) => Some(0),
                AssignTarget::Field(obj, _) => expr_cost(obj),
                AssignTarget::Index(obj, idx) => {
                    let x = expr_cost(obj);
                    let y = expr_cost(idx);
                    sum2(x, y, Ghost(ecost(obj)), Ghost(ecost(idx)))
                },
            };
            sum2(a, b, Ghost(ecost(value)), Ghost(target_cost(target)))
        },
        Stmt::ExprStmt(e) => expr_cost(e),
        Stmt::Return(x) => match x {
            Some(e) => expr_cost(e),
            None => Some(0),
        },
        Stmt::If { cond, then_block, else_block } => {
            let a = expr_cost(cond);
            let b = block_cost(then_block);
            let ab = sum2(a, b, Ghost(ecost(cond)), Ghost(bcost(then_block@)));
            let ghost ec: nat = match else_block {
                Some(eb) => bcost(eb@),
                None => 0,
            };
            let c: Option<usize> = match else_block {
                Some(eb) => block_cost(eb),
                None => Some(0),
            };
            sum2(ab, c, Ghost(ecost(cond) + bcost(then_block@)), Ghost(ec))
        },
        Stmt::While { cond, body } => {
            let a = expr_cost(cond);
            let b = block_cost(body);
            sum2(a, b, Ghost(ecost(cond)), Ghost(bcost(body@)))
        },
        Stmt::For { start, end, body, .. } => {
            let a = expr_cost(start);
            let b = expr_cost(end);
            let ab = sum2(a, b, Ghost(ecost(start)), Ghost(ecost(end)));
            let c = block_cost(body);
            sum2(ab, c, Ghost(ecost(start) + ecost(end)), Ghost(bcost(body@)))
        },
        Stmt::GpuBlock(b) => block_cost(b),
        _ => Some(0),
    };
    let ghost body: nat = (scost(s) - 8) as nat;
    assert(fits_as(inner, body));
    sum2(Some(8), inner, Ghost(8), Ghost(body))
}

fn block_cost(s: &Vec<Stmt>) -> (r: Option<usize>)
    ensures
        fits_as(r, bcost(s@)),
    decreases s, 0nat,
{
    let mut acc: Option<usize> = Some(0);
    let mut i: usize = 0;
    assert(s@.subrange(0, 0) =~= Seq::<Stmt>::empty());
    while i < s.len()
        invariant
            i <= s@.len(),
            fits_as(acc, bcost(s@.subrange(0, i as int))),
        decreases s.len() - i,
    {
        let c = stmt_cost(&s[i]);
        proof {
            assert(s@.subrange(0, i as int + 1).drop_last() =~= s@.subrange(0, i as int));
        }
        acc = sum2(acc, c, Ghost(bcost(s@.subrange(0, i as int))), Ghost(scost(&s@[i as int])));
        i = i + 1;
    }
    assert(s@.subrange(0, s@.len() as int) =~= s@);
    acc
}

/// Whether `Codegen::generate` can take the program: every call passes the
/// arguments that the generator reads, every struct's size fits in an `i64`,
/// and the program's register, slot and label counters fit in a `usize`.
pub fn can_generate(program: &Program) -> (r: bool)
    ensures
        r == (structs_fit(program.structs@) && program_args_ok(program) && program_cost(program) <= usize::MAX),
{
    let mut fit = true;
    let mut i: usize = 0;
    while i < program.structs.len()
        invariant
            i <= program.structs@.len(),
            fit == forall|j: int| 0 <= j < i ==> #[trigger] program.structs@[j].fields@.len() * 8 <= i64::MAX,
        decreases program.structs.len() - i,
    {
        let n = program.structs[i].fields.len() as u64;
        proof {
            assert(n <= 1152921504606846975 <==> n * 8 <= i64::MAX);
        }
        fit = fit && n <= 1152921504606846975u64;
        i = i + 1;
    }
    let top_ok = block_args_check(&program.top_level);
    let mut fns_ok = true;
    let mut cost: Option<usize> = Some(0);
    let mut k: usize = 0;
    assert(program.fns@.subrange(0, 0) =~= Seq::<FnDef>::empty());
    while k < program.fns.len()
        invariant
            k <= program.fns@.len(),
            fns_ok == forall|j: int| 0 <= j < k ==> block_args_ok(#[trigger] program.fns@[j].body@),
            fits_as(cost, fns_cost(program.fns@.subrange(0, k as int))),
        decreases program.fns.len() - k,
    {
        let b = block_args_check(&program.fns[k].body);
        let c = block_cost(&program.fns[k].body);
        proof {
            assert(program.fns@.subrange(0, k as int + 1).drop_last() =~= program.fns@.subrange(0, k as int));
        }
        let ghost x = fns_cost(program.fns@.subrange(0, k as int));
        let ghost p = program.fns@[k as int].params@.len();
        let a = sum2(cost, Some(program.fns[k].params.len()), Ghost(x), Ghost(p));
        cost = sum2(a, c, Ghost(x + p), Ghost(bcost(program.fns@[k as int].body@)));
        fns_ok = fns_ok && b;
        k = k + 1;
    }
    assert(program.fns@.subrange(0, program.fns@.len() as int) =~= program.fns@);
    let tc = block_cost(&program.top_level);
    let total = sum2(cost, tc, Ghost(fns_cost(program.fns@)), Ghost(bcost(program.top_level@)));
    fit && top_ok && fns_ok && total.is_some()
}

/// A generator's starting state with float renderings registered in order.
pub open spec fn cg_with_floats(fs: Seq<(Seq<char>, (Seq<char>, Seq<char>, Seq<char>))>) -> Cg
    decreases fs.len(),
{
    if fs.len() == 0 {
        initial_cg()
    } else {
        let c = cg_with_floats(fs.drop_last());
        Cg { floats: c.floats.insert(fs.last().0, fs.last().1), ..c }
    }
}

proof fn lemma_floats_no_structs(fs: Seq<(Seq<char>, (Seq<char>, Seq<char>, Seq<char>))>)
    ensures
        cg_with_floats(fs).structs == Map::<Seq<char>, Seq<(Seq<char>, Ty)>>::empty(),
    decreases fs.len(),
{
    if fs.len() > 0 {
        lemma_floats_no_structs(fs.drop_last());
    }
}

/// The IR module of a checked program, made by a fresh generator that knows
/// the given renderings of fractional literals; `None` where the generator
/// cannot take the program (see `can_generate`).
pub fn compile_ir(program: &Program, floats: Vec<(String, FloatText)>) -> (r: Option<String>)
    ensures
        r is Some <==> (structs_fit(program.structs@) && program_args_ok(program) && program_cost(program)
            <= usize::MAX),
        r matches Some(s) ==> s@ == gen_program(
            cg_with_floats(Seq::new(floats@.len(), |i: int| (floats@[i].0@, floats@[i].1@))),
            program,
        ).out,
{
    if !can_generate(program) {
        return None;
    }
    let ghost fv = Seq::new(floats@.len(), |i: int| (floats@[i].0@, floats@[i].1@));
    let mut cg = Codegen::new();
    let mut rest = floats;
    let ghost all = rest@;
    let ghost mut i: int = 0;
    assert(fv.subrange(0, 0) =~= Seq::<(Seq<char>, (Seq<char>, Seq<char>, Seq<char>))>::empty());
    assert(rest@ =~= all.subrange(0, all.len() as int));
    while rest.len() > 0
        invariant
            0 <= i <= all.len(),
            rest@ == all.subrange(i, all.len() as int),
            fv == Seq::new(all.len(), |j: int| (all[j].0@, all[j].1@)),
            cg.cg() == cg_with_floats(fv.subrange(0, i)),
        decreases rest.len(),
    {
        let (lit, text) = rest.remove(0);
        proof {
            assert((lit, text) == all[i]);
            assert(rest@ =~= all.subrange(i + 1, all.len() as int));
            assert(fv.subrange(0, i + 1).drop_last() =~= fv.subrange(0, i));
        }
        cg.add_float_text(lit, text);
        proof {
            i = i + 1;
        }
    }
    assert(fv.subrange(0, i) =~= fv);
    proof {
        lemma_floats_no_structs(fv);
    }
    Some(cg.generate(program))
}

// ── Laws ────────────────────────────────────────────────────────────────────

/// Registers with different numbers have different names, so each register
/// handed out by `fresh_reg` (which counts up) is new in its function.
pub proof fn law_register_names_unique(a: nat, b: nat)
    requires
        reg_name(a) == reg_name(b),
    ensures
        a == b,
{
    reveal_strlit("%r");
    assert(reg_name(a).subrange(2, reg_name(a).len() as int) =~= decimal(a));
    assert(reg_name(b).subrange(2, reg_name(b).len() as int) =~= decimal(b));
    lemma_decimal_injective(a, b);
}

/// Labels with different numbers have different names, so each label handed
/// out by `fresh_label` is new in its function.
pub proof fn law_label_names_unique(a: nat, b: nat)
    requires
        label_name(a) == label_name(b),
    ensures
        a == b,
{
    reveal_strlit("lbl");
    assert(label_name(a).subrange(3, label_name(a).len() as int) =~= decimal(a));
    assert(label_name(b).subrange(3, label_name(b).len() as int) =~= decimal(b));
    lemma_decimal_injective(a, b);
}

/// Two registers taken one after the other are different.
pub proof fn law_fresh_registers_differ(c: Cg)
    ensures
        fresh_reg(c).1 != fresh_reg(fresh_reg(c).0).1,
{
    if fresh_reg(c).1 == fresh_reg(fresh_reg(c).0).1 {
        law_register_names_unique(c.reg + 1, c.reg + 2);
    }
}

/// A literal is its own value: generating an integer or boolean literal writes
/// no IR and hands out no register, label, slot or string constant.
pub proof fn law_literals_write_nothing(c: Cg, n: i64, b: bool)
    ensures
        gen_expr(c, &Expr::IntLit(n)) == (c, int_text(n as int), Ty::Int64),
        gen_expr(c, &Expr::BoolLit(b)) == (c, if b {
            "1"@
        } else {
            "0"@
        }, Ty::Int64),
{
}

/// The innermost binding wins: a name declared in a new scope is found there,
/// other names are found as before, and leaving the scope gives back every
/// earlier binding.
pub proof fn law_innermost_binding_wins(c: Cg, n: Seq<char>, v: (Seq<char>, Ty), k: Seq<char>)
    ensures
        lookup_slot(declare(push_scope(c), n, v).vars, n) == Some(v),
        k != n ==> lookup_slot(declare(push_scope(c), n, v).vars, k) == lookup_slot(c.vars, k),
        pop_scope(declare(push_scope(c), n, v)).vars == c.vars,
{
    let d = declare(push_scope(c), n, v);
    assert(d.vars.drop_last() =~= c.vars);
    assert(d.vars.last() == Map::<Seq<char>, (Seq<char>, Ty)>::empty().insert(n, v));
}

/// A function starts its own numbering of registers, labels and slots, a
/// parameterless `main` becomes `@ionic_user_main`, and a `void` function
/// ends with `ret void`.
pub proof fn law_function_shape(c: Cg, f: &FnDef)
    ensures
        push_scope(restart(c, annotation_type(&f.ret_ty))).reg == 0,
        push_scope(restart(c, annotation_type(&f.ret_ty))).label == 0,
        push_scope(restart(c, annotation_type(&f.ret_ty))).slot == 0,
        f.name@ == "main"@ && f.params@.len() == 0 ==> fn_emit_name(f) == "ionic_user_main"@,
        annotation_type(&f.ret_ty) == Ty::Void ==> exists|x: Seq<char>|
            gen_fn(c, f).out == x + "  ret void"@ + "\n"@ + "}"@ + "\n"@ + ""@ + "\n"@,
{
    let rt = annotation_type(&f.ret_ty);
    if rt == Ty::Void {
        let c1 = push_scope(restart(c, rt));
        let c2 = match f.hw {
            Some(hw) => emit(c1, "  "@ + ir_comment_text(c1, hw)),
            None => c1,
        };
        let c3 = emit(c2, "define "@ + llvm_ty(rt) + " @"@ + fn_emit_name(f) + "("@ + params_ir(f.params@) + ") {"@);
        let c4 = emit(c3, "entry:"@);
        let c5 = gen_params(c4, f.params@);
        let c6 = gen_block(c5, f.body@);
        assert(gen_fn(c, f).out =~= c6.out + "  ret void"@ + "\n"@ + "}"@ + "\n"@ + ""@ + "\n"@);
    }
}

/// The character a three-character escape `\XX` stands for.
pub open spec fn unescape_hex(a: char, b: char) -> char {
    if a == '5' && b == 'C' {
        '\\'
    } else if a == '0' && b == 'A' {
        '\n'
    } else if a == '0' && b == '9' {
        '\t'
    } else if a == '2' && b == '2' {
        '"'
    } else {
        '?'
    }
}

/// Reading escaped constant text back: a backslash starts a three-character
/// hex escape, every other character stands for itself.
pub open spec fn unescape_text(t: Seq<char>) -> Seq<char>
    decreases t.len(),
{
    if t.len() == 0 {
        seq![]
    } else if t.len() >= 3 && t[t.len() - 3] == '\\' {
        unescape_text(t.subrange(0, t.len() - 3)).push(unescape_hex(t[t.len() - 2], t[t.len() - 1]))
    } else {
        unescape_text(t.drop_last()).push(t.last())
    }
}

proof fn lemma_escape_char_shape(ch: char)
    ensures
        escape_char(ch).len() == 1 ==> escape_char(ch) == seq![ch] && ch != '\\',
        escape_char(ch).len() != 1 ==> escape_char(ch).len() == 3 && escape_char(ch)[0] == '\\' && escape_char(ch)[1]
            != '\\' && escape_char(ch)[2] != '\\' && unescape_hex(escape_char(ch)[1], escape_char(ch)[2]) == ch,
{
    reveal_strlit("\\5C");
    reveal_strlit("\\0A");
    reveal_strlit("\\09");
    reveal_strlit("\\22");
}

proof fn lemma_escape_backslashes(s: Seq<char>)
    ensures
        forall|i: int| 0 <= i < escape(s).len() && escape(s)[i] == '\\' ==> i + 2 < escape(s).len(),
    decreases s.len(),
{
    if s.len() > 0 {
        lemma_escape_backslashes(s.drop_last());
        lemma_escape_char_shape(s.last());
        let a = escape(s.drop_last());
        let b = escape_char(s.last());
        assert(escape(s) == a + b);
        assert forall|i: int| 0 <= i < escape(s).len() && escape(s)[i] == '\\' implies i + 2 < escape(s).len() by {
            if i < a.len() {
                assert(escape(s)[i] == a[i]);
            } else {
                assert(escape(s)[i] == b[i - a.len()]);
            }
        }
    }
}

/// Interning escapes nothing away: reading the escaped text of a string
/// literal back gives the literal, and its byte count is what the constant
/// occupies.
pub proof fn law_escape_reads_back(s: Seq<char>)
    ensures
        unescape_text(escape(s)) == s,
        intern(initial_cg(), s).0.lits.last() == (escape(s), raw_count(escape(s))),
    decreases s.len(),
{
    if s.len() > 0 {
        let t = s.drop_last();
        law_escape_reads_back(t);
        lemma_escape_backslashes(t);
        lemma_escape_char_shape(s.last());
        let a = escape(t);
        let b = escape_char(s.last());
        let e = escape(s);
        assert(e == a + b);
        if b.len() == 1 {
            assert(e.drop_last() =~= a);
            if e.len() >= 3 && e[e.len() - 3] == '\\' {
                assert(e[e.len() - 3] == a[a.len() - 2]);
            }
            assert(unescape_text(e) == unescape_text(a).push(s.last()));
        } else {
            assert(e.subrange(0, e.len() - 3) =~= a);
            assert(e[e.len() - 3] == b[0]);
            assert(e[e.len() - 2] == b[1]);
            assert(e[e.len() - 1] == b[2]);
            assert(unescape_text(e) == unescape_text(a).push(s.last()));
        }
        assert(s =~= t.push(s.last()));
    } else {
        assert(escape(s) =~= Seq::<char>::empty());
    }
}

// ── What generation leaves as it found it ───────────────────────────────────

/// Generating an expression touches neither the variable scopes nor the jump
/// targets nor the return type.
pub open spec fn expr_frame(c: Cg, d: Cg) -> bool {
    &&& d.vars == c.vars
    &&& d.breaks == c.breaks
    &&& d.conts == c.conts
    &&& d.ret == c.ret
}

/// Generating a statement gives back the scope depth, the jump targets and
/// the return type it found.
pub open spec fn stmt_frame(c: Cg, d: Cg) -> bool {
    &&& d.vars.len() == c.vars.len()
    &&& d.breaks == c.breaks
    &&& d.conts == c.conts
    &&& d.ret == c.ret
}

proof fn lemma_print_vals_frame(c: Cg, a: Seq<(Seq<char>, Ty)>)
    ensures
        expr_frame(c, print_vals(c, a)),
    decreases a.len(),
{
    if a.len() > 0 {
        lemma_print_vals_frame(c, a.drop_last());
    }
}

proof fn lemma_gen_expr_frame(c: Cg, e: &Expr)
    ensures
        expr_frame(c, gen_expr(c, e).0),
    decreases e, 1nat,
{
    match e {
        Expr::BinOp { lhs, rhs, .. } => {
            lemma_gen_expr_frame(c, lhs);
            lemma_gen_expr_frame(gen_expr(c, lhs).0, rhs);
        },
        Expr::UnOp { expr, .. } => {
            lemma_gen_expr_frame(c, expr);
        },
        Expr::Call { args, .. } => {
            lemma_gen_args_frame(c, args@);
            lemma_print_vals_frame(gen_args(c, args@).0, gen_args(c, args@).1);
        },
        Expr::MethodCall { obj, args, .. } => {
            lemma_gen_expr_frame(c, obj);
            lemma_gen_args_frame(gen_expr(c, obj).0, args@);
        },
        Expr::StructLit { name, fields } => {
            if c.structs.contains_key(name@) {
                let layout = c.structs[name@];
                let (c1, p) = fresh_reg(c);
                let c2 = emit(c1, "  "@ + p + " = call ptr @malloc(i64 "@ + int_text((layout.len() * 8) as int) + ")"@);
                lemma_gen_fields_frame(c2, layout, p, fields@);
            }
        },
        Expr::FieldAccess { obj, .. } => {
            lemma_gen_expr_frame(c, obj);
        },
        Expr::Index { obj, idx } => {
            lemma_gen_expr_frame(c, obj);
            lemma_gen_expr_frame(gen_expr(c, obj).0, idx);
        },
        Expr::ArrayLit(es) => {
            let (c1, p) = fresh_reg(c);
            let c2 = emit(
                c1,
                "  "@ + p + " = call ptr @ionic_array_new(i64 8, i64 "@ + int_text(array_cap(es@.len()) as int) + ")"@,
            );
            lemma_gen_elems_frame(c2, p, es@);
        },
        Expr::ToGpu(x) => {
            lemma_gen_expr_frame(c, x);
        },
        Expr::ToCpu(x) => {
            lemma_gen_expr_frame(c, x);
        },
        _ => {},
    }
}

proof fn lemma_gen_args_frame(c: Cg, s: Seq<Expr>)
    ensures
        expr_frame(c, gen_args(c, s).0),
    decreases s, 0nat,
{
    if s.len() > 0 {
        lemma_gen_args_frame(c, s.drop_last());
        lemma_gen_expr_frame(gen_args(c, s.drop_last()).0, &s.last());
    }
}

proof fn lemma_gen_fields_frame(c: Cg, layout: Seq<(Seq<char>, Ty)>, p: Seq<char>, fs: Seq<(String, Expr)>)
    ensures
        expr_frame(c, gen_fields(c, layout, p, fs)),
    decreases fs, 0nat,
{
    if fs.len() > 0 {
        lemma_gen_fields_frame(c, layout, p, fs.drop_last());
        lemma_gen_expr_frame(gen_fields(c, layout, p, fs.drop_last()), &fs.last().1);
    }
}

proof fn lemma_gen_elems_frame(c: Cg, p: Seq<char>, es: Seq<Expr>)
    ensures
        expr_frame(c, gen_elems(c, p, es).0),
    decreases es, 0nat,
{
    if es.len() > 0 {
        lemma_gen_elems_frame(c, p, es.drop_last());
        lemma_gen_expr_frame(gen_elems(c, p, es.drop_last()).0, &es.last());
    }
}

/// Generating an expression keeps the variable scopes, the jump targets and
/// the return type.
pub proof fn law_expression_keeps_scopes(c: Cg, e: &Expr)
    ensures
        expr_frame(c, gen_expr(c, e).0),
{
    lemma_gen_expr_frame(c, e);
}

#[verifier::spinoff_prover]
#[verifier::rlimit(40)]
proof fn lemma_gen_stmt_frame(c: Cg, s: &Stmt)
    ensures
        stmt_frame(c, gen_stmt(c, s)),
    decreases s, 3nat,
{
    match s {
        Stmt::Let { init, .. } => {
            lemma_gen_expr_frame(c, init);
        },
        Stmt::Assign { target, value } => {
            lemma_gen_expr_frame(c, value);
            let c1 = gen_expr(c, value).0;
            match target {
                AssignTarget::Field(obj, _) => lemma_gen_expr_frame(c1, obj),
                AssignTarget::Index(obj, idx) => {
                    lemma_gen_expr_frame(c1, obj);
                    lemma_gen_expr_frame(gen_expr(c1, obj).0, idx);
                },
                _ => {},
            }
        },
        Stmt::ExprStmt(e) => {
            lemma_gen_expr_frame(c, e);
        },
        Stmt::Return(x) => match x {
            Some(e) => lemma_gen_expr_frame(c, e),
            None => {},
        },
        Stmt::If { cond, then_block, else_block } => {
            lemma_gen_if_frame(c, s);
        },
        Stmt::While { .. } => {
            lemma_gen_while_frame(c, s);
        },
        Stmt::For { .. } => {
            lemma_gen_for_frame(c, s);
        },
        Stmt::GpuBlock(b) => {
            let c1 = emit(c, "  ; === gpu block begin ==="@);
            lemma_gen_scoped_frame(c1, b@);
        },
        _ => {},
    }
}

proof fn lemma_gen_block_frame(c: Cg, s: Seq<Stmt>)
    ensures
        stmt_frame(c, gen_block(c, s)),
    decreases s, 0nat,
{
    if s.len() > 0 {
        lemma_gen_block_frame(c, s.drop_last());
        lemma_gen_stmt_frame(gen_block(c, s.drop_last()), &s.last());
    }
}

proof fn lemma_gen_scoped_frame(c: Cg, b: Seq<Stmt>)
    ensures
        stmt_frame(c, gen_scoped(c, b)),
    decreases b, 1nat,
{
    lemma_gen_block_frame(push_scope(c), b);
}

proof fn lemma_gen_if_frame(c: Cg, s: &Stmt)
    ensures
        stmt_frame(c, gen_if(c, s)),
    decreases s, 2nat,
{
    match s {
        Stmt::If { cond, then_block, else_block } => {
            lemma_gen_expr_frame(c, cond);
            let (c1, cv, _) = gen_expr(c, cond);
            let (c2, ci) = coerce_to_i1(c1, cv);
            let (c3, tl) = fresh_label(c2);
            let (c4, ml) = fresh_label(c3);
            match else_block {
                Some(eb) => {
                    let (c5, el) = fresh_label(c4);
                    let c6 = emit(c5, "  br i1 "@ + ci + ", label %"@ + tl + ", label %"@ + el);
                    let c7 = emit(c6, tl + ":"@);
                    lemma_gen_scoped_frame(c7, then_block@);
                    let c8 = gen_scoped(c7, then_block@);
                    let c9 = emit(c8, "  br label %"@ + ml);
                    let c10 = emit(c9, el + ":"@);
                    lemma_gen_scoped_frame(c10, eb@);
                },
                None => {
                    let c6 = emit(c4, "  br i1 "@ + ci + ", label %"@ + tl + ", label %"@ + ml);
                    let c7 = emit(c6, tl + ":"@);
                    lemma_gen_scoped_frame(c7, then_block@);
                },
            }
        },
        _ => {},
    }
}

proof fn lemma_gen_while_frame(c: Cg, s: &Stmt)
    ensures
        stmt_frame(c, gen_while(c, s)),
    decreases s, 2nat,
{
    match s {
        Stmt::While { cond, body } => {
            let (c1, cl) = fresh_label(c);
            let (c2, bl) = fresh_label(c1);
            let (c3, xl) = fresh_label(c2);
            let c4 = with_jumps(c3, xl, cl);
            let c5 = emit(c4, "  br label %"@ + cl);
            let c6 = emit(c5, cl + ":"@);
            lemma_gen_expr_frame(c6, cond);
            let (c7, cv, _) = gen_expr(c6, cond);
            let (c8, ci) = coerce_to_i1(c7, cv);
            let c9 = emit(c8, "  br i1 "@ + ci + ", label %"@ + bl + ", label %"@ + xl);
            let c10 = emit(c9, bl + ":"@);
            lemma_gen_scoped_frame(c10, body@);
            assert(c.breaks.push(xl).drop_last() =~= c.breaks);
            assert(c.conts.push(cl).drop_last() =~= c.conts);
        },
        _ => {},
    }
}

proof fn lemma_gen_for_frame(c: Cg, s: &Stmt)
    ensures
        stmt_frame(c, gen_for(c, s)),
    decreases s, 2nat,
{
    match s {
        Stmt::For { var, start, end, body } => {
            lemma_gen_expr_frame(c, start);
            let (c1, sv, _) = gen_expr(c, start);
            lemma_gen_expr_frame(c1, end);
            let (c2, ev, _) = gen_expr(c1, end);
            let (c3, slot) = fresh_slot(c2, var@);
            let c4 = emit(c3, "  "@ + slot + " = alloca i64, align 8"@);
            let c5 = emit(c4, "  store i64 "@ + sv + ", ptr "@ + slot + ", align 8"@);
            let (c6, cl) = fresh_label(c5);
            let (c7, bl) = fresh_label(c6);
            let (c8, il) = fresh_label(c7);
            let (c9, xl) = fresh_label(c8);
            let c10 = with_jumps(c9, xl, il);
            let c11 = emit(c10, "  br label %"@ + cl);
            let c12 = emit(c11, cl + ":"@);
            let c13 = gen_for_test(c12, slot, ev, bl, xl);
            let c14 = emit(c13, bl + ":"@);
            lemma_gen_block_frame(declare(push_scope(c14), var@, (slot, Ty::Int64)), body@);
            assert(c.breaks.push(xl).drop_last() =~= c.breaks);
            assert(c.conts.push(il).drop_last() =~= c.conts);
        },
        _ => {},
    }
}

/// Generating a statement gives back what it found: the scope depth (every
/// scope it opens is closed again), the `break` and `continue` targets, and
/// the return type.
pub proof fn law_statement_restores_scopes(c: Cg, s: &Stmt)
    ensures
        stmt_frame(c, gen_stmt(c, s)),
{
    lemma_gen_stmt_frame(c, s);
}

/// A function's generation gives back the scope depth it found.
pub proof fn law_function_restores_scopes(c: Cg, f: &FnDef)
    ensures
        gen_fn(c, f).vars.len() == c.vars.len(),
{
    let rt = annotation_type(&f.ret_ty);
    let c1 = push_scope(restart(c, rt));
    let c2 = match f.hw {
        Some(hw) => emit(c1, "  "@ + ir_comment_text(c1, hw)),
        None => c1,
    };
    let c3 = emit(c2, "define "@ + llvm_ty(rt) + " @"@ + fn_emit_name(f) + "("@ + params_ir(f.params@) + ") {"@);
    let c4 = emit(c3, "entry:"@);
    lemma_gen_params_len(c4, f.params@);
    lemma_gen_block_frame(gen_params(c4, f.params@), f.body@);
}

proof fn lemma_gen_params_len(c: Cg, ps: Seq<Param>)
    ensures
        gen_params(c, ps).vars.len() == c.vars.len(),
    decreases ps.len(),
{
    if ps.len() > 0 {
        lemma_gen_params_len(c, ps.drop_last());
    }
}

// ── The end of a module ─────────────────────────────────────────────────────

/// The definition line of the `i`-th string constant: its escaped text and
/// its byte count plus the closing zero.
pub open spec fn lit_line(i: nat, l: (Seq<char>, nat)) -> Seq<char> {
    "@str"@ + decimal(i) + " = private constant ["@ + decimal(l.1 + 1) + " x i8] c\""@ + l.0 + "\\00\""@
}

/// The definition lines of string constants, numbered in order.
pub open spec fn lits_text(lits: Seq<(Seq<char>, nat)>) -> Seq<char>
    decreases lits.len(),
{
    if lits.len() == 0 {
        seq![]
    } else {
        lits_text(lits.drop_last()) + lit_line((lits.len() - 1) as nat, lits.last()) + "\n"@
    }
}

proof fn lemma_flush_lits(c: Cg, lits: Seq<(Seq<char>, nat)>)
    ensures
        flush_lits(c, lits).out == c.out + lits_text(lits),
        flush_lits(c, lits).lits == c.lits,
    decreases lits.len(),
{
    if lits.len() > 0 {
        lemma_flush_lits(c, lits.drop_last());
        assert(flush_lits(c, lits).out =~= c.out + lits_text(lits));
    }
}

/// Every string constant interned while the module was generated is defined
/// at its end, in order of interning, each once, under its number and with
/// its byte count.
pub proof fn law_constants_close_the_module(c: Cg, p: &Program)
    ensures
        exists|d: Cg| #[trigger] gen_program(c, p).out == d.out + lits_text(d.lits) && gen_program(c, p).lits == d.lits,
{
    let c1 = register_sigs(register_layouts(c, p.structs@), p.fns@);
    let c2 = with_runtime(c1);
    let c3 = struct_comments(c2, c2.struct_order);
    let c4 = if c2.struct_order.len() > 0 {
        emit(c3, ""@)
    } else {
        c3
    };
    let (c5, had) = gen_globals(c4, p.top_level@);
    let c6 = if had {
        emit(c5, ""@)
    } else {
        c5
    };
    let c7 = gen_fns(c6, p.fns@);
    let c8 = gen_main(c7, p.top_level@, has_user_main(p.fns@));
    lemma_flush_lits(c8, c8.lits);
    assert(gen_program(c, p) == flush_lits(c8, c8.lits));
}

/// The module ends with the entry point (`gen_main`, whose shape
/// `law_entry_point` gives) for the program's top-level statements, written
/// after everything else the program defines, followed only by the string
/// constants interned up to then.
pub proof fn law_module_ends_with_entry_point(c: Cg, p: &Program)
    ensures
        exists|d: Cg| {
            let m = #[trigger] gen_main(d, p.top_level@, has_user_main(p.fns@));
            &&& gen_program(c, p).out == m.out + lits_text(m.lits)
            &&& gen_program(c, p).lits == m.lits
        },
{
    let c1 = register_sigs(register_layouts(c, p.structs@), p.fns@);
    let c2 = with_runtime(c1);
    let c3 = struct_comments(c2, c2.struct_order);
    let c4 = if c2.struct_order.len() > 0 {
        emit(c3, ""@)
    } else {
        c3
    };
    let (c5, had) = gen_globals(c4, p.top_level@);
    let c6 = if had {
        emit(c5, ""@)
    } else {
        c5
    };
    let c7 = gen_fns(c6, p.fns@);
    let c8 = gen_main(c7, p.top_level@, has_user_main(p.fns@));
    lemma_flush_lits(c8, c8.lits);
    assert(gen_program(c, p) == flush_lits(c8, c8.lits));
}

/// The step of a `for` loop counts up by one: it loads the counter from its
/// slot into a new register, adds 1 into another new register, stores that
/// sum back into the slot, and jumps to the loop test; registers are numbered
/// past those handed out before.
pub proof fn law_for_step_adds_one(c: Cg, slot: Seq<char>, cl: Seq<char>)
    ensures
        exists|a: nat, b: nat| {
            &&& c.reg < a
            &&& c.reg < b
            &&& a != b
            &&& #[trigger] gen_for_step(c, slot, cl).out == c.out
                + "  "@ + reg_name(a) + " = load i64, ptr "@ + slot + ", align 8"@ + "\n"@
                + "  "@ + reg_name(b) + " = add i64 "@ + reg_name(a) + ", 1"@ + "\n"@
                + "  store i64 "@ + reg_name(b) + ", ptr "@ + slot + ", align 8"@ + "\n"@
                + "  br label %"@ + cl + "\n"@
        },
        gen_for_step(c, slot, cl).reg == c.reg + 2,
{
    let a = c.reg + 1;
    let b = c.reg + 2;
    assert(gen_for_step(c, slot, cl).out =~= c.out
        + "  "@ + reg_name(a) + " = load i64, ptr "@ + slot + ", align 8"@ + "\n"@
        + "  "@ + reg_name(b) + " = add i64 "@ + reg_name(a) + ", 1"@ + "\n"@
        + "  store i64 "@ + reg_name(b) + ", ptr "@ + slot + ", align 8"@ + "\n"@
        + "  br label %"@ + cl + "\n"@);
}

/// The test of a `for` loop runs the body while the counter is strictly below
/// the end value (the range excludes its end): it loads the counter into the
/// next new register, compares it with `icmp slt` against the end value, and
/// branches to the body when the comparison holds and to the exit otherwise.
#[verifier::spinoff_prover]
pub proof fn law_for_test_excludes_the_end(c: Cg, slot: Seq<char>, ev: Seq<char>, bl: Seq<char>, xl: Seq<char>)
    ensures
        ({
            let a = reg_name(c.reg + 1);
            let b = reg_name(c.reg + 2);
            let d = reg_name(c.reg + 3);
            let f = reg_name(c.reg + 4);
            gen_for_test(c, slot, ev, bl, xl).out == c.out
                + "  "@ + a + " = load i64, ptr "@ + slot + ", align 8"@ + "\n"@
                + "  "@ + b + " = icmp slt i64 "@ + a + ", "@ + ev + "\n"@
                + "  "@ + d + " = zext i1 "@ + b + " to i64"@ + "\n"@
                + "  "@ + f + " = trunc i64 "@ + d + " to i1"@ + "\n"@
                + "  br i1 "@ + f + ", label %"@ + bl + ", label %"@ + xl + "\n"@
        }),
        gen_for_test(c, slot, ev, bl, xl).reg == c.reg + 4,
{
    let a = reg_name(c.reg + 1);
    let b = reg_name(c.reg + 2);
    let d = reg_name(c.reg + 3);
    let f = reg_name(c.reg + 4);
    let (c1, cur) = fresh_reg(c);
    let c2 = emit(c1, "  "@ + cur + " = load i64, ptr "@ + slot + ", align 8"@);
    let (c3, cmp1) = fresh_reg(c2);
    let (c4, cmp) = fresh_reg(c3);
    let c5 = emit(c4, "  "@ + cmp1 + " = icmp slt i64 "@ + cur + ", "@ + ev);
    let c6 = emit(c5, "  "@ + cmp + " = zext i1 "@ + cmp1 + " to i64"@);
    let (c7, br) = fresh_reg(c6);
    let c8 = emit(c7, "  "@ + br + " = trunc i64 "@ + cmp + " to i1"@);
    let c9 = emit(c8, "  br i1 "@ + br + ", label %"@ + bl + ", label %"@ + xl);
    assert(gen_for_test(c, slot, ev, bl, xl) == c9);
    assert(c9.out =~= c.out
        + "  "@ + a + " = load i64, ptr "@ + slot + ", align 8"@ + "\n"@
        + "  "@ + b + " = icmp slt i64 "@ + a + ", "@ + ev + "\n"@
        + "  "@ + d + " = zext i1 "@ + b + " to i64"@ + "\n"@
        + "  "@ + f + " = trunc i64 "@ + d + " to i1"@ + "\n"@
        + "  br i1 "@ + f + ", label %"@ + bl + ", label %"@ + xl + "\n"@);
}

/// The instruction each binary operator becomes: integer arithmetic is
/// `add`, `sub`, `mul`, signed `sdiv` and `srem`, floating point `fadd`,
/// `fsub`, `fmul`, `fdiv`, `frem`; `&&` and `||` are `and` and `or` on
/// `i64`; comparisons are signed `icmp` on integers and ordered `fcmp`
/// (unordered for `!=`) on floats.
pub proof fn law_operator_instructions(f: bool, ll: Seq<char>, lv: Seq<char>, rv: Seq<char>)
    ensures
        arith_instr(BinOp::Add, false, ll, lv, rv) == "add "@ + ll + " "@ + lv + ", "@ + rv,
        arith_instr(BinOp::Add, true, ll, lv, rv) == "fadd "@ + ll + " "@ + lv + ", "@ + rv,
        arith_instr(BinOp::Sub, false, ll, lv, rv) == "sub "@ + ll + " "@ + lv + ", "@ + rv,
        arith_instr(BinOp::Sub, true, ll, lv, rv) == "fsub "@ + ll + " "@ + lv + ", "@ + rv,
        arith_instr(BinOp::Mul, false, ll, lv, rv) == "mul "@ + ll + " "@ + lv + ", "@ + rv,
        arith_instr(BinOp::Mul, true, ll, lv, rv) == "fmul "@ + ll + " "@ + lv + ", "@ + rv,
        arith_instr(BinOp::Div, false, ll, lv, rv) == "sdiv "@ + ll + " "@ + lv + ", "@ + rv,
        arith_instr(BinOp::Div, true, ll, lv, rv) == "fdiv "@ + ll + " "@ + lv + ", "@ + rv,
        arith_instr(BinOp::Mod, false, ll, lv, rv) == "srem "@ + ll + " "@ + lv + ", "@ + rv,
        arith_instr(BinOp::Mod, true, ll, lv, rv) == "frem "@ + ll + " "@ + lv + ", "@ + rv,
        arith_instr(BinOp::And, f, ll, lv, rv) == "and i64 "@ + lv + ", "@ + rv,
        arith_instr(BinOp::Or, f, ll, lv, rv) == "or i64 "@ + lv + ", "@ + rv,
        cmp_instr(BinOp::EqEq, false, ll, lv, rv) == "icmp eq "@ + ll + " "@ + lv + ", "@ + rv,
        cmp_instr(BinOp::EqEq, true, ll, lv, rv) == "fcmp oeq "@ + ll + " "@ + lv + ", "@ + rv,
        cmp_instr(BinOp::NotEq, false, ll, lv, rv) == "icmp ne "@ + ll + " "@ + lv + ", "@ + rv,
        cmp_instr(BinOp::NotEq, true, ll, lv, rv) == "fcmp une "@ + ll + " "@ + lv + ", "@ + rv,
        cmp_instr(BinOp::Lt, false, ll, lv, rv) == "icmp slt "@ + ll + " "@ + lv + ", "@ + rv,
        cmp_instr(BinOp::Lt, true, ll, lv, rv) == "fcmp olt "@ + ll + " "@ + lv + ", "@ + rv,
        cmp_instr(BinOp::Gt, false, ll, lv, rv) == "icmp sgt "@ + ll + " "@ + lv + ", "@ + rv,
        cmp_instr(BinOp::Gt, true, ll, lv, rv) == "fcmp ogt "@ + ll + " "@ + lv + ", "@ + rv,
        cmp_instr(BinOp::LtEq, false, ll, lv, rv) == "icmp sle "@ + ll + " "@ + lv + ", "@ + rv,
        cmp_instr(BinOp::LtEq, true, ll, lv, rv) == "fcmp ole "@ + ll + " "@ + lv + ", "@ + rv,
        cmp_instr(BinOp::GtEq, false, ll, lv, rv) == "icmp sge "@ + ll + " "@ + lv + ", "@ + rv,
        cmp_instr(BinOp::GtEq, true, ll, lv, rv) == "fcmp oge "@ + ll + " "@ + lv + ", "@ + rv,
{
}

/// A comparison gives a new `i64` register holding 0 or 1 (its `i1` result
/// widened with `zext`); arithmetic keeps the type of its left operand, and
/// `&&`, `||` give `int64`.
pub proof fn law_operator_results(c: Cg, op: BinOp, lv: Seq<char>, lt: Ty, rv: Seq<char>)
    ensures
        ({
            let (d, reg, t) = gen_binop(c, op, lv, lt, rv);
            &&& reg == reg_name(c.reg + 1)
            &&& is_cmp(op) ==> t == Ty::Int64 && d.out == c.out + "  "@ + reg_name(c.reg + 2) + " = "@
                + cmp_instr(op, lt == Ty::Float64, llvm_ty(lt), lv, rv) + "\n"@ + "  "@ + reg + " = zext i1 "@
                + reg_name(c.reg + 2) + " to i64"@ + "\n"@
            &&& !is_cmp(op) ==> d.out == c.out + "  "@ + reg + " = "@ + arith_instr(op, lt == Ty::Float64, llvm_ty(lt), lv, rv)
                + "\n"@
            &&& (op is Add || op is Sub || op is Mul || op is Div || op is Mod) ==> t == lt
            &&& (op is And || op is Or) ==> t == Ty::Int64
        }),
{
    let (d, reg, t) = gen_binop(c, op, lv, lt, rv);
    if is_cmp(op) {
        assert(d.out =~= c.out + "  "@ + reg_name(c.reg + 2) + " = "@ + cmp_instr(op, lt == Ty::Float64, llvm_ty(lt), lv, rv)
            + "\n"@ + "  "@ + reg + " = zext i1 "@ + reg_name(c.reg + 2) + " to i64"@ + "\n"@);
    } else {
        assert(d.out =~= c.out + "  "@ + reg + " = "@ + arith_instr(op, lt == Ty::Float64, llvm_ty(lt), lv, rv) + "\n"@);
    }
}

/// Writing the runtime appends the prelude and the helper definitions, one
/// after the other, and leaves everything else as it was: register, slot and
/// label counters, interned literals, scopes, signatures, layouts, return
/// type, jump targets, globals and fraction renderings.
pub proof fn law_runtime_only_writes(c: Cg)
    ensures
        with_runtime(c).out == c.out + PRELUDE@ + RUNTIME_HELPERS@,
        with_runtime(c).reg == c.reg,
        with_runtime(c).slot == c.slot,
        with_runtime(c).label == c.label,
        with_runtime(c).lits == c.lits,
        with_runtime(c).vars == c.vars,
        with_runtime(c).fns == c.fns,
        with_runtime(c).structs == c.structs,
        with_runtime(c).struct_order == c.struct_order,
        with_runtime(c).ret == c.ret,
        with_runtime(c).breaks == c.breaks,
        with_runtime(c).conts == c.conts,
        with_runtime(c).globals == c.globals,
        with_runtime(c).floats == c.floats,
{
}

/// The entry point of a program without a parameterless `main`: the header,
/// the runtime set-up call, the top-level statements in order, and
/// `ret i32 0`; with one, it returns what the user's `main` returns.
pub proof fn law_entry_point(c: Cg, stmts: Seq<Stmt>, user_main: bool)
    ensures
        ({
            let c4 = emit(
                emit(emit(restart(c, Ty::Void), "define i32 @main(i32 %_argc, ptr %_argv) {"@), "entry:"@),
                "  call void @ionic_runtime_init(i32 %_argc, ptr %_argv)"@,
            );
            &&& c4.out == c.out + "define i32 @main(i32 %_argc, ptr %_argv) {"@ + "\n"@ + "entry:"@ + "\n"@
                + "  call void @ionic_runtime_init(i32 %_argc, ptr %_argv)"@ + "\n"@
            &&& !user_main ==> gen_main(c, stmts, user_main).out == gen_block(c4, stmts).out + "  ret i32 0"@
                + "\n"@ + "}"@ + "\n"@ + ""@ + "\n"@
            &&& user_main ==> gen_main(c, stmts, user_main).out == gen_block(c4, stmts).out
                + "  %_exit = call i64 @ionic_user_main()"@ + "\n"@ + "  %_exit32 = trunc i64 %_exit to i32"@
                + "\n"@ + "  ret i32 %_exit32"@ + "\n"@ + "}"@ + "\n"@ + ""@ + "\n"@
        }),
{
    let c4 = emit(
        emit(emit(restart(c, Ty::Void), "define i32 @main(i32 %_argc, ptr %_argv) {"@), "entry:"@),
        "  call void @ionic_runtime_init(i32 %_argc, ptr %_argv)"@,
    );
    assert(c4.out =~= c.out + "define i32 @main(i32 %_argc, ptr %_argv) {"@ + "\n"@ + "entry:"@ + "\n"@
        + "  call void @ionic_runtime_init(i32 %_argc, ptr %_argv)"@ + "\n"@);
    let c5 = gen_block(c4, stmts);
    if user_main {
        assert(gen_main(c, stmts, user_main).out =~= c5.out + "  %_exit = call i64 @ionic_user_main()"@ + "\n"@
            + "  %_exit32 = trunc i64 %_exit to i32"@ + "\n"@ + "  ret i32 %_exit32"@ + "\n"@ + "}"@ + "\n"@ + ""@
            + "\n"@);
    } else {
        assert(gen_main(c, stmts, user_main).out =~= c5.out + "  ret i32 0"@ + "\n"@ + "}"@ + "\n"@ + ""@ + "\n"@);
    }
}
} // verus!
