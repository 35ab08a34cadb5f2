//! The type checker: infers expression types, checks statements against the
//! declared types and placement rules, and collects error messages.
use vstd::prelude::*;
use crate::ast::{
    Type, Ty, type_view, HwTarget, HwAnnotation, TypeAnnotation, annotation_type, ty_name, BinOp, UnOp, Expr,
    Stmt, AssignTarget, FnDef, Program, Param, StructDef, FieldDef,
};
use crate::table::Table;
use crate::text::{copy_string, text_is, decimal, push_decimal, owned, same_text};

verus! {

/// What the analyzer knows of a variable: its type and whether it may be reassigned.
#[derive(Debug)]
pub struct VarInfo {
    pub ty: Type,
    pub mutable: bool,
}

impl View for VarInfo {
    type V = (Ty, bool);

    open spec fn view(&self) -> (Ty, bool) {
        (self.ty@, self.mutable)
    }
}

/// A function signature: parameter types and return type.
#[derive(Debug)]
pub struct FnSig {
    pub params: Vec<Type>,
    pub ret: Type,
}

pub open spec fn types_view(ts: Seq<Type>) -> Seq<Ty> {
    Seq::new(ts.len(), |i: int| ts[i]@)
}

impl View for FnSig {
    type V = (Seq<Ty>, Ty);

    open spec fn view(&self) -> (Seq<Ty>, Ty) {
        (types_view(self.params@), self.ret@)
    }
}

/// The fields of a struct with their types, in declaration order.
#[derive(Debug)]
pub struct FieldTypes {
    pub fields: Vec<(String, Type)>,
}

pub open spec fn fields_view(fs: Seq<(String, Type)>) -> Seq<(Seq<char>, Ty)> {
    Seq::new(fs.len(), |i: int| (fs[i].0@, fs[i].1@))
}

impl View for FieldTypes {
    type V = Seq<(Seq<char>, Ty)>;

    open spec fn view(&self) -> Seq<(Seq<char>, Ty)> {
        fields_view(self.fields@)
    }
}

/// What the analyzer knows at a point of the program.
pub struct Env {
    /// Variable scopes, innermost last.
    pub scopes: Seq<Map<Seq<char>, (Ty, bool)>>,
    /// Function signatures.
    pub fns: Map<Seq<char>, (Seq<Ty>, Ty)>,
    /// Struct field lists.
    pub structs: Map<Seq<char>, Seq<(Seq<char>, Ty)>>,
    /// Inside a `gpu { .. }` block or a `@gpu` function.
    pub in_gpu: bool,
    /// Number of enclosing loops.
    pub loop_depth: nat,
}

/// The innermost declaration of a variable.
pub open spec fn lookup(scopes: Seq<Map<Seq<char>, (Ty, bool)>>, k: Seq<char>) -> Option<(Ty, bool)>
    decreases scopes.len(),
{
    if scopes.len() == 0 {
        None
    } else if scopes.last().contains_key(k) {
        Some(scopes.last()[k])
    } else {
        lookup(scopes.drop_last(), k)
    }
}

/// The first field of the given name.
pub open spec fn field_type(fs: Seq<(Seq<char>, Ty)>, k: Seq<char>) -> Option<Ty>
    decreases fs.len(),
{
    if fs.len() == 0 {
        None
    } else if fs[0].0 == k {
        Some(fs[0].1)
    } else {
        field_type(fs.drop_first(), k)
    }
}

pub type Msgs = Seq<Seq<char>>;

pub open spec fn quoted(s: Seq<char>) -> Seq<char> {
    "`"@ + s + "`"@
}

pub open spec fn msg_undefined_var(n: Seq<char>) -> Seq<char> {
    "Undefined variable "@ + quoted(n)
}

pub open spec fn msg_type_mismatch(a: Ty, b: Ty) -> Seq<char> {
    "Type mismatch: "@ + quoted(ty_name(a)) + " vs "@ + quoted(ty_name(b))
}

/// Strings are compared with `str_eq`: `==` and `!=` on two strings are refused.
pub open spec fn msg_string_eq(eq: bool) -> Seq<char> {
    "Strings are compared with `str_eq`, not "@ + quoted(if eq {
        "=="@
    } else {
        "!="@
    })
}

pub open spec fn msg_gpu_arg(i: nat, callee: Seq<char>) -> Seq<char> {
    "Arg "@ + decimal(i) + " to "@ + quoted(callee)
        + ": `tensor@cpu` in gpu block \u{2014} use `.toGpu()` first"@
}

pub open spec fn msg_undefined_fn(n: Seq<char>) -> Seq<char> {
    "Undefined function "@ + quoted(n)
}

pub open spec fn msg_field_type(s: Seq<char>, f: Seq<char>, exp: Ty, got: Ty) -> Seq<char> {
    "Struct "@ + quoted(s) + " field "@ + quoted(f) + ": expected "@ + quoted(ty_name(exp))
        + ", got "@ + quoted(ty_name(got))
}

pub open spec fn msg_no_field(f: Seq<char>, s: Seq<char>) -> Seq<char> {
    "No field "@ + quoted(f) + " on struct "@ + quoted(s)
}

pub open spec fn msg_unknown_struct(s: Seq<char>) -> Seq<char> {
    "Unknown struct "@ + quoted(s)
}

pub open spec fn msg_uniform(a: Ty, b: Ty) -> Seq<char> {
    "Array elements must have uniform type: "@ + quoted(ty_name(a)) + " vs "@ + quoted(
        ty_name(b),
    )
}

pub open spec fn msg_to_device(gpu: bool, got: Ty) -> Seq<char> {
    if gpu {
        "`.toGpu()` requires a tensor, got "@ + quoted(ty_name(got))
    } else {
        "`.toCpu()` requires a tensor, got "@ + quoted(ty_name(got))
    }
}

pub open spec fn is_tensor_cpu(t: Ty) -> bool {
    t == Ty::Tensor(HwTarget::Cpu)
}

/// Errors for arguments that are CPU tensors inside a GPU context (1-based positions).
pub open spec fn gpu_arg_errors(callee: Seq<char>, ts: Seq<Ty>) -> Msgs
    decreases ts.len(),
{
    if ts.len() == 0 {
        seq![]
    } else {
        gpu_arg_errors(callee, ts.drop_last()) + if is_tensor_cpu(ts.last()) {
            seq![msg_gpu_arg(ts.len(), callee)]
        } else {
            seq![]
        }
    }
}

/// The type of a method call on a value of type `obj`.
pub open spec fn method_type(obj: Ty, m: Seq<char>) -> Ty {
    match obj {
        Ty::Tensor(hw) => if m == "mean"@ || m == "sum"@ {
            Ty::Float64
        } else if m == "pow"@ {
            Ty::Tensor(hw)
        } else {
            Ty::Unknown
        },
        Ty::Array(inner) => if m == "len"@ {
            Ty::Int64
        } else if m == "push"@ {
            Ty::Void
        } else if m == "pop"@ {
            *inner
        } else {
            Ty::Unknown
        },
        Ty::Str => if m == "len"@ {
            Ty::Int64
        } else {
            Ty::Unknown
        },
        Ty::Model(hw) => if m == "forward"@ {
            Ty::Tensor(hw)
        } else if m == "to_gpu"@ {
            Ty::Model(HwTarget::Gpu)
        } else if m == "to_cpu"@ {
            Ty::Model(HwTarget::Cpu)
        } else {
            Ty::Unknown
        },
        _ => Ty::Unknown,
    }
}

pub open spec fn is_arith(op: BinOp) -> bool {
    op == BinOp::Add || op == BinOp::Sub || op == BinOp::Mul || op == BinOp::Div || op
        == BinOp::Mod
}

/// The type of an expression and the errors found while inferring it, in order.
pub open spec fn infer(env: Env, e: &Expr) -> (Ty, Msgs)
    decreases e, 0nat,
{
    match e {
        Expr::IntLit(_) => (Ty::Int64, seq![]),
        Expr::FloatLit(_) => (Ty::Float64, seq![]),
        Expr::StringLit(_) => (Ty::Str, seq![]),
        Expr::BoolLit(_) => (Ty::Bool, seq![]),
        Expr::Ident(n) => match lookup(env.scopes, n@) {
            Some(info) => (info.0, seq![]),
            None => (Ty::Unknown, seq![msg_undefined_var(n@)]),
        },
        Expr::BinOp { op, lhs, rhs } => {
            let (lt, le) = infer(env, lhs);
            let (rt, re) = infer(env, rhs);
            if is_arith(*op) {
                if lt != rt && lt != Ty::Unknown && rt != Ty::Unknown {
                    (lt, le + re + seq![msg_type_mismatch(lt, rt)])
                } else {
                    (lt, le + re)
                }
            } else if (*op is EqEq || *op is NotEq) && lt == Ty::Str && rt == Ty::Str {
                (Ty::Bool, le + re + seq![msg_string_eq(*op is EqEq)])
            } else {
                (Ty::Bool, le + re)
            }
        },
        Expr::UnOp { op, expr } => {
            let (t, es) = infer(env, expr);
            match op {
                UnOp::Not => (Ty::Bool, es),
                UnOp::Neg => (t, es),
            }
        },
        Expr::Call { callee, args } => {
            let (ts, es) = infer_list(env, args@);
            let ge = if env.in_gpu {
                gpu_arg_errors(callee@, ts)
            } else {
                seq![]
            };
            if env.fns.contains_key(callee@) {
                (env.fns[callee@].1, es + ge)
            } else {
                (Ty::Unknown, es + ge + seq![msg_undefined_fn(callee@)])
            }
        },
        Expr::MethodCall { obj, method, args } => {
            let (ot, oe) = infer(env, obj);
            let (_, ae) = infer_list(env, args@);
            (method_type(ot, method@), oe + ae)
        },
        Expr::StructLit { name, fields } => {
            if env.structs.contains_key(name@) {
                (Ty::Struct(name@), infer_fields(env, name@, env.structs[name@], fields@))
            } else {
                (Ty::Unknown, seq![msg_unknown_struct(name@)])
            }
        },
        Expr::FieldAccess { obj, field } => {
            let (ot, oe) = infer(env, obj);
            if field@ == "len"@ && (ot is Array || ot is Str) {
                (Ty::Int64, oe)
            } else {
                match ot {
                    Ty::Struct(s) => if env.structs.contains_key(s) {
                        match field_type(env.structs[s], field@) {
                            Some(t) => (t, oe),
                            None => (Ty::Unknown, oe + seq![msg_no_field(field@, s)]),
                        }
                    } else {
                        (Ty::Unknown, oe)
                    },
                    _ => (Ty::Unknown, oe),
                }
            }
        },
        Expr::Index { obj, idx } => {
            let (ot, oe) = infer(env, obj);
            let (_, ie) = infer(env, idx);
            match ot {
                Ty::Array(inner) => (*inner, oe + ie),
                Ty::Str => (Ty::Int64, oe + ie),
                _ => (Ty::Unknown, oe + ie),
            }
        },
        Expr::ArrayLit(elems) => {
            if elems@.len() == 0 {
                (Ty::Array(Box::new(Ty::Unknown)), seq![])
            } else {
                let (first, fe) = infer(env, &elems@[0]);
                (Ty::Array(Box::new(first)), fe + infer_uniform(env, first, elems@.drop_first()))
            }
        },
        Expr::ToGpu(inner) => {
            let (t, es) = infer(env, inner);
            if t is Tensor {
                (Ty::Tensor(HwTarget::Gpu), es)
            } else {
                (Ty::Unknown, es + seq![msg_to_device(true, t)])
            }
        },
        Expr::ToCpu(inner) => {
            let (t, es) = infer(env, inner);
            if t is Tensor {
                (Ty::Tensor(HwTarget::Cpu), es)
            } else {
                (Ty::Unknown, es + seq![msg_to_device(false, t)])
            }
        },
    }
}

/// Types and errors of a list of expressions, in order.
pub open spec fn infer_list(env: Env, s: Seq<Expr>) -> (Seq<Ty>, Msgs)
    decreases s, 1nat,
{
    if s.len() == 0 {
        (seq![], seq![])
    } else {
        let (ts, es) = infer_list(env, s.drop_last());
        let (t, e) = infer(env, &s.last());
        (ts.push(t), es + e)
    }
}

/// Errors of the fields of a struct literal checked against the declared fields.
pub open spec fn infer_fields(
    env: Env,
    sname: Seq<char>,
    decl: Seq<(Seq<char>, Ty)>,
    s: Seq<(String, Expr)>,
) -> Msgs
    decreases s, 1nat,
{
    if s.len() == 0 {
        seq![]
    } else {
        let prev = infer_fields(env, sname, decl, s.drop_last());
        let (fname, val) = s.last();
        let (vt, ve) = infer(env, &val);
        prev + ve + match field_type(decl, fname@) {
            Some(exp) => if vt != exp && vt != Ty::Unknown {
                seq![msg_field_type(sname, fname@, exp, vt)]
            } else {
                seq![]
            },
            None => seq![msg_no_field(fname@, sname)],
        }
    }
}

/// Errors of the array elements after the first, each checked against the first type.
pub open spec fn infer_uniform(env: Env, first: Ty, s: Seq<Expr>) -> Msgs
    decreases s, 1nat,
{
    if s.len() == 0 {
        seq![]
    } else {
        let prev = infer_uniform(env, first, s.drop_last());
        let (t, e) = infer(env, &s.last());
        prev + e + if t != first && t != Ty::Unknown {
            seq![msg_uniform(first, t)]
        } else {
            seq![]
        }
    }
}

/// Declares a variable in the innermost scope (there is nothing to do without a scope).
pub open spec fn declare(
    scopes: Seq<Map<Seq<char>, (Ty, bool)>>,
    k: Seq<char>,
    v: (Ty, bool),
) -> Seq<Map<Seq<char>, (Ty, bool)>> {
    if scopes.len() == 0 {
        scopes
    } else {
        scopes.update(scopes.len() - 1, scopes.last().insert(k, v))
    }
}

pub open spec fn push_scope(env: Env) -> Env {
    Env { scopes: env.scopes.push(Map::empty()), ..env }
}

pub open spec fn pop_scope(env: Env) -> Env {
    if env.scopes.len() == 0 {
        env
    } else {
        Env { scopes: env.scopes.drop_last(), ..env }
    }
}

pub open spec fn msg_let_mismatch(n: Seq<char>, declared: Ty, init: Ty) -> Seq<char> {
    "Type mismatch for "@ + quoted(n) + ": declared "@ + quoted(ty_name(declared))
        + " but init is "@ + quoted(ty_name(init))
}

pub open spec fn msg_immutable(n: Seq<char>) -> Seq<char> {
    "Cannot assign to immutable variable "@ + quoted(n)
}

pub open spec fn msg_assign_mismatch(n: Seq<char>, exp: Ty, got: Ty) -> Seq<char> {
    "Type mismatch in assignment to "@ + quoted(n) + ": expected "@ + quoted(ty_name(exp))
        + ", got "@ + quoted(ty_name(got))
}

pub open spec fn msg_gpu_forbidden(n: Seq<char>) -> Seq<char> {
    "GPU block: "@ + quoted(n) + " is not allowed inside gpu blocks"@
}

pub open spec fn msg_return(exp: Ty, got: Ty) -> Seq<char> {
    "Return type mismatch: expected "@ + quoted(ty_name(exp)) + ", got "@ + quoted(ty_name(got))
}

/// `which` is "if" or "while".
pub open spec fn msg_cond(which: Seq<char>, got: Ty) -> Seq<char> {
    which + " condition must be `bool`, got "@ + quoted(ty_name(got))
}

/// `which` is "start" or "end".
pub open spec fn msg_range(which: Seq<char>, got: Ty) -> Seq<char> {
    "for range "@ + which + " must be `int64`, got "@ + quoted(ty_name(got))
}

/// `which` is "break" or "continue".
pub open spec fn msg_outside_loop(which: Seq<char>) -> Seq<char> {
    quoted(which) + " outside of loop"@
}

pub open spec fn msg_param_conflict(f: Seq<char>, fn_gpu: bool, p: Seq<char>) -> Seq<char> {
    if fn_gpu {
        "Function "@ + quoted(f) + " is @gpu but parameter "@ + quoted(p)
            + " is @cpu \u{2014} remove one annotation"@
    } else {
        "Function "@ + quoted(f) + " is @cpu but parameter "@ + quoted(p)
            + " is @gpu \u{2014} remove one annotation"@
    }
}

/// A condition may be `bool`, an `int64`, or of unknown type.
pub open spec fn cond_ok(t: Ty) -> bool {
    t == Ty::Bool || t == Ty::Int64 || t == Ty::Unknown
}

/// Calls that may not appear as statements inside a GPU context.
/// The CPU I/O calls that a GPU context may not make.
pub open spec fn gpu_forbidden(n: Seq<char>) -> bool {
    ||| n == "print"@
    ||| n == "println"@
    ||| n == "file_read"@
    ||| n == "file_write"@
    ||| n == "file_open_read"@
    ||| n == "file_open_write"@
    ||| n == "file_read_line"@
    ||| n == "file_write_line"@
    ||| n == "file_close"@
    ||| n == "load_model"@
}

pub open spec fn gpu_restriction_errors(e: &Expr) -> Msgs {
    match e {
        Expr::Call { callee, .. } => if gpu_forbidden(callee@) {
            seq![msg_gpu_forbidden(callee@)]
        } else {
            seq![]
        },
        _ => seq![],
    }
}

pub open spec fn if_then<A>(b: bool, s: Seq<A>) -> Seq<A> {
    if b {
        s
    } else {
        seq![]
    }
}

/// Errors of an assignment target, given the type of the assigned value.
pub open spec fn assign_errors(env: Env, target: &AssignTarget, vt: Ty) -> Msgs {
    match target {
        AssignTarget::Ident(n) => match lookup(env.scopes, n@) {
            None => seq![msg_undefined_var(n@)],
            Some((t, m)) => if_then(!m, seq![msg_immutable(n@)]) + if_then(
                vt != t && vt != Ty::Unknown && t != Ty::Unknown,
                seq![msg_assign_mismatch(n@, t, vt)],
            ),
        },
        AssignTarget::Field(obj, field) => {
            let (ot, oe) = infer(env, obj);
            oe + match ot {
                Ty::Struct(s) => if_then(
                    env.structs.contains_key(s) && field_type(env.structs[s], field@) is None,
                    seq![msg_no_field(field@, s)],
                ),
                _ => seq![],
            }
        },
        AssignTarget::Index(obj, idx) => infer(env, obj).1 + infer(env, idx).1,
    }
}

pub open spec fn with_depth(env: Env, d: nat) -> Env {
    Env { loop_depth: d, ..env }
}

pub open spec fn with_gpu(env: Env, g: bool) -> Env {
    Env { in_gpu: g, ..env }
}

/// Checks a statement: what the analyzer knows afterwards, and the errors found, in order.
pub open spec fn check_stmt(env: Env, s: &Stmt, ret: Ty) -> (Env, Msgs)
    decreases s, 0nat,
{
    match s {
        Stmt::Let { mutable, name, ty, init, .. } => {
            let (it, ie) = infer(env, init);
            let (rt, me) = match ty {
                Some(a) => {
                    let at = annotation_type(a);
                    (at, if_then(at != it && it != Ty::Unknown, seq![msg_let_mismatch(name@, at, it)]))
                },
                None => (it, seq![]),
            };
            (Env { scopes: declare(env.scopes, name@, (rt, *mutable)), ..env }, ie + me)
        },
        Stmt::Assign { target, value } => {
            let (vt, ve) = infer(env, value);
            (env, ve + assign_errors(env, target, vt))
        },
        Stmt::ExprStmt(e) => (env, infer(env, e).1 + if_then(env.in_gpu, gpu_restriction_errors(e))),
        Stmt::Return(x) => {
            let (at, ae) = match x {
                Some(e) => infer(env, e),
                None => (Ty::Void, seq![]),
            };
            (env, ae + if_then(ret != Ty::Void && at != ret && at != Ty::Unknown, seq![msg_return(ret, at)]))
        },
        Stmt::If { cond, then_block, else_block } => {
            let (ct, ce) = infer(env, cond);
            let e1 = ce + if_then(!cond_ok(ct), seq![msg_cond("if"@, ct)]);
            let (env_t, te) = check_block(push_scope(env), then_block@, ret);
            let env2 = pop_scope(env_t);
            match else_block {
                Some(eb) => {
                    let (env_e, ee) = check_block(push_scope(env2), eb@, ret);
                    (pop_scope(env_e), e1 + te + ee)
                },
                None => (env2, e1 + te),
            }
        },
        Stmt::While { cond, body } => {
            let (ct, ce) = infer(env, cond);
            let e1 = ce + if_then(!cond_ok(ct), seq![msg_cond("while"@, ct)]);
            let (env_b, be) = check_block(
                push_scope(with_depth(env, env.loop_depth + 1)),
                body@,
                ret,
            );
            let env2 = pop_scope(env_b);
            (with_depth(env2, (env2.loop_depth - 1) as nat), e1 + be)
        },
        Stmt::For { var, start, end, body } => {
            let (st, se) = infer(env, start);
            let (et, ee) = infer(env, end);
            let e1 = se + ee + if_then(st != Ty::Int64 && st != Ty::Unknown, seq![msg_range("start"@, st)])
                + if_then(et != Ty::Int64 && et != Ty::Unknown, seq![msg_range("end"@, et)]);
            let env1 = push_scope(with_depth(env, env.loop_depth + 1));
            let env1 = Env { scopes: declare(env1.scopes, var@, (Ty::Int64, false)), ..env1 };
            let (env_b, be) = check_block(env1, body@, ret);
            let env2 = pop_scope(env_b);
            (with_depth(env2, (env2.loop_depth - 1) as nat), e1 + be)
        },
        Stmt::GpuBlock(body) => {
            let (env_b, be) = check_block(push_scope(with_gpu(env, true)), body@, ret);
            (with_gpu(pop_scope(env_b), env.in_gpu), be)
        },
        Stmt::Break => (env, if_then(env.loop_depth == 0, seq![msg_outside_loop("break"@)])),
        Stmt::Continue => (env, if_then(env.loop_depth == 0, seq![msg_outside_loop("continue"@)])),
        Stmt::Import(_) => (env, seq![]),
    }
}

/// Checks statements in order.
pub open spec fn check_block(env: Env, s: Seq<Stmt>, ret: Ty) -> (Env, Msgs)
    decreases s, 1nat,
{
    if s.len() == 0 {
        (env, seq![])
    } else {
        let (env1, e1) = check_block(env, s.drop_last(), ret);
        let (env2, e2) = check_stmt(env1, &s.last(), ret);
        (env2, e1 + e2)
    }
}

/// Deepest nesting of loops in a statement.
pub open spec fn stmt_nest(s: &Stmt) -> nat
    decreases s, 0nat,
{
    match s {
        Stmt::If { then_block, else_block, .. } => {
            let a = block_nest(then_block@);
            let b = match else_block {
                Some(eb) => block_nest(eb@),
                None => 0,
            };
            if a >= b {
                a
            } else {
                b
            }
        },
        Stmt::While { body, .. } => 1 + block_nest(body@),
        Stmt::For { body, .. } => 1 + block_nest(body@),
        Stmt::GpuBlock(body) => block_nest(body@),
        _ => 0,
    }
}

pub open spec fn block_nest(s: Seq<Stmt>) -> nat
    decreases s, 1nat,
{
    if s.len() == 0 {
        0
    } else {
        let a = block_nest(s.drop_last());
        let b = stmt_nest(&s.last());
        if a >= b {
            a
        } else {
            b
        }
    }
}

/// The part of the state a statement leaves as it found it: functions, structs,
/// placement, loop depth, the number of scopes and all scopes but the innermost.
pub open spec fn same_frame(a: Env, b: Env) -> bool {
    &&& a.fns == b.fns
    &&& a.structs == b.structs
    &&& a.in_gpu == b.in_gpu
    &&& a.loop_depth == b.loop_depth
    &&& a.scopes.len() == b.scopes.len()
    &&& forall|i: int| 0 <= i < a.scopes.len() - 1 ==> #[trigger] a.scopes[i] == b.scopes[i]
}

/// Leaving a scope entered before a frame-keeping step gives back the state before it.
pub proof fn lemma_pop_after_push(env: Env, b: Env)
    requires
        same_frame(push_scope(env), b),
    ensures
        pop_scope(b) == env,
{
    assert forall|i: int| 0 <= i < env.scopes.len() implies #[trigger] b.scopes.drop_last()[i]
        == env.scopes[i] by {
        assert(push_scope(env).scopes[i] == env.scopes[i]);
    }
    assert(b.scopes.drop_last() =~= env.scopes);
}

/// Checking a statement keeps the frame of the state.
pub proof fn lemma_check_stmt_frame(env: Env, s: &Stmt, ret: Ty)
    ensures
        same_frame(env, check_stmt(env, s, ret).0),
    decreases s, 0nat,
{
    match s {
        Stmt::If { cond, then_block, else_block } => {
            lemma_check_block_frame(push_scope(env), then_block@, ret);
            let (env_t, _) = check_block(push_scope(env), then_block@, ret);
            lemma_pop_after_push(env, env_t);
            match else_block {
                Some(eb) => {
                    lemma_check_block_frame(push_scope(env), eb@, ret);
                    let (env_e, _) = check_block(push_scope(env), eb@, ret);
                    lemma_pop_after_push(env, env_e);
                },
                None => {},
            }
        },
        Stmt::While { body, .. } => {
            let d = with_depth(env, env.loop_depth + 1);
            lemma_check_block_frame(push_scope(d), body@, ret);
            lemma_pop_after_push(d, check_block(push_scope(d), body@, ret).0);
        },
        Stmt::For { var, body, .. } => {
            let d = with_depth(env, env.loop_depth + 1);
            let env1 = push_scope(d);
            let env1 = Env { scopes: declare(env1.scopes, var@, (Ty::Int64, false)), ..env1 };
            lemma_check_block_frame(env1, body@, ret);
            let b = check_block(env1, body@, ret).0;
            assert(same_frame(push_scope(d), env1));
            assert forall|i: int| 0 <= i < b.scopes.len() - 1 implies #[trigger] push_scope(d).scopes[i]
                == b.scopes[i] by {
                assert(env1.scopes[i] == b.scopes[i]);
            }
            lemma_pop_after_push(d, b);
        },
        Stmt::GpuBlock(body) => {
            let g = with_gpu(env, true);
            lemma_check_block_frame(push_scope(g), body@, ret);
            lemma_pop_after_push(g, check_block(push_scope(g), body@, ret).0);
        },
        _ => {},
    }
}

pub proof fn lemma_check_block_frame(env: Env, s: Seq<Stmt>, ret: Ty)
    ensures
        same_frame(env, check_block(env, s, ret).0),
    decreases s, 1nat,
{
    if s.len() > 0 {
        lemma_check_block_frame(env, s.drop_last(), ret);
        let (env1, _) = check_block(env, s.drop_last(), ret);
        lemma_check_stmt_frame(env1, &s.last(), ret);
    }
}

/// Placement conflicts between a function and its parameters, in parameter order.
pub open spec fn param_conflicts(f: Seq<char>, fhw: Option<HwAnnotation>, ps: Seq<Param>) -> Msgs
    decreases ps.len(),
{
    if ps.len() == 0 {
        seq![]
    } else {
        param_conflicts(f, fhw, ps.drop_last()) + match (fhw, ps.last().hw) {
            (Some(fh), Some(ph)) => if fh.spec_is_gpu() && ph.spec_is_cpu() {
                seq![msg_param_conflict(f, true, ps.last().name@)]
            } else if fh.spec_is_cpu() && ph.spec_is_gpu() {
                seq![msg_param_conflict(f, false, ps.last().name@)]
            } else {
                seq![]
            },
            _ => seq![],
        }
    }
}

/// Declares the parameters, in order, as immutable variables.
pub open spec fn declare_params(
    scopes: Seq<Map<Seq<char>, (Ty, bool)>>,
    ps: Seq<Param>,
) -> Seq<Map<Seq<char>, (Ty, bool)>>
    decreases ps.len(),
{
    if ps.len() == 0 {
        scopes
    } else {
        declare(
            declare_params(scopes, ps.drop_last()),
            ps.last().name@,
            (annotation_type(&ps.last().ty), false),
        )
    }
}

/// A function marked `@gpu` is checked as GPU code.
pub open spec fn fn_in_gpu(env: Env, f: &FnDef) -> bool {
    match f.hw {
        Some(h) => h.spec_is_gpu() || env.in_gpu,
        None => env.in_gpu,
    }
}

/// Checks a function definition: parameters in a scope of their own, then the body.
pub open spec fn check_fn(env: Env, f: &FnDef) -> (Env, Msgs) {
    let env1 = push_scope(with_gpu(env, fn_in_gpu(env, f)));
    let env2 = Env { scopes: declare_params(env1.scopes, f.params@), ..env1 };
    let (env3, be) = check_block(env2, f.body@, annotation_type(&f.ret_ty));
    (with_gpu(pop_scope(env3), env.in_gpu), param_conflicts(f.name@, f.hw, f.params@) + be)
}

pub open spec fn check_fns(env: Env, fs: Seq<FnDef>) -> (Env, Msgs)
    decreases fs.len(),
{
    if fs.len() == 0 {
        (env, seq![])
    } else {
        let (env1, e1) = check_fns(env, fs.drop_last());
        let (env2, e2) = check_fn(env1, &fs.last());
        (env2, e1 + e2)
    }
}

/// The field list a struct definition declares.
pub open spec fn struct_fields(s: &StructDef) -> Seq<(Seq<char>, Ty)> {
    Seq::new(s.fields@.len(), |i: int| (s.fields@[i].name@, annotation_type(&s.fields@[i].ty)))
}

/// The signature a function definition declares.
pub open spec fn fn_signature(f: &FnDef) -> (Seq<Ty>, Ty) {
    (
        Seq::new(f.params@.len(), |i: int| annotation_type(&f.params@[i].ty)),
        annotation_type(&f.ret_ty),
    )
}

pub open spec fn register_structs(
    m: Map<Seq<char>, Seq<(Seq<char>, Ty)>>,
    ss: Seq<StructDef>,
) -> Map<Seq<char>, Seq<(Seq<char>, Ty)>>
    decreases ss.len(),
{
    if ss.len() == 0 {
        m
    } else {
        register_structs(m, ss.drop_last()).insert(ss.last().name@, struct_fields(&ss.last()))
    }
}

pub open spec fn register_fns(
    m: Map<Seq<char>, (Seq<Ty>, Ty)>,
    fs: Seq<FnDef>,
) -> Map<Seq<char>, (Seq<Ty>, Ty)>
    decreases fs.len(),
{
    if fs.len() == 0 {
        m
    } else {
        register_fns(m, fs.drop_last()).insert(fs.last().name@, fn_signature(&fs.last()))
    }
}

/// Analyzes a program: registers structs and functions, checks the top-level
/// statements, then each function in order.
pub open spec fn analyze_program(env: Env, p: &Program) -> (Env, Msgs) {
    let env1 = Env {
        structs: register_structs(env.structs, p.structs@),
        fns: register_fns(env.fns, p.fns@),
        ..env
    };
    let (env2, te) = check_block(env1, p.top_level@, Ty::Void);
    let (env3, fe) = check_fns(env2, p.fns@);
    (env3, te + fe)
}

/// Loop nesting of the program fits the loop counter.
pub open spec fn nesting_fits(p: &Program, depth: nat) -> bool {
    &&& depth + block_nest(p.top_level@) <= usize::MAX
    &&& forall|i: int| 0 <= i < p.fns@.len() ==> depth + block_nest(#[trigger] p.fns@[i].body@) <= usize::MAX
}

pub open spec fn cpu_model() -> Ty {
    Ty::Model(HwTarget::Cpu)
}

/// The built-in functions with their signatures (`Unknown` accepts anything).
pub open spec fn builtin_fns() -> Map<Seq<char>, (Seq<Ty>, Ty)> {
    Map::empty()
        .insert("print"@, (seq![Ty::Unknown], Ty::Void))
        .insert("println"@, (seq![Ty::Unknown], Ty::Void))
        .insert("exit"@, (seq![Ty::Int64], Ty::Void))
        .insert("sqrt"@, (seq![Ty::Float64], Ty::Float64))
        .insert("abs"@, (seq![Ty::Float64], Ty::Float64))
        .insert("int64_to_float64"@, (seq![Ty::Int64], Ty::Float64))
        .insert("float64_to_int64"@, (seq![Ty::Float64], Ty::Int64))
        .insert("len"@, (seq![Ty::Unknown], Ty::Int64))
        .insert("push"@, (seq![Ty::Unknown, Ty::Unknown], Ty::Void))
        .insert("pop"@, (seq![Ty::Unknown], Ty::Unknown))
        .insert("str_len"@, (seq![Ty::Str], Ty::Int64))
        .insert("str_concat"@, (seq![Ty::Str, Ty::Str], Ty::Str))
        .insert("str_eq"@, (seq![Ty::Str, Ty::Str], Ty::Bool))
        .insert("str_index"@, (seq![Ty::Str, Ty::Int64], Ty::Int64))
        .insert("int64_to_str"@, (seq![Ty::Int64], Ty::Str))
        .insert("float64_to_str"@, (seq![Ty::Float64], Ty::Str))
        .insert("char_to_str"@, (seq![Ty::Int64], Ty::Str))
        .insert("get_arg"@, (seq![Ty::Int64], Ty::Str))
        .insert("cpu_core_count"@, (seq![], Ty::Int64))
        .insert("file_exists"@, (seq![Ty::Str], Ty::Bool))
        .insert("load_model"@, (seq![Ty::Str], cpu_model()))
        .insert("model_free"@, (seq![cpu_model()], Ty::Void))
        .insert(
            "piper_forward"@,
            (
                seq![cpu_model(), Ty::Array(Box::new(Ty::Int64)), Ty::Float64, Ty::Float64, Ty::Float64],
                Ty::Array(Box::new(Ty::Float64)),
            ),
        )
        .insert(
            "write_wav"@,
            (seq![Ty::Str, Ty::Array(Box::new(Ty::Float64)), Ty::Int64, Ty::Int64], Ty::Void),
        )
        .insert("fgets_stdin"@, (seq![Ty::Int64], Ty::Str))
        .insert("gguf_generate"@, (seq![cpu_model(), Ty::Str, Ty::Int64], Ty::Str))
        .insert("gguf_set_temp"@, (seq![cpu_model(), Ty::Float64], Ty::Void))
        .insert("gguf_set_top_p"@, (seq![cpu_model(), Ty::Float64], Ty::Void))
        .insert("file_read"@, (seq![Ty::Str], Ty::Str))
        .insert("file_write"@, (seq![Ty::Str, Ty::Str], Ty::Bool))
        .insert("file_open_read"@, (seq![Ty::Str], Ty::Int64))
        .insert("file_open_write"@, (seq![Ty::Str], Ty::Int64))
        .insert("file_close"@, (seq![Ty::Int64], Ty::Void))
        .insert("file_read_line"@, (seq![Ty::Int64], Ty::Str))
        .insert("file_write_line"@, (seq![Ty::Int64, Ty::Str], Ty::Void))
        .insert("file_eof"@, (seq![Ty::Int64], Ty::Bool))
}

/// The state of a fresh analyzer: one empty global scope and the built-ins.
pub open spec fn initial_env() -> Env {
    Env {
        scopes: seq![Map::empty()],
        fns: builtin_fns(),
        structs: Map::empty(),
        in_gpu: false,
        loop_depth: 0,
    }
}

fn push_quoted(m: &mut String, s: &str)
    ensures
        final(m)@ == old(m)@ + quoted(s@),
{
    m.append("`");
    m.append(s);
    m.append("`");
    assert(final(m)@ =~= old(m)@ + quoted(s@));
}

fn push_quoted_type(m: &mut String, t: &Type)
    ensures
        final(m)@ == old(m)@ + quoted(ty_name(t@)),
{
    m.append("`");
    t.push_name(m);
    m.append("`");
    assert(final(m)@ =~= old(m)@ + quoted(ty_name(t@)));
}

fn m_undefined_var(n: &String) -> (r: String)
    ensures
        r@ == msg_undefined_var(n@),
{
    let mut m = owned("Undefined variable ");
    push_quoted(&mut m, n.as_str());
    m
}

fn m_type_mismatch(a: &Type, b: &Type) -> (r: String)
    ensures
        r@ == msg_type_mismatch(a@, b@),
{
    let mut m = owned("Type mismatch: ");
    push_quoted_type(&mut m, a);
    m.append(" vs ");
    push_quoted_type(&mut m, b);
    assert(m@ =~= msg_type_mismatch(a@, b@));
    m
}

fn m_string_eq(eq: bool) -> (r: String)
    ensures
        r@ == msg_string_eq(eq),
{
    let mut m = owned("Strings are compared with `str_eq`, not ");
    push_quoted(&mut m, if eq {
        "=="
    } else {
        "!="
    });
    m
}

fn m_gpu_arg(i: usize, callee: &String) -> (r: String)
    ensures
        r@ == msg_gpu_arg(i as nat, callee@),
{
    let mut m = owned("Arg ");
    push_decimal(&mut m, i as u64);
    m.append(" to ");
    push_quoted(&mut m, callee.as_str());
    m.append(": `tensor@cpu` in gpu block \u{2014} use `.toGpu()` first");
    assert(m@ =~= msg_gpu_arg(i as nat, callee@));
    m
}

fn m_undefined_fn(n: &String) -> (r: String)
    ensures
        r@ == msg_undefined_fn(n@),
{
    let mut m = owned("Undefined function ");
    push_quoted(&mut m, n.as_str());
    m
}

fn m_field_type(s: &String, f: &String, exp: &Type, got: &Type) -> (r: String)
    ensures
        r@ == msg_field_type(s@, f@, exp@, got@),
{
    let mut m = owned("Struct ");
    push_quoted(&mut m, s.as_str());
    m.append(" field ");
    push_quoted(&mut m, f.as_str());
    m.append(": expected ");
    push_quoted_type(&mut m, exp);
    m.append(", got ");
    push_quoted_type(&mut m, got);
    assert(m@ =~= msg_field_type(s@, f@, exp@, got@));
    m
}

fn m_no_field(f: &String, s: &String) -> (r: String)
    ensures
        r@ == msg_no_field(f@, s@),
{
    let mut m = owned("No field ");
    push_quoted(&mut m, f.as_str());
    m.append(" on struct ");
    push_quoted(&mut m, s.as_str());
    assert(m@ =~= msg_no_field(f@, s@));
    m
}

fn m_unknown_struct(s: &String) -> (r: String)
    ensures
        r@ == msg_unknown_struct(s@),
{
    let mut m = owned("Unknown struct ");
    push_quoted(&mut m, s.as_str());
    m
}

fn m_uniform(a: &Type, b: &Type) -> (r: String)
    ensures
        r@ == msg_uniform(a@, b@),
{
    let mut m = owned("Array elements must have uniform type: ");
    push_quoted_type(&mut m, a);
    m.append(" vs ");
    push_quoted_type(&mut m, b);
    assert(m@ =~= msg_uniform(a@, b@));
    m
}

fn m_to_device(gpu: bool, got: &Type) -> (r: String)
    ensures
        r@ == msg_to_device(gpu, got@),
{
    let mut m = if gpu {
        owned("`.toGpu()` requires a tensor, got ")
    } else {
        owned("`.toCpu()` requires a tensor, got ")
    };
    push_quoted_type(&mut m, got);
    m
}

fn m_let_mismatch(n: &String, declared: &Type, init: &Type) -> (r: String)
    ensures
        r@ == msg_let_mismatch(n@, declared@, init@),
{
    let mut m = owned("Type mismatch for ");
    push_quoted(&mut m, n.as_str());
    m.append(": declared ");
    push_quoted_type(&mut m, declared);
    m.append(" but init is ");
    push_quoted_type(&mut m, init);
    assert(m@ =~= msg_let_mismatch(n@, declared@, init@));
    m
}

fn m_immutable(n: &String) -> (r: String)
    ensures
        r@ == msg_immutable(n@),
{
    let mut m = owned("Cannot assign to immutable variable ");
    push_quoted(&mut m, n.as_str());
    m
}

fn m_assign_mismatch(n: &String, exp: &Type, got: &Type) -> (r: String)
    ensures
        r@ == msg_assign_mismatch(n@, exp@, got@),
{
    let mut m = owned("Type mismatch in assignment to ");
    push_quoted(&mut m, n.as_str());
    m.append(": expected ");
    push_quoted_type(&mut m, exp);
    m.append(", got ");
    push_quoted_type(&mut m, got);
    assert(m@ =~= msg_assign_mismatch(n@, exp@, got@));
    m
}

fn m_gpu_forbidden(n: &String) -> (r: String)
    ensures
        r@ == msg_gpu_forbidden(n@),
{
    let mut m = owned("GPU block: ");
    push_quoted(&mut m, n.as_str());
    m.append(" is not allowed inside gpu blocks");
    assert(m@ =~= msg_gpu_forbidden(n@));
    m
}

fn m_return(exp: &Type, got: &Type) -> (r: String)
    ensures
        r@ == msg_return(exp@, got@),
{
    let mut m = owned("Return type mismatch: expected ");
    push_quoted_type(&mut m, exp);
    m.append(", got ");
    push_quoted_type(&mut m, got);
    assert(m@ =~= msg_return(exp@, got@));
    m
}

fn m_cond(which: &str, got: &Type) -> (r: String)
    ensures
        r@ == msg_cond(which@, got@),
{
    let mut m = owned(which);
    m.append(" condition must be `bool`, got ");
    push_quoted_type(&mut m, got);
    assert(m@ =~= msg_cond(which@, got@));
    m
}

fn m_range(which: &str, got: &Type) -> (r: String)
    ensures
        r@ == msg_range(which@, got@),
{
    let mut m = owned("for range ");
    m.append(which);
    m.append(" must be `int64`, got ");
    push_quoted_type(&mut m, got);
    assert(m@ =~= msg_range(which@, got@));
    m
}

fn m_outside_loop(which: &str) -> (r: String)
    ensures
        r@ == msg_outside_loop(which@),
{
    let mut m = String::new();
    push_quoted(&mut m, which);
    m.append(" outside of loop");
    assert(m@ =~= msg_outside_loop(which@));
    m
}

fn m_param_conflict(f: &String, gpu: bool, p: &String) -> (r: String)
    ensures
        r@ == msg_param_conflict(f@, gpu, p@),
{
    let mut m = owned("Function ");
    push_quoted(&mut m, f.as_str());
    if gpu {
        m.append(" is @gpu but parameter ");
        push_quoted(&mut m, p.as_str());
        m.append(" is @cpu \u{2014} remove one annotation");
    } else {
        m.append(" is @cpu but parameter ");
        push_quoted(&mut m, p.as_str());
        m.append(" is @gpu \u{2014} remove one annotation");
    }
    assert(m@ =~= msg_param_conflict(f@, gpu, p@));
    m
}

pub open spec fn scopes_view(s: Seq<Table<VarInfo>>) -> Seq<Map<Seq<char>, (Ty, bool)>> {
    Seq::new(s.len(), |i: int| s[i].view_map())
}

pub open spec fn msgs_view(s: Seq<String>) -> Msgs {
    Seq::new(s.len(), |i: int| s[i]@)
}

impl FieldTypes {
    /// An equal copy.
    pub fn copy(&self) -> (r: FieldTypes)
        ensures
            r@ == self@,
    {
        let mut v: Vec<(String, Type)> = Vec::new();
        let mut i: usize = 0;
        while i < self.fields.len()
            invariant
                i <= self.fields@.len(),
                v@.len() == i,
                forall|j: int|
                    0 <= j < i ==> (#[trigger] v@[j]).0@ == self.fields@[j].0@ && v@[j].1@
                        == self.fields@[j].1@,
            decreases self.fields.len() - i,
        {
            v.push((copy_string(&self.fields[i].0), self.fields[i].1.copy()));
            i = i + 1;
        }
        let r = FieldTypes { fields: v };
        assert(r@ =~= self@);
        r
    }
}

/// The type of the first field of the given name.
pub fn field_lookup<'a>(fs: &'a Vec<(String, Type)>, k: &String) -> (r: Option<&'a Type>)
    ensures
        match r {
            Some(t) => field_type(fields_view(fs@), k@) == Some(t@),
            None => field_type(fields_view(fs@), k@) is None,
        },
{
    let ghost fv = fields_view(fs@);
    assert(fv.skip(0) =~= fv);
    let mut i: usize = 0;
    while i < fs.len()
        invariant
            i <= fs@.len(),
            fv == fields_view(fs@),
            field_type(fv, k@) == field_type(fv.skip(i as int), k@),
        decreases fs.len() - i,
    {
        proof {
            assert(fv.skip(i as int)[0] == fv[i as int]);
            assert(fv.skip(i as int).drop_first() =~= fv.skip(i as int + 1));
        }
        if same_text(&fs[i].0, k) {
            return Some(&fs[i].1);
        }
        i = i + 1;
    }
    proof {
        assert(fv.skip(i as int).len() == 0);
    }
    None
}

fn method_type_of(obj: &Type, m: &String) -> (r: Type)
    ensures
        r@ == method_type(obj@, m@),
{
    match obj {
        Type::Tensor(hw) => if text_is(m, "mean") || text_is(m, "sum") {
            Type::Float64
        } else if text_is(m, "pow") {
            Type::Tensor(Box::new(**hw))
        } else {
            Type::Unknown
        },
        Type::Array(inner) => if text_is(m, "len") {
            Type::Int64
        } else if text_is(m, "push") {
            Type::Void
        } else if text_is(m, "pop") {
            inner.copy()
        } else {
            Type::Unknown
        },
        Type::Str => if text_is(m, "len") {
            Type::Int64
        } else {
            Type::Unknown
        },
        Type::Model(hw) => if text_is(m, "forward") {
            Type::Tensor(Box::new(**hw))
        } else if text_is(m, "to_gpu") {
            Type::Model(Box::new(HwTarget::Gpu))
        } else if text_is(m, "to_cpu") {
            Type::Model(Box::new(HwTarget::Cpu))
        } else {
            Type::Unknown
        },
        _ => Type::Unknown,
    }
}

fn is_tensor_on_cpu(t: &Type) -> (r: bool)
    ensures
        r == is_tensor_cpu(t@),
{
    match t {
        Type::Tensor(hw) => **hw == HwTarget::Cpu,
        _ => false,
    }
}

fn is_cond_type(t: &Type) -> (r: bool)
    ensures
        r == cond_ok(t@),
{
    match t {
        Type::Bool => true,
        Type::Int64 => true,
        Type::Unknown => true,
        _ => false,
    }
}

fn is_gpu_forbidden(n: &String) -> (r: bool)
    ensures
        r == gpu_forbidden(n@),
{
    text_is(n, "print") || text_is(n, "println") || text_is(n, "file_read") || text_is(n, "file_write") || text_is(n, "file_open_read") || text_is(
        n,
        "file_open_write",
    ) || text_is(n, "file_read_line") || text_is(n, "file_write_line") || text_is(n, "file_close")
        || text_is(n, "load_model")
}

/// Every statement of a block nests loops at most as deep as the block.
pub proof fn lemma_block_nest(s: Seq<Stmt>)
    ensures
        forall|i: int| 0 <= i < s.len() ==> stmt_nest(&#[trigger] s[i]) <= block_nest(s),
    decreases s.len(),
{
    if s.len() > 0 {
        lemma_block_nest(s.drop_last());
        assert forall|i: int| 0 <= i < s.len() implies stmt_nest(&#[trigger] s[i]) <= block_nest(s) by {
            if i < s.len() - 1 {
                assert(s[i] == s.drop_last()[i]);
            }
        }
    }
}

/// Checking a function keeps the loop depth and what is known of functions and structs.
pub proof fn lemma_check_fn_frame(env: Env, f: &FnDef)
    ensures
        check_fn(env, f).0.loop_depth == env.loop_depth,
        check_fn(env, f).0.fns == env.fns,
        check_fn(env, f).0.structs == env.structs,
{
    let env1 = push_scope(with_gpu(env, fn_in_gpu(env, f)));
    let env2 = Env { scopes: declare_params(env1.scopes, f.params@), ..env1 };
    lemma_check_block_frame(env2, f.body@, annotation_type(&f.ret_ty));
}

pub proof fn lemma_check_fns_frame(env: Env, fs: Seq<FnDef>)
    ensures
        check_fns(env, fs).0.loop_depth == env.loop_depth,
        check_fns(env, fs).0.fns == env.fns,
        check_fns(env, fs).0.structs == env.structs,
    decreases fs.len(),
{
    if fs.len() > 0 {
        lemma_check_fns_frame(env, fs.drop_last());
        lemma_check_fn_frame(check_fns(env, fs.drop_last()).0, &fs.last());
    }
}

/// The type checker: variable scopes (innermost last), known functions and
/// structs, whether the code is GPU code, the loop depth, and the errors so far.
pub struct SemanticAnalyzer {
    scopes: Vec<Table<VarInfo>>,
    functions: Table<FnSig>,
    structs: Table<FieldTypes>,
    in_gpu_block: bool,
    loop_depth: usize,
    errors: Vec<String>,
}

impl SemanticAnalyzer {
    /// What the analyzer knows.
    pub closed spec fn env(&self) -> Env {
        Env {
            scopes: scopes_view(self.scopes@),
            fns: self.functions.view_map(),
            structs: self.structs.view_map(),
            in_gpu: self.in_gpu_block,
            loop_depth: self.loop_depth as nat,
        }
    }

    /// The errors found so far, in order.
    pub closed spec fn errs(&self) -> Msgs {
        msgs_view(self.errors@)
    }

    /// A fresh analyzer: one empty scope, the built-in functions, no structs, no errors.
    pub fn new() -> (r: SemanticAnalyzer)
        ensures
            r.env() == initial_env(),
            r.errs() == Seq::<Seq<char>>::empty(),
    {
        let mut functions: Table<FnSig> = Table::new();
        let p: Vec<Type> = vec![Type::Unknown];
        proof {
            assert(types_view(p@) =~= seq![Ty::Unknown]);
        }
        functions.insert(owned("print"), FnSig { params: p, ret: Type::Void });
        let p: Vec<Type> = vec![Type::Unknown];
        proof {
            assert(types_view(p@) =~= seq![Ty::Unknown]);
        }
        functions.insert(owned("println"), FnSig { params: p, ret: Type::Void });
        let p: Vec<Type> = vec![Type::Int64];
        proof {
            assert(types_view(p@) =~= seq![Ty::Int64]);
        }
        functions.insert(owned("exit"), FnSig { params: p, ret: Type::Void });
        let p: Vec<Type> = vec![Type::Float64];
        proof {
            assert(types_view(p@) =~= seq![Ty::Float64]);
        }
        functions.insert(owned("sqrt"), FnSig { params: p, ret: Type::Float64 });
        let p: Vec<Type> = vec![Type::Float64];
        proof {
            assert(types_view(p@) =~= seq![Ty::Float64]);
        }
        functions.insert(owned("abs"), FnSig { params: p, ret: Type::Float64 });
        let p: Vec<Type> = vec![Type::Int64];
        proof {
            assert(types_view(p@) =~= seq![Ty::Int64]);
        }
        functions.insert(owned("int64_to_float64"), FnSig { params: p, ret: Type::Float64 });
        let p: Vec<Type> = vec![Type::Float64];
        proof {
            assert(types_view(p@) =~= seq![Ty::Float64]);
        }
        functions.insert(owned("float64_to_int64"), FnSig { params: p, ret: Type::Int64 });
        let p: Vec<Type> = vec![Type::Unknown];
        proof {
            assert(types_view(p@) =~= seq![Ty::Unknown]);
        }
        functions.insert(owned("len"), FnSig { params: p, ret: Type::Int64 });
        let p: Vec<Type> = vec![Type::Unknown, Type::Unknown];
        proof {
            assert(types_view(p@) =~= seq![Ty::Unknown, Ty::Unknown]);
        }
        functions.insert(owned("push"), FnSig { params: p, ret: Type::Void });
        let p: Vec<Type> = vec![Type::Unknown];
        proof {
            assert(types_view(p@) =~= seq![Ty::Unknown]);
        }
        functions.insert(owned("pop"), FnSig { params: p, ret: Type::Unknown });
        let p: Vec<Type> = vec![Type::Str];
        proof {
            assert(types_view(p@) =~= seq![Ty::Str]);
        }
        functions.insert(owned("str_len"), FnSig { params: p, ret: Type::Int64 });
        let p: Vec<Type> = vec![Type::Str, Type::Str];
        proof {
            assert(types_view(p@) =~= seq![Ty::Str, Ty::Str]);
        }
        functions.insert(owned("str_concat"), FnSig { params: p, ret: Type::Str });
        let p: Vec<Type> = vec![Type::Str, Type::Str];
        proof {
            assert(types_view(p@) =~= seq![Ty::Str, Ty::Str]);
        }
        functions.insert(owned("str_eq"), FnSig { params: p, ret: Type::Bool });
        let p: Vec<Type> = vec![Type::Str, Type::Int64];
        proof {
            assert(types_view(p@) =~= seq![Ty::Str, Ty::Int64]);
        }
        functions.insert(owned("str_index"), FnSig { params: p, ret: Type::Int64 });
        let p: Vec<Type> = vec![Type::Int64];
        proof {
            assert(types_view(p@) =~= seq![Ty::Int64]);
        }
        functions.insert(owned("int64_to_str"), FnSig { params: p, ret: Type::Str });
        let p: Vec<Type> = vec![Type::Float64];
        proof {
            assert(types_view(p@) =~= seq![Ty::Float64]);
        }
        functions.insert(owned("float64_to_str"), FnSig { params: p, ret: Type::Str });
        let p: Vec<Type> = vec![Type::Int64];
        proof {
            assert(types_view(p@) =~= seq![Ty::Int64]);
        }
        functions.insert(owned("char_to_str"), FnSig { params: p, ret: Type::Str });
        let p: Vec<Type> = vec![Type::Int64];
        proof {
            assert(types_view(p@) =~= seq![Ty::Int64]);
        }
        functions.insert(owned("get_arg"), FnSig { params: p, ret: Type::Str });
        let p: Vec<Type> = vec![];
        proof {
            assert(types_view(p@) =~= seq![]);
        }
        functions.insert(owned("cpu_core_count"), FnSig { params: p, ret: Type::Int64 });
        let p: Vec<Type> = vec![Type::Str];
        proof {
            assert(types_view(p@) =~= seq![Ty::Str]);
        }
        functions.insert(owned("file_exists"), FnSig { params: p, ret: Type::Bool });
        let p: Vec<Type> = vec![Type::Str];
        proof {
            assert(types_view(p@) =~= seq![Ty::Str]);
        }
        functions.insert(owned("load_model"), FnSig { params: p, ret: Type::Model(Box::new(HwTarget::Cpu)) });
        let p: Vec<Type> = vec![Type::Model(Box::new(HwTarget::Cpu))];
        proof {
            assert(types_view(p@) =~= seq![cpu_model()]);
        }
        functions.insert(owned("model_free"), FnSig { params: p, ret: Type::Void });
        let p: Vec<Type> = vec![Type::Model(Box::new(HwTarget::Cpu)), Type::Array(Box::new(Type::Int64)), Type::Float64, Type::Float64, Type::Float64];
        proof {
            assert(types_view(p@) =~= seq![cpu_model(), Ty::Array(Box::new(Ty::Int64)), Ty::Float64, Ty::Float64, Ty::Float64]);
        }
        functions.insert(owned("piper_forward"), FnSig { params: p, ret: Type::Array(Box::new(Type::Float64)) });
        let p: Vec<Type> = vec![Type::Str, Type::Array(Box::new(Type::Float64)), Type::Int64, Type::Int64];
        proof {
            assert(types_view(p@) =~= seq![Ty::Str, Ty::Array(Box::new(Ty::Float64)), Ty::Int64, Ty::Int64]);
        }
        functions.insert(owned("write_wav"), FnSig { params: p, ret: Type::Void });
        let p: Vec<Type> = vec![Type::Int64];
        proof {
            assert(types_view(p@) =~= seq![Ty::Int64]);
        }
        functions.insert(owned("fgets_stdin"), FnSig { params: p, ret: Type::Str });
        let p: Vec<Type> = vec![Type::Model(Box::new(HwTarget::Cpu)), Type::Str, Type::Int64];
        proof {
            assert(types_view(p@) =~= seq![cpu_model(), Ty::Str, Ty::Int64]);
        }
        functions.insert(owned("gguf_generate"), FnSig { params: p, ret: Type::Str });
        let p: Vec<Type> = vec![Type::Model(Box::new(HwTarget::Cpu)), Type::Float64];
        proof {
            assert(types_view(p@) =~= seq![cpu_model(), Ty::Float64]);
        }
        functions.insert(owned("gguf_set_temp"), FnSig { params: p, ret: Type::Void });
        let p: Vec<Type> = vec![Type::Model(Box::new(HwTarget::Cpu)), Type::Float64];
        proof {
            assert(types_view(p@) =~= seq![cpu_model(), Ty::Float64]);
        }
        functions.insert(owned("gguf_set_top_p"), FnSig { params: p, ret: Type::Void });
        let p: Vec<Type> = vec![Type::Str];
        proof {
            assert(types_view(p@) =~= seq![Ty::Str]);
        }
        functions.insert(owned("file_read"), FnSig { params: p, ret: Type::Str });
        let p: Vec<Type> = vec![Type::Str, Type::Str];
        proof {
            assert(types_view(p@) =~= seq![Ty::Str, Ty::Str]);
        }
        functions.insert(owned("file_write"), FnSig { params: p, ret: Type::Bool });
        let p: Vec<Type> = vec![Type::Str];
        proof {
            assert(types_view(p@) =~= seq![Ty::Str]);
        }
        functions.insert(owned("file_open_read"), FnSig { params: p, ret: Type::Int64 });
        let p: Vec<Type> = vec![Type::Str];
        proof {
            assert(types_view(p@) =~= seq![Ty::Str]);
        }
        functions.insert(owned("file_open_write"), FnSig { params: p, ret: Type::Int64 });
        let p: Vec<Type> = vec![Type::Int64];
        proof {
            assert(types_view(p@) =~= seq![Ty::Int64]);
        }
        functions.insert(owned("file_close"), FnSig { params: p, ret: Type::Void });
        let p: Vec<Type> = vec![Type::Int64];
        proof {
            assert(types_view(p@) =~= seq![Ty::Int64]);
        }
        functions.insert(owned("file_read_line"), FnSig { params: p, ret: Type::Str });
        let p: Vec<Type> = vec![Type::Int64, Type::Str];
        proof {
            assert(types_view(p@) =~= seq![Ty::Int64, Ty::Str]);
        }
        functions.insert(owned("file_write_line"), FnSig { params: p, ret: Type::Void });
        let p: Vec<Type> = vec![Type::Int64];
        proof {
            assert(types_view(p@) =~= seq![Ty::Int64]);
        }
        functions.insert(owned("file_eof"), FnSig { params: p, ret: Type::Bool });
        let mut scopes: Vec<Table<VarInfo>> = Vec::new();
        scopes.push(Table::new());
        let sa = SemanticAnalyzer {
            scopes,
            functions,
            structs: Table::new(),
            in_gpu_block: false,
            loop_depth: 0,
            errors: Vec::new(),
        };
        assert(sa.env().scopes =~= initial_env().scopes);
        assert(sa.env().fns =~= initial_env().fns);
        assert(sa.errs() =~= Seq::<Seq<char>>::empty());
        sa
    }

    fn error(&mut self, msg: String)
        ensures
            final(self).env() == old(self).env(),
            final(self).errs() == old(self).errs().push(msg@),
    {
        self.errors.push(msg);
        assert(self.errs() =~= old(self).errs().push(msg@));
        assert(self.env().scopes =~= old(self).env().scopes);
    }

    fn push_scope(&mut self)
        ensures
            final(self).env() == push_scope(old(self).env()),
            final(self).errs() == old(self).errs(),
    {
        self.scopes.push(Table::new());
        assert(self.env().scopes =~= push_scope(old(self).env()).scopes);
    }

    fn pop_scope(&mut self)
        ensures
            final(self).env() == pop_scope(old(self).env()),
            final(self).errs() == old(self).errs(),
    {
        self.scopes.pop();
        assert(self.env().scopes =~= pop_scope(old(self).env()).scopes);
    }

    fn declare_var(&mut self, name: &String, ty: Type, mutable: bool)
        ensures
            final(self).env() == (Env {
                scopes: declare(old(self).env().scopes, name@, (ty@, mutable)),
                ..old(self).env()
            }),
            final(self).errs() == old(self).errs(),
    {
        match self.scopes.pop() {
            Some(mut scope) => {
                scope.insert(copy_string(name), VarInfo { ty, mutable });
                self.scopes.push(scope);
                assert(self.env().scopes =~= declare(old(self).env().scopes, name@, (ty@, mutable)));
            },
            None => {},
        }
    }

    fn lookup_var(&self, name: &String) -> (r: Option<&VarInfo>)
        ensures
            match r {
                Some(v) => lookup(self.env().scopes, name@) == Some(v@),
                None => lookup(self.env().scopes, name@) is None,
            },
    {
        let ghost sv = self.env().scopes;
        assert(sv.subrange(0, sv.len() as int) =~= sv);
        let mut i: usize = self.scopes.len();
        while i > 0
            invariant
                i <= self.scopes@.len(),
                sv == self.env().scopes,
                lookup(sv, name@) == lookup(sv.subrange(0, i as int), name@),
            decreases i,
        {
            proof {
                assert(sv.subrange(0, i as int).drop_last() =~= sv.subrange(0, i as int - 1));
                assert(sv.subrange(0, i as int).last() == self.scopes@[i - 1].view_map());
            }
            match self.scopes[i - 1].get(name) {
                Some(v) => {
                    return Some(v);
                },
                None => {},
            }
            i = i - 1;
        }
        None
    }

    /// Infers the type of an expression, recording the errors found.
    pub fn infer_expr(&mut self, expr: &Expr) -> (r: Type)
        ensures
            final(self).env() == old(self).env(),
            r@ == infer(old(self).env(), expr).0,
            final(self).errs() == old(self).errs() + infer(old(self).env(), expr).1,
        decreases expr, 1nat,
    {
        let ghost errs0 = self.errs();
        match expr {
            Expr::IntLit(_) => {
                assert(self.errs() =~= errs0 + seq![]);
                Type::Int64
            },
            Expr::FloatLit(_) => {
                assert(self.errs() =~= errs0 + seq![]);
                Type::Float64
            },
            Expr::StringLit(_) => {
                assert(self.errs() =~= errs0 + seq![]);
                Type::Str
            },
            Expr::BoolLit(_) => {
                assert(self.errs() =~= errs0 + seq![]);
                Type::Bool
            },
            Expr::Ident(..) => self.infer_ident(expr),
            Expr::BinOp{ .. } => self.infer_bin_op(expr),
            Expr::UnOp{ .. } => self.infer_un_op(expr),
            Expr::Call{ .. } => self.infer_call(expr),
            Expr::MethodCall{ .. } => self.infer_method_call(expr),
            Expr::StructLit{ .. } => self.infer_struct_lit(expr),
            Expr::FieldAccess{ .. } => self.infer_field_access(expr),
            Expr::Index{ .. } => self.infer_index(expr),
            Expr::ArrayLit(..) => self.infer_array_lit(expr),
            Expr::ToGpu(..) => self.infer_to_gpu(expr),
            Expr::ToCpu(..) => self.infer_to_cpu(expr),
        }
    }

    fn infer_ident(&mut self, expr: &Expr) -> (r: Type)
        requires
            expr is Ident,
        ensures
            final(self).env() == old(self).env(),
            r@ == infer(old(self).env(), expr).0,
            final(self).errs() == old(self).errs() + infer(old(self).env(), expr).1,
        decreases expr, 0nat,
    {
        let ghost env0 = self.env();
        let ghost errs0 = self.errs();
        proof {
            reveal_with_fuel(type_view, 2);
        }
        match expr {
            Expr::Ident(name) => {
                let found = match self.lookup_var(name) {
                    Some(info) => Some(info.ty.copy()),
                    None => None,
                };
                match found {
                    Some(t) => {
                        assert(self.errs() =~= errs0 + seq![]);
                        t
                    },
                    None => {
                        self.error(m_undefined_var(name));
                        Type::Unknown
                    },
                }
            },
            _ => Type::Unknown,
        }
    }

    fn infer_bin_op(&mut self, expr: &Expr) -> (r: Type)
        requires
            expr is BinOp,
        ensures
            final(self).env() == old(self).env(),
            r@ == infer(old(self).env(), expr).0,
            final(self).errs() == old(self).errs() + infer(old(self).env(), expr).1,
        decreases expr, 0nat,
    {
        let ghost env0 = self.env();
        let ghost errs0 = self.errs();
        proof {
            reveal_with_fuel(type_view, 2);
        }
        match expr {
            Expr::BinOp { op, lhs, rhs } => {
                let lt = self.infer_expr(lhs);
                let rt = self.infer_expr(rhs);
                let arith = match op {
                    BinOp::Add | BinOp::Sub | BinOp::Mul | BinOp::Div | BinOp::Mod => true,
                    _ => false,
                };
                if arith {
                    if !lt.same(&rt) && !lt.is_unknown() && !rt.is_unknown() {
                        self.error(m_type_mismatch(&lt, &rt));
                    }
                    lt
                } else {
                    let eq = match op {
                        BinOp::EqEq => true,
                        _ => false,
                    };
                    let ne = match op {
                        BinOp::NotEq => true,
                        _ => false,
                    };
                    let strings = match (&lt, &rt) {
                        (Type::Str, Type::Str) => true,
                        _ => false,
                    };
                    if (eq || ne) && strings {
                        self.error(m_string_eq(eq));
                    }
                    Type::Bool
                }
            },
            _ => Type::Unknown,
        }
    }

    fn infer_un_op(&mut self, expr: &Expr) -> (r: Type)
        requires
            expr is UnOp,
        ensures
            final(self).env() == old(self).env(),
            r@ == infer(old(self).env(), expr).0,
            final(self).errs() == old(self).errs() + infer(old(self).env(), expr).1,
        decreases expr, 0nat,
    {
        let ghost env0 = self.env();
        let ghost errs0 = self.errs();
        proof {
            reveal_with_fuel(type_view, 2);
        }
        match expr {
            Expr::UnOp { op, expr: inner } => {
                let t = self.infer_expr(inner);
                match op {
                    UnOp::Not => Type::Bool,
                    UnOp::Neg => t,
                }
            },
            _ => Type::Unknown,
        }
    }

    fn infer_call(&mut self, expr: &Expr) -> (r: Type)
        requires
            expr is Call,
        ensures
            final(self).env() == old(self).env(),
            r@ == infer(old(self).env(), expr).0,
            final(self).errs() == old(self).errs() + infer(old(self).env(), expr).1,
        decreases expr, 0nat,
    {
        let ghost env0 = self.env();
        let ghost errs0 = self.errs();
        proof {
            reveal_with_fuel(type_view, 2);
        }
        match expr {
            Expr::Call { callee, args } => {
                let tys = self.infer_args(args);
                let ghost errs1 = self.errs();
                if self.in_gpu_block {
                    let mut j: usize = 0;
                    while j < tys.len()
                        invariant
                            j <= tys@.len(),
                            self.env() == env0,
                            self.errs() == errs1 + gpu_arg_errors(
                                callee@,
                                types_view(tys@).subrange(0, j as int),
                            ),
                        decreases tys.len() - j,
                    {
                        proof {
                            assert(types_view(tys@).subrange(0, j as int + 1).drop_last()
                                =~= types_view(tys@).subrange(0, j as int));
                        }
                        if is_tensor_on_cpu(&tys[j]) {
                            self.error(m_gpu_arg(j + 1, callee));
                            assert(self.errs() =~= errs1 + gpu_arg_errors(
                                callee@,
                                types_view(tys@).subrange(0, j as int + 1),
                            ));
                        } else {
                            assert(self.errs() =~= errs1 + gpu_arg_errors(
                                callee@,
                                types_view(tys@).subrange(0, j as int + 1),
                            ));
                        }
                        j = j + 1;
                    }
                    proof {
                        assert(types_view(tys@).subrange(0, tys@.len() as int) =~= types_view(
                            tys@,
                        ));
                    }
                } else {
                    assert(self.errs() =~= errs1 + seq![]);
                }
                let ghost errs2 = self.errs();
                let ret = match self.functions.get(callee) {
                    Some(sig) => Some(sig.ret.copy()),
                    None => None,
                };
                match ret {
                    Some(t) => t,
                    None => {
                        self.error(m_undefined_fn(callee));
                        Type::Unknown
                    },
                }
            },
            _ => Type::Unknown,
        }
    }

    fn infer_method_call(&mut self, expr: &Expr) -> (r: Type)
        requires
            expr is MethodCall,
        ensures
            final(self).env() == old(self).env(),
            r@ == infer(old(self).env(), expr).0,
            final(self).errs() == old(self).errs() + infer(old(self).env(), expr).1,
        decreases expr, 0nat,
    {
        let ghost env0 = self.env();
        let ghost errs0 = self.errs();
        proof {
            reveal_with_fuel(type_view, 2);
        }
        match expr {
            Expr::MethodCall { obj, method, args } => {
                let ot = self.infer_expr(obj);
                let _tys = self.infer_args(args);
                method_type_of(&ot, method)
            },
            _ => Type::Unknown,
        }
    }

    fn infer_struct_lit(&mut self, expr: &Expr) -> (r: Type)
        requires
            expr is StructLit,
        ensures
            final(self).env() == old(self).env(),
            r@ == infer(old(self).env(), expr).0,
            final(self).errs() == old(self).errs() + infer(old(self).env(), expr).1,
        decreases expr, 0nat,
    {
        let ghost env0 = self.env();
        let ghost errs0 = self.errs();
        proof {
            reveal_with_fuel(type_view, 2);
        }
        match expr {
            Expr::StructLit { name, fields } => {
                let def = match self.structs.get(name) {
                    Some(d) => Some(d.copy()),
                    None => None,
                };
                match def {
                    None => {
                        self.error(m_unknown_struct(name));
                        Type::Unknown
                    },
                    Some(def) => {
                        self.check_struct_fields(name, &def, fields);
                        Type::Struct(copy_string(name))
                    },
                }
            },
            _ => Type::Unknown,
        }
    }

    fn infer_field_access(&mut self, expr: &Expr) -> (r: Type)
        requires
            expr is FieldAccess,
        ensures
            final(self).env() == old(self).env(),
            r@ == infer(old(self).env(), expr).0,
            final(self).errs() == old(self).errs() + infer(old(self).env(), expr).1,
        decreases expr, 0nat,
    {
        let ghost env0 = self.env();
        let ghost errs0 = self.errs();
        proof {
            reveal_with_fuel(type_view, 2);
        }
        match expr {
            Expr::FieldAccess { obj, field } => {
                let ot = self.infer_expr(obj);
                let is_len_of = text_is(field, "len") && match &ot {
                    Type::Array(_) => true,
                    Type::Str => true,
                    _ => false,
                };
                if is_len_of {
                    return Type::Int64;
                }
                match &ot {
                    Type::Struct(sname) => {
                        let def = match self.structs.get(sname) {
                            Some(d) => Some(d.copy()),
                            None => None,
                        };
                        match def {
                            Some(def) => match field_lookup(&def.fields, field) {
                                Some(t) => t.copy(),
                                None => {
                                    self.error(m_no_field(field, sname));
                                    Type::Unknown
                                },
                            },
                            None => Type::Unknown,
                        }
                    },
                    _ => Type::Unknown,
                }
            },
            _ => Type::Unknown,
        }
    }

    fn infer_index(&mut self, expr: &Expr) -> (r: Type)
        requires
            expr is Index,
        ensures
            final(self).env() == old(self).env(),
            r@ == infer(old(self).env(), expr).0,
            final(self).errs() == old(self).errs() + infer(old(self).env(), expr).1,
        decreases expr, 0nat,
    {
        let ghost env0 = self.env();
        let ghost errs0 = self.errs();
        proof {
            reveal_with_fuel(type_view, 2);
        }
        match expr {
            Expr::Index { obj, idx } => {
                let ot = self.infer_expr(obj);
                let _it = self.infer_expr(idx);
                match ot {
                    Type::Array(inner) => *inner,
                    Type::Str => Type::Int64,
                    _ => Type::Unknown,
                }
            },
            _ => Type::Unknown,
        }
    }

    fn infer_array_lit(&mut self, expr: &Expr) -> (r: Type)
        requires
            expr is ArrayLit,
        ensures
            final(self).env() == old(self).env(),
            r@ == infer(old(self).env(), expr).0,
            final(self).errs() == old(self).errs() + infer(old(self).env(), expr).1,
        decreases expr, 0nat,
    {
        let ghost env0 = self.env();
        let ghost errs0 = self.errs();
        proof {
            reveal_with_fuel(type_view, 2);
        }
        match expr {
            Expr::ArrayLit(elems) => {
                if elems.len() == 0 {
                    assert(self.errs() =~= errs0 + seq![]);
                    return Type::Array(Box::new(Type::Unknown));
                }
                let first = self.infer_expr(&elems[0]);
                self.check_uniform(&first, elems);
                Type::Array(Box::new(first))
            },
            _ => Type::Unknown,
        }
    }

    fn infer_to_gpu(&mut self, expr: &Expr) -> (r: Type)
        requires
            expr is ToGpu,
        ensures
            final(self).env() == old(self).env(),
            r@ == infer(old(self).env(), expr).0,
            final(self).errs() == old(self).errs() + infer(old(self).env(), expr).1,
        decreases expr, 0nat,
    {
        let ghost env0 = self.env();
        let ghost errs0 = self.errs();
        proof {
            reveal_with_fuel(type_view, 2);
        }
        match expr {
            Expr::ToGpu(inner) => {
                let t = self.infer_expr(inner);
                match t {
                    Type::Tensor(_) => Type::Tensor(Box::new(HwTarget::Gpu)),
                    other => {
                        self.error(m_to_device(true, &other));
                        Type::Unknown
                    },
                }
            },
            _ => Type::Unknown,
        }
    }

    fn infer_to_cpu(&mut self, expr: &Expr) -> (r: Type)
        requires
            expr is ToCpu,
        ensures
            final(self).env() == old(self).env(),
            r@ == infer(old(self).env(), expr).0,
            final(self).errs() == old(self).errs() + infer(old(self).env(), expr).1,
        decreases expr, 0nat,
    {
        let ghost env0 = self.env();
        let ghost errs0 = self.errs();
        proof {
            reveal_with_fuel(type_view, 2);
        }
        match expr {
            Expr::ToCpu(inner) => {
                let t = self.infer_expr(inner);
                match t {
                    Type::Tensor(_) => Type::Tensor(Box::new(HwTarget::Cpu)),
                    other => {
                        self.error(m_to_device(false, &other));
                        Type::Unknown
                    },
                }
            },
            _ => Type::Unknown,
        }
    }

    /// Infers the types of a list of expressions, in order.
    fn infer_args(&mut self, args: &Vec<Expr>) -> (r: Vec<Type>)
        ensures
            final(self).env() == old(self).env(),
            types_view(r@) == infer_list(old(self).env(), args@).0,
            final(self).errs() == old(self).errs() + infer_list(old(self).env(), args@).1,
        decreases args, 0nat,
    {
        let ghost env0 = self.env();
        let ghost errs0 = self.errs();
        let mut tys: Vec<Type> = Vec::new();
        let mut i: usize = 0;
        assert(self.errs() =~= errs0 + infer_list(env0, args@.subrange(0, 0)).1);
        assert(types_view(tys@) =~= infer_list(env0, args@.subrange(0, 0)).0);
        while i < args.len()
            invariant
                i <= args@.len(),
                self.env() == env0,
                types_view(tys@) == infer_list(env0, args@.subrange(0, i as int)).0,
                self.errs() == errs0 + infer_list(env0, args@.subrange(0, i as int)).1,
            decreases args.len() - i,
        {
            let t = self.infer_expr(&args[i]);
            let ghost prev = tys@;
            tys.push(t);
            proof {
                assert(args@.subrange(0, i as int + 1).drop_last() =~= args@.subrange(0, i as int));
                assert(types_view(tys@) =~= types_view(prev).push(tys@.last()@));
                assert(self.errs() =~= errs0 + infer_list(env0, args@.subrange(0, i as int + 1)).1);
            }
            i = i + 1;
        }
        proof {
            assert(args@.subrange(0, args@.len() as int) =~= args@);
        }
        tys
    }

    /// Checks the fields of a literal of struct `name` against its declared fields.
    fn check_struct_fields(&mut self, name: &String, def: &FieldTypes, fields: &Vec<(String, Expr)>)
        ensures
            final(self).env() == old(self).env(),
            final(self).errs() == old(self).errs() + infer_fields(old(self).env(), name@, def@, fields@),
        decreases fields, 0nat,
    {
        let ghost env0 = self.env();
        let ghost errs0 = self.errs();
        let mut i: usize = 0;
        assert(self.errs() =~= errs0 + infer_fields(env0, name@, def@, fields@.subrange(0, 0)));
        while i < fields.len()
            invariant
                i <= fields@.len(),
                self.env() == env0,
                self.errs() == errs0 + infer_fields(env0, name@, def@, fields@.subrange(0, i as int)),
            decreases fields.len() - i,
        {
            proof {
                assert(fields@.subrange(0, i as int + 1).drop_last() =~= fields@.subrange(0, i as int));
            }
            let vt = self.infer_expr(&fields[i].1);
            match field_lookup(&def.fields, &fields[i].0) {
                Some(exp) => {
                    if !vt.same(exp) && !vt.is_unknown() {
                        self.error(m_field_type(name, &fields[i].0, exp, &vt));
                    }
                },
                None => {
                    self.error(m_no_field(&fields[i].0, name));
                },
            }
            proof {
                assert(self.errs() =~= errs0 + infer_fields(env0, name@, def@, fields@.subrange(0, i as int + 1)));
            }
            i = i + 1;
        }
        proof {
            assert(fields@.subrange(0, fields@.len() as int) =~= fields@);
        }
    }

    /// Checks the array elements after the first against the type of the first.
    fn check_uniform(&mut self, first: &Type, elems: &Vec<Expr>)
        requires
            elems@.len() >= 1,
        ensures
            final(self).env() == old(self).env(),
            final(self).errs() == old(self).errs() + infer_uniform(old(self).env(), first@, elems@.drop_first()),
        decreases elems, 0nat,
    {
        let ghost env0 = self.env();
        let ghost errs1 = self.errs();
        let ghost rest = elems@.drop_first();
        let mut i: usize = 1;
        assert(self.errs() =~= errs1 + infer_uniform(env0, first@, rest.subrange(0, 0)));
        while i < elems.len()
            invariant
                1 <= i <= elems@.len(),
                rest == elems@.drop_first(),
                self.env() == env0,
                self.errs() == errs1 + infer_uniform(env0, first@, rest.subrange(0, i as int - 1)),
            decreases elems.len() - i,
        {
            proof {
                assert(rest.subrange(0, i as int).drop_last() =~= rest.subrange(0, i as int - 1));
                assert(rest.subrange(0, i as int).last() == elems@[i as int]);
            }
            let t = self.infer_expr(&elems[i]);
            if !t.same(first) && !t.is_unknown() {
                self.error(m_uniform(first, &t));
            }
            proof {
                assert(self.errs() =~= errs1 + infer_uniform(env0, first@, rest.subrange(0, i as int)));
            }
            i = i + 1;
        }
        proof {
            assert(rest.subrange(0, elems@.len() as int - 1) =~= rest);
        }
    }
}


impl SemanticAnalyzer {
    fn check_gpu_restrictions(&mut self, expr: &Expr)
        ensures
            final(self).env() == old(self).env(),
            final(self).errs() == old(self).errs() + gpu_restriction_errors(expr),
    {
        match expr {
            Expr::Call { callee, .. } => {
                if is_gpu_forbidden(callee) {
                    self.error(m_gpu_forbidden(callee));
                } else {
                    assert(self.errs() =~= old(self).errs() + gpu_restriction_errors(expr));
                }
            },
            _ => {
                assert(self.errs() =~= old(self).errs() + gpu_restriction_errors(expr));
            },
        }
    }

    /// Checks the statements of a block in order.
    fn analyze_block(&mut self, stmts: &Vec<Stmt>, ret_ty: &Type)
        requires
            old(self).loop_depth + block_nest(stmts@) <= usize::MAX,
        ensures
            final(self).env() == check_block(old(self).env(), stmts@, ret_ty@).0,
            final(self).errs() == old(self).errs() + check_block(old(self).env(), stmts@, ret_ty@).1,
        decreases stmts, 2nat,
    {
        let ghost env0 = self.env();
        let ghost errs0 = self.errs();
        proof {
            lemma_block_nest(stmts@);
            assert(stmts@.subrange(0, 0) =~= Seq::<Stmt>::empty());
        }
        assert(self.errs() =~= errs0 + check_block(env0, stmts@.subrange(0, 0), ret_ty@).1);
        let mut i: usize = 0;
        while i < stmts.len()
            invariant
                i <= stmts@.len(),
                self.env() == check_block(env0, stmts@.subrange(0, i as int), ret_ty@).0,
                self.errs() == errs0 + check_block(env0, stmts@.subrange(0, i as int), ret_ty@).1,
                self.loop_depth == env0.loop_depth,
                env0.loop_depth + block_nest(stmts@) <= usize::MAX,
                forall|k: int| 0 <= k < stmts@.len() ==> stmt_nest(&#[trigger] stmts@[k]) <= block_nest(stmts@),
            decreases stmts.len() - i,
        {
            proof {
                assert(stmts@.subrange(0, i as int + 1).drop_last() =~= stmts@.subrange(0, i as int));
                assert(stmt_nest(&stmts@[i as int]) <= block_nest(stmts@));
            }
            let ghost before = self.env();
            self.analyze_stmt(&stmts[i], ret_ty);
            proof {
                lemma_check_stmt_frame(before, &stmts@[i as int], ret_ty@);
                assert(self.errs() =~= errs0 + check_block(env0, stmts@.subrange(0, i as int + 1), ret_ty@).1);
            }
            i = i + 1;
        }
        proof {
            assert(stmts@.subrange(0, stmts@.len() as int) =~= stmts@);
        }
    }

    /// Checks one statement against the return type of the enclosing function.
    fn analyze_stmt(&mut self, stmt: &Stmt, ret_ty: &Type)
        requires
            old(self).loop_depth + stmt_nest(stmt) <= usize::MAX,
        ensures
            final(self).env() == check_stmt(old(self).env(), stmt, ret_ty@).0,
            final(self).errs() == old(self).errs() + check_stmt(old(self).env(), stmt, ret_ty@).1,
        decreases stmt, 1nat,
    {
        let ghost env0 = self.env();
        let ghost errs0 = self.errs();
        match stmt {
            Stmt::Let { .. } => self.analyze_let(stmt, ret_ty),
            Stmt::Assign { .. } => self.analyze_assign(stmt, ret_ty),
            Stmt::ExprStmt(..) => self.analyze_expr_stmt(stmt, ret_ty),
            Stmt::Return(..) => self.analyze_return(stmt, ret_ty),
            Stmt::If { .. } => self.analyze_if(stmt, ret_ty),
            Stmt::While { .. } => self.analyze_while(stmt, ret_ty),
            Stmt::For { .. } => self.analyze_for(stmt, ret_ty),
            Stmt::GpuBlock(..) => self.analyze_gpu_block(stmt, ret_ty),
            Stmt::Break => {
                if self.loop_depth == 0 {
                    self.error(m_outside_loop("break"));
                } else {
                    assert(self.errs() =~= errs0 + seq![]);
                }
            },
            Stmt::Continue => {
                if self.loop_depth == 0 {
                    self.error(m_outside_loop("continue"));
                } else {
                    assert(self.errs() =~= errs0 + seq![]);
                }
            },
            Stmt::Import(_) => {
                assert(self.errs() =~= errs0 + seq![]);
            },
        }
    }

    #[verifier::rlimit(30)]
    fn analyze_let(&mut self, stmt: &Stmt, ret_ty: &Type)
        requires
            stmt is Let,
            old(self).loop_depth + stmt_nest(stmt) <= usize::MAX,
        ensures
            final(self).env() == check_stmt(old(self).env(), stmt, ret_ty@).0,
            final(self).errs() == old(self).errs() + check_stmt(old(self).env(), stmt, ret_ty@).1,
        decreases stmt, 0nat,
    {
        let ghost env0 = self.env();
        let ghost errs0 = self.errs();
        match stmt {
            Stmt::Let { mutable, name, ty, init, hw: _ } => {
                let inferred = self.infer_expr(init);
                let ghost errs1 = self.errs();
                let resolved = match ty {
                    Some(annotation) => {
                        let ann_ty = annotation.to_type();
                        if !ann_ty.same(&inferred) && !inferred.is_unknown() {
                            self.error(m_let_mismatch(name, &ann_ty, &inferred));
                        } else {
                            assert(self.errs() =~= errs1 + seq![]);
                        }
                        ann_ty
                    },
                    None => {
                        assert(self.errs() =~= errs1 + seq![]);
                        inferred
                    },
                };
                self.declare_var(name, resolved, *mutable);
                assert(self.errs() =~= errs0 + check_stmt(env0, stmt, ret_ty@).1);
            },
            _ => {},
        }
    }

    #[verifier::rlimit(30)]
    fn analyze_assign(&mut self, stmt: &Stmt, ret_ty: &Type)
        requires
            stmt is Assign,
            old(self).loop_depth + stmt_nest(stmt) <= usize::MAX,
        ensures
            final(self).env() == check_stmt(old(self).env(), stmt, ret_ty@).0,
            final(self).errs() == old(self).errs() + check_stmt(old(self).env(), stmt, ret_ty@).1,
        decreases stmt, 0nat,
    {
        let ghost env0 = self.env();
        let ghost errs0 = self.errs();
        match stmt {
            Stmt::Assign { target, value } => {
                let val_ty = self.infer_expr(value);
                let ghost errs1 = self.errs();
                match target {
                    AssignTarget::Ident(name) => {
                        let info = match self.lookup_var(name) {
                            Some(v) => Some((v.ty.copy(), v.mutable)),
                            None => None,
                        };
                        match info {
                            None => {
                                self.error(m_undefined_var(name));
                            },
                            Some((t, m)) => {
                                if !m {
                                    self.error(m_immutable(name));
                                }
                                let ghost errs2 = self.errs();
                                if !val_ty.same(&t) && !val_ty.is_unknown() && !t.is_unknown() {
                                    self.error(m_assign_mismatch(name, &t, &val_ty));
                                }
                                assert(self.errs() =~= errs1 + assign_errors(env0, target, val_ty@));
                            },
                        }
                    },
                    AssignTarget::Field(obj, field) => {
                        let obj_ty = self.infer_expr(obj);
                        let ghost errs2 = self.errs();
                        let missing = match &obj_ty {
                            Type::Struct(sname) => match self.structs.get(sname) {
                                Some(def) => field_lookup(&def.fields, field).is_none(),
                                None => false,
                            },
                            _ => false,
                        };
                        if missing {
                            match &obj_ty {
                                Type::Struct(sname) => {
                                    self.error(m_no_field(field, sname));
                                },
                                _ => {},
                            }
                        }
                        assert(self.errs() =~= errs1 + assign_errors(env0, target, val_ty@));
                    },
                    AssignTarget::Index(obj, idx) => {
                        self.infer_expr(obj);
                        self.infer_expr(idx);
                        assert(self.errs() =~= errs1 + assign_errors(env0, target, val_ty@));
                    },
                }
                assert(self.errs() =~= errs0 + check_stmt(env0, stmt, ret_ty@).1);
            },
            _ => {},
        }
    }

    #[verifier::rlimit(30)]
    fn analyze_expr_stmt(&mut self, stmt: &Stmt, ret_ty: &Type)
        requires
            stmt is ExprStmt,
            old(self).loop_depth + stmt_nest(stmt) <= usize::MAX,
        ensures
            final(self).env() == check_stmt(old(self).env(), stmt, ret_ty@).0,
            final(self).errs() == old(self).errs() + check_stmt(old(self).env(), stmt, ret_ty@).1,
        decreases stmt, 0nat,
    {
        let ghost env0 = self.env();
        let ghost errs0 = self.errs();
        match stmt {
            Stmt::ExprStmt(e) => {
                self.infer_expr(e);
                let ghost errs1 = self.errs();
                if self.in_gpu_block {
                    self.check_gpu_restrictions(e);
                } else {
                    assert(self.errs() =~= errs1 + seq![]);
                }
                assert(self.errs() =~= errs0 + check_stmt(env0, stmt, ret_ty@).1);
            },
            _ => {},
        }
    }

    #[verifier::rlimit(30)]
    fn analyze_return(&mut self, stmt: &Stmt, ret_ty: &Type)
        requires
            stmt is Return,
            old(self).loop_depth + stmt_nest(stmt) <= usize::MAX,
        ensures
            final(self).env() == check_stmt(old(self).env(), stmt, ret_ty@).0,
            final(self).errs() == old(self).errs() + check_stmt(old(self).env(), stmt, ret_ty@).1,
        decreases stmt, 0nat,
    {
        let ghost env0 = self.env();
        let ghost errs0 = self.errs();
        match stmt {
            Stmt::Return(expr) => {
                let actual = match expr {
                    Some(e) => self.infer_expr(e),
                    None => {
                        assert(self.errs() =~= errs0 + seq![]);
                        Type::Void
                    },
                };
                let ghost errs1 = self.errs();
                if !ret_ty.is_void() && !actual.same(ret_ty) && !actual.is_unknown() {
                    self.error(m_return(ret_ty, &actual));
                } else {
                    assert(self.errs() =~= errs1 + seq![]);
                }
                assert(self.errs() =~= errs0 + check_stmt(env0, stmt, ret_ty@).1);
            },
            _ => {},
        }
    }

    #[verifier::rlimit(30)]
    fn analyze_if(&mut self, stmt: &Stmt, ret_ty: &Type)
        requires
            stmt is If,
            old(self).loop_depth + stmt_nest(stmt) <= usize::MAX,
        ensures
            final(self).env() == check_stmt(old(self).env(), stmt, ret_ty@).0,
            final(self).errs() == old(self).errs() + check_stmt(old(self).env(), stmt, ret_ty@).1,
        decreases stmt, 0nat,
    {
        let ghost env0 = self.env();
        let ghost errs0 = self.errs();
        match stmt {
            Stmt::If { cond, then_block, else_block } => {
                let ct = self.infer_expr(cond);
                let ghost errs1 = self.errs();
                if !is_cond_type(&ct) {
                    self.error(m_cond("if", &ct));
                } else {
                    assert(self.errs() =~= errs1 + seq![]);
                }
                let ghost errs2 = self.errs();
                self.push_scope();
                self.analyze_block(then_block, ret_ty);
                proof {
                    lemma_check_block_frame(push_scope(env0), then_block@, ret_ty@);
                }
                self.pop_scope();
                proof {
                    lemma_pop_after_push(env0, check_block(push_scope(env0), then_block@, ret_ty@).0);
                }
                match else_block {
                    Some(eb) => {
                        self.push_scope();
                        self.analyze_block(eb, ret_ty);
                        proof {
                            lemma_check_block_frame(push_scope(env0), eb@, ret_ty@);
                        }
                        self.pop_scope();
                    },
                    None => {},
                }
                assert(self.errs() =~= errs0 + check_stmt(env0, stmt, ret_ty@).1);
            },
            _ => {},
        }
    }

    #[verifier::rlimit(30)]
    fn analyze_while(&mut self, stmt: &Stmt, ret_ty: &Type)
        requires
            stmt is While,
            old(self).loop_depth + stmt_nest(stmt) <= usize::MAX,
        ensures
            final(self).env() == check_stmt(old(self).env(), stmt, ret_ty@).0,
            final(self).errs() == old(self).errs() + check_stmt(old(self).env(), stmt, ret_ty@).1,
        decreases stmt, 0nat,
    {
        let ghost env0 = self.env();
        let ghost errs0 = self.errs();
        match stmt {
            Stmt::While { cond, body } => {
                let ct = self.infer_expr(cond);
                let ghost errs1 = self.errs();
                if !is_cond_type(&ct) {
                    self.error(m_cond("while", &ct));
                } else {
                    assert(self.errs() =~= errs1 + seq![]);
                }
                self.loop_depth = self.loop_depth + 1;
                let ghost d = self.env();
                self.push_scope();
                self.analyze_block(body, ret_ty);
                proof {
                    lemma_check_block_frame(push_scope(d), body@, ret_ty@);
                }
                self.pop_scope();
                proof {
                    lemma_pop_after_push(d, check_block(push_scope(d), body@, ret_ty@).0);
                }
                self.loop_depth = self.loop_depth - 1;
                assert(self.errs() =~= errs0 + check_stmt(env0, stmt, ret_ty@).1);
            },
            _ => {},
        }
    }

    #[verifier::rlimit(30)]
    fn analyze_for(&mut self, stmt: &Stmt, ret_ty: &Type)
        requires
            stmt is For,
            old(self).loop_depth + stmt_nest(stmt) <= usize::MAX,
        ensures
            final(self).env() == check_stmt(old(self).env(), stmt, ret_ty@).0,
            final(self).errs() == old(self).errs() + check_stmt(old(self).env(), stmt, ret_ty@).1,
        decreases stmt, 0nat,
    {
        let ghost env0 = self.env();
        let ghost errs0 = self.errs();
        match stmt {
            Stmt::For { var, start, end, body } => {
                let st = self.infer_expr(start);
                let et = self.infer_expr(end);
                let ghost errs1 = self.errs();
                if !st.same(&Type::Int64) && !st.is_unknown() {
                    self.error(m_range("start", &st));
                }
                let ghost errs2 = self.errs();
                if !et.same(&Type::Int64) && !et.is_unknown() {
                    self.error(m_range("end", &et));
                }
                assert(self.errs() =~= errs0 + infer(env0, start).1 + infer(env0, end).1 + if_then(
                    st@ != Ty::Int64 && st@ != Ty::Unknown,
                    seq![msg_range("start"@, st@)],
                ) + if_then(et@ != Ty::Int64 && et@ != Ty::Unknown, seq![msg_range("end"@, et@)]));
                self.loop_depth = self.loop_depth + 1;
                let ghost d = self.env();
                self.push_scope();
                self.declare_var(var, Type::Int64, false);
                let ghost env1 = self.env();
                self.analyze_block(body, ret_ty);
                proof {
                    lemma_check_block_frame(env1, body@, ret_ty@);
                    let b = check_block(env1, body@, ret_ty@).0;
                    assert(same_frame(push_scope(d), env1));
                    assert forall|i: int| 0 <= i < b.scopes.len() - 1 implies #[trigger] push_scope(d).scopes[i]
                        == b.scopes[i] by {
                        assert(env1.scopes[i] == b.scopes[i]);
                    }
                    lemma_pop_after_push(d, b);
                }
                self.pop_scope();
                self.loop_depth = self.loop_depth - 1;
                assert(self.errs() =~= errs0 + check_stmt(env0, stmt, ret_ty@).1);
            },
            _ => {},
        }
    }

    #[verifier::rlimit(30)]
    fn analyze_gpu_block(&mut self, stmt: &Stmt, ret_ty: &Type)
        requires
            stmt is GpuBlock,
            old(self).loop_depth + stmt_nest(stmt) <= usize::MAX,
        ensures
            final(self).env() == check_stmt(old(self).env(), stmt, ret_ty@).0,
            final(self).errs() == old(self).errs() + check_stmt(old(self).env(), stmt, ret_ty@).1,
        decreases stmt, 0nat,
    {
        let ghost env0 = self.env();
        let ghost errs0 = self.errs();
        match stmt {
            Stmt::GpuBlock(body) => {
                let was = self.in_gpu_block;
                self.in_gpu_block = true;
                let ghost g = self.env();
                self.push_scope();
                self.analyze_block(body, ret_ty);
                proof {
                    lemma_check_block_frame(push_scope(g), body@, ret_ty@);
                }
                self.pop_scope();
                self.in_gpu_block = was;
                assert(self.errs() =~= errs0 + check_stmt(env0, stmt, ret_ty@).1);
            },
            _ => {},
        }
    }

    /// Checks a function: parameters in a scope of their own, then the body
    /// against the declared return type; a `@gpu` function is GPU code.
    fn analyze_fn(&mut self, f: &FnDef)
        requires
            old(self).loop_depth + block_nest(f.body@) <= usize::MAX,
        ensures
            final(self).env() == check_fn(old(self).env(), f).0,
            final(self).errs() == old(self).errs() + check_fn(old(self).env(), f).1,
    {
        let ghost env0 = self.env();
        let ghost errs0 = self.errs();
        let was_gpu = self.in_gpu_block;
        match &f.hw {
            Some(hw) => {
                if hw.is_gpu() {
                    self.in_gpu_block = true;
                }
            },
            None => {},
        }
        self.push_scope();
        let ghost env1 = self.env();
        assert(env1 == push_scope(with_gpu(env0, fn_in_gpu(env0, f))));
        let mut i: usize = 0;
        assert(self.errs() =~= errs0 + param_conflicts(f.name@, f.hw, f.params@.subrange(0, 0)));
        while i < f.params.len()
            invariant
                i <= f.params@.len(),
                self.env() == (Env {
                    scopes: declare_params(env1.scopes, f.params@.subrange(0, i as int)),
                    ..env1
                }),
                self.errs() == errs0 + param_conflicts(f.name@, f.hw, f.params@.subrange(0, i as int)),
            decreases f.params.len() - i,
        {
            let p = &f.params[i];
            proof {
                assert(f.params@.subrange(0, i as int + 1).drop_last() =~= f.params@.subrange(0, i as int));
            }
            let pty = p.ty.to_type();
            let ghost errs1 = self.errs();
            match (&f.hw, &p.hw) {
                (Some(fn_hw), Some(p_hw)) => {
                    if fn_hw.is_gpu() && p_hw.is_cpu() {
                        self.error(m_param_conflict(&f.name, true, &p.name));
                    } else if fn_hw.is_cpu() && p_hw.is_gpu() {
                        self.error(m_param_conflict(&f.name, false, &p.name));
                    }
                },
                _ => {},
            }
            assert(self.errs() =~= errs0 + param_conflicts(f.name@, f.hw, f.params@.subrange(0, i as int + 1)));
            self.declare_var(&p.name, pty, false);
            i = i + 1;
        }
        proof {
            assert(f.params@.subrange(0, f.params@.len() as int) =~= f.params@);
        }
        let ret_ty = f.ret_ty.to_type();
        self.analyze_block(&f.body, &ret_ty);
        self.pop_scope();
        self.in_gpu_block = was_gpu;
        assert(self.errs() =~= errs0 + check_fn(env0, f).1);
    }

    /// Analyzes a whole program and returns every error found, in order.
    pub fn analyze(&mut self, program: &Program) -> (r: Vec<String>)
        requires
            nesting_fits(program, old(self).env().loop_depth),
        ensures
            final(self).env() == analyze_program(old(self).env(), program).0,
            final(self).errs() == old(self).errs() + analyze_program(old(self).env(), program).1,
            msgs_view(r@) == final(self).errs(),
    {
        let ghost env0 = self.env();
        let ghost errs0 = self.errs();
        let mut i: usize = 0;
        while i < program.structs.len()
            invariant
                i <= program.structs@.len(),
                self.env() == (Env {
                    structs: register_structs(env0.structs, program.structs@.subrange(0, i as int)),
                    ..env0
                }),
                self.errs() == errs0,
            decreases program.structs.len() - i,
        {
            let s = &program.structs[i];
            let mut fields: Vec<(String, Type)> = Vec::new();
            let mut k: usize = 0;
            while k < s.fields.len()
                invariant
                    k <= s.fields@.len(),
                    fields@.len() == k,
                    forall|j: int|
                        0 <= j < k ==> (#[trigger] fields@[j]).0@ == s.fields@[j].name@ && fields@[j].1@
                            == annotation_type(&s.fields@[j].ty),
                decreases s.fields.len() - k,
            {
                fields.push((copy_string(&s.fields[k].name), s.fields[k].ty.to_type()));
                k = k + 1;
            }
            let ft = FieldTypes { fields };
            assert(ft@ =~= struct_fields(s));
            self.structs.insert(copy_string(&s.name), ft);
            proof {
                assert(program.structs@.subrange(0, i as int + 1).drop_last() =~= program.structs@.subrange(0, i as int));
                assert(self.env().scopes =~= env0.scopes);
            }
            i = i + 1;
        }
        proof {
            assert(program.structs@.subrange(0, program.structs@.len() as int) =~= program.structs@);
            assert(program.fns@.subrange(0, 0) =~= Seq::<FnDef>::empty());
        }
        let mut i: usize = 0;
        while i < program.fns.len()
            invariant
                i <= program.fns@.len(),
                self.env() == (Env {
                    structs: register_structs(env0.structs, program.structs@),
                    fns: register_fns(env0.fns, program.fns@.subrange(0, i as int)),
                    ..env0
                }),
                self.errs() == errs0,
            decreases program.fns.len() - i,
        {
            let f = &program.fns[i];
            let mut params: Vec<Type> = Vec::new();
            let mut k: usize = 0;
            while k < f.params.len()
                invariant
                    k <= f.params@.len(),
                    params@.len() == k,
                    forall|j: int|
                        0 <= j < k ==> (#[trigger] params@[j])@ == annotation_type(&f.params@[j].ty),
                decreases f.params.len() - k,
            {
                params.push(f.params[k].ty.to_type());
                k = k + 1;
            }
            let sig = FnSig { params, ret: f.ret_ty.to_type() };
            assert(sig@ =~= fn_signature(f));
            self.functions.insert(copy_string(&f.name), sig);
            proof {
                assert(program.fns@.subrange(0, i as int + 1).drop_last() =~= program.fns@.subrange(0, i as int));
                assert(self.env().scopes =~= env0.scopes);
            }
            i = i + 1;
        }
        proof {
            assert(program.fns@.subrange(0, program.fns@.len() as int) =~= program.fns@);
        }
        let ghost env1 = self.env();
        self.analyze_block(&program.top_level, &Type::Void);
        proof {
            lemma_check_block_frame(env1, program.top_level@, Ty::Void);
        }
        let ghost env2 = self.env();
        let ghost errs2 = self.errs();
        let mut i: usize = 0;
        while i < program.fns.len()
            invariant
                i <= program.fns@.len(),
                self.env() == check_fns(env2, program.fns@.subrange(0, i as int)).0,
                self.errs() == errs2 + check_fns(env2, program.fns@.subrange(0, i as int)).1,
                env2.loop_depth == env0.loop_depth,
                nesting_fits(program, env0.loop_depth),
            decreases program.fns.len() - i,
        {
            proof {
                assert(program.fns@.subrange(0, i as int + 1).drop_last() =~= program.fns@.subrange(0, i as int));
                lemma_check_fns_frame(env2, program.fns@.subrange(0, i as int));
                assert(block_nest(program.fns@[i as int].body@) + env0.loop_depth <= usize::MAX);
            }
            self.analyze_fn(&program.fns[i]);
            assert(self.errs() =~= errs2 + check_fns(env2, program.fns@.subrange(0, i as int + 1)).1);
            i = i + 1;
        }
        proof {
            assert(program.fns@.subrange(0, program.fns@.len() as int) =~= program.fns@);
        }
        assert(self.errs() =~= errs0 + analyze_program(env0, program).1);
        let mut out: Vec<String> = Vec::new();
        let mut k: usize = 0;
        while k < self.errors.len()
            invariant
                k <= self.errors@.len(),
                out@.len() == k,
                forall|j: int| 0 <= j < k ==> (#[trigger] out@[j])@ == self.errors@[j]@,
            decreases self.errors.len() - k,
        {
            out.push(copy_string(&self.errors[k]));
            k = k + 1;
        }
        assert(msgs_view(out@) =~= self.errs());
        out
    }
}

/// A `let` binding cannot be reassigned: assigning to a variable whose innermost
/// declaration is immutable is reported.
pub proof fn law_immutable_binding_rejected(env: Env, s: &Stmt, ret: Ty)
    requires
        s matches Stmt::Assign { target: AssignTarget::Ident(n), .. } && lookup(env.scopes, n@) matches Some(
            (_, m),
        ) && !m,
    ensures
        match s {
            Stmt::Assign { target: AssignTarget::Ident(n), .. } => check_stmt(env, s, ret).1.contains(
                msg_immutable(n@),
            ),
            _ => true,
        },
{
    match s {
        Stmt::Assign { target: AssignTarget::Ident(n), value } => {
            let ve = infer(env, value).1;
            assert(check_stmt(env, s, ret).1[ve.len() as int] == msg_immutable(n@));
        },
        _ => {},
    }
}

/// A `mut` binding can be reassigned: a value of the declared type adds no
/// error beyond those of the value itself.
pub proof fn law_mutable_binding_assignable(env: Env, s: &Stmt, ret: Ty)
    requires
        s matches Stmt::Assign { target: AssignTarget::Ident(n), value } && lookup(env.scopes, n@) matches Some(
            (t, m),
        ) && m && infer(env, value).0 == t,
    ensures
        match s {
            Stmt::Assign { value, .. } => check_stmt(env, s, ret).1 == infer(env, value).1,
            _ => true,
        },
{
    match s {
        Stmt::Assign { value, .. } => {
            assert(check_stmt(env, s, ret).1 =~= infer(env, value).1);
        },
        _ => {},
    }
}

/// CPU I/O is refused in GPU code: a call statement to one of the forbidden
/// functions inside a GPU context is reported.
pub proof fn law_gpu_forbids_cpu_io(env: Env, s: &Stmt, ret: Ty)
    requires
        env.in_gpu,
        s matches Stmt::ExprStmt(Expr::Call { callee, .. }) && gpu_forbidden(callee@),
    ensures
        match s {
            Stmt::ExprStmt(Expr::Call { callee, .. }) => check_stmt(env, s, ret).1.contains(
                msg_gpu_forbidden(callee@),
            ),
            _ => true,
        },
{
    match s {
        Stmt::ExprStmt(e) => match e {
            Expr::Call { callee, .. } => {
                let ie = infer(env, e).1;
                assert(check_stmt(env, s, ret).1[ie.len() as int] == msg_gpu_forbidden(callee@));
            },
            _ => {},
        },
        _ => {},
    }
}

/// A CPU tensor may not cross into GPU code without `.toGpu()`: inside a GPU
/// context, every argument of type `tensor@cpu` is reported by its position.
pub proof fn law_cpu_tensor_argument_rejected_in_gpu(env: Env, e: &Expr, i: int)
    requires
        env.in_gpu,
        e matches Expr::Call { args, .. } && 0 <= i < args@.len() && infer(env, &args@[i]).0 == Ty::Tensor(
            HwTarget::Cpu,
        ),
    ensures
        match e {
            Expr::Call { callee, .. } => infer(env, e).1.contains(msg_gpu_arg((i + 1) as nat, callee@)),
            _ => true,
        },
{
    match e {
        Expr::Call { callee, args } => {
            let (ts, es) = infer_list(env, args@);
            lemma_infer_list_types(env, args@);
            lemma_gpu_arg_errors_contain(callee@, ts, i);
            let ge = gpu_arg_errors(callee@, ts);
            let k = choose|k: int| 0 <= k < ge.len() && ge[k] == msg_gpu_arg((i + 1) as nat, callee@);
            assert(infer(env, e).1[es.len() + k] == msg_gpu_arg((i + 1) as nat, callee@));
        },
        _ => {},
    }
}

/// The types inferred for a list are those of its members, position by position.
pub proof fn lemma_infer_list_types(env: Env, s: Seq<Expr>)
    ensures
        infer_list(env, s).0.len() == s.len(),
        forall|j: int| 0 <= j < s.len() ==> #[trigger] infer_list(env, s).0[j] == infer(env, &s[j]).0,
    decreases s.len(),
{
    if s.len() > 0 {
        lemma_infer_list_types(env, s.drop_last());
        assert forall|j: int| 0 <= j < s.len() implies #[trigger] infer_list(env, s).0[j] == infer(
            env,
            &s[j],
        ).0 by {
            if j < s.len() - 1 {
                assert(s.drop_last()[j] == s[j]);
            }
        }
    }
}

proof fn lemma_gpu_arg_errors_contain(callee: Seq<char>, ts: Seq<Ty>, i: int)
    requires
        0 <= i < ts.len(),
        is_tensor_cpu(ts[i]),
    ensures
        exists|k: int|
            0 <= k < gpu_arg_errors(callee, ts).len() && #[trigger] gpu_arg_errors(callee, ts)[k]
                == msg_gpu_arg((i + 1) as nat, callee),
    decreases ts.len(),
{
    let g = gpu_arg_errors(callee, ts);
    let g0 = gpu_arg_errors(callee, ts.drop_last());
    if i == ts.len() - 1 {
        assert(g[g0.len() as int] == msg_gpu_arg((i + 1) as nat, callee));
    } else {
        assert(ts.drop_last()[i] == ts[i]);
        lemma_gpu_arg_errors_contain(callee, ts.drop_last(), i);
        let k = choose|k: int| 0 <= k < g0.len() && #[trigger] g0[k] == msg_gpu_arg((i + 1) as nat, callee);
        assert(g[k] == g0[k]);
    }
}

/// `break` and `continue` are reported exactly when no loop encloses them.
pub proof fn law_loop_jumps_need_a_loop(env: Env, ret: Ty)
    ensures
        check_stmt(env, &Stmt::Break, ret).1 == (if env.loop_depth == 0 {
            seq![msg_outside_loop("break"@)]
        } else {
            seq![]
        }),
        check_stmt(env, &Stmt::Continue, ret).1 == (if env.loop_depth == 0 {
            seq![msg_outside_loop("continue"@)]
        } else {
            seq![]
        }),
{
}

/// Strings are compared with `str_eq`: `==` or `!=` between two strings is
/// reported.
pub proof fn law_strings_compare_with_str_eq(env: Env, e: &Expr)
    requires
        e matches Expr::BinOp { op, lhs, rhs } && (op is EqEq || op is NotEq) && infer(env, lhs).0 == Ty::Str
            && infer(env, rhs).0 == Ty::Str,
    ensures
        match e {
            Expr::BinOp { op, .. } => infer(env, e).1.contains(msg_string_eq(op is EqEq)),
            _ => true,
        },
{
    match e {
        Expr::BinOp { op, lhs, rhs } => {
            let n = infer(env, lhs).1.len() + infer(env, rhs).1.len();
            assert(infer(env, e).1[n as int] == msg_string_eq(*op is EqEq));
        },
        _ => {},
    }
}

/// A binding takes the type of its initial value unless it is annotated, and
/// then the annotated type; reading the name right after gives that type.
pub proof fn law_let_declares_its_type(env: Env, s: &Stmt, ret: Ty)
    requires
        env.scopes.len() > 0,
        s is Let,
    ensures
        match s {
            Stmt::Let { mutable, name, ty, init, .. } => {
                let t = match ty {
                    Some(a) => annotation_type(a),
                    None => infer(env, init).0,
                };
                &&& lookup(check_stmt(env, s, ret).0.scopes, name@) == Some((t, *mutable))
                &&& infer(check_stmt(env, s, ret).0, &Expr::Ident(*name)).0 == t
            },
            _ => true,
        },
{
}

/// Only a `let` binds: checking any other statement leaves the analyzer's
/// state as it was (scopes, functions, structs, placement and loop depth),
/// and every statement only appends errors (`check_stmt` returns the new
/// ones, which `analyze` appends).
pub proof fn law_only_let_binds(env: Env, s: &Stmt, ret: Ty)
    requires
        !(s is Let),
    ensures
        check_stmt(env, s, ret).0 == env,
{
    match s {
        Stmt::If { cond, then_block, else_block } => {
            lemma_check_block_frame(push_scope(env), then_block@, ret);
            let (env_t, _) = check_block(push_scope(env), then_block@, ret);
            lemma_pop_after_push(env, env_t);
            match else_block {
                Some(eb) => {
                    lemma_check_block_frame(push_scope(env), eb@, ret);
                    let (env_e, _) = check_block(push_scope(env), eb@, ret);
                    lemma_pop_after_push(env, env_e);
                },
                None => {},
            }
        },
        Stmt::While { body, .. } => {
            let d = with_depth(env, env.loop_depth + 1);
            lemma_check_block_frame(push_scope(d), body@, ret);
            lemma_pop_after_push(d, check_block(push_scope(d), body@, ret).0);
        },
        Stmt::For { var, body, .. } => {
            let d = with_depth(env, env.loop_depth + 1);
            let env1 = push_scope(d);
            let env1 = Env { scopes: declare(env1.scopes, var@, (Ty::Int64, false)), ..env1 };
            lemma_check_block_frame(env1, body@, ret);
            let b = check_block(env1, body@, ret).0;
            assert(same_frame(push_scope(d), env1));
            assert forall|i: int| 0 <= i < b.scopes.len() - 1 implies #[trigger] push_scope(d).scopes[i]
                == b.scopes[i] by {
                assert(env1.scopes[i] == b.scopes[i]);
            }
            lemma_pop_after_push(d, b);
        },
        Stmt::GpuBlock(body) => {
            let g = with_gpu(env, true);
            lemma_check_block_frame(push_scope(g), body@, ret);
            lemma_pop_after_push(g, check_block(push_scope(g), body@, ret).0);
        },
        _ => {},
    }
}

/// `return e` in a function returning `ret`: the errors of `e`, and then,
/// when `ret` is not `void` and the type of `e` is known and differs from
/// `ret`, one mismatch naming both types; nothing else, and the environment
/// stays as it was. `return;` in a function that is not `void` is a mismatch
/// with `void`.
pub proof fn law_return_matches_the_declared_type(env: Env, e: Expr, ret: Ty)
    ensures
        ({
            let (at, ae) = infer(env, &e);
            let r = check_stmt(env, &Stmt::Return(Some(e)), ret);
            &&& r.0 == env
            &&& (ret != Ty::Void && at != Ty::Unknown && at != ret) ==> r.1 == ae.push(
                "Return type mismatch: expected `"@ + ty_name(ret) + "`, got `"@ + ty_name(at) + "`"@,
            )
            &&& (ret == Ty::Void || at == Ty::Unknown || at == ret) ==> r.1 == ae
        }),
        ret != Ty::Void ==> check_stmt(env, &Stmt::Return(None), ret).1 == seq![
            "Return type mismatch: expected `"@ + ty_name(ret) + "`, got `void`"@,
        ],
        ret == Ty::Void ==> check_stmt(env, &Stmt::Return(None), ret).1 == Seq::<Seq<char>>::empty(),
{
    let (at, ae) = infer(env, &e);
    assert(ae + seq![msg_return(ret, at)] =~= ae.push(msg_return(ret, at)));
    reveal_strlit("Return type mismatch: expected ");
    reveal_strlit("`");
    reveal_strlit(", got ");
    reveal_strlit("Return type mismatch: expected `");
    reveal_strlit("`, got `");
    reveal_strlit("`, got `void`");
    reveal_strlit("void");
    assert(msg_return(ret, at) =~= "Return type mismatch: expected `"@ + ty_name(ret) + "`, got `"@ + ty_name(at) + "`"@);
    assert(ae + Seq::<Seq<char>>::empty() =~= ae);
    assert(ty_name(Ty::Void) == "void"@);
    assert(msg_return(ret, Ty::Void) =~= "Return type mismatch: expected `"@ + ty_name(ret) + "`, got `void`"@);
    assert(Seq::<Seq<char>>::empty() + seq![msg_return(ret, Ty::Void)] =~= seq![msg_return(ret, Ty::Void)]);
}


/// `s` begins with `p`.
pub open spec fn begins_with(s: Seq<Seq<char>>, p: Seq<Seq<char>>) -> bool {
    p.len() <= s.len() && s.subrange(0, p.len() as int) == p
}

/// The condition of an `if` or a `while` is checked first: its own errors,
/// then one error when its type is known and neither `bool` nor `int64`;
/// the errors of the blocks follow.
pub proof fn law_conditions_are_bool_or_int(env: Env, s: Stmt, ret: Ty)
    ensures
        s matches Stmt::If { cond, .. } ==> ({
            let (ct, ce) = infer(env, &cond);
            begins_with(check_stmt(env, &s, ret).1, ce + (if ct != Ty::Bool && ct != Ty::Int64
                && ct != Ty::Unknown {
                seq![msg_cond("if"@, ct)]
            } else {
                Seq::<Seq<char>>::empty()
            }))
        }),
        s matches Stmt::While { cond, .. } ==> ({
            let (ct, ce) = infer(env, &cond);
            begins_with(check_stmt(env, &s, ret).1, ce + (if ct != Ty::Bool && ct != Ty::Int64
                && ct != Ty::Unknown {
                seq![msg_cond("while"@, ct)]
            } else {
                Seq::<Seq<char>>::empty()
            }))
        }),
{
    match s {
        Stmt::If { cond, then_block, else_block } => {
            let (ct, ce) = infer(env, &cond);
            let e1 = ce + if_then(!cond_ok(ct), seq![msg_cond("if"@, ct)]);
            let (env_t, te) = check_block(push_scope(env), then_block@, ret);
            let env2 = pop_scope(env_t);
            match else_block {
                Some(eb) => {
                    let (env_e, ee) = check_block(push_scope(env2), eb@, ret);
                    assert(e1 + te + ee =~= e1 + (te + ee));
                    assert(check_stmt(env, &s, ret).1 == e1 + (te + ee));
                    assert((e1 + (te + ee)).subrange(0, e1.len() as int) =~= e1);
                },
                None => {
                    assert(check_stmt(env, &s, ret).1 == e1 + te);
                    assert((e1 + te).subrange(0, e1.len() as int) =~= e1);
                },
            }
        },
        Stmt::While { cond, body } => {
            let (ct, ce) = infer(env, &cond);
            let e1 = ce + if_then(!cond_ok(ct), seq![msg_cond("while"@, ct)]);
            let (env_b, be) = check_block(push_scope(with_depth(env, env.loop_depth + 1)), body@, ret);
            assert(check_stmt(env, &s, ret).1 == e1 + be);
            assert((e1 + be).subrange(0, e1.len() as int) =~= e1);
        },
        _ => {},
    }
}

/// The bounds of a `for` range must be `int64`: after their own errors, one
/// error for a start of another known type and one for such an end.
pub proof fn law_range_bounds_are_int(env: Env, s: Stmt, ret: Ty)
    ensures
        s matches Stmt::For { start, end, .. } ==> ({
            let (st, se) = infer(env, &start);
            let (et, ee) = infer(env, &end);
            begins_with(check_stmt(env, &s, ret).1, se + ee + (if st != Ty::Int64 && st
                != Ty::Unknown {
                seq![msg_range("start"@, st)]
            } else {
                Seq::<Seq<char>>::empty()
            }) + (if et != Ty::Int64 && et != Ty::Unknown {
                seq![msg_range("end"@, et)]
            } else {
                Seq::<Seq<char>>::empty()
            }))
        }),
{
    match s {
        Stmt::For { var, start, end, body } => {
            let (st, se) = infer(env, &start);
            let (et, ee) = infer(env, &end);
            let e1 = se + ee + if_then(st != Ty::Int64 && st != Ty::Unknown, seq![msg_range("start"@, st)])
                + if_then(et != Ty::Int64 && et != Ty::Unknown, seq![msg_range("end"@, et)]);
            let env1 = push_scope(with_depth(env, env.loop_depth + 1));
            let env1 = Env { scopes: declare(env1.scopes, var@, (Ty::Int64, false)), ..env1 };
            let (env_b, be) = check_block(env1, body@, ret);
            assert(check_stmt(env, &s, ret).1 == e1 + be);
            assert((e1 + be).subrange(0, e1.len() as int) =~= e1);
        },
        _ => {},
    }
}

/// Arithmetic on two operands of different known types is one mismatch
/// error after the operands' own, and has the type of the left operand;
/// comparisons and `&&`, `||` have type `bool`.
pub proof fn law_binary_operand_types(env: Env, op: BinOp, lhs: Expr, rhs: Expr)
    ensures
        ({
            let e = Expr::BinOp { op, lhs: Box::new(lhs), rhs: Box::new(rhs) };
            let (lt, le) = infer(env, &lhs);
            let (rt, re) = infer(env, &rhs);
            &&& (op is Add || op is Sub || op is Mul || op is Div || op is Mod) ==> infer(env, &e).0 == lt
            &&& (op is Add || op is Sub || op is Mul || op is Div || op is Mod) && lt != rt && lt != Ty::Unknown && rt
                != Ty::Unknown ==> infer(env, &e).1 == le + re + seq![msg_type_mismatch(lt, rt)]
            &&& (op is Add || op is Sub || op is Mul || op is Div || op is Mod) && (lt == rt || lt == Ty::Unknown || rt
                == Ty::Unknown) ==> infer(env, &e).1 == le + re
            &&& !(op is Add || op is Sub || op is Mul || op is Div || op is Mod) ==> infer(env, &e).0 == Ty::Bool
        }),
{
}

} // verus!
