//! The syntax tree of an Ionic program, and the resolved types of its values.
//!
//! Number literals with a fractional part are kept as decimal text
//! (`FloatLit`, and the fraction of `@cpu(..)` / `@gpu(..)`); their binary
//! value and its renderings are computed outside the library, which hands
//! them in as text.
use vstd::prelude::*;
use crate::text::{copy_string, same_text};

verus! {

/// Hardware placement annotation on any declaration.
/// The fraction of `CpuFrac` / `GpuFrac` is decimal text, as for `Expr::FloatLit`.
#[derive(Debug)]
pub enum HwAnnotation {
    Cpu,
    Gpu,
    CpuFrac(String),
    GpuFrac(String),
}

impl HwAnnotation {
    pub open spec fn spec_is_gpu(&self) -> bool {
        self is Gpu || self is GpuFrac
    }

    pub open spec fn spec_is_cpu(&self) -> bool {
        self is Cpu || self is CpuFrac
    }

    /// Placed on the GPU (whole or a fraction of it).
    pub fn is_gpu(&self) -> (r: bool)
        ensures
            r == self.spec_is_gpu(),
    {
        match self {
            HwAnnotation::Gpu => true,
            HwAnnotation::GpuFrac(_) => true,
            _ => false,
        }
    }

    /// Placed on the CPU (whole or a fraction of it).
    pub fn is_cpu(&self) -> (r: bool)
        ensures
            r == self.spec_is_cpu(),
    {
        match self {
            HwAnnotation::Cpu => true,
            HwAnnotation::CpuFrac(_) => true,
            _ => false,
        }
    }

    /// The decimal text of the fraction, `None` for a whole device.
    pub fn frac_text(&self) -> (r: Option<&String>)
        ensures
            match self {
                HwAnnotation::CpuFrac(f) => r == Some(f),
                HwAnnotation::GpuFrac(f) => r == Some(f),
                _ => r is None,
            },
    {
        match self {
            HwAnnotation::CpuFrac(f) => Some(f),
            HwAnnotation::GpuFrac(f) => Some(f),
            _ => None,
        }
    }

    pub fn copy(&self) -> (r: HwAnnotation)
        ensures
            r == *self,
    {
        match self {
            HwAnnotation::Cpu => HwAnnotation::Cpu,
            HwAnnotation::Gpu => HwAnnotation::Gpu,
            HwAnnotation::CpuFrac(f) => HwAnnotation::CpuFrac(f.clone()),
            HwAnnotation::GpuFrac(f) => HwAnnotation::GpuFrac(f.clone()),
        }
    }
}

/// Hardware target for tensor/model memory.
#[derive(Debug, Clone, Copy, PartialEq, Eq, Structural)]
pub enum HwTarget {
    Cpu,
    Gpu,
}

/// ML model format (for the `load_model` hint; the runtime also detects it by extension).
#[derive(Debug, Clone, Copy, PartialEq, Eq, Structural)]
pub enum ModelFormat {
    Auto,
    Pt,
    Onnx,
    H5,
    MlModel,
}

/// Resolved type in the type system.
#[derive(Debug)]
pub enum Type {
    Int64,
    Float64,
    Bool,
    Str,
    Tensor(Box<HwTarget>),
    Model(Box<HwTarget>),
    Array(Box<Type>),
    Struct(String),
    Void,
    Unknown,
}

/// The mathematical value of a `Type`: struct names are character sequences.
pub enum Ty {
    Int64,
    Float64,
    Bool,
    Str,
    Tensor(HwTarget),
    Model(HwTarget),
    Array(Box<Ty>),
    Struct(Seq<char>),
    Void,
    Unknown,
}

pub open spec fn type_view(t: &Type) -> Ty
    decreases t,
{
    match t {
        Type::Int64 => Ty::Int64,
        Type::Float64 => Ty::Float64,
        Type::Bool => Ty::Bool,
        Type::Str => Ty::Str,
        Type::Tensor(hw) => Ty::Tensor(**hw),
        Type::Model(hw) => Ty::Model(**hw),
        Type::Array(inner) => Ty::Array(Box::new(type_view(inner))),
        Type::Struct(n) => Ty::Struct(n@),
        Type::Void => Ty::Void,
        Type::Unknown => Ty::Unknown,
    }
}

impl View for Type {
    type V = Ty;

    open spec fn view(&self) -> Ty {
        type_view(self)
    }
}

/// How a type is written in messages: `int64`, `tensor@gpu`, `[string]`, `?`, ...
pub open spec fn ty_name(t: Ty) -> Seq<char>
    decreases t,
{
    match t {
        Ty::Int64 => "int64"@,
        Ty::Float64 => "float64"@,
        Ty::Bool => "bool"@,
        Ty::Str => "string"@,
        Ty::Tensor(HwTarget::Cpu) => "tensor@cpu"@,
        Ty::Tensor(HwTarget::Gpu) => "tensor@gpu"@,
        Ty::Model(HwTarget::Cpu) => "model@cpu"@,
        Ty::Model(HwTarget::Gpu) => "model@gpu"@,
        Ty::Array(inner) => "["@ + ty_name(*inner) + "]"@,
        Ty::Struct(n) => n,
        Ty::Void => "void"@,
        Ty::Unknown => "?"@,
    }
}

impl Type {
    /// An equal copy.
    pub fn copy(&self) -> (r: Type)
        ensures
            r@ == self@,
        decreases self,
    {
        match self {
            Type::Int64 => Type::Int64,
            Type::Float64 => Type::Float64,
            Type::Bool => Type::Bool,
            Type::Str => Type::Str,
            Type::Tensor(hw) => Type::Tensor(Box::new(**hw)),
            Type::Model(hw) => Type::Model(Box::new(**hw)),
            Type::Array(inner) => Type::Array(Box::new(inner.copy())),
            Type::Struct(n) => Type::Struct(copy_string(n)),
            Type::Void => Type::Void,
            Type::Unknown => Type::Unknown,
        }
    }

    /// Structural equality of types.
    pub fn same(&self, other: &Type) -> (r: bool)
        ensures
            r == (self@ == other@),
        decreases self,
    {
        match (self, other) {
            (Type::Int64, Type::Int64) => true,
            (Type::Float64, Type::Float64) => true,
            (Type::Bool, Type::Bool) => true,
            (Type::Str, Type::Str) => true,
            (Type::Tensor(a), Type::Tensor(b)) => **a == **b,
            (Type::Model(a), Type::Model(b)) => **a == **b,
            (Type::Array(a), Type::Array(b)) => {
                let r = a.same(b);
                proof {
                    if r {
                        assert(self@ == other@);
                    } else {
                        assert(type_view(self)->Array_0 != type_view(other)->Array_0);
                    }
                }
                r
            },
            (Type::Struct(a), Type::Struct(b)) => same_text(a, b),
            (Type::Void, Type::Void) => true,
            (Type::Unknown, Type::Unknown) => true,
            _ => false,
        }
    }

    pub fn is_unknown(&self) -> (r: bool)
        ensures
            r == (self@ == Ty::Unknown),
    {
        match self {
            Type::Unknown => true,
            _ => false,
        }
    }

    pub fn is_void(&self) -> (r: bool)
        ensures
            r == (self@ == Ty::Void),
    {
        match self {
            Type::Void => true,
            _ => false,
        }
    }

    /// Appends the name of the type as it appears in messages.
    pub fn push_name(&self, s: &mut String)
        ensures
            final(s)@ == old(s)@ + ty_name(self@),
        decreases self,
    {
        proof {
            reveal_strlit("int64");
            reveal_strlit("float64");
            reveal_strlit("bool");
            reveal_strlit("string");
            reveal_strlit("tensor@cpu");
            reveal_strlit("tensor@gpu");
            reveal_strlit("model@cpu");
            reveal_strlit("model@gpu");
            reveal_strlit("[");
            reveal_strlit("]");
            reveal_strlit("void");
            reveal_strlit("?");
        }
        match self {
            Type::Int64 => s.append("int64"),
            Type::Float64 => s.append("float64"),
            Type::Bool => s.append("bool"),
            Type::Str => s.append("string"),
            Type::Tensor(hw) => match **hw {
                HwTarget::Cpu => s.append("tensor@cpu"),
                HwTarget::Gpu => s.append("tensor@gpu"),
            },
            Type::Model(hw) => match **hw {
                HwTarget::Cpu => s.append("model@cpu"),
                HwTarget::Gpu => s.append("model@gpu"),
            },
            Type::Array(inner) => {
                s.append("[");
                inner.push_name(s);
                s.append("]");
                assert(final(s)@ =~= old(s)@ + ty_name(self@));
            },
            Type::Struct(n) => s.append(n.as_str()),
            Type::Void => s.append("void"),
            Type::Unknown => s.append("?"),
        }
    }

    /// The name of the type as it appears in messages (`int64`, `[float64]`, ...).
    pub fn name_text(&self) -> (r: String)
        ensures
            r@ == ty_name(self@),
    {
        let mut s = String::new();
        self.push_name(&mut s);
        assert(s@ =~= ty_name(self@));
        s
    }
}

/// Type annotation as written in source (before resolution).
#[derive(Debug)]
pub enum TypeAnnotation {
    Int64,
    Float64,
    Bool,
    Str,
    Tensor(Option<HwTarget>),
    Model(Option<HwTarget>),
    Array(Box<TypeAnnotation>),
    Named(String),
    Void,
}

/// The type an annotation denotes: a tensor or model without placement is on
/// the CPU, and a named type is a struct.
pub open spec fn annotation_type(a: &TypeAnnotation) -> Ty
    decreases a,
{
    match a {
        TypeAnnotation::Int64 => Ty::Int64,
        TypeAnnotation::Float64 => Ty::Float64,
        TypeAnnotation::Bool => Ty::Bool,
        TypeAnnotation::Str => Ty::Str,
        TypeAnnotation::Tensor(Some(hw)) => Ty::Tensor(*hw),
        TypeAnnotation::Tensor(None) => Ty::Tensor(HwTarget::Cpu),
        TypeAnnotation::Model(Some(hw)) => Ty::Model(*hw),
        TypeAnnotation::Model(None) => Ty::Model(HwTarget::Cpu),
        TypeAnnotation::Array(inner) => Ty::Array(Box::new(annotation_type(inner))),
        TypeAnnotation::Named(n) => Ty::Struct(n@),
        TypeAnnotation::Void => Ty::Void,
    }
}

impl TypeAnnotation {
    /// Resolves the annotation to a type.
    pub fn to_type(&self) -> (r: Type)
        ensures
            r@ == annotation_type(self),
        decreases self,
    {
        match self {
            TypeAnnotation::Int64 => Type::Int64,
            TypeAnnotation::Float64 => Type::Float64,
            TypeAnnotation::Bool => Type::Bool,
            TypeAnnotation::Str => Type::Str,
            TypeAnnotation::Tensor(Some(hw)) => Type::Tensor(Box::new(*hw)),
            TypeAnnotation::Tensor(None) => Type::Tensor(Box::new(HwTarget::Cpu)),
            TypeAnnotation::Model(Some(hw)) => Type::Model(Box::new(*hw)),
            TypeAnnotation::Model(None) => Type::Model(Box::new(HwTarget::Cpu)),
            TypeAnnotation::Array(inner) => Type::Array(Box::new(inner.to_type())),
            TypeAnnotation::Named(n) => Type::Struct(copy_string(n)),
            TypeAnnotation::Void => Type::Void,
        }
    }

    pub fn copy(&self) -> (r: TypeAnnotation)
        ensures
            annotation_type(&r) == annotation_type(self),
        decreases self,
    {
        match self {
            TypeAnnotation::Int64 => TypeAnnotation::Int64,
            TypeAnnotation::Float64 => TypeAnnotation::Float64,
            TypeAnnotation::Bool => TypeAnnotation::Bool,
            TypeAnnotation::Str => TypeAnnotation::Str,
            TypeAnnotation::Tensor(hw) => TypeAnnotation::Tensor(*hw),
            TypeAnnotation::Model(hw) => TypeAnnotation::Model(*hw),
            TypeAnnotation::Array(inner) => TypeAnnotation::Array(Box::new(inner.copy())),
            TypeAnnotation::Named(n) => TypeAnnotation::Named(copy_string(n)),
            TypeAnnotation::Void => TypeAnnotation::Void,
        }
    }
}

/// Binary operators.
#[derive(Debug, Clone, Copy, PartialEq, Eq, Structural)]
pub enum BinOp {
    Add,
    Sub,
    Mul,
    Div,
    Mod,
    EqEq,
    NotEq,
    Lt,
    Gt,
    LtEq,
    GtEq,
    And,
    Or,
}

/// Unary operators.
#[derive(Debug, Clone, Copy, PartialEq, Eq, Structural)]
pub enum UnOp {
    Neg,
    Not,
}

/// A struct field in a struct definition.
#[derive(Debug)]
pub struct FieldDef {
    pub name: String,
    pub ty: TypeAnnotation,
}

/// Expression nodes.
#[derive(Debug)]
pub enum Expr {
    IntLit(i64),
    /// Decimal text of a literal with a fractional part: as written, or as
    /// the renderings handed to the parser write its value.
    FloatLit(String),
    StringLit(String),
    BoolLit(bool),
    Ident(String),
    BinOp { op: BinOp, lhs: Box<Expr>, rhs: Box<Expr> },
    UnOp { op: UnOp, expr: Box<Expr> },
    Call { callee: String, args: Vec<Expr> },
    MethodCall { obj: Box<Expr>, method: String, args: Vec<Expr> },
    StructLit { name: String, fields: Vec<(String, Expr)> },
    FieldAccess { obj: Box<Expr>, field: String },
    Index { obj: Box<Expr>, idx: Box<Expr> },
    ArrayLit(Vec<Expr>),
    ToGpu(Box<Expr>),
    ToCpu(Box<Expr>),
}

/// A function parameter (optionally annotated with placement).
#[derive(Debug)]
pub struct Param {
    pub name: String,
    pub ty: TypeAnnotation,
    pub hw: Option<HwAnnotation>,
}

/// How an import names the symbols of its module.
#[derive(Debug)]
pub enum ImportKind {
    /// `import std.math.*;`
    Glob,
    /// `import std.str.{contains, trim};`
    Named(Vec<String>),
    /// `import std.io;`
    Module,
}

/// An import declaration: the dotted module path and which symbols it admits.
#[derive(Debug)]
pub struct Import {
    pub path: Vec<String>,
    pub kind: ImportKind,
}

/// Statement nodes.
#[derive(Debug)]
pub enum Stmt {
    Let {
        mutable: bool,
        name: String,
        ty: Option<TypeAnnotation>,
        init: Expr,
        hw: Option<HwAnnotation>,
    },
    Assign { target: AssignTarget, value: Expr },
    ExprStmt(Expr),
    Return(Option<Expr>),
    If { cond: Expr, then_block: Vec<Stmt>, else_block: Option<Vec<Stmt>> },
    While { cond: Expr, body: Vec<Stmt> },
    For { var: String, start: Expr, end: Expr, body: Vec<Stmt> },
    GpuBlock(Vec<Stmt>),
    Import(Import),
    Break,
    Continue,
}

/// Assignment targets.
#[derive(Debug)]
pub enum AssignTarget {
    Ident(String),
    Field(Box<Expr>, String),
    Index(Box<Expr>, Box<Expr>),
}

/// Struct definition (optionally annotated with placement and documented).
#[derive(Debug)]
pub struct StructDef {
    pub name: String,
    pub fields: Vec<FieldDef>,
    pub hw: Option<HwAnnotation>,
    pub doc: Option<String>,
}

/// Top-level function definition (optionally annotated with placement and documented).
#[derive(Debug)]
pub struct FnDef {
    pub name: String,
    pub params: Vec<Param>,
    pub ret_ty: TypeAnnotation,
    pub body: Vec<Stmt>,
    pub line: usize,
    pub hw: Option<HwAnnotation>,
    pub doc: Option<String>,
}

/// Root of the syntax tree.
#[derive(Debug)]
pub struct Program {
    pub imports: Vec<Import>,
    pub structs: Vec<StructDef>,
    pub fns: Vec<FnDef>,
    pub top_level: Vec<Stmt>,
}


// ── The syntax tree as mathematical values ──────────────────────────────────

/// Placement annotation with the fraction's text as a character sequence.
pub enum HwV {
    Cpu,
    Gpu,
    CpuFrac(Seq<char>),
    GpuFrac(Seq<char>),
}

pub open spec fn hw_view(h: &HwAnnotation) -> HwV {
    match h {
        HwAnnotation::Cpu => HwV::Cpu,
        HwAnnotation::Gpu => HwV::Gpu,
        HwAnnotation::CpuFrac(f) => HwV::CpuFrac(f@),
        HwAnnotation::GpuFrac(f) => HwV::GpuFrac(f@),
    }
}

pub open spec fn opt_hw_view(h: &Option<HwAnnotation>) -> Option<HwV> {
    match h {
        Some(a) => Some(hw_view(a)),
        None => None,
    }
}

pub enum TyAnnV {
    Int64,
    Float64,
    Bool,
    Str,
    Tensor(Option<HwTarget>),
    Model(Option<HwTarget>),
    Array(Box<TyAnnV>),
    Named(Seq<char>),
    Void,
}

pub open spec fn ann_view(a: &TypeAnnotation) -> TyAnnV
    decreases a,
{
    match a {
        TypeAnnotation::Int64 => TyAnnV::Int64,
        TypeAnnotation::Float64 => TyAnnV::Float64,
        TypeAnnotation::Bool => TyAnnV::Bool,
        TypeAnnotation::Str => TyAnnV::Str,
        TypeAnnotation::Tensor(h) => TyAnnV::Tensor(*h),
        TypeAnnotation::Model(h) => TyAnnV::Model(*h),
        TypeAnnotation::Array(inner) => TyAnnV::Array(Box::new(ann_view(inner))),
        TypeAnnotation::Named(n) => TyAnnV::Named(n@),
        TypeAnnotation::Void => TyAnnV::Void,
    }
}

pub enum ExprV {
    IntLit(i64),
    FloatLit(Seq<char>),
    StringLit(Seq<char>),
    BoolLit(bool),
    Ident(Seq<char>),
    BinOp(BinOp, Box<ExprV>, Box<ExprV>),
    UnOp(UnOp, Box<ExprV>),
    Call(Seq<char>, Seq<ExprV>),
    MethodCall(Box<ExprV>, Seq<char>, Seq<ExprV>),
    StructLit(Seq<char>, Seq<(Seq<char>, ExprV)>),
    FieldAccess(Box<ExprV>, Seq<char>),
    Index(Box<ExprV>, Box<ExprV>),
    ArrayLit(Seq<ExprV>),
    ToGpu(Box<ExprV>),
    ToCpu(Box<ExprV>),
}

pub open spec fn expr_view(e: &Expr) -> ExprV
    decreases e, 1nat,
{
    match e {
        Expr::IntLit(n) => ExprV::IntLit(*n),
        Expr::FloatLit(t) => ExprV::FloatLit(t@),
        Expr::StringLit(s) => ExprV::StringLit(s@),
        Expr::BoolLit(b) => ExprV::BoolLit(*b),
        Expr::Ident(n) => ExprV::Ident(n@),
        Expr::BinOp { op, lhs, rhs } => ExprV::BinOp(*op, Box::new(expr_view(lhs)), Box::new(expr_view(rhs))),
        Expr::UnOp { op, expr } => ExprV::UnOp(*op, Box::new(expr_view(expr))),
        Expr::Call { callee, args } => ExprV::Call(callee@, exprs_view(args@)),
        Expr::MethodCall { obj, method, args } => ExprV::MethodCall(
            Box::new(expr_view(obj)),
            method@,
            exprs_view(args@),
        ),
        Expr::StructLit { name, fields } => ExprV::StructLit(name@, inits_view(fields@)),
        Expr::FieldAccess { obj, field } => ExprV::FieldAccess(Box::new(expr_view(obj)), field@),
        Expr::Index { obj, idx } => ExprV::Index(Box::new(expr_view(obj)), Box::new(expr_view(idx))),
        Expr::ArrayLit(es) => ExprV::ArrayLit(exprs_view(es@)),
        Expr::ToGpu(x) => ExprV::ToGpu(Box::new(expr_view(x))),
        Expr::ToCpu(x) => ExprV::ToCpu(Box::new(expr_view(x))),
    }
}

pub open spec fn exprs_view(s: Seq<Expr>) -> Seq<ExprV>
    decreases s, 0nat,
{
    if s.len() == 0 {
        seq![]
    } else {
        exprs_view(s.drop_last()).push(expr_view(&s.last()))
    }
}

pub open spec fn inits_view(s: Seq<(String, Expr)>) -> Seq<(Seq<char>, ExprV)>
    decreases s, 0nat,
{
    if s.len() == 0 {
        seq![]
    } else {
        inits_view(s.drop_last()).push((s.last().0@, expr_view(&s.last().1)))
    }
}

pub enum TargetV {
    Ident(Seq<char>),
    Field(Box<ExprV>, Seq<char>),
    Index(Box<ExprV>, Box<ExprV>),
}

pub open spec fn target_view(t: &AssignTarget) -> TargetV {
    match t {
        AssignTarget::Ident(n) => TargetV::Ident(n@),
        AssignTarget::Field(obj, f) => TargetV::Field(Box::new(expr_view(obj)), f@),
        AssignTarget::Index(obj, idx) => TargetV::Index(Box::new(expr_view(obj)), Box::new(expr_view(idx))),
    }
}

pub enum ImportKindV {
    Glob,
    Named(Seq<Seq<char>>),
    Module,
}

pub struct ImportV {
    pub path: Seq<Seq<char>>,
    pub kind: ImportKindV,
}

pub open spec fn names_view(s: Seq<String>) -> Seq<Seq<char>> {
    Seq::new(s.len(), |i: int| s[i]@)
}

pub open spec fn import_view(i: &Import) -> ImportV {
    ImportV {
        path: names_view(i.path@),
        kind: match &i.kind {
            ImportKind::Glob => ImportKindV::Glob,
            ImportKind::Named(ns) => ImportKindV::Named(names_view(ns@)),
            ImportKind::Module => ImportKindV::Module,
        },
    }
}

pub enum StmtV {
    Let { mutable: bool, name: Seq<char>, ty: Option<TyAnnV>, init: ExprV, hw: Option<HwV> },
    Assign(TargetV, ExprV),
    ExprStmt(ExprV),
    Return(Option<ExprV>),
    If(ExprV, Seq<StmtV>, Option<Seq<StmtV>>),
    While(ExprV, Seq<StmtV>),
    For(Seq<char>, ExprV, ExprV, Seq<StmtV>),
    GpuBlock(Seq<StmtV>),
    Import(ImportV),
    Break,
    Continue,
}

pub open spec fn stmt_view(s: &Stmt) -> StmtV
    decreases s, 1nat,
{
    match s {
        Stmt::Let { mutable, name, ty, init, hw } => StmtV::Let {
            mutable: *mutable,
            name: name@,
            ty: match ty {
                Some(a) => Some(ann_view(a)),
                None => None,
            },
            init: expr_view(init),
            hw: opt_hw_view(hw),
        },
        Stmt::Assign { target, value } => StmtV::Assign(target_view(target), expr_view(value)),
        Stmt::ExprStmt(e) => StmtV::ExprStmt(expr_view(e)),
        Stmt::Return(x) => StmtV::Return(
            match x {
                Some(e) => Some(expr_view(e)),
                None => None,
            },
        ),
        Stmt::If { cond, then_block, else_block } => StmtV::If(
            expr_view(cond),
            stmts_view(then_block@),
            match else_block {
                Some(b) => Some(stmts_view(b@)),
                None => None,
            },
        ),
        Stmt::While { cond, body } => StmtV::While(expr_view(cond), stmts_view(body@)),
        Stmt::For { var, start, end, body } => StmtV::For(var@, expr_view(start), expr_view(end), stmts_view(body@)),
        Stmt::GpuBlock(b) => StmtV::GpuBlock(stmts_view(b@)),
        Stmt::Import(i) => StmtV::Import(import_view(i)),
        Stmt::Break => StmtV::Break,
        Stmt::Continue => StmtV::Continue,
    }
}

pub open spec fn stmts_view(s: Seq<Stmt>) -> Seq<StmtV>
    decreases s, 0nat,
{
    if s.len() == 0 {
        seq![]
    } else {
        stmts_view(s.drop_last()).push(stmt_view(&s.last()))
    }
}

pub struct ParamV {
    pub name: Seq<char>,
    pub ty: TyAnnV,
    pub hw: Option<HwV>,
}

pub open spec fn params_view(s: Seq<Param>) -> Seq<ParamV> {
    Seq::new(s.len(), |i: int| ParamV { name: s[i].name@, ty: ann_view(&s[i].ty), hw: opt_hw_view(&s[i].hw) })
}

pub open spec fn field_defs_view(s: Seq<FieldDef>) -> Seq<(Seq<char>, TyAnnV)> {
    Seq::new(s.len(), |i: int| (s[i].name@, ann_view(&s[i].ty)))
}

pub open spec fn opt_text(o: &Option<String>) -> Option<Seq<char>> {
    match o {
        Some(s) => Some(s@),
        None => None,
    }
}

pub struct StructV {
    pub name: Seq<char>,
    pub fields: Seq<(Seq<char>, TyAnnV)>,
    pub hw: Option<HwV>,
    pub doc: Option<Seq<char>>,
}

pub open spec fn struct_view(s: &StructDef) -> StructV {
    StructV { name: s.name@, fields: field_defs_view(s.fields@), hw: opt_hw_view(&s.hw), doc: opt_text(&s.doc) }
}

pub struct FnV {
    pub name: Seq<char>,
    pub params: Seq<ParamV>,
    pub ret_ty: TyAnnV,
    pub body: Seq<StmtV>,
    pub line: nat,
    pub hw: Option<HwV>,
    pub doc: Option<Seq<char>>,
}

pub open spec fn fn_view(f: &FnDef) -> FnV {
    FnV {
        name: f.name@,
        params: params_view(f.params@),
        ret_ty: ann_view(&f.ret_ty),
        body: stmts_view(f.body@),
        line: f.line as nat,
        hw: opt_hw_view(&f.hw),
        doc: opt_text(&f.doc),
    }
}

pub struct ProgramV {
    pub imports: Seq<ImportV>,
    pub structs: Seq<StructV>,
    pub fns: Seq<FnV>,
    pub top_level: Seq<StmtV>,
}

/// A program's value from the values of its parts.
pub open spec fn parts_view(i: Seq<Import>, s: Seq<StructDef>, f: Seq<FnDef>, t: Seq<Stmt>) -> ProgramV {
    ProgramV {
        imports: Seq::new(i.len(), |k: int| import_view(&i[k])),
        structs: Seq::new(s.len(), |k: int| struct_view(&s[k])),
        fns: Seq::new(f.len(), |k: int| fn_view(&f[k])),
        top_level: stmts_view(t),
    }
}

pub open spec fn program_view(p: &Program) -> ProgramV {
    parts_view(p.imports@, p.structs@, p.fns@, p.top_level@)
}


impl View for FnDef {
    type V = FnV;

    open spec fn view(&self) -> FnV {
        fn_view(self)
    }
}

impl View for StructDef {
    type V = StructV;

    open spec fn view(&self) -> StructV {
        struct_view(self)
    }
}

impl View for Stmt {
    type V = StmtV;

    open spec fn view(&self) -> StmtV {
        stmt_view(self)
    }
}

} // verus!
