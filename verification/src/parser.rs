//! The parser: a recursive-descent parser from tokens to the syntax tree.
//!
//! Its grammar is stated below as spec functions over the token values
//! (kind, line, column): each takes a position and gives the value parsed and
//! the position after it, or the error message. The executable parser follows
//! the same functions and is proved to give exactly their results.
use vstd::prelude::*;
use crate::ast::{
    HwAnnotation, HwTarget, TypeAnnotation, BinOp, UnOp, FieldDef, Expr, Param, ImportKind, Import, Stmt,
    AssignTarget, StructDef, FnDef, Program, HwV, TyAnnV, ExprV, TargetV, ImportKindV, ImportV, StmtV, ParamV,
    StructV, FnV, ProgramV, parts_view, hw_view, opt_hw_view, ann_view, expr_view, exprs_view, inits_view, target_view,
    import_view, names_view, stmt_view, stmts_view, params_view, field_defs_view, opt_text, struct_view, fn_view,
    program_view,
};
use crate::lexer::{Token, Tok, SpannedToken, Spanned, stok, stoks, tok_text};
use crate::text::{decimal, int_text, owned, text_is, copy_string, usize_text, i64_text};
use crate::table::Table;

verus! {

pub type Toks = Seq<(Tok, nat, nat)>;

/// Tokens the parser accepts: at least one, the last `EOF`.
pub open spec fn valid_toks(ts: Toks) -> bool {
    ts.len() > 0 && ts.last().0 == Tok::EOF
}

/// The token at a position; past the end, the last one.
pub open spec fn tok_at(ts: Toks, p: nat) -> Tok {
    if p < ts.len() {
        ts[p as int].0
    } else {
        ts.last().0
    }
}

pub open spec fn line_at(ts: Toks, p: nat) -> nat {
    if p < ts.len() {
        ts[p as int].1
    } else {
        ts.last().1
    }
}

/// Moving past a token; `EOF` is never passed.
pub open spec fn adv(ts: Toks, p: nat) -> nat {
    if tok_at(ts, p) == Tok::EOF {
        p
    } else {
        p + 1
    }
}

/// Where a loop continues after position `p` reached `q`: `q`, kept past `p`
/// and before the end.
pub open spec fn step_to(ts: Toks, p: nat, q: nat) -> nat {
    if q <= p {
        p + 1
    } else if q >= ts.len() {
        (ts.len() - 1) as nat
    } else {
        q
    }
}

/// Where parsing goes on after a part that began at `p` ended at `q`: `q`,
/// kept between `p` and the last token.
pub open spec fn keep(ts: Toks, p: nat, q: nat) -> nat {
    if q < p || q >= ts.len() {
        p
    } else {
        q
    }
}

/// A position from which parsing can go on.
pub open spec fn at(ts: Toks, p: nat) -> bool {
    valid_toks(ts) && p < ts.len()
}

// ── Messages ────────────────────────────────────────────────────────────────

pub open spec fn line_prefix(line: nat) -> Seq<char> {
    "Line "@ + decimal(line) + ": "@
}

pub open spec fn msg_expected(line: nat, exp: Tok, got: Tok) -> Seq<char> {
    line_prefix(line) + "expected `"@ + tok_text(exp) + "`, got `"@ + tok_text(got) + "`"@
}

pub open spec fn msg_expected_ident(line: nat, got: Tok) -> Seq<char> {
    line_prefix(line) + "expected identifier, got `"@ + tok_text(got) + "`"@
}

/// `which` is "gpu" or "cpu".
pub open spec fn msg_fraction(line: nat, which: Seq<char>, got: Tok) -> Seq<char> {
    line_prefix(line) + "expected fraction in @"@ + which + "(...), got `"@ + tok_text(got) + "`"@
}

pub open spec fn msg_import_kind(line: nat) -> Seq<char> {
    line_prefix(line) + "expected `*` or `{` after `.` in import"@
}

pub open spec fn msg_expected_type(line: nat, got: Tok) -> Seq<char> {
    line_prefix(line) + "expected type, got `"@ + tok_text(got) + "`"@
}

pub open spec fn msg_bad_target(line: nat) -> Seq<char> {
    line_prefix(line) + "invalid assignment target"@
}

pub open spec fn msg_unexpected(line: nat, got: Tok) -> Seq<char> {
    line_prefix(line) + "unexpected `"@ + tok_text(got) + "` in expression"@
}

// ── Single tokens ───────────────────────────────────────────────────────────

pub open spec fn expect_s(ts: Toks, p: nat, t: Tok) -> Result<nat, Seq<char>> {
    if tok_at(ts, p) == t {
        Ok(adv(ts, p))
    } else {
        Err(msg_expected(line_at(ts, p), t, tok_at(ts, p)))
    }
}

pub open spec fn expect_ident_s(ts: Toks, p: nat) -> Result<(Seq<char>, nat), Seq<char>> {
    match tok_at(ts, p) {
        Tok::Ident(s) => Ok((s, adv(ts, p))),
        t => Err(msg_expected_ident(line_at(ts, p), t)),
    }
}

/// A parsed value followed by a required token.
pub open spec fn then_expect<A>(ts: Toks, r: Result<(A, nat), Seq<char>>, t: Tok) -> Result<(A, nat), Seq<char>> {
    match r {
        Ok((a, p)) => match expect_s(ts, p, t) {
            Ok(p2) => Ok((a, p2)),
            Err(m) => Err(m),
        },
        Err(m) => Err(m),
    }
}

// ── Placement annotations and types ─────────────────────────────────────────

/// After `@gpu` / `@cpu`: an optional `(fraction)`.
pub open spec fn hw_tail_s(ts: Toks, p: nat, gpu: bool) -> Result<(Option<HwV>, nat), Seq<char>> {
    if tok_at(ts, p) == Tok::LParen {
        let p1 = adv(ts, p);
        let fr = match tok_at(ts, p1) {
            Tok::FloatLit(f) => Some(f),
            Tok::IntLit(n) => Some(int_text(n as int)),
            _ => None,
        };
        match fr {
            None => Err(
                msg_fraction(line_at(ts, p1), if gpu { "gpu"@ } else { "cpu"@ }, tok_at(ts, p1)),
            ),
            Some(f) => match expect_s(ts, adv(ts, p1), Tok::RParen) {
                Ok(p3) => Ok(
                    (
                        Some(
                            if gpu {
                                HwV::GpuFrac(f)
                            } else {
                                HwV::CpuFrac(f)
                            },
                        ),
                        p3,
                    ),
                ),
                Err(m) => Err(m),
            },
        }
    } else {
        Ok(
            (
                Some(
                    if gpu {
                        HwV::Gpu
                    } else {
                        HwV::Cpu
                    },
                ),
                p,
            ),
        )
    }
}

/// An optional placement annotation.
pub open spec fn hw_s(ts: Toks, p: nat) -> Result<(Option<HwV>, nat), Seq<char>> {
    match tok_at(ts, p) {
        Tok::AtGpu => hw_tail_s(ts, adv(ts, p), true),
        Tok::AtCpu => hw_tail_s(ts, adv(ts, p), false),
        _ => Ok((None, p)),
    }
}

/// `tensor` / `model` may be followed by a placement.
pub open spec fn placed_s(ts: Toks, p: nat) -> (Option<HwTarget>, nat) {
    match tok_at(ts, p) {
        Tok::AtGpu => (Some(HwTarget::Gpu), adv(ts, p)),
        Tok::AtCpu => (Some(HwTarget::Cpu), adv(ts, p)),
        _ => (None, p),
    }
}

pub open spec fn type_s(ts: Toks, p: nat) -> Result<(TyAnnV, nat), Seq<char>>
    decreases ts.len() - p,
{
    if !at(ts, p) {
        Err(seq![])
    } else {
        match tok_at(ts, p) {
            Tok::KwInt64 => Ok((TyAnnV::Int64, p + 1)),
            Tok::KwFloat64 => Ok((TyAnnV::Float64, p + 1)),
            Tok::KwBool => Ok((TyAnnV::Bool, p + 1)),
            Tok::KwString => Ok((TyAnnV::Str, p + 1)),
            Tok::KwVoid => Ok((TyAnnV::Void, p + 1)),
            Tok::KwTensor => {
                let (h, p2) = placed_s(ts, p + 1);
                Ok((TyAnnV::Tensor(h), p2))
            },
            Tok::KwModel => {
                let (h, p2) = placed_s(ts, p + 1);
                Ok((TyAnnV::Model(h), p2))
            },
            Tok::LBracket => match then_expect(ts, type_s(ts, p + 1), Tok::RBracket) {
                Ok((inner, p2)) => Ok((TyAnnV::Array(Box::new(inner)), p2)),
                Err(m) => Err(m),
            },
            Tok::Ident(n) => Ok((TyAnnV::Named(n), p + 1)),
            t => Err(msg_expected_type(line_at(ts, p), t)),
        }
    }
}

// ── Expressions ─────────────────────────────────────────────────────────────

/// The operator a token stands for at a binary precedence level: 0 `||`,
/// 1 `&&`, 2 `==` `!=`, 3 `<` `>` `<=` `>=`, 4 `+` `-`, 5 `*` `/` `%`.
pub open spec fn level_op(lv: nat, t: Tok) -> Option<BinOp> {
    if lv == 0 {
        if t == Tok::OrOr { Some(BinOp::Or) } else { None }
    } else if lv == 1 {
        if t == Tok::AndAnd { Some(BinOp::And) } else { None }
    } else if lv == 2 {
        match t {
            Tok::EqEq => Some(BinOp::EqEq),
            Tok::BangEq => Some(BinOp::NotEq),
            _ => None,
        }
    } else if lv == 3 {
        match t {
            Tok::Lt => Some(BinOp::Lt),
            Tok::Gt => Some(BinOp::Gt),
            Tok::LtEq => Some(BinOp::LtEq),
            Tok::GtEq => Some(BinOp::GtEq),
            _ => None,
        }
    } else if lv == 4 {
        match t {
            Tok::Plus => Some(BinOp::Add),
            Tok::Minus => Some(BinOp::Sub),
            _ => None,
        }
    } else {
        match t {
            Tok::Star => Some(BinOp::Mul),
            Tok::Slash => Some(BinOp::Div),
            Tok::Percent => Some(BinOp::Mod),
            _ => None,
        }
    }
}

pub type PExpr = Result<(ExprV, nat), Seq<char>>;

/// An expression: the lowest precedence level.
pub open spec fn expr_s(ts: Toks, p: nat) -> PExpr
    decreases ts.len() - p, 30nat,
{
    if !at(ts, p) {
        Err(seq![])
    } else {
        bin_s(ts, p, 0)
    }
}

/// An operand of level `lv`: the next level up, or a unary expression.
pub open spec fn operand_s(ts: Toks, p: nat, lv: nat) -> PExpr
    decreases ts.len() - p, 21 - 2 * lv,
{
    if !at(ts, p) || lv > 5 {
        Err(seq![])
    } else if lv == 5 {
        unary_s(ts, p)
    } else {
        bin_s(ts, p, lv + 1)
    }
}

/// Left-associative chain of the operators of level `lv`.
pub open spec fn bin_s(ts: Toks, p: nat, lv: nat) -> PExpr
    decreases ts.len() - p, 22 - 2 * lv,
{
    if !at(ts, p) || lv > 5 {
        Err(seq![])
    } else {
        match operand_s(ts, p, lv) {
            Ok((lhs, p1)) => bin_rest_s(ts, keep(ts, p, p1), lv, lhs),
            Err(m) => Err(m),
        }
    }
}

pub open spec fn bin_rest_s(ts: Toks, p: nat, lv: nat, lhs: ExprV) -> PExpr
    decreases ts.len() - p, 20 - 2 * lv,
{
    if !at(ts, p) || lv > 5 {
        Err(seq![])
    } else {
        match level_op(lv, tok_at(ts, p)) {
            None => Ok((lhs, p)),
            Some(op) => match operand_s(ts, p + 1, lv) {
                Ok((rhs, p2)) => bin_rest_s(ts, step_to(ts, p, p2), lv, ExprV::BinOp(op, Box::new(lhs), Box::new(rhs))),
                Err(m) => Err(m),
            },
        }
    }
}

pub open spec fn unary_s(ts: Toks, p: nat) -> PExpr
    decreases ts.len() - p, 8nat,
{
    if !at(ts, p) {
        Err(seq![])
    } else {
        match tok_at(ts, p) {
            Tok::Minus => match unary_s(ts, p + 1) {
                Ok((e, p2)) => Ok((ExprV::UnOp(UnOp::Neg, Box::new(e)), p2)),
                Err(m) => Err(m),
            },
            Tok::Bang => match unary_s(ts, p + 1) {
                Ok((e, p2)) => Ok((ExprV::UnOp(UnOp::Not, Box::new(e)), p2)),
                Err(m) => Err(m),
            },
            _ => postfix_s(ts, p),
        }
    }
}

pub open spec fn postfix_s(ts: Toks, p: nat) -> PExpr
    decreases ts.len() - p, 7nat,
{
    if !at(ts, p) {
        Err(seq![])
    } else {
        match primary_s(ts, p) {
            Ok((b, p1)) => postfix_rest_s(ts, keep(ts, p, p1), b),
            Err(m) => Err(m),
        }
    }
}

/// Field accesses, method calls, transfers and indexing after a primary.
pub open spec fn postfix_rest_s(ts: Toks, p: nat, base: ExprV) -> PExpr
    decreases ts.len() - p, 6nat,
{
    if !at(ts, p) {
        Err(seq![])
    } else {
        match tok_at(ts, p) {
            Tok::Dot => match expect_ident_s(ts, p + 1) {
                Err(m) => Err(m),
                Ok((name, p2)) => if name == "toGpu"@ || name == "toCpu"@ {
                    match expect_s(ts, p2, Tok::LParen) {
                        Err(m) => Err(m),
                        Ok(p3) => match expect_s(ts, p3, Tok::RParen) {
                            Err(m) => Err(m),
                            Ok(p4) => postfix_rest_s(
                                ts,
                                step_to(ts, p, p4),
                                if name == "toGpu"@ {
                                    ExprV::ToGpu(Box::new(base))
                                } else {
                                    ExprV::ToCpu(Box::new(base))
                                },
                            ),
                        },
                    }
                } else if tok_at(ts, p2) == Tok::LParen {
                    match args_s(ts, p2 + 1, seq![]) {
                        Ok((args, p3)) => postfix_rest_s(
                            ts,
                            step_to(ts, p, p3),
                            ExprV::MethodCall(Box::new(base), name, args),
                        ),
                        Err(m) => Err(m),
                    }
                } else {
                    postfix_rest_s(ts, step_to(ts, p, p2), ExprV::FieldAccess(Box::new(base), name))
                },
            },
            Tok::LBracket => match then_expect(ts, expr_s(ts, p + 1), Tok::RBracket) {
                Ok((idx, p2)) => postfix_rest_s(ts, step_to(ts, p, p2), ExprV::Index(Box::new(base), Box::new(idx))),
                Err(m) => Err(m),
            },
            _ => Ok((base, p)),
        }
    }
}

/// One expression of a list, with the comma after it if there is one.
pub open spec fn list_item_s(ts: Toks, p: nat) -> PExpr
    decreases ts.len() - p, 35nat,
{
    match expr_s(ts, p) {
        Ok((e, p1)) => Ok((e, if tok_at(ts, p1) == Tok::Comma { adv(ts, p1) } else { p1 })),
        Err(m) => Err(m),
    }
}

/// Comma-separated expressions up to `close`, which is consumed. A comma
/// after an item is optional.
pub open spec fn list_s(ts: Toks, p: nat, close: Tok, acc: Seq<ExprV>) -> Result<(Seq<ExprV>, nat), Seq<char>>
    decreases ts.len() - p, 40nat,
{
    if !at(ts, p) {
        Err(seq![])
    } else if tok_at(ts, p) != close && tok_at(ts, p) != Tok::EOF {
        match list_item_s(ts, p) {
            Ok((e, p2)) => list_s(ts, step_to(ts, p, p2), close, acc.push(e)),
            Err(m) => Err(m),
        }
    } else {
        match expect_s(ts, p, close) {
            Ok(p1) => Ok((acc, p1)),
            Err(m) => Err(m),
        }
    }
}

/// Call arguments up to `)`.
pub open spec fn args_s(ts: Toks, p: nat, acc: Seq<ExprV>) -> Result<(Seq<ExprV>, nat), Seq<char>>
    decreases ts.len() - p, 41nat,
{
    if !at(ts, p) {
        Err(seq![])
    } else {
        list_s(ts, p, Tok::RParen, acc)
    }
}

/// One `name: value` pair of a struct literal, with the comma after it.
pub open spec fn init_item_s(ts: Toks, p: nat) -> Result<((Seq<char>, ExprV), nat), Seq<char>>
    decreases ts.len() - p, 36nat,
{
    if !at(ts, p) {
        Err(seq![])
    } else {
        match expect_ident_s(ts, p) {
            Err(m) => Err(m),
            Ok((f, p1)) => match expect_s(ts, p1, Tok::Colon) {
                Err(m) => Err(m),
                Ok(p2) => match list_item_s(ts, p2) {
                    Ok((v, p3)) => Ok(((f, v), p3)),
                    Err(m) => Err(m),
                },
            },
        }
    }
}

/// `name: value` pairs of a struct literal up to `}`, which is consumed.
pub open spec fn inits_s(ts: Toks, p: nat, acc: Seq<(Seq<char>, ExprV)>) -> Result<(Seq<(Seq<char>, ExprV)>, nat), Seq<char>>
    decreases ts.len() - p, 40nat,
{
    if !at(ts, p) {
        Err(seq![])
    } else if tok_at(ts, p) != Tok::RBrace && tok_at(ts, p) != Tok::EOF {
        match init_item_s(ts, p) {
            Ok((fv, p4)) => inits_s(ts, step_to(ts, p, p4), acc.push(fv)),
            Err(m) => Err(m),
        }
    } else {
        match expect_s(ts, p, Tok::RBrace) {
            Ok(p1) => Ok((acc, p1)),
            Err(m) => Err(m),
        }
    }
}

pub open spec fn primary_s(ts: Toks, p: nat) -> PExpr
    decreases ts.len() - p, 5nat,
{
    if !at(ts, p) {
        Err(seq![])
    } else {
        match tok_at(ts, p) {
            Tok::IntLit(n) => Ok((ExprV::IntLit(n), p + 1)),
            Tok::FloatLit(f) => Ok((ExprV::FloatLit(f), p + 1)),
            Tok::StringLit(s) => Ok((ExprV::StringLit(s), p + 1)),
            Tok::True => Ok((ExprV::BoolLit(true), p + 1)),
            Tok::False => Ok((ExprV::BoolLit(false), p + 1)),
            Tok::LParen => then_expect(ts, expr_s(ts, p + 1), Tok::RParen),
            Tok::LBracket => match list_s(ts, p + 1, Tok::RBracket, seq![]) {
                Ok((es, p1)) => Ok((ExprV::ArrayLit(es), p1)),
                Err(m) => Err(m),
            },
            Tok::Ident(name) => match tok_at(ts, p + 1) {
                Tok::LParen => match args_s(ts, p + 2, seq![]) {
                    Ok((a, p2)) => Ok((ExprV::Call(name, a), p2)),
                    Err(m) => Err(m),
                },
                Tok::LBrace => match inits_s(ts, p + 2, seq![]) {
                    Ok((fs, p2)) => Ok((ExprV::StructLit(name, fs), p2)),
                    Err(m) => Err(m),
                },
                _ => Ok((ExprV::Ident(name), p + 1)),
            },
            t => Err(msg_unexpected(line_at(ts, p), t)),
        }
    }
}

// ── Statements ──────────────────────────────────────────────────────────────

/// From offset `i` of `p`, with `depth` brackets open: the offset just after
/// the bracket that closes them, or `None` when the input ends first.
pub open spec fn skip_brackets_s(ts: Toks, p: nat, i: nat, depth: nat) -> Option<nat>
    decreases ts.len() - (p + i),
{
    if !valid_toks(ts) || p + i + 1 >= ts.len() {
        None
    } else {
        match tok_at(ts, p + i) {
            Tok::LBracket => skip_brackets_s(ts, p, i + 1, depth + 1),
            Tok::RBracket => if depth <= 1 {
                Some(i + 1)
            } else {
                skip_brackets_s(ts, p, i + 1, (depth - 1) as nat)
            },
            Tok::EOF => None,
            _ => skip_brackets_s(ts, p, i + 1, depth),
        }
    }
}

/// Whether a statement starting with an identifier at `p` is an assignment:
/// `=` follows the name after at most ten tokens of `.field` and `[index]`.
pub open spec fn assign_ahead_s(ts: Toks, p: nat, i: nat) -> bool
    decreases 11 - i,
{
    if i > 10 {
        false
    } else {
        match tok_at(ts, p + i) {
            Tok::Eq => true,
            Tok::Dot => if i + 2 > 10 {
                false
            } else {
                assign_ahead_s(ts, p, i + 2)
            },
            Tok::LBracket => match skip_brackets_s(ts, p, i + 1, 1) {
                None => false,
                Some(j) => if j > 10 || j <= i {
                    false
                } else {
                    assign_ahead_s(ts, p, j)
                },
            },
            _ => false,
        }
    }
}

/// An assignment target: a name, then `.field` and `[index]` parts.
pub open spec fn lvalue_rest_s(ts: Toks, p: nat, base: ExprV) -> PExpr
    decreases ts.len() - p,
{
    if !at(ts, p) {
        Err(seq![])
    } else {
        match tok_at(ts, p) {
            Tok::Dot => match expect_ident_s(ts, p + 1) {
                Ok((f, p2)) => lvalue_rest_s(ts, step_to(ts, p, p2), ExprV::FieldAccess(Box::new(base), f)),
                Err(m) => Err(m),
            },
            Tok::LBracket => match then_expect(ts, expr_s(ts, p + 1), Tok::RBracket) {
                Ok((idx, p2)) => lvalue_rest_s(ts, step_to(ts, p, p2), ExprV::Index(Box::new(base), Box::new(idx))),
                Err(m) => Err(m),
            },
            _ => Ok((base, p)),
        }
    }
}

pub type PStmt = Result<(StmtV, nat), Seq<char>>;

pub open spec fn assign_s(ts: Toks, p: nat) -> PStmt {
    match expect_ident_s(ts, p) {
        Err(m) => Err(m),
        Ok((name, p0)) => match lvalue_rest_s(ts, p0, ExprV::Ident(name)) {
            Err(m) => Err(m),
            Ok((lhs, p1)) => match expect_s(ts, p1, Tok::Eq) {
                Err(m) => Err(m),
                Ok(p2) => match then_expect(ts, expr_s(ts, p2), Tok::Semicolon) {
                    Err(m) => Err(m),
                    Ok((value, p3)) => match lhs {
                        ExprV::Ident(n) => Ok((StmtV::Assign(TargetV::Ident(n), value), p3)),
                        ExprV::FieldAccess(o, f) => Ok((StmtV::Assign(TargetV::Field(o, f), value), p3)),
                        ExprV::Index(o, i) => Ok((StmtV::Assign(TargetV::Index(o, i), value), p3)),
                        _ => Err(msg_bad_target(line_at(ts, p3))),
                    },
                },
            },
        },
    }
}

/// `let` / `mut` declaration (the keyword at `p`).
pub open spec fn let_s(ts: Toks, p: nat, mutable: bool, hw: Option<HwV>) -> PStmt {
    match expect_ident_s(ts, p + 1) {
        Err(m) => Err(m),
        Ok((name, p2)) => {
            let ty: Result<(Option<TyAnnV>, nat), Seq<char>> = if tok_at(ts, p2) == Tok::Colon {
                match type_s(ts, adv(ts, p2)) {
                    Ok((t, p3)) => Ok((Some(t), p3)),
                    Err(m) => Err(m),
                }
            } else {
                Ok((None, p2))
            };
            match ty {
                Err(m) => Err(m),
                Ok((t, p3)) => match expect_s(ts, p3, Tok::Eq) {
                    Err(m) => Err(m),
                    Ok(p4) => match then_expect(ts, expr_s(ts, p4), Tok::Semicolon) {
                        Err(m) => Err(m),
                        Ok((init, p5)) => Ok((StmtV::Let { mutable, name, ty: t, init, hw }, p5)),
                    },
                },
            }
        },
    }
}

/// A statement, after an annotation given by the caller or read here.
pub open spec fn stmt_hw_s(ts: Toks, p: nat, hw: Option<HwV>) -> PStmt
    decreases ts.len() - p, 10nat,
{
    if !at(ts, p) {
        Err(seq![])
    } else {
        let h = if hw is Some {
            Ok((hw, p))
        } else {
            hw_s(ts, p)
        };
        match h {
            Err(m) => Err(m),
            Ok((hw2, p1)) => stmt_body_s(ts, keep(ts, p, p1), hw2),
        }
    }
}

pub open spec fn expr_stmt_s(ts: Toks, p: nat) -> PStmt {
    match then_expect(ts, expr_s(ts, p), Tok::Semicolon) {
        Ok((e, p2)) => Ok((StmtV::ExprStmt(e), p2)),
        Err(m) => Err(m),
    }
}

pub open spec fn stmt_body_s(ts: Toks, p: nat, hw: Option<HwV>) -> PStmt
    decreases ts.len() - p, 9nat,
{
    if !at(ts, p) {
        Err(seq![])
    } else {
        match tok_at(ts, p) {
            Tok::Let => let_s(ts, p, false, hw),
            Tok::Mut => let_s(ts, p, true, hw),
            Tok::Return => if tok_at(ts, p + 1) == Tok::Semicolon {
                Ok((StmtV::Return(None), p + 2))
            } else {
                match then_expect(ts, expr_s(ts, p + 1), Tok::Semicolon) {
                    Ok((e, p2)) => Ok((StmtV::Return(Some(e)), p2)),
                    Err(m) => Err(m),
                }
            },
            Tok::Break => match expect_s(ts, p + 1, Tok::Semicolon) {
                Ok(p2) => Ok((StmtV::Break, p2)),
                Err(m) => Err(m),
            },
            Tok::Continue => match expect_s(ts, p + 1, Tok::Semicolon) {
                Ok(p2) => Ok((StmtV::Continue, p2)),
                Err(m) => Err(m),
            },
            Tok::If => if_s(ts, p),
            Tok::While => while_s(ts, p),
            Tok::For => for_s(ts, p),
            Tok::Gpu => match block_s(ts, p + 1) {
                Ok((b, p2)) => Ok((StmtV::GpuBlock(b), p2)),
                Err(m) => Err(m),
            },
            Tok::Import => match import_s(ts, p) {
                Ok((i, p2)) => Ok((StmtV::Import(i), p2)),
                Err(m) => Err(m),
            },
            Tok::Ident(_) => if assign_ahead_s(ts, p, 1) {
                assign_s(ts, p)
            } else {
                expr_stmt_s(ts, p)
            },
            _ => expr_stmt_s(ts, p),
        }
    }
}

/// `( cond )` after a keyword at `p`.
pub open spec fn cond_s(ts: Toks, p: nat) -> PExpr {
    match expect_s(ts, p + 1, Tok::LParen) {
        Ok(p1) => then_expect(ts, expr_s(ts, p1), Tok::RParen),
        Err(m) => Err(m),
    }
}

pub open spec fn if_s(ts: Toks, p: nat) -> PStmt
    decreases ts.len() - p, 8nat,
{
    if !at(ts, p) {
        Err(seq![])
    } else {
        match cond_s(ts, p) {
            Err(m) => Err(m),
            Ok((cond, p2)) => match block_s(ts, step_to(ts, p, p2)) {
                Err(m) => Err(m),
                Ok((tb, p3)) => match else_s(ts, keep(ts, p, p3)) {
                    Ok((eb, p5)) => Ok((StmtV::If(cond, tb, eb), p5)),
                    Err(m) => Err(m),
                },
            },
        }
    }
}

/// An optional `else` part: a block, or an `if` (an `else if` chain).
pub open spec fn else_s(ts: Toks, p: nat) -> Result<(Option<Seq<StmtV>>, nat), Seq<char>>
    decreases ts.len() - p, 7nat,
{
    if !at(ts, p) {
        Err(seq![])
    } else if tok_at(ts, p) == Tok::Else {
        let p4 = adv(ts, p);
        if tok_at(ts, p4) == Tok::If {
            match if_s(ts, step_to(ts, p, p4)) {
                Ok((s, p5)) => Ok((Some(seq![s]), p5)),
                Err(m) => Err(m),
            }
        } else {
            match block_s(ts, step_to(ts, p, p4)) {
                Ok((eb, p5)) => Ok((Some(eb), p5)),
                Err(m) => Err(m),
            }
        }
    } else {
        Ok((None, p))
    }
}

pub open spec fn while_s(ts: Toks, p: nat) -> PStmt
    decreases ts.len() - p, 8nat,
{
    if !at(ts, p) {
        Err(seq![])
    } else {
        match cond_s(ts, p) {
            Err(m) => Err(m),
            Ok((cond, p2)) => match block_s(ts, step_to(ts, p, p2)) {
                Ok((body, p3)) => Ok((StmtV::While(cond, body), p3)),
                Err(m) => Err(m),
            },
        }
    }
}

/// `for (var in start..end) { body }`: the header up to `)`.
pub open spec fn for_head_s(ts: Toks, p: nat) -> Result<((Seq<char>, ExprV, ExprV), nat), Seq<char>> {
    match expect_s(ts, p + 1, Tok::LParen) {
        Err(m) => Err(m),
        Ok(p1) => match expect_ident_s(ts, p1) {
            Err(m) => Err(m),
            Ok((var, p2)) => match expect_s(ts, p2, Tok::In) {
                Err(m) => Err(m),
                Ok(p3) => match then_expect(ts, expr_s(ts, p3), Tok::DotDot) {
                    Err(m) => Err(m),
                    Ok((start, p4)) => match then_expect(ts, expr_s(ts, p4), Tok::RParen) {
                        Err(m) => Err(m),
                        Ok((end, p5)) => Ok(((var, start, end), p5)),
                    },
                },
            },
        },
    }
}

pub open spec fn for_s(ts: Toks, p: nat) -> PStmt
    decreases ts.len() - p, 8nat,
{
    if !at(ts, p) {
        Err(seq![])
    } else {
        match for_head_s(ts, p) {
            Err(m) => Err(m),
            Ok(((var, start, end), p5)) => match block_s(ts, step_to(ts, p, p5)) {
                Ok((body, p6)) => Ok((StmtV::For(var, start, end, body), p6)),
                Err(m) => Err(m),
            },
        }
    }
}

pub open spec fn block_s(ts: Toks, p: nat) -> Result<(Seq<StmtV>, nat), Seq<char>>
    decreases ts.len() - p, 12nat,
{
    if !at(ts, p) {
        Err(seq![])
    } else {
        match expect_s(ts, p, Tok::LBrace) {
            Ok(p1) => stmts_s(ts, step_to(ts, p, p1), seq![]),
            Err(m) => Err(m),
        }
    }
}

/// Statements up to `}`, which is consumed; documentation lines among them
/// document nothing and are passed over.
pub open spec fn stmts_s(ts: Toks, p: nat, acc: Seq<StmtV>) -> Result<(Seq<StmtV>, nat), Seq<char>>
    decreases ts.len() - p, 13nat,
{
    if !at(ts, p) {
        Err(seq![])
    } else if tok_at(ts, p) is DocComment {
        stmts_s(ts, step_to(ts, p, p + 1), acc)
    } else if tok_at(ts, p) != Tok::RBrace && tok_at(ts, p) != Tok::EOF {
        match stmt_hw_s(ts, p, None) {
            Ok((s, p1)) => stmts_s(ts, step_to(ts, p, p1), acc.push(s)),
            Err(m) => Err(m),
        }
    } else {
        match expect_s(ts, p, Tok::RBrace) {
            Ok(p1) => Ok((acc, p1)),
            Err(m) => Err(m),
        }
    }
}

// ── Imports, structs, functions ─────────────────────────────────────────────

/// Further `.segment`s of an import path; stops before `.*`, `.{` or `;`.
pub open spec fn path_s(ts: Toks, p: nat, acc: Seq<Seq<char>>) -> Result<(Seq<Seq<char>>, nat), Seq<char>>
    decreases ts.len() - p,
{
    if !at(ts, p) {
        Err(seq![])
    } else if tok_at(ts, p) != Tok::Dot {
        Ok((acc, p))
    } else {
        match tok_at(ts, p + 1) {
            Tok::Star | Tok::LBrace | Tok::EOF | Tok::Semicolon => Ok((acc, p)),
            _ => match expect_ident_s(ts, p + 1) {
                Ok((n, p2)) => path_s(ts, step_to(ts, p, p2), acc.push(n)),
                Err(m) => Err(m),
            },
        }
    }
}

/// A name, with the comma after it if there is one.
pub open spec fn name_item_s(ts: Toks, p: nat) -> Result<(Seq<char>, nat), Seq<char>> {
    match expect_ident_s(ts, p) {
        Ok((n, p1)) => Ok((n, if tok_at(ts, p1) == Tok::Comma { adv(ts, p1) } else { p1 })),
        Err(m) => Err(m),
    }
}

/// Names of `{a, b}` up to `}`, which is consumed.
pub open spec fn names_s(ts: Toks, p: nat, acc: Seq<Seq<char>>) -> Result<(Seq<Seq<char>>, nat), Seq<char>>
    decreases ts.len() - p,
{
    if !at(ts, p) {
        Err(seq![])
    } else if tok_at(ts, p) != Tok::RBrace && tok_at(ts, p) != Tok::EOF {
        match name_item_s(ts, p) {
            Ok((n, p2)) => names_s(ts, step_to(ts, p, p2), acc.push(n)),
            Err(m) => Err(m),
        }
    } else {
        match expect_s(ts, p, Tok::RBrace) {
            Ok(p1) => Ok((acc, p1)),
            Err(m) => Err(m),
        }
    }
}

/// `import a.b.c;`, `import a.b.*;` or `import a.b.{x, y};` (`import` at `p`).
pub open spec fn import_s(ts: Toks, p: nat) -> Result<(ImportV, nat), Seq<char>> {
    match expect_ident_s(ts, p + 1) {
        Err(m) => Err(m),
        Ok((first, p2)) => match path_s(ts, p2, seq![first]) {
            Err(m) => Err(m),
            Ok((path, p3)) => {
                let kind: Result<(ImportKindV, nat), Seq<char>> = if tok_at(ts, p3) == Tok::Dot {
                    let p4 = adv(ts, p3);
                    if tok_at(ts, p4) == Tok::Star {
                        Ok((ImportKindV::Glob, adv(ts, p4)))
                    } else if tok_at(ts, p4) == Tok::LBrace {
                        match names_s(ts, adv(ts, p4), seq![]) {
                            Ok((ns, p5)) => Ok((ImportKindV::Named(ns), p5)),
                            Err(m) => Err(m),
                        }
                    } else {
                        Err(msg_import_kind(line_at(ts, p4)))
                    }
                } else {
                    Ok((ImportKindV::Module, p3))
                };
                match kind {
                    Err(m) => Err(m),
                    Ok((k, p5)) => match expect_s(ts, p5, Tok::Semicolon) {
                        Ok(p6) => Ok((ImportV { path, kind: k }, p6)),
                        Err(m) => Err(m),
                    },
                }
            },
        },
    }
}

/// A field `name: type`, with the comma after it if there is one.
pub open spec fn field_def_item_s(ts: Toks, p: nat) -> Result<((Seq<char>, TyAnnV), nat), Seq<char>> {
    match expect_ident_s(ts, p) {
        Err(m) => Err(m),
        Ok((f, p1)) => match expect_s(ts, p1, Tok::Colon) {
            Err(m) => Err(m),
            Ok(p2) => match type_s(ts, p2) {
                Ok((t, p3)) => Ok(((f, t), if tok_at(ts, p3) == Tok::Comma { adv(ts, p3) } else { p3 })),
                Err(m) => Err(m),
            },
        },
    }
}

/// Fields `name: type` of a struct definition up to `}`, which is consumed.
pub open spec fn field_defs_s(ts: Toks, p: nat, acc: Seq<(Seq<char>, TyAnnV)>) -> Result<(Seq<(Seq<char>, TyAnnV)>, nat), Seq<char>>
    decreases ts.len() - p,
{
    if !at(ts, p) {
        Err(seq![])
    } else if tok_at(ts, p) != Tok::RBrace && tok_at(ts, p) != Tok::EOF {
        match field_def_item_s(ts, p) {
            Ok((ft, p4)) => field_defs_s(ts, step_to(ts, p, p4), acc.push(ft)),
            Err(m) => Err(m),
        }
    } else {
        match expect_s(ts, p, Tok::RBrace) {
            Ok(p1) => Ok((acc, p1)),
            Err(m) => Err(m),
        }
    }
}

/// `struct Name { fields }` (`struct` at `p`); no annotation or documentation yet.
pub open spec fn struct_s(ts: Toks, p: nat) -> Result<(StructV, nat), Seq<char>> {
    match expect_ident_s(ts, p + 1) {
        Err(m) => Err(m),
        Ok((name, p2)) => match expect_s(ts, p2, Tok::LBrace) {
            Err(m) => Err(m),
            Ok(p3) => match field_defs_s(ts, p3, seq![]) {
                Ok((fields, p4)) => Ok((StructV { name, fields, hw: None, doc: None }, p4)),
                Err(m) => Err(m),
            },
        },
    }
}

/// A parameter `[@hw] type name`, with the comma after it if there is one.
pub open spec fn param_item_s(ts: Toks, p: nat) -> Result<(ParamV, nat), Seq<char>> {
    match hw_s(ts, p) {
        Err(m) => Err(m),
        Ok((h, p1)) => match type_s(ts, p1) {
            Err(m) => Err(m),
            Ok((t, p2)) => match expect_ident_s(ts, p2) {
                Ok((n, p3)) => Ok(
                    (ParamV { name: n, ty: t, hw: h }, if tok_at(ts, p3) == Tok::Comma { adv(ts, p3) } else { p3 }),
                ),
                Err(m) => Err(m),
            },
        },
    }
}

/// Parameters up to `)`, which is consumed.
pub open spec fn params_s(ts: Toks, p: nat, acc: Seq<ParamV>) -> Result<(Seq<ParamV>, nat), Seq<char>>
    decreases ts.len() - p,
{
    if !at(ts, p) {
        Err(seq![])
    } else if tok_at(ts, p) != Tok::RParen && tok_at(ts, p) != Tok::EOF {
        match param_item_s(ts, p) {
            Ok((pv, p4)) => params_s(ts, step_to(ts, p, p4), acc.push(pv)),
            Err(m) => Err(m),
        }
    } else {
        match expect_s(ts, p, Tok::RParen) {
            Ok(p1) => Ok((acc, p1)),
            Err(m) => Err(m),
        }
    }
}

/// `fn name(params) [-> type] { body }` (`fn` at `p`); no annotation or
/// documentation yet.
pub open spec fn fn_s(ts: Toks, p: nat) -> Result<(FnV, nat), Seq<char>> {
    match expect_ident_s(ts, p + 1) {
        Err(m) => Err(m),
        Ok((name, p2)) => match expect_s(ts, p2, Tok::LParen) {
            Err(m) => Err(m),
            Ok(p3) => match params_s(ts, p3, seq![]) {
                Err(m) => Err(m),
                Ok((params, p4)) => {
                    let ret: Result<(TyAnnV, nat), Seq<char>> = if tok_at(ts, p4) == Tok::Arrow {
                        type_s(ts, adv(ts, p4))
                    } else {
                        Ok((TyAnnV::Void, p4))
                    };
                    match ret {
                        Err(m) => Err(m),
                        Ok((rt, p5)) => match block_s(ts, p5) {
                            Ok((body, p6)) => Ok(
                                (
                                    FnV {
                                        name,
                                        params,
                                        ret_ty: rt,
                                        body,
                                        line: line_at(ts, p),
                                        hw: None,
                                        doc: None,
                                    },
                                    p6,
                                ),
                            ),
                            Err(m) => Err(m),
                        },
                    }
                },
            },
        },
    }
}

// ── The program ─────────────────────────────────────────────────────────────

/// Consecutive documentation lines.
pub open spec fn docs_s(ts: Toks, p: nat, acc: Seq<Seq<char>>) -> (Seq<Seq<char>>, nat)
    decreases ts.len() - p,
{
    if !at(ts, p) {
        (acc, p)
    } else {
        match tok_at(ts, p) {
            Tok::DocComment(s) => docs_s(ts, p + 1, acc.push(s)),
            _ => (acc, p),
        }
    }
}

/// Lines joined by line feeds.
pub open spec fn join_lines(ls: Seq<Seq<char>>) -> Seq<char>
    decreases ls.len(),
{
    if ls.len() == 0 {
        seq![]
    } else if ls.len() == 1 {
        ls[0]
    } else {
        join_lines(ls.drop_last()) + "\n"@ + ls.last()
    }
}

pub open spec fn empty_program() -> ProgramV {
    ProgramV { imports: seq![], structs: seq![], fns: seq![], top_level: seq![] }
}

/// One item: an import, a struct or function definition (each after
/// optional documentation lines and an optional annotation), or a top-level
/// statement; added to `acc`.
#[verifier::opaque]
pub open spec fn item_s(ts: Toks, p: nat, acc: ProgramV) -> Result<(ProgramV, nat), Seq<char>> {
    let (docs, p1) = docs_s(ts, p, seq![]);
    let doc = if docs.len() == 0 {
        None
    } else {
        Some(join_lines(docs))
    };
    match hw_s(ts, p1) {
        Err(m) => Err(m),
        Ok((hw, p2)) => item_body_s(ts, p2, hw, doc, acc),
    }
}

/// The item after its documentation and annotation; documentation lines at
/// the end of the source document nothing.
#[verifier::opaque]
pub open spec fn item_body_s(ts: Toks, p2: nat, hw: Option<HwV>, doc: Option<Seq<char>>, acc: ProgramV) -> Result<(ProgramV, nat), Seq<char>> {
    match tok_at(ts, p2) {
        Tok::Import => match import_s(ts, p2) {
            Ok((i, p3)) => Ok((ProgramV { imports: acc.imports.push(i), ..acc }, p3)),
            Err(m) => Err(m),
        },
        Tok::Struct => match struct_s(ts, p2) {
            Ok((sd, p3)) => Ok((ProgramV { structs: acc.structs.push(StructV { hw, doc, ..sd }), ..acc }, p3)),
            Err(m) => Err(m),
        },
        Tok::Fn => match fn_s(ts, p2) {
            Ok((fd, p3)) => Ok((ProgramV { fns: acc.fns.push(FnV { hw, doc, ..fd }), ..acc }, p3)),
            Err(m) => Err(m),
        },
        _ => if tok_at(ts, p2) == Tok::EOF && hw is None {
            Ok((acc, p2))
        } else {
            match stmt_hw_s(ts, p2, hw) {
                Ok((st, p3)) => Ok((ProgramV { top_level: acc.top_level.push(st), ..acc }, p3)),
                Err(m) => Err(m),
            }
        },
    }
}

/// Items up to `EOF`.
pub open spec fn program_s(ts: Toks, p: nat, acc: ProgramV) -> Result<ProgramV, Seq<char>>
    decreases ts.len() - p,
{
    if !at(ts, p) {
        Err(seq![])
    } else if tok_at(ts, p) == Tok::EOF {
        Ok(acc)
    } else {
        match item_s(ts, p, acc) {
            Ok((acc2, p3)) => program_s(ts, step_to(ts, p, p3), acc2),
            Err(m) => Err(m),
        }
    }
}

// ── Results against the grammar ─────────────────────────────────────────────

pub open spec fn same_result<A>(r: Result<A, String>, s: Result<(A, nat), Seq<char>>, pos: nat) -> bool {
    match (r, s) {
        (Ok(v), Ok((sv, p))) => v == sv && pos == p,
        (Err(e), Err(m)) => e@ == m,
        _ => false,
    }
}

pub open spec fn expr_result(r: Result<Expr, String>, s: PExpr, pos: nat) -> bool {
    match (r, s) {
        (Ok(v), Ok((sv, p))) => expr_view(&v) == sv && pos == p,
        (Err(e), Err(m)) => e@ == m,
        _ => false,
    }
}

pub open spec fn exprs_result(r: Result<Vec<Expr>, String>, s: Result<(Seq<ExprV>, nat), Seq<char>>, pos: nat) -> bool {
    match (r, s) {
        (Ok(v), Ok((sv, p))) => exprs_view(v@) == sv && pos == p,
        (Err(e), Err(m)) => e@ == m,
        _ => false,
    }
}

pub open spec fn stmt_result(r: Result<Stmt, String>, s: PStmt, pos: nat) -> bool {
    match (r, s) {
        (Ok(v), Ok((sv, p))) => stmt_view(&v) == sv && pos == p,
        (Err(e), Err(m)) => e@ == m,
        _ => false,
    }
}

pub open spec fn stmts_result(r: Result<Vec<Stmt>, String>, s: Result<(Seq<StmtV>, nat), Seq<char>>, pos: nat) -> bool {
    match (r, s) {
        (Ok(v), Ok((sv, p))) => stmts_view(v@) == sv && pos == p,
        (Err(e), Err(m)) => e@ == m,
        _ => false,
    }
}

pub open spec fn ann_result(r: Result<TypeAnnotation, String>, s: Result<(TyAnnV, nat), Seq<char>>, pos: nat) -> bool {
    match (r, s) {
        (Ok(v), Ok((sv, p))) => ann_view(&v) == sv && pos == p,
        (Err(e), Err(m)) => e@ == m,
        _ => false,
    }
}

pub open spec fn hw_result(r: Result<Option<HwAnnotation>, String>, s: Result<(Option<HwV>, nat), Seq<char>>, pos: nat) -> bool {
    match (r, s) {
        (Ok(v), Ok((sv, p))) => opt_hw_view(&v) == sv && pos == p,
        (Err(e), Err(m)) => e@ == m,
        _ => false,
    }
}

/// A token with its line and column as a mathematical value.
pub open spec fn toks_of(ts: Seq<SpannedToken>) -> Toks {
    stoks(ts)
}

// ── The parser ──────────────────────────────────────────────────────────────

pub struct Parser {
    tokens: Vec<SpannedToken>,
    pos: usize,
}

impl Parser {
    /// The tokens as mathematical values.
    pub closed spec fn toks(&self) -> Toks {
        stoks(self.tokens@)
    }

    /// The position of the next token.
    pub closed spec fn pos(&self) -> nat {
        self.pos as nat
    }

    /// Valid tokens, and a position at one of them.
    pub open spec fn wf(&self) -> bool {
        at(self.toks(), self.pos())
    }

    pub fn new(tokens: Vec<SpannedToken>) -> (r: Parser)
        requires
            valid_toks(stoks(tokens@)),
        ensures
            r.wf(),
            r.toks() == stoks(tokens@),
            r.pos() == 0,
    {
        Parser { tokens, pos: 0 }
    }

    proof fn lemma_len(&self)
        requires
            self.wf(),
        ensures
            self.toks().len() == self.tokens@.len(),
            self.pos < self.tokens@.len(),
            forall|i: int| 0 <= i < self.tokens@.len() ==> #[trigger] self.toks()[i] == stok(&self.tokens@[i]),
    {
    }

    // ── Token navigation ────────────────────────────────────────────────────

    fn peek(&self) -> (r: &Token)
        requires
            self.wf(),
        ensures
            r@ == tok_at(self.toks(), self.pos()),
    {
        proof {
            self.lemma_len();
        }
        &self.tokens[self.pos].node
    }

    fn peek_ahead(&self, offset: usize) -> (r: &Token)
        requires
            self.wf(),
        ensures
            r@ == tok_at(self.toks(), self.pos() + offset as nat),
    {
        proof {
            self.lemma_len();
        }
        let n = self.tokens.len();
        let idx = if offset < n - self.pos {
            self.pos + offset
        } else {
            n - 1
        };
        &self.tokens[idx].node
    }

    fn line(&self) -> (r: usize)
        requires
            self.wf(),
        ensures
            r == line_at(self.toks(), self.pos()),
    {
        proof {
            self.lemma_len();
        }
        self.tokens[self.pos].line
    }

    fn advance(&mut self)
        requires
            old(self).wf(),
        ensures
            final(self).wf(),
            final(self).toks() == old(self).toks(),
            final(self).pos() == adv(old(self).toks(), old(self).pos()),
    {
        proof {
            self.lemma_len();
        }
        let n = self.tokens.len();
        if !self.tokens[self.pos].node.is_eof() {
            proof {
                assert(self.toks()[self.pos as int].0 != Tok::EOF);
                assert(self.pos + 1 < self.tokens@.len());
            }
            self.pos = self.pos + 1;
        }
    }

    fn expect(&mut self, expected: Token) -> (r: Result<(), String>)
        requires
            old(self).wf(),
        ensures
            final(self).wf(),
            final(self).toks() == old(self).toks(),
            match (r, expect_s(old(self).toks(), old(self).pos(), expected@)) {
                (Ok(_), Ok(p)) => final(self).pos() == p,
                (Err(e), Err(m)) => e@ == m,
                _ => false,
            },
            r is Ok ==> final(self).pos() > old(self).pos() || expected@ == Tok::EOF,
            final(self).pos() >= old(self).pos(),
    {
        if self.peek().same(&expected) {
            self.advance();
            Ok(())
        } else {
            Err(m_expected(self.line(), &expected, self.peek()))
        }
    }

    fn expect_ident(&mut self) -> (r: Result<String, String>)
        requires
            old(self).wf(),
        ensures
            final(self).wf(),
            final(self).toks() == old(self).toks(),
            match (r, expect_ident_s(old(self).toks(), old(self).pos())) {
                (Ok(v), Ok((sv, p))) => v@ == sv && final(self).pos() == p,
                (Err(e), Err(m)) => e@ == m,
                _ => false,
            },
            r is Ok ==> final(self).pos() == old(self).pos() + 1,
            final(self).pos() >= old(self).pos(),
    {
        match self.peek() {
            Token::Ident(s) => {
                let name = copy_string(s);
                self.advance();
                Ok(name)
            },
            t => {
                let m = m_expected_ident(self.line(), t);
                Err(m)
            },
        }
    }

    fn at_tok(&self, t: Token) -> (r: bool)
        requires
            self.wf(),
        ensures
            r == (tok_at(self.toks(), self.pos()) == t@),
    {
        self.peek().same(&t)
    }

    // ── Placement annotations and types ─────────────────────────────────────

    fn parse_hw_annotation(&mut self) -> (r: Result<Option<HwAnnotation>, String>)
        requires
            old(self).wf(),
        ensures
            final(self).wf(),
            final(self).toks() == old(self).toks(),
            hw_result(r, hw_s(old(self).toks(), old(self).pos()), final(self).pos()),
            final(self).pos() >= old(self).pos(),
    {
        let gpu = match self.peek() {
            Token::AtGpu => true,
            Token::AtCpu => false,
            _ => {
                return Ok(None);
            },
        };
        self.advance();
        if self.at_tok(Token::LParen) {
            self.advance();
            let frac = match self.peek() {
                Token::FloatLit(f) => copy_string(f),
                Token::IntLit(n) => i64_text(*n),
                t => {
                    return Err(m_fraction(self.line(), gpu, t));
                },
            };
            self.advance();
            match self.expect(Token::RParen) {
                Ok(_) => {},
                Err(e) => {
                    return Err(e);
                },
            }
            Ok(Some(if gpu { HwAnnotation::GpuFrac(frac) } else { HwAnnotation::CpuFrac(frac) }))
        } else {
            Ok(Some(if gpu { HwAnnotation::Gpu } else { HwAnnotation::Cpu }))
        }
    }

    fn placement(&mut self) -> (r: Option<HwTarget>)
        requires
            old(self).wf(),
        ensures
            final(self).wf(),
            final(self).toks() == old(self).toks(),
            r == placed_s(old(self).toks(), old(self).pos()).0,
            final(self).pos() == placed_s(old(self).toks(), old(self).pos()).1,
    {
        match self.peek() {
            Token::AtGpu => {
                self.advance();
                Some(HwTarget::Gpu)
            },
            Token::AtCpu => {
                self.advance();
                Some(HwTarget::Cpu)
            },
            _ => None,
        }
    }

    fn parse_type_annotation(&mut self) -> (r: Result<TypeAnnotation, String>)
        requires
            old(self).wf(),
        ensures
            final(self).wf(),
            final(self).toks() == old(self).toks(),
            ann_result(r, type_s(old(self).toks(), old(self).pos()), final(self).pos()),
            r is Ok ==> final(self).pos() > old(self).pos(),
            final(self).pos() >= old(self).pos(),
        decreases old(self).toks().len() - old(self).pos(),
    {
        proof {
            self.lemma_len();
        }
        let ghost ts = self.toks();
        let ghost p = self.pos();
        let r = match self.peek() {
            Token::KwInt64 => {
                self.advance();
                Ok(TypeAnnotation::Int64)
            },
            Token::KwFloat64 => {
                self.advance();
                Ok(TypeAnnotation::Float64)
            },
            Token::KwBool => {
                self.advance();
                Ok(TypeAnnotation::Bool)
            },
            Token::KwString => {
                self.advance();
                Ok(TypeAnnotation::Str)
            },
            Token::KwVoid => {
                self.advance();
                Ok(TypeAnnotation::Void)
            },
            Token::KwTensor => {
                self.advance();
                let h = self.placement();
                Ok(TypeAnnotation::Tensor(h))
            },
            Token::KwModel => {
                self.advance();
                let h = self.placement();
                Ok(TypeAnnotation::Model(h))
            },
            Token::LBracket => {
                self.advance();
                match self.parse_type_annotation() {
                    Ok(inner) => match self.expect(Token::RBracket) {
                        Ok(_) => Ok(TypeAnnotation::Array(Box::new(inner))),
                        Err(e) => Err(e),
                    },
                    Err(e) => Err(e),
                }
            },
            Token::Ident(name) => {
                let n = copy_string(name);
                self.advance();
                Ok(TypeAnnotation::Named(n))
            },
            t => Err(m_expected_type(self.line(), t)),
        };
        r
    }

    // ── Expressions ─────────────────────────────────────────────────────────

    /// Parses an expression at the current token.
    pub fn parse_expr(&mut self) -> (r: Result<Expr, String>)
        requires
            old(self).wf(),
        ensures
            final(self).wf(),
            final(self).toks() == old(self).toks(),
            expr_result(r, expr_s(old(self).toks(), old(self).pos()), final(self).pos()),
            r is Ok ==> final(self).pos() > old(self).pos(),
            final(self).pos() >= old(self).pos(),
        decreases old(self).toks().len() - old(self).pos(), 30nat,
    {
        self.parse_binary(0)
    }

    /// The operator of level `lv` at the current token, if any.
    fn level_operator(&self, lv: usize) -> (r: Option<BinOp>)
        requires
            self.wf(),
            lv <= 5,
        ensures
            r == level_op(lv as nat, tok_at(self.toks(), self.pos())),
    {
        let t = self.peek();
        if lv == 0 {
            match t {
                Token::OrOr => Some(BinOp::Or),
                _ => None,
            }
        } else if lv == 1 {
            match t {
                Token::AndAnd => Some(BinOp::And),
                _ => None,
            }
        } else if lv == 2 {
            match t {
                Token::EqEq => Some(BinOp::EqEq),
                Token::BangEq => Some(BinOp::NotEq),
                _ => None,
            }
        } else if lv == 3 {
            match t {
                Token::Lt => Some(BinOp::Lt),
                Token::Gt => Some(BinOp::Gt),
                Token::LtEq => Some(BinOp::LtEq),
                Token::GtEq => Some(BinOp::GtEq),
                _ => None,
            }
        } else if lv == 4 {
            match t {
                Token::Plus => Some(BinOp::Add),
                Token::Minus => Some(BinOp::Sub),
                _ => None,
            }
        } else {
            match t {
                Token::Star => Some(BinOp::Mul),
                Token::Slash => Some(BinOp::Div),
                Token::Percent => Some(BinOp::Mod),
                _ => None,
            }
        }
    }

    fn parse_operand(&mut self, lv: usize) -> (r: Result<Expr, String>)
        requires
            old(self).wf(),
            lv <= 5,
        ensures
            final(self).wf(),
            final(self).toks() == old(self).toks(),
            expr_result(r, operand_s(old(self).toks(), old(self).pos(), lv as nat), final(self).pos()),
            r is Ok ==> final(self).pos() > old(self).pos(),
            final(self).pos() >= old(self).pos(),
        decreases old(self).toks().len() - old(self).pos(), 21 - 2 * lv,
    {
        if lv == 5 {
            self.parse_unary()
        } else {
            self.parse_binary(lv + 1)
        }
    }

    /// A left-associative chain of the operators of level `lv` (0 `||` up to
    /// 5 `*` `/` `%`).
    fn parse_binary(&mut self, lv: usize) -> (r: Result<Expr, String>)
        requires
            old(self).wf(),
            lv <= 5,
        ensures
            final(self).wf(),
            final(self).toks() == old(self).toks(),
            expr_result(r, bin_s(old(self).toks(), old(self).pos(), lv as nat), final(self).pos()),
            r is Ok ==> final(self).pos() > old(self).pos(),
            final(self).pos() >= old(self).pos(),
        decreases old(self).toks().len() - old(self).pos(), 22 - 2 * lv,
    {
        let ghost ts = self.toks();
        let ghost p0 = self.pos();
        let mut lhs = match self.parse_operand(lv) {
            Ok(e) => e,
            Err(e) => {
                return Err(e);
            },
        };
        assert(keep(ts, p0, self.pos()) == self.pos());
        loop
            invariant
                self.wf(),
                self.toks() == ts,
                ts == old(self).toks(),
                p0 == old(self).pos(),
                self.pos() > p0,
                lv <= 5,
                bin_s(ts, p0, lv as nat) == bin_rest_s(ts, self.pos(), lv as nat, expr_view(&lhs)),
            decreases ts.len() - self.pos(),
        {
            let ghost p = self.pos();
            let op = match self.level_operator(lv) {
                Some(op) => op,
                None => {
                    return Ok(lhs);
                },
            };
            self.advance();
            let rhs = match self.parse_operand(lv) {
                Ok(e) => e,
                Err(e) => {
                    return Err(e);
                },
            };
            proof {
                self.lemma_len();
                assert(step_to(ts, p, self.pos()) == self.pos());
            }
            lhs = Expr::BinOp { op, lhs: Box::new(lhs), rhs: Box::new(rhs) };
        }
    }

    fn parse_unary(&mut self) -> (r: Result<Expr, String>)
        requires
            old(self).wf(),
        ensures
            final(self).wf(),
            final(self).toks() == old(self).toks(),
            expr_result(r, unary_s(old(self).toks(), old(self).pos()), final(self).pos()),
            r is Ok ==> final(self).pos() > old(self).pos(),
            final(self).pos() >= old(self).pos(),
        decreases old(self).toks().len() - old(self).pos(), 8nat,
    {
        proof {
            self.lemma_len();
        }
        let neg = match self.peek() {
            Token::Minus => true,
            Token::Bang => false,
            _ => {
                return self.parse_postfix();
            },
        };
        self.advance();
        match self.parse_unary() {
            Ok(e) => Ok(Expr::UnOp { op: if neg { UnOp::Neg } else { UnOp::Not }, expr: Box::new(e) }),
            Err(e) => Err(e),
        }
    }

    fn parse_postfix(&mut self) -> (r: Result<Expr, String>)
        requires
            old(self).wf(),
        ensures
            final(self).wf(),
            final(self).toks() == old(self).toks(),
            expr_result(r, postfix_s(old(self).toks(), old(self).pos()), final(self).pos()),
            r is Ok ==> final(self).pos() > old(self).pos(),
            final(self).pos() >= old(self).pos(),
        decreases old(self).toks().len() - old(self).pos(), 7nat,
    {
        let ghost ts = self.toks();
        let ghost p0 = self.pos();
        let base = match self.parse_primary() {
            Ok(e) => e,
            Err(e) => {
                return Err(e);
            },
        };
        assert(keep(ts, p0, self.pos()) == self.pos());
        self.parse_postfix_rest(base)
    }

    /// Field accesses, method calls, transfers and indexing after `base`.
    fn parse_postfix_rest(&mut self, base: Expr) -> (r: Result<Expr, String>)
        requires
            old(self).wf(),
        ensures
            final(self).wf(),
            final(self).toks() == old(self).toks(),
            expr_result(r, postfix_rest_s(old(self).toks(), old(self).pos(), expr_view(&base)), final(self).pos()),
            final(self).pos() >= old(self).pos(),
        decreases old(self).toks().len() - old(self).pos(), 6nat,
    {
        proof {
            self.lemma_len();
        }
        let ghost ts = self.toks();
        let ghost p = self.pos();
        let is_dot = match self.peek() {
            Token::Dot => true,
            Token::LBracket => false,
            _ => {
                return Ok(base);
            },
        };
        self.advance();
        if is_dot {
            let name = match self.expect_ident() {
                Ok(n) => n,
                Err(e) => {
                    return Err(e);
                },
            };
            if text_is(&name, "toGpu") || text_is(&name, "toCpu") {
                match self.expect(Token::LParen) {
                    Ok(_) => {},
                    Err(e) => {
                        return Err(e);
                    },
                }
                match self.expect(Token::RParen) {
                    Ok(_) => {},
                    Err(e) => {
                        return Err(e);
                    },
                }
                proof {
                    self.lemma_len();
                    assert(step_to(ts, p, self.pos()) == self.pos());
                }
                let next = if text_is(&name, "toGpu") {
                    Expr::ToGpu(Box::new(base))
                } else {
                    Expr::ToCpu(Box::new(base))
                };
                self.parse_postfix_rest(next)
            } else if self.at_tok(Token::LParen) {
                self.advance();
                let args = match self.parse_arg_list() {
                    Ok(a) => a,
                    Err(e) => {
                        return Err(e);
                    },
                };
                proof {
                    self.lemma_len();
                    assert(step_to(ts, p, self.pos()) == self.pos());
                }
                self.parse_postfix_rest(Expr::MethodCall { obj: Box::new(base), method: name, args })
            } else {
                proof {
                    self.lemma_len();
                    assert(step_to(ts, p, self.pos()) == self.pos());
                }
                self.parse_postfix_rest(Expr::FieldAccess { obj: Box::new(base), field: name })
            }
        } else {
            let idx = match self.parse_expr() {
                Ok(e) => e,
                Err(e) => {
                    return Err(e);
                },
            };
            match self.expect(Token::RBracket) {
                Ok(_) => {},
                Err(e) => {
                    return Err(e);
                },
            }
            proof {
                self.lemma_len();
                assert(step_to(ts, p, self.pos()) == self.pos());
            }
            self.parse_postfix_rest(Expr::Index { obj: Box::new(base), idx: Box::new(idx) })
        }
    }

    /// One expression of a list, and the comma after it if there is one.
    fn parse_list_item(&mut self) -> (r: Result<Expr, String>)
        requires
            old(self).wf(),
        ensures
            final(self).wf(),
            final(self).toks() == old(self).toks(),
            expr_result(r, list_item_s(old(self).toks(), old(self).pos()), final(self).pos()),
            r is Ok ==> final(self).pos() > old(self).pos(),
            final(self).pos() >= old(self).pos(),
        decreases old(self).toks().len() - old(self).pos(), 35nat,
    {
        let e = match self.parse_expr() {
            Ok(e) => e,
            Err(e) => {
                return Err(e);
            },
        };
        if self.at_tok(Token::Comma) {
            self.advance();
        }
        Ok(e)
    }

    /// One `name: value` pair of a struct literal, and the comma after it.
    fn parse_init_item(&mut self) -> (r: Result<(String, Expr), String>)
        requires
            old(self).wf(),
        ensures
            final(self).wf(),
            final(self).toks() == old(self).toks(),
            match (r, init_item_s(old(self).toks(), old(self).pos())) {
                (Ok(v), Ok((sv, p))) => v.0@ == sv.0 && expr_view(&v.1) == sv.1 && final(self).pos() == p,
                (Err(e), Err(m)) => e@ == m,
                _ => false,
            },
            r is Ok ==> final(self).pos() > old(self).pos(),
            final(self).pos() >= old(self).pos(),
        decreases old(self).toks().len() - old(self).pos(), 36nat,
    {
        let fname = match self.expect_ident() {
            Ok(n) => n,
            Err(e) => {
                return Err(e);
            },
        };
        match self.expect(Token::Colon) {
            Ok(_) => {},
            Err(e) => {
                return Err(e);
            },
        }
        match self.parse_list_item() {
            Ok(v) => Ok((fname, v)),
            Err(e) => Err(e),
        }
    }

    /// Expressions separated by optional commas up to `close`, which is consumed.
    fn parse_list(&mut self, close: Token) -> (r: Result<Vec<Expr>, String>)
        requires
            old(self).wf(),
        ensures
            final(self).wf(),
            final(self).toks() == old(self).toks(),
            exprs_result(r, list_s(old(self).toks(), old(self).pos(), close@, seq![]), final(self).pos()),
            r is Ok ==> final(self).pos() > old(self).pos() || close@ == Tok::EOF,
            final(self).pos() >= old(self).pos(),
        decreases old(self).toks().len() - old(self).pos(), 40nat,
    {
        let ghost ts = self.toks();
        let ghost p0 = self.pos();
        let mut items: Vec<Expr> = Vec::new();
        assert(exprs_view(items@) =~= Seq::<ExprV>::empty());
        loop
            invariant
                self.wf(),
                self.toks() == ts,
                ts == old(self).toks(),
                p0 == old(self).pos(),
                self.pos() >= p0,
                list_s(ts, p0, close@, seq![]) == list_s(ts, self.pos(), close@, exprs_view(items@)),
            decreases ts.len() - self.pos(),
        {
            proof {
                self.lemma_len();
            }
            let ghost p = self.pos();
            if self.at_tok(close.copy()) || self.peek().is_eof() {
                return match self.expect(close) {
                    Ok(_) => Ok(items),
                    Err(e) => Err(e),
                };
            }
            let e = match self.parse_list_item() {
                Ok(e) => e,
                Err(e) => {
                    return Err(e);
                },
            };
            proof {
                self.lemma_len();
                assert(step_to(ts, p, self.pos()) == self.pos());
            }
            let ghost prev = items@;
            items.push(e);
            proof {
                assert(items@.drop_last() =~= prev);
                assert(exprs_view(items@) == exprs_view(prev).push(expr_view(&items@.last())));
            }
        }
    }

    fn parse_arg_list(&mut self) -> (r: Result<Vec<Expr>, String>)
        requires
            old(self).wf(),
        ensures
            final(self).wf(),
            final(self).toks() == old(self).toks(),
            exprs_result(r, args_s(old(self).toks(), old(self).pos(), seq![]), final(self).pos()),
            r is Ok ==> final(self).pos() > old(self).pos(),
            final(self).pos() >= old(self).pos(),
        decreases old(self).toks().len() - old(self).pos(), 41nat,
    {
        self.parse_list(Token::RParen)
    }

    /// `name: value` pairs of a struct literal up to `}`, which is consumed.
    fn parse_inits(&mut self) -> (r: Result<Vec<(String, Expr)>, String>)
        requires
            old(self).wf(),
        ensures
            final(self).wf(),
            final(self).toks() == old(self).toks(),
            match (r, inits_s(old(self).toks(), old(self).pos(), seq![])) {
                (Ok(v), Ok((sv, p))) => inits_view(v@) == sv && final(self).pos() == p,
                (Err(e), Err(m)) => e@ == m,
                _ => false,
            },
            r is Ok ==> final(self).pos() > old(self).pos(),
            final(self).pos() >= old(self).pos(),
        decreases old(self).toks().len() - old(self).pos(), 40nat,
    {
        let ghost ts = self.toks();
        let ghost p0 = self.pos();
        let mut fields: Vec<(String, Expr)> = Vec::new();
        assert(inits_view(fields@) =~= Seq::<(Seq<char>, ExprV)>::empty());
        loop
            invariant
                self.wf(),
                self.toks() == ts,
                ts == old(self).toks(),
                p0 == old(self).pos(),
                self.pos() >= p0,
                inits_s(ts, p0, seq![]) == inits_s(ts, self.pos(), inits_view(fields@)),
            decreases ts.len() - self.pos(),
        {
            proof {
                self.lemma_len();
            }
            let ghost p = self.pos();
            if self.at_tok(Token::RBrace) || self.peek().is_eof() {
                return match self.expect(Token::RBrace) {
                    Ok(_) => Ok(fields),
                    Err(e) => Err(e),
                };
            }
            let fv = match self.parse_init_item() {
                Ok(fv) => fv,
                Err(e) => {
                    return Err(e);
                },
            };
            proof {
                self.lemma_len();
                assert(step_to(ts, p, self.pos()) == self.pos());
            }
            let ghost prev = fields@;
            fields.push(fv);
            proof {
                assert(fields@.drop_last() =~= prev);
                assert(inits_view(fields@) == inits_view(prev).push((fields@.last().0@, expr_view(&fields@.last().1))));
            }
        }
    }

    fn parse_primary(&mut self) -> (r: Result<Expr, String>)
        requires
            old(self).wf(),
        ensures
            final(self).wf(),
            final(self).toks() == old(self).toks(),
            expr_result(r, primary_s(old(self).toks(), old(self).pos()), final(self).pos()),
            r is Ok ==> final(self).pos() > old(self).pos(),
            final(self).pos() >= old(self).pos(),
        decreases old(self).toks().len() - old(self).pos(), 5nat,
    {
        proof {
            self.lemma_len();
        }
        let lit = match self.peek() {
            Token::IntLit(n) => Some(Expr::IntLit(*n)),
            Token::FloatLit(f) => Some(Expr::FloatLit(copy_string(f))),
            Token::StringLit(s) => Some(Expr::StringLit(copy_string(s))),
            Token::True => Some(Expr::BoolLit(true)),
            Token::False => Some(Expr::BoolLit(false)),
            _ => None,
        };
        match lit {
            Some(e) => {
                self.advance();
                return Ok(e);
            },
            None => {},
        }
        if self.at_tok(Token::LParen) {
            self.advance();
            let e = match self.parse_expr() {
                Ok(e) => e,
                Err(e) => {
                    return Err(e);
                },
            };
            return match self.expect(Token::RParen) {
                Ok(_) => Ok(e),
                Err(e) => Err(e),
            };
        }
        if self.at_tok(Token::LBracket) {
            self.advance();
            return match self.parse_list(Token::RBracket) {
                Ok(es) => Ok(Expr::ArrayLit(es)),
                Err(e) => Err(e),
            };
        }
        let name = match self.peek() {
            Token::Ident(n) => copy_string(n),
            t => {
                return Err(m_unexpected(self.line(), t));
            },
        };
        self.advance();
        if self.at_tok(Token::LParen) {
            self.advance();
            match self.parse_arg_list() {
                Ok(args) => Ok(Expr::Call { callee: name, args }),
                Err(e) => Err(e),
            }
        } else if self.at_tok(Token::LBrace) {
            self.advance();
            match self.parse_inits() {
                Ok(fields) => Ok(Expr::StructLit { name, fields }),
                Err(e) => Err(e),
            }
        } else {
            Ok(Expr::Ident(name))
        }
    }

    // ── Statements ──────────────────────────────────────────────────────────

    /// The offset just after the `]` closing a bracket opened before `start`.
    fn skip_brackets(&self, start: usize) -> (r: Option<usize>)
        requires
            self.wf(),
            1 <= start <= 11,
        ensures
            match r {
                Some(j) => skip_brackets_s(self.toks(), self.pos(), start as nat, 1) == Some(j as nat) && j > start,
                None => skip_brackets_s(self.toks(), self.pos(), start as nat, 1) is None,
            },
    {
        proof {
            self.lemma_len();
        }
        let ghost ts = self.toks();
        let ghost p = self.pos();
        let mut i = start;
        let mut depth: usize = 1;
        loop
            invariant
                self.wf(),
                ts == self.toks(),
                p == self.pos(),
                ts.len() == self.tokens@.len(),
                start <= i,
                1 <= depth <= i,
                i <= 11 || p + i < ts.len(),
                p + i <= ts.len() + 11,
                skip_brackets_s(ts, p, start as nat, 1) == skip_brackets_s(ts, p, i as nat, depth as nat),
            decreases ts.len() + 12 - (p + i),
        {
            if i >= self.tokens.len() - self.pos - 1 {
                return None;
            }
            match self.peek_ahead(i) {
                Token::LBracket => {
                    depth = depth + 1;
                    i = i + 1;
                },
                Token::RBracket => {
                    if depth <= 1 {
                        return Some(i + 1);
                    }
                    depth = depth - 1;
                    i = i + 1;
                },
                Token::EOF => {
                    return None;
                },
                _ => {
                    i = i + 1;
                },
            }
        }
    }

    /// Whether the statement at the current identifier is an assignment.
    fn is_assignment_ahead(&self) -> (r: bool)
        requires
            self.wf(),
        ensures
            r == assign_ahead_s(self.toks(), self.pos(), 1),
    {
        let ghost ts = self.toks();
        let ghost p = self.pos();
        let mut i: usize = 1;
        loop
            invariant
                self.wf(),
                ts == self.toks(),
                p == self.pos(),
                1 <= i <= 10,
                assign_ahead_s(ts, p, 1) == assign_ahead_s(ts, p, i as nat),
            decreases 11 - i,
        {
            match self.peek_ahead(i) {
                Token::Eq => {
                    return true;
                },
                Token::Dot => {
                    if i + 2 > 10 {
                        return false;
                    }
                    i = i + 2;
                },
                Token::LBracket => {
                    match self.skip_brackets(i + 1) {
                        None => {
                            return false;
                        },
                        Some(j) => {
                            if j > 10 || j <= i {
                                return false;
                            }
                            i = j;
                        },
                    }
                },
                _ => {
                    return false;
                },
            }
        }
    }

    /// `.field` and `[index]` parts of an assignment target after `base`.
    fn parse_lvalue_rest(&mut self, base: Expr) -> (r: Result<Expr, String>)
        requires
            old(self).wf(),
        ensures
            final(self).wf(),
            final(self).toks() == old(self).toks(),
            expr_result(r, lvalue_rest_s(old(self).toks(), old(self).pos(), expr_view(&base)), final(self).pos()),
            final(self).pos() >= old(self).pos(),
        decreases old(self).toks().len() - old(self).pos(),
    {
        proof {
            self.lemma_len();
        }
        let ghost ts = self.toks();
        let ghost p = self.pos();
        let is_dot = match self.peek() {
            Token::Dot => true,
            Token::LBracket => false,
            _ => {
                return Ok(base);
            },
        };
        self.advance();
        if is_dot {
            let f = match self.expect_ident() {
                Ok(n) => n,
                Err(e) => {
                    return Err(e);
                },
            };
            proof {
                self.lemma_len();
                assert(step_to(ts, p, self.pos()) == self.pos());
            }
            self.parse_lvalue_rest(Expr::FieldAccess { obj: Box::new(base), field: f })
        } else {
            let idx = match self.parse_expr() {
                Ok(e) => e,
                Err(e) => {
                    return Err(e);
                },
            };
            match self.expect(Token::RBracket) {
                Ok(_) => {},
                Err(e) => {
                    return Err(e);
                },
            }
            proof {
                self.lemma_len();
                assert(step_to(ts, p, self.pos()) == self.pos());
            }
            self.parse_lvalue_rest(Expr::Index { obj: Box::new(base), idx: Box::new(idx) })
        }
    }

    fn parse_assign(&mut self) -> (r: Result<Stmt, String>)
        requires
            old(self).wf(),
        ensures
            final(self).wf(),
            final(self).toks() == old(self).toks(),
            stmt_result(r, assign_s(old(self).toks(), old(self).pos()), final(self).pos()),
            r is Ok ==> final(self).pos() > old(self).pos(),
            final(self).pos() >= old(self).pos(),
    {
        let name = match self.expect_ident() {
            Ok(n) => n,
            Err(e) => {
                return Err(e);
            },
        };
        let lhs = match self.parse_lvalue_rest(Expr::Ident(name)) {
            Ok(e) => e,
            Err(e) => {
                return Err(e);
            },
        };
        match self.expect(Token::Eq) {
            Ok(_) => {},
            Err(e) => {
                return Err(e);
            },
        }
        let value = match self.parse_expr() {
            Ok(e) => e,
            Err(e) => {
                return Err(e);
            },
        };
        match self.expect(Token::Semicolon) {
            Ok(_) => {},
            Err(e) => {
                return Err(e);
            },
        }
        let target = match lhs {
            Expr::Ident(n) => AssignTarget::Ident(n),
            Expr::FieldAccess { obj, field } => AssignTarget::Field(obj, field),
            Expr::Index { obj, idx } => AssignTarget::Index(obj, idx),
            _ => {
                return Err(m_bad_target(self.line()));
            },
        };
        Ok(Stmt::Assign { target, value })
    }

    fn parse_let(&mut self, mutable: bool, hw: Option<HwAnnotation>) -> (r: Result<Stmt, String>)
        requires
            old(self).wf(),
            tok_at(old(self).toks(), old(self).pos()) != Tok::EOF,
        ensures
            final(self).wf(),
            final(self).toks() == old(self).toks(),
            stmt_result(r, let_s(old(self).toks(), old(self).pos(), mutable, opt_hw_view(&hw)), final(self).pos()),
            r is Ok ==> final(self).pos() > old(self).pos(),
            final(self).pos() >= old(self).pos(),
    {
        self.advance();
        let name = match self.expect_ident() {
            Ok(n) => n,
            Err(e) => {
                return Err(e);
            },
        };
        let ty = if self.at_tok(Token::Colon) {
            self.advance();
            match self.parse_type_annotation() {
                Ok(t) => Some(t),
                Err(e) => {
                    return Err(e);
                },
            }
        } else {
            None
        };
        match self.expect(Token::Eq) {
            Ok(_) => {},
            Err(e) => {
                return Err(e);
            },
        }
        let init = match self.parse_expr() {
            Ok(e) => e,
            Err(e) => {
                return Err(e);
            },
        };
        match self.expect(Token::Semicolon) {
            Ok(_) => {},
            Err(e) => {
                return Err(e);
            },
        }
        Ok(Stmt::Let { mutable, name, ty, init, hw })
    }

    fn parse_expr_stmt(&mut self) -> (r: Result<Stmt, String>)
        requires
            old(self).wf(),
        ensures
            final(self).wf(),
            final(self).toks() == old(self).toks(),
            stmt_result(r, expr_stmt_s(old(self).toks(), old(self).pos()), final(self).pos()),
            r is Ok ==> final(self).pos() > old(self).pos(),
            final(self).pos() >= old(self).pos(),
    {
        let e = match self.parse_expr() {
            Ok(e) => e,
            Err(e) => {
                return Err(e);
            },
        };
        match self.expect(Token::Semicolon) {
            Ok(_) => Ok(Stmt::ExprStmt(e)),
            Err(e) => Err(e),
        }
    }

    /// A statement, after the annotation `hw` given by the caller or, when
    /// there is none, one read here.
    fn parse_stmt_hw(&mut self, hw: Option<HwAnnotation>) -> (r: Result<Stmt, String>)
        requires
            old(self).wf(),
        ensures
            final(self).wf(),
            final(self).toks() == old(self).toks(),
            stmt_result(r, stmt_hw_s(old(self).toks(), old(self).pos(), opt_hw_view(&hw)), final(self).pos()),
            r is Ok ==> final(self).pos() > old(self).pos(),
            final(self).pos() >= old(self).pos(),
        decreases old(self).toks().len() - old(self).pos(), 10nat,
    {
        let ghost ts = self.toks();
        let ghost p = self.pos();
        let hw = match hw {
            Some(h) => Some(h),
            None => match self.parse_hw_annotation() {
                Ok(h) => h,
                Err(e) => {
                    return Err(e);
                },
            },
        };
        proof {
            self.lemma_len();
            assert(keep(ts, p, self.pos()) == self.pos());
        }
        self.parse_stmt_body(hw)
    }

    #[verifier::rlimit(40)]
    fn parse_stmt_body(&mut self, hw: Option<HwAnnotation>) -> (r: Result<Stmt, String>)
        requires
            old(self).wf(),
        ensures
            final(self).wf(),
            final(self).toks() == old(self).toks(),
            stmt_result(r, stmt_body_s(old(self).toks(), old(self).pos(), opt_hw_view(&hw)), final(self).pos()),
            r is Ok ==> final(self).pos() > old(self).pos(),
            final(self).pos() >= old(self).pos(),
        decreases old(self).toks().len() - old(self).pos(), 9nat,
    {
        proof {
            self.lemma_len();
        }
        match self.peek() {
            Token::Let => self.parse_let(false, hw),
            Token::Mut => self.parse_let(true, hw),
            Token::Return => {
                self.advance();
                if self.at_tok(Token::Semicolon) {
                    self.advance();
                    Ok(Stmt::Return(None))
                } else {
                    let e = match self.parse_expr() {
                        Ok(e) => e,
                        Err(e) => {
                            return Err(e);
                        },
                    };
                    match self.expect(Token::Semicolon) {
                        Ok(_) => Ok(Stmt::Return(Some(e))),
                        Err(e) => Err(e),
                    }
                }
            },
            Token::Break => {
                self.advance();
                match self.expect(Token::Semicolon) {
                    Ok(_) => Ok(Stmt::Break),
                    Err(e) => Err(e),
                }
            },
            Token::Continue => {
                self.advance();
                match self.expect(Token::Semicolon) {
                    Ok(_) => Ok(Stmt::Continue),
                    Err(e) => Err(e),
                }
            },
            Token::If => self.parse_if(),
            Token::While => self.parse_while(),
            Token::For => self.parse_for(),
            Token::Gpu => {
                self.advance();
                match self.parse_block() {
                    Ok(b) => Ok(Stmt::GpuBlock(b)),
                    Err(e) => Err(e),
                }
            },
            Token::Import => match self.parse_import() {
                Ok(i) => Ok(Stmt::Import(i)),
                Err(e) => Err(e),
            },
            Token::Ident(_) => {
                if self.is_assignment_ahead() {
                    self.parse_assign()
                } else {
                    self.parse_expr_stmt()
                }
            },
            _ => self.parse_expr_stmt(),
        }
    }

    /// `( cond )` after the keyword at the current token.
    fn parse_cond(&mut self) -> (r: Result<Expr, String>)
        requires
            old(self).wf(),
            tok_at(old(self).toks(), old(self).pos()) != Tok::EOF,
        ensures
            final(self).wf(),
            final(self).toks() == old(self).toks(),
            expr_result(r, cond_s(old(self).toks(), old(self).pos()), final(self).pos()),
            r is Ok ==> final(self).pos() > old(self).pos(),
            final(self).pos() >= old(self).pos(),
    {
        self.advance();
        match self.expect(Token::LParen) {
            Ok(_) => {},
            Err(e) => {
                return Err(e);
            },
        }
        let e = match self.parse_expr() {
            Ok(e) => e,
            Err(e) => {
                return Err(e);
            },
        };
        match self.expect(Token::RParen) {
            Ok(_) => Ok(e),
            Err(e) => Err(e),
        }
    }

    fn parse_if(&mut self) -> (r: Result<Stmt, String>)
        requires
            old(self).wf(),
            tok_at(old(self).toks(), old(self).pos()) != Tok::EOF,
        ensures
            final(self).wf(),
            final(self).toks() == old(self).toks(),
            stmt_result(r, if_s(old(self).toks(), old(self).pos()), final(self).pos()),
            r is Ok ==> final(self).pos() > old(self).pos(),
            final(self).pos() >= old(self).pos(),
        decreases old(self).toks().len() - old(self).pos(), 8nat,
    {
        let ghost ts = self.toks();
        let ghost p = self.pos();
        let cond = match self.parse_cond() {
            Ok(e) => e,
            Err(e) => {
                return Err(e);
            },
        };
        proof {
            self.lemma_len();
            assert(step_to(ts, p, self.pos()) == self.pos());
        }
        let then_block = match self.parse_block() {
            Ok(b) => b,
            Err(e) => {
                return Err(e);
            },
        };
        proof {
            self.lemma_len();
            assert(keep(ts, p, self.pos()) == self.pos());
        }
        match self.parse_else() {
            Ok(else_block) => Ok(Stmt::If { cond, then_block, else_block }),
            Err(e) => Err(e),
        }
    }

    /// An optional `else` part: a block, or an `if` (an `else if` chain).
    fn parse_else(&mut self) -> (r: Result<Option<Vec<Stmt>>, String>)
        requires
            old(self).wf(),
        ensures
            final(self).wf(),
            final(self).toks() == old(self).toks(),
            match (r, else_s(old(self).toks(), old(self).pos())) {
                (Ok(v), Ok((sv, p))) => final(self).pos() == p && (match v {
                    Some(b) => sv == Some(stmts_view(b@)),
                    None => sv is None,
                }),
                (Err(e), Err(m)) => e@ == m,
                _ => false,
            },
            final(self).pos() >= old(self).pos(),
        decreases old(self).toks().len() - old(self).pos(), 7nat,
    {
        let ghost ts = self.toks();
        let ghost p = self.pos();
        if !self.at_tok(Token::Else) {
            return Ok(None);
        }
        self.advance();
        proof {
            self.lemma_len();
            assert(step_to(ts, p, self.pos()) == self.pos());
        }
        if self.at_tok(Token::If) {
            let s = match self.parse_if() {
                Ok(s) => s,
                Err(e) => {
                    return Err(e);
                },
            };
            let mut v: Vec<Stmt> = Vec::new();
            v.push(s);
            proof {
                assert(v@.drop_last() =~= Seq::<Stmt>::empty());
                assert(stmts_view(v@.drop_last()) == Seq::<StmtV>::empty());
                assert(stmts_view(v@) =~= seq![stmt_view(&v@[0])]);
            }
            Ok(Some(v))
        } else {
            match self.parse_block() {
                Ok(b) => Ok(Some(b)),
                Err(e) => Err(e),
            }
        }
    }

    fn parse_while(&mut self) -> (r: Result<Stmt, String>)
        requires
            old(self).wf(),
            tok_at(old(self).toks(), old(self).pos()) != Tok::EOF,
        ensures
            final(self).wf(),
            final(self).toks() == old(self).toks(),
            stmt_result(r, while_s(old(self).toks(), old(self).pos()), final(self).pos()),
            r is Ok ==> final(self).pos() > old(self).pos(),
            final(self).pos() >= old(self).pos(),
        decreases old(self).toks().len() - old(self).pos(), 8nat,
    {
        let ghost ts = self.toks();
        let ghost p = self.pos();
        let cond = match self.parse_cond() {
            Ok(e) => e,
            Err(e) => {
                return Err(e);
            },
        };
        proof {
            self.lemma_len();
            assert(step_to(ts, p, self.pos()) == self.pos());
        }
        match self.parse_block() {
            Ok(body) => Ok(Stmt::While { cond, body }),
            Err(e) => Err(e),
        }
    }

    fn parse_for(&mut self) -> (r: Result<Stmt, String>)
        requires
            old(self).wf(),
            tok_at(old(self).toks(), old(self).pos()) != Tok::EOF,
        ensures
            final(self).wf(),
            final(self).toks() == old(self).toks(),
            stmt_result(r, for_s(old(self).toks(), old(self).pos()), final(self).pos()),
            r is Ok ==> final(self).pos() > old(self).pos(),
            final(self).pos() >= old(self).pos(),
        decreases old(self).toks().len() - old(self).pos(), 8nat,
    {
        let ghost ts = self.toks();
        let ghost p = self.pos();
        self.advance();
        match self.expect(Token::LParen) {
            Ok(_) => {},
            Err(e) => {
                return Err(e);
            },
        }
        let var = match self.expect_ident() {
            Ok(n) => n,
            Err(e) => {
                return Err(e);
            },
        };
        match self.expect(Token::In) {
            Ok(_) => {},
            Err(e) => {
                return Err(e);
            },
        }
        let start = match self.parse_expr() {
            Ok(e) => e,
            Err(e) => {
                return Err(e);
            },
        };
        match self.expect(Token::DotDot) {
            Ok(_) => {},
            Err(e) => {
                return Err(e);
            },
        }
        let end = match self.parse_expr() {
            Ok(e) => e,
            Err(e) => {
                return Err(e);
            },
        };
        match self.expect(Token::RParen) {
            Ok(_) => {},
            Err(e) => {
                return Err(e);
            },
        }
        proof {
            self.lemma_len();
            assert(step_to(ts, p, self.pos()) == self.pos());
        }
        match self.parse_block() {
            Ok(body) => Ok(Stmt::For { var, start, end, body }),
            Err(e) => Err(e),
        }
    }

    fn parse_block(&mut self) -> (r: Result<Vec<Stmt>, String>)
        requires
            old(self).wf(),
        ensures
            final(self).wf(),
            final(self).toks() == old(self).toks(),
            stmts_result(r, block_s(old(self).toks(), old(self).pos()), final(self).pos()),
            r is Ok ==> final(self).pos() > old(self).pos(),
            final(self).pos() >= old(self).pos(),
        decreases old(self).toks().len() - old(self).pos(), 12nat,
    {
        let ghost ts = self.toks();
        let ghost p = self.pos();
        match self.expect(Token::LBrace) {
            Ok(_) => {},
            Err(e) => {
                return Err(e);
            },
        }
        proof {
            self.lemma_len();
            assert(step_to(ts, p, self.pos()) == self.pos());
        }
        self.parse_stmts()
    }

    /// Statements up to `}`, which is consumed.
    fn parse_stmts(&mut self) -> (r: Result<Vec<Stmt>, String>)
        requires
            old(self).wf(),
        ensures
            final(self).wf(),
            final(self).toks() == old(self).toks(),
            stmts_result(r, stmts_s(old(self).toks(), old(self).pos(), seq![]), final(self).pos()),
            r is Ok ==> final(self).pos() > old(self).pos(),
            final(self).pos() >= old(self).pos(),
        decreases old(self).toks().len() - old(self).pos(), 13nat,
    {
        let ghost ts = self.toks();
        let ghost p0 = self.pos();
        let mut stmts: Vec<Stmt> = Vec::new();
        assert(stmts_view(stmts@) =~= Seq::<StmtV>::empty());
        loop
            invariant
                self.wf(),
                self.toks() == ts,
                ts == old(self).toks(),
                p0 == old(self).pos(),
                self.pos() >= p0,
                stmts_s(ts, p0, seq![]) == stmts_s(ts, self.pos(), stmts_view(stmts@)),
            decreases ts.len() - self.pos(),
        {
            proof {
                self.lemma_len();
            }
            let ghost p = self.pos();
            let doc_line = match self.peek() {
                Token::DocComment(_) => true,
                _ => false,
            };
            if doc_line {
                self.advance();
                proof {
                    self.lemma_len();
                    assert(self.pos() == p + 1);
                    assert(step_to(ts, p, p + 1) == p + 1);
                }
                continue;
            }
            if self.at_tok(Token::RBrace) || self.peek().is_eof() {
                return match self.expect(Token::RBrace) {
                    Ok(_) => Ok(stmts),
                    Err(e) => Err(e),
                };
            }
            let s = match self.parse_stmt_hw(None) {
                Ok(s) => s,
                Err(e) => {
                    return Err(e);
                },
            };
            proof {
                self.lemma_len();
                assert(step_to(ts, p, self.pos()) == self.pos());
            }
            let ghost prev = stmts@;
            stmts.push(s);
            proof {
                assert(stmts@.drop_last() =~= prev);
                assert(stmts_view(stmts@) == stmts_view(prev).push(stmt_view(&stmts@.last())));
            }
        }
    }

    // ── Imports, structs, functions ─────────────────────────────────────────

    /// A name and the comma after it, if there is one.
    fn parse_name_item(&mut self) -> (r: Result<String, String>)
        requires
            old(self).wf(),
        ensures
            final(self).wf(),
            final(self).toks() == old(self).toks(),
            match (r, name_item_s(old(self).toks(), old(self).pos())) {
                (Ok(v), Ok((sv, p))) => v@ == sv && final(self).pos() == p,
                (Err(e), Err(m)) => e@ == m,
                _ => false,
            },
            r is Ok ==> final(self).pos() > old(self).pos(),
            final(self).pos() >= old(self).pos(),
    {
        let n = match self.expect_ident() {
            Ok(n) => n,
            Err(e) => {
                return Err(e);
            },
        };
        if self.at_tok(Token::Comma) {
            self.advance();
        }
        Ok(n)
    }

    /// `import a.b.c;`, `import a.b.*;` or `import a.b.{x, y};`.
    fn parse_import(&mut self) -> (r: Result<Import, String>)
        requires
            old(self).wf(),
            tok_at(old(self).toks(), old(self).pos()) != Tok::EOF,
        ensures
            final(self).wf(),
            final(self).toks() == old(self).toks(),
            match (r, import_s(old(self).toks(), old(self).pos())) {
                (Ok(v), Ok((sv, p))) => import_view(&v) == sv && final(self).pos() == p,
                (Err(e), Err(m)) => e@ == m,
                _ => false,
            },
            r is Ok ==> final(self).pos() > old(self).pos(),
            final(self).pos() >= old(self).pos(),
    {
        let ghost ts = self.toks();
        self.advance();
        let first = match self.expect_ident() {
            Ok(n) => n,
            Err(e) => {
                return Err(e);
            },
        };
        let mut path: Vec<String> = Vec::new();
        path.push(first);
        proof {
            assert(path@.drop_last() =~= Seq::<String>::empty());
            assert(names_view(path@) =~= seq![path@[0]@]);
        }
        let path = match self.parse_path(path) {
            Ok(p) => p,
            Err(e) => {
                return Err(e);
            },
        };
        let kind = if self.at_tok(Token::Dot) {
            self.advance();
            if self.at_tok(Token::Star) {
                self.advance();
                ImportKind::Glob
            } else if self.at_tok(Token::LBrace) {
                self.advance();
                match self.parse_names() {
                    Ok(ns) => ImportKind::Named(ns),
                    Err(e) => {
                        return Err(e);
                    },
                }
            } else {
                return Err(m_import_kind(self.line()));
            }
        } else {
            ImportKind::Module
        };
        match self.expect(Token::Semicolon) {
            Ok(_) => Ok(Import { path, kind }),
            Err(e) => Err(e),
        }
    }

    /// Further `.segment`s of an import path after `path`.
    #[verifier::loop_isolation(false)]
    fn parse_path(&mut self, path: Vec<String>) -> (r: Result<Vec<String>, String>)
        requires
            old(self).wf(),
        ensures
            final(self).wf(),
            final(self).toks() == old(self).toks(),
            match (r, path_s(old(self).toks(), old(self).pos(), names_view(path@))) {
                (Ok(v), Ok((sv, p))) => names_view(v@) == sv && final(self).pos() == p,
                (Err(e), Err(m)) => e@ == m,
                _ => false,
            },
            final(self).pos() >= old(self).pos(),
    {
        let ghost ts = self.toks();
        let ghost p0 = self.pos();
        let ghost acc0 = names_view(path@);
        let mut path = path;
        loop
            invariant
                self.wf(),
                self.toks() == ts,
                ts == old(self).toks(),
                p0 == old(self).pos(),
                self.pos() >= p0,
                path_s(ts, p0, acc0) == path_s(ts, self.pos(), names_view(path@)),
            decreases ts.len() - self.pos(),
        {
            proof {
                self.lemma_len();
            }
            let ghost p = self.pos();
            if !self.at_tok(Token::Dot) {
                return Ok(path);
            }
            let stop = match self.peek_ahead(1) {
                Token::Star | Token::LBrace | Token::EOF | Token::Semicolon => true,
                _ => false,
            };
            if stop {
                return Ok(path);
            }
            self.advance();
            let n = match self.expect_ident() {
                Ok(n) => n,
                Err(e) => {
                    return Err(e);
                },
            };
            proof {
                self.lemma_len();
                assert(step_to(ts, p, self.pos()) == self.pos());
            }
            let ghost prev = path@;
            path.push(n);
            assert(names_view(path@) =~= names_view(prev).push(path@.last()@));
        }
    }

    /// Names up to `}`, which is consumed.
    fn parse_names(&mut self) -> (r: Result<Vec<String>, String>)
        requires
            old(self).wf(),
        ensures
            final(self).wf(),
            final(self).toks() == old(self).toks(),
            match (r, names_s(old(self).toks(), old(self).pos(), seq![])) {
                (Ok(v), Ok((sv, p))) => names_view(v@) == sv && final(self).pos() == p,
                (Err(e), Err(m)) => e@ == m,
                _ => false,
            },
            final(self).pos() >= old(self).pos(),
    {
        let ghost ts = self.toks();
        let ghost p0 = self.pos();
        let mut names: Vec<String> = Vec::new();
        assert(names_view(names@) =~= Seq::<Seq<char>>::empty());
        loop
            invariant
                self.wf(),
                self.toks() == ts,
                ts == old(self).toks(),
                p0 == old(self).pos(),
                self.pos() >= p0,
                names_s(ts, p0, seq![]) == names_s(ts, self.pos(), names_view(names@)),
            decreases ts.len() - self.pos(),
        {
            proof {
                self.lemma_len();
            }
            let ghost p = self.pos();
            if self.at_tok(Token::RBrace) || self.peek().is_eof() {
                return match self.expect(Token::RBrace) {
                    Ok(_) => Ok(names),
                    Err(e) => Err(e),
                };
            }
            let n = match self.parse_name_item() {
                Ok(n) => n,
                Err(e) => {
                    return Err(e);
                },
            };
            proof {
                self.lemma_len();
                assert(step_to(ts, p, self.pos()) == self.pos());
            }
            let ghost prev = names@;
            names.push(n);
            assert(names_view(names@) =~= names_view(prev).push(names@.last()@));
        }
    }

    /// A field `name: type` and the comma after it, if there is one.
    fn parse_field_def(&mut self) -> (r: Result<FieldDef, String>)
        requires
            old(self).wf(),
        ensures
            final(self).wf(),
            final(self).toks() == old(self).toks(),
            match (r, field_def_item_s(old(self).toks(), old(self).pos())) {
                (Ok(v), Ok((sv, p))) => (v.name@, ann_view(&v.ty)) == sv && final(self).pos() == p,
                (Err(e), Err(m)) => e@ == m,
                _ => false,
            },
            r is Ok ==> final(self).pos() > old(self).pos(),
            final(self).pos() >= old(self).pos(),
    {
        let name = match self.expect_ident() {
            Ok(n) => n,
            Err(e) => {
                return Err(e);
            },
        };
        match self.expect(Token::Colon) {
            Ok(_) => {},
            Err(e) => {
                return Err(e);
            },
        }
        let ty = match self.parse_type_annotation() {
            Ok(t) => t,
            Err(e) => {
                return Err(e);
            },
        };
        if self.at_tok(Token::Comma) {
            self.advance();
        }
        Ok(FieldDef { name, ty })
    }

    /// `struct Name { fields }`; no annotation or documentation yet.
    fn parse_struct(&mut self) -> (r: Result<StructDef, String>)
        requires
            old(self).wf(),
            tok_at(old(self).toks(), old(self).pos()) != Tok::EOF,
        ensures
            final(self).wf(),
            final(self).toks() == old(self).toks(),
            match (r, struct_s(old(self).toks(), old(self).pos())) {
                (Ok(v), Ok((sv, p))) => struct_view(&v) == sv && final(self).pos() == p,
                (Err(e), Err(m)) => e@ == m,
                _ => false,
            },
            r is Ok ==> final(self).pos() > old(self).pos(),
            final(self).pos() >= old(self).pos(),
    {
        let ghost ts = self.toks();
        self.advance();
        let name = match self.expect_ident() {
            Ok(n) => n,
            Err(e) => {
                return Err(e);
            },
        };
        match self.expect(Token::LBrace) {
            Ok(_) => {},
            Err(e) => {
                return Err(e);
            },
        }
        match self.parse_field_defs() {
            Ok(fields) => Ok(StructDef { name, fields, hw: None, doc: None }),
            Err(e) => Err(e),
        }
    }

    /// Fields up to `}`, which is consumed.
    fn parse_field_defs(&mut self) -> (r: Result<Vec<FieldDef>, String>)
        requires
            old(self).wf(),
        ensures
            final(self).wf(),
            final(self).toks() == old(self).toks(),
            match (r, field_defs_s(old(self).toks(), old(self).pos(), seq![])) {
                (Ok(v), Ok((sv, p))) => field_defs_view(v@) == sv && final(self).pos() == p,
                (Err(e), Err(m)) => e@ == m,
                _ => false,
            },
            final(self).pos() >= old(self).pos(),
    {
        let ghost ts = self.toks();
        let ghost p0 = self.pos();
        let mut fields: Vec<FieldDef> = Vec::new();
        assert(field_defs_view(fields@) =~= Seq::<(Seq<char>, TyAnnV)>::empty());
        loop
            invariant
                self.wf(),
                self.toks() == ts,
                ts == old(self).toks(),
                p0 == old(self).pos(),
                self.pos() >= p0,
                field_defs_s(ts, p0, seq![]) == field_defs_s(ts, self.pos(), field_defs_view(fields@)),
            decreases ts.len() - self.pos(),
        {
            proof {
                self.lemma_len();
            }
            let ghost p = self.pos();
            if self.at_tok(Token::RBrace) || self.peek().is_eof() {
                return match self.expect(Token::RBrace) {
                    Ok(_) => Ok(fields),
                    Err(e) => Err(e),
                };
            }
            let f = match self.parse_field_def() {
                Ok(f) => f,
                Err(e) => {
                    return Err(e);
                },
            };
            proof {
                self.lemma_len();
                assert(step_to(ts, p, self.pos()) == self.pos());
            }
            let ghost prev = fields@;
            fields.push(f);
            assert(field_defs_view(fields@) =~= field_defs_view(prev).push(
                (fields@.last().name@, ann_view(&fields@.last().ty)),
            ));
        }
    }

    /// A parameter `[@hw] type name` and the comma after it, if there is one.
    fn parse_param(&mut self) -> (r: Result<Param, String>)
        requires
            old(self).wf(),
        ensures
            final(self).wf(),
            final(self).toks() == old(self).toks(),
            match (r, param_item_s(old(self).toks(), old(self).pos())) {
                (Ok(v), Ok((sv, p))) => (ParamV { name: v.name@, ty: ann_view(&v.ty), hw: opt_hw_view(&v.hw) })
                    == sv && final(self).pos() == p,
                (Err(e), Err(m)) => e@ == m,
                _ => false,
            },
            r is Ok ==> final(self).pos() > old(self).pos(),
            final(self).pos() >= old(self).pos(),
    {
        let hw = match self.parse_hw_annotation() {
            Ok(h) => h,
            Err(e) => {
                return Err(e);
            },
        };
        let ty = match self.parse_type_annotation() {
            Ok(t) => t,
            Err(e) => {
                return Err(e);
            },
        };
        let name = match self.expect_ident() {
            Ok(n) => n,
            Err(e) => {
                return Err(e);
            },
        };
        if self.at_tok(Token::Comma) {
            self.advance();
        }
        Ok(Param { name, ty, hw })
    }

    /// Parameters up to `)`, which is consumed.
    fn parse_params(&mut self) -> (r: Result<Vec<Param>, String>)
        requires
            old(self).wf(),
        ensures
            final(self).wf(),
            final(self).toks() == old(self).toks(),
            match (r, params_s(old(self).toks(), old(self).pos(), seq![])) {
                (Ok(v), Ok((sv, p))) => params_view(v@) == sv && final(self).pos() == p,
                (Err(e), Err(m)) => e@ == m,
                _ => false,
            },
            final(self).pos() >= old(self).pos(),
    {
        let ghost ts = self.toks();
        let ghost p0 = self.pos();
        let mut params: Vec<Param> = Vec::new();
        assert(params_view(params@) =~= Seq::<ParamV>::empty());
        loop
            invariant
                self.wf(),
                self.toks() == ts,
                ts == old(self).toks(),
                p0 == old(self).pos(),
                self.pos() >= p0,
                params_s(ts, p0, seq![]) == params_s(ts, self.pos(), params_view(params@)),
            decreases ts.len() - self.pos(),
        {
            proof {
                self.lemma_len();
            }
            let ghost p = self.pos();
            if self.at_tok(Token::RParen) || self.peek().is_eof() {
                return match self.expect(Token::RParen) {
                    Ok(_) => Ok(params),
                    Err(e) => Err(e),
                };
            }
            let pa = match self.parse_param() {
                Ok(pa) => pa,
                Err(e) => {
                    return Err(e);
                },
            };
            proof {
                self.lemma_len();
                assert(step_to(ts, p, self.pos()) == self.pos());
            }
            let ghost prev = params@;
            params.push(pa);
            assert(params_view(params@) =~= params_view(prev).push(
                ParamV {
                    name: params@.last().name@,
                    ty: ann_view(&params@.last().ty),
                    hw: opt_hw_view(&params@.last().hw),
                },
            ));
        }
    }

    /// `fn name(params) [-> type] { body }`; no annotation or documentation yet.
    fn parse_fn(&mut self) -> (r: Result<FnDef, String>)
        requires
            old(self).wf(),
            tok_at(old(self).toks(), old(self).pos()) != Tok::EOF,
        ensures
            final(self).wf(),
            final(self).toks() == old(self).toks(),
            match (r, fn_s(old(self).toks(), old(self).pos())) {
                (Ok(v), Ok((sv, p))) => fn_view(&v) == sv && final(self).pos() == p,
                (Err(e), Err(m)) => e@ == m,
                _ => false,
            },
            r is Ok ==> final(self).pos() > old(self).pos(),
            final(self).pos() >= old(self).pos(),
    {
        let ghost ts = self.toks();
        let line = self.line();
        self.advance();
        let name = match self.expect_ident() {
            Ok(n) => n,
            Err(e) => {
                return Err(e);
            },
        };
        match self.expect(Token::LParen) {
            Ok(_) => {},
            Err(e) => {
                return Err(e);
            },
        }
        let params = match self.parse_params() {
            Ok(ps) => ps,
            Err(e) => {
                return Err(e);
            },
        };
        let ret_ty = if self.at_tok(Token::Arrow) {
            self.advance();
            match self.parse_type_annotation() {
                Ok(t) => t,
                Err(e) => {
                    return Err(e);
                },
            }
        } else {
            TypeAnnotation::Void
        };
        let body = match self.parse_block() {
            Ok(b) => b,
            Err(e) => {
                return Err(e);
            },
        };
        Ok(FnDef { name, params, ret_ty, body, line, hw: None, doc: None })
    }

    // ── The program ─────────────────────────────────────────────────────────

    /// Consecutive documentation lines.
    fn parse_docs(&mut self) -> (r: Vec<String>)
        requires
            old(self).wf(),
        ensures
            final(self).wf(),
            final(self).toks() == old(self).toks(),
            names_view(r@) == docs_s(old(self).toks(), old(self).pos(), seq![]).0,
            final(self).pos() == docs_s(old(self).toks(), old(self).pos(), seq![]).1,
            final(self).pos() >= old(self).pos(),
    {
        let ghost ts = self.toks();
        let ghost p0 = self.pos();
        let mut lines: Vec<String> = Vec::new();
        assert(names_view(lines@) =~= Seq::<Seq<char>>::empty());
        loop
            invariant
                self.wf(),
                self.toks() == ts,
                ts == old(self).toks(),
                p0 == old(self).pos(),
                self.pos() >= p0,
                docs_s(ts, p0, seq![]) == docs_s(ts, self.pos(), names_view(lines@)),
            decreases ts.len() - self.pos(),
        {
            proof {
                self.lemma_len();
            }
            let text = match self.peek() {
                Token::DocComment(s) => copy_string(s),
                _ => {
                    return lines;
                },
            };
            self.advance();
            let ghost prev = lines@;
            lines.push(text);
            assert(names_view(lines@) =~= names_view(prev).push(lines@.last()@));
        }
    }

    /// One item of a program, added to the parts parsed so far.
    fn parse_item(
        &mut self,
        imports: &mut Vec<Import>,
        structs: &mut Vec<StructDef>,
        fns: &mut Vec<FnDef>,
        top_level: &mut Vec<Stmt>,
        Ghost(acc): Ghost<ProgramV>,
    ) -> (r: Result<(), String>)
        requires
            old(self).wf(),
            holds(old(imports)@, old(structs)@, old(fns)@, old(top_level)@, acc),
            tok_at(old(self).toks(), old(self).pos()) != Tok::EOF,
        ensures
            final(self).wf(),
            final(self).toks() == old(self).toks(),
            match (r, item_s(old(self).toks(), old(self).pos(), acc)) {
                (Ok(_), Ok((acc2, p))) => holds(final(imports)@, final(structs)@, final(fns)@, final(top_level)@, acc2)
                    && final(self).pos() == p,
                (Err(e), Err(m)) => e@ == m,
                _ => false,
            },
            r is Ok ==> final(self).pos() > old(self).pos(),
            final(self).pos() >= old(self).pos(),
    {
        proof {
            reveal(item_s);
        }
        let doc_lines = self.parse_docs();
        let doc = if doc_lines.len() == 0 {
            None
        } else {
            Some(join_doc_lines(&doc_lines))
        };
        let hw = match self.parse_hw_annotation() {
            Ok(h) => h,
            Err(e) => {
                return Err(e);
            },
        };
        self.parse_item_body(hw, doc, imports, structs, fns, top_level, Ghost(acc))
    }

    /// The item after its documentation and annotation.
    fn parse_item_body(
        &mut self,
        hw: Option<HwAnnotation>,
        doc: Option<String>,
        imports: &mut Vec<Import>,
        structs: &mut Vec<StructDef>,
        fns: &mut Vec<FnDef>,
        top_level: &mut Vec<Stmt>,
        Ghost(acc): Ghost<ProgramV>,
    ) -> (r: Result<(), String>)
        requires
            old(self).wf(),
            holds(old(imports)@, old(structs)@, old(fns)@, old(top_level)@, acc),
        ensures
            final(self).wf(),
            final(self).toks() == old(self).toks(),
            match (r, item_body_s(old(self).toks(), old(self).pos(), opt_hw_view(&hw), opt_text(&doc), acc)) {
                (Ok(_), Ok((acc2, p))) => holds(final(imports)@, final(structs)@, final(fns)@, final(top_level)@, acc2)
                    && final(self).pos() == p,
                (Err(e), Err(m)) => e@ == m,
                _ => false,
            },
            r is Ok && tok_at(old(self).toks(), old(self).pos()) != Tok::EOF ==> final(self).pos() > old(self).pos(),
            final(self).pos() >= old(self).pos(),
    {
        match self.peek() {
            Token::Import => self.item_import(hw, doc, imports, structs, fns, top_level, Ghost(acc)),
            Token::Struct => self.item_struct(hw, doc, imports, structs, fns, top_level, Ghost(acc)),
            Token::Fn => self.item_fn(hw, doc, imports, structs, fns, top_level, Ghost(acc)),
            _ => {
                if self.peek().is_eof() && hw.is_none() {
                    proof {
                        reveal(item_body_s);
                    }
                    return Ok(());
                }
                self.item_stmt(hw, doc, imports, structs, fns, top_level, Ghost(acc))
            },
        }
    }

    fn item_import(
        &mut self,
        hw: Option<HwAnnotation>,
        doc: Option<String>,
        imports: &mut Vec<Import>,
        structs: &mut Vec<StructDef>,
        fns: &mut Vec<FnDef>,
        top_level: &mut Vec<Stmt>,
        Ghost(acc): Ghost<ProgramV>,
    ) -> (r: Result<(), String>)
        requires
            old(self).wf(),
            holds(old(imports)@, old(structs)@, old(fns)@, old(top_level)@, acc),
            tok_at(old(self).toks(), old(self).pos()) == Tok::Import,
        ensures
            final(self).wf(),
            final(self).toks() == old(self).toks(),
            match (r, item_body_s(old(self).toks(), old(self).pos(), opt_hw_view(&hw), opt_text(&doc), acc)) {
                (Ok(_), Ok((acc2, p))) => holds(final(imports)@, final(structs)@, final(fns)@, final(top_level)@, acc2)
                    && final(self).pos() == p,
                (Err(e), Err(m)) => e@ == m,
                _ => false,
            },
            r is Ok ==> final(self).pos() > old(self).pos(),
            final(self).pos() >= old(self).pos(),
    {
        proof {
            reveal(item_body_s);
        }
        let i = match self.parse_import() {
            Ok(i) => i,
            Err(e) => {
                return Err(e);
            },
        };
        imports.push(i);
        proof {
            assert(imports@.drop_last() =~= old(imports)@);
        }
    
        Ok(())
    }

    fn item_struct(
        &mut self,
        hw: Option<HwAnnotation>,
        doc: Option<String>,
        imports: &mut Vec<Import>,
        structs: &mut Vec<StructDef>,
        fns: &mut Vec<FnDef>,
        top_level: &mut Vec<Stmt>,
        Ghost(acc): Ghost<ProgramV>,
    ) -> (r: Result<(), String>)
        requires
            old(self).wf(),
            holds(old(imports)@, old(structs)@, old(fns)@, old(top_level)@, acc),
            tok_at(old(self).toks(), old(self).pos()) == Tok::Struct,
        ensures
            final(self).wf(),
            final(self).toks() == old(self).toks(),
            match (r, item_body_s(old(self).toks(), old(self).pos(), opt_hw_view(&hw), opt_text(&doc), acc)) {
                (Ok(_), Ok((acc2, p))) => holds(final(imports)@, final(structs)@, final(fns)@, final(top_level)@, acc2)
                    && final(self).pos() == p,
                (Err(e), Err(m)) => e@ == m,
                _ => false,
            },
            r is Ok ==> final(self).pos() > old(self).pos(),
            final(self).pos() >= old(self).pos(),
    {
        proof {
            reveal(item_body_s);
        }
        let mut sd = match self.parse_struct() {
            Ok(s) => s,
            Err(e) => {
                return Err(e);
            },
        };
        sd.hw = hw;
        sd.doc = doc;
        structs.push(sd);
        proof {
            assert(structs@.drop_last() =~= old(structs)@);
        }
    
        Ok(())
    }

    fn item_fn(
        &mut self,
        hw: Option<HwAnnotation>,
        doc: Option<String>,
        imports: &mut Vec<Import>,
        structs: &mut Vec<StructDef>,
        fns: &mut Vec<FnDef>,
        top_level: &mut Vec<Stmt>,
        Ghost(acc): Ghost<ProgramV>,
    ) -> (r: Result<(), String>)
        requires
            old(self).wf(),
            holds(old(imports)@, old(structs)@, old(fns)@, old(top_level)@, acc),
            tok_at(old(self).toks(), old(self).pos()) == Tok::Fn,
        ensures
            final(self).wf(),
            final(self).toks() == old(self).toks(),
            match (r, item_body_s(old(self).toks(), old(self).pos(), opt_hw_view(&hw), opt_text(&doc), acc)) {
                (Ok(_), Ok((acc2, p))) => holds(final(imports)@, final(structs)@, final(fns)@, final(top_level)@, acc2)
                    && final(self).pos() == p,
                (Err(e), Err(m)) => e@ == m,
                _ => false,
            },
            r is Ok ==> final(self).pos() > old(self).pos(),
            final(self).pos() >= old(self).pos(),
    {
        proof {
            reveal(item_body_s);
        }
        let mut fd = match self.parse_fn() {
            Ok(f) => f,
            Err(e) => {
                return Err(e);
            },
        };
        fd.hw = hw;
        fd.doc = doc;
        fns.push(fd);
        proof {
            assert(fns@.drop_last() =~= old(fns)@);
        }
    
        Ok(())
    }

    fn item_stmt(
        &mut self,
        hw: Option<HwAnnotation>,
        doc: Option<String>,
        imports: &mut Vec<Import>,
        structs: &mut Vec<StructDef>,
        fns: &mut Vec<FnDef>,
        top_level: &mut Vec<Stmt>,
        Ghost(acc): Ghost<ProgramV>,
    ) -> (r: Result<(), String>)
        requires
            old(self).wf(),
            holds(old(imports)@, old(structs)@, old(fns)@, old(top_level)@, acc),
            !(tok_at(old(self).toks(), old(self).pos()) is Import || tok_at(old(self).toks(), old(self).pos()) is Struct || tok_at(old(self).toks(), old(self).pos()) is Fn),
            !(tok_at(old(self).toks(), old(self).pos()) == Tok::EOF && hw is None),
        ensures
            final(self).wf(),
            final(self).toks() == old(self).toks(),
            match (r, item_body_s(old(self).toks(), old(self).pos(), opt_hw_view(&hw), opt_text(&doc), acc)) {
                (Ok(_), Ok((acc2, p))) => holds(final(imports)@, final(structs)@, final(fns)@, final(top_level)@, acc2)
                    && final(self).pos() == p,
                (Err(e), Err(m)) => e@ == m,
                _ => false,
            },
            r is Ok ==> final(self).pos() > old(self).pos(),
            final(self).pos() >= old(self).pos(),
    {
        proof {
            reveal(item_body_s);
        }
        let s = match self.parse_stmt_hw(hw) {
            Ok(s) => s,
            Err(e) => {
                return Err(e);
            },
        };
        top_level.push(s);
        proof {
            assert(top_level@.drop_last() =~= old(top_level)@);
        }
    
        Ok(())
    }

    /// Parses a whole program from the current token up to `EOF`: imports,
    /// struct and function definitions (each with the documentation lines
    /// and the annotation written before it), and top-level statements.
    pub fn parse(&mut self) -> (r: Result<Program, String>)
        requires
            old(self).wf(),
        ensures
            final(self).wf(),
            final(self).toks() == old(self).toks(),
            match (r, program_s(old(self).toks(), old(self).pos(), empty_program())) {
                (Ok(v), Ok(sv)) => program_view(&v) == sv,
                (Err(e), Err(m)) => e@ == m,
                _ => false,
            },
    {
        let ghost ts = self.toks();
        let ghost p0 = self.pos();
        let mut imports: Vec<Import> = Vec::new();
        let mut structs: Vec<StructDef> = Vec::new();
        let mut fns: Vec<FnDef> = Vec::new();
        let mut top_level: Vec<Stmt> = Vec::new();
        let ghost mut acc = empty_program();
        loop
            invariant
                self.wf(),
                self.toks() == ts,
                ts == old(self).toks(),
                p0 == old(self).pos(),
                self.pos() >= p0,
                holds(imports@, structs@, fns@, top_level@, acc),
                program_s(ts, p0, empty_program()) == program_s(ts, self.pos(), acc),
            decreases ts.len() - self.pos(),
        {
            proof {
                self.lemma_len();
            }
            let ghost p = self.pos();
            if self.peek().is_eof() {
                let prog = Program { imports, structs, fns, top_level };
                proof {
                    let v = program_view(&prog);
                    assert(v.imports =~= acc.imports);
                    assert(v.structs =~= acc.structs);
                    assert(v.fns =~= acc.fns);
                    assert(v =~= acc);
                }
                return Ok(prog);
            }
            let ghost before = acc;
            match self.parse_item(&mut imports, &mut structs, &mut fns, &mut top_level, Ghost(acc)) {
                Ok(_) => {},
                Err(e) => {
                    return Err(e);
                },
            }
            proof {
                self.lemma_len();
                assert(step_to(ts, p, self.pos()) == self.pos());
                acc = item_s(ts, p, before)->Ok_0.0;
            }
        }
    }
}

/// Lines joined by line feeds.
fn join_doc_lines(lines: &Vec<String>) -> (r: String)
    ensures
        r@ == join_lines(names_view(lines@)),
{
    let ghost ls = names_view(lines@);
    let mut r = String::new();
    let mut i: usize = 0;
    assert(ls.subrange(0, 0) =~= Seq::<Seq<char>>::empty());
    while i < lines.len()
        invariant
            i <= lines@.len(),
            ls == names_view(lines@),
            r@ == join_lines(ls.subrange(0, i as int)),
        decreases lines.len() - i,
    {
        proof {
            assert(ls.subrange(0, i as int + 1).drop_last() =~= ls.subrange(0, i as int));
        }
        if i > 0 {
            r.append("\n");
        }
        r.append(lines[i].as_str());
        proof {
            assert(r@ =~= join_lines(ls.subrange(0, i as int + 1)));
        }
        i = i + 1;
    }
    assert(ls.subrange(0, ls.len() as int) =~= ls);
    r
}


/// Parts parsed so far hold the values of the program `acc` built so far.
pub open spec fn holds(i: Seq<Import>, s: Seq<StructDef>, f: Seq<FnDef>, t: Seq<Stmt>, acc: ProgramV) -> bool {
    &&& acc.imports.len() == i.len()
    &&& forall|k: int| 0 <= k < i.len() ==> import_view(&i[k]) == #[trigger] acc.imports[k]
    &&& acc.structs.len() == s.len()
    &&& forall|k: int| 0 <= k < s.len() ==> struct_view(&s[k]) == #[trigger] acc.structs[k]
    &&& acc.fns.len() == f.len()
    &&& forall|k: int| 0 <= k < f.len() ==> fn_view(&f[k]) == #[trigger] acc.fns[k]
    &&& stmts_view(t) == acc.top_level
}

// ── Message builders ────────────────────────────────────────────────────────

fn m_line(line: usize) -> (r: String)
    ensures
        r@ == line_prefix(line as nat),
{
    let mut m = owned("Line ");
    m.append(usize_text(line).as_str());
    m.append(": ");
    m
}

fn m_expected(line: usize, exp: &Token, got: &Token) -> (r: String)
    ensures
        r@ == msg_expected(line as nat, exp@, got@),
{
    let mut m = m_line(line);
    m.append("expected `");
    m.append(exp.text().as_str());
    m.append("`, got `");
    m.append(got.text().as_str());
    m.append("`");
    m
}

fn m_expected_ident(line: usize, got: &Token) -> (r: String)
    ensures
        r@ == msg_expected_ident(line as nat, got@),
{
    let mut m = m_line(line);
    m.append("expected identifier, got `");
    m.append(got.text().as_str());
    m.append("`");
    m
}

fn m_fraction(line: usize, gpu: bool, got: &Token) -> (r: String)
    ensures
        r@ == msg_fraction(line as nat, if gpu { "gpu"@ } else { "cpu"@ }, got@),
{
    let mut m = m_line(line);
    m.append("expected fraction in @");
    m.append(if gpu { "gpu" } else { "cpu" });
    m.append("(...), got `");
    m.append(got.text().as_str());
    m.append("`");
    m
}

fn m_import_kind(line: usize) -> (r: String)
    ensures
        r@ == msg_import_kind(line as nat),
{
    let mut m = m_line(line);
    m.append("expected `*` or `{` after `.` in import");
    m
}

fn m_expected_type(line: usize, got: &Token) -> (r: String)
    ensures
        r@ == msg_expected_type(line as nat, got@),
{
    let mut m = m_line(line);
    m.append("expected type, got `");
    m.append(got.text().as_str());
    m.append("`");
    m
}

fn m_bad_target(line: usize) -> (r: String)
    ensures
        r@ == msg_bad_target(line as nat),
{
    let mut m = m_line(line);
    m.append("invalid assignment target");
    m
}

fn m_unexpected(line: usize, got: &Token) -> (r: String)
    ensures
        r@ == msg_unexpected(line as nat, got@),
{
    let mut m = m_line(line);
    m.append("unexpected `");
    m.append(got.text().as_str());
    m.append("` in expression");
    m
}

// ── The token stream the parser reads ─────────────────────────────────────

/// Open brackets before position `i` (round, curly and square), never below
/// zero.
pub open spec fn depth_at(ts: Toks, i: nat) -> nat
    decreases i,
{
    if i == 0 || i > ts.len() {
        0
    } else {
        let d = depth_at(ts, (i - 1) as nat);
        let t = ts[i - 1].0;
        if t is LParen || t is LBrace || t is LBracket {
            d + 1
        } else if t is RParen || t is RBrace || t is RBracket {
            if d > 0 {
                (d - 1) as nat
            } else {
                0
            }
        } else {
            d
        }
    }
}

/// Whether position `i` starts an item: the tokens before it, documentation
/// lines aside, are none or end with `;` or `}`.
pub open spec fn at_item_start(ts: Toks, i: nat) -> bool
    decreases i,
{
    if i == 0 || i > ts.len() {
        true
    } else if ts[i - 1].0 is DocComment {
        at_item_start(ts, (i - 1) as nat)
    } else {
        ts[i - 1].0 is Semicolon || ts[i - 1].0 is RBrace
    }
}

/// Whether the first token from `i` on that is not a documentation line is
/// `else`.
pub open spec fn else_follows(ts: Toks, i: nat) -> bool
    decreases ts.len() - i,
{
    if i >= ts.len() {
        false
    } else if ts[i as int].0 is DocComment {
        else_follows(ts, i + 1)
    } else {
        ts[i as int].0 is Else
    }
}

/// A documentation line documents what follows it only outside brackets,
/// where an item starts (not between an `if` block and its `else`); anywhere
/// else it is a comment.
pub open spec fn kept_tok(ts: Toks, i: nat) -> bool {
    !(ts[i as int].0 is DocComment) || (depth_at(ts, i) == 0 && at_item_start(ts, i) && !else_follows(ts, i + 1))
}

/// A fractional literal as `shown` writes its value; other tokens as they are.
pub open spec fn shown_tok(t: Tok, shown: Map<Seq<char>, Seq<char>>) -> Tok {
    match t {
        Tok::FloatLit(x) => if shown.contains_key(x) {
            Tok::FloatLit(shown[x])
        } else {
            t
        },
        _ => t,
    }
}

pub open spec fn prepared_upto(ts: Toks, shown: Map<Seq<char>, Seq<char>>, n: nat) -> Toks
    decreases n,
{
    if n == 0 || n > ts.len() {
        seq![]
    } else {
        let r = prepared_upto(ts, shown, (n - 1) as nat);
        let i = (n - 1) as nat;
        if kept_tok(ts, i) {
            r.push((shown_tok(ts[i as int].0, shown), ts[i as int].1, ts[i as int].2))
        } else {
            r
        }
    }
}

/// The tokens the parser reads from a lexed stream: documentation lines that
/// are comments dropped, and each fractional literal written as `shown`
/// renders its value.
pub open spec fn prepared(ts: Toks, shown: Map<Seq<char>, Seq<char>>) -> Toks {
    prepared_upto(ts, shown, ts.len())
}

/// A stream the parser accepts stays one once prepared.
pub proof fn lemma_prepared_valid(ts: Toks, shown: Map<Seq<char>, Seq<char>>)
    requires
        valid_toks(ts),
    ensures
        valid_toks(prepared(ts, shown)),
{
    let n = ts.len();
    assert(kept_tok(ts, (n - 1) as nat));
    assert(prepared(ts, shown) == prepared_upto(ts, shown, (n - 1) as nat).push(
        (shown_tok(ts[n - 1].0, shown), ts[n - 1].1, ts[n - 1].2),
    ));
}

/// The tokens of a stream that are not documentation lines.
pub open spec fn code_toks(ts: Toks) -> Toks {
    ts.filter(|t: (Tok, nat, nat)| !(t.0 is DocComment))
}

/// Each token with its fractional literal written as `shown` renders it.
pub open spec fn shown_toks(ts: Toks, shown: Map<Seq<char>, Seq<char>>) -> Toks {
    ts.map_values(|t: (Tok, nat, nat)| (shown_tok(t.0, shown), t.1, t.2))
}

proof fn lemma_prepared_code(ts: Toks, shown: Map<Seq<char>, Seq<char>>, n: nat)
    requires
        n <= ts.len(),
    ensures
        code_toks(prepared_upto(ts, shown, n)) == shown_toks(code_toks(ts.take(n as int)), shown),
    decreases n,
{
    if n == 0 {
        assert(ts.take(0) =~= Seq::<(Tok, nat, nat)>::empty());
        assert(code_toks(ts.take(0)) =~= Seq::<(Tok, nat, nat)>::empty());
        assert(shown_toks(code_toks(ts.take(0)), shown) =~= Seq::<(Tok, nat, nat)>::empty());
    } else {
        let i = (n - 1) as nat;
        lemma_prepared_code(ts, shown, i);
        let t = ts[i as int];
        assert(ts.take(n as int).drop_last() =~= ts.take(i as int));
        assert(ts.take(n as int).last() == t);
        let r = prepared_upto(ts, shown, i);
        let st = (shown_tok(t.0, shown), t.1, t.2);
        reveal(Seq::filter);
        if t.0 is DocComment {
            assert(code_toks(ts.take(n as int)) == code_toks(ts.take(i as int)));
            if kept_tok(ts, i) {
                assert(r.push(st).drop_last() =~= r);
                assert(code_toks(r.push(st)) == code_toks(r));
            }
        } else {
            assert(kept_tok(ts, i));
            assert(!(st.0 is DocComment));
            assert(r.push(st).drop_last() =~= r);
            assert(code_toks(r.push(st)) == code_toks(r).push(st));
            assert(code_toks(ts.take(n as int)) == code_toks(ts.take(i as int)).push(t));
            assert(shown_toks(code_toks(ts.take(i as int)).push(t), shown)
                =~= shown_toks(code_toks(ts.take(i as int)), shown).push(st));
        }
    }
}

/// Documentation lines aside, the parser reads the tokens the lexer gave, in
/// order and at their positions, with fractional literals as `shown` writes
/// them.
pub proof fn law_prepare_keeps_code(ts: Toks, shown: Map<Seq<char>, Seq<char>>)
    ensures
        code_toks(prepared(ts, shown)) == shown_toks(code_toks(ts), shown),
{
    lemma_prepared_code(ts, shown, ts.len());
    assert(ts.take(ts.len() as int) =~= ts);
}

fn else_ahead(tokens: &Vec<SpannedToken>, i: usize) -> (r: bool)
    requires
        i <= tokens@.len(),
    ensures
        r == else_follows(stoks(tokens@), i as nat),
    decreases tokens@.len() - i,
{
    if i >= tokens.len() {
        return false;
    }
    assert(stoks(tokens@)[i as int] == stok(&tokens@[i as int]));
    match tokens[i].node {
        Token::DocComment(_) => else_ahead(tokens, i + 1),
        Token::Else => true,
        _ => false,
    }
}

fn shown_token(t: &Token, shown: &Table<String>) -> (r: Token)
    ensures
        r@ == shown_tok(t@, shown.view_map()),
{
    match t {
        Token::FloatLit(x) => match shown.get(x) {
            Some(s) => Token::FloatLit(copy_string(s)),
            None => t.copy(),
        },
        _ => t.copy(),
    }
}

/// The tokens the parser reads: documentation lines where no item starts
/// (inside brackets, inside a statement, before an `else`) are comments and
/// dropped, and each fractional literal is written as `shown` renders its
/// value.
pub fn prepare_tokens(tokens: Vec<SpannedToken>, shown: &Table<String>) -> (r: Vec<SpannedToken>)
    ensures
        stoks(r@) == prepared(stoks(tokens@), shown.view_map()),
{
    let ghost ts = stoks(tokens@);
    let ghost m = shown.view_map();
    let mut out: Vec<SpannedToken> = Vec::new();
    let mut depth: usize = 0;
    let mut start: bool = true;
    let mut i: usize = 0;
    assert(stoks(out@) =~= prepared_upto(ts, m, 0));
    while i < tokens.len()
        invariant
            i <= tokens@.len(),
            ts == stoks(tokens@),
            m == shown.view_map(),
            depth == depth_at(ts, i as nat),
            depth <= i,
            start == at_item_start(ts, i as nat),
            stoks(out@) == prepared_upto(ts, m, i as nat),
        decreases tokens.len() - i,
    {
        let t = &tokens[i];
        assert(ts[i as int] == stok(t));
        let is_doc = match t.node {
            Token::DocComment(_) => true,
            _ => false,
        };
        let keep = !is_doc || (depth == 0 && start && !else_ahead(&tokens, i + 1));
        let ghost before = out@;
        if keep {
            out.push(Spanned { node: shown_token(&t.node, shown), line: t.line, col: t.col });
            assert(stoks(out@) =~= stoks(before).push(stok(&out@.last())));
        }
        let opens = match t.node {
            Token::LParen | Token::LBrace | Token::LBracket => true,
            _ => false,
        };
        let closes = match t.node {
            Token::RParen | Token::RBrace | Token::RBracket => true,
            _ => false,
        };
        if opens {
            depth = depth + 1;
        } else if closes {
            if depth > 0 {
                depth = depth - 1;
            }
        }
        if !is_doc {
            start = match t.node {
                Token::Semicolon | Token::RBrace => true,
                _ => false,
            };
        }
        i = i + 1;
    }
    out
}


// ── Laws of operator precedence ─────────────────────────────────────────────

/// How tightly each binary operator token binds (0 loosest: `||`, then `&&`,
/// equality, comparison, `+ -`, and 5 tightest: `* / %`), and the operator it
/// stands for.
pub open spec fn binding(t: Tok) -> Option<(nat, BinOp)> {
    match t {
        Tok::OrOr => Some((0nat, BinOp::Or)),
        Tok::AndAnd => Some((1nat, BinOp::And)),
        Tok::EqEq => Some((2nat, BinOp::EqEq)),
        Tok::BangEq => Some((2nat, BinOp::NotEq)),
        Tok::Lt => Some((3nat, BinOp::Lt)),
        Tok::Gt => Some((3nat, BinOp::Gt)),
        Tok::LtEq => Some((3nat, BinOp::LtEq)),
        Tok::GtEq => Some((3nat, BinOp::GtEq)),
        Tok::Plus => Some((4nat, BinOp::Add)),
        Tok::Minus => Some((4nat, BinOp::Sub)),
        Tok::Star => Some((5nat, BinOp::Mul)),
        Tok::Slash => Some((5nat, BinOp::Div)),
        Tok::Percent => Some((5nat, BinOp::Mod)),
        _ => None,
    }
}

proof fn lemma_binding_levels(t: Tok)
    ensures
        binding(t) matches Some((l, o)) ==> level_op(l, t) == Some(o) && forall|k: nat| k <= 5 && k != l ==> #[trigger] level_op(k, t) is None,
        binding(t) is None ==> forall|k: nat| k <= 5 ==> #[trigger] level_op(k, t) is None,
{
}

/// A token after which an identifier is a whole operand.
pub open spec fn ends_operand(t: Tok) -> bool {
    t != Tok::Dot && t != Tok::LBracket && t != Tok::LParen && t != Tok::LBrace
}

proof fn lemma_operand_ident(ts: Toks, q: nat, l: nat)
    requires
        at(ts, q + 1),
        ts[q as int].0 is Ident,
        ends_operand(ts[q + 1int].0),
        l <= 5,
        forall|k: nat| l < k <= 5 ==> #[trigger] level_op(k, ts[q + 1int].0) is None,
    ensures
        operand_s(ts, q, l) == Ok::<(ExprV, nat), Seq<char>>((ExprV::Ident(ts[q as int].0->Ident_0), q + 1)),
    decreases 5 - l,
{
    let x = ExprV::Ident(ts[q as int].0->Ident_0);
    if l == 5 {
        assert(primary_s(ts, q) == Ok::<(ExprV, nat), Seq<char>>((x, q + 1)));
        assert(postfix_rest_s(ts, q + 1, x) == Ok::<(ExprV, nat), Seq<char>>((x, q + 1)));
        assert(postfix_s(ts, q) == Ok::<(ExprV, nat), Seq<char>>((x, q + 1)));
        assert(unary_s(ts, q) == Ok::<(ExprV, nat), Seq<char>>((x, q + 1)));
    } else {
        lemma_operand_ident(ts, q, l + 1);
        assert(level_op(l + 1, ts[q + 1int].0) is None);
        assert(bin_rest_s(ts, q + 1, l + 1, x) == Ok::<(ExprV, nat), Seq<char>>((x, q + 1)));
        assert(bin_s(ts, q, l + 1) == Ok::<(ExprV, nat), Seq<char>>((x, q + 1)));
    }
}

proof fn lemma_pass_down(ts: Toks, p: nat, lo: nat, hi: nat, e: ExprV, q: nat)
    requires
        lo <= hi <= 5,
        p < q,
        at(ts, q),
        bin_s(ts, p, hi) == Ok::<(ExprV, nat), Seq<char>>((e, q)),
        forall|k: nat| lo <= k < hi ==> #[trigger] level_op(k, ts[q as int].0) is None,
    ensures
        bin_s(ts, p, lo) == Ok::<(ExprV, nat), Seq<char>>((e, q)),
    decreases hi - lo,
{
    if lo < hi {
        lemma_pass_down(ts, p, lo + 1, hi, e, q);
        assert(level_op(lo, ts[q as int].0) is None);
        assert(operand_s(ts, p, lo) == bin_s(ts, p, lo + 1));
        assert(bin_rest_s(ts, q, lo, e) == Ok::<(ExprV, nat), Seq<char>>((e, q)));
    }
}

proof fn lemma_one_op(ts: Toks, p: nat, l: nat, o: BinOp)
    requires
        at(ts, p + 3),
        l <= 5,
        ts[p as int].0 is Ident,
        ts[p + 2int].0 is Ident,
        level_op(l, ts[p + 1int].0) == Some(o),
        forall|k: nat| k <= 5 && k != l ==> #[trigger] level_op(k, ts[p + 1int].0) is None,
        ends_operand(ts[p + 1int].0),
        ends_operand(ts[p + 3int].0),
        forall|k: nat| l <= k <= 5 ==> #[trigger] level_op(k, ts[p + 3int].0) is None,
    ensures
        bin_s(ts, p, l) == Ok::<(ExprV, nat), Seq<char>>((
            ExprV::BinOp(o, Box::new(ExprV::Ident(ts[p as int].0->Ident_0)), Box::new(ExprV::Ident(ts[p + 2int].0->Ident_0))),
            p + 3,
        )),
{
    let x = ExprV::Ident(ts[p as int].0->Ident_0);
    let y = ExprV::Ident(ts[p + 2int].0->Ident_0);
    let xy = ExprV::BinOp(o, Box::new(x), Box::new(y));
    lemma_operand_ident(ts, p, l);
    lemma_operand_ident(ts, p + 2, l);
    assert(level_op(l, ts[p + 3int].0) is None);
    assert(bin_rest_s(ts, p + 3, l, xy) == Ok::<(ExprV, nat), Seq<char>>((xy, p + 3)));
    assert(bin_rest_s(ts, p + 1, l, x) == Ok::<(ExprV, nat), Seq<char>>((xy, p + 3)));
}

/// Binary operators bind by their level in `binding`: in `x a y b z`, the
/// operator that binds tighter takes its neighbours first, and of two that
/// bind alike the left one does (operators of a level associate to the
/// left). So `&&` binds tighter than `||`, `*` than `+`, `+` than `<`, and
/// `a - b - c` is `(a - b) - c`.
pub proof fn law_operator_precedence(ts: Toks, p: nat)
    requires
        valid_toks(ts),
        p + 5 < ts.len(),
        ts[p as int].0 is Ident,
        ts[p + 2int].0 is Ident,
        ts[p + 4int].0 is Ident,
        binding(ts[p + 1int].0) is Some,
        binding(ts[p + 3int].0) is Some,
        ts[p + 5int].0 == Tok::Semicolon,
    ensures
        ({
            let x = ExprV::Ident(ts[p as int].0->Ident_0);
            let y = ExprV::Ident(ts[p + 2int].0->Ident_0);
            let z = ExprV::Ident(ts[p + 4int].0->Ident_0);
            let (l1, o1) = binding(ts[p + 1int].0).unwrap();
            let (l2, o2) = binding(ts[p + 3int].0).unwrap();
            &&& l1 < l2 ==> expr_s(ts, p) == Ok::<(ExprV, nat), Seq<char>>((
                ExprV::BinOp(o1, Box::new(x), Box::new(ExprV::BinOp(o2, Box::new(y), Box::new(z)))),
                p + 5,
            ))
            &&& l1 >= l2 ==> expr_s(ts, p) == Ok::<(ExprV, nat), Seq<char>>((
                ExprV::BinOp(o2, Box::new(ExprV::BinOp(o1, Box::new(x), Box::new(y))), Box::new(z)),
                p + 5,
            ))
        }),
{
    let t1 = ts[p + 1int].0;
    let t2 = ts[p + 3int].0;
    let t3 = ts[p + 5int].0;
    lemma_binding_levels(t1);
    lemma_binding_levels(t2);
    lemma_binding_levels(t3);
    let x = ExprV::Ident(ts[p as int].0->Ident_0);
    let y = ExprV::Ident(ts[p + 2int].0->Ident_0);
    let z = ExprV::Ident(ts[p + 4int].0->Ident_0);
    let (l1, o1) = binding(t1).unwrap();
    let (l2, o2) = binding(t2).unwrap();
    assert(at(ts, p + 5));
    if l1 < l2 {
        let yz = ExprV::BinOp(o2, Box::new(y), Box::new(z));
        let all = ExprV::BinOp(o1, Box::new(x), Box::new(yz));
        lemma_one_op(ts, p + 2, l2, o2);
        lemma_pass_down(ts, p + 2, l1 + 1, l2, yz, p + 5);
        lemma_operand_ident(ts, p, l1);
        assert(operand_s(ts, p + 2, l1) == bin_s(ts, p + 2, l1 + 1));
        assert(bin_rest_s(ts, p + 5, l1, all) == Ok::<(ExprV, nat), Seq<char>>((all, p + 5)));
        assert(bin_rest_s(ts, p + 1, l1, x) == Ok::<(ExprV, nat), Seq<char>>((all, p + 5)));
        assert(bin_s(ts, p, l1) == Ok::<(ExprV, nat), Seq<char>>((all, p + 5)));
        lemma_pass_down(ts, p, 0, l1, all, p + 5);
    } else {
        let xy = ExprV::BinOp(o1, Box::new(x), Box::new(y));
        let all = ExprV::BinOp(o2, Box::new(xy), Box::new(z));
        if l1 == l2 {
            lemma_operand_ident(ts, p, l1);
            lemma_operand_ident(ts, p + 2, l1);
            lemma_operand_ident(ts, p + 4, l1);
            assert(bin_rest_s(ts, p + 5, l1, all) == Ok::<(ExprV, nat), Seq<char>>((all, p + 5)));
            assert(bin_rest_s(ts, p + 3, l1, xy) == Ok::<(ExprV, nat), Seq<char>>((all, p + 5)));
            assert(bin_rest_s(ts, p + 1, l1, x) == Ok::<(ExprV, nat), Seq<char>>((all, p + 5)));
        } else {
            lemma_one_op(ts, p, l1, o1);
            lemma_pass_down(ts, p, l2 + 1, l1, xy, p + 3);
            assert(operand_s(ts, p, l2) == bin_s(ts, p, l2 + 1));
            lemma_operand_ident(ts, p + 4, l2);
            assert(bin_rest_s(ts, p + 5, l2, all) == Ok::<(ExprV, nat), Seq<char>>((all, p + 5)));
            assert(bin_rest_s(ts, p + 3, l2, xy) == Ok::<(ExprV, nat), Seq<char>>((all, p + 5)));
        }
        assert(bin_s(ts, p, l2) == Ok::<(ExprV, nat), Seq<char>>((all, p + 5)));
        lemma_pass_down(ts, p, 0, l2, all, p + 5);
    }
}

/// `&&` binds tighter than `||`, on either side: `x || y && z` is
/// `x || (y && z)` and `x && y || z` is `(x && y) || z`.
pub proof fn law_and_binds_tighter_than_or(ts: Toks, p: nat)
    requires
        valid_toks(ts),
        p + 5 < ts.len(),
        ts[p as int].0 is Ident,
        ts[p + 2int].0 is Ident,
        ts[p + 4int].0 is Ident,
        ts[p + 5int].0 == Tok::Semicolon,
    ensures
        ({
            let x = ExprV::Ident(ts[p as int].0->Ident_0);
            let y = ExprV::Ident(ts[p + 2int].0->Ident_0);
            let z = ExprV::Ident(ts[p + 4int].0->Ident_0);
            &&& ts[p + 1int].0 == Tok::OrOr && ts[p + 3int].0 == Tok::AndAnd ==> expr_s(ts, p) == Ok::<(ExprV, nat), Seq<char>>((
                ExprV::BinOp(BinOp::Or, Box::new(x), Box::new(ExprV::BinOp(BinOp::And, Box::new(y), Box::new(z)))),
                p + 5,
            ))
            &&& ts[p + 1int].0 == Tok::AndAnd && ts[p + 3int].0 == Tok::OrOr ==> expr_s(ts, p) == Ok::<(ExprV, nat), Seq<char>>((
                ExprV::BinOp(BinOp::Or, Box::new(ExprV::BinOp(BinOp::And, Box::new(x), Box::new(y))), Box::new(z)),
                p + 5,
            ))
        }),
{
    if (ts[p + 1int].0 == Tok::OrOr && ts[p + 3int].0 == Tok::AndAnd) || (ts[p + 1int].0 == Tok::AndAnd && ts[p + 3int].0 == Tok::OrOr) {
        law_operator_precedence(ts, p);
    }
}

proof fn lemma_operand_negated(ts: Toks, q: nat, l: nat)
    requires
        at(ts, q + 2),
        ts[q as int].0 == Tok::Minus,
        ts[q + 1int].0 is Ident,
        ends_operand(ts[q + 2int].0),
        l <= 5,
        forall|k: nat| l < k <= 5 ==> #[trigger] level_op(k, ts[q + 2int].0) is None,
    ensures
        operand_s(ts, q, l) == Ok::<(ExprV, nat), Seq<char>>((
            ExprV::UnOp(UnOp::Neg, Box::new(ExprV::Ident(ts[q + 1int].0->Ident_0))),
            q + 2,
        )),
    decreases 5 - l,
{
    let x = ExprV::Ident(ts[q + 1int].0->Ident_0);
    let nx = ExprV::UnOp(UnOp::Neg, Box::new(x));
    if l == 5 {
        assert(primary_s(ts, q + 1) == Ok::<(ExprV, nat), Seq<char>>((x, q + 2)));
        assert(postfix_rest_s(ts, q + 2, x) == Ok::<(ExprV, nat), Seq<char>>((x, q + 2)));
        assert(postfix_s(ts, q + 1) == Ok::<(ExprV, nat), Seq<char>>((x, q + 2)));
        assert(unary_s(ts, q + 1) == Ok::<(ExprV, nat), Seq<char>>((x, q + 2)));
        assert(unary_s(ts, q) == Ok::<(ExprV, nat), Seq<char>>((nx, q + 2)));
    } else {
        lemma_operand_negated(ts, q, l + 1);
        assert(level_op(l + 1, ts[q + 2int].0) is None);
        assert(bin_rest_s(ts, q + 2, l + 1, nx) == Ok::<(ExprV, nat), Seq<char>>((nx, q + 2)));
        assert(bin_s(ts, q, l + 1) == Ok::<(ExprV, nat), Seq<char>>((nx, q + 2)));
    }
}

/// A leading `-` binds tighter than any binary operator: `-x op y` is
/// `(-x) op y`.
pub proof fn law_negation_binds_tightest(ts: Toks, p: nat)
    requires
        valid_toks(ts),
        p + 4 < ts.len(),
        ts[p as int].0 == Tok::Minus,
        ts[p + 1int].0 is Ident,
        binding(ts[p + 2int].0) is Some,
        ts[p + 3int].0 is Ident,
        ts[p + 4int].0 == Tok::Semicolon,
    ensures
        ({
            let x = ExprV::Ident(ts[p + 1int].0->Ident_0);
            let y = ExprV::Ident(ts[p + 3int].0->Ident_0);
            let (l, o) = binding(ts[p + 2int].0).unwrap();
            expr_s(ts, p) == Ok::<(ExprV, nat), Seq<char>>((
                ExprV::BinOp(o, Box::new(ExprV::UnOp(UnOp::Neg, Box::new(x))), Box::new(y)),
                p + 4,
            ))
        }),
{
    let t = ts[p + 2int].0;
    lemma_binding_levels(t);
    lemma_binding_levels(ts[p + 4int].0);
    let x = ExprV::Ident(ts[p + 1int].0->Ident_0);
    let y = ExprV::Ident(ts[p + 3int].0->Ident_0);
    let (l, o) = binding(t).unwrap();
    let nx = ExprV::UnOp(UnOp::Neg, Box::new(x));
    let all = ExprV::BinOp(o, Box::new(nx), Box::new(y));
    assert(at(ts, p + 4));
    lemma_operand_negated(ts, p, l);
    lemma_operand_ident(ts, p + 3, l);
    assert(bin_rest_s(ts, p + 4, l, all) == Ok::<(ExprV, nat), Seq<char>>((all, p + 4)));
    assert(bin_rest_s(ts, p + 2, l, nx) == Ok::<(ExprV, nat), Seq<char>>((all, p + 4)));
    assert(bin_s(ts, p, l) == Ok::<(ExprV, nat), Seq<char>>((all, p + 4)));
    lemma_pass_down(ts, p, 0, l, all, p + 4);
}

} // verus!
