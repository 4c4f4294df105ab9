//! What the width, sign, operator and method tables mean, stated as laws
//! over all their inputs: the IEEE 1800 rules for self-determined widths
//! and signs (§11.6.1, §11.8.1), the operator each source operator lowers
//! to, which operators can carry beyond their operands' width, and what
//! each dynamic-storage method statement does.

use vstd::prelude::*;
use vstd::arithmetic::power2::pow2;
use crate::ast::{BinOp, CastPrim, Expr, UnOp};
use crate::casts::prim_wsign;
use crate::lower::{contains_fill, is_str_ast, ones};
use crate::ast::IntLit;
use crate::ir_width::max_u32;
use crate::dyn_method::{dyn_method_form, DynMethodForm};
use crate::elab::Elaborator;
use crate::expr_ctx::{ast_self_width, is_widening, map_binop_spec, map_unop_spec};
use crate::ir;
use crate::ir::{NetKind, SysTaskId};

verus! {

// ── self-determined widths of source expressions ─────────────────────────

/// `c ? t : f` is as wide as its wider branch: at least as wide as each
/// branch and as wide as one of them; its width is unknown when a branch's
/// is.
pub proof fn law_ternary_self_width(
    c: Expr,
    t: Expr,
    f: Expr,
    widths: Seq<(String, u32)>,
    func_widths: Seq<(String, u32)>,
)
    ensures
        ({
            let r = ast_self_width(
                Expr::Ternary { cond: Box::new(c), then_e: Box::new(t), else_e: Box::new(f) },
                widths,
                func_widths,
            );
            match (ast_self_width(t, widths, func_widths), ast_self_width(f, widths, func_widths)) {
                (Some(x), Some(y)) => r matches Some(w) && w >= x && w >= y && (w == x || w == y),
                _ => r is None,
            }
        }),
{
}

/// The self width of a binary expression: a comparison or a logical
/// operator gives one bit; a shift or a power is as wide as its left
/// operand; an arithmetic or bitwise operator is as wide as its wider
/// operand (at least each, equal to one).
pub proof fn law_binary_self_width(
    op: BinOp,
    l: Expr,
    r: Expr,
    widths: Seq<(String, u32)>,
    func_widths: Seq<(String, u32)>,
)
    ensures
        ({
            let res = ast_self_width(Expr::Binary { op, lhs: Box::new(l), rhs: Box::new(r) }, widths, func_widths);
            &&& (op == BinOp::Lt || op == BinOp::Le || op == BinOp::Gt || op == BinOp::Ge || op == BinOp::Eq
                || op == BinOp::Ne || op == BinOp::CaseEq || op == BinOp::CaseNe || op == BinOp::WildEq
                || op == BinOp::WildNe || op == BinOp::LogAnd || op == BinOp::LogOr) ==> res == Some(1u32)
            &&& (op == BinOp::Shl || op == BinOp::Shr || op == BinOp::AShl || op == BinOp::AShr || op
                == BinOp::Pow) ==> res == ast_self_width(l, widths, func_widths)
            &&& (op == BinOp::Add || op == BinOp::Sub || op == BinOp::Mul || op == BinOp::Div || op == BinOp::Mod
                || op == BinOp::BitAnd || op == BinOp::BitOr || op == BinOp::BitXor || op == BinOp::BitXnor) ==> match (
                ast_self_width(l, widths, func_widths),
                ast_self_width(r, widths, func_widths),
            ) {
                (Some(x), Some(y)) => res matches Some(w) && w >= x && w >= y && (w == x || w == y),
                _ => res is None,
            }
        }),
{
}

/// The self width of a unary expression: a reduction or `!` gives one
/// bit; `+`, `-` and `~` keep their operand's width.
pub proof fn law_unary_self_width(
    op: UnOp,
    x: Expr,
    widths: Seq<(String, u32)>,
    func_widths: Seq<(String, u32)>,
)
    ensures
        ({
            let res = ast_self_width(Expr::Unary { op, operand: Box::new(x) }, widths, func_widths);
            &&& (op == UnOp::Plus || op == UnOp::Minus || op == UnOp::BitNot) ==> res == ast_self_width(
                x,
                widths,
                func_widths,
            )
            &&& !(op == UnOp::Plus || op == UnOp::Minus || op == UnOp::BitNot) ==> res == Some(1u32)
        }),
{
}

/// The same ternary rule for the width of a size-cast operand.
pub proof fn law_ternary_size_ctx_width(s: &Elaborator, c: Expr, t: Expr, f: Expr)
    ensures
        ({
            let r = s.size_ctx_width(Expr::Ternary { cond: Box::new(c), then_e: Box::new(t), else_e: Box::new(f) });
            match (s.size_ctx_width(t), s.size_ctx_width(f)) {
                (Some(x), Some(y)) => r matches Some(w) && w >= x && w >= y && (w == x || w == y),
                _ => r is None,
            }
        }),
{
}

// ── widths and signs of lowered nodes ────────────────────────────────────

/// A lowered `?:` node is as wide as its wider branch.
pub proof fn law_lowered_ternary_width(s: &Elaborator, id: int)
    requires
        s.wf(),
        0 <= id < s.exprs@.len(),
        s.exprs@[id] is Ternary,
    ensures
        ({
            let t = s.exprs@[id]->Ternary_then_e as int;
            let f = s.exprs@[id]->Ternary_else_e as int;
            match (s.bits_of(t), s.bits_of(f)) {
                (Some(x), Some(y)) => s.bits_of(id) matches Some(w) && w >= x && w >= y && (w == x || w == y),
                _ => s.bits_of(id) is None,
            }
        }),
{
    assert(crate::elab::operands_below(s.exprs@[id], id));
}

/// A lowered `?:` node is signed exactly when both branches are (IEEE
/// 1800 §11.8.1: an unsigned operand makes the result unsigned).
pub proof fn law_lowered_ternary_sign(s: &Elaborator, id: int)
    requires
        s.wf(),
        0 <= id < s.exprs@.len(),
        s.exprs@[id] is Ternary,
    ensures
        s.self_signed(id) <==> (s.self_signed(s.exprs@[id]->Ternary_then_e as int) && s.self_signed(
            s.exprs@[id]->Ternary_else_e as int,
        )),
{
    assert(crate::elab::operands_below(s.exprs@[id], id));
}

/// The sign of a lowered binary node: an arithmetic or bitwise result is
/// signed exactly when both operands are; a shift or power takes its left
/// operand's sign; a comparison or logical result is unsigned.
pub proof fn law_lowered_binary_sign(s: &Elaborator, id: int)
    requires
        s.wf(),
        0 <= id < s.exprs@.len(),
        s.exprs@[id] is Binary,
    ensures
        ({
            let op = s.exprs@[id]->Binary_op;
            let l = s.exprs@[id]->Binary_lhs as int;
            let r = s.exprs@[id]->Binary_rhs as int;
            &&& (op == ir::BinOp::Add || op == ir::BinOp::Sub || op == ir::BinOp::Mul || op == ir::BinOp::Div
                || op == ir::BinOp::Mod || op == ir::BinOp::BitAnd || op == ir::BinOp::BitOr || op
                == ir::BinOp::BitXor || op == ir::BinOp::BitXnor) ==> (s.self_signed(id) <==> (s.self_signed(l)
                && s.self_signed(r)))
            &&& (op == ir::BinOp::Shl || op == ir::BinOp::Shr || op == ir::BinOp::AShl || op == ir::BinOp::AShr
                || op == ir::BinOp::Pow) ==> (s.self_signed(id) <==> s.self_signed(l))
            &&& (op == ir::BinOp::Lt || op == ir::BinOp::Le || op == ir::BinOp::Gt || op == ir::BinOp::Ge || op
                == ir::BinOp::Eq || op == ir::BinOp::Ne || op == ir::BinOp::CaseEq || op == ir::BinOp::CaseNe
                || op == ir::BinOp::CasezEq || op == ir::BinOp::CasexEq || op == ir::BinOp::LogAnd || op
                == ir::BinOp::LogOr) ==> !s.self_signed(id)
        }),
{
    assert(crate::elab::operands_below(s.exprs@[id], id));
}

/// The width of a lowered binary node: an arithmetic or bitwise result is
/// as wide as its wider operand, a shift or power as its left operand, a
/// comparison or logical result one bit.
pub proof fn law_lowered_binary_width(s: &Elaborator, id: int)
    requires
        s.wf(),
        0 <= id < s.exprs@.len(),
        s.exprs@[id] is Binary,
    ensures
        ({
            let op = s.exprs@[id]->Binary_op;
            let l = s.exprs@[id]->Binary_lhs as int;
            let r = s.exprs@[id]->Binary_rhs as int;
            &&& (op == ir::BinOp::Add || op == ir::BinOp::Sub || op == ir::BinOp::Mul || op == ir::BinOp::Div
                || op == ir::BinOp::Mod || op == ir::BinOp::BitAnd || op == ir::BinOp::BitOr || op
                == ir::BinOp::BitXor || op == ir::BinOp::BitXnor) ==> match (s.bits_of(l), s.bits_of(r)) {
                (Some(x), Some(y)) => s.bits_of(id) matches Some(w) && w >= x && w >= y && (w == x || w == y),
                _ => s.bits_of(id) is None,
            }
            &&& (op == ir::BinOp::Shl || op == ir::BinOp::Shr || op == ir::BinOp::AShl || op == ir::BinOp::AShr
                || op == ir::BinOp::Pow) ==> s.bits_of(id) == s.bits_of(l)
            &&& (op == ir::BinOp::Lt || op == ir::BinOp::Le || op == ir::BinOp::Gt || op == ir::BinOp::Ge || op
                == ir::BinOp::Eq || op == ir::BinOp::Ne || op == ir::BinOp::CaseEq || op == ir::BinOp::CaseNe
                || op == ir::BinOp::CasezEq || op == ir::BinOp::CasexEq || op == ir::BinOp::LogAnd || op
                == ir::BinOp::LogOr) ==> s.bits_of(id) == Some(1u32)
        }),
{
    assert(crate::elab::operands_below(s.exprs@[id], id));
}

/// The sign of a lowered unary node: `+`, `-` and `~` keep their operand's
/// sign; a reduction or `!` is unsigned. A concatenation, a replication and
/// a select are unsigned.
pub proof fn law_lowered_unary_and_vector_sign(s: &Elaborator, id: int)
    requires
        s.wf(),
        0 <= id < s.exprs@.len(),
    ensures
        s.exprs@[id] is Unary ==> ({
            let op = s.exprs@[id]->Unary_op;
            let x = s.exprs@[id]->Unary_operand as int;
            &&& (op == ir::UnOp::Plus || op == ir::UnOp::Minus || op == ir::UnOp::BitNot) ==> (s.self_signed(id)
                <==> s.self_signed(x))
            &&& !(op == ir::UnOp::Plus || op == ir::UnOp::Minus || op == ir::UnOp::BitNot) ==> !s.self_signed(id)
        }),
        (s.exprs@[id] is Concat || s.exprs@[id] is Replicate || s.exprs@[id] is Select) ==> !s.self_signed(id),
{
    assert(crate::elab::operands_below(s.exprs@[id], id));
}

// ── operators ────────────────────────────────────────────────────────────

/// Each source unary operator lowers to the operator of the same meaning.
pub proof fn law_unop_lowering()
    ensures
        map_unop_spec(UnOp::Plus) == ir::UnOp::Plus,
        map_unop_spec(UnOp::Minus) == ir::UnOp::Minus,
        map_unop_spec(UnOp::LogNot) == ir::UnOp::LogNot,
        map_unop_spec(UnOp::BitNot) == ir::UnOp::BitNot,
        map_unop_spec(UnOp::RedAnd) == ir::UnOp::RedAnd,
        map_unop_spec(UnOp::RedNand) == ir::UnOp::RedNand,
        map_unop_spec(UnOp::RedOr) == ir::UnOp::RedOr,
        map_unop_spec(UnOp::RedNor) == ir::UnOp::RedNor,
        map_unop_spec(UnOp::RedXor) == ir::UnOp::RedXor,
        map_unop_spec(UnOp::RedXnor) == ir::UnOp::RedXnor,
{
}

/// Each source binary operator lowers to the operator of the same
/// meaning; a wildcard (in)equality, reaching the mapping, to the plain
/// one.
pub proof fn law_binop_lowering()
    ensures
        map_binop_spec(BinOp::Add) == ir::BinOp::Add,
        map_binop_spec(BinOp::Sub) == ir::BinOp::Sub,
        map_binop_spec(BinOp::Mul) == ir::BinOp::Mul,
        map_binop_spec(BinOp::Div) == ir::BinOp::Div,
        map_binop_spec(BinOp::Mod) == ir::BinOp::Mod,
        map_binop_spec(BinOp::Pow) == ir::BinOp::Pow,
        map_binop_spec(BinOp::Shl) == ir::BinOp::Shl,
        map_binop_spec(BinOp::Shr) == ir::BinOp::Shr,
        map_binop_spec(BinOp::AShl) == ir::BinOp::AShl,
        map_binop_spec(BinOp::AShr) == ir::BinOp::AShr,
        map_binop_spec(BinOp::Lt) == ir::BinOp::Lt,
        map_binop_spec(BinOp::Le) == ir::BinOp::Le,
        map_binop_spec(BinOp::Gt) == ir::BinOp::Gt,
        map_binop_spec(BinOp::Ge) == ir::BinOp::Ge,
        map_binop_spec(BinOp::Eq) == ir::BinOp::Eq,
        map_binop_spec(BinOp::Ne) == ir::BinOp::Ne,
        map_binop_spec(BinOp::CaseEq) == ir::BinOp::CaseEq,
        map_binop_spec(BinOp::CaseNe) == ir::BinOp::CaseNe,
        map_binop_spec(BinOp::WildEq) == ir::BinOp::Eq,
        map_binop_spec(BinOp::WildNe) == ir::BinOp::Ne,
        map_binop_spec(BinOp::BitAnd) == ir::BinOp::BitAnd,
        map_binop_spec(BinOp::BitXor) == ir::BinOp::BitXor,
        map_binop_spec(BinOp::BitXnor) == ir::BinOp::BitXnor,
        map_binop_spec(BinOp::BitOr) == ir::BinOp::BitOr,
        map_binop_spec(BinOp::LogAnd) == ir::BinOp::LogAnd,
        map_binop_spec(BinOp::LogOr) == ir::BinOp::LogOr,
{
}

/// The integer an operator computes from unsigned operands, where it is a
/// plain integer formula.
pub open spec fn int_result(op: BinOp, a: int, b: int) -> Option<int> {
    match op {
        BinOp::Add => Some(a + b),
        BinOp::Sub => Some(a - b),
        BinOp::Mul => Some(a * b),
        BinOp::Shl => if b >= 0 {
            Some(a * pow2(b as nat))
        } else {
            None
        },
        _ => None,
    }
}

/// An operator whose result, for some operands of `w` bits, differs when
/// kept to `w` bits from the same result kept to a wider `cw` bits — a
/// carry, a borrow, a product or shift past the operands' width — is a
/// widening operator: a narrow evaluation under a wider context loses
/// bits, so an assignment of it needs the context width.
pub proof fn law_carrying_operators_widen(op: BinOp, a: int, b: int, w: nat, cw: nat)
    requires
        w < cw,
        0 <= a < pow2(w),
        0 <= b < pow2(w),
        int_result(op, a, b) matches Some(v) && v % (pow2(w) as int) != v % (pow2(cw) as int),
    ensures
        is_widening(op),
{
}

/// Subtraction, addition, multiplication and the left shift each have
/// operands for which the narrow and the wide result differ.
pub proof fn law_carrying_operators_exist()
    ensures
        int_result(BinOp::Sub, 0, 1) matches Some(v) && v % (pow2(1) as int) != v % (pow2(2) as int),
        int_result(BinOp::Add, 1, 1) matches Some(v) && v % (pow2(1) as int) != v % (pow2(2) as int),
        int_result(BinOp::Mul, 2, 2) matches Some(v) && v % (pow2(2) as int) != v % (pow2(3) as int),
        int_result(BinOp::Shl, 1, 1) matches Some(v) && v % (pow2(1) as int) != v % (pow2(2) as int),
{
    vstd::arithmetic::power2::lemma2_to64();
}

/// The method names of the table are distinct.
proof fn lemma_method_names()
    ensures
        "sort"@.len() == 4,
        "rsort"@.len() == 5,
        "reverse"@.len() == 7,
        "push_back"@.len() == 9,
        "push_front"@.len() == 10,
        "delete"@.len() == 6,
        "insert"@.len() == 6,
        "pop_back"@.len() == 8,
        "pop_front"@.len() == 9,
        "delete"@ != "insert"@,
        "push_back"@ != "pop_front"@,
        "push_back"@ != "push_front"@,
        "pop_back"@ != "pop_front"@,
{
    reveal_strlit("sort");
    reveal_strlit("rsort");
    reveal_strlit("reverse");
    reveal_strlit("push_back");
    reveal_strlit("push_front");
    reveal_strlit("delete");
    reveal_strlit("insert");
    reveal_strlit("pop_back");
    reveal_strlit("pop_front");
    assert("delete"@[0] != "insert"@[0]);
    assert("push_back"@[1] != "pop_front"@[1]);
    assert("push_back"@.len() != "push_front"@.len());
    assert("pop_back"@.len() != "pop_front"@.len());
}

// ── dynamic-storage method statements ────────────────────────────────────

/// On an ordered collection (a dynamic array or a queue), with no
/// arguments, `sort()` sorts ascending, `rsort()` descending and
/// `reverse()` reverses; with arguments they are refused, and on an
/// associative array they are refused.
pub proof fn law_ordering_methods(k: NetKind, n: int)
    ensures
        (k == NetKind::DynArray || k == NetKind::Queue) ==> {
            &&& dyn_method_form(k, "sort"@, 0) == (DynMethodForm::Order { which: SysTaskId::ArrSort })
            &&& dyn_method_form(k, "rsort"@, 0) == (DynMethodForm::Order { which: SysTaskId::ArrRsort })
            &&& dyn_method_form(k, "reverse"@, 0) == (DynMethodForm::Order { which: SysTaskId::ArrReverse })
        },
        n != 0 ==> dyn_method_form(k, "sort"@, n) == DynMethodForm::Refused && dyn_method_form(k, "rsort"@, n)
            == DynMethodForm::Refused && dyn_method_form(k, "reverse"@, n) == DynMethodForm::Refused,
        (k == NetKind::Assoc || k == NetKind::AssocStr) ==> dyn_method_form(k, "sort"@, 0)
            == DynMethodForm::Refused && dyn_method_form(k, "rsort"@, 0) == DynMethodForm::Refused
            && dyn_method_form(k, "reverse"@, 0) == DynMethodForm::Refused,
{
    lemma_method_names();
}

/// A queue pushes at the back with `push_back(v)` and at the front with
/// `push_front(v)`, pops from the back and the front likewise, deletes
/// by index with `delete(i)` and inserts with `insert(i, v)`; every kind
/// of dynamic storage is emptied by `delete()`; an associative array
/// deletes by key with `delete(k)`; a dynamic array has none of the
/// queue methods.
pub proof fn law_queue_and_delete_methods(k: NetKind)
    ensures
        dyn_method_form(NetKind::Queue, "push_back"@, 1) == (DynMethodForm::Push { front: false }),
        dyn_method_form(NetKind::Queue, "push_front"@, 1) == (DynMethodForm::Push { front: true }),
        dyn_method_form(NetKind::Queue, "pop_back"@, 0) == (DynMethodForm::Pop { front: false }),
        dyn_method_form(NetKind::Queue, "pop_front"@, 0) == (DynMethodForm::Pop { front: true }),
        dyn_method_form(NetKind::Queue, "delete"@, 1) == DynMethodForm::DeleteIdx,
        dyn_method_form(NetKind::Queue, "insert"@, 2) == DynMethodForm::Insert,
        dyn_method_form(k, "delete"@, 0) == DynMethodForm::DeleteAll,
        (k == NetKind::Assoc || k == NetKind::AssocStr) ==> dyn_method_form(k, "delete"@, 1)
            == DynMethodForm::DeleteKey,
        dyn_method_form(NetKind::DynArray, "push_back"@, 1) == DynMethodForm::Refused,
        dyn_method_form(NetKind::DynArray, "pop_front"@, 0) == DynMethodForm::Refused,
        dyn_method_form(NetKind::DynArray, "delete"@, 1) == DynMethodForm::Refused,
        dyn_method_form(NetKind::DynArray, "insert"@, 2) == DynMethodForm::Refused,
{
    lemma_method_names();
}

/// The width of a lowered unary node: `+`, `-` and `~` keep their
/// operand's width; a reduction or `!` is one bit.
pub proof fn law_lowered_unary_width(s: &Elaborator, id: int)
    requires
        s.wf(),
        0 <= id < s.exprs@.len(),
        s.exprs@[id] is Unary,
    ensures
        ({
            let op = s.exprs@[id]->Unary_op;
            let x = s.exprs@[id]->Unary_operand as int;
            &&& (op == ir::UnOp::Plus || op == ir::UnOp::Minus || op == ir::UnOp::BitNot) ==> s.bits_of(id)
                == s.bits_of(x)
            &&& !(op == ir::UnOp::Plus || op == ir::UnOp::Minus || op == ir::UnOp::BitNot) ==> s.bits_of(id)
                == Some(1u32)
        }),
{
    assert(crate::elab::operands_below(s.exprs@[id], id));
}

/// The primitive casting types of IEEE 1800 §6.11: their width, sign and
/// whether they are two-state; `real` has no integral shape.
pub proof fn law_primitive_cast_shapes()
    ensures
        prim_wsign(CastPrim::Byte) == Some((8u32, true, true)),
        prim_wsign(CastPrim::Shortint) == Some((16u32, true, true)),
        prim_wsign(CastPrim::Int) == Some((32u32, true, true)),
        prim_wsign(CastPrim::Longint) == Some((64u32, true, true)),
        prim_wsign(CastPrim::Integer) == Some((32u32, true, false)),
        prim_wsign(CastPrim::Time) == Some((64u32, false, false)),
        prim_wsign(CastPrim::Bit) == Some((1u32, false, true)),
        prim_wsign(CastPrim::Logic) == Some((1u32, false, false)),
        prim_wsign(CastPrim::Reg) == Some((1u32, false, false)),
        prim_wsign(CastPrim::Real) is None,
{
}

/// The bits of a `'1` fill of `w` bits: the value `2^w - 1` (all 64 bits
/// from 64 on).
pub proof fn law_ones_is_all_ones(w: u32)
    ensures
        w < 64 ==> ones(w) as int == pow2(w as nat) - 1,
        w >= 64 ==> ones(w) as int == pow2(64) - 1,
{
    vstd::arithmetic::power2::lemma2_to64();
    vstd::arithmetic::power2::lemma2_to64_rest();
    if w < 64 {
        vstd::bits::lemma_u64_pow2_no_overflow(w as nat);
        vstd::bits::lemma_u64_shl_is_mul(1, w as u64);
        assert((1u64 << w) == (1u64 << (w as u64))) by (bit_vector)
            requires
                w < 64,
        ;
    }
}

/// Under any context, a `'0`/`'1` fill compared with an operand that holds
/// no fill, is no string, is not real and is `w` bits wide takes `w` bits
/// (at least one): a comparison's operands size each other, the context
/// does not reach them.
pub proof fn law_fill_in_comparison(s: &Elaborator, op: BinOp, l: IntLit, rhs: Expr, ctx: u32, id: int)
    requires
        s.lowered_ctx(Expr::Binary { op, lhs: Box::new(Expr::IntLit(l)), rhs: Box::new(rhs) }, ctx, id),
        l.fill,
        l.value == Some(0i64) || l.value == Some(1i64),
        !contains_fill(rhs),
        !is_str_ast(s.tables.ident_routes@, rhs),
        op == BinOp::Eq || op == BinOp::Ne || op == BinOp::Lt || op == BinOp::Le || op == BinOp::Gt || op
            == BinOp::Ge || op == BinOp::CaseEq || op == BinOp::CaseNe,
    ensures
        s.bin_operands(id) matches Some((a, b)) && (!s.is_real(b as int) ==> (s.bits_of(b as int) matches Some(
            w,
        ) ==> s.bits_of(a as int) == Some(max_u32(w, 1)))),
{
    assert(!is_str_ast(s.tables.ident_routes@, Expr::IntLit(l)));
    assert(contains_fill(Expr::IntLit(l)));
    let (a, b) = s.bin_operands(id).unwrap();
    assert(s.lowered_ctx(Expr::IntLit(l), s.sibling_ctx_spec(0, b as int), a as int));
}

/// A shift or power passes the context to its left operand only: a
/// `'0`/`'1` fill on the left takes `max(ctx, 1)` bits, one on the right
/// one bit.
pub proof fn law_fill_in_shift(s: &Elaborator, op: BinOp, l: IntLit, r: IntLit, ctx: u32, id: int)
    requires
        s.lowered_ctx(Expr::Binary { op, lhs: Box::new(Expr::IntLit(l)), rhs: Box::new(Expr::IntLit(r)) }, ctx, id),
        l.fill,
        l.value == Some(0i64) || l.value == Some(1i64),
        r.fill,
        r.value == Some(0i64) || r.value == Some(1i64),
        op == BinOp::Shl || op == BinOp::Shr || op == BinOp::AShl || op == BinOp::AShr || op == BinOp::Pow,
    ensures
        s.bin_operands(id) matches Some((a, b)) && s.bits_of(a as int) == Some(max_u32(ctx, 1)) && s.bits_of(
            b as int,
        ) == Some(1u32),
{
    assert(contains_fill(Expr::IntLit(l)));
    assert(!crate::lower::is_ctx_node(Expr::IntLit(r)));
    assert(!crate::lower::is_wild(op) && !crate::lower::is_str_compare_op(op));
    let (a, b) = s.bin_operands(id).unwrap();
    assert(s.lowered_or_plain(Expr::IntLit(l), ctx, a as int));
    assert(s.lowered_ctx(Expr::IntLit(l), ctx, a as int));
    assert(s.lowered(Expr::IntLit(r), b as int));
    assert(s.lowered_ungated(Expr::IntLit(r), b as int));
}

/// The operands of `&&` and `||` are self-determined: a `'0`/`'1` fill
/// there is one bit wide whatever the context.
pub proof fn law_fill_in_logical(s: &Elaborator, op: BinOp, l: IntLit, r: IntLit, ctx: u32, id: int)
    requires
        s.lowered_ctx(Expr::Binary { op, lhs: Box::new(Expr::IntLit(l)), rhs: Box::new(Expr::IntLit(r)) }, ctx, id),
        l.fill,
        l.value == Some(0i64) || l.value == Some(1i64),
        r.fill,
        r.value == Some(0i64) || r.value == Some(1i64),
        op == BinOp::LogAnd || op == BinOp::LogOr,
    ensures
        s.bin_operands(id) matches Some((a, b)) && s.bits_of(a as int) == Some(1u32) && s.bits_of(b as int) == Some(
            1u32,
        ),
{
    assert(contains_fill(Expr::IntLit(l)));
    assert(contains_fill(Expr::IntLit(r)));
    assert(!crate::lower::is_wild(op) && !crate::lower::is_str_compare_op(op));
    let (a, b) = s.bin_operands(id).unwrap();
    assert(s.lowered_or_plain(Expr::IntLit(l), 0, a as int));
    assert(s.lowered_ctx(Expr::IntLit(l), 0, a as int));
    assert(s.lowered_or_plain(Expr::IntLit(r), 0, b as int));
    assert(s.lowered_ctx(Expr::IntLit(r), 0, b as int));
}

/// The width of a size-cast operand: comparisons and logical operators
/// give one bit, a shift or power its left operand's width, an arithmetic
/// or bitwise operator its wider operand's; a fill beside an operand adds
/// nothing to its width (the fill takes the context instead).
pub proof fn law_size_ctx_binary(s: &Elaborator, op: BinOp, l: Expr, r: Expr, f: IntLit)
    ensures
        ({
            let res = s.size_ctx_width(Expr::Binary { op, lhs: Box::new(l), rhs: Box::new(r) });
            &&& (op == BinOp::Lt || op == BinOp::Le || op == BinOp::Gt || op == BinOp::Ge || op == BinOp::Eq
                || op == BinOp::Ne || op == BinOp::CaseEq || op == BinOp::CaseNe || op == BinOp::WildEq
                || op == BinOp::WildNe || op == BinOp::LogAnd || op == BinOp::LogOr) ==> res == Some(1u32)
            &&& (op == BinOp::Shl || op == BinOp::Shr || op == BinOp::AShl || op == BinOp::AShr || op
                == BinOp::Pow) ==> res == s.size_ctx_width(l)
            &&& (op == BinOp::Add || op == BinOp::Sub || op == BinOp::Mul || op == BinOp::Div || op == BinOp::Mod
                || op == BinOp::BitAnd || op == BinOp::BitOr || op == BinOp::BitXor || op == BinOp::BitXnor) ==> match (
                s.size_ctx_width(l),
                s.size_ctx_width(r),
            ) {
                (Some(x), Some(y)) => res matches Some(w) && w >= x && w >= y && (w == x || w == y),
                _ => res is None,
            }
        }),
        f.fill ==> (s.size_ctx_width(l) matches Some(x) ==> s.size_ctx_width(
            Expr::Binary { op: BinOp::Add, lhs: Box::new(l), rhs: Box::new(Expr::IntLit(f)) },
        ) == Some(x)),
{
    assert(f.fill ==> s.size_ctx_width(Expr::IntLit(f)) == Some(0u32));
}

} // verus!
