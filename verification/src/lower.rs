//! Expression lowering: a source expression becomes nodes of the arena,
//! post-order, in a self-determined position or under a context width that
//! an unsized fill literal grows to.

use vstd::prelude::*;
use crate::ast::{BinOp, Expr, IntLit, UnOp};
use crate::ir;
use crate::ir::{ConstRepr, ConstVal, SysFuncId};
use crate::elab::{operands_below, Elaborator, IdentRoute, MsgCode, Severity};
use crate::expr_ctx::{map_binop, map_binop_spec, map_unop, map_unop_spec};
use crate::ast::HierPath;
use crate::ir_width::max_u32;
use crate::names::{assoc_first, lookup_first};
use crate::pkg::{param_signed, param_width};

verus! {

impl Elaborator {
    /// Every constant node names an interned constant.
    pub open spec fn consts_closed(&self) -> bool {
        forall|i: int|
            0 <= i < self.exprs@.len() ==> (#[trigger] self.exprs@[i] matches ir::Expr::Const { val }
                ==> (val as int) < self.consts@.len())
    }

    /// `self` grew from `old`: its nodes and constants are kept, and the
    /// nets, frames and tables the readers of a node consult are unchanged.
    pub open spec fn grew_from(&self, old: &Elaborator) -> bool {
        &&& self.arena_extends(old)
        &&& self.nets == old.nets
        &&& self.func_metas == old.func_metas
        &&& self.tables == old.tables
    }
}

pub proof fn lemma_node_kept(s1: &Elaborator, s2: &Elaborator, i: int)
    requires
        s2.arena_extends(s1),
        0 <= i < s1.exprs@.len(),
    ensures
        s2.exprs@[i] == s1.exprs@[i],
        i < s2.exprs@.len(),
{
    assert(s2.exprs@.take(s1.exprs@.len() as int)[i] == s2.exprs@[i]);
}

proof fn lemma_const_kept(s1: &Elaborator, s2: &Elaborator, c: int)
    requires
        s2.arena_extends(s1),
        0 <= c < s1.consts@.len(),
    ensures
        s2.consts@[c] == s1.consts@[c],
        c < s2.consts@.len(),
{
    assert(s2.consts@.take(s1.consts@.len() as int)[c] == s2.consts@[c]);
}

proof fn lemma_const_value_kept(s1: &Elaborator, s2: &Elaborator, id: int)
    requires
        s1.consts_closed(),
        s2.arena_extends(s1),
        0 <= id < s1.exprs@.len(),
    ensures
        s2.const_node_value(id) == s1.const_node_value(id),
{
    lemma_node_kept(s1, s2, id);
    if let ir::Expr::Const { val } = s1.exprs@[id] {
        lemma_const_kept(s1, s2, val as int);
    }
}

proof fn lemma_width_edge_kept(s1: &Elaborator, s2: &Elaborator, id: int)
    requires
        s1.wf(),
        s1.consts_closed(),
        s2.arena_extends(s1),
        0 <= id < s1.exprs@.len(),
    ensures
        s2.width_edge(id) == s1.width_edge(id),
{
    lemma_node_kept(s1, s2, id);
    assert(operands_below(s1.exprs@[id], id));
    lemma_const_value_kept(s1, s2, id);
    if let ir::Expr::Binary { op, lhs, rhs } = s1.exprs@[id] {
        lemma_const_value_kept(s1, s2, rhs as int);
        lemma_node_kept(s1, s2, lhs as int);
        assert(operands_below(s1.exprs@[lhs as int], lhs as int));
        if let ir::Expr::Binary { lhs: m, rhs: l, .. } = s1.exprs@[lhs as int] {
            lemma_const_value_kept(s1, s2, m as int);
            lemma_const_value_kept(s1, s2, l as int);
        }
    }
}

/// What a node reads as (real or not, its width) is fixed once it is
/// lowered: growing the arena does not change it.
pub proof fn lemma_reads_kept(s1: &Elaborator, s2: &Elaborator, eid: int)
    requires
        s1.wf(),
        s1.consts_closed(),
        s2.grew_from(s1),
        0 <= eid < s1.exprs@.len(),
    ensures
        s2.is_real(eid) == s1.is_real(eid),
        s2.bits_of(eid) == s1.bits_of(eid),
    decreases eid, 1nat, 0nat,
{
    lemma_node_kept(s1, s2, eid);
    let e = s1.exprs@[eid];
    assert(operands_below(e, eid));
    match e {
        ir::Expr::Const { val } => {
            lemma_const_kept(s1, s2, val as int);
        },
        ir::Expr::Select { width, .. } => {
            lemma_width_edge_kept(s1, s2, width as int);
        },
        ir::Expr::Concat { parts } => {
            lemma_sum_bits_kept(s1, s2, parts@, eid);
        },
        ir::Expr::Replicate { count, value } => {
            lemma_width_edge_kept(s1, s2, count as int);
            lemma_reads_kept(s1, s2, value as int);
        },
        ir::Expr::Unary { operand, .. } => {
            lemma_reads_kept(s1, s2, operand as int);
        },
        ir::Expr::Binary { lhs, rhs, .. } => {
            lemma_reads_kept(s1, s2, lhs as int);
            lemma_reads_kept(s1, s2, rhs as int);
        },
        ir::Expr::Ternary { then_e, else_e, .. } => {
            lemma_reads_kept(s1, s2, then_e as int);
            lemma_reads_kept(s1, s2, else_e as int);
        },
        ir::Expr::SysFunc { args, .. } => {
            if args@.len() > 0 {
                assert(args@[0] < eid);
                lemma_reads_kept(s1, s2, args@[0] as int);
            }
        },
        _ => {},
    }
}

proof fn lemma_sum_bits_kept(s1: &Elaborator, s2: &Elaborator, parts: Seq<u32>, eid: int)
    requires
        s1.wf(),
        s1.consts_closed(),
        s2.grew_from(s1),
        0 <= eid < s1.exprs@.len(),
    ensures
        s2.sum_bits(parts, eid) == s1.sum_bits(parts, eid),
    decreases eid, 0nat, parts.len(),
{
    if parts.len() > 0 {
        lemma_sum_bits_kept(s1, s2, parts.drop_last(), eid);
        if parts.last() < eid {
            lemma_reads_kept(s1, s2, parts.last() as int);
        }
    }
}

// ── what a lowered expression is ─────────────────────────────────────────

/// The low `w` bits set (all 64 from 64 bits on).
pub open spec fn ones(w: u32) -> u64 {
    if w >= 64 {
        0xffff_ffff_ffff_ffffu64
    } else {
        ((1u64 << w) - 1) as u64
    }
}

/// The constant a literal lowers to at `w` bits: a fill `'0`/`'1` (its digit
/// held in `value`) is `w` zero or one bits, unsigned; any other literal is
/// its parsed width, sign and value. `None` for a literal the arena cannot
/// hold (an `x`/`z` fill or bit, a malformed literal, a value beyond
/// `i64`).
pub open spec fn lit_const(l: IntLit, w: u32) -> Option<ConstVal> {
    if l.fill {
        match l.value {
            Some(d) => if d == 0 {
                Some(ConstVal { width: w, signed: false, repr: ConstRepr::Numeric, bits: 0 })
            } else if d == 1 {
                Some(ConstVal { width: w, signed: false, repr: ConstRepr::Numeric, bits: ones(w) })
            } else {
                None
            },
            None => None,
        }
    } else {
        match (l.parsed, l.value) {
            (Some(s), Some(v)) => Some(
                ConstVal { width: s.width, signed: s.signed, repr: ConstRepr::Numeric, bits: v as u64 },
            ),
            _ => None,
        }
    }
}

/// The zero a string comparison is measured against: 32 signed bits.
pub open spec fn str_compare_zero() -> ConstVal {
    ConstVal { width: 32, signed: true, repr: ConstRepr::Numeric, bits: 0 }
}

/// Does `e` hold an unsized fill literal in an operand position that a
/// context reaches?
pub open spec fn contains_fill(e: Expr) -> bool
    decreases e,
{
    match e {
        Expr::IntLit(l) => l.fill,
        Expr::Paren(inner) => contains_fill(*inner),
        Expr::Unary { operand, .. } => contains_fill(*operand),
        Expr::Binary { lhs, rhs, .. } => contains_fill(*lhs) || contains_fill(*rhs),
        Expr::Ternary { cond, then_e, else_e } => contains_fill(*cond) || contains_fill(*then_e)
            || contains_fill(*else_e),
        Expr::MinTypMax { typ, .. } => contains_fill(*typ),
        Expr::Concat(parts) => any_fill(parts@),
        Expr::Replicate { value, .. } => any_fill(value@),
        _ => false,
    }
}

/// Does any of `es` hold a fill literal?
pub open spec fn any_fill(es: Seq<Expr>) -> bool
    decreases es,
{
    if es.len() == 0 {
        false
    } else {
        any_fill(es.drop_last()) || contains_fill(es.last())
    }
}

/// The node kinds a context width propagates through.
pub open spec fn is_ctx_node(e: Expr) -> bool {
    match e {
        Expr::Paren(_) | Expr::Unary { .. } | Expr::Binary { .. } | Expr::Ternary { .. }
        | Expr::Concat(_) | Expr::Replicate { .. } | Expr::MinTypMax { .. } => true,
        _ => false,
    }
}

/// The wildcard equalities, which this lowering refuses.
pub open spec fn is_wild(op: BinOp) -> bool {
    op == BinOp::WildEq || op == BinOp::WildNe
}

/// The comparisons that a string operand turns into a string comparison.
pub open spec fn is_str_compare_op(op: BinOp) -> bool {
    match op {
        BinOp::Eq | BinOp::Ne | BinOp::Lt | BinOp::Le | BinOp::Gt | BinOp::Ge => true,
        _ => false,
    }
}

/// The comparisons whose operands size each other but not the context.
pub open spec fn is_compare_op(op: BinOp) -> bool {
    match op {
        BinOp::Eq | BinOp::Ne | BinOp::Lt | BinOp::Le | BinOp::Gt | BinOp::Ge | BinOp::CaseEq
        | BinOp::CaseNe => true,
        _ => false,
    }
}

/// The operators whose left operand takes the context and whose right one
/// is self-determined.
pub open spec fn is_shift_like(op: BinOp) -> bool {
    match op {
        BinOp::Shl | BinOp::Shr | BinOp::AShl | BinOp::AShr | BinOp::Pow => true,
        _ => false,
    }
}

/// The unary operators whose operand is self-determined.
pub open spec fn is_self_det_unop(op: UnOp) -> bool {
    match op {
        UnOp::LogNot | UnOp::RedAnd | UnOp::RedNand | UnOp::RedOr | UnOp::RedNor | UnOp::RedXor
        | UnOp::RedXnor => true,
        _ => false,
    }
}

/// Is the source expression a `string` value: a string literal, or a name
/// that `routes` routes to a string?
pub open spec fn is_str_ast(routes: Seq<(String, IdentRoute)>, e: Expr) -> bool
    decreases e,
{
    match e {
        Expr::StrLit => true,
        Expr::Paren(inner) => is_str_ast(routes, *inner),
        Expr::Ident(p) => p.segments@.len() == 1 && assoc_first(routes, p.segments@[0]@) matches Some(
            IdentRoute::Str,
        ),
        _ => false,
    }
}

/// How many nodes lowering `e` may append at most.
pub open spec fn lower_budget(e: Expr) -> nat
    decreases e,
{
    match e {
        Expr::Paren(inner) => 1 + lower_budget(*inner),
        Expr::Unary { operand, .. } => 1 + lower_budget(*operand),
        Expr::Binary { lhs, rhs, .. } => 3 + lower_budget(*lhs) + lower_budget(*rhs),
        Expr::Ternary { cond, then_e, else_e } => 1 + lower_budget(*cond) + lower_budget(*then_e)
            + lower_budget(*else_e),
        Expr::MinTypMax { typ, .. } => 1 + lower_budget(*typ),
        Expr::Concat(parts) => 1 + parts_budget(parts@),
        _ => 1,
    }
}

/// The lowering budget of a list of expressions.
pub open spec fn parts_budget(parts: Seq<Expr>) -> nat
    decreases parts,
{
    if parts.len() == 0 {
        0
    } else {
        parts_budget(parts.subrange(0, parts.len() - 1)) + lower_budget(parts.last())
    }
}

/// Does any of `es` read as a string?
pub open spec fn any_str(routes: Seq<(String, IdentRoute)>, es: Seq<Expr>) -> bool {
    exists|k: int| 0 <= k < es.len() && #[trigger] is_str_ast(routes, es[k])
}

impl Elaborator {
    /// Node `id` is the constant `cv`.
    pub open spec fn const_at(&self, id: int, cv: ConstVal) -> bool {
        &&& 0 <= id < self.exprs@.len()
        &&& self.exprs@[id] matches ir::Expr::Const { val } && (val as int) < self.consts@.len()
            && self.consts@[val as int] == cv
    }

    /// Node `id` is the placeholder a refused expression lowers to.
    pub open spec fn placeholder_at(&self, id: int) -> bool {
        self.is_const_node(id, 0, 1)
    }

    /// What a bare name lowers to: a parameter whose value is known is its
    /// constant; a name that reads a scope net is that net; anything else is
    /// refused.
    pub open spec fn ident_lowered(&self, p: crate::ast::HierPath, id: int) -> bool {
        if p.segments@.len() == 1 {
            match assoc_first(self.tables.ident_routes@, p.segments@[0]@) {
                Some(IdentRoute::Param { v, meta, guessed }) => if guessed {
                    self.placeholder_at(id)
                } else {
                    self.const_at(
                        id,
                        ConstVal {
                            width: param_width(v, meta),
                            signed: param_signed(meta),
                            repr: ConstRepr::Numeric,
                            bits: v as u64,
                        },
                    )
                },
                Some(_) => self.placeholder_at(id),
                None => match assoc_first(self.tables.scope_nets@, p.segments@[0]@) {
                    Some(net) => self.exprs@[id] matches ir::Expr::Signal { net: n, word } && n == net
                        && word is None,
                    None => self.placeholder_at(id),
                },
            }
        } else {
            self.placeholder_at(id)
        }
    }

    /// The operands of a string comparison at `id`: node `id` is `irop`
    /// over a `$strcmp(l, r)` node and the 32-bit signed zero.
    pub open spec fn str_compare_operands(&self, id: int, irop: ir::BinOp) -> Option<(u32, u32)> {
        match self.exprs@[id] {
            ir::Expr::Binary { op, lhs: sc, rhs: zero } => if op == irop && sc < id && zero < id
                && self.const_at(zero as int, str_compare_zero()) {
                match self.exprs@[sc as int] {
                    ir::Expr::SysFunc { which, args } => if which == SysFuncId::StrCmp && args@.len()
                        == 2 && args@[0] < sc && args@[1] < sc {
                        Some((args@[0], args@[1]))
                    } else {
                        None
                    },
                    _ => None,
                }
            } else {
                None
            },
            _ => None,
        }
    }

    /// The operand ids of a binary node (or of the `$pow` a real `**`
    /// becomes).
    pub open spec fn bin_operands(&self, id: int) -> Option<(u32, u32)> {
        match self.exprs@[id] {
            ir::Expr::Binary { lhs, rhs, .. } => Some((lhs, rhs)),
            ir::Expr::SysFunc { which, args } => if which == SysFuncId::Pow && args@.len() == 2 {
                Some((args@[0], args@[1]))
            } else {
                None
            },
            _ => None,
        }
    }

    /// Node `id` applies `irop` to the operands `l` and `r`: the binary node,
    /// or `$pow(l, r)` for a `**` with a real operand.
    pub open spec fn bin_node(&self, id: int, irop: ir::BinOp, l: u32, r: u32) -> bool {
        let any_real = self.is_real(l as int) || self.is_real(r as int);
        &&& l < id && r < id
        &&& if irop == ir::BinOp::Pow && any_real {
            self.exprs@[id] matches ir::Expr::SysFunc { which, args } && which == SysFuncId::Pow
                && args@ == seq![l, r]
        } else {
            self.exprs@[id] matches ir::Expr::Binary { op, lhs, rhs } && op == irop && lhs == l
                && rhs == r
        }
    }

    /// `e` lowered at node `id` in a self-determined position: through the
    /// context lowering (at context 0) when it propagates a context and
    /// holds a fill, else directly.
    pub open spec fn lowered(&self, e: Expr, id: int) -> bool
        decreases e, 2nat,
    {
        if is_ctx_node(e) && contains_fill(e) {
            self.lowered_ctx(e, 0, id)
        } else {
            self.lowered_ungated(e, id)
        }
    }

    /// `x` lowered under context `c` when it holds a fill, else as in a
    /// self-determined position.
    pub open spec fn lowered_or_plain(&self, x: Expr, c: u32, id: int) -> bool
        decreases x, 3nat,
    {
        if contains_fill(x) {
            self.lowered_ctx(x, c, id)
        } else {
            self.lowered(x, id)
        }
    }

    /// `e` lowered at `id` with no context: a literal is its constant (a fill
    /// one bit wide); a name its parameter constant or net; an operator its
    /// node over its operands lowered self-determined first (`**` with a real
    /// operand the `$pow` function); a comparison with a string operand
    /// `$strcmp(l, r) op 0`; `?:` its node; a min:typ:max its typical value.
    /// Every other form, a wildcard equality among them, is refused: the
    /// placeholder.
    pub open spec fn lowered_ungated(&self, e: Expr, id: int) -> bool
        decreases e, 0nat,
    {
        &&& 0 <= id < self.exprs@.len()
        &&& match e {
            Expr::IntLit(l) => match lit_const(l, 1) {
                Some(cv) => self.const_at(id, cv),
                None => self.placeholder_at(id),
            },
            Expr::Paren(inner) => self.lowered(*inner, id),
            Expr::Ident(p) => self.ident_lowered(p, id),
            Expr::MinTypMax { typ, .. } => self.lowered(*typ, id),
            Expr::Unary { op, operand } => self.exprs@[id] matches ir::Expr::Unary { op: o, operand: x }
                && o == map_unop_spec(op) && x < id && self.lowered(*operand, x as int),
            Expr::Binary { op, lhs, rhs } => if is_wild(op) {
                self.placeholder_at(id)
            } else if is_str_compare_op(op) && (is_str_ast(self.tables.ident_routes@, *lhs) || is_str_ast(self.tables.ident_routes@, *rhs)) {
                self.str_compare_operands(id, map_binop_spec(op)) matches Some((l, r)) && self.lowered(
                    *lhs,
                    l as int,
                ) && self.lowered(*rhs, r as int)
            } else {
                self.bin_operands(id) matches Some((l, r)) && self.bin_node(id, map_binop_spec(op), l, r)
                    && self.lowered(*lhs, l as int) && self.lowered(*rhs, r as int)
            },
            Expr::Ternary { cond, then_e, else_e } => self.exprs@[id] matches ir::Expr::Ternary {
                cond: c,
                then_e: t,
                else_e: f,
            } && c < id && t < id && f < id && self.lowered(*cond, c as int) && self.lowered(
                *then_e,
                t as int,
            ) && self.lowered(*else_e, f as int),
            Expr::Concat(parts) => if any_str(self.tables.ident_routes@, parts@) {
                self.placeholder_at(id)
            } else {
                self.exprs@[id] matches ir::Expr::Concat { parts: ids } && self.lowered_parts(
                    parts@,
                    ids@,
                    id,
                )
            },
            _ => self.placeholder_at(id),
        }
    }

    /// Each of `parts` lowered at the id `ids` gives it, below `id`.
    pub open spec fn lowered_parts(&self, parts: Seq<Expr>, ids: Seq<u32>, id: int) -> bool
        decreases parts, 4nat,
    {
        &&& ids.len() == parts.len()
        &&& parts.len() > 0 ==> {
            &&& ids.last() < id
            &&& self.lowered(parts.last(), ids.last() as int)
            &&& self.lowered_parts(parts.subrange(0, parts.len() - 1), ids.subrange(0, ids.len() - 1), id)
        }
    }

    /// `e` lowered at `id` under the context width `ctx`: a fill literal is
    /// a constant of `max(ctx, 1)` bits; `&&`/`||` lower their operands
    /// self-determined; a shift or power passes the context to its left
    /// operand only; a comparison sizes its operands to each other, any
    /// other binary operator to the context as well: a fill side takes
    /// `max(base, the other side's width)` (nothing from a real side), two
    /// fill sides `max(base, 1)`; `+ - ~` pass the context on, the
    /// reductions and `!` do not; `?:` sizes its branches like a binary
    /// operator; a string comparison takes no context. Other forms lower as
    /// with no context.
    pub open spec fn lowered_ctx(&self, e: Expr, ctx: u32, id: int) -> bool
        decreases e, 1nat,
    {
        &&& 0 <= id < self.exprs@.len()
        &&& match e {
            Expr::Paren(inner) => self.lowered_ctx(*inner, ctx, id),
            Expr::MinTypMax { typ, .. } => self.lowered_ctx(*typ, ctx, id),
            Expr::IntLit(l) => if l.fill {
                match lit_const(l, max_u32(ctx, 1)) {
                    Some(cv) => self.const_at(id, cv),
                    None => self.placeholder_at(id),
                }
            } else {
                self.lowered_ungated(e, id)
            },
            Expr::Unary { op, operand } => self.exprs@[id] matches ir::Expr::Unary { op: o, operand: x }
                && o == map_unop_spec(op) && x < id && self.lowered_or_plain(
                *operand,
                if is_self_det_unop(op) {
                    0
                } else {
                    ctx
                },
                x as int,
            ),
            Expr::Binary { op, lhs, rhs } => if is_wild(op) || (is_str_compare_op(op) && (is_str_ast(self.tables.ident_routes@, *lhs) || is_str_ast(self.tables.ident_routes@, *rhs))) {
                self.lowered_ungated(e, id)
            } else {
                self.bin_operands(id) matches Some((l, r)) && self.bin_node(id, map_binop_spec(op), l, r)
                    && if op == BinOp::LogAnd || op == BinOp::LogOr {
                    self.lowered_or_plain(*lhs, 0, l as int) && self.lowered_or_plain(*rhs, 0, r as int)
                } else if is_shift_like(op) {
                    self.lowered_or_plain(*lhs, ctx, l as int) && self.lowered(*rhs, r as int)
                } else {
                    let base = if is_compare_op(op) {
                        0
                    } else {
                        ctx
                    };
                    if contains_fill(*lhs) && !contains_fill(*rhs) {
                        self.lowered(*rhs, r as int) && self.lowered_ctx(
                            *lhs,
                            self.sibling_ctx_spec(base, r as int),
                            l as int,
                        )
                    } else if contains_fill(*rhs) && !contains_fill(*lhs) {
                        self.lowered(*lhs, l as int) && self.lowered_ctx(
                            *rhs,
                            self.sibling_ctx_spec(base, l as int),
                            r as int,
                        )
                    } else {
                        self.lowered_ctx(*lhs, max_u32(base, 1), l as int) && self.lowered_ctx(
                            *rhs,
                            max_u32(base, 1),
                            r as int,
                        )
                    }
                }
            },
            Expr::Ternary { cond, then_e, else_e } => self.exprs@[id] matches ir::Expr::Ternary {
                cond: c,
                then_e: t,
                else_e: f,
            } && c < id && t < id && f < id && self.lowered(*cond, c as int) && if contains_fill(
                *then_e,
            ) && !contains_fill(*else_e) {
                self.lowered(*else_e, f as int) && self.lowered_ctx(
                    *then_e,
                    self.sibling_ctx_spec(ctx, f as int),
                    t as int,
                )
            } else if contains_fill(*else_e) && !contains_fill(*then_e) {
                self.lowered(*then_e, t as int) && self.lowered_ctx(
                    *else_e,
                    self.sibling_ctx_spec(ctx, t as int),
                    f as int,
                )
            } else {
                self.lowered_ctx(*then_e, max_u32(ctx, 1), t as int) && self.lowered_ctx(
                    *else_e,
                    max_u32(ctx, 1),
                    f as int,
                )
            },
            _ => self.lowered_ungated(e, id),
        }
    }
}

proof fn lemma_const_at_kept(s1: &Elaborator, s2: &Elaborator, id: int, cv: ConstVal)
    requires
        s2.arena_extends(s1),
        s1.const_at(id, cv),
    ensures
        s2.const_at(id, cv),
{
    lemma_node_kept(s1, s2, id);
    if let ir::Expr::Const { val } = s1.exprs@[id] {
        lemma_const_kept(s1, s2, val as int);
    }
}

proof fn lemma_placeholder_kept(s1: &Elaborator, s2: &Elaborator, id: int)
    requires
        s2.arena_extends(s1),
        s1.placeholder_at(id),
    ensures
        s2.placeholder_at(id),
{
    lemma_const_at_kept(s1, s2, id, crate::elab::const_u32_spec(0, 1));
}

proof fn lemma_bin_kept(s1: &Elaborator, s2: &Elaborator, id: int, irop: ir::BinOp)
    requires
        s1.wf(),
        s1.consts_closed(),
        s2.grew_from(s1),
        0 <= id < s1.exprs@.len(),
    ensures
        s2.bin_operands(id) == s1.bin_operands(id),
        s1.bin_operands(id) matches Some((l, r)) ==> (s1.bin_node(id, irop, l, r) ==> s2.bin_node(
            id,
            irop,
            l,
            r,
        )),
        s2.str_compare_operands(id, irop) == s1.str_compare_operands(id, irop),
{
    lemma_node_kept(s1, s2, id);
    if let Some((l, r)) = s1.bin_operands(id) {
        if s1.bin_node(id, irop, l, r) {
            lemma_reads_kept(s1, s2, l as int);
            lemma_reads_kept(s1, s2, r as int);
        }
    }
    if let ir::Expr::Binary { lhs: sc, rhs: zero, .. } = s1.exprs@[id] {
        assert(operands_below(s1.exprs@[id], id));
        lemma_node_kept(s1, s2, sc as int);
        lemma_node_kept(s1, s2, zero as int);
        if let ir::Expr::Const { val } = s1.exprs@[zero as int] {
            if (val as int) < s1.consts@.len() {
                lemma_const_kept(s1, s2, val as int);
            }
            assert((val as int) < s1.consts@.len());
        }
    }
}

proof fn lemma_sibling_kept(s1: &Elaborator, s2: &Elaborator, base: u32, sib: int)
    requires
        s1.wf(),
        s1.consts_closed(),
        s2.grew_from(s1),
        0 <= sib < s1.exprs@.len(),
    ensures
        s2.sibling_ctx_spec(base, sib) == s1.sibling_ctx_spec(base, sib),
{
    lemma_reads_kept(s1, s2, sib);
}

/// A lowering, once done, stays what it is while the arena grows.
pub proof fn lemma_lowered_kept(s1: &Elaborator, s2: &Elaborator, e: Expr, id: int)
    requires
        s1.wf(),
        s1.consts_closed(),
        s2.grew_from(s1),
        s1.lowered(e, id),
    ensures
        s2.lowered(e, id),
    decreases e, 2nat,
{
    if is_ctx_node(e) && contains_fill(e) {
        lemma_lowered_ctx_kept(s1, s2, e, 0, id);
    } else {
        lemma_lowered_ungated_kept(s1, s2, e, id);
    }
}

pub proof fn lemma_lowered_or_plain_kept(s1: &Elaborator, s2: &Elaborator, x: Expr, c: u32, id: int)
    requires
        s1.wf(),
        s1.consts_closed(),
        s2.grew_from(s1),
        s1.lowered_or_plain(x, c, id),
    ensures
        s2.lowered_or_plain(x, c, id),
    decreases x, 3nat,
{
    if contains_fill(x) {
        lemma_lowered_ctx_kept(s1, s2, x, c, id);
    } else {
        lemma_lowered_kept(s1, s2, x, id);
    }
}

proof fn lemma_lowered_ungated_kept(s1: &Elaborator, s2: &Elaborator, e: Expr, id: int)
    requires
        s1.wf(),
        s1.consts_closed(),
        s2.grew_from(s1),
        s1.lowered_ungated(e, id),
    ensures
        s2.lowered_ungated(e, id),
    decreases e, 0nat,
{
    lemma_node_kept(s1, s2, id);
    match e {
        Expr::IntLit(l) => {
            match lit_const(l, 1) {
                Some(cv) => lemma_const_at_kept(s1, s2, id, cv),
                None => lemma_placeholder_kept(s1, s2, id),
            }
            assert(s2.lowered_ungated(e, id));
        },
        Expr::Paren(inner) => {
            lemma_lowered_kept(s1, s2, *inner, id);
            assert(s2.lowered_ungated(e, id));
        },
        Expr::Ident(p) => {
            if s1.placeholder_at(id) {
                lemma_placeholder_kept(s1, s2, id);
            }
            if p.segments@.len() == 1 {
                if let Some(IdentRoute::Param { v, meta, guessed }) = assoc_first(
                    s1.tables.ident_routes@,
                    p.segments@[0]@,
                ) {
                    if !guessed {
                        lemma_const_at_kept(
                            s1,
                            s2,
                            id,
                            ConstVal {
                                width: param_width(v, meta),
                                signed: param_signed(meta),
                                repr: ConstRepr::Numeric,
                                bits: v as u64,
                            },
                        );
                    }
                }
            }
            assert(s2.lowered_ungated(e, id));
        },
        Expr::MinTypMax { typ, .. } => {
            lemma_lowered_kept(s1, s2, *typ, id);
            assert(s2.lowered_ungated(e, id));
        },
        Expr::Unary { operand, .. } => {
            if let ir::Expr::Unary { operand: x, .. } = s1.exprs@[id] {
                lemma_lowered_kept(s1, s2, *operand, x as int);
            }
            assert(s2.lowered_ungated(e, id));
        },
        Expr::Binary { op, lhs, rhs } => {
            if is_wild(op) {
                lemma_placeholder_kept(s1, s2, id);
            } else {
                lemma_bin_kept(s1, s2, id, map_binop_spec(op));
                if is_str_compare_op(op) && (is_str_ast(s1.tables.ident_routes@, *lhs) || is_str_ast(s1.tables.ident_routes@, *rhs)) {
                    if let Some((l, r)) = s1.str_compare_operands(id, map_binop_spec(op)) {
                        lemma_lowered_kept(s1, s2, *lhs, l as int);
                        lemma_lowered_kept(s1, s2, *rhs, r as int);
                    }
                } else {
                    if let Some((l, r)) = s1.bin_operands(id) {
                        lemma_lowered_kept(s1, s2, *lhs, l as int);
                        lemma_lowered_kept(s1, s2, *rhs, r as int);
                    }
                }
            }
            assert(s2.lowered_ungated(e, id));
        },
        Expr::Ternary { cond, then_e, else_e } => {
            if let ir::Expr::Ternary { cond: c, then_e: t, else_e: f } = s1.exprs@[id] {
                lemma_lowered_kept(s1, s2, *cond, c as int);
                lemma_lowered_kept(s1, s2, *then_e, t as int);
                lemma_lowered_kept(s1, s2, *else_e, f as int);
            }
            assert(s2.lowered_ungated(e, id));
        },
        Expr::Concat(parts) => {
            if any_str(s1.tables.ident_routes@, parts@) {
                lemma_placeholder_kept(s1, s2, id);
            } else if let ir::Expr::Concat { parts: ids } = s1.exprs@[id] {
                lemma_lowered_parts_kept(s1, s2, parts@, ids@, id, id);
            }
        },
        _ => {
            lemma_placeholder_kept(s1, s2, id);
            assert(s2.lowered_ungated(e, id));
        },
    }
}

/// The lowered parts of a concatenation stay lowered while the arena grows,
/// below any later bound.
pub proof fn lemma_lowered_parts_kept(
    s1: &Elaborator,
    s2: &Elaborator,
    parts: Seq<Expr>,
    ids: Seq<u32>,
    id1: int,
    id2: int,
)
    requires
        s1.wf(),
        s1.consts_closed(),
        s2.grew_from(s1),
        s1.lowered_parts(parts, ids, id1),
        id1 <= id2,
    ensures
        s2.lowered_parts(parts, ids, id2),
    decreases parts, 4nat,
{
    if parts.len() > 0 {
        lemma_lowered_kept(s1, s2, parts.last(), ids.last() as int);
        lemma_lowered_parts_kept(
            s1,
            s2,
            parts.subrange(0, parts.len() - 1),
            ids.subrange(0, ids.len() - 1),
            id1,
            id2,
        );
    }
}

proof fn lemma_lowered_ctx_kept(s1: &Elaborator, s2: &Elaborator, e: Expr, ctx: u32, id: int)
    requires
        s1.wf(),
        s1.consts_closed(),
        s2.grew_from(s1),
        s1.lowered_ctx(e, ctx, id),
    ensures
        s2.lowered_ctx(e, ctx, id),
    decreases e, 1nat,
{
    lemma_node_kept(s1, s2, id);
    match e {
        Expr::Paren(inner) => {
            lemma_lowered_ctx_kept(s1, s2, *inner, ctx, id);
            assert(s2.lowered_ctx(e, ctx, id));
        },
        Expr::MinTypMax { typ, .. } => {
            lemma_lowered_ctx_kept(s1, s2, *typ, ctx, id);
            assert(s2.lowered_ctx(e, ctx, id));
        },
        Expr::IntLit(l) => {
            if l.fill {
                match lit_const(l, max_u32(ctx, 1)) {
                    Some(cv) => lemma_const_at_kept(s1, s2, id, cv),
                    None => lemma_placeholder_kept(s1, s2, id),
                }
            } else {
                lemma_lowered_ungated_kept(s1, s2, e, id);
            }
        },
        Expr::Unary { op, operand } => {
            if let ir::Expr::Unary { operand: x, .. } = s1.exprs@[id] {
                lemma_lowered_or_plain_kept(
                    s1,
                    s2,
                    *operand,
                    if is_self_det_unop(op) {
                        0
                    } else {
                        ctx
                    },
                    x as int,
                );
            }
        },
        Expr::Binary { op, lhs, rhs } => {
            if is_wild(op) || (is_str_compare_op(op) && (is_str_ast(s1.tables.ident_routes@, *lhs) || is_str_ast(s1.tables.ident_routes@, *rhs))) {
                lemma_lowered_ungated_kept(s1, s2, e, id);
            } else {
                lemma_bin_kept(s1, s2, id, map_binop_spec(op));
                let (l, r) = s1.bin_operands(id).unwrap();
                if op == BinOp::LogAnd || op == BinOp::LogOr {
                    lemma_lowered_or_plain_kept(s1, s2, *lhs, 0, l as int);
                    lemma_lowered_or_plain_kept(s1, s2, *rhs, 0, r as int);
                } else if is_shift_like(op) {
                    lemma_lowered_or_plain_kept(s1, s2, *lhs, ctx, l as int);
                    lemma_lowered_kept(s1, s2, *rhs, r as int);
                } else {
                    let base: u32 = if is_compare_op(op) {
                        0
                    } else {
                        ctx
                    };
                    if contains_fill(*lhs) && !contains_fill(*rhs) {
                        lemma_lowered_kept(s1, s2, *rhs, r as int);
                        lemma_sibling_kept(s1, s2, base, r as int);
                        lemma_lowered_ctx_kept(s1, s2, *lhs, s1.sibling_ctx_spec(base, r as int), l as int);
                    } else if contains_fill(*rhs) && !contains_fill(*lhs) {
                        lemma_lowered_kept(s1, s2, *lhs, l as int);
                        lemma_sibling_kept(s1, s2, base, l as int);
                        lemma_lowered_ctx_kept(s1, s2, *rhs, s1.sibling_ctx_spec(base, l as int), r as int);
                    } else {
                        lemma_lowered_ctx_kept(s1, s2, *lhs, max_u32(base, 1), l as int);
                        lemma_lowered_ctx_kept(s1, s2, *rhs, max_u32(base, 1), r as int);
                    }
                }
            }
        },
        Expr::Ternary { cond, then_e, else_e } => {
            if let ir::Expr::Ternary { cond: c, then_e: t, else_e: f } = s1.exprs@[id] {
                lemma_lowered_kept(s1, s2, *cond, c as int);
                if contains_fill(*then_e) && !contains_fill(*else_e) {
                    lemma_lowered_kept(s1, s2, *else_e, f as int);
                    lemma_sibling_kept(s1, s2, ctx, f as int);
                    lemma_lowered_ctx_kept(s1, s2, *then_e, s1.sibling_ctx_spec(ctx, f as int), t as int);
                } else if contains_fill(*else_e) && !contains_fill(*then_e) {
                    lemma_lowered_kept(s1, s2, *then_e, t as int);
                    lemma_sibling_kept(s1, s2, ctx, t as int);
                    lemma_lowered_ctx_kept(s1, s2, *else_e, s1.sibling_ctx_spec(ctx, t as int), f as int);
                } else {
                    lemma_lowered_ctx_kept(s1, s2, *then_e, max_u32(ctx, 1), t as int);
                    lemma_lowered_ctx_kept(s1, s2, *else_e, max_u32(ctx, 1), f as int);
                }
            }
        },
        _ => lemma_lowered_ungated_kept(s1, s2, e, id),
    }
}

// ── the lowering ─────────────────────────────────────────────────────────

impl Elaborator {
    /// `self` is a later state of a lowering that started at `old`: the
    /// arena invariants hold, the arena grew, and the diagnostics gained only
    /// errors of unsupported constructs (`had_error` set exactly when one
    /// was added, or was already set).
    pub open spec fn lowering_step(&self, old: &Elaborator) -> bool {
        &&& self.wf()
        &&& self.consts_closed()
        &&& self.grew_from(old)
        &&& self.canon == old.canon
        &&& self.repeatable == old.repeatable
        &&& self.bodies == old.bodies
        &&& self.size_cast_real_reported == old.size_cast_real_reported
        &&& old.diags@.len() <= self.diags@.len()
        &&& self.diags@.take(old.diags@.len() as int) == old.diags@
        &&& forall|i: int|
            old.diags@.len() <= i < self.diags@.len() ==> (#[trigger] self.diags@[i]).severity
                == Severity::Error && self.diags@[i].code == MsgCode::ElabUnsupported
        &&& self.had_error == (old.had_error || self.diags@.len() > old.diags@.len())
    }
}

pub proof fn lemma_step_refl(s: &Elaborator)
    requires
        s.wf(),
        s.consts_closed(),
    ensures
        s.lowering_step(s),
{
    assert(s.exprs@.take(s.exprs@.len() as int) =~= s.exprs@);
    assert(s.consts@.take(s.consts@.len() as int) =~= s.consts@);
    assert(s.diags@.take(s.diags@.len() as int) =~= s.diags@);
}

pub proof fn lemma_step_trans(s1: &Elaborator, s2: &Elaborator, s3: &Elaborator)
    requires
        s2.lowering_step(s1),
        s3.lowering_step(s2),
    ensures
        s3.lowering_step(s1),
{
    assert(s3.exprs@.take(s1.exprs@.len() as int) =~= s1.exprs@) by {
        assert forall|k: int| 0 <= k < s1.exprs@.len() implies s3.exprs@[k] == s1.exprs@[k] by {
            lemma_node_kept(s1, s2, k);
            lemma_node_kept(s2, s3, k);
        }
    }
    assert(s3.consts@.take(s1.consts@.len() as int) =~= s1.consts@) by {
        assert forall|k: int| 0 <= k < s1.consts@.len() implies s3.consts@[k] == s1.consts@[k] by {
            lemma_const_kept(s1, s2, k);
            lemma_const_kept(s2, s3, k);
        }
    }
    assert(s3.diags@.take(s1.diags@.len() as int) =~= s1.diags@) by {
        assert forall|k: int| 0 <= k < s1.diags@.len() implies s3.diags@[k] == s1.diags@[k] by {
            assert(s3.diags@.take(s2.diags@.len() as int)[k] == s3.diags@[k]);
            assert(s2.diags@.take(s1.diags@.len() as int)[k] == s2.diags@[k]);
        }
    }
    assert forall|i: int| s1.diags@.len() <= i < s3.diags@.len() implies (#[trigger] s3.diags@[i]).severity
        == Severity::Error && s3.diags@[i].code == MsgCode::ElabUnsupported by {
        if i < s2.diags@.len() {
            assert(s3.diags@.take(s2.diags@.len() as int)[i] == s3.diags@[i]);
        }
    }
}

pub fn ones_exec(w: u32) -> (r: u64)
    ensures
        r == ones(w),
{
    if w >= 64 {
        0xffff_ffff_ffff_ffffu64
    } else {
        assert(1u64 << w >= 1) by (bit_vector)
            requires
                w < 64,
        ;
        (1u64 << w) - 1
    }
}

/// The constant a literal lowers to at `w` bits (see [`lit_const`]).
pub fn lit_const_exec(l: &IntLit, w: u32) -> (r: Option<ConstVal>)
    ensures
        r == lit_const(*l, w),
{
    if l.fill {
        match l.value {
            Some(d) => {
                if d == 0 {
                    Some(ConstVal { width: w, signed: false, repr: ConstRepr::Numeric, bits: 0 })
                } else if d == 1 {
                    Some(
                        ConstVal {
                            width: w,
                            signed: false,
                            repr: ConstRepr::Numeric,
                            bits: ones_exec(w),
                        },
                    )
                } else {
                    None
                }
            },
            None => None,
        }
    } else {
        match (l.parsed, l.value) {
            (Some(s), Some(v)) => Some(
                ConstVal { width: s.width, signed: s.signed, repr: ConstRepr::Numeric, bits: v as u64 },
            ),
            _ => None,
        }
    }
}

/// Does `e` hold a fill literal a context reaches (see [`contains_fill`])?
pub fn expr_contains_fill(e: &Expr) -> (r: bool)
    ensures
        r == contains_fill(*e),
    decreases *e, 1nat,
{
    match e {
        Expr::IntLit(l) => l.fill,
        Expr::Paren(inner) => expr_contains_fill(inner),
        Expr::Unary { operand, .. } => expr_contains_fill(operand),
        Expr::Binary { lhs, rhs, .. } => expr_contains_fill(lhs) || expr_contains_fill(rhs),
        Expr::Ternary { cond, then_e, else_e } => expr_contains_fill(cond) || expr_contains_fill(
            then_e,
        ) || expr_contains_fill(else_e),
        Expr::MinTypMax { typ, .. } => expr_contains_fill(typ),
        Expr::Concat(parts) => {
            proof {
                assert forall|i: int| 0 <= i < parts@.len() implies decreases_to!(*e => #[trigger] parts@[i]) by {
                    assert(decreases_to!(*e => parts@[i]));
                }
            }
            any_fill_exec(parts, Ghost(*e))
        },
        Expr::Replicate { value, .. } => {
            proof {
                assert forall|i: int| 0 <= i < value@.len() implies decreases_to!(*e => #[trigger] value@[i]) by {
                    assert(decreases_to!(*e => value@[i]));
                }
            }
            any_fill_exec(value, Ghost(*e))
        },
        _ => false,
    }
}

fn any_fill_exec(es: &Vec<Expr>, Ghost(whole): Ghost<Expr>) -> (r: bool)
    requires
        forall|i: int| 0 <= i < es@.len() ==> decreases_to!(whole => #[trigger] es@[i]),
    ensures
        r == any_fill(es@),
    decreases whole, 0nat,
{
    let mut i: usize = 0;
    let mut found = false;
    assert(es@.take(0) =~= Seq::<Expr>::empty());
    while i < es.len()
        invariant
            i <= es.len(),
            forall|j: int| 0 <= j < es@.len() ==> decreases_to!(whole => #[trigger] es@[j]),
            found == any_fill(es@.take(i as int)),
        decreases es.len() - i,
    {
        assert(es@.take(i as int + 1).drop_last() =~= es@.take(i as int));
        assert(es@.take(i as int + 1).last() == es@[i as int]);
        let f = expr_contains_fill(&es[i]);
        found = found || f;
        i += 1;
    }
    assert(es@.take(i as int) =~= es@);
    found
}

fn is_ctx_node_exec(e: &Expr) -> (r: bool)
    ensures
        r == is_ctx_node(*e),
{
    match e {
        Expr::Paren(_) | Expr::Unary { .. } | Expr::Binary { .. } | Expr::Ternary { .. }
        | Expr::Concat(_) | Expr::Replicate { .. } | Expr::MinTypMax { .. } => true,
        _ => false,
    }
}

fn is_str_ast_exec(routes: &Vec<(String, IdentRoute)>, e: &Expr) -> (r: bool)
    ensures
        r == is_str_ast(routes@, *e),
    decreases *e,
{
    match e {
        Expr::StrLit => true,
        Expr::Paren(inner) => is_str_ast_exec(routes, inner),
        Expr::Ident(p) => {
            if p.segments.len() == 1 {
                match lookup_first(routes, &p.segments[0]) {
                    Some(IdentRoute::Str) => true,
                    _ => false,
                }
            } else {
                false
            }
        },
        _ => false,
    }
}

fn is_wild_exec(op: BinOp) -> (r: bool)
    ensures
        r == is_wild(op),
{
    op == BinOp::WildEq || op == BinOp::WildNe
}

fn is_str_compare_op_exec(op: BinOp) -> (r: bool)
    ensures
        r == is_str_compare_op(op),
{
    match op {
        BinOp::Eq | BinOp::Ne | BinOp::Lt | BinOp::Le | BinOp::Gt | BinOp::Ge => true,
        _ => false,
    }
}

fn is_compare_op_exec(op: BinOp) -> (r: bool)
    ensures
        r == is_compare_op(op),
{
    match op {
        BinOp::Eq | BinOp::Ne | BinOp::Lt | BinOp::Le | BinOp::Gt | BinOp::Ge | BinOp::CaseEq
        | BinOp::CaseNe => true,
        _ => false,
    }
}

fn is_shift_like_exec(op: BinOp) -> (r: bool)
    ensures
        r == is_shift_like(op),
{
    match op {
        BinOp::Shl | BinOp::Shr | BinOp::AShl | BinOp::AShr | BinOp::Pow => true,
        _ => false,
    }
}

fn is_self_det_unop_exec(op: UnOp) -> (r: bool)
    ensures
        r == is_self_det_unop(op),
{
    match op {
        UnOp::LogNot | UnOp::RedAnd | UnOp::RedNand | UnOp::RedOr | UnOp::RedNor | UnOp::RedXor
        | UnOp::RedXnor => true,
        _ => false,
    }
}

impl Elaborator {
    /// Append a node that is not a constant.
    pub(crate) fn push_node(&mut self, n: ir::Expr) -> (id: u32)
        requires
            old(self).wf(),
            old(self).consts_closed(),
            operands_below(n, old(self).exprs@.len() as int),
            !(n is Const),
            old(self).exprs@.len() < u32::MAX,
        ensures
            final(self).lowering_step(old(self)),
            id as int == old(self).exprs@.len(),
            final(self).exprs@ == old(self).exprs@.push(n),
            final(self).consts == old(self).consts,
            final(self).diags == old(self).diags,
    {
        let id = self.push_expr(n);
        proof {
            lemma_step_refl(old(self));
            assert(self.exprs@.take(old(self).exprs@.len() as int) =~= old(self).exprs@);
            assert(self.consts@.take(old(self).consts@.len() as int) =~= old(self).consts@);
            assert(self.diags@.take(old(self).diags@.len() as int) =~= old(self).diags@);
            assert forall|i: int| 0 <= i < self.exprs@.len() implies (#[trigger] self.exprs@[i] matches ir::Expr::Const { val }
                ==> (val as int) < self.consts@.len()) by {
                if i < old(self).exprs@.len() {
                    assert(self.exprs@[i] == old(self).exprs@[i]);
                }
            }
        }
        id
    }

    /// Append the constant node `cv`.
    pub(crate) fn push_const(&mut self, cv: ConstVal) -> (id: u32)
        requires
            old(self).wf(),
            old(self).consts_closed(),
            old(self).exprs@.len() < u32::MAX,
            old(self).consts@.len() < u32::MAX,
        ensures
            final(self).lowering_step(old(self)),
            id as int == old(self).exprs@.len(),
            final(self).exprs@.len() == old(self).exprs@.len() + 1,
            final(self).consts@.len() <= old(self).consts@.len() + 1,
            final(self).const_at(id as int, cv),
            final(self).diags == old(self).diags,
    {
        let cid = self.intern_const(cv);
        let id = self.push_expr(ir::Expr::Const { val: cid });
        proof {
            assert(self.exprs@.take(old(self).exprs@.len() as int) =~= old(self).exprs@);
            assert(self.consts@.take(old(self).consts@.len() as int) =~= old(self).consts@);
            assert(self.diags@.take(old(self).diags@.len() as int) =~= old(self).diags@);
            assert forall|i: int| 0 <= i < self.exprs@.len() implies (#[trigger] self.exprs@[i] matches ir::Expr::Const { val }
                ==> (val as int) < self.consts@.len()) by {
                if i < old(self).exprs@.len() {
                    assert(self.exprs@[i] == old(self).exprs@[i]);
                }
            }
        }
        id
    }

    /// Refuse a construct: one error, and the placeholder.
    fn refuse(&mut self, msg: &str) -> (id: u32)
        requires
            old(self).wf(),
            old(self).consts_closed(),
            old(self).exprs@.len() < u32::MAX,
            old(self).consts@.len() < u32::MAX,
        ensures
            final(self).lowering_step(old(self)),
            id as int == old(self).exprs@.len(),
            final(self).exprs@.len() == old(self).exprs@.len() + 1,
            final(self).consts@.len() <= old(self).consts@.len() + 1,
            final(self).placeholder_at(id as int),
            final(self).diags@.len() == old(self).diags@.len() + 1,
            final(self).diags@.last().message@ == msg@,
    {
        let ghost s0: Elaborator = *self;
        self.error(MsgCode::ElabUnsupported, msg);
        let ghost s1: Elaborator = *self;
        proof {
            lemma_step_refl(&s0);
            assert(s1.diags@.take(s0.diags@.len() as int) =~= s0.diags@);
            assert(s1.exprs@.take(s0.exprs@.len() as int) =~= s0.exprs@);
            assert(s1.consts@.take(s0.consts@.len() as int) =~= s0.consts@);
            assert(s1.lowering_step(&s0));
        }
        let id = self.push_const(crate::elab::make_const_u32(0, 1));
        proof {
            lemma_step_trans(&s0, &s1, self);
        }
        id
    }
}

impl Elaborator {
    /// Node for `irop` over the lowered operands `l` and `r`: a `**` with a
    /// real operand becomes `$pow(l, r)`; `%` and the bitwise and shift
    /// operators with a real operand report one error and keep their node.
    fn finish_binary(&mut self, irop: ir::BinOp, l: u32, r: u32) -> (id: u32)
        requires
            old(self).wf(),
            old(self).consts_closed(),
            (l as int) < old(self).exprs@.len(),
            (r as int) < old(self).exprs@.len(),
            old(self).exprs@.len() + 1 < u32::MAX,
        ensures
            final(self).lowering_step(old(self)),
            final(self).exprs@.len() == old(self).exprs@.len() + 1,
            final(self).consts == old(self).consts,
            id as int == old(self).exprs@.len(),
            final(self).bin_operands(id as int) == Some((l, r)),
            final(self).bin_node(id as int, irop, l, r),
    {
        let ghost s0: Elaborator = *self;
        let routed = self.binary_real_operand_route(irop, l, r);
        let ghost s1: Elaborator = *self;
        proof {
            lemma_step_refl(&s0);
            assert(s1.exprs@.take(s0.exprs@.len() as int) =~= s0.exprs@);
            assert(s1.consts@.take(s0.consts@.len() as int) =~= s0.consts@);
            assert(s1.diags@.take(s0.diags@.len() as int) =~= s0.diags@);
            assert forall|i: int| 0 <= i < s1.exprs@.len() implies (#[trigger] s1.exprs@[i] matches ir::Expr::Const { val }
                ==> (val as int) < s1.consts@.len()) by {
                if i < s0.exprs@.len() {
                    assert(s1.exprs@[i] == s0.exprs@[i]);
                }
            }
            assert(s1.lowering_step(&s0));
            lemma_reads_kept(&s0, &s1, l as int);
            lemma_reads_kept(&s0, &s1, r as int);
        }
        match routed {
            Some(id) => {
                proof {
                    assert(s1.exprs@[id as int] == s1.exprs@.last());
                }
                id
            },
            None => {
                let id = self.push_node(ir::Expr::Binary { op: irop, lhs: l, rhs: r });
                proof {
                    lemma_step_trans(&s0, &s1, self);
                    lemma_reads_kept(&s1, self, l as int);
                    lemma_reads_kept(&s1, self, r as int);
                }
                id
            },
        }
    }

    /// A literal at `w` bits: its constant, or refused where the arena cannot
    /// hold it.
    fn lower_lit(&mut self, l: &IntLit, w: u32) -> (id: u32)
        requires
            old(self).wf(),
            old(self).consts_closed(),
            old(self).exprs@.len() + 1 < u32::MAX,
            old(self).consts@.len() + 1 < u32::MAX,
        ensures
            final(self).lowering_step(old(self)),
            final(self).exprs@.len() == old(self).exprs@.len() + 1,
            final(self).consts@.len() <= old(self).consts@.len() + 1,
            id as int == old(self).exprs@.len(),
            match lit_const(*l, w) {
                Some(cv) => final(self).const_at(id as int, cv),
                None => final(self).placeholder_at(id as int),
            },
    {
        match lit_const_exec(l, w) {
            Some(cv) => self.push_const(cv),
            None => self.refuse("an integer literal with x/z bits, or beyond 64 bits, is not lowered here"),
        }
    }

    /// A bare name: a known parameter's constant, a scope net's read, else
    /// refused.
    fn lower_ident(&mut self, p: &HierPath) -> (id: u32)
        requires
            old(self).wf(),
            old(self).consts_closed(),
            old(self).exprs@.len() + 1 < u32::MAX,
            old(self).consts@.len() + 1 < u32::MAX,
        ensures
            final(self).lowering_step(old(self)),
            final(self).exprs@.len() == old(self).exprs@.len() + 1,
            final(self).consts@.len() <= old(self).consts@.len() + 1,
            id as int == old(self).exprs@.len(),
            final(self).ident_lowered(*p, id as int),
    {
        if p.segments.len() != 1 {
            return self.refuse("a hierarchical name read is not lowered here");
        }
        match lookup_first(&self.tables.ident_routes, &p.segments[0]) {
            Some(IdentRoute::Param { v, meta, guessed }) => {
                if guessed {
                    self.refuse("a parameter whose value is not known is not lowered here")
                } else {
                    self.push_const(
                        ConstVal {
                            width: Self::param_const_width(v, meta),
                            signed: Self::param_const_signed(meta),
                            repr: ConstRepr::Numeric,
                            bits: v as u64,
                        },
                    )
                }
            },
            Some(_) => self.refuse("a name read of this kind is not lowered here"),
            None => match lookup_first(&self.tables.scope_nets, &p.segments[0]) {
                Some(net) => self.push_node(ir::Expr::Signal { net, word: None }),
                None => self.refuse("an unknown name is not lowered here"),
            },
        }
    }

    /// Lower `e` in a self-determined position: through
    /// [`Self::lower_expr_ctx`] at context 0 when `e` propagates a context
    /// and holds a fill literal, else through [`Self::lower_expr_ungated`].
    pub fn lower_expr(&mut self, e: &Expr) -> (id: u32)
        requires
            old(self).wf(),
            old(self).consts_closed(),
            old(self).exprs@.len() + lower_budget(*e) < u32::MAX,
            old(self).consts@.len() + lower_budget(*e) < u32::MAX,
        ensures
            final(self).lowering_step(old(self)),
            final(self).exprs@.len() <= old(self).exprs@.len() + lower_budget(*e),
            final(self).consts@.len() <= old(self).consts@.len() + lower_budget(*e),
            (id as int) < final(self).exprs@.len(),
            final(self).lowered(*e, id as int),
        decreases *e, 3nat,
    {
        if is_ctx_node_exec(e) && expr_contains_fill(e) {
            self.lower_expr_ctx(e, 0)
        } else {
            self.lower_expr_ungated(e)
        }
    }

    /// `x` under context `c` when it holds a fill literal, else plain.
    pub fn lower_ctx_or_plain(&mut self, x: &Expr, c: u32) -> (id: u32)
        requires
            old(self).wf(),
            old(self).consts_closed(),
            old(self).exprs@.len() + lower_budget(*x) < u32::MAX,
            old(self).consts@.len() + lower_budget(*x) < u32::MAX,
        ensures
            final(self).lowering_step(old(self)),
            final(self).exprs@.len() <= old(self).exprs@.len() + lower_budget(*x),
            final(self).consts@.len() <= old(self).consts@.len() + lower_budget(*x),
            (id as int) < final(self).exprs@.len(),
            final(self).lowered_or_plain(*x, c, id as int),
        decreases *x, 4nat,
    {
        if expr_contains_fill(x) {
            self.lower_expr_ctx(x, c)
        } else {
            self.lower_expr(x)
        }
    }
}

impl Elaborator {
    /// Report an unsupported construct, nothing else changed.
    pub(crate) fn report_unsupported(&mut self, msg: &str)
        requires
            old(self).wf(),
            old(self).consts_closed(),
        ensures
            final(self).lowering_step(old(self)),
            final(self).exprs == old(self).exprs,
            final(self).consts == old(self).consts,
            final(self).diags@.len() == old(self).diags@.len() + 1,
            final(self).diags@.last().message@ == msg@,
    {
        self.error(MsgCode::ElabUnsupported, msg);
        proof {
            assert(self.diags@.take(old(self).diags@.len() as int) =~= old(self).diags@);
            assert(self.exprs@.take(old(self).exprs@.len() as int) =~= old(self).exprs@);
            assert(self.consts@.take(old(self).consts@.len() as int) =~= old(self).consts@);
        }
    }

    /// Lower `e` with no context (see [`Self::lowered_ungated`]): operands
    /// first, post-order, then the node itself; a form this lowering does
    /// not cover is refused with one error and the placeholder.
    pub fn lower_expr_ungated(&mut self, e: &Expr) -> (id: u32)
        requires
            old(self).wf(),
            old(self).consts_closed(),
            old(self).exprs@.len() + lower_budget(*e) < u32::MAX,
            old(self).consts@.len() + lower_budget(*e) < u32::MAX,
        ensures
            final(self).lowering_step(old(self)),
            final(self).exprs@.len() <= old(self).exprs@.len() + lower_budget(*e),
            final(self).consts@.len() <= old(self).consts@.len() + lower_budget(*e),
            (id as int) < final(self).exprs@.len(),
            final(self).lowered_ungated(*e, id as int),
        decreases *e, 1nat,
    {
        let ghost s0: Elaborator = *self;
        match e {
            Expr::IntLit(l) => self.lower_lit(l, 1),
            Expr::Paren(inner) => self.lower_expr(inner),
            Expr::Ident(p) => self.lower_ident(p),
            Expr::MinTypMax { typ, .. } => self.lower_expr(typ),
            Expr::Unary { op, operand } => {
                let x = self.lower_expr(operand);
                let ghost s1: Elaborator = *self;
                if self.expr_is_real(x) && (*op == UnOp::BitNot || (is_self_det_unop_exec(*op) && *op
                    != UnOp::LogNot)) {
                    self.report_unsupported("bitwise/shift/reduction not defined on real operand");
                }
                let ghost s2: Elaborator = *self;
                proof {
                    if s2.diags@.len() == s1.diags@.len() {
                        lemma_step_refl(&s1);
                        assert(s2 == s1);
                    }
                }
                let id = self.push_node(ir::Expr::Unary { op: map_unop(*op), operand: x });
                proof {
                    lemma_step_trans(&s0, &s1, &s2);
                    lemma_step_trans(&s0, &s2, self);
                    lemma_step_trans(&s1, &s2, self);
                    lemma_lowered_kept(&s1, self, **operand, x as int);
                }
                id
            },
            Expr::Binary { op, lhs, rhs } => {
                if is_wild_exec(*op) {
                    return self.refuse("a wildcard equality is not lowered here");
                }
                let irop = map_binop(*op);
                if is_str_compare_op_exec(*op) && (is_str_ast_exec(&self.tables.ident_routes, lhs)
                    || is_str_ast_exec(&self.tables.ident_routes, rhs)) {
                    let l = self.lower_expr(lhs);
                    let ghost s1: Elaborator = *self;
                    let r = self.lower_expr(rhs);
                    let ghost s2: Elaborator = *self;
                    let args: Vec<u32> = vec![l, r];
                    assert(args@ =~= seq![l, r]);
                    let sc = self.push_node(ir::Expr::SysFunc { which: SysFuncId::StrCmp, args });
                    let ghost s3: Elaborator = *self;
                    let zero = self.push_const(
                        ConstVal { width: 32, signed: true, repr: ConstRepr::Numeric, bits: 0 },
                    );
                    let ghost s4: Elaborator = *self;
                    let id = self.push_node(ir::Expr::Binary { op: irop, lhs: sc, rhs: zero });
                    proof {
                        lemma_step_trans(&s0, &s1, &s2);
                        lemma_step_trans(&s0, &s2, &s3);
                        lemma_step_trans(&s0, &s3, &s4);
                        lemma_step_trans(&s0, &s4, self);
                        lemma_step_trans(&s1, &s2, &s3);
                        lemma_step_trans(&s1, &s3, &s4);
                        lemma_step_trans(&s1, &s4, self);
                        lemma_step_trans(&s2, &s3, &s4);
                        lemma_step_trans(&s2, &s4, self);
                        lemma_lowered_kept(&s1, self, **lhs, l as int);
                        lemma_lowered_kept(&s2, self, **rhs, r as int);
                        lemma_const_at_kept(&s4, self, zero as int, str_compare_zero());
                        lemma_step_trans(&s3, &s4, self);
                        lemma_node_kept(&s3, self, sc as int);
                        lemma_node_kept(&s3, &s4, sc as int);
                        assert(self.exprs@[sc as int] == s3.exprs@[sc as int]);
                        assert(self.str_compare_operands(id as int, irop) == Some((l, r)));
                    }
                    return id;
                }
                let l = self.lower_expr(lhs);
                let ghost s1: Elaborator = *self;
                let r = self.lower_expr(rhs);
                let ghost s2: Elaborator = *self;
                let id = self.finish_binary(irop, l, r);
                proof {
                    lemma_step_trans(&s0, &s1, &s2);
                    lemma_step_trans(&s0, &s2, self);
                    lemma_step_trans(&s1, &s2, self);
                    lemma_lowered_kept(&s1, self, **lhs, l as int);
                    lemma_lowered_kept(&s2, self, **rhs, r as int);
                }
                id
            },
            Expr::Ternary { cond, then_e, else_e } => {
                let c = self.lower_expr(cond);
                let ghost s1: Elaborator = *self;
                let t = self.lower_expr(then_e);
                let ghost s2: Elaborator = *self;
                let f = self.lower_expr(else_e);
                let ghost s3: Elaborator = *self;
                let id = self.push_node(ir::Expr::Ternary { cond: c, then_e: t, else_e: f });
                proof {
                    lemma_step_trans(&s0, &s1, &s2);
                    lemma_step_trans(&s0, &s2, &s3);
                    lemma_step_trans(&s0, &s3, self);
                    lemma_step_trans(&s1, &s2, &s3);
                    lemma_step_trans(&s1, &s3, self);
                    lemma_step_trans(&s2, &s3, self);
                    lemma_lowered_kept(&s1, self, **cond, c as int);
                    lemma_lowered_kept(&s2, self, **then_e, t as int);
                    lemma_lowered_kept(&s3, self, **else_e, f as int);
                }
                id
            },
            Expr::Concat(parts) => {
                if any_str_exec(&self.tables.ident_routes, parts) {
                    return self.refuse("a concatenation of strings is not lowered here");
                }
                proof {
                    assert forall|i: int| 0 <= i < parts@.len() implies decreases_to!(*e => #[trigger] parts@[i]) by {
                        assert(decreases_to!(*e => parts@[i]));
                    }
                }
                let ids = self.lower_parts(parts, Ghost(*e));
                let ghost s1: Elaborator = *self;
                let mut any_real = false;
                let mut k: usize = 0;
                while k < ids.len()
                    invariant
                        k <= ids@.len(),
                        self.wf(),
                    decreases ids@.len() - k,
                {
                    if self.expr_is_real(ids[k]) {
                        any_real = true;
                    }
                    k += 1;
                }
                if any_real {
                    self.report_unsupported("real may not appear in concatenation (use $realtobits)");
                }
                let ghost s2: Elaborator = *self;
                proof {
                    if !any_real {
                        lemma_step_refl(&s1);
                    }
                    assert(s2.lowering_step(&s1));
                    lemma_step_trans(&s0, &s1, &s2);
                    lemma_lowered_parts_kept(&s1, &s2, parts@, ids@, s1.exprs@.len() as int, s2.exprs@.len() as int);
                    assert forall|j: int| 0 <= j < ids@.len() implies #[trigger] ids@[j] < s2.exprs@.len() by {
                        lemma_parts_below(&s2, parts@, ids@, s2.exprs@.len() as int, j);
                    }
                }
                let id = self.push_node(ir::Expr::Concat { parts: ids });
                proof {
                    lemma_step_trans(&s0, &s2, self);
                    lemma_lowered_parts_kept(&s2, self, parts@, self.exprs@[id as int]->Concat_parts@, s2.exprs@.len() as int, id as int);
                }
                id
            },
            _ => self.refuse("this expression form is not lowered here"),
        }
    }

    /// Lower each of `parts`, in order.
    fn lower_parts(&mut self, parts: &Vec<Expr>, Ghost(whole): Ghost<Expr>) -> (ids: Vec<u32>)
        requires
            old(self).wf(),
            old(self).consts_closed(),
            forall|i: int| 0 <= i < parts@.len() ==> decreases_to!(whole => #[trigger] parts@[i]),
            old(self).exprs@.len() + parts_budget(parts@) < u32::MAX,
            old(self).consts@.len() + parts_budget(parts@) < u32::MAX,
        ensures
            final(self).lowering_step(old(self)),
            final(self).exprs@.len() <= old(self).exprs@.len() + parts_budget(parts@),
            final(self).consts@.len() <= old(self).consts@.len() + parts_budget(parts@),
            final(self).lowered_parts(parts@, ids@, final(self).exprs@.len() as int),
        decreases whole, 0nat,
    {
        let ghost s0: Elaborator = *self;
        proof {
            lemma_step_refl(&s0);
            lemma_parts_budget_prefix(parts@, 0);
            assert(parts@.take(0) =~= Seq::<Expr>::empty());
        }
        let mut ids: Vec<u32> = Vec::new();
        let mut i: usize = 0;
        while i < parts.len()
            invariant
                i <= parts@.len(),
                s0.wf(),
                s0.consts_closed(),
                forall|j: int| 0 <= j < parts@.len() ==> decreases_to!(whole => #[trigger] parts@[j]),
                s0.exprs@.len() + parts_budget(parts@) < u32::MAX,
                s0.consts@.len() + parts_budget(parts@) < u32::MAX,
                self.lowering_step(&s0),
                self.exprs@.len() <= s0.exprs@.len() + parts_budget(parts@.take(i as int)),
                self.consts@.len() <= s0.consts@.len() + parts_budget(parts@.take(i as int)),
                self.lowered_parts(parts@.take(i as int), ids@, self.exprs@.len() as int),
            decreases parts@.len() - i,
        {
            let ghost sa: Elaborator = *self;
            proof {
                lemma_parts_budget_prefix(parts@, i as int + 1);
                assert(parts@.take(i as int + 1).subrange(0, i as int) =~= parts@.take(i as int));
                assert(parts@.take(i as int + 1).last() == parts@[i as int]);
            }
            let x = self.lower_expr(&parts[i]);
            proof {
                lemma_step_trans(&s0, &sa, self);
                lemma_lowered_parts_kept(&sa, self, parts@.take(i as int), ids@, sa.exprs@.len() as int, self.exprs@.len() as int);
            }
            let ghost before = ids@;
            ids.push(x);
            i += 1;
            proof {
                assert(ids@.subrange(0, ids@.len() - 1) =~= before);
                assert(parts@.take(i as int).subrange(0, i as int - 1) =~= parts@.take(i as int - 1));
                assert(parts@.take(i as int).last() == parts@[i as int - 1]);
            }
        }
        proof {
            assert(parts@.take(i as int) =~= parts@);
        }
        ids
    }
}

fn any_str_exec(routes: &Vec<(String, IdentRoute)>, es: &Vec<Expr>) -> (r: bool)
    ensures
        r == any_str(routes@, es@),
{
    let mut i: usize = 0;
    while i < es.len()
        invariant
            i <= es@.len(),
            forall|k: int| 0 <= k < i ==> !is_str_ast(routes@, #[trigger] es@[k]),
        decreases es@.len() - i,
    {
        if is_str_ast_exec(routes, &es[i]) {
            return true;
        }
        i += 1;
    }
    false
}

proof fn lemma_parts_budget_prefix(parts: Seq<Expr>, i: int)
    requires
        0 <= i <= parts.len(),
    ensures
        parts_budget(parts.take(i)) <= parts_budget(parts),
    decreases parts.len() - i,
{
    if i < parts.len() {
        lemma_parts_budget_prefix(parts, i + 1);
        assert(parts.take(i + 1).subrange(0, i) =~= parts.take(i));
    } else {
        assert(parts.take(i) =~= parts);
    }
}

/// Every id of lowered parts is below the bound.
proof fn lemma_parts_below(s: &Elaborator, parts: Seq<Expr>, ids: Seq<u32>, id: int, j: int)
    requires
        s.lowered_parts(parts, ids, id),
        0 <= j < ids.len(),
    ensures
        ids[j] < id,
    decreases parts.len(),
{
    if j < ids.len() - 1 {
        lemma_parts_below(s, parts.subrange(0, parts.len() - 1), ids.subrange(0, ids.len() - 1), id, j);
    }
}

impl Elaborator {
    /// Lower `e` under the context width `ctx` (see [`Self::lowered_ctx`]):
    /// an unsized fill grows to the context, and the context reaches only
    /// the operands whose width it decides.
    #[verifier::spinoff_prover]
    #[verifier::rlimit(60)]
    pub fn lower_expr_ctx(&mut self, e: &Expr, ctx: u32) -> (id: u32)
        requires
            old(self).wf(),
            old(self).consts_closed(),
            old(self).exprs@.len() + lower_budget(*e) < u32::MAX,
            old(self).consts@.len() + lower_budget(*e) < u32::MAX,
        ensures
            final(self).lowering_step(old(self)),
            final(self).exprs@.len() <= old(self).exprs@.len() + lower_budget(*e),
            final(self).consts@.len() <= old(self).consts@.len() + lower_budget(*e),
            (id as int) < final(self).exprs@.len(),
            final(self).lowered_ctx(*e, ctx, id as int),
        decreases *e, 2nat,
    {
        let ghost s0: Elaborator = *self;
        match e {
            Expr::Paren(inner) => self.lower_expr_ctx(inner, ctx),
            Expr::MinTypMax { typ, .. } => self.lower_expr_ctx(typ, ctx),
            Expr::IntLit(l) => {
                if l.fill {
                    self.lower_lit(
                        l,
                        if ctx >= 1 {
                            ctx
                        } else {
                            1
                        },
                    )
                } else {
                    self.lower_expr_ungated(e)
                }
            },
            Expr::Unary { op, operand } => {
                let c = if is_self_det_unop_exec(*op) {
                    0
                } else {
                    ctx
                };
                let x = self.lower_ctx_or_plain(operand, c);
                let ghost s1: Elaborator = *self;
                let id = self.push_node(ir::Expr::Unary { op: map_unop(*op), operand: x });
                proof {
                    lemma_step_trans(&s0, &s1, self);
                    lemma_lowered_or_plain_kept(&s1, self, **operand, c, x as int);
                }
                id
            },
            Expr::Binary { op, lhs, rhs } => {
                if is_wild_exec(*op) || (is_str_compare_op_exec(*op) && (is_str_ast_exec(
                    &self.tables.ident_routes,
                    lhs,
                ) || is_str_ast_exec(&self.tables.ident_routes, rhs))) {
                    return self.lower_expr_ungated(e);
                }
                let irop = map_binop(*op);
                if *op == BinOp::LogAnd || *op == BinOp::LogOr {
                    let l = self.lower_ctx_or_plain(lhs, 0);
                    let ghost s1: Elaborator = *self;
                    let r = self.lower_ctx_or_plain(rhs, 0);
                    let ghost s2: Elaborator = *self;
                    let id = self.finish_binary(irop, l, r);
                    proof {
                        lemma_step_trans(&s0, &s1, &s2);
                        lemma_step_trans(&s0, &s2, self);
                        lemma_step_trans(&s1, &s2, self);
                        lemma_lowered_or_plain_kept(&s1, self, **lhs, 0, l as int);
                        lemma_lowered_or_plain_kept(&s2, self, **rhs, 0, r as int);
                    }
                    return id;
                }
                if is_shift_like_exec(*op) {
                    let l = self.lower_ctx_or_plain(lhs, ctx);
                    let ghost s1: Elaborator = *self;
                    let r = self.lower_expr(rhs);
                    let ghost s2: Elaborator = *self;
                    let id = self.finish_binary(irop, l, r);
                    proof {
                        lemma_step_trans(&s0, &s1, &s2);
                        lemma_step_trans(&s0, &s2, self);
                        lemma_step_trans(&s1, &s2, self);
                        lemma_lowered_or_plain_kept(&s1, self, **lhs, ctx, l as int);
                        lemma_lowered_kept(&s2, self, **rhs, r as int);
                    }
                    return id;
                }
                let base: u32 = if is_compare_op_exec(*op) {
                    0
                } else {
                    ctx
                };
                let lf = expr_contains_fill(lhs);
                let rf = expr_contains_fill(rhs);
                if lf && !rf {
                    let r = self.lower_expr(rhs);
                    let ghost s1: Elaborator = *self;
                    let w = self.sibling_ctx(base, r);
                    let l = self.lower_expr_ctx(lhs, w);
                    let ghost s2: Elaborator = *self;
                    let id = self.finish_binary(irop, l, r);
                    proof {
                        lemma_step_trans(&s0, &s1, &s2);
                        lemma_step_trans(&s0, &s2, self);
                        lemma_step_trans(&s1, &s2, self);
                        lemma_lowered_kept(&s1, self, **rhs, r as int);
                        lemma_sibling_kept(&s1, self, base, r as int);
                        lemma_lowered_ctx_kept(&s2, self, **lhs, w, l as int);
                    }
                    id
                } else if rf && !lf {
                    let l = self.lower_expr(lhs);
                    let ghost s1: Elaborator = *self;
                    let w = self.sibling_ctx(base, l);
                    let r = self.lower_expr_ctx(rhs, w);
                    let ghost s2: Elaborator = *self;
                    let id = self.finish_binary(irop, l, r);
                    proof {
                        lemma_step_trans(&s0, &s1, &s2);
                        lemma_step_trans(&s0, &s2, self);
                        lemma_step_trans(&s1, &s2, self);
                        lemma_lowered_kept(&s1, self, **lhs, l as int);
                        lemma_sibling_kept(&s1, self, base, l as int);
                        lemma_lowered_ctx_kept(&s2, self, **rhs, w, r as int);
                    }
                    id
                } else {
                    let w: u32 = if base >= 1 {
                        base
                    } else {
                        1
                    };
                    let l = self.lower_expr_ctx(lhs, w);
                    let ghost s1: Elaborator = *self;
                    let r = self.lower_expr_ctx(rhs, w);
                    let ghost s2: Elaborator = *self;
                    let id = self.finish_binary(irop, l, r);
                    proof {
                        lemma_step_trans(&s0, &s1, &s2);
                        lemma_step_trans(&s0, &s2, self);
                        lemma_step_trans(&s1, &s2, self);
                        lemma_lowered_ctx_kept(&s1, self, **lhs, w, l as int);
                        lemma_lowered_ctx_kept(&s2, self, **rhs, w, r as int);
                    }
                    id
                }
            },
            Expr::Ternary { cond, then_e, else_e } => {
                let c = self.lower_expr(cond);
                let ghost s1: Elaborator = *self;
                let tf = expr_contains_fill(then_e);
                let ff = expr_contains_fill(else_e);
                let t: u32;
                let f: u32;
                let ghost st: Elaborator;
                let ghost sf: Elaborator;
                let ghost wt: u32;
                let ghost wf: u32;
                if tf && !ff {
                    f = self.lower_expr(else_e);
                    proof { sf = *self; }
                    let w = self.sibling_ctx(ctx, f);
                    proof { wt = w; wf = 0; }
                    t = self.lower_expr_ctx(then_e, w);
                    proof { st = *self; }
                } else if ff && !tf {
                    t = self.lower_expr(then_e);
                    proof { st = *self; }
                    let w = self.sibling_ctx(ctx, t);
                    proof { wf = w; wt = 0; }
                    f = self.lower_expr_ctx(else_e, w);
                    proof { sf = *self; }
                } else {
                    let w: u32 = if ctx >= 1 {
                        ctx
                    } else {
                        1
                    };
                    proof { wt = w; wf = w; }
                    t = self.lower_expr_ctx(then_e, w);
                    proof { st = *self; }
                    f = self.lower_expr_ctx(else_e, w);
                    proof { sf = *self; }
                }
                let ghost s2: Elaborator = *self;
                proof {
                    if tf && !ff {
                        lemma_step_trans(&s1, &sf, &st);
                    } else {
                        lemma_step_trans(&s1, &st, &sf);
                    }
                }
                let id = self.push_node(ir::Expr::Ternary { cond: c, then_e: t, else_e: f });
                proof {
                    lemma_step_trans(&s1, &s2, self);
                    lemma_step_trans(&s0, &s1, self);
                    lemma_lowered_kept(&s1, self, **cond, c as int);
                    if tf && !ff {
                        lemma_step_trans(&sf, &st, self);
                        lemma_lowered_kept(&sf, self, **else_e, f as int);
                        lemma_sibling_kept(&sf, self, ctx, f as int);
                        lemma_lowered_ctx_kept(&st, self, **then_e, wt, t as int);
                    } else if ff && !tf {
                        lemma_step_trans(&st, &sf, self);
                        lemma_lowered_kept(&st, self, **then_e, t as int);
                        lemma_sibling_kept(&st, self, ctx, t as int);
                        lemma_lowered_ctx_kept(&sf, self, **else_e, wf, f as int);
                    } else {
                        lemma_step_trans(&st, &sf, self);
                        lemma_lowered_ctx_kept(&st, self, **then_e, wt, t as int);
                        lemma_lowered_ctx_kept(&sf, self, **else_e, wf, f as int);
                    }
                }
                id
            },
            _ => self.lower_expr_ungated(e),
        }
    }
}

/// Under a context of `ctx` bits, a `'0` or `'1` fill literal lowers to a
/// constant `max(ctx, 1)` bits wide.
pub proof fn lemma_fill_takes_context(s: &Elaborator, l: IntLit, ctx: u32, id: int)
    requires
        s.lowered_ctx(Expr::IntLit(l), ctx, id),
        l.fill,
        l.value == Some(0i64) || l.value == Some(1i64),
    ensures
        s.bits_of(id) == Some(max_u32(ctx, 1)),
{
}

/// The context rule for an arithmetic or bitwise operator: a `'0`/`'1` fill
/// operand beside an operand that holds no fill, is not real and is `w` bits
/// wide lowers to a constant `max(ctx, w, 1)` bits wide.
pub proof fn lemma_fill_operand_width(s: &Elaborator, op: BinOp, l: IntLit, rhs: Expr, ctx: u32, id: int)
    requires
        s.lowered_ctx(Expr::Binary { op, lhs: Box::new(Expr::IntLit(l)), rhs: Box::new(rhs) }, ctx, id),
        l.fill,
        l.value == Some(0i64) || l.value == Some(1i64),
        !contains_fill(rhs),
        !is_wild(op),
        !is_compare_op(op),
        !is_shift_like(op),
        op != BinOp::LogAnd,
        op != BinOp::LogOr,
    ensures
        s.bin_operands(id) matches Some((a, b)) && (!s.is_real(b as int) ==> (s.bits_of(b as int) matches Some(
            w,
        ) ==> s.bits_of(a as int) == Some(max_u32(max_u32(ctx, w), 1)))),
{
    assert(!is_str_compare_op(op));
    assert(contains_fill(Expr::IntLit(l)));
    let (a, b) = s.bin_operands(id).unwrap();
    assert(s.lowered_ctx(Expr::IntLit(l), s.sibling_ctx_spec(ctx, b as int), a as int));
}

} // verus!
