//! Expression context width: operator mapping, the
//! self-determined width of a source expression, and the question whether a
//! context-determined region holds a widening operator evaluated too narrowly.

use vstd::prelude::*;
use crate::ast;
use crate::ast::{BinOp, Expr, IntLitKind, Lvalue, Stmt, UnOp};
use crate::ir;
use crate::names::{assoc_first, has_name, lookup_first, contains_name};
use crate::dup::{copy_expr, copy_path, same_expr, same_path};

verus! {

// ── operator mapping ─────────────────────────────────────────────────────

/// The lowered unary operator of a source unary operator.
pub open spec fn map_unop_spec(op: UnOp) -> ir::UnOp {
    match op {
        UnOp::Plus => ir::UnOp::Plus,
        UnOp::Minus => ir::UnOp::Minus,
        UnOp::LogNot => ir::UnOp::LogNot,
        UnOp::BitNot => ir::UnOp::BitNot,
        UnOp::RedAnd => ir::UnOp::RedAnd,
        UnOp::RedNand => ir::UnOp::RedNand,
        UnOp::RedOr => ir::UnOp::RedOr,
        UnOp::RedNor => ir::UnOp::RedNor,
        UnOp::RedXor => ir::UnOp::RedXor,
        UnOp::RedXnor => ir::UnOp::RedXnor,
    }
}

pub fn map_unop(op: UnOp) -> (r: ir::UnOp)
    ensures
        r == map_unop_spec(op),
{
    match op {
        UnOp::Plus => ir::UnOp::Plus,
        UnOp::Minus => ir::UnOp::Minus,
        UnOp::LogNot => ir::UnOp::LogNot,
        UnOp::BitNot => ir::UnOp::BitNot,
        UnOp::RedAnd => ir::UnOp::RedAnd,
        UnOp::RedNand => ir::UnOp::RedNand,
        UnOp::RedOr => ir::UnOp::RedOr,
        UnOp::RedNor => ir::UnOp::RedNor,
        UnOp::RedXor => ir::UnOp::RedXor,
        UnOp::RedXnor => ir::UnOp::RedXnor,
    }
}

/// The lowered binary operator of a source binary operator. The wildcard
/// equalities are lowered elsewhere before any mapping; here they fall back to
/// the plain (in)equality they reduce to when the pattern has no x/z bit.
pub open spec fn map_binop_spec(op: BinOp) -> ir::BinOp {
    match op {
        BinOp::Add => ir::BinOp::Add,
        BinOp::Sub => ir::BinOp::Sub,
        BinOp::Mul => ir::BinOp::Mul,
        BinOp::Div => ir::BinOp::Div,
        BinOp::Mod => ir::BinOp::Mod,
        BinOp::Pow => ir::BinOp::Pow,
        BinOp::Shl => ir::BinOp::Shl,
        BinOp::Shr => ir::BinOp::Shr,
        BinOp::AShl => ir::BinOp::AShl,
        BinOp::AShr => ir::BinOp::AShr,
        BinOp::Lt => ir::BinOp::Lt,
        BinOp::Le => ir::BinOp::Le,
        BinOp::Gt => ir::BinOp::Gt,
        BinOp::Ge => ir::BinOp::Ge,
        BinOp::Eq => ir::BinOp::Eq,
        BinOp::Ne => ir::BinOp::Ne,
        BinOp::CaseEq => ir::BinOp::CaseEq,
        BinOp::CaseNe => ir::BinOp::CaseNe,
        BinOp::WildEq => ir::BinOp::Eq,
        BinOp::WildNe => ir::BinOp::Ne,
        BinOp::BitAnd => ir::BinOp::BitAnd,
        BinOp::BitXor => ir::BinOp::BitXor,
        BinOp::BitXnor => ir::BinOp::BitXnor,
        BinOp::BitOr => ir::BinOp::BitOr,
        BinOp::LogAnd => ir::BinOp::LogAnd,
        BinOp::LogOr => ir::BinOp::LogOr,
    }
}

/// The lowered operator of a source binary operator. A wildcard equality
/// is lowered on its own path before this is asked; reached here, it
/// degrades to the plain comparison.
pub fn map_binop(op: BinOp) -> (r: ir::BinOp)
    ensures
        r == map_binop_spec(op),
{
    match op {
        BinOp::Add => ir::BinOp::Add,
        BinOp::Sub => ir::BinOp::Sub,
        BinOp::Mul => ir::BinOp::Mul,
        BinOp::Div => ir::BinOp::Div,
        BinOp::Mod => ir::BinOp::Mod,
        BinOp::Pow => ir::BinOp::Pow,
        BinOp::Shl => ir::BinOp::Shl,
        BinOp::Shr => ir::BinOp::Shr,
        BinOp::AShl => ir::BinOp::AShl,
        BinOp::AShr => ir::BinOp::AShr,
        BinOp::Lt => ir::BinOp::Lt,
        BinOp::Le => ir::BinOp::Le,
        BinOp::Gt => ir::BinOp::Gt,
        BinOp::Ge => ir::BinOp::Ge,
        BinOp::Eq => ir::BinOp::Eq,
        BinOp::Ne => ir::BinOp::Ne,
        BinOp::CaseEq => ir::BinOp::CaseEq,
        BinOp::CaseNe => ir::BinOp::CaseNe,
        BinOp::WildEq => ir::BinOp::Eq,
        BinOp::WildNe => ir::BinOp::Ne,
        BinOp::BitAnd => ir::BinOp::BitAnd,
        BinOp::BitXor => ir::BinOp::BitXor,
        BinOp::BitXnor => ir::BinOp::BitXnor,
        BinOp::BitOr => ir::BinOp::BitOr,
        BinOp::LogAnd => ir::BinOp::LogAnd,
        BinOp::LogOr => ir::BinOp::LogOr,
    }
}

/// Two distinct unary operators never lower to the same operator.
pub proof fn lemma_map_unop_injective(a: UnOp, b: UnOp)
    ensures
        map_unop_spec(a) == map_unop_spec(b) ==> a == b,
{
}

/// Two distinct binary operators, neither a wildcard equality, never lower to
/// the same operator; a wildcard equality lowers to its plain counterpart.
pub proof fn lemma_map_binop_injective(a: BinOp, b: BinOp)
    ensures
        a != BinOp::WildEq && a != BinOp::WildNe && b != BinOp::WildEq && b != BinOp::WildNe
            ==> (map_binop_spec(a) == map_binop_spec(b) ==> a == b),
        map_binop_spec(BinOp::WildEq) == map_binop_spec(BinOp::Eq),
        map_binop_spec(BinOp::WildNe) == map_binop_spec(BinOp::Ne),
{
}

// ── index chains ─────────────────────────────────────────────────────────

/// `name[i][j]…` down to a single-segment root name: the name and the count of
/// `[ ]` selects crossed (parentheses are transparent).
pub open spec fn ident_chain(e: Expr) -> Option<(Seq<char>, int)>
    decreases e,
{
    match e {
        Expr::BitSelect { base, .. } => match ident_chain(*base) {
            Some((n, d)) => Some((n, d + 1)),
            None => None,
        },
        Expr::Paren(inner) => ident_chain(*inner),
        Expr::Ident(p) => if p.segments@.len() == 1 {
            Some((p.segments@[0]@, 0))
        } else {
            None
        },
        _ => None,
    }
}

/// Walk a `name[i][j]…` chain to its single-segment root name, counting the
/// indices (which are not evaluated).
pub fn ident_index_chain(e: &Expr) -> (r: Option<(&String, usize)>)
    requires
        ident_chain(*e) matches Some((_, d)) ==> d <= usize::MAX,
    ensures
        match ident_chain(*e) {
            Some((n, d)) => r matches Some((s, k)) && s@ == n && k == d,
            None => r is None,
        },
    decreases e,
{
    match e {
        Expr::BitSelect { base, .. } => match ident_index_chain(base) {
            Some((n, d)) => Some((n, d + 1)),
            None => None,
        },
        Expr::Paren(inner) => ident_index_chain(inner),
        Expr::Ident(p) => {
            if p.segments.len() == 1 {
                Some((&p.segments[0], 0))
            } else {
                None
            }
        },
        _ => None,
    }
}

// ── widening operators ───────────────────────────────────────────────────

/// The operators whose value can differ between a self-width evaluation
/// extended afterwards and an evaluation at a wider context width.
pub open spec fn is_widening(op: BinOp) -> bool {
    match op {
        BinOp::Add | BinOp::Sub | BinOp::Mul | BinOp::Pow | BinOp::Shl | BinOp::AShl
        | BinOp::Shr | BinOp::AShr | BinOp::Div | BinOp::BitXnor => true,
        _ => false,
    }
}

pub fn binop_is_widening(op: BinOp) -> (r: bool)
    ensures
        r == is_widening(op),
{
    match op {
        BinOp::Add | BinOp::Sub | BinOp::Mul | BinOp::Pow | BinOp::Shl | BinOp::AShl
        | BinOp::Shr | BinOp::AShr | BinOp::Div | BinOp::BitXnor => true,
        _ => false,
    }
}

/// The operators with a 1-bit self-determined result.
pub open spec fn is_one_bit_binop(op: BinOp) -> bool {
    match op {
        BinOp::Lt | BinOp::Le | BinOp::Gt | BinOp::Ge | BinOp::Eq | BinOp::Ne | BinOp::CaseEq
        | BinOp::CaseNe | BinOp::WildEq | BinOp::WildNe | BinOp::LogAnd | BinOp::LogOr => true,
        _ => false,
    }
}

/// The operators whose self width is the LEFT operand's (shifts, power).
pub open spec fn is_left_width_binop(op: BinOp) -> bool {
    match op {
        BinOp::Shl | BinOp::Shr | BinOp::AShl | BinOp::AShr | BinOp::Pow => true,
        _ => false,
    }
}

/// The reductions and logical negation: a 1-bit result.
pub open spec fn is_one_bit_unop(op: UnOp) -> bool {
    match op {
        UnOp::LogNot | UnOp::RedAnd | UnOp::RedNand | UnOp::RedOr | UnOp::RedNor
        | UnOp::RedXor | UnOp::RedXnor => true,
        _ => false,
    }
}

pub(crate) fn binop_is_one_bit(op: BinOp) -> (r: bool)
    ensures
        r == is_one_bit_binop(op),
{
    match op {
        BinOp::Lt | BinOp::Le | BinOp::Gt | BinOp::Ge | BinOp::Eq | BinOp::Ne | BinOp::CaseEq
        | BinOp::CaseNe | BinOp::WildEq | BinOp::WildNe | BinOp::LogAnd | BinOp::LogOr => true,
        _ => false,
    }
}

pub(crate) fn binop_is_left_width(op: BinOp) -> (r: bool)
    ensures
        r == is_left_width_binop(op),
{
    match op {
        BinOp::Shl | BinOp::Shr | BinOp::AShl | BinOp::AShr | BinOp::Pow => true,
        _ => false,
    }
}

pub(crate) fn unop_is_one_bit(op: UnOp) -> (r: bool)
    ensures
        r == is_one_bit_unop(op),
{
    match op {
        UnOp::LogNot | UnOp::RedAnd | UnOp::RedNand | UnOp::RedOr | UnOp::RedNor
        | UnOp::RedXor | UnOp::RedXnor => true,
        _ => false,
    }
}

// ── self-determined width of a source expression ─────────────────────────

/// The value of a plain decimal literal.
pub open spec fn decimal_lit(e: Expr) -> Option<i64> {
    match e {
        Expr::IntLit(l) => if l.kind == IntLitKind::Decimal {
            l.value
        } else {
            None
        },
        _ => None,
    }
}

pub fn ast_decimal_lit_i64(e: &Expr) -> (r: Option<i64>)
    ensures
        r == decimal_lit(*e),
{
    match e {
        Expr::IntLit(l) => {
            if l.kind == IntLitKind::Decimal {
                l.value
            } else {
                None
            }
        },
        _ => None,
    }
}

/// `|m - l| + 1` when it fits `u32`.
pub open spec fn range_width(m: int, l: int) -> Option<u32> {
    let d = if m >= l {
        m - l
    } else {
        l - m
    };
    if d + 1 <= u32::MAX {
        Some((d + 1) as u32)
    } else {
        None
    }
}

pub fn range_width_exec(m: i64, l: i64) -> (r: Option<u32>)
    ensures
        r == range_width(m as int, l as int),
{
    let d: i128 = if m >= l {
        m as i128 - l as i128
    } else {
        l as i128 - m as i128
    };
    if d + 1 <= u32::MAX as i128 {
        Some((d + 1) as u32)
    } else {
        None
    }
}

/// The larger of two known widths; unknown when either is.
pub open spec fn max_opt(a: Option<u32>, b: Option<u32>) -> Option<u32> {
    match (a, b) {
        (Some(x), Some(y)) => Some(if x >= y {
            x
        } else {
            y
        }),
        _ => None,
    }
}

/// Self-determined width of a source expression, from the
/// declared widths of names (`widths`) and of function returns
/// (`func_widths`); `None` where it is unknown.
pub open spec fn ast_self_width(
    e: Expr,
    widths: Seq<(String, u32)>,
    func_widths: Seq<(String, u32)>,
) -> Option<u32>
    decreases e,
{
    match e {
        Expr::Paren(inner) => ast_self_width(*inner, widths, func_widths),
        Expr::Ident(p) => if p.segments@.len() == 1 {
            assoc_first(widths, p.segments@[0]@)
        } else {
            None
        },
        Expr::Call { name, .. } => if name.segments@.len() == 1 {
            assoc_first(func_widths, name.segments@[0]@)
        } else {
            None
        },
        Expr::IntLit(l) => match l.parsed {
            Some(s) => Some(s.width),
            None => None,
        },
        Expr::BitSelect { .. } => Some(1),
        Expr::PartSelect { msb, lsb, .. } => match (decimal_lit(*msb), decimal_lit(*lsb)) {
            (Some(m), Some(l)) => range_width(m as int, l as int),
            _ => None,
        },
        Expr::IndexedPart { width, .. } => match decimal_lit(*width) {
            Some(w) => if 0 <= w <= u32::MAX {
                Some(w as u32)
            } else {
                None
            },
            None => None,
        },
        Expr::Binary { op, lhs, rhs } => if is_one_bit_binop(op) {
            Some(1)
        } else if is_left_width_binop(op) {
            ast_self_width(*lhs, widths, func_widths)
        } else {
            max_opt(
                ast_self_width(*lhs, widths, func_widths),
                ast_self_width(*rhs, widths, func_widths),
            )
        },
        Expr::Unary { op, operand } => if is_one_bit_unop(op) {
            Some(1)
        } else {
            ast_self_width(*operand, widths, func_widths)
        },
        Expr::Ternary { then_e, else_e, .. } => max_opt(
            ast_self_width(*then_e, widths, func_widths),
            ast_self_width(*else_e, widths, func_widths),
        ),
        Expr::Concat(parts) => match sum_self_widths(parts@, widths, func_widths) {
            Some(s) => if s <= u32::MAX {
                Some(s as u32)
            } else {
                None
            },
            None => None,
        },
        Expr::Replicate { count, value } => match (
            decimal_lit(*count),
            sum_self_widths(value@, widths, func_widths),
        ) {
            (Some(c), Some(s)) => if 0 <= c <= u32::MAX && s <= u32::MAX && c * s <= u32::MAX {
                Some((c * s) as u32)
            } else {
                None
            },
            _ => None,
        },
        _ => None,
    }
}

/// The sum of the self widths of `parts`; unknown when any part is.
pub open spec fn sum_self_widths(
    parts: Seq<Expr>,
    widths: Seq<(String, u32)>,
    func_widths: Seq<(String, u32)>,
) -> Option<int>
    decreases parts,
{
    if parts.len() == 0 {
        Some(0)
    } else {
        match (
            sum_self_widths(parts.drop_last(), widths, func_widths),
            ast_self_width(parts.last(), widths, func_widths),
        ) {
            (Some(a), Some(b)) => Some(a + b),
            _ => None,
        }
    }
}

/// A prefix's sum is unknown only if the whole sum is, and never exceeds it.
proof fn lemma_sum_prefix(
    parts: Seq<Expr>,
    i: int,
    widths: Seq<(String, u32)>,
    func_widths: Seq<(String, u32)>,
)
    requires
        0 <= i <= parts.len(),
    ensures
        sum_self_widths(parts.take(i), widths, func_widths) is None ==> sum_self_widths(
            parts,
            widths,
            func_widths,
        ) is None,
        sum_self_widths(parts.take(i), widths, func_widths) matches Some(a) ==> (
        sum_self_widths(parts, widths, func_widths) matches Some(b) ==> a <= b),
        sum_self_widths(parts.take(i), widths, func_widths) matches Some(a) ==> a >= 0,
    decreases parts.len() - i,
{
    if i == parts.len() {
        assert(parts.take(i) =~= parts);
        lemma_sum_nonneg(parts, widths, func_widths);
    } else {
        lemma_sum_prefix(parts, i + 1, widths, func_widths);
        assert(parts.take(i + 1).drop_last() =~= parts.take(i));
        lemma_sum_nonneg(parts.take(i), widths, func_widths);
    }
}

proof fn lemma_sum_nonneg(
    parts: Seq<Expr>,
    widths: Seq<(String, u32)>,
    func_widths: Seq<(String, u32)>,
)
    ensures
        sum_self_widths(parts, widths, func_widths) matches Some(a) ==> a >= 0,
    decreases parts.len(),
{
    if parts.len() > 0 {
        lemma_sum_nonneg(parts.drop_last(), widths, func_widths);
    }
}

/// Sum of the self widths of `parts`, as the `Concat`/`Replicate` arms read
/// it: `None` when a part is unknown or the running sum leaves `u32`.
fn sum_parts_width(
    parts: &Vec<Expr>,
    widths: &Vec<(String, u32)>,
    func_widths: &Vec<(String, u32)>,
    Ghost(whole): Ghost<Expr>,
) -> (r: Option<u32>)
    requires
        forall|i: int| 0 <= i < parts@.len() ==> decreases_to!(whole => #[trigger] parts@[i]),
    ensures
        match sum_self_widths(parts@, widths@, func_widths@) {
            Some(s) => if s <= u32::MAX {
                r == Some(s as u32)
            } else {
                r is None
            },
            None => r is None,
        },
        r matches Some(v) ==> sum_self_widths(parts@, widths@, func_widths@) == Some(v as int),
    decreases whole, 0nat,
{
    let mut sum: u32 = 0;
    let mut i: usize = 0;
    assert(parts@.take(0) =~= Seq::<Expr>::empty());
    while i < parts.len()
        invariant
            i <= parts.len(),
            forall|j: int| 0 <= j < parts@.len() ==> decreases_to!(whole => #[trigger] parts@[j]),
            sum_self_widths(parts@.take(i as int), widths@, func_widths@) == Some(sum as int),
        decreases parts.len() - i,
    {
        assert(parts@.take(i as int + 1).drop_last() =~= parts@.take(i as int));
        assert(parts@.take(i as int + 1).last() == parts@[i as int]);
        let w = match ast_expr_self_width(&parts[i], widths, func_widths) {
            Some(w) => w,
            None => {
                proof {
                    lemma_sum_prefix(parts@, i as int + 1, widths@, func_widths@);
                }
                return None;
            },
        };
        if sum > u32::MAX - w {
            proof {
                lemma_sum_prefix(parts@, i as int + 1, widths@, func_widths@);
            }
            return None;
        }
        sum = sum + w;
        i += 1;
    }
    assert(parts@.take(i as int) =~= parts@);
    Some(sum)
}

/// Self-determined bit width of an expression (`None` = unknown).
/// `widths` maps a formal/local name to its declared width, `func_widths` a
/// function name to its declared return width.
pub fn ast_expr_self_width(
    e: &Expr,
    widths: &Vec<(String, u32)>,
    func_widths: &Vec<(String, u32)>,
) -> (r: Option<u32>)
    ensures
        r == ast_self_width(*e, widths@, func_widths@),
    decreases *e, 1nat,
{
    match e {
        Expr::Paren(inner) => ast_expr_self_width(inner, widths, func_widths),
        Expr::Ident(p) => {
            if p.segments.len() == 1 {
                lookup_first(widths, &p.segments[0])
            } else {
                None
            }
        },
        Expr::Call { name, .. } => {
            if name.segments.len() == 1 {
                lookup_first(func_widths, &name.segments[0])
            } else {
                None
            }
        },
        Expr::IntLit(l) => match l.parsed {
            Some(s) => Some(s.width),
            None => None,
        },
        Expr::BitSelect { .. } => Some(1),
        Expr::PartSelect { msb, lsb, .. } => {
            match (ast_decimal_lit_i64(msb), ast_decimal_lit_i64(lsb)) {
                (Some(m), Some(l)) => range_width_exec(m, l),
                _ => None,
            }
        },
        Expr::IndexedPart { width, .. } => match ast_decimal_lit_i64(width) {
            Some(w) => {
                if 0 <= w && w <= u32::MAX as i64 {
                    Some(w as u32)
                } else {
                    None
                }
            },
            None => None,
        },
        Expr::Binary { op, lhs, rhs } => {
            if binop_is_one_bit(*op) {
                Some(1)
            } else if binop_is_left_width(*op) {
                ast_expr_self_width(lhs, widths, func_widths)
            } else {
                let a = ast_expr_self_width(lhs, widths, func_widths);
                match a {
                    Some(x) => match ast_expr_self_width(rhs, widths, func_widths) {
                        Some(y) => Some(
                            if x >= y {
                                x
                            } else {
                                y
                            },
                        ),
                        None => None,
                    },
                    None => None,
                }
            }
        },
        Expr::Unary { op, operand } => {
            if unop_is_one_bit(*op) {
                Some(1)
            } else {
                ast_expr_self_width(operand, widths, func_widths)
            }
        },
        Expr::Ternary { then_e, else_e, .. } => {
            match ast_expr_self_width(then_e, widths, func_widths) {
                Some(x) => match ast_expr_self_width(else_e, widths, func_widths) {
                    Some(y) => Some(
                        if x >= y {
                            x
                        } else {
                            y
                        },
                    ),
                    None => None,
                },
                None => None,
            }
        },
        Expr::Concat(parts) => {
            proof {
                assert forall|i: int| 0 <= i < parts@.len() implies decreases_to!(*e => #[trigger] parts@[i]) by {
                    assert(decreases_to!(*e => parts@[i]));
                }
            }
            sum_parts_width(parts, widths, func_widths, Ghost(*e))
        },
        Expr::Replicate { count, value } => {
            let c = match ast_decimal_lit_i64(count) {
                Some(c) => c,
                None => return None,
            };
            proof {
                assert forall|i: int| 0 <= i < value@.len() implies decreases_to!(*e => #[trigger] value@[i]) by {
                    assert(decreases_to!(*e => value@[i]));
                }
            }
            let s = match sum_parts_width(value, widths, func_widths, Ghost(*e)) {
                Some(s) => s,
                None => return None,
            };
            if c < 0 || c > u32::MAX as i64 {
                return None;
            }
            let ghost ci = c as int;
            let c = c as u32;
            assert(ci == c as int);

            if s != 0 && c > u32::MAX / s {
                proof {
                    assert((c as int) * (s as int) > u32::MAX) by (nonlinear_arith)
                        requires
                            s > 0,
                            c > u32::MAX / s,
                    ;
                }
                return None;
            }
            proof {
                assert((c as int) * (s as int) <= u32::MAX) by (nonlinear_arith)
                    requires
                        s == 0 || c <= u32::MAX / s,
                ;
            }
            Some(c * s)
        },
        _ => None,
    }
}

// ── widening ops below the context width ─────────────────────────────────

/// Is `node`'s own self width below the context width `cw`? Unknown on
/// either side counts as below (fail closed).
pub open spec fn width_below(
    node: Expr,
    cw: Option<u32>,
    widths: Seq<(String, u32)>,
    func_widths: Seq<(String, u32)>,
) -> bool {
    match (cw, ast_self_width(node, widths, func_widths)) {
        (Some(c), Some(sw)) => sw < c,
        _ => true,
    }
}

/// Does `e`, sitting in a context-determined position whose context width is
/// `cw` (`None` = unknown), hold a widening operator whose own self width is
/// below the context width? Only context-determined positions are searched.
pub open spec fn ctx_below(
    e: Expr,
    cw: Option<u32>,
    widths: Seq<(String, u32)>,
    func_widths: Seq<(String, u32)>,
) -> bool
    decreases e,
{
    match e {
        Expr::Paren(inner) => ctx_below(*inner, cw, widths, func_widths),
        Expr::Binary { op, lhs, rhs } => (is_widening(op) && width_below(e, cw, widths, func_widths))
            || if is_one_bit_binop(op) {
            false
        } else if is_left_width_binop(op) {
            ctx_below(*lhs, cw, widths, func_widths)
        } else {
            ctx_below(*lhs, cw, widths, func_widths) || ctx_below(*rhs, cw, widths, func_widths)
        },
        Expr::Unary { op, operand } => ((op == UnOp::Minus || op == UnOp::BitNot) && width_below(
            e,
            cw,
            widths,
            func_widths,
        )) || ((op == UnOp::Plus || op == UnOp::Minus || op == UnOp::BitNot) && ctx_below(
            *operand,
            cw,
            widths,
            func_widths,
        )),
        Expr::Ternary { then_e, else_e, .. } => ctx_below(*then_e, cw, widths, func_widths)
            || ctx_below(*else_e, cw, widths, func_widths),
        _ => false,
    }
}

/// Does `e` (a context-determined position with overall context width `cw`)
/// contain a widening operator whose own self width is below `cw`? An
/// unknown `cw` makes every widening operator count.
pub fn ctx_widening_below(
    e: &Expr,
    cw: Option<u32>,
    widths: &Vec<(String, u32)>,
    func_widths: &Vec<(String, u32)>,
) -> (r: bool)
    ensures
        r == ctx_below(*e, cw, widths@, func_widths@),
    decreases e,
{
    match e {
        Expr::Paren(inner) => ctx_widening_below(inner, cw, widths, func_widths),
        Expr::Binary { op, lhs, rhs } => {
            if binop_is_widening(*op) && below(e, cw, widths, func_widths) {
                return true;
            }
            if binop_is_one_bit(*op) {
                false
            } else if binop_is_left_width(*op) {
                ctx_widening_below(lhs, cw, widths, func_widths)
            } else {
                ctx_widening_below(lhs, cw, widths, func_widths) || ctx_widening_below(
                    rhs,
                    cw,
                    widths,
                    func_widths,
                )
            }
        },
        Expr::Unary { op, operand } => {
            if (*op == UnOp::Minus || *op == UnOp::BitNot) && below(e, cw, widths, func_widths) {
                return true;
            }
            (*op == UnOp::Plus || *op == UnOp::Minus || *op == UnOp::BitNot) && ctx_widening_below(
                operand,
                cw,
                widths,
                func_widths,
            )
        },
        Expr::Ternary { then_e, else_e, .. } => ctx_widening_below(then_e, cw, widths, func_widths)
            || ctx_widening_below(else_e, cw, widths, func_widths),
        _ => false,
    }
}

fn below(
    node: &Expr,
    cw: Option<u32>,
    widths: &Vec<(String, u32)>,
    func_widths: &Vec<(String, u32)>,
) -> (r: bool)
    ensures
        r == width_below(*node, cw, widths@, func_widths@),
{
    match (cw, ast_expr_self_width(node, widths, func_widths)) {
        (Some(c), Some(sw)) => sw < c,
        _ => true,
    }
}

/// Raising the context width can only add operators evaluated too narrowly.
pub proof fn lemma_ctx_below_monotone(
    e: Expr,
    c1: u32,
    c2: u32,
    widths: Seq<(String, u32)>,
    func_widths: Seq<(String, u32)>,
)
    requires
        c1 <= c2,
        ctx_below(e, Some(c1), widths, func_widths),
    ensures
        ctx_below(e, Some(c2), widths, func_widths),
    decreases e,
{
    match e {
        Expr::Paren(inner) => lemma_ctx_below_monotone(*inner, c1, c2, widths, func_widths),
        Expr::Binary { op, lhs, rhs } => {
            if ctx_below(*lhs, Some(c1), widths, func_widths) {
                lemma_ctx_below_monotone(*lhs, c1, c2, widths, func_widths);
            }
            if ctx_below(*rhs, Some(c1), widths, func_widths) {
                lemma_ctx_below_monotone(*rhs, c1, c2, widths, func_widths);
            }
        },
        Expr::Unary { op, operand } => {
            if ctx_below(*operand, Some(c1), widths, func_widths) {
                lemma_ctx_below_monotone(*operand, c1, c2, widths, func_widths);
            }
        },
        Expr::Ternary { then_e, else_e, .. } => {
            if ctx_below(*then_e, Some(c1), widths, func_widths) {
                lemma_ctx_below_monotone(*then_e, c1, c2, widths, func_widths);
            }
            if ctx_below(*else_e, Some(c1), widths, func_widths) {
                lemma_ctx_below_monotone(*else_e, c1, c2, widths, func_widths);
            }
        },
        _ => {},
    }
}

/// An unknown context width fails closed: whatever is flagged under a known
/// context width is flagged under an unknown one.
pub proof fn lemma_ctx_below_unknown_fails_closed(
    e: Expr,
    c: u32,
    widths: Seq<(String, u32)>,
    func_widths: Seq<(String, u32)>,
)
    requires
        ctx_below(e, Some(c), widths, func_widths),
    ensures
        ctx_below(e, None, widths, func_widths),
    decreases e,
{
    match e {
        Expr::Paren(inner) => lemma_ctx_below_unknown_fails_closed(*inner, c, widths, func_widths),
        Expr::Binary { op, lhs, rhs } => {
            if ctx_below(*lhs, Some(c), widths, func_widths) {
                lemma_ctx_below_unknown_fails_closed(*lhs, c, widths, func_widths);
            }
            if ctx_below(*rhs, Some(c), widths, func_widths) {
                lemma_ctx_below_unknown_fails_closed(*rhs, c, widths, func_widths);
            }
        },
        Expr::Unary { op, operand } => {
            if ctx_below(*operand, Some(c), widths, func_widths) {
                lemma_ctx_below_unknown_fails_closed(*operand, c, widths, func_widths);
            }
        },
        Expr::Ternary { then_e, else_e, .. } => {
            if ctx_below(*then_e, Some(c), widths, func_widths) {
                lemma_ctx_below_unknown_fails_closed(*then_e, c, widths, func_widths);
            }
            if ctx_below(*else_e, Some(c), widths, func_widths) {
                lemma_ctx_below_unknown_fails_closed(*else_e, c, widths, func_widths);
            }
        },
        _ => {},
    }
}

// ── assignments that need the context width ──────────────────────────────

/// The context width of `lhs = rhs;` and whether the assignment is a
/// bit-width context at all: `None` = not one (a real/string/handle target);
/// `Some(cw)` = a bit-width context with context width `cw`
/// (`max(target, rhs self width)`, unknown when either is).
pub open spec fn assign_context(
    target: Seq<char>,
    rhs: Expr,
    widths: Seq<(String, u32)>,
    unknown_bv: Seq<String>,
    func_widths: Seq<(String, u32)>,
) -> Option<Option<u32>> {
    let target_w = assoc_first(widths, target);
    if target_w is None && !has_name(unknown_bv, target) {
        None
    } else {
        Some(max_opt(target_w, ast_self_width(rhs, widths, func_widths)))
    }
}

/// Does a straight-line body hold a widening context-sensitive assignment
/// `x = rhs;` to a plain local `x` (see [`assign_context`])?
pub open spec fn assign_needs_cw(
    s: Stmt,
    widths: Seq<(String, u32)>,
    unknown_bv: Seq<String>,
    func_widths: Seq<(String, u32)>,
) -> bool
    decreases s,
{
    match s {
        Stmt::Block { stmts, .. } => any_assign_needs_cw(stmts@, widths, unknown_bv, func_widths),
        Stmt::Blocking { lhs, rhs, .. } => match lhs {
            Lvalue::Ident(p) => if p.segments@.len() == 1 {
                match assign_context(p.segments@[0]@, rhs, widths, unknown_bv, func_widths) {
                    Some(cw) => ctx_below(rhs, cw, widths, func_widths),
                    None => false,
                }
            } else {
                false
            },
            _ => false,
        },
        _ => false,
    }
}

/// Some statement of `stmts` needs the context width.
pub open spec fn any_assign_needs_cw(
    stmts: Seq<Stmt>,
    widths: Seq<(String, u32)>,
    unknown_bv: Seq<String>,
    func_widths: Seq<(String, u32)>,
) -> bool
    decreases stmts,
{
    if stmts.len() == 0 {
        false
    } else {
        any_assign_needs_cw(stmts.drop_last(), widths, unknown_bv, func_widths) || assign_needs_cw(
            stmts.last(),
            widths,
            unknown_bv,
            func_widths,
        )
    }
}

/// Walk a straight-line body; `true` if any `lhs = rhs;` to a plain local is
/// a widening context-sensitive assignment. Control flow answers `false`
/// (such a body is routed on other grounds).
pub fn assign_needs_context_width(
    s: &Stmt,
    widths: &Vec<(String, u32)>,
    unknown_bv: &Vec<String>,
    func_widths: &Vec<(String, u32)>,
) -> (r: bool)
    ensures
        r == assign_needs_cw(*s, widths@, unknown_bv@, func_widths@),
    decreases *s, 1nat,
{
    match s {
        Stmt::Block { stmts, .. } => {
            proof {
                assert forall|i: int| 0 <= i < stmts@.len() implies decreases_to!(*s => #[trigger] stmts@[i]) by {
                    assert(decreases_to!(*s => stmts@[i]));
                }
            }
            any_needs_context_width(stmts, widths, unknown_bv, func_widths, Ghost(*s))
        },
        Stmt::Blocking { lhs, rhs, .. } => {
            let p = match lhs {
                Lvalue::Ident(p) => p,
                _ => return false,
            };
            if p.segments.len() != 1 {
                return false;
            }
            let seg = &p.segments[0];
            let target_w = match lookup_first(widths, seg) {
                Some(w) => Some(w),
                None => {
                    if contains_name(unknown_bv, seg) {
                        None
                    } else {
                        return false;
                    }
                },
            };
            let cw = match (target_w, ast_expr_self_width(rhs, widths, func_widths)) {
                (Some(t), Some(r)) => Some(
                    if t >= r {
                        t
                    } else {
                        r
                    },
                ),
                _ => None,
            };
            ctx_widening_below(rhs, cw, widths, func_widths)
        },
        _ => false,
    }
}

fn any_needs_context_width(
    stmts: &Vec<Stmt>,
    widths: &Vec<(String, u32)>,
    unknown_bv: &Vec<String>,
    func_widths: &Vec<(String, u32)>,
    Ghost(whole): Ghost<Stmt>,
) -> (r: bool)
    requires
        forall|i: int| 0 <= i < stmts@.len() ==> decreases_to!(whole => #[trigger] stmts@[i]),
    ensures
        r == any_assign_needs_cw(stmts@, widths@, unknown_bv@, func_widths@),
    decreases whole, 0nat,
{
    let mut i: usize = 0;
    assert(stmts@.take(0) =~= Seq::<Stmt>::empty());
    while i < stmts.len()
        invariant
            i <= stmts.len(),
            forall|j: int| 0 <= j < stmts@.len() ==> decreases_to!(whole => #[trigger] stmts@[j]),
            !any_assign_needs_cw(stmts@.take(i as int), widths@, unknown_bv@, func_widths@),
        decreases stmts.len() - i,
    {
        assert(stmts@.take(i as int + 1).drop_last() =~= stmts@.take(i as int));
        if assign_needs_context_width(&stmts[i], widths, unknown_bv, func_widths) {
            proof {
                lemma_any_prefix(stmts@, i as int + 1, widths@, unknown_bv@, func_widths@);
            }
            return true;
        }
        i += 1;
    }
    assert(stmts@.take(i as int) =~= stmts@);
    false
}

proof fn lemma_any_prefix(
    stmts: Seq<Stmt>,
    i: int,
    widths: Seq<(String, u32)>,
    unknown_bv: Seq<String>,
    func_widths: Seq<(String, u32)>,
)
    requires
        0 <= i <= stmts.len(),
        any_assign_needs_cw(stmts.take(i), widths, unknown_bv, func_widths),
    ensures
        any_assign_needs_cw(stmts, widths, unknown_bv, func_widths),
    decreases stmts.len() - i,
{
    if i == stmts.len() {
        assert(stmts.take(i) =~= stmts);
    } else {
        assert(stmts.take(i + 1).drop_last() =~= stmts.take(i));
        lemma_any_prefix(stmts, i + 1, widths, unknown_bv, func_widths);
    }
}

// ── an expression read as an assignment target ─────────────────────────

/// `e` has the shape of an assignment target: a name, a select of one, a
/// concatenation of such, possibly parenthesized.
pub open spec fn lvalue_form(e: Expr) -> bool
    decreases e,
{
    match e {
        Expr::Ident(_) => true,
        Expr::Paren(x) => lvalue_form(*x),
        Expr::BitSelect { base, .. } => lvalue_form(*base),
        Expr::PartSelect { base, .. } => lvalue_form(*base),
        Expr::IndexedPart { base, .. } => lvalue_form(*base),
        Expr::Concat(parts) => lvalue_forms(parts@),
        _ => false,
    }
}

pub open spec fn lvalue_forms(es: Seq<Expr>) -> bool
    decreases es,
{
    es.len() == 0 || (lvalue_forms(es.drop_last()) && lvalue_form(es.last()))
}

/// `lv` is `e` read as an assignment target: the same names, the same index
/// and bound expressions, parentheses dropped.
pub open spec fn lvalue_reads_as(lv: Lvalue, e: Expr) -> bool
    decreases e,
{
    match e {
        Expr::Ident(p) => lv matches Lvalue::Ident(q) && same_path(p, q),
        Expr::Paren(x) => lvalue_reads_as(lv, *x),
        Expr::BitSelect { base, index } => match lv {
            Lvalue::BitSelect { base: lb, index: li } => lvalue_reads_as(*lb, *base) && same_expr(*index, *li),
            _ => false,
        },
        Expr::PartSelect { base, msb, lsb } => match lv {
            Lvalue::PartSelect { base: lb, msb: lm, lsb: ll } => lvalue_reads_as(*lb, *base) && same_expr(*msb, *lm)
                && same_expr(*lsb, *ll),
            _ => false,
        },
        Expr::IndexedPart { base, offset, width, dir } => match lv {
            Lvalue::IndexedPart { base: lb, offset: lo, width: lw, dir: ld } => lvalue_reads_as(*lb, *base)
                && same_expr(*offset, *lo) && same_expr(*width, *lw) && dir == ld,
            _ => false,
        },
        Expr::Concat(parts) => match lv {
            Lvalue::Concat(ls) => lvalues_read_as(ls@, parts@),
            _ => false,
        },
        _ => false,
    }
}

pub open spec fn lvalues_read_as(ls: Seq<Lvalue>, es: Seq<Expr>) -> bool
    decreases es,
{
    ls.len() == es.len() && (es.len() == 0 || (lvalues_read_as(ls.drop_last(), es.drop_last()) && lvalue_reads_as(
        ls.last(),
        es.last(),
    )))
}

proof fn lemma_lvalue_forms_prefix(es: Seq<Expr>, i: int)
    requires
        0 <= i <= es.len(),
        lvalue_forms(es),
    ensures
        lvalue_forms(es.take(i)),
    decreases es.len() - i,
{
    if i < es.len() {
        lemma_lvalue_forms_prefix(es, i + 1);
        assert(es.take(i + 1).drop_last() =~= es.take(i));
    } else {
        assert(es.take(i) =~= es);
    }
}

fn parts_to_lvalues(parts: &Vec<Expr>, Ghost(whole): Ghost<Expr>) -> (r: Option<Vec<Lvalue>>)
    requires
        forall|j: int| 0 <= j < parts@.len() ==> decreases_to!(whole => #[trigger] parts@[j]),
    ensures
        r is Some <==> lvalue_forms(parts@),
        r matches Some(ls) ==> lvalues_read_as(ls@, parts@),
    decreases whole, 0nat,
{
    let mut out: Vec<Lvalue> = Vec::new();
    let mut i: usize = 0;
    assert(parts@.take(0) =~= Seq::<Expr>::empty());
    while i < parts.len()
        invariant
            i <= parts@.len(),
            forall|j: int| 0 <= j < parts@.len() ==> decreases_to!(whole => #[trigger] parts@[j]),
            lvalue_forms(parts@.take(i as int)),
            lvalues_read_as(out@, parts@.take(i as int)),
        decreases parts@.len() - i,
    {
        assert(parts@.take(i as int + 1).drop_last() =~= parts@.take(i as int));
        match expr_to_lvalue(&parts[i]) {
            Some(lv) => {
                let ghost before = out@;
                out.push(lv);
                assert(out@.drop_last() =~= before);
            },
            None => {
                proof {
                    if lvalue_forms(parts@) {
                        lemma_lvalue_forms_prefix(parts@, i as int + 1);
                    }
                }
                return None;
            },
        }
        i += 1;
    }
    assert(parts@.take(i as int) =~= parts@);
    Some(out)
}

/// A parent's connection expression read as the target of an output port:
/// `None` for an expression that is no assignment target (a literal, an
/// arithmetic result).
pub fn expr_to_lvalue(e: &Expr) -> (r: Option<Lvalue>)
    ensures
        r is Some <==> lvalue_form(*e),
        r matches Some(lv) ==> lvalue_reads_as(lv, *e),
    decreases e, 1nat,
{
    match e {
        Expr::Ident(p) => Some(Lvalue::Ident(copy_path(p))),
        Expr::Paren(x) => expr_to_lvalue(x),
        Expr::BitSelect { base, index } => {
            let b = expr_to_lvalue(base)?;
            Some(Lvalue::BitSelect { base: Box::new(b), index: Box::new(copy_expr(index)) })
        },
        Expr::PartSelect { base, msb, lsb } => {
            let b = expr_to_lvalue(base)?;
            let m = copy_expr(msb);
            let l = copy_expr(lsb);
            Some(Lvalue::PartSelect { base: Box::new(b), msb: Box::new(m), lsb: Box::new(l) })
        },
        Expr::IndexedPart { base, offset, width, dir } => {
            let b = expr_to_lvalue(base)?;
            let o = copy_expr(offset);
            let w = copy_expr(width);
            Some(Lvalue::IndexedPart { base: Box::new(b), offset: Box::new(o), width: Box::new(w), dir: *dir })
        },
        Expr::Concat(parts) => {
            proof {
                assert forall|j: int| 0 <= j < parts@.len() implies decreases_to!(*e => #[trigger] parts@[j]) by {
                    assert(decreases_to!(*e => parts@[j]));
                }
            }
            let ls = parts_to_lvalues(parts, Ghost(*e))?;
            Some(Lvalue::Concat(ls))
        },
        _ => None,
    }
}

// ── leaves a size-context walk cannot measure ───────────────────────────

/// Does `e` read something a size-context walk cannot give a width to: a
/// hierarchical name, a hierarchical call, a bare name bound to an actual
/// handed over verbatim (`verbatim`), or any form the walk does not model?
pub open spec fn opaque_leaf(e: Expr, verbatim: Seq<String>) -> bool
    decreases e,
{
    match e {
        Expr::Ident(p) => p.segments@.len() > 1 || (p.segments@.len() == 1 && has_name(verbatim, p.segments@[0]@)),
        Expr::Call { name, args } => name.segments@.len() > 1 || any_opaque(args@, verbatim),
        Expr::Paren(x) => opaque_leaf(*x, verbatim),
        Expr::Unary { operand, .. } => opaque_leaf(*operand, verbatim),
        Expr::Binary { lhs, rhs, .. } => opaque_leaf(*lhs, verbatim) || opaque_leaf(*rhs, verbatim),
        Expr::Ternary { cond, then_e, else_e } => opaque_leaf(*cond, verbatim) || opaque_leaf(*then_e, verbatim)
            || opaque_leaf(*else_e, verbatim),
        Expr::BitSelect { base, index } => opaque_leaf(*base, verbatim) || opaque_leaf(*index, verbatim),
        Expr::PartSelect { base, msb, lsb } => opaque_leaf(*base, verbatim) || opaque_leaf(*msb, verbatim)
            || opaque_leaf(*lsb, verbatim),
        Expr::IndexedPart { base, offset, .. } => opaque_leaf(*base, verbatim) || opaque_leaf(*offset, verbatim),
        Expr::Concat(parts) => any_opaque(parts@, verbatim),
        Expr::Replicate { count, value } => opaque_leaf(*count, verbatim) || any_opaque(value@, verbatim),
        Expr::Cast { expr, .. } => opaque_leaf(*expr, verbatim),
        Expr::SysCall { args, .. } => any_opaque(args@, verbatim),
        Expr::PkgScoped { .. } => false,
        Expr::IntLit(_) | Expr::RealLit | Expr::StrLit | Expr::TimeLit => false,
        _ => true,
    }
}

pub open spec fn any_opaque(es: Seq<Expr>, verbatim: Seq<String>) -> bool
    decreases es,
{
    es.len() > 0 && (any_opaque(es.drop_last(), verbatim) || opaque_leaf(es.last(), verbatim))
}

proof fn lemma_any_opaque_prefix(es: Seq<Expr>, i: int, verbatim: Seq<String>)
    requires
        0 <= i < es.len(),
        !any_opaque(es.take(i), verbatim),
        opaque_leaf(es[i], verbatim),
    ensures
        any_opaque(es, verbatim),
    decreases es.len() - i,
{
    assert(es.take(i + 1).drop_last() =~= es.take(i));
    assert(es.take(i + 1).last() == es[i]);
    lemma_any_opaque_grows(es, i + 1, verbatim);
}

proof fn lemma_any_opaque_grows(es: Seq<Expr>, i: int, verbatim: Seq<String>)
    requires
        0 <= i <= es.len(),
        any_opaque(es.take(i), verbatim),
    ensures
        any_opaque(es, verbatim),
    decreases es.len() - i,
{
    if i < es.len() {
        assert(es.take(i + 1).drop_last() =~= es.take(i));
        lemma_any_opaque_grows(es, i + 1, verbatim);
    } else {
        assert(es.take(i) =~= es);
    }
}

fn any_opaque_leaf(es: &Vec<Expr>, verbatim: &Vec<String>, Ghost(whole): Ghost<Expr>) -> (r: bool)
    requires
        forall|j: int| 0 <= j < es@.len() ==> decreases_to!(whole => #[trigger] es@[j]),
    ensures
        r == any_opaque(es@, verbatim@),
    decreases whole, 0nat,
{
    let mut i: usize = 0;
    assert(es@.take(0) =~= Seq::<Expr>::empty());
    while i < es.len()
        invariant
            i <= es@.len(),
            forall|j: int| 0 <= j < es@.len() ==> decreases_to!(whole => #[trigger] es@[j]),
            !any_opaque(es@.take(i as int), verbatim@),
        decreases es@.len() - i,
    {
        assert(es@.take(i as int + 1).drop_last() =~= es@.take(i as int));
        if has_opaque_leaf(&es[i], verbatim) {
            proof {
                lemma_any_opaque_prefix(es@, i as int, verbatim@);
            }
            return true;
        }
        i += 1;
    }
    assert(es@.take(i as int) =~= es@);
    false
}

/// Does `e` read something the size-context walks cannot measure? The
/// operand then keeps its sign and evaluation width from before the slice.
/// `verbatim` holds the bare names that the current scope binds to an actual
/// handed over verbatim (a frame call, a class field, a hierarchical net).
pub fn has_opaque_leaf(e: &Expr, verbatim: &Vec<String>) -> (r: bool)
    ensures
        r == opaque_leaf(*e, verbatim@),
    decreases e, 1nat,
{
    match e {
        Expr::Ident(p) => {
            if p.segments.len() > 1 {
                return true;
            }
            p.segments.len() == 1 && contains_name(verbatim, &p.segments[0])
        },
        Expr::Call { name, args } => {
            if name.segments.len() > 1 {
                return true;
            }
            proof {
                assert forall|j: int| 0 <= j < args@.len() implies decreases_to!(*e => #[trigger] args@[j]) by {
                    assert(decreases_to!(*e => args@[j]));
                }
            }
            any_opaque_leaf(args, verbatim, Ghost(*e))
        },
        Expr::Paren(x) => has_opaque_leaf(x, verbatim),
        Expr::Unary { operand, .. } => has_opaque_leaf(operand, verbatim),
        Expr::Binary { lhs, rhs, .. } => has_opaque_leaf(lhs, verbatim) || has_opaque_leaf(rhs, verbatim),
        Expr::Ternary { cond, then_e, else_e } => has_opaque_leaf(cond, verbatim) || has_opaque_leaf(then_e, verbatim)
            || has_opaque_leaf(else_e, verbatim),
        Expr::BitSelect { base, index } => has_opaque_leaf(base, verbatim) || has_opaque_leaf(index, verbatim),
        Expr::PartSelect { base, msb, lsb } => has_opaque_leaf(base, verbatim) || has_opaque_leaf(msb, verbatim)
            || has_opaque_leaf(lsb, verbatim),
        Expr::IndexedPart { base, offset, .. } => has_opaque_leaf(base, verbatim) || has_opaque_leaf(offset, verbatim),
        Expr::Concat(parts) => {
            proof {
                assert forall|j: int| 0 <= j < parts@.len() implies decreases_to!(*e => #[trigger] parts@[j]) by {
                    assert(decreases_to!(*e => parts@[j]));
                }
            }
            any_opaque_leaf(parts, verbatim, Ghost(*e))
        },
        Expr::Replicate { count, value } => {
            if has_opaque_leaf(count, verbatim) {
                return true;
            }
            proof {
                assert forall|j: int| 0 <= j < value@.len() implies decreases_to!(*e => #[trigger] value@[j]) by {
                    assert(decreases_to!(*e => value@[j]));
                }
            }
            any_opaque_leaf(value, verbatim, Ghost(*e))
        },
        Expr::Cast { expr, .. } => has_opaque_leaf(expr, verbatim),
        Expr::SysCall { args, .. } => {
            proof {
                assert forall|j: int| 0 <= j < args@.len() implies decreases_to!(*e => #[trigger] args@[j]) by {
                    assert(decreases_to!(*e => args@[j]));
                }
            }
            any_opaque_leaf(args, verbatim, Ghost(*e))
        },
        Expr::PkgScoped { .. } => false,
        Expr::IntLit(_) | Expr::RealLit | Expr::StrLit | Expr::TimeLit => false,
        _ => true,
    }
}

} // verus!
