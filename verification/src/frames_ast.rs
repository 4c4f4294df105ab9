//! Frame-subset questions asked of a subroutine's source body: timing
//! controls, control flow, `return`, which names it reads and selects, and
//! its block-local declarations.

use vstd::prelude::*;
use crate::ast::{CaseItem, Expr, FunctionDef, Lvalue, NetVarDecl, Stmt, TfPort, CastTarget};
use crate::names::{has_name, contains_name, lemma_has_name_push};
use crate::dup::{copy_expr, same_expr};

verus! {

// ── timing controls ──────────────────────────────────────────────────────

/// Does `s` hold a timing control (`#`, `@`, `wait`, `wait fork`) anywhere
/// on a path?
pub open spec fn has_timing(s: Stmt) -> bool
    decreases s,
{
    match s {
        Stmt::DelayCtrl { .. } | Stmt::EventCtrl { .. } | Stmt::Wait { .. } | Stmt::WaitFork => true,
        Stmt::Block { stmts, .. } => any_timing(stmts@),
        Stmt::If { then_s, else_s, .. } => has_timing(*then_s) || match else_s {
            Some(e) => has_timing(*e),
            None => false,
        },
        Stmt::Case { items, .. } => any_item_timing(items@),
        Stmt::For { body } => has_timing(*body),
        Stmt::While { body, .. } => has_timing(*body),
        Stmt::Repeat { body, .. } => has_timing(*body),
        Stmt::Forever { body } => has_timing(*body),
        Stmt::Fork { stmts } => any_timing(stmts@),
        _ => false,
    }
}

pub open spec fn any_timing(ss: Seq<Stmt>) -> bool
    decreases ss,
{
    if ss.len() == 0 {
        false
    } else {
        any_timing(ss.drop_last()) || has_timing(ss.last())
    }
}

pub open spec fn any_item_timing(items: Seq<CaseItem>) -> bool
    decreases items,
{
    if items.len() == 0 {
        false
    } else {
        any_item_timing(items.drop_last()) || match items.last() {
            CaseItem::Match { body, .. } => has_timing(body),
            CaseItem::Default { body } => has_timing(body),
        }
    }
}

/// Does this statement (recursively) contain its own timing control?
/// Decides whether a bare `always` is a legal self-timed process.
#[verifier::loop_isolation(false)]
pub fn stmt_has_timing(s: &Stmt) -> (r: bool)
    ensures
        r == has_timing(*s),
    decreases s,
{
    match s {
        Stmt::DelayCtrl { .. } | Stmt::EventCtrl { .. } | Stmt::Wait { .. } | Stmt::WaitFork => true,
        Stmt::Block { stmts, .. } | Stmt::Fork { stmts } => {
            let mut i: usize = 0;
            assert(stmts@.take(0) =~= Seq::<Stmt>::empty());
            while i < stmts.len()
                invariant
                    i <= stmts@.len(),
                    forall|j: int| 0 <= j < stmts@.len() ==> decreases_to!(*s => #[trigger] stmts@[j]),
                    !any_timing(stmts@.take(i as int)),
                decreases stmts@.len() - i,
            {
                assert(stmts@.take(i as int + 1).drop_last() =~= stmts@.take(i as int));
                if stmt_has_timing(&stmts[i]) {
                    proof {
                        lemma_any_timing_prefix(stmts@, i as int + 1);
                    }
                    return true;
                }
                i += 1;
            }
            assert(stmts@.take(i as int) =~= stmts@);
            false
        },
        Stmt::If { then_s, else_s, .. } => {
            if stmt_has_timing(then_s) {
                return true;
            }
            match else_s {
                Some(e) => stmt_has_timing(e),
                None => false,
            }
        },
        Stmt::Case { items, .. } => {
            let mut i: usize = 0;
            assert(items@.take(0) =~= Seq::<CaseItem>::empty());
            while i < items.len()
                invariant
                    i <= items@.len(),
                    forall|j: int| 0 <= j < items@.len() ==> decreases_to!(*s => #[trigger] items@[j]),
                    !any_item_timing(items@.take(i as int)),
                decreases items@.len() - i,
            {
                assert(items@.take(i as int + 1).drop_last() =~= items@.take(i as int));
                let hit = match &items[i] {
                    CaseItem::Match { body, .. } => stmt_has_timing(body),
                    CaseItem::Default { body } => stmt_has_timing(body),
                };
                if hit {
                    proof {
                        lemma_any_item_timing_prefix(items@, i as int + 1);
                    }
                    return true;
                }
                i += 1;
            }
            assert(items@.take(i as int) =~= items@);
            false
        },
        Stmt::For { body } | Stmt::While { body, .. } | Stmt::Repeat { body, .. }
        | Stmt::Forever { body } => stmt_has_timing(body),
        _ => false,
    }
}

proof fn lemma_any_timing_prefix(ss: Seq<Stmt>, i: int)
    requires
        0 <= i <= ss.len(),
        any_timing(ss.take(i)),
    ensures
        any_timing(ss),
    decreases ss.len() - i,
{
    if i < ss.len() {
        assert(ss.take(i + 1).drop_last() =~= ss.take(i));
        lemma_any_timing_prefix(ss, i + 1);
    } else {
        assert(ss.take(i) =~= ss);
    }
}

proof fn lemma_any_item_timing_prefix(items: Seq<CaseItem>, i: int)
    requires
        0 <= i <= items.len(),
        any_item_timing(items.take(i)),
    ensures
        any_item_timing(items),
    decreases items.len() - i,
{
    if i < items.len() {
        assert(items.take(i + 1).drop_last() =~= items.take(i));
        lemma_any_item_timing_prefix(items, i + 1);
    } else {
        assert(items.take(i) =~= items);
    }
}

// ── straight-line bodies ─────────────────────────────────────────────────

/// Does a function body need a frame, i.e. is it NOT straight-line
/// (`Null`, blocking assignments and blocks of them)?
pub open spec fn needs_frame(s: Stmt) -> bool
    decreases s,
{
    match s {
        Stmt::Null | Stmt::Blocking { .. } => false,
        Stmt::Block { stmts, .. } => any_needs_frame(stmts@),
        _ => true,
    }
}

pub open spec fn any_needs_frame(ss: Seq<Stmt>) -> bool
    decreases ss,
{
    if ss.len() == 0 {
        false
    } else {
        any_needs_frame(ss.drop_last()) || needs_frame(ss.last())
    }
}

proof fn lemma_any_needs_frame_prefix(ss: Seq<Stmt>, i: int)
    requires
        0 <= i <= ss.len(),
        any_needs_frame(ss.take(i)),
    ensures
        any_needs_frame(ss),
    decreases ss.len() - i,
{
    if i < ss.len() {
        assert(ss.take(i + 1).drop_last() =~= ss.take(i));
        lemma_any_needs_frame_prefix(ss, i + 1);
    } else {
        assert(ss.take(i) =~= ss);
    }
}

/// B1 frame-call: does this function body need a frame (is it not
/// straight-line foldable by the inline path)?
#[verifier::loop_isolation(false)]
pub fn body_needs_frame(s: &Stmt) -> (r: bool)
    ensures
        r == needs_frame(*s),
    decreases s,
{
    match s {
        Stmt::Null | Stmt::Blocking { .. } => false,
        Stmt::Block { stmts, .. } => {
            let mut i: usize = 0;
            assert(stmts@.take(0) =~= Seq::<Stmt>::empty());
            while i < stmts.len()
                invariant
                    i <= stmts@.len(),
                    forall|j: int| 0 <= j < stmts@.len() ==> decreases_to!(*s => #[trigger] stmts@[j]),
                    !any_needs_frame(stmts@.take(i as int)),
                decreases stmts@.len() - i,
            {
                assert(stmts@.take(i as int + 1).drop_last() =~= stmts@.take(i as int));
                if body_needs_frame(&stmts[i]) {
                    proof {
                        lemma_any_needs_frame_prefix(stmts@, i as int + 1);
                    }
                    return true;
                }
                i += 1;
            }
            assert(stmts@.take(i as int) =~= stmts@);
            false
        },
        _ => true,
    }
}

// ── return statements ────────────────────────────────────────────────────

/// Does any statement of `s` lower a `return`?
pub open spec fn has_return(s: Stmt) -> bool
    decreases s,
{
    match s {
        Stmt::Return { .. } => true,
        Stmt::Block { stmts, .. } => any_return(stmts@),
        Stmt::Fork { stmts } => any_return(stmts@),
        Stmt::If { then_s, else_s, .. } => has_return(*then_s) || match else_s {
            Some(e) => has_return(*e),
            None => false,
        },
        Stmt::Case { items, .. } => any_item_return(items@),
        Stmt::For { body } => has_return(*body),
        Stmt::While { body, .. } => has_return(*body),
        Stmt::Repeat { body, .. } => has_return(*body),
        Stmt::Forever { body } => has_return(*body),
        _ => false,
    }
}

pub open spec fn any_return(ss: Seq<Stmt>) -> bool
    decreases ss,
{
    if ss.len() == 0 {
        false
    } else {
        any_return(ss.drop_last()) || has_return(ss.last())
    }
}

pub open spec fn any_item_return(items: Seq<CaseItem>) -> bool
    decreases items,
{
    if items.len() == 0 {
        false
    } else {
        any_item_return(items.drop_last()) || match items.last() {
            CaseItem::Match { body, .. } => has_return(body),
            CaseItem::Default { body } => has_return(body),
        }
    }
}

proof fn lemma_any_return_prefix(ss: Seq<Stmt>, i: int)
    requires
        0 <= i <= ss.len(),
        any_return(ss.take(i)),
    ensures
        any_return(ss),
    decreases ss.len() - i,
{
    if i < ss.len() {
        assert(ss.take(i + 1).drop_last() =~= ss.take(i));
        lemma_any_return_prefix(ss, i + 1);
    } else {
        assert(ss.take(i) =~= ss);
    }
}

proof fn lemma_any_item_return_prefix(items: Seq<CaseItem>, i: int)
    requires
        0 <= i <= items.len(),
        any_item_return(items.take(i)),
    ensures
        any_item_return(items),
    decreases items.len() - i,
{
    if i < items.len() {
        assert(items.take(i + 1).drop_last() =~= items.take(i));
        lemma_any_item_return_prefix(items, i + 1);
    } else {
        assert(items.take(i) =~= items);
    }
}

/// Does any statement in `s` lower a `return`? Gates the return-exit-block
/// setup, so a body without `return` keeps its exact prior lowering.
#[verifier::loop_isolation(false)]
pub fn body_has_return(s: &Stmt) -> (r: bool)
    ensures
        r == has_return(*s),
    decreases s,
{
    match s {
        Stmt::Return { .. } => true,
        Stmt::Block { stmts, .. } | Stmt::Fork { stmts } => {
            let mut i: usize = 0;
            assert(stmts@.take(0) =~= Seq::<Stmt>::empty());
            while i < stmts.len()
                invariant
                    i <= stmts@.len(),
                    forall|j: int| 0 <= j < stmts@.len() ==> decreases_to!(*s => #[trigger] stmts@[j]),
                    !any_return(stmts@.take(i as int)),
                decreases stmts@.len() - i,
            {
                assert(stmts@.take(i as int + 1).drop_last() =~= stmts@.take(i as int));
                if body_has_return(&stmts[i]) {
                    proof {
                        lemma_any_return_prefix(stmts@, i as int + 1);
                    }
                    return true;
                }
                i += 1;
            }
            assert(stmts@.take(i as int) =~= stmts@);
            false
        },
        Stmt::If { then_s, else_s, .. } => {
            if body_has_return(then_s) {
                return true;
            }
            match else_s {
                Some(e) => body_has_return(e),
                None => false,
            }
        },
        Stmt::Case { items, .. } => {
            let mut i: usize = 0;
            assert(items@.take(0) =~= Seq::<CaseItem>::empty());
            while i < items.len()
                invariant
                    i <= items@.len(),
                    forall|j: int| 0 <= j < items@.len() ==> decreases_to!(*s => #[trigger] items@[j]),
                    !any_item_return(items@.take(i as int)),
                decreases items@.len() - i,
            {
                assert(items@.take(i as int + 1).drop_last() =~= items@.take(i as int));
                let hit = match &items[i] {
                    CaseItem::Match { body, .. } => body_has_return(body),
                    CaseItem::Default { body } => body_has_return(body),
                };
                if hit {
                    proof {
                        lemma_any_item_return_prefix(items@, i as int + 1);
                    }
                    return true;
                }
                i += 1;
            }
            assert(items@.take(i as int) =~= items@);
            false
        },
        Stmt::For { body } | Stmt::While { body, .. } | Stmt::Repeat { body, .. }
        | Stmt::Forever { body } => body_has_return(body),
        _ => false,
    }
}

// ── reads of a straight-line body ────────────────────────────────────────

/// Does `e` read only names in `locals` (and call no user function)? Every
/// form not proven local-only answers `false`.
pub open spec fn reads_only(e: Expr, locals: spec_fn(Seq<char>) -> bool) -> bool
    decreases e,
{
    match e {
        Expr::IntLit(_) | Expr::RealLit | Expr::StrLit | Expr::Null | Expr::Dollar => true,
        Expr::Ident(p) => p.segments@.len() == 1 && locals(p.segments@[0]@),
        Expr::Paren(inner) => reads_only(*inner, locals),
        Expr::Unary { operand, .. } => reads_only(*operand, locals),
        Expr::Binary { lhs, rhs, .. } => reads_only(*lhs, locals) && reads_only(*rhs, locals),
        Expr::Ternary { cond, then_e, else_e } => reads_only(*cond, locals) && reads_only(
            *then_e,
            locals,
        ) && reads_only(*else_e, locals),
        Expr::BitSelect { base, index } => reads_only(*base, locals) && reads_only(*index, locals),
        Expr::PartSelect { base, msb, lsb } => reads_only(*base, locals) && reads_only(*msb, locals)
            && reads_only(*lsb, locals),
        Expr::IndexedPart { base, offset, width, .. } => reads_only(*base, locals) && reads_only(
            *offset,
            locals,
        ) && reads_only(*width, locals),
        Expr::Concat(parts) => all_read_only(parts@, locals),
        Expr::Replicate { count, value } => reads_only(*count, locals) && all_read_only(
            value@,
            locals,
        ),
        Expr::SysCall { args, .. } => all_read_only(args@, locals),
        Expr::Cast { expr, .. } => reads_only(*expr, locals),
        _ => false,
    }
}

pub open spec fn all_read_only(es: Seq<Expr>, locals: spec_fn(Seq<char>) -> bool) -> bool
    decreases es,
{
    if es.len() == 0 {
        true
    } else {
        all_read_only(es.drop_last(), locals) && reads_only(es.last(), locals)
    }
}

proof fn lemma_all_read_only_prefix(es: Seq<Expr>, i: int, locals: spec_fn(Seq<char>) -> bool)
    requires
        0 <= i <= es.len(),
        !all_read_only(es.take(i), locals),
    ensures
        !all_read_only(es, locals),
    decreases es.len() - i,
{
    if i < es.len() {
        assert(es.take(i + 1).drop_last() =~= es.take(i));
        lemma_all_read_only_prefix(es, i + 1, locals);
    } else {
        assert(es.take(i) =~= es);
    }
}

/// Do all of `es` read only local names?
#[verifier::loop_isolation(false)]
fn exprs_read_only_locals(es: &Vec<Expr>, locals: &Vec<String>, Ghost(whole): Ghost<Expr>) -> (r: bool)
    requires
        forall|j: int| 0 <= j < es@.len() ==> decreases_to!(whole => #[trigger] es@[j]),
    ensures
        r == all_read_only(es@, |k: Seq<char>| has_name(locals@, k)),
    decreases whole, 0nat,
{
    let mut i: usize = 0;
    assert(es@.take(0) =~= Seq::<Expr>::empty());
    while i < es.len()
        invariant
            i <= es@.len(),
            all_read_only(es@.take(i as int), |k: Seq<char>| has_name(locals@, k)),
        decreases es@.len() - i,
    {
        assert(es@.take(i as int + 1).drop_last() =~= es@.take(i as int));
        if !expr_reads_only_locals(&es[i], locals) {
            proof {
                lemma_all_read_only_prefix(es@, i as int + 1, |k: Seq<char>| has_name(locals@, k));
            }
            return false;
        }
        i += 1;
    }
    assert(es@.take(i as int) =~= es@);
    true
}

/// Does `e` read only local names (and no user function call)? Fails closed
/// on every form not proven read-local.
pub fn expr_reads_only_locals(e: &Expr, locals: &Vec<String>) -> (r: bool)
    ensures
        r == reads_only(*e, |k: Seq<char>| has_name(locals@, k)),
    decreases *e, 1nat,
{
    match e {
        Expr::IntLit(_) | Expr::RealLit | Expr::StrLit | Expr::Null | Expr::Dollar => true,
        Expr::Ident(p) => p.segments.len() == 1 && contains_name(locals, &p.segments[0]),
        Expr::Paren(inner) => expr_reads_only_locals(inner, locals),
        Expr::Unary { operand, .. } => expr_reads_only_locals(operand, locals),
        Expr::Binary { lhs, rhs, .. } => expr_reads_only_locals(lhs, locals)
            && expr_reads_only_locals(rhs, locals),
        Expr::Ternary { cond, then_e, else_e } => expr_reads_only_locals(cond, locals)
            && expr_reads_only_locals(then_e, locals) && expr_reads_only_locals(else_e, locals),
        Expr::BitSelect { base, index } => expr_reads_only_locals(base, locals)
            && expr_reads_only_locals(index, locals),
        Expr::PartSelect { base, msb, lsb } => expr_reads_only_locals(base, locals)
            && expr_reads_only_locals(msb, locals) && expr_reads_only_locals(lsb, locals),
        Expr::IndexedPart { base, offset, width, .. } => expr_reads_only_locals(base, locals)
            && expr_reads_only_locals(offset, locals) && expr_reads_only_locals(width, locals),
        Expr::Concat(parts) => {
            proof {
                assert forall|j: int| 0 <= j < parts@.len() implies decreases_to!(*e => #[trigger] parts@[j]) by {
                    assert(decreases_to!(*e => parts@[j]));
                }
            }
            exprs_read_only_locals(parts, locals, Ghost(*e))
        },
        Expr::Replicate { count, value } => {
            if !expr_reads_only_locals(count, locals) {
                return false;
            }
            proof {
                assert forall|j: int| 0 <= j < value@.len() implies decreases_to!(*e => #[trigger] value@[j]) by {
                    assert(decreases_to!(*e => value@[j]));
                }
            }
            exprs_read_only_locals(value, locals, Ghost(*e))
        },
        Expr::SysCall { args, .. } => {
            proof {
                assert forall|j: int| 0 <= j < args@.len() implies decreases_to!(*e => #[trigger] args@[j]) by {
                    assert(decreases_to!(*e => args@[j]));
                }
            }
            exprs_read_only_locals(args, locals, Ghost(*e))
        },
        Expr::Cast { expr, .. } => expr_reads_only_locals(expr, locals),
        _ => false,
    }
}

/// A target is local-only iff it is a plain single-segment local name.
pub open spec fn lvalue_reads_only(lv: Lvalue, locals: spec_fn(Seq<char>) -> bool) -> bool {
    match lv {
        Lvalue::Ident(p) => p.segments@.len() == 1 && locals(p.segments@[0]@),
        _ => false,
    }
}

pub fn lvalue_reads_only_locals(lv: &Lvalue, locals: &Vec<String>) -> (r: bool)
    ensures
        r == lvalue_reads_only(*lv, |k: Seq<char>| has_name(locals@, k)),
{
    match lv {
        Lvalue::Ident(p) => p.segments.len() == 1 && contains_name(locals, &p.segments[0]),
        _ => false,
    }
}

/// A straight-line body reads only locals: blocks of blocking assignments of
/// local-only right-hand sides to plain local names. Anything else fails
/// closed.
pub open spec fn stmt_reads_only(s: Stmt, locals: spec_fn(Seq<char>) -> bool) -> bool
    decreases s,
{
    match s {
        Stmt::Block { stmts, .. } => all_stmts_read_only(stmts@, locals),
        Stmt::Blocking { lhs, rhs, .. } => lvalue_reads_only(lhs, locals) && reads_only(rhs, locals),
        _ => false,
    }
}

pub open spec fn all_stmts_read_only(ss: Seq<Stmt>, locals: spec_fn(Seq<char>) -> bool) -> bool
    decreases ss,
{
    if ss.len() == 0 {
        true
    } else {
        all_stmts_read_only(ss.drop_last(), locals) && stmt_reads_only(ss.last(), locals)
    }
}

proof fn lemma_all_stmts_read_only_prefix(ss: Seq<Stmt>, i: int, locals: spec_fn(Seq<char>) -> bool)
    requires
        0 <= i <= ss.len(),
        !all_stmts_read_only(ss.take(i), locals),
    ensures
        !all_stmts_read_only(ss, locals),
    decreases ss.len() - i,
{
    if i < ss.len() {
        assert(ss.take(i + 1).drop_last() =~= ss.take(i));
        lemma_all_stmts_read_only_prefix(ss, i + 1, locals);
    } else {
        assert(ss.take(i) =~= ss);
    }
}

/// Straight-line-body walker for [`body_reads_only_locals`].
#[verifier::loop_isolation(false)]
pub fn stmt_reads_only_locals(s: &Stmt, locals: &Vec<String>) -> (r: bool)
    ensures
        r == stmt_reads_only(*s, |k: Seq<char>| has_name(locals@, k)),
    decreases s,
{
    match s {
        Stmt::Block { stmts, .. } => {
            let mut i: usize = 0;
            assert(stmts@.take(0) =~= Seq::<Stmt>::empty());
            while i < stmts.len()
                invariant
                    i <= stmts@.len(),
                    forall|j: int| 0 <= j < stmts@.len() ==> decreases_to!(*s => #[trigger] stmts@[j]),
                    all_stmts_read_only(stmts@.take(i as int), |k: Seq<char>| has_name(locals@, k)),
                decreases stmts@.len() - i,
            {
                assert(stmts@.take(i as int + 1).drop_last() =~= stmts@.take(i as int));
                if !stmt_reads_only_locals(&stmts[i], locals) {
                    proof {
                        lemma_all_stmts_read_only_prefix(
                            stmts@,
                            i as int + 1,
                            |k: Seq<char>| has_name(locals@, k),
                        );
                    }
                    return false;
                }
                i += 1;
            }
            assert(stmts@.take(i as int) =~= stmts@);
            true
        },
        Stmt::Blocking { lhs, rhs, .. } => lvalue_reads_only_locals(lhs, locals)
            && expr_reads_only_locals(rhs, locals),
        _ => false,
    }
}

// ── selects of named bases ───────────────────────────────────────────────

/// `b` is a name whose first segment is in `names`.
pub open spec fn named_base(b: Expr, names: spec_fn(Seq<char>) -> bool) -> bool {
    match b {
        Expr::Ident(p) => p.segments@.len() > 0 && names(p.segments@[0]@),
        _ => false,
    }
}

/// Does `e` hold a bit/part/indexed select whose base is a name in `names`?
pub open spec fn selects_name(e: Expr, names: spec_fn(Seq<char>) -> bool) -> bool
    decreases e,
{
    match e {
        Expr::BitSelect { base, index } => named_base(*base, names) || selects_name(*base, names)
            || selects_name(*index, names),
        Expr::PartSelect { base, msb, lsb } => named_base(*base, names) || selects_name(*base, names)
            || selects_name(*msb, names) || selects_name(*lsb, names),
        Expr::IndexedPart { base, offset, width, .. } => named_base(*base, names) || selects_name(
            *base,
            names,
        ) || selects_name(*offset, names) || selects_name(*width, names),
        Expr::Unary { operand, .. } => selects_name(*operand, names),
        Expr::Binary { lhs, rhs, .. } => selects_name(*lhs, names) || selects_name(*rhs, names),
        Expr::Ternary { cond, then_e, else_e } => selects_name(*cond, names) || selects_name(
            *then_e,
            names,
        ) || selects_name(*else_e, names),
        Expr::Concat(parts) => any_selects(parts@, names),
        Expr::Replicate { count, value } => selects_name(*count, names) || any_selects(value@, names),
        Expr::Call { args, .. } => any_selects(args@, names),
        Expr::SysCall { args, .. } => any_selects(args@, names),
        Expr::Paren(inner) => selects_name(*inner, names),
        Expr::MinTypMax { min, typ, max } => selects_name(*min, names) || selects_name(*typ, names)
            || selects_name(*max, names),
        Expr::Cast { target, expr } => selects_name(*expr, names) || match target {
            CastTarget::Size(sz) => selects_name(*sz, names),
            _ => false,
        },
        _ => false,
    }
}

pub open spec fn any_selects(es: Seq<Expr>, names: spec_fn(Seq<char>) -> bool) -> bool
    decreases es,
{
    if es.len() == 0 {
        false
    } else {
        any_selects(es.drop_last(), names) || selects_name(es.last(), names)
    }
}

proof fn lemma_any_selects_prefix(es: Seq<Expr>, i: int, names: spec_fn(Seq<char>) -> bool)
    requires
        0 <= i <= es.len(),
        any_selects(es.take(i), names),
    ensures
        any_selects(es, names),
    decreases es.len() - i,
{
    if i < es.len() {
        assert(es.take(i + 1).drop_last() =~= es.take(i));
        lemma_any_selects_prefix(es, i + 1, names);
    } else {
        assert(es.take(i) =~= es);
    }
}

fn is_named_base(b: &Expr, names: &Vec<String>) -> (r: bool)
    ensures
        r == named_base(*b, |k: Seq<char>| has_name(names@, k)),
{
    match b {
        Expr::Ident(p) => p.segments.len() > 0 && contains_name(names, &p.segments[0]),
        _ => false,
    }
}

#[verifier::loop_isolation(false)]
fn exprs_select_name(es: &Vec<Expr>, names: &Vec<String>, Ghost(whole): Ghost<Expr>) -> (r: bool)
    requires
        forall|j: int| 0 <= j < es@.len() ==> decreases_to!(whole => #[trigger] es@[j]),
    ensures
        r == any_selects(es@, |k: Seq<char>| has_name(names@, k)),
    decreases whole, 0nat,
{
    let mut i: usize = 0;
    assert(es@.take(0) =~= Seq::<Expr>::empty());
    while i < es.len()
        invariant
            i <= es@.len(),
            !any_selects(es@.take(i as int), |k: Seq<char>| has_name(names@, k)),
        decreases es@.len() - i,
    {
        assert(es@.take(i as int + 1).drop_last() =~= es@.take(i as int));
        if expr_selects_name(&es[i], names) {
            proof {
                lemma_any_selects_prefix(es@, i as int + 1, |k: Seq<char>| has_name(names@, k));
            }
            return true;
        }
        i += 1;
    }
    assert(es@.take(i as int) =~= es@);
    false
}

/// True if `e` contains a bit/part/indexed select whose base is a bare name
/// in `names`. Recurses every operand position.
pub fn expr_selects_name(e: &Expr, names: &Vec<String>) -> (r: bool)
    ensures
        r == selects_name(*e, |k: Seq<char>| has_name(names@, k)),
    decreases *e, 1nat,
{
    match e {
        Expr::BitSelect { base, index } => is_named_base(base, names) || expr_selects_name(base, names)
            || expr_selects_name(index, names),
        Expr::PartSelect { base, msb, lsb } => is_named_base(base, names) || expr_selects_name(
            base,
            names,
        ) || expr_selects_name(msb, names) || expr_selects_name(lsb, names),
        Expr::IndexedPart { base, offset, width, .. } => is_named_base(base, names)
            || expr_selects_name(base, names) || expr_selects_name(offset, names)
            || expr_selects_name(width, names),
        Expr::Unary { operand, .. } => expr_selects_name(operand, names),
        Expr::Binary { lhs, rhs, .. } => expr_selects_name(lhs, names) || expr_selects_name(
            rhs,
            names,
        ),
        Expr::Ternary { cond, then_e, else_e } => expr_selects_name(cond, names)
            || expr_selects_name(then_e, names) || expr_selects_name(else_e, names),
        Expr::Concat(parts) => {
            proof {
                assert forall|j: int| 0 <= j < parts@.len() implies decreases_to!(*e => #[trigger] parts@[j]) by {
                    assert(decreases_to!(*e => parts@[j]));
                }
            }
            exprs_select_name(parts, names, Ghost(*e))
        },
        Expr::Replicate { count, value } => {
            if expr_selects_name(count, names) {
                return true;
            }
            proof {
                assert forall|j: int| 0 <= j < value@.len() implies decreases_to!(*e => #[trigger] value@[j]) by {
                    assert(decreases_to!(*e => value@[j]));
                }
            }
            exprs_select_name(value, names, Ghost(*e))
        },
        Expr::Call { args, .. } | Expr::SysCall { args, .. } => {
            proof {
                assert forall|j: int| 0 <= j < args@.len() implies decreases_to!(*e => #[trigger] args@[j]) by {
                    assert(decreases_to!(*e => args@[j]));
                }
            }
            exprs_select_name(args, names, Ghost(*e))
        },
        Expr::Paren(inner) => expr_selects_name(inner, names),
        Expr::MinTypMax { min, typ, max } => expr_selects_name(min, names) || expr_selects_name(
            typ,
            names,
        ) || expr_selects_name(max, names),
        Expr::Cast { target, expr } => {
            if expr_selects_name(expr, names) {
                return true;
            }
            match target {
                CastTarget::Size(sz) => expr_selects_name(sz, names),
                _ => false,
            }
        },
        _ => false,
    }
}

/// A straight-line body reads `<name>[…]` for a name in `names` on some
/// right-hand side.
pub open spec fn stmt_selects(s: Stmt, names: spec_fn(Seq<char>) -> bool) -> bool
    decreases s,
{
    match s {
        Stmt::Block { stmts, .. } => any_stmt_selects(stmts@, names),
        Stmt::Blocking { rhs, .. } => selects_name(rhs, names),
        _ => false,
    }
}

pub open spec fn any_stmt_selects(ss: Seq<Stmt>, names: spec_fn(Seq<char>) -> bool) -> bool
    decreases ss,
{
    if ss.len() == 0 {
        false
    } else {
        any_stmt_selects(ss.drop_last(), names) || stmt_selects(ss.last(), names)
    }
}

proof fn lemma_any_stmt_selects_prefix(ss: Seq<Stmt>, i: int, names: spec_fn(Seq<char>) -> bool)
    requires
        0 <= i <= ss.len(),
        any_stmt_selects(ss.take(i), names),
    ensures
        any_stmt_selects(ss, names),
    decreases ss.len() - i,
{
    if i < ss.len() {
        assert(ss.take(i + 1).drop_last() =~= ss.take(i));
        lemma_any_stmt_selects_prefix(ss, i + 1, names);
    } else {
        assert(ss.take(i) =~= ss);
    }
}

/// Straight-line-body walker for [`body_selects_mdpacked_local`].
#[verifier::loop_isolation(false)]
pub fn stmt_selects_name(s: &Stmt, names: &Vec<String>) -> (r: bool)
    ensures
        r == stmt_selects(*s, |k: Seq<char>| has_name(names@, k)),
    decreases s,
{
    match s {
        Stmt::Block { stmts, .. } => {
            let mut i: usize = 0;
            assert(stmts@.take(0) =~= Seq::<Stmt>::empty());
            while i < stmts.len()
                invariant
                    i <= stmts@.len(),
                    forall|j: int| 0 <= j < stmts@.len() ==> decreases_to!(*s => #[trigger] stmts@[j]),
                    !any_stmt_selects(stmts@.take(i as int), |k: Seq<char>| has_name(names@, k)),
                decreases stmts@.len() - i,
            {
                assert(stmts@.take(i as int + 1).drop_last() =~= stmts@.take(i as int));
                if stmt_selects_name(&stmts[i], names) {
                    proof {
                        lemma_any_stmt_selects_prefix(
                            stmts@,
                            i as int + 1,
                            |k: Seq<char>| has_name(names@, k),
                        );
                    }
                    return true;
                }
                i += 1;
            }
            assert(stmts@.take(i as int) =~= stmts@);
            false
        },
        Stmt::Blocking { rhs, .. } => expr_selects_name(rhs, names),
        _ => false,
    }
}

// ── block-local declarations ─────────────────────────────────────────────

/// Does declaration `d` declare `k` (and, under `packed_only`, with a second
/// packed dimension)?
pub open spec fn decl_has(d: NetVarDecl, k: Seq<char>, packed_only: bool) -> bool {
    (!packed_only || d.packed@.len() > 0) && exists|j: int|
        0 <= j < d.names@.len() && #[trigger] d.names@[j].name@ == k
}

/// Does one of `ds` declare `k`?
pub open spec fn decls_have(ds: Seq<NetVarDecl>, k: Seq<char>, packed_only: bool) -> bool {
    exists|i: int| 0 <= i < ds.len() && decl_has(#[trigger] ds[i], k, packed_only)
}

/// Is `k` declared by a `begin … end` block somewhere inside `s`?
pub open spec fn block_local(s: Stmt, k: Seq<char>, packed_only: bool) -> bool
    decreases s,
{
    match s {
        Stmt::Block { decls, stmts } => decls_have(decls@, k, packed_only) || any_block_local(
            stmts@,
            k,
            packed_only,
        ),
        Stmt::Fork { stmts } => any_block_local(stmts@, k, packed_only),
        Stmt::If { then_s, else_s, .. } => block_local(*then_s, k, packed_only) || match else_s {
            Some(e) => block_local(*e, k, packed_only),
            None => false,
        },
        Stmt::Case { items, .. } => any_item_block_local(items@, k, packed_only),
        Stmt::For { body } => block_local(*body, k, packed_only),
        Stmt::While { body, .. } => block_local(*body, k, packed_only),
        Stmt::Repeat { body, .. } => block_local(*body, k, packed_only),
        Stmt::Forever { body } => block_local(*body, k, packed_only),
        Stmt::DelayCtrl { body } => match body {
            Some(b) => block_local(*b, k, packed_only),
            None => false,
        },
        Stmt::EventCtrl { body } => match body {
            Some(b) => block_local(*b, k, packed_only),
            None => false,
        },
        Stmt::Wait { body, .. } => match body {
            Some(b) => block_local(*b, k, packed_only),
            None => false,
        },
        _ => false,
    }
}

pub open spec fn any_block_local(ss: Seq<Stmt>, k: Seq<char>, packed_only: bool) -> bool
    decreases ss,
{
    if ss.len() == 0 {
        false
    } else {
        any_block_local(ss.drop_last(), k, packed_only) || block_local(ss.last(), k, packed_only)
    }
}

pub open spec fn any_item_block_local(items: Seq<CaseItem>, k: Seq<char>, packed_only: bool) -> bool
    decreases items,
{
    if items.len() == 0 {
        false
    } else {
        any_item_block_local(items.drop_last(), k, packed_only) || match items.last() {
            CaseItem::Match { body, .. } => block_local(body, k, packed_only),
            CaseItem::Default { body } => block_local(body, k, packed_only),
        }
    }
}

/// Append the names `d` declares (only if it has a second packed dimension,
/// under `packed_only`).
fn push_decl_names(d: &NetVarDecl, packed_only: bool, out: &mut Vec<String>)
    ensures
        forall|k: Seq<char>|
            #[trigger] has_name(final(out)@, k) <==> (has_name(old(out)@, k) || decl_has(
                *d,
                k,
                packed_only,
            )),
{
    if packed_only && d.packed.len() == 0 {
        return;
    }
    let mut j: usize = 0;
    while j < d.names.len()
        invariant
            j <= d.names@.len(),
            !packed_only || d.packed@.len() > 0,
            forall|k: Seq<char>|
                #[trigger] has_name(out@, k) <==> (has_name(old(out)@, k) || exists|jj: int|
                    0 <= jj < j && #[trigger] d.names@[jj].name@ == k),
        decreases d.names@.len() - j,
    {
        let ghost before = out@;
        let n = d.names[j].name.clone();
        out.push(n);
        proof {
            assert forall|k: Seq<char>|
                #[trigger] has_name(out@, k) <==> (has_name(old(out)@, k) || exists|jj: int|
                    0 <= jj < j + 1 && #[trigger] d.names@[jj].name@ == k) by {
                lemma_has_name_push(before, n, k);
                if d.names@[j as int].name@ == k {
                    assert(0 <= j < j + 1 && d.names@[j as int].name@ == k);
                }
                if exists|jj: int| 0 <= jj < j + 1 && #[trigger] d.names@[jj].name@ == k {
                    let jj = choose|jj: int| 0 <= jj < j + 1 && #[trigger] d.names@[jj].name@ == k;
                    if jj < j {
                        assert(0 <= jj < j && d.names@[jj].name@ == k);
                    }
                }
            }
        }
        j += 1;
    }
}

/// Append the names all of `ds` declare.
fn push_decls_names(ds: &Vec<NetVarDecl>, packed_only: bool, out: &mut Vec<String>)
    ensures
        forall|k: Seq<char>|
            #[trigger] has_name(final(out)@, k) <==> (has_name(old(out)@, k) || decls_have(
                ds@,
                k,
                packed_only,
            )),
{
    let mut i: usize = 0;
    while i < ds.len()
        invariant
            i <= ds@.len(),
            forall|k: Seq<char>|
                #[trigger] has_name(out@, k) <==> (has_name(old(out)@, k) || exists|ii: int|
                    0 <= ii < i && decl_has(#[trigger] ds@[ii], k, packed_only)),
        decreases ds@.len() - i,
    {
        push_decl_names(&ds[i], packed_only, out);
        proof {
            assert forall|k: Seq<char>|
                #[trigger] has_name(out@, k) <==> (has_name(old(out)@, k) || exists|ii: int|
                    0 <= ii < i + 1 && decl_has(#[trigger] ds@[ii], k, packed_only)) by {
                if decl_has(ds@[i as int], k, packed_only) {
                    assert(0 <= i < i + 1 && decl_has(ds@[i as int], k, packed_only));
                }
                if exists|ii: int| 0 <= ii < i + 1 && decl_has(#[trigger] ds@[ii], k, packed_only) {
                    let ii = choose|ii: int| 0 <= ii < i + 1 && decl_has(#[trigger] ds@[ii], k, packed_only);
                    if ii < i {
                        assert(0 <= ii < i && decl_has(ds@[ii], k, packed_only));
                    }
                }
            }
        }
        i += 1;
    }
}

/// Collect the names declared by `begin … end` blocks inside `s` (only
/// those with a second packed dimension, under `packed_only`).
#[verifier::loop_isolation(false)]
pub fn collect_block_local_names(s: &Stmt, packed_only: bool, out: &mut Vec<String>)
    ensures
        forall|k: Seq<char>|
            #[trigger] has_name(final(out)@, k) <==> (has_name(old(out)@, k) || block_local(
                *s,
                k,
                packed_only,
            )),
    decreases s,
{
    match s {
        Stmt::Block { decls, stmts } => {
            push_decls_names(decls, packed_only, out);
            collect_stmts_names(stmts, packed_only, out, Ghost(*s));
        },
        Stmt::Fork { stmts } => {
            collect_stmts_names(stmts, packed_only, out, Ghost(*s));
        },
        Stmt::If { then_s, else_s, .. } => {
            collect_block_local_names(then_s, packed_only, out);
            match else_s {
                Some(e) => collect_block_local_names(e, packed_only, out),
                None => {},
            }
        },
        Stmt::Case { items, .. } => {
            let mut i: usize = 0;
            let ghost start = out@;
            assert(items@.take(0) =~= Seq::<CaseItem>::empty());
            while i < items.len()
                invariant
                    i <= items@.len(),
                    forall|j: int| 0 <= j < items@.len() ==> decreases_to!(*s => #[trigger] items@[j]),
                    forall|k: Seq<char>|
                        #[trigger] has_name(out@, k) <==> (has_name(start, k) || any_item_block_local(
                            items@.take(i as int),
                            k,
                            packed_only,
                        )),
                decreases items@.len() - i,
            {
                assert(items@.take(i as int + 1).drop_last() =~= items@.take(i as int));
                match &items[i] {
                    CaseItem::Match { body, .. } => collect_block_local_names(body, packed_only, out),
                    CaseItem::Default { body } => collect_block_local_names(body, packed_only, out),
                }
                i += 1;
            }
            assert(items@.take(i as int) =~= items@);
        },
        Stmt::For { body } | Stmt::While { body, .. } | Stmt::Repeat { body, .. }
        | Stmt::Forever { body } => collect_block_local_names(body, packed_only, out),
        Stmt::DelayCtrl { body } | Stmt::EventCtrl { body } | Stmt::Wait { body, .. } => {
            match body {
                Some(b) => collect_block_local_names(b, packed_only, out),
                None => {},
            }
        },
        _ => {},
    }
}

#[verifier::loop_isolation(false)]
fn collect_stmts_names(
    stmts: &Vec<Stmt>,
    packed_only: bool,
    out: &mut Vec<String>,
    Ghost(whole): Ghost<Stmt>,
)
    requires
        forall|j: int| 0 <= j < stmts@.len() ==> decreases_to!(whole => #[trigger] stmts@[j]),
    ensures
        forall|k: Seq<char>|
            #[trigger] has_name(final(out)@, k) <==> (has_name(old(out)@, k) || any_block_local(
                stmts@,
                k,
                packed_only,
            )),
    decreases whole, 0nat,
{
    let mut i: usize = 0;
    assert(stmts@.take(0) =~= Seq::<Stmt>::empty());
    while i < stmts.len()
        invariant
            i <= stmts@.len(),
            forall|k: Seq<char>|
                #[trigger] has_name(out@, k) <==> (has_name(old(out)@, k) || any_block_local(
                    stmts@.take(i as int),
                    k,
                    packed_only,
                )),
        decreases stmts@.len() - i,
    {
        assert(stmts@.take(i as int + 1).drop_last() =~= stmts@.take(i as int));
        collect_block_local_names(&stmts[i], packed_only, out);
        i += 1;
    }
    assert(stmts@.take(i as int) =~= stmts@);
}

// ── a function's own names ───────────────────────────────────────────────

/// A name the function body may read as its own: a formal, a body or
/// block-local declaration, or the return variable.
pub open spec fn is_fn_local(f: FunctionDef, k: Seq<char>) -> bool {
    (exists|i: int| 0 <= i < f.ports@.len() && #[trigger] f.ports@[i].name@ == k) || decls_have(
        f.body_decls@,
        k,
        false,
    ) || block_local(f.body, k, false) || f.name@ == k
}

/// The multi-dimensional packed locals of a function (body or block-local).
pub open spec fn is_mdpacked_local(f: FunctionDef, k: Seq<char>) -> bool {
    decls_have(f.body_decls@, k, true) || block_local(f.body, k, true)
}

fn push_port_names(ports: &Vec<TfPort>, out: &mut Vec<String>)
    ensures
        forall|k: Seq<char>|
            #[trigger] has_name(final(out)@, k) <==> (has_name(old(out)@, k) || exists|i: int|
                0 <= i < ports@.len() && #[trigger] ports@[i].name@ == k),
{
    let mut i: usize = 0;
    while i < ports.len()
        invariant
            i <= ports@.len(),
            forall|k: Seq<char>|
                #[trigger] has_name(out@, k) <==> (has_name(old(out)@, k) || exists|ii: int|
                    0 <= ii < i && #[trigger] ports@[ii].name@ == k),
        decreases ports@.len() - i,
    {
        let ghost before = out@;
        let n = ports[i].name.clone();
        out.push(n);
        proof {
            assert forall|k: Seq<char>|
                #[trigger] has_name(out@, k) <==> (has_name(old(out)@, k) || exists|ii: int|
                    0 <= ii < i + 1 && #[trigger] ports@[ii].name@ == k) by {
                lemma_has_name_push(before, n, k);
                if ports@[i as int].name@ == k {
                    assert(0 <= i < i + 1 && ports@[i as int].name@ == k);
                }
                if exists|ii: int| 0 <= ii < i + 1 && #[trigger] ports@[ii].name@ == k {
                    let ii = choose|ii: int| 0 <= ii < i + 1 && #[trigger] ports@[ii].name@ == k;
                    if ii < i {
                        assert(0 <= ii < i && ports@[ii].name@ == k);
                    }
                }
            }
        }
        i += 1;
    }
}

/// Is a STATIC function body self-contained — reading only its own formals,
/// (block-)locals and return variable, and calling no other user function?
pub fn body_reads_only_locals(f: &FunctionDef) -> (r: bool)
    ensures
        r == stmt_reads_only(f.body, |k: Seq<char>| is_fn_local(*f, k)),
{
    let mut locals: Vec<String> = Vec::new();
    push_port_names(&f.ports, &mut locals);
    push_decls_names(&f.body_decls, false, &mut locals);
    collect_block_local_names(&f.body, false, &mut locals);
    let ghost before = locals@;
    let n = f.name.clone();
    locals.push(n);
    proof {
        assert forall|k: Seq<char>| #[trigger] has_name(locals@, k) <==> is_fn_local(*f, k) by {
            lemma_has_name_push(before, n, k);
        }
        assert((|k: Seq<char>| has_name(locals@, k)) =~= (|k: Seq<char>| is_fn_local(*f, k)));
    }
    stmt_reads_only_locals(&f.body, &locals)
}

/// Does the function body ELEMENT-SELECT a multi-dimensional packed local on
/// some right-hand side (a select the inline substitution would read as a
/// bit)?
pub open spec fn selects_mdpacked(f: FunctionDef) -> bool {
    (exists|k: Seq<char>| is_mdpacked_local(f, k)) && stmt_selects(
        f.body,
        |k: Seq<char>| is_mdpacked_local(f, k),
    )
}

pub fn body_selects_mdpacked_local(f: &FunctionDef) -> (r: bool)
    ensures
        r == selects_mdpacked(*f),
{
    let mut names: Vec<String> = Vec::new();
    push_decls_names(&f.body_decls, true, &mut names);
    collect_block_local_names(&f.body, true, &mut names);
    proof {
        assert forall|k: Seq<char>| #[trigger] has_name(names@, k) <==> is_mdpacked_local(*f, k) by {
        }
        assert((|k: Seq<char>| has_name(names@, k)) =~= (|k: Seq<char>| is_mdpacked_local(*f, k)));
    }
    if names.len() == 0 {
        proof {
            assert forall|k: Seq<char>| !is_mdpacked_local(*f, k) by {
                assert(!has_name(names@, k));
            }
        }
        return false;
    }
    proof {
        assert(has_name(names@, names@[0]@));
        assert(is_mdpacked_local(*f, names@[0]@));
    }
    stmt_selects_name(&f.body, &names)
}

// ── call sites under operators ───────────────────────────────────────────

/// The calls of `e` that sit under unary, binary and ternary operators,
/// parentheses and concatenations, in source order; a call is taken whole
/// (its arguments are not searched).
pub open spec fn call_sites(e: Expr) -> Seq<Expr>
    decreases e,
{
    match e {
        Expr::Call { .. } => seq![e],
        Expr::Unary { operand, .. } => call_sites(*operand),
        Expr::Paren(x) => call_sites(*x),
        Expr::Binary { lhs, rhs, .. } => call_sites(*lhs) + call_sites(*rhs),
        Expr::Ternary { cond, then_e, else_e } => call_sites(*cond) + call_sites(*then_e) + call_sites(*else_e),
        Expr::Concat(parts) => call_sites_all(parts@),
        _ => Seq::empty(),
    }
}

pub open spec fn call_sites_all(es: Seq<Expr>) -> Seq<Expr>
    decreases es,
{
    if es.len() == 0 {
        Seq::empty()
    } else {
        call_sites_all(es.drop_last()) + call_sites(es.last())
    }
}

/// `new` is `old` followed by copies of `s`.
pub open spec fn appended_copies(old: Seq<Expr>, new: Seq<Expr>, s: Seq<Expr>) -> bool {
    &&& new.len() == old.len() + s.len()
    &&& new.take(old.len() as int) == old
    &&& forall|i: int| 0 <= i < s.len() ==> #[trigger] same_expr(s[i], new[old.len() + i])
}

proof fn lemma_appended_trans(a: Seq<Expr>, b: Seq<Expr>, c: Seq<Expr>, s: Seq<Expr>, t: Seq<Expr>)
    requires
        appended_copies(a, b, s),
        appended_copies(b, c, t),
    ensures
        appended_copies(a, c, s + t),
{
    assert(c.take(a.len() as int) =~= b.take(a.len() as int)) by {
        assert forall|i: int| 0 <= i < a.len() implies c.take(a.len() as int)[i] == b.take(a.len() as int)[i] by {
            assert(c.take(b.len() as int)[i] == b[i]);
        }
    }
    assert forall|i: int| 0 <= i < (s + t).len() implies #[trigger] same_expr((s + t)[i], c[a.len() + i]) by {
        if i < s.len() {
            assert(same_expr(s[i], b[a.len() + i]));
            assert(c.take(b.len() as int)[a.len() + i] == b[a.len() + i]);
        } else {
            assert(same_expr(t[i - s.len()], c[b.len() + (i - s.len())]));
        }
    }
}

proof fn lemma_appended_none(a: Seq<Expr>)
    ensures
        appended_copies(a, a, Seq::empty()),
{
    assert(a.take(a.len() as int) =~= a);
}

fn push_call_sites_all(es: &Vec<Expr>, out: &mut Vec<Expr>, Ghost(whole): Ghost<Expr>)
    requires
        forall|j: int| 0 <= j < es@.len() ==> decreases_to!(whole => #[trigger] es@[j]),
    ensures
        appended_copies(old(out)@, final(out)@, call_sites_all(es@)),
    decreases whole, 0nat,
{
    let mut i: usize = 0;
    assert(es@.take(0) =~= Seq::<Expr>::empty());
    proof {
        lemma_appended_none(out@);
    }
    while i < es.len()
        invariant
            i <= es@.len(),
            forall|j: int| 0 <= j < es@.len() ==> decreases_to!(whole => #[trigger] es@[j]),
            appended_copies(old(out)@, out@, call_sites_all(es@.take(i as int))),
        decreases es@.len() - i,
    {
        assert(es@.take(i as int + 1).drop_last() =~= es@.take(i as int));
        let ghost mid = out@;
        push_call_sites(&es[i], out);
        proof {
            lemma_appended_trans(old(out)@, mid, out@, call_sites_all(es@.take(i as int)), call_sites(es@[i as int]));
        }
        i += 1;
    }
    assert(es@.take(i as int) =~= es@);
}

/// Append copies of the call sites of `e` to `out`.
pub fn push_call_sites(e: &Expr, out: &mut Vec<Expr>)
    ensures
        appended_copies(old(out)@, final(out)@, call_sites(*e)),
    decreases e, 1nat,
{
    match e {
        Expr::Call { .. } => {
            let c = copy_expr(e);
            out.push(c);
            assert(out@.take(old(out)@.len() as int) =~= old(out)@);
        },
        Expr::Unary { operand: x, .. } | Expr::Paren(x) => {
            push_call_sites(x, out);
        },
        Expr::Binary { lhs, rhs, .. } => {
            push_call_sites(lhs, out);
            let ghost mid = out@;
            push_call_sites(rhs, out);
            proof {
                lemma_appended_trans(old(out)@, mid, out@, call_sites(**lhs), call_sites(**rhs));
            }
        },
        Expr::Ternary { cond, then_e, else_e } => {
            push_call_sites(cond, out);
            let ghost m1 = out@;
            push_call_sites(then_e, out);
            let ghost m2 = out@;
            push_call_sites(else_e, out);
            proof {
                lemma_appended_trans(old(out)@, m1, m2, call_sites(**cond), call_sites(**then_e));
                lemma_appended_trans(old(out)@, m2, out@, call_sites(**cond) + call_sites(**then_e), call_sites(**else_e));
            }
        },
        Expr::Concat(parts) => {
            proof {
                assert forall|j: int| 0 <= j < parts@.len() implies decreases_to!(*e => #[trigger] parts@[j]) by {
                    assert(decreases_to!(*e => parts@[j]));
                }
            }
            push_call_sites_all(parts, out, Ghost(*e));
        },
        _ => {
            proof {
                lemma_appended_none(out@);
            }
        },
    }
}

/// The calls buried in `e` under operators, parentheses and
/// concatenations, in source order (`e` itself when it is a call): the
/// positions at which a call that passes a dynamic-array formal gets its
/// snapshot marker.
pub fn dyn_formal_call_exprs(e: &Expr) -> (r: Vec<Expr>)
    ensures
        r@.len() == call_sites(*e).len(),
        forall|i: int| 0 <= i < r@.len() ==> #[trigger] same_expr(call_sites(*e)[i], r@[i]),
{
    let mut out: Vec<Expr> = Vec::new();
    push_call_sites(e, &mut out);
    proof {
        assert forall|i: int| 0 <= i < out@.len() implies #[trigger] same_expr(call_sites(*e)[i], out@[i]) by {
            assert(same_expr(call_sites(*e)[i], out@[0 + i]));
        }
    }
    out
}

} // verus!
