//! Which subroutines a body calls: every single-segment function call in
//! an expression and every task enable, in every statement and operand
//! position.

use vstd::prelude::*;
use crate::ast::{CaseItem, Expr, Lvalue, Stmt};
use crate::names::{has_name, lemma_has_name_push};

verus! {

/// Does `e` call a function named `k`?
pub open spec fn expr_calls(e: Expr, k: Seq<char>) -> bool
    decreases e,
{
    match e {
        Expr::Call { name, args } => (name.segments@.len() == 1 && name.segments@[0]@ == k)
            || any_expr_calls(args@, k),
        Expr::Paren(inner) => expr_calls(*inner, k),
        Expr::Unary { operand, .. } => expr_calls(*operand, k),
        Expr::Binary { lhs, rhs, .. } => expr_calls(*lhs, k) || expr_calls(*rhs, k),
        Expr::Ternary { cond, then_e, else_e } => expr_calls(*cond, k) || expr_calls(*then_e, k)
            || expr_calls(*else_e, k),
        Expr::BitSelect { base, index } => expr_calls(*base, k) || expr_calls(*index, k),
        Expr::PartSelect { base, msb, lsb } => expr_calls(*base, k) || expr_calls(*msb, k)
            || expr_calls(*lsb, k),
        Expr::IndexedPart { base, offset, width, .. } => expr_calls(*base, k) || expr_calls(
            *offset,
            k,
        ) || expr_calls(*width, k),
        Expr::Concat(parts) => any_expr_calls(parts@, k),
        Expr::Replicate { count, value } => expr_calls(*count, k) || any_expr_calls(value@, k),
        Expr::SysCall { args, .. } => any_expr_calls(args@, k),
        Expr::Cast { expr, .. } => expr_calls(*expr, k),
        Expr::MinTypMax { min, typ, max } => expr_calls(*min, k) || expr_calls(*typ, k)
            || expr_calls(*max, k),
        Expr::AssignPattern(parts) => any_expr_calls(parts@, k),
        Expr::NamedArg { value, .. } => match value {
            Some(v) => expr_calls(*v, k),
            None => false,
        },
        _ => false,
    }
}

pub open spec fn any_expr_calls(es: Seq<Expr>, k: Seq<char>) -> bool
    decreases es,
{
    if es.len() == 0 {
        false
    } else {
        any_expr_calls(es.drop_last(), k) || expr_calls(es.last(), k)
    }
}

/// Does an assignment target call `k` in one of its index expressions?
pub open spec fn lvalue_calls(lv: Lvalue, k: Seq<char>) -> bool
    decreases lv,
{
    match lv {
        Lvalue::Ident(_) => false,
        Lvalue::BitSelect { base, index } => lvalue_calls(*base, k) || expr_calls(*index, k),
        Lvalue::PartSelect { base, msb, lsb } => lvalue_calls(*base, k) || expr_calls(*msb, k)
            || expr_calls(*lsb, k),
        Lvalue::IndexedPart { base, offset, width, .. } => lvalue_calls(*base, k) || expr_calls(
            *offset,
            k,
        ) || expr_calls(*width, k),
        Lvalue::Concat(parts) => any_lvalue_calls(parts@, k),
    }
}

pub open spec fn any_lvalue_calls(ls: Seq<Lvalue>, k: Seq<char>) -> bool
    decreases ls,
{
    if ls.len() == 0 {
        false
    } else {
        any_lvalue_calls(ls.drop_last(), k) || lvalue_calls(ls.last(), k)
    }
}

/// Does statement `s` call a subroutine named `k` (a function in an
/// expression, or a task enable)?
pub open spec fn stmt_calls(s: Stmt, k: Seq<char>) -> bool
    decreases s,
{
    match s {
        Stmt::Block { stmts, .. } => any_stmt_calls(stmts@, k),
        Stmt::Fork { stmts } => any_stmt_calls(stmts@, k),
        Stmt::Blocking { lhs, rhs, .. } => lvalue_calls(lhs, k) || expr_calls(rhs, k),
        Stmt::Nonblocking { lhs, rhs } => lvalue_calls(lhs, k) || expr_calls(rhs, k),
        Stmt::If { cond, then_s, else_s } => expr_calls(cond, k) || stmt_calls(*then_s, k) || match else_s {
            Some(e) => stmt_calls(*e, k),
            None => false,
        },
        Stmt::Case { scrut, items } => expr_calls(scrut, k) || any_item_calls(items@, k),
        Stmt::For { body } => stmt_calls(*body, k),
        Stmt::While { cond, body } => expr_calls(cond, k) || stmt_calls(*body, k),
        Stmt::Repeat { count, body } => expr_calls(count, k) || stmt_calls(*body, k),
        Stmt::Forever { body } => stmt_calls(*body, k),
        Stmt::DelayCtrl { body } => match body {
            Some(b) => stmt_calls(*b, k),
            None => false,
        },
        Stmt::EventCtrl { body } => match body {
            Some(b) => stmt_calls(*b, k),
            None => false,
        },
        Stmt::Wait { cond, body } => expr_calls(cond, k) || match body {
            Some(b) => stmt_calls(*b, k),
            None => false,
        },
        Stmt::Return { value } => match value {
            Some(v) => expr_calls(v, k),
            None => false,
        },
        Stmt::TaskCall { name, args } => (name.segments@.len() == 1 && name.segments@[0]@ == k)
            || any_expr_calls(args@, k),
        Stmt::SysTaskCall { args } => any_expr_calls(args@, k),
        _ => false,
    }
}

pub open spec fn any_stmt_calls(ss: Seq<Stmt>, k: Seq<char>) -> bool
    decreases ss,
{
    if ss.len() == 0 {
        false
    } else {
        any_stmt_calls(ss.drop_last(), k) || stmt_calls(ss.last(), k)
    }
}

pub open spec fn any_item_calls(items: Seq<CaseItem>, k: Seq<char>) -> bool
    decreases items,
{
    if items.len() == 0 {
        false
    } else {
        any_item_calls(items.drop_last(), k) || match items.last() {
            CaseItem::Match { labels, body } => any_expr_calls(labels@, k) || stmt_calls(body, k),
            CaseItem::Default { body } => stmt_calls(body, k),
        }
    }
}

/// The set of names `out` holds grew by exactly the names `p` holds.
pub open spec fn grew_by(before: Seq<String>, after: Seq<String>, p: spec_fn(Seq<char>) -> bool) -> bool {
    forall|k: Seq<char>| #[trigger] has_name(after, k) <==> (has_name(before, k) || p(k))
}

fn push_name(out: &mut Vec<String>, n: &String)
    ensures
        grew_by(old(out)@, final(out)@, |k: Seq<char>| n@ == k),
{
    let ghost before = out@;
    let c = n.clone();
    out.push(c);
    proof {
        assert forall|k: Seq<char>| #[trigger] has_name(out@, k) <==> (has_name(before, k) || n@ == k) by {
            lemma_has_name_push(before, c, k);
        }
    }
}

/// Collect the functions `es` call.
#[verifier::loop_isolation(false)]
fn collect_callee_exprs(es: &Vec<Expr>, out: &mut Vec<String>, Ghost(whole): Ghost<Expr>)
    requires
        forall|j: int| 0 <= j < es@.len() ==> decreases_to!(whole => #[trigger] es@[j]),
    ensures
        grew_by(old(out)@, final(out)@, |k: Seq<char>| any_expr_calls(es@, k)),
    decreases whole, 0nat,
{
    let mut i: usize = 0;
    assert(es@.take(0) =~= Seq::<Expr>::empty());
    while i < es.len()
        invariant
            i <= es@.len(),
            grew_by(old(out)@, out@, |k: Seq<char>| any_expr_calls(es@.take(i as int), k)),
        decreases es@.len() - i,
    {
        assert(es@.take(i as int + 1).drop_last() =~= es@.take(i as int));
        collect_callee_expr(&es[i], out);
        i += 1;
    }
    assert(es@.take(i as int) =~= es@);
}

/// Collect the functions `e` calls.
pub fn collect_callee_expr(e: &Expr, out: &mut Vec<String>)
    ensures
        grew_by(old(out)@, final(out)@, |k: Seq<char>| expr_calls(*e, k)),
    decreases *e, 1nat,
{
    match e {
        Expr::Call { name, args } => {
            if name.segments.len() == 1 {
                push_name(out, &name.segments[0]);
            }
            proof {
                assert forall|j: int| 0 <= j < args@.len() implies decreases_to!(*e => #[trigger] args@[j]) by {
                    assert(decreases_to!(*e => args@[j]));
                }
            }
            collect_callee_exprs(args, out, Ghost(*e));
        },
        Expr::Paren(inner) => collect_callee_expr(inner, out),
        Expr::Unary { operand, .. } => collect_callee_expr(operand, out),
        Expr::Binary { lhs, rhs, .. } => {
            collect_callee_expr(lhs, out);
            collect_callee_expr(rhs, out);
        },
        Expr::Ternary { cond, then_e, else_e } => {
            collect_callee_expr(cond, out);
            collect_callee_expr(then_e, out);
            collect_callee_expr(else_e, out);
        },
        Expr::BitSelect { base, index } => {
            collect_callee_expr(base, out);
            collect_callee_expr(index, out);
        },
        Expr::PartSelect { base, msb, lsb } => {
            collect_callee_expr(base, out);
            collect_callee_expr(msb, out);
            collect_callee_expr(lsb, out);
        },
        Expr::IndexedPart { base, offset, width, .. } => {
            collect_callee_expr(base, out);
            collect_callee_expr(offset, out);
            collect_callee_expr(width, out);
        },
        Expr::Concat(parts) | Expr::AssignPattern(parts) => {
            proof {
                assert forall|j: int| 0 <= j < parts@.len() implies decreases_to!(*e => #[trigger] parts@[j]) by {
                    assert(decreases_to!(*e => parts@[j]));
                }
            }
            collect_callee_exprs(parts, out, Ghost(*e));
        },
        Expr::Replicate { count, value } => {
            collect_callee_expr(count, out);
            proof {
                assert forall|j: int| 0 <= j < value@.len() implies decreases_to!(*e => #[trigger] value@[j]) by {
                    assert(decreases_to!(*e => value@[j]));
                }
            }
            collect_callee_exprs(value, out, Ghost(*e));
        },
        Expr::SysCall { args, .. } => {
            proof {
                assert forall|j: int| 0 <= j < args@.len() implies decreases_to!(*e => #[trigger] args@[j]) by {
                    assert(decreases_to!(*e => args@[j]));
                }
            }
            collect_callee_exprs(args, out, Ghost(*e));
        },
        Expr::Cast { expr, .. } => collect_callee_expr(expr, out),
        Expr::MinTypMax { min, typ, max } => {
            collect_callee_expr(min, out);
            collect_callee_expr(typ, out);
            collect_callee_expr(max, out);
        },
        Expr::NamedArg { value, .. } => match value {
            Some(v) => collect_callee_expr(v, out),
            None => {},
        },
        _ => {},
    }
}

/// Collect the functions an assignment target's index expressions call.
#[verifier::loop_isolation(false)]
pub fn collect_callee_lvalue(lv: &Lvalue, out: &mut Vec<String>)
    ensures
        grew_by(old(out)@, final(out)@, |k: Seq<char>| lvalue_calls(*lv, k)),
    decreases lv,
{
    match lv {
        Lvalue::Ident(_) => {},
        Lvalue::BitSelect { base, index } => {
            collect_callee_lvalue(base, out);
            collect_callee_expr(index, out);
        },
        Lvalue::PartSelect { base, msb, lsb } => {
            collect_callee_lvalue(base, out);
            collect_callee_expr(msb, out);
            collect_callee_expr(lsb, out);
        },
        Lvalue::IndexedPart { base, offset, width, .. } => {
            collect_callee_lvalue(base, out);
            collect_callee_expr(offset, out);
            collect_callee_expr(width, out);
        },
        Lvalue::Concat(parts) => {
            let mut i: usize = 0;
            assert(parts@.take(0) =~= Seq::<Lvalue>::empty());
            while i < parts.len()
                invariant
                    i <= parts@.len(),
                    forall|j: int| 0 <= j < parts@.len() ==> decreases_to!(*lv => #[trigger] parts@[j]),
                    grew_by(old(out)@, out@, |k: Seq<char>| any_lvalue_calls(parts@.take(i as int), k)),
                decreases parts@.len() - i,
            {
                assert(parts@.take(i as int + 1).drop_last() =~= parts@.take(i as int));
                collect_callee_lvalue(&parts[i], out);
                i += 1;
            }
            assert(parts@.take(i as int) =~= parts@);
        },
    }
}

/// Collect the subroutines `s` calls (functions in expressions, task
/// enables), in every statement and operand position.
#[verifier::loop_isolation(false)]
pub fn collect_callee_stmt(s: &Stmt, out: &mut Vec<String>)
    ensures
        grew_by(old(out)@, final(out)@, |k: Seq<char>| stmt_calls(*s, k)),
    decreases s,
{
    match s {
        Stmt::Block { stmts, .. } | Stmt::Fork { stmts } => {
            let mut i: usize = 0;
            assert(stmts@.take(0) =~= Seq::<Stmt>::empty());
            while i < stmts.len()
                invariant
                    i <= stmts@.len(),
                    forall|j: int| 0 <= j < stmts@.len() ==> decreases_to!(*s => #[trigger] stmts@[j]),
                    grew_by(old(out)@, out@, |k: Seq<char>| any_stmt_calls(stmts@.take(i as int), k)),
                decreases stmts@.len() - i,
            {
                assert(stmts@.take(i as int + 1).drop_last() =~= stmts@.take(i as int));
                collect_callee_stmt(&stmts[i], out);
                i += 1;
            }
            assert(stmts@.take(i as int) =~= stmts@);
        },
        Stmt::Blocking { lhs, rhs, .. } | Stmt::Nonblocking { lhs, rhs } => {
            collect_callee_lvalue(lhs, out);
            collect_callee_expr(rhs, out);
        },
        Stmt::If { cond, then_s, else_s } => {
            collect_callee_expr(cond, out);
            collect_callee_stmt(then_s, out);
            match else_s {
                Some(e) => collect_callee_stmt(e, out),
                None => {},
            }
        },
        Stmt::Case { scrut, items } => {
            collect_callee_expr(scrut, out);
            let mut i: usize = 0;
            let ghost start = out@;
            assert(items@.take(0) =~= Seq::<CaseItem>::empty());
            while i < items.len()
                invariant
                    i <= items@.len(),
                    forall|j: int| 0 <= j < items@.len() ==> decreases_to!(*s => #[trigger] items@[j]),
                    grew_by(start, out@, |k: Seq<char>| any_item_calls(items@.take(i as int), k)),
                decreases items@.len() - i,
            {
                assert(items@.take(i as int + 1).drop_last() =~= items@.take(i as int));
                match &items[i] {
                    CaseItem::Match { labels, body } => {
                        collect_callee_exprs_plain(labels, out);
                        collect_callee_stmt(body, out);
                    },
                    CaseItem::Default { body } => collect_callee_stmt(body, out),
                }
                i += 1;
            }
            assert(items@.take(i as int) =~= items@);
        },
        Stmt::For { body } | Stmt::Forever { body } => collect_callee_stmt(body, out),
        Stmt::While { cond, body } => {
            collect_callee_expr(cond, out);
            collect_callee_stmt(body, out);
        },
        Stmt::Repeat { count, body } => {
            collect_callee_expr(count, out);
            collect_callee_stmt(body, out);
        },
        Stmt::DelayCtrl { body } | Stmt::EventCtrl { body } => match body {
            Some(b) => collect_callee_stmt(b, out),
            None => {},
        },
        Stmt::Wait { cond, body } => {
            collect_callee_expr(cond, out);
            match body {
                Some(b) => collect_callee_stmt(b, out),
                None => {},
            }
        },
        Stmt::Return { value } => match value {
            Some(v) => collect_callee_expr(v, out),
            None => {},
        },
        Stmt::TaskCall { name, args } => {
            if name.segments.len() == 1 {
                push_name(out, &name.segments[0]);
            }
            collect_callee_exprs_plain(args, out);
        },
        Stmt::SysTaskCall { args } => collect_callee_exprs_plain(args, out),
        _ => {},
    }
}

fn collect_callee_exprs_plain(es: &Vec<Expr>, out: &mut Vec<String>)
    ensures
        grew_by(old(out)@, final(out)@, |k: Seq<char>| any_expr_calls(es@, k)),
{
    let mut i: usize = 0;
    assert(es@.take(0) =~= Seq::<Expr>::empty());
    while i < es.len()
        invariant
            i <= es@.len(),
            grew_by(old(out)@, out@, |k: Seq<char>| any_expr_calls(es@.take(i as int), k)),
        decreases es@.len() - i,
    {
        assert(es@.take(i as int + 1).drop_last() =~= es@.take(i as int));
        collect_callee_expr(&es[i], out);
        i += 1;
    }
    assert(es@.take(i as int) =~= es@);
}

} // verus!
