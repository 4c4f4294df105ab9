//! Structural copies of expressions. Two trees are the same when they have
//! the same shape and the same leaves; a list of children is compared by its
//! elements, so the comparison looks through the vectors that hold them.

use vstd::prelude::*;
use crate::ast::{CaseItem, CastTarget, DeclName, Dim, Expr, HierPath, Lvalue, NetVarDecl, ParamConn, Range, Stmt, SysName};

verus! {

/// Two dotted names with the same segments.
pub open spec fn same_path(a: HierPath, b: HierPath) -> bool {
    a.segments@ == b.segments@
}

/// Two cast targets with the same shape and leaves.
pub open spec fn same_cast(a: CastTarget, b: CastTarget) -> bool
    decreases a,
{
    match a {
        CastTarget::Size(x) => match b {
            CastTarget::Size(y) => same_expr(*x, *y),
            _ => false,
        },
        CastTarget::Named(p) => match b {
            CastTarget::Named(q) => same_path(p, q),
            _ => false,
        },
        CastTarget::Signing { signed } => b == CastTarget::Signing { signed },
        CastTarget::SigningParam { shape_param } => match b {
            CastTarget::SigningParam { shape_param: q } => shape_param@ == q@,
            _ => false,
        },
        CastTarget::Prim(p) => b == CastTarget::Prim(p),
    }
}

/// Two expression lists of the same length whose elements are pairwise the
/// same.
pub open spec fn same_exprs(a: Seq<Expr>, b: Seq<Expr>) -> bool
    decreases a,
{
    a.len() == b.len() && (a.len() == 0 || (same_exprs(a.drop_last(), b.drop_last()) && same_expr(
        a.last(),
        b.last(),
    )))
}

/// Two expressions with the same shape and the same leaves.
pub open spec fn same_expr(a: Expr, b: Expr) -> bool
    decreases a,
{
    match a {
        Expr::IntLit(x) => b == Expr::IntLit(x),
        Expr::RealLit => b is RealLit,
        Expr::StrLit => b is StrLit,
        Expr::TimeLit => b is TimeLit,
        Expr::Null => b is Null,
        Expr::Dollar => b is Dollar,
        Expr::Other => b is Other,
        Expr::Ident(p) => match b {
            Expr::Ident(q) => same_path(p, q),
            _ => false,
        },
        Expr::PkgScoped { pkg, name } => match b {
            Expr::PkgScoped { pkg: p2, name: n2 } => pkg@ == p2@ && name@ == n2@,
            _ => false,
        },
        Expr::Paren(x) => match b {
            Expr::Paren(y) => same_expr(*x, *y),
            _ => false,
        },
        Expr::Unary { op, operand } => match b {
            Expr::Unary { op: o2, operand: x2 } => op == o2 && same_expr(*operand, *x2),
            _ => false,
        },
        Expr::Binary { op, lhs, rhs } => match b {
            Expr::Binary { op: o2, lhs: l2, rhs: r2 } => op == o2 && same_expr(*lhs, *l2) && same_expr(*rhs, *r2),
            _ => false,
        },
        Expr::Ternary { cond, then_e, else_e } => match b {
            Expr::Ternary { cond: c2, then_e: t2, else_e: e2 } => same_expr(*cond, *c2) && same_expr(*then_e, *t2)
                && same_expr(*else_e, *e2),
            _ => false,
        },
        Expr::BitSelect { base, index } => match b {
            Expr::BitSelect { base: b2, index: i2 } => same_expr(*base, *b2) && same_expr(*index, *i2),
            _ => false,
        },
        Expr::PartSelect { base, msb, lsb } => match b {
            Expr::PartSelect { base: b2, msb: m2, lsb: l2 } => same_expr(*base, *b2) && same_expr(*msb, *m2)
                && same_expr(*lsb, *l2),
            _ => false,
        },
        Expr::IndexedPart { base, offset, width, dir } => match b {
            Expr::IndexedPart { base: b2, offset: o2, width: w2, dir: d2 } => same_expr(*base, *b2) && same_expr(
                *offset,
                *o2,
            ) && same_expr(*width, *w2) && dir == d2,
            _ => false,
        },
        Expr::Concat(xs) => match b {
            Expr::Concat(ys) => same_exprs(xs@, ys@),
            _ => false,
        },
        Expr::Replicate { count, value } => match b {
            Expr::Replicate { count: c2, value: v2 } => same_expr(*count, *c2) && same_exprs(value@, v2@),
            _ => false,
        },
        Expr::Call { name, args } => match b {
            Expr::Call { name: n2, args: a2 } => same_path(name, n2) && same_exprs(args@, a2@),
            _ => false,
        },
        Expr::SysCall { name, args } => match b {
            Expr::SysCall { name: n2, args: a2 } => name == n2 && same_exprs(args@, a2@),
            _ => false,
        },
        Expr::Cast { target, expr } => match b {
            Expr::Cast { target: t2, expr: x2 } => same_cast(target, t2) && same_expr(*expr, *x2),
            _ => false,
        },
        Expr::MinTypMax { min, typ, max } => match b {
            Expr::MinTypMax { min: m2, typ: t2, max: x2 } => same_expr(*min, *m2) && same_expr(*typ, *t2)
                && same_expr(*max, *x2),
            _ => false,
        },
        Expr::AssignPattern(xs) => match b {
            Expr::AssignPattern(ys) => same_exprs(xs@, ys@),
            _ => false,
        },
        Expr::New { size } => match b {
            Expr::New { size: s2 } => same_expr(*size, *s2),
            _ => false,
        },
        Expr::NamedArg { formal, value } => match b {
            Expr::NamedArg { formal: f2, value: v2 } => formal@ == f2@ && match value {
                Some(x) => match v2 {
                    Some(y) => same_expr(*x, *y),
                    None => false,
                },
                None => v2 is None,
            },
            _ => false,
        },
    }
}

/// Two parameter overrides of the same form, name and value.
pub open spec fn same_conn(a: ParamConn, b: ParamConn) -> bool {
    match a {
        ParamConn::Positional(x) => match b {
            ParamConn::Positional(y) => same_expr(x, y),
            _ => false,
        },
        ParamConn::Named { name, value } => match b {
            ParamConn::Named { name: n2, value: v2 } => name@ == n2@ && match value {
                Some(x) => match v2 {
                    Some(y) => same_expr(x, y),
                    None => false,
                },
                None => v2 is None,
            },
            _ => false,
        },
    }
}

/// Two override lists that are pairwise the same.
pub open spec fn same_conns(a: Seq<ParamConn>, b: Seq<ParamConn>) -> bool {
    a.len() == b.len() && forall|i: int| 0 <= i < a.len() ==> #[trigger] same_conn(a[i], b[i])
}

/// A copy of a list of names.
pub fn copy_names(v: &Vec<String>) -> (r: Vec<String>)
    ensures
        r@ == v@,
{
    let mut r: Vec<String> = Vec::new();
    let mut i: usize = 0;
    while i < v.len()
        invariant
            i <= v@.len(),
            r@ == v@.take(i as int),
        decreases v@.len() - i,
    {
        r.push(v[i].clone());
        assert(r@ =~= v@.take(i as int + 1));
        i += 1;
    }
    assert(v@.take(i as int) =~= v@);
    r
}

/// A copy of a dotted name.
pub fn copy_path(p: &HierPath) -> (r: HierPath)
    ensures
        same_path(r, *p),
{
    HierPath { segments: copy_names(&p.segments) }
}

fn copy_sys(n: &SysName) -> (r: SysName)
    ensures
        r == *n,
{
    match n {
        SysName::Clog2 => SysName::Clog2,
        SysName::Signed => SysName::Signed,
        SysName::Unsigned => SysName::Unsigned,
        SysName::Cast => SysName::Cast,
        SysName::Other(s) => SysName::Other(s.clone()),
    }
}

fn copy_cast(t: &CastTarget) -> (r: CastTarget)
    ensures
        same_cast(*t, r),
    decreases t, 1nat,
{
    match t {
        CastTarget::Signing { signed } => CastTarget::Signing { signed: *signed },
        CastTarget::SigningParam { shape_param } => CastTarget::SigningParam { shape_param: shape_param.clone() },
        CastTarget::Size(x) => CastTarget::Size(Box::new(copy_expr(x))),
        CastTarget::Prim(p) => CastTarget::Prim(*p),
        CastTarget::Named(p) => CastTarget::Named(copy_path(p)),
    }
}

fn copy_exprs(v: &Vec<Expr>, Ghost(whole): Ghost<Expr>) -> (r: Vec<Expr>)
    requires
        forall|j: int| 0 <= j < v@.len() ==> decreases_to!(whole => #[trigger] v@[j]),
    ensures
        same_exprs(v@, r@),
    decreases whole, 0nat,
{
    let mut r: Vec<Expr> = Vec::new();
    let mut i: usize = 0;
    assert(v@.take(0) =~= Seq::<Expr>::empty());
    while i < v.len()
        invariant
            i <= v@.len(),
            forall|j: int| 0 <= j < v@.len() ==> decreases_to!(whole => #[trigger] v@[j]),
            same_exprs(v@.take(i as int), r@),
        decreases v@.len() - i,
    {
        let c = copy_expr(&v[i]);
        let ghost before = r@;
        r.push(c);
        assert(v@.take(i as int + 1).drop_last() =~= v@.take(i as int));
        assert(r@.drop_last() =~= before);
        i += 1;
    }
    assert(v@.take(i as int) =~= v@);
    r
}

/// A structural copy of `e`.
pub fn copy_expr(e: &Expr) -> (r: Expr)
    ensures
        same_expr(*e, r),
    decreases e, 1nat,
{
    match e {
        Expr::IntLit(x) => Expr::IntLit(*x),
        Expr::RealLit => Expr::RealLit,
        Expr::StrLit => Expr::StrLit,
        Expr::TimeLit => Expr::TimeLit,
        Expr::Null => Expr::Null,
        Expr::Dollar => Expr::Dollar,
        Expr::Other => Expr::Other,
        Expr::Ident(p) => Expr::Ident(copy_path(p)),
        Expr::PkgScoped { pkg, name } => Expr::PkgScoped { pkg: pkg.clone(), name: name.clone() },
        Expr::Paren(x) => Expr::Paren(Box::new(copy_expr(x))),
        Expr::Unary { op, operand } => Expr::Unary { op: *op, operand: Box::new(copy_expr(operand)) },
        Expr::Binary { op, lhs, rhs } => {
            let l = copy_expr(lhs);
            let r = copy_expr(rhs);
            Expr::Binary { op: *op, lhs: Box::new(l), rhs: Box::new(r) }
        },
        Expr::Ternary { cond, then_e, else_e } => {
            let c = copy_expr(cond);
            let t = copy_expr(then_e);
            let f = copy_expr(else_e);
            Expr::Ternary { cond: Box::new(c), then_e: Box::new(t), else_e: Box::new(f) }
        },
        Expr::BitSelect { base, index } => {
            let b = copy_expr(base);
            let i = copy_expr(index);
            Expr::BitSelect { base: Box::new(b), index: Box::new(i) }
        },
        Expr::PartSelect { base, msb, lsb } => {
            let b = copy_expr(base);
            let m = copy_expr(msb);
            let l = copy_expr(lsb);
            Expr::PartSelect { base: Box::new(b), msb: Box::new(m), lsb: Box::new(l) }
        },
        Expr::IndexedPart { base, offset, width, dir } => {
            let b = copy_expr(base);
            let o = copy_expr(offset);
            let w = copy_expr(width);
            Expr::IndexedPart { base: Box::new(b), offset: Box::new(o), width: Box::new(w), dir: *dir }
        },
        Expr::Concat(xs) => {
            proof {
                assert forall|j: int| 0 <= j < xs@.len() implies decreases_to!(*e => #[trigger] xs@[j]) by {
                    assert(decreases_to!(*e => xs@[j]));
                }
            }
            Expr::Concat(copy_exprs(xs, Ghost(*e)))
        },
        Expr::Replicate { count, value } => {
            proof {
                assert forall|j: int| 0 <= j < value@.len() implies decreases_to!(*e => #[trigger] value@[j]) by {
                    assert(decreases_to!(*e => value@[j]));
                }
            }
            let c = copy_expr(count);
            let v = copy_exprs(value, Ghost(*e));
            Expr::Replicate { count: Box::new(c), value: v }
        },
        Expr::Call { name, args } => {
            proof {
                assert forall|j: int| 0 <= j < args@.len() implies decreases_to!(*e => #[trigger] args@[j]) by {
                    assert(decreases_to!(*e => args@[j]));
                }
            }
            let n = copy_path(name);
            let a = copy_exprs(args, Ghost(*e));
            Expr::Call { name: n, args: a }
        },
        Expr::SysCall { name, args } => {
            proof {
                assert forall|j: int| 0 <= j < args@.len() implies decreases_to!(*e => #[trigger] args@[j]) by {
                    assert(decreases_to!(*e => args@[j]));
                }
            }
            let n = copy_sys(name);
            let a = copy_exprs(args, Ghost(*e));
            Expr::SysCall { name: n, args: a }
        },
        Expr::Cast { target, expr } => {
            let t = copy_cast(target);
            let x = copy_expr(expr);
            Expr::Cast { target: t, expr: Box::new(x) }
        },
        Expr::MinTypMax { min, typ, max } => {
            let a = copy_expr(min);
            let b = copy_expr(typ);
            let c = copy_expr(max);
            Expr::MinTypMax { min: Box::new(a), typ: Box::new(b), max: Box::new(c) }
        },
        Expr::AssignPattern(xs) => {
            proof {
                assert forall|j: int| 0 <= j < xs@.len() implies decreases_to!(*e => #[trigger] xs@[j]) by {
                    assert(decreases_to!(*e => xs@[j]));
                }
            }
            Expr::AssignPattern(copy_exprs(xs, Ghost(*e)))
        },
        Expr::New { size } => Expr::New { size: Box::new(copy_expr(size)) },
        Expr::NamedArg { formal, value } => {
            let v = match value {
                Some(x) => Some(Box::new(copy_expr(x))),
                None => None,
            };
            Expr::NamedArg { formal: formal.clone(), value: v }
        },
    }
}

/// A copy of one parameter override.
pub fn copy_conn(c: &ParamConn) -> (r: ParamConn)
    ensures
        same_conn(*c, r),
{
    match c {
        ParamConn::Positional(x) => ParamConn::Positional(copy_expr(x)),
        ParamConn::Named { name, value } => {
            let v = match value {
                Some(x) => Some(copy_expr(x)),
                None => None,
            };
            ParamConn::Named { name: name.clone(), value: v }
        },
    }
}

/// A copy of an override list.
pub fn copy_conns(v: &Vec<ParamConn>) -> (r: Vec<ParamConn>)
    ensures
        same_conns(v@, r@),
{
    let mut r: Vec<ParamConn> = Vec::new();
    let mut i: usize = 0;
    while i < v.len()
        invariant
            i <= v@.len(),
            r@.len() == i,
            forall|j: int| 0 <= j < i ==> #[trigger] same_conn(v@[j], r@[j]),
        decreases v@.len() - i,
    {
        let c = copy_conn(&v[i]);
        r.push(c);
        i += 1;
    }
    r
}

// ── statements ───────────────────────────────────────────────────────────

/// Two ranges with the same bounds.
pub open spec fn same_range(a: Range, b: Range) -> bool {
    same_expr(a.msb, b.msb) && same_expr(a.lsb, b.lsb)
}

pub open spec fn same_opt_range(a: Option<Range>, b: Option<Range>) -> bool {
    match a {
        Some(x) => match b {
            Some(y) => same_range(x, y),
            None => false,
        },
        None => b is None,
    }
}

pub open spec fn same_ranges(a: Seq<Range>, b: Seq<Range>) -> bool {
    a.len() == b.len() && forall|i: int| 0 <= i < a.len() ==> #[trigger] same_range(a[i], b[i])
}

/// Two unpacked dimensions of the same form and bounds.
pub open spec fn same_dim(a: Dim, b: Dim) -> bool {
    match a {
        Dim::Range(x) => match b {
            Dim::Range(y) => same_range(x, y),
            _ => false,
        },
        Dim::Size(x) => match b {
            Dim::Size(y) => same_expr(x, y),
            _ => false,
        },
        Dim::Dyn => b is Dyn,
        Dim::Queue => b is Queue,
        Dim::Assoc(k) => b == Dim::Assoc(k),
    }
}

pub open spec fn same_dims(a: Seq<Dim>, b: Seq<Dim>) -> bool {
    a.len() == b.len() && forall|i: int| 0 <= i < a.len() ==> #[trigger] same_dim(a[i], b[i])
}

pub open spec fn same_decl_name(a: DeclName, b: DeclName) -> bool {
    a.name@ == b.name@ && same_dims(a.unpacked@, b.unpacked@)
}

/// Two declarations of the same kind, sign, shape and names.
pub open spec fn same_decl(a: NetVarDecl, b: NetVarDecl) -> bool {
    &&& a.kind == b.kind
    &&& a.signed == b.signed
    &&& same_opt_range(a.range, b.range)
    &&& same_ranges(a.packed@, b.packed@)
    &&& a.names@.len() == b.names@.len()
    &&& forall|i: int| 0 <= i < a.names@.len() ==> #[trigger] same_decl_name(a.names@[i], b.names@[i])
}

pub open spec fn same_decls(a: Seq<NetVarDecl>, b: Seq<NetVarDecl>) -> bool {
    a.len() == b.len() && forall|i: int| 0 <= i < a.len() ==> #[trigger] same_decl(a[i], b[i])
}

pub open spec fn same_opt_expr(a: Option<Expr>, b: Option<Expr>) -> bool {
    match a {
        Some(x) => match b {
            Some(y) => same_expr(x, y),
            None => false,
        },
        None => b is None,
    }
}

/// Two assignment targets with the same shape and leaves.
pub open spec fn same_lvalue(a: Lvalue, b: Lvalue) -> bool
    decreases a,
{
    match a {
        Lvalue::Ident(p) => match b {
            Lvalue::Ident(q) => same_path(p, q),
            _ => false,
        },
        Lvalue::BitSelect { base, index } => match b {
            Lvalue::BitSelect { base: b2, index: i2 } => same_lvalue(*base, *b2) && same_expr(*index, *i2),
            _ => false,
        },
        Lvalue::PartSelect { base, msb, lsb } => match b {
            Lvalue::PartSelect { base: b2, msb: m2, lsb: l2 } => same_lvalue(*base, *b2) && same_expr(*msb, *m2)
                && same_expr(*lsb, *l2),
            _ => false,
        },
        Lvalue::IndexedPart { base, offset, width, dir } => match b {
            Lvalue::IndexedPart { base: b2, offset: o2, width: w2, dir: d2 } => same_lvalue(*base, *b2) && same_expr(
                *offset,
                *o2,
            ) && same_expr(*width, *w2) && dir == d2,
            _ => false,
        },
        Lvalue::Concat(xs) => match b {
            Lvalue::Concat(ys) => same_lvalues(xs@, ys@),
            _ => false,
        },
    }
}

pub open spec fn same_lvalues(a: Seq<Lvalue>, b: Seq<Lvalue>) -> bool
    decreases a,
{
    a.len() == b.len() && (a.len() == 0 || (same_lvalues(a.drop_last(), b.drop_last()) && same_lvalue(
        a.last(),
        b.last(),
    )))
}

pub open spec fn same_opt_stmt(a: Option<Box<Stmt>>, b: Option<Box<Stmt>>) -> bool
    decreases a,
{
    match a {
        Some(x) => match b {
            Some(y) => same_stmt(*x, *y),
            None => false,
        },
        None => b is None,
    }
}

/// Two statements with the same shape and leaves.
pub open spec fn same_stmt(a: Stmt, b: Stmt) -> bool
    decreases a,
{
    match a {
        Stmt::Null => b is Null,
        Stmt::WaitFork => b is WaitFork,
        Stmt::Other => b is Other,
        Stmt::Block { decls, stmts } => match b {
            Stmt::Block { decls: d2, stmts: s2 } => same_decls(decls@, d2@) && same_stmts(stmts@, s2@),
            _ => false,
        },
        Stmt::Blocking { lhs, rhs, delay, event } => match b {
            Stmt::Blocking { lhs: l2, rhs: r2, delay: d2, event: e2 } => same_lvalue(lhs, l2) && same_expr(rhs, r2)
                && delay == d2 && event == e2,
            _ => false,
        },
        Stmt::Nonblocking { lhs, rhs } => match b {
            Stmt::Nonblocking { lhs: l2, rhs: r2 } => same_lvalue(lhs, l2) && same_expr(rhs, r2),
            _ => false,
        },
        Stmt::If { cond, then_s, else_s } => match b {
            Stmt::If { cond: c2, then_s: t2, else_s: e2 } => same_expr(cond, c2) && same_stmt(*then_s, *t2)
                && same_opt_stmt(else_s, e2),
            _ => false,
        },
        Stmt::Case { scrut, items } => match b {
            Stmt::Case { scrut: s2, items: i2 } => same_expr(scrut, s2) && same_case_items(items@, i2@),
            _ => false,
        },
        Stmt::For { body } => match b {
            Stmt::For { body: b2 } => same_stmt(*body, *b2),
            _ => false,
        },
        Stmt::While { cond, body } => match b {
            Stmt::While { cond: c2, body: b2 } => same_expr(cond, c2) && same_stmt(*body, *b2),
            _ => false,
        },
        Stmt::Repeat { count, body } => match b {
            Stmt::Repeat { count: c2, body: b2 } => same_expr(count, c2) && same_stmt(*body, *b2),
            _ => false,
        },
        Stmt::Forever { body } => match b {
            Stmt::Forever { body: b2 } => same_stmt(*body, *b2),
            _ => false,
        },
        Stmt::Fork { stmts } => match b {
            Stmt::Fork { stmts: s2 } => same_stmts(stmts@, s2@),
            _ => false,
        },
        Stmt::DelayCtrl { body } => match b {
            Stmt::DelayCtrl { body: b2 } => same_opt_stmt(body, b2),
            _ => false,
        },
        Stmt::EventCtrl { body } => match b {
            Stmt::EventCtrl { body: b2 } => same_opt_stmt(body, b2),
            _ => false,
        },
        Stmt::Wait { cond, body } => match b {
            Stmt::Wait { cond: c2, body: b2 } => same_expr(cond, c2) && same_opt_stmt(body, b2),
            _ => false,
        },
        Stmt::Return { value } => match b {
            Stmt::Return { value: v2 } => same_opt_expr(value, v2),
            _ => false,
        },
        Stmt::TaskCall { name, args } => match b {
            Stmt::TaskCall { name: n2, args: a2 } => same_path(name, n2) && same_exprs(args@, a2@),
            _ => false,
        },
        Stmt::SysTaskCall { args } => match b {
            Stmt::SysTaskCall { args: a2 } => same_exprs(args@, a2@),
            _ => false,
        },
    }
}

pub open spec fn same_stmts(a: Seq<Stmt>, b: Seq<Stmt>) -> bool
    decreases a,
{
    a.len() == b.len() && (a.len() == 0 || (same_stmts(a.drop_last(), b.drop_last()) && same_stmt(
        a.last(),
        b.last(),
    )))
}

pub open spec fn same_case_item(a: CaseItem, b: CaseItem) -> bool
    decreases a,
{
    match a {
        CaseItem::Match { labels, body } => match b {
            CaseItem::Match { labels: l2, body: b2 } => same_exprs(labels@, l2@) && same_stmt(body, b2),
            _ => false,
        },
        CaseItem::Default { body } => match b {
            CaseItem::Default { body: b2 } => same_stmt(body, b2),
            _ => false,
        },
    }
}

pub open spec fn same_case_items(a: Seq<CaseItem>, b: Seq<CaseItem>) -> bool
    decreases a,
{
    a.len() == b.len() && (a.len() == 0 || (same_case_items(a.drop_last(), b.drop_last()) && same_case_item(
        a.last(),
        b.last(),
    )))
}

fn copy_range(r: &Range) -> (c: Range)
    ensures
        same_range(*r, c),
{
    Range { msb: copy_expr(&r.msb), lsb: copy_expr(&r.lsb) }
}

fn copy_opt_range(r: &Option<Range>) -> (c: Option<Range>)
    ensures
        same_opt_range(*r, c),
{
    match r {
        Some(x) => Some(copy_range(x)),
        None => None,
    }
}

fn copy_ranges(v: &Vec<Range>) -> (c: Vec<Range>)
    ensures
        same_ranges(v@, c@),
{
    let mut c: Vec<Range> = Vec::new();
    let mut i: usize = 0;
    while i < v.len()
        invariant
            i <= v@.len(),
            c@.len() == i,
            forall|j: int| 0 <= j < i ==> #[trigger] same_range(v@[j], c@[j]),
        decreases v@.len() - i,
    {
        c.push(copy_range(&v[i]));
        i += 1;
    }
    c
}

fn copy_dims(v: &Vec<Dim>) -> (c: Vec<Dim>)
    ensures
        same_dims(v@, c@),
{
    let mut c: Vec<Dim> = Vec::new();
    let mut i: usize = 0;
    while i < v.len()
        invariant
            i <= v@.len(),
            c@.len() == i,
            forall|j: int| 0 <= j < i ==> #[trigger] same_dim(v@[j], c@[j]),
        decreases v@.len() - i,
    {
        let d = match &v[i] {
            Dim::Range(r) => Dim::Range(copy_range(r)),
            Dim::Size(e) => Dim::Size(copy_expr(e)),
            Dim::Dyn => Dim::Dyn,
            Dim::Queue => Dim::Queue,
            Dim::Assoc(k) => Dim::Assoc(*k),
        };
        c.push(d);
        i += 1;
    }
    c
}

fn copy_decl(d: &NetVarDecl) -> (c: NetVarDecl)
    ensures
        same_decl(*d, c),
{
    let mut names: Vec<DeclName> = Vec::new();
    let mut i: usize = 0;
    while i < d.names.len()
        invariant
            i <= d.names@.len(),
            names@.len() == i,
            forall|j: int| 0 <= j < i ==> #[trigger] same_decl_name(d.names@[j], names@[j]),
        decreases d.names@.len() - i,
    {
        names.push(DeclName { name: d.names[i].name.clone(), unpacked: copy_dims(&d.names[i].unpacked) });
        i += 1;
    }
    NetVarDecl {
        kind: d.kind,
        signed: d.signed,
        range: copy_opt_range(&d.range),
        packed: copy_ranges(&d.packed),
        names,
    }
}

fn copy_decls(v: &Vec<NetVarDecl>) -> (c: Vec<NetVarDecl>)
    ensures
        same_decls(v@, c@),
{
    let mut c: Vec<NetVarDecl> = Vec::new();
    let mut i: usize = 0;
    while i < v.len()
        invariant
            i <= v@.len(),
            c@.len() == i,
            forall|j: int| 0 <= j < i ==> #[trigger] same_decl(v@[j], c@[j]),
        decreases v@.len() - i,
    {
        c.push(copy_decl(&v[i]));
        i += 1;
    }
    c
}

fn copy_opt_expr(e: &Option<Expr>) -> (c: Option<Expr>)
    ensures
        same_opt_expr(*e, c),
{
    match e {
        Some(x) => Some(copy_expr(x)),
        None => None,
    }
}

fn copy_lvalues(v: &Vec<Lvalue>, Ghost(whole): Ghost<Lvalue>) -> (r: Vec<Lvalue>)
    requires
        forall|j: int| 0 <= j < v@.len() ==> decreases_to!(whole => #[trigger] v@[j]),
    ensures
        same_lvalues(v@, r@),
    decreases whole, 0nat,
{
    let mut r: Vec<Lvalue> = Vec::new();
    let mut i: usize = 0;
    assert(v@.take(0) =~= Seq::<Lvalue>::empty());
    while i < v.len()
        invariant
            i <= v@.len(),
            forall|j: int| 0 <= j < v@.len() ==> decreases_to!(whole => #[trigger] v@[j]),
            same_lvalues(v@.take(i as int), r@),
        decreases v@.len() - i,
    {
        let c = copy_lvalue(&v[i]);
        let ghost before = r@;
        r.push(c);
        assert(v@.take(i as int + 1).drop_last() =~= v@.take(i as int));
        assert(r@.drop_last() =~= before);
        i += 1;
    }
    assert(v@.take(i as int) =~= v@);
    r
}

/// A structural copy of an assignment target.
pub fn copy_lvalue(lv: &Lvalue) -> (r: Lvalue)
    ensures
        same_lvalue(*lv, r),
    decreases lv, 1nat,
{
    match lv {
        Lvalue::Ident(p) => Lvalue::Ident(copy_path(p)),
        Lvalue::BitSelect { base, index } => {
            let b = copy_lvalue(base);
            Lvalue::BitSelect { base: Box::new(b), index: Box::new(copy_expr(index)) }
        },
        Lvalue::PartSelect { base, msb, lsb } => {
            let b = copy_lvalue(base);
            let m = copy_expr(msb);
            let l = copy_expr(lsb);
            Lvalue::PartSelect { base: Box::new(b), msb: Box::new(m), lsb: Box::new(l) }
        },
        Lvalue::IndexedPart { base, offset, width, dir } => {
            let b = copy_lvalue(base);
            let o = copy_expr(offset);
            let w = copy_expr(width);
            Lvalue::IndexedPart { base: Box::new(b), offset: Box::new(o), width: Box::new(w), dir: *dir }
        },
        Lvalue::Concat(xs) => {
            proof {
                assert forall|j: int| 0 <= j < xs@.len() implies decreases_to!(*lv => #[trigger] xs@[j]) by {
                    assert(decreases_to!(*lv => xs@[j]));
                }
            }
            Lvalue::Concat(copy_lvalues(xs, Ghost(*lv)))
        },
    }
}

fn copy_stmts(v: &Vec<Stmt>, Ghost(whole): Ghost<Stmt>) -> (r: Vec<Stmt>)
    requires
        forall|j: int| 0 <= j < v@.len() ==> decreases_to!(whole => #[trigger] v@[j]),
    ensures
        same_stmts(v@, r@),
    decreases whole, 0nat,
{
    let mut r: Vec<Stmt> = Vec::new();
    let mut i: usize = 0;
    assert(v@.take(0) =~= Seq::<Stmt>::empty());
    while i < v.len()
        invariant
            i <= v@.len(),
            forall|j: int| 0 <= j < v@.len() ==> decreases_to!(whole => #[trigger] v@[j]),
            same_stmts(v@.take(i as int), r@),
        decreases v@.len() - i,
    {
        let c = copy_stmt(&v[i]);
        let ghost before = r@;
        r.push(c);
        assert(v@.take(i as int + 1).drop_last() =~= v@.take(i as int));
        assert(r@.drop_last() =~= before);
        i += 1;
    }
    assert(v@.take(i as int) =~= v@);
    r
}

fn copy_case_items(v: &Vec<CaseItem>, Ghost(whole): Ghost<Stmt>) -> (r: Vec<CaseItem>)
    requires
        forall|j: int| 0 <= j < v@.len() ==> decreases_to!(whole => #[trigger] v@[j]),
    ensures
        same_case_items(v@, r@),
    decreases whole, 0nat,
{
    let mut r: Vec<CaseItem> = Vec::new();
    let mut i: usize = 0;
    assert(v@.take(0) =~= Seq::<CaseItem>::empty());
    while i < v.len()
        invariant
            i <= v@.len(),
            forall|j: int| 0 <= j < v@.len() ==> decreases_to!(whole => #[trigger] v@[j]),
            same_case_items(v@.take(i as int), r@),
        decreases v@.len() - i,
    {
        let c = match &v[i] {
            CaseItem::Match { labels, body } => {
                proof {
                    assert(decreases_to!(whole => v@[i as int]));
                    assert(decreases_to!(v@[i as int] => *body));
                }
                let ls = copy_expr_list(labels);
                CaseItem::Match { labels: ls, body: copy_stmt(body) }
            },
            CaseItem::Default { body } => {
                proof {
                    assert(decreases_to!(whole => v@[i as int]));
                    assert(decreases_to!(v@[i as int] => *body));
                }
                CaseItem::Default { body: copy_stmt(body) }
            },
        };
        assert(same_case_item(v@[i as int], c));
        assert(v@.take(i as int + 1).last() == v@[i as int]);
        let ghost before = r@;
        r.push(c);
        assert(v@.take(i as int + 1).drop_last() =~= v@.take(i as int));
        assert(r@.drop_last() =~= before);
        i += 1;
    }
    assert(v@.take(i as int) =~= v@);
    r
}

/// A structural copy of a list of expressions.
pub fn copy_expr_list(v: &Vec<Expr>) -> (r: Vec<Expr>)
    ensures
        same_exprs(v@, r@),
{
    let mut r: Vec<Expr> = Vec::new();
    let mut i: usize = 0;
    assert(v@.take(0) =~= Seq::<Expr>::empty());
    while i < v.len()
        invariant
            i <= v@.len(),
            same_exprs(v@.take(i as int), r@),
        decreases v@.len() - i,
    {
        let c = copy_expr(&v[i]);
        let ghost before = r@;
        r.push(c);
        assert(v@.take(i as int + 1).drop_last() =~= v@.take(i as int));
        assert(r@.drop_last() =~= before);
        i += 1;
    }
    assert(v@.take(i as int) =~= v@);
    r
}

fn copy_opt_stmt(s: &Option<Box<Stmt>>, Ghost(whole): Ghost<Stmt>) -> (r: Option<Box<Stmt>>)
    requires
        s matches Some(b) ==> decreases_to!(whole => *b),
    ensures
        same_opt_stmt(*s, r),
    decreases whole, 0nat,
{
    match s {
        Some(b) => Some(Box::new(copy_stmt(b))),
        None => None,
    }
}

/// A structural copy of a statement.
pub fn copy_stmt(s: &Stmt) -> (r: Stmt)
    ensures
        same_stmt(*s, r),
    decreases s, 1nat,
{
    match s {
        Stmt::Null => Stmt::Null,
        Stmt::WaitFork => Stmt::WaitFork,
        Stmt::Other => Stmt::Other,
        Stmt::Block { decls, stmts } => {
            proof {
                assert forall|j: int| 0 <= j < stmts@.len() implies decreases_to!(*s => #[trigger] stmts@[j]) by {
                    assert(decreases_to!(*s => stmts@[j]));
                }
            }
            let d = copy_decls(decls);
            Stmt::Block { decls: d, stmts: copy_stmts(stmts, Ghost(*s)) }
        },
        Stmt::Blocking { lhs, rhs, delay, event } => {
            Stmt::Blocking { lhs: copy_lvalue(lhs), rhs: copy_expr(rhs), delay: *delay, event: *event }
        },
        Stmt::Nonblocking { lhs, rhs } => Stmt::Nonblocking { lhs: copy_lvalue(lhs), rhs: copy_expr(rhs) },
        Stmt::If { cond, then_s, else_s } => {
            let c = copy_expr(cond);
            let t = copy_stmt(then_s);
            let e = copy_opt_stmt(else_s, Ghost(*s));
            Stmt::If { cond: c, then_s: Box::new(t), else_s: e }
        },
        Stmt::Case { scrut, items } => {
            proof {
                assert forall|j: int| 0 <= j < items@.len() implies decreases_to!(*s => #[trigger] items@[j]) by {
                    assert(decreases_to!(*s => items@[j]));
                }
            }
            let sc = copy_expr(scrut);
            Stmt::Case { scrut: sc, items: copy_case_items(items, Ghost(*s)) }
        },
        Stmt::For { body } => Stmt::For { body: Box::new(copy_stmt(body)) },
        Stmt::While { cond, body } => {
            let c = copy_expr(cond);
            Stmt::While { cond: c, body: Box::new(copy_stmt(body)) }
        },
        Stmt::Repeat { count, body } => {
            let c = copy_expr(count);
            Stmt::Repeat { count: c, body: Box::new(copy_stmt(body)) }
        },
        Stmt::Forever { body } => Stmt::Forever { body: Box::new(copy_stmt(body)) },
        Stmt::Fork { stmts } => {
            proof {
                assert forall|j: int| 0 <= j < stmts@.len() implies decreases_to!(*s => #[trigger] stmts@[j]) by {
                    assert(decreases_to!(*s => stmts@[j]));
                }
            }
            Stmt::Fork { stmts: copy_stmts(stmts, Ghost(*s)) }
        },
        Stmt::DelayCtrl { body } => Stmt::DelayCtrl { body: copy_opt_stmt(body, Ghost(*s)) },
        Stmt::EventCtrl { body } => Stmt::EventCtrl { body: copy_opt_stmt(body, Ghost(*s)) },
        Stmt::Wait { cond, body } => {
            let c = copy_expr(cond);
            Stmt::Wait { cond: c, body: copy_opt_stmt(body, Ghost(*s)) }
        },
        Stmt::Return { value } => Stmt::Return { value: copy_opt_expr(value) },
        Stmt::TaskCall { name, args } => {
            let n = copy_path(name);
            Stmt::TaskCall { name: n, args: copy_expr_list(args) }
        },
        Stmt::SysTaskCall { args } => Stmt::SysTaskCall { args: copy_expr_list(args) },
    }
}

} // verus!
