//! Scope questions: the innermost binding of a formal, the dynamic-storage
//! handles, and the read width of a net.

use vstd::prelude::*;
use vstd::string::StringExecFns;
use crate::ast::{AssocKey, Dim, Expr, HierPath, IntLit, IntLitKind, LitShape, Lvalue, Stmt};
use crate::dup::{copy_expr, same_expr};
use crate::elab::Elaborator;
use crate::ir::{NetKind, NetVar};
use crate::names::{assoc_last, lookup_last};

verus! {

/// `assoc_last` answers a pushed binding for its own name and the older
/// binding for every other: the innermost binding wins.
pub proof fn lemma_assoc_last_push<V>(s: Seq<(String, V)>, n: String, v: V, k: Seq<char>)
    ensures
        assoc_last(s.push((n, v)), k) == if n@ == k {
            Some(v)
        } else {
            assoc_last(s, k)
        },
{
    assert(s.push((n, v)).drop_last() =~= s);
}

/// Dropping the bindings pushed since `base` restores every answer: what a
/// body's formals bound is forgotten when the body ends.
pub proof fn lemma_assoc_last_truncate<V>(s: Seq<(String, V)>, pushed: Seq<(String, V)>, k: Seq<char>)
    ensures
        assoc_last((s + pushed).take(s.len() as int), k) == assoc_last(s, k),
{
    assert((s + pushed).take(s.len() as int) =~= s);
}

/// The dynamic-storage kind a list of unpacked dimensions declares, from its
/// first dynamic dimension.
pub open spec fn dims_dyn_kind(dims: Seq<Dim>) -> Option<NetKind>
    decreases dims.len(),
{
    if dims.len() == 0 {
        None
    } else {
        match dims[0] {
            Dim::Dyn => Some(NetKind::DynArray),
            Dim::Queue => Some(NetKind::Queue),
            Dim::Assoc(AssocKey::Str) => Some(NetKind::AssocStr),
            Dim::Assoc(_) => Some(NetKind::Assoc),
            _ => dims_dyn_kind(dims.drop_first()),
        }
    }
}

/// Is this net kind a dynamic-storage handle?
pub open spec fn is_handle_kind(k: NetKind) -> bool {
    k == NetKind::DynArray || k == NetKind::Queue || k == NetKind::Assoc || k == NetKind::AssocStr
}

impl Elaborator {
    /// The caller net a read-only dynamic-array input formal `name` is
    /// aliased to, innermost binding first.
    pub fn dyn_subst_lookup(&self, name: &str) -> (r: Option<u32>)
        ensures
            r == assoc_last(self.tables.dyn_subst@, name@),
    {
        let k = name.to_owned();
        lookup_last(&self.tables.dyn_subst, &k)
    }

    /// Is `name` a formal declared `string` in the body being lowered? The
    /// innermost formal of that name decides; `false` when no formal has it.
    pub fn formal_is_string(&self, name: &str) -> (r: bool)
        ensures
            r == match assoc_last(self.tables.formal_str@, name@) {
                Some(s) => s,
                None => false,
            },
    {
        let k = name.to_owned();
        match lookup_last(&self.tables.formal_str, &k) {
            Some(s) => s,
            None => false,
        }
    }

    /// The element (width, signed) of a dynamic handle net, the width
    /// floored at one.
    pub fn handle_elem_type(&self, net: u32) -> (r: Option<(u32, bool)>)
        ensures
            r == if (net as int) < self.nets@.len() {
                let nv = self.nets@[net as int];
                Some((if nv.width >= 1 { nv.width } else { 1u32 }, nv.signed))
            } else {
                None
            },
    {
        if (net as usize) < self.nets.len() {
            let nv: NetVar = self.nets[net as usize];
            Some((if nv.width >= 1 { nv.width } else { 1 }, nv.signed))
        } else {
            None
        }
    }

    /// The handle kind when `dims` declares dynamic storage.
    pub fn dyn_dim_kind(&self, dims: &Vec<Dim>) -> (r: Option<NetKind>)
        ensures
            r == dims_dyn_kind(dims@),
    {
        let mut i: usize = 0;
        assert(dims@.skip(0) =~= dims@);
        while i < dims.len()
            invariant
                i <= dims@.len(),
                dims_dyn_kind(dims@) == dims_dyn_kind(dims@.skip(i as int)),
            decreases dims@.len() - i,
        {
            assert(dims@.skip(i as int).drop_first() =~= dims@.skip(i as int + 1));
            match &dims[i] {
                Dim::Dyn => return Some(NetKind::DynArray),
                Dim::Queue => return Some(NetKind::Queue),
                Dim::Assoc(AssocKey::Str) => return Some(NetKind::AssocStr),
                Dim::Assoc(_) => return Some(NetKind::Assoc),
                _ => {},
            }
            i += 1;
        }
        None
    }

    /// Is `net` a dynamic-storage handle (a dynamic array, queue or
    /// associative array)?
    pub fn is_dyn_handle_net(&self, net: u32) -> (r: bool)
        ensures
            r == ((net as int) < self.nets@.len() && is_handle_kind(self.nets@[net as int].kind)),
    {
        if (net as usize) < self.nets.len() {
            let k = self.nets[net as usize].kind;
            k == NetKind::DynArray || k == NetKind::Queue || k == NetKind::Assoc
                || k == NetKind::AssocStr
        } else {
            false
        }
    }

    /// The width a read of `net` has: none for a string (its length is
    /// dynamic) or an unknown net, else the declared width floored at one.
    pub open spec fn read_width(&self, net: int) -> Option<u32> {
        if 0 <= net < self.nets@.len() && self.nets@[net].kind != NetKind::String {
            let w = self.nets@[net].width;
            Some(if w >= 1 { w } else { 1u32 })
        } else {
            None
        }
    }

    pub fn signal_read_width(&self, net: u32) -> (r: Option<u32>)
        ensures
            r == self.read_width(net as int),
    {
        if (net as usize) < self.nets.len() {
            let nv: NetVar = self.nets[net as usize];
            if nv.kind != NetKind::String {
                return Some(if nv.width >= 1 { nv.width } else { 1 });
            }
        }
        None
    }
}

// ── initializers of dynamic storage ─────────────────────────────────────

/// The decimal literal `n` as the parser hands it over: 32 signed bits, its
/// value where it fits an `i64`.
pub open spec fn dec_lit(n: int) -> Expr {
    Expr::IntLit(
        IntLit {
            kind: IntLitKind::Decimal,
            parsed: Some(LitShape { width: 32, signed: true }),
            value: if n <= i64::MAX {
                Some(n as i64)
            } else {
                None
            },
            fill: false,
        },
    )
}

/// `lv` is the bare name `name` as an assignment target.
pub open spec fn names_target(lv: Lvalue, name: Seq<char>) -> bool {
    lv matches Lvalue::Ident(p) && p.segments@.len() == 1 && p.segments@[0]@ == name
}

/// `s` is `name.push_back(e)` with a copy of `e`.
pub open spec fn is_push_back(s: Stmt, name: Seq<char>, e: Expr) -> bool {
    s matches Stmt::TaskCall { name: p, args } && p.segments@.len() == 2 && p.segments@[0]@ == name
        && p.segments@[1]@ == "push_back"@ && args@.len() == 1 && same_expr(e, args@[0])
}

/// `s` is `name = new[n]`.
pub open spec fn is_alloc(s: Stmt, name: Seq<char>, n: int) -> bool {
    match s {
        Stmt::Blocking { lhs, rhs, delay, event } => names_target(lhs, name) && !delay && !event && match rhs {
            Expr::New { size } => *size == dec_lit(n),
            _ => false,
        },
        _ => false,
    }
}

/// `s` is `name[i] = e` with a copy of `e`.
pub open spec fn is_elem_write(s: Stmt, name: Seq<char>, i: int, e: Expr) -> bool {
    match s {
        Stmt::Blocking { lhs, rhs, delay, event } => !delay && !event && same_expr(e, rhs) && match lhs {
            Lvalue::BitSelect { base, index } => names_target(*base, name) && *index == dec_lit(i),
            _ => false,
        },
        _ => false,
    }
}

fn dec_expr(n: usize) -> (e: Expr)
    ensures
        e == dec_lit(n as int),
{
    let v = if (n as u64) <= (i64::MAX as u64) {
        Some(n as i64)
    } else {
        None
    };
    Expr::IntLit(
        IntLit {
            kind: IntLitKind::Decimal,
            parsed: Some(LitShape { width: 32, signed: true }),
            value: v,
            fill: false,
        },
    )
}

fn name_target(name: &String) -> (lv: Lvalue)
    ensures
        names_target(lv, name@),
{
    let segs: Vec<String> = vec![name.clone()];
    Lvalue::Ident(HierPath { segments: segs })
}

impl Elaborator {
    /// The statements a `'{e0, …}` initializer of the dynamic-storage
    /// variable `name` runs, in declaration order: a queue pushes each
    /// element (`name.push_back(e)`); a dynamic array is allocated
    /// (`name = new[N]`) and each element written (`name[i] = e`). Any other
    /// kind gets none.
    pub fn dyn_decl_init_stmts(&self, name: &String, kind: NetKind, elems: &Vec<Expr>) -> (out: Vec<Stmt>)
        ensures
            kind == NetKind::Queue ==> out@.len() == elems@.len() && forall|i: int|
                0 <= i < elems@.len() ==> #[trigger] is_push_back(out@[i], name@, elems@[i]),
            kind == NetKind::DynArray ==> out@.len() == elems@.len() + 1 && is_alloc(out@[0], name@, elems@.len() as int)
                && forall|i: int| 0 <= i < elems@.len() ==> #[trigger] is_elem_write(out@[i + 1], name@, i, elems@[i]),
            kind != NetKind::Queue && kind != NetKind::DynArray ==> out@.len() == 0,
    {
        let mut out: Vec<Stmt> = Vec::new();
        match kind {
            NetKind::Queue => {
                let mut i: usize = 0;
                while i < elems.len()
                    invariant
                        i <= elems@.len(),
                        out@.len() == i,
                        forall|j: int| 0 <= j < i ==> #[trigger] is_push_back(out@[j], name@, elems@[j]),
                    decreases elems@.len() - i,
                {
                    let segs: Vec<String> = vec![name.clone(), String::from_str("push_back")];
                    proof {
                        reveal_strlit("push_back");
                    }
                    let args: Vec<Expr> = vec![copy_expr(&elems[i])];
                    out.push(Stmt::TaskCall { name: HierPath { segments: segs }, args });
                    i += 1;
                }
            },
            NetKind::DynArray => {
                out.push(
                    Stmt::Blocking {
                        lhs: name_target(name),
                        rhs: Expr::New { size: Box::new(dec_expr(elems.len())) },
                        delay: false,
                        event: false,
                    },
                );
                let mut i: usize = 0;
                while i < elems.len()
                    invariant
                        i <= elems@.len(),
                        out@.len() == i + 1,
                        is_alloc(out@[0], name@, elems@.len() as int),
                        forall|j: int| 0 <= j < i ==> #[trigger] is_elem_write(out@[j + 1], name@, j, elems@[j]),
                    decreases elems@.len() - i,
                {
                    let lhs = Lvalue::BitSelect { base: Box::new(name_target(name)), index: Box::new(dec_expr(i)) };
                    out.push(Stmt::Blocking { lhs, rhs: copy_expr(&elems[i]), delay: false, event: false });
                    i += 1;
                }
            },
            _ => {},
        }
        out
    }
}

} // verus!
