//! The static surface of each module that a hierarchical leaf (`u.hs`,
//! `m.u2.f(x)`) can reach, and whether the declared width such a leaf is
//! given is exact by construction: every node its parameter fold passed
//! through is one an `i64` fold cannot get wrong.

use vstd::prelude::*;
use crate::ast::{BinOp, Expr, IntLitKind, ParamConn, ParamType, Range, SysName};
use crate::elab::Elaborator;
use crate::names::{
    assoc_first, contains_key, contains_name, has_key, has_name, lemma_assoc_first_some, lookup_first_index,
};

verus! {

/// A declared width before the parameter environment is known.
#[derive(Debug)]
pub enum WidthFact {
    /// stated without a scope (an atom kind, no range, a decimal range)
    Lit(u32),
    /// a vector range that names something, folded per instance
    Range(Range),
}

/// What a module declares of one net: sign, element width, and the number
/// of unpacked dimensions.
#[derive(Debug)]
pub struct NetFact {
    pub signed: bool,
    pub width: WidthFact,
    pub dims: u32,
}

/// What a module declares of one function's return.
#[derive(Debug)]
pub struct FuncFact {
    pub width: WidthFact,
    pub signed: bool,
}

/// One parameter of a module, in declaration order.
#[derive(Debug)]
pub struct ParamSlot {
    pub name: String,
    /// bindable through `#()`
    pub overridable: bool,
    /// untyped (`Implicit`) or `integer`; `None` leaves the name unbound
    pub ty: Option<ParamType>,
    pub default: Expr,
}

/// A body instance: the module it instantiates and its `#()` overrides.
#[derive(Debug)]
pub struct InstFact {
    pub module: String,
    pub overrides: Vec<ParamConn>,
}

/// One module's static surface. Every name in it is declared once in the
/// module.
#[derive(Debug)]
pub struct ModuleFacts {
    pub insts: Vec<(String, InstFact)>,
    pub nets: Vec<(String, NetFact)>,
    pub funcs: Vec<(String, FuncFact)>,
    /// the functions whose body writes a module net
    pub body_write_funcs: Vec<String>,
    /// the parameters, or `None` when no environment can be built
    pub params: Option<Vec<ParamSlot>>,
}

/// The count a census map holds for `k`.
pub open spec fn count_of(seen: Seq<(String, u32)>, k: Seq<char>) -> int {
    match assoc_first(seen, k) {
        Some(c) => c as int,
        None => 0,
    }
}

/// No name is entered twice: read by its first entry, the table is a map.
pub open spec fn keys_unique<V>(s: Seq<(String, V)>) -> bool {
    forall|a: int, b: int| 0 <= a < b < s.len() ==> (#[trigger] s[a]).0@ != (#[trigger] s[b]).0@
}

/// Count one more declaration of `n`: its entry is bumped, or a new one
/// made, so no name is ever entered twice.
pub fn note(seen: &mut Vec<(String, u32)>, n: &str)
    requires
        count_of(old(seen)@, n@) < u32::MAX,
    ensures
        count_of(final(seen)@, n@) == count_of(old(seen)@, n@) + 1,
        keys_unique(old(seen)@) ==> keys_unique(final(seen)@),
        forall|k: Seq<char>| k != n@ ==> #[trigger] assoc_first(final(seen)@, k) == assoc_first(old(seen)@, k),
{
    let k = n.to_owned();
    let mut i: usize = 0;
    assert(seen@.skip(0) =~= seen@);
    while i < seen.len()
        invariant
            i <= seen@.len(),
            seen@ == old(seen)@,
            k@ == n@,
            count_of(seen@, n@) < u32::MAX,
            assoc_first(seen@, k@) == assoc_first(seen@.skip(i as int), k@),
            forall|j: int| 0 <= j < i ==> (#[trigger] seen@[j]).0@ != k@,
        decreases seen@.len() - i,
    {
        assert(seen@.skip(i as int).drop_first() =~= seen@.skip(i as int + 1));
        if seen[i].0 == k {
            let ghost before = seen@;
            let c = seen[i].1;
            assert(before.skip(i as int)[0] == before[i as int]);
            assert(assoc_first(before, n@) == Some(c));
            let x = (k, c + 1);
            let ghost gx = x;
            seen.set(i, x);
            proof {
                assert(seen@ == before.update(i as int, gx));
                lemma_assoc_first_set(before, i as int, gx);
                assert(gx.0@ == n@);
                if keys_unique(before) {
                    assert(seen@[i as int].0@ == before[i as int].0@);
                    assert forall|a: int, b: int| 0 <= a < b < seen@.len() implies (#[trigger] seen@[a]).0@ != (
                    #[trigger] seen@[b]).0@ by {
                        assert(seen@[a].0@ == before[a].0@);
                        assert(seen@[b].0@ == before[b].0@);
                    }
                }
            }
            return;
        }
        i += 1;
    }
    let ghost before = seen@;
    let x = (k, 1u32);
    let ghost gx = x;
    seen.push(x);
    proof {
        lemma_assoc_first_push_new(before, gx);
        assert(gx.0@ == n@);
        assert(assoc_first(before, n@) is None) by {
            lemma_assoc_first_some(before, n@);
            if has_key(before, n@) {
                let j = choose|j: int| 0 <= j < before.len() && #[trigger] before[j].0@ == n@;
                assert(before[j].0@ != k@);
            }
        }
        if keys_unique(before) {
            lemma_assoc_first_some(before, n@);
            assert forall|a: int, b: int| 0 <= a < b < seen@.len() implies (#[trigger] seen@[a]).0@ != (
            #[trigger] seen@[b]).0@ by {
                assert(seen@[a] == before[a]);
                if b == before.len() {
                    assert(seen@[b].0@ == n@);
                } else {
                    assert(seen@[b] == before[b]);
                }
            }
        }
    }
}

/// Replacing the value of the first entry named `x.0` (keeping its name)
/// changes the answer for that name only.
proof fn lemma_assoc_first_set(s: Seq<(String, u32)>, i: int, x: (String, u32))
    requires
        0 <= i < s.len(),
        s[i].0@ == x.0@,
        forall|j: int| 0 <= j < i ==> (#[trigger] s[j]).0@ != x.0@,
    ensures
        assoc_first(s.update(i, x), x.0@) == Some(x.1),
        forall|k: Seq<char>| k != x.0@ ==> #[trigger] assoc_first(s.update(i, x), k) == assoc_first(s, k),
    decreases s.len(),
{
    let u = s.update(i, x);
    if i == 0 {
        assert(u.drop_first() =~= s.drop_first());
        assert forall|k: Seq<char>| k != x.0@ implies #[trigger] assoc_first(u, k) == assoc_first(s, k) by {
            assert(u[0].0@ != k);
            assert(s[0].0@ != k);
        }
    } else {
        assert(u.drop_first() =~= s.drop_first().update(i - 1, x));
        assert(s[0].0@ != x.0@);
        lemma_assoc_first_set(s.drop_first(), i - 1, x);
        assert forall|k: Seq<char>| k != x.0@ implies #[trigger] assoc_first(u, k) == assoc_first(s, k) by {
            assert(u[0] == s[0]);
            assert(assoc_first(s.drop_first().update(i - 1, x), k) == assoc_first(s.drop_first(), k));
        }
    }
}

/// Appending an entry of a name not yet present answers it for that name
/// only.
proof fn lemma_assoc_first_push_new(s: Seq<(String, u32)>, x: (String, u32))
    requires
        forall|j: int| 0 <= j < s.len() ==> (#[trigger] s[j]).0@ != x.0@,
    ensures
        assoc_first(s.push(x), x.0@) == Some(x.1),
        forall|k: Seq<char>| k != x.0@ ==> #[trigger] assoc_first(s.push(x), k) == assoc_first(s, k),
    decreases s.len(),
{
    let u = s.push(x);
    if s.len() > 0 {
        assert(u.drop_first() =~= s.drop_first().push(x));
        assert(s[0].0@ != x.0@);
        lemma_assoc_first_push_new(s.drop_first(), x);
        assert forall|k: Seq<char>| k != x.0@ implies #[trigger] assoc_first(u, k) == assoc_first(s, k) by {
            assert(u[0] == s[0]);
            assert(assoc_first(s.drop_first().push(x), k) == assoc_first(s.drop_first(), k));
        }
    } else {
        assert(u.drop_first() =~= Seq::<(String, u32)>::empty());
        assert forall|k: Seq<char>| k != x.0@ implies #[trigger] assoc_first(u, k) == assoc_first(s, k) by {
            assert(u[0].0@ != k);
            assert(assoc_first(u.drop_first(), k) is None);
        }
    }
}

/// Is `e` exact: built only of decimal literals, unsigned sized literals of
/// 32 bits or more, names bound exactly (every name of the live scope when
/// `live`, else the names of `set`), package constants, `+ - *`,
/// parentheses and `$clog2`?
pub open spec fn exact(e: Expr, live: bool, set: Seq<String>) -> bool
    decreases e,
{
    match e {
        Expr::IntLit(l) => match l.kind {
            IntLitKind::Decimal => true,
            _ => match l.parsed {
                Some(sh) => !sh.signed && sh.width >= 32,
                None => false,
            },
        },
        Expr::Paren(inner) => exact(*inner, live, set),
        Expr::Ident(p) => p.segments@.len() == 1 && (live || has_name(set, p.segments@[0]@)),
        Expr::PkgScoped { .. } => true,
        Expr::Binary { op, lhs, rhs } => (op == BinOp::Add || op == BinOp::Sub || op == BinOp::Mul)
            && exact(*lhs, live, set) && exact(*rhs, live, set),
        Expr::SysCall { name, args } => name is Clog2 && args@.len() == 1 && exact(args@[0], live, set),
        _ => false,
    }
}

/// The scope an exactness question reads names in: `None` for the live
/// scope, else the exactly bound names.
pub open spec fn scope_live(scope: Option<&Vec<String>>) -> bool {
    scope is None
}

pub open spec fn scope_set(scope: Option<&Vec<String>>) -> Seq<String> {
    match scope {
        Some(s) => s@,
        None => Seq::empty(),
    }
}

pub fn expr_exact(e: &Expr, scope: Option<&Vec<String>>) -> (r: bool)
    ensures
        r == exact(*e, scope_live(scope), scope_set(scope)),
    decreases *e,
{
    match e {
        Expr::IntLit(l) => match l.kind {
            IntLitKind::Decimal => true,
            _ => match l.parsed {
                Some(sh) => !sh.signed && sh.width >= 32,
                None => false,
            },
        },
        Expr::Paren(inner) => expr_exact(inner, scope),
        Expr::Ident(p) => p.segments.len() == 1 && match scope {
            None => true,
            Some(s) => contains_name(s, &p.segments[0]),
        },
        Expr::PkgScoped { .. } => true,
        Expr::Binary { op, lhs, rhs } => (*op == BinOp::Add || *op == BinOp::Sub || *op == BinOp::Mul)
            && expr_exact(lhs, scope) && expr_exact(rhs, scope),
        Expr::SysCall { name, args } => {
            if let SysName::Clog2 = name {
                if args.len() == 1 {
                    assert(decreases_to!(*e => args@[0]));
                    return expr_exact(&args[0], scope);
                }
            }
            false
        },
        _ => false,
    }
}

/// The names of the overridable slots, in order: the targets of the
/// positional overrides.
pub open spec fn overridable_names(slots: Seq<ParamSlot>) -> Seq<String>
    decreases slots.len(),
{
    if slots.len() == 0 {
        Seq::empty()
    } else {
        let prev = overridable_names(slots.drop_last());
        if slots.last().overridable {
            prev.push(slots.last().name)
        } else {
            prev
        }
    }
}

/// The first slot named `k`.
pub open spec fn slot_named(slots: Seq<ParamSlot>, k: Seq<char>) -> Option<ParamSlot>
    decreases slots.len(),
{
    if slots.len() == 0 {
        None
    } else if slots[0].name@ == k {
        Some(slots[0])
    } else {
        slot_named(slots.drop_first(), k)
    }
}

/// The number of positional overrides among `ovs`.
pub open spec fn count_positional(ovs: Seq<ParamConn>) -> nat
    decreases ovs.len(),
{
    if ovs.len() == 0 {
        0
    } else {
        count_positional(ovs.drop_last()) + if ovs.last() is Positional {
            1nat
        } else {
            0nat
        }
    }
}

/// Which slot each override binds, and whether the value it binds is
/// exact (read in the parent's scope); `None` when an override names no
/// overridable slot, leaves its value out, runs past the positional slots,
/// or binds a slot twice.
pub open spec fn bind_overrides(slots: Seq<ParamSlot>, ovs: Seq<ParamConn>, live: bool, parent: Seq<String>) -> Option<
    Seq<(String, bool)>,
>
    decreases ovs.len(),
{
    if ovs.len() == 0 {
        Some(Seq::empty())
    } else {
        match bind_overrides(slots, ovs.drop_last(), live, parent) {
            None => None,
            Some(b) => {
                let pos = overridable_names(slots);
                let posi = count_positional(ovs.drop_last());
                match ovs.last() {
                    ParamConn::Positional(v) => if posi < pos.len() && !has_key(b, pos[posi as int]@) {
                        Some(b.push((pos[posi as int], exact(v, live, parent))))
                    } else {
                        None
                    },
                    ParamConn::Named { name, value } => match slot_named(slots, name@) {
                        Some(s) => if s.overridable {
                            match value {
                                Some(v) => if !has_key(b, name@) {
                                    Some(b.push((name, exact(v, live, parent))))
                                } else {
                                    None
                                },
                                None => None,
                            }
                        } else {
                            None
                        },
                        None => None,
                    },
                }
            },
        }
    }
}

/// Once a prefix of the overrides fails to bind, the whole list does.
proof fn lemma_bind_none_prefix(slots: Seq<ParamSlot>, ovs: Seq<ParamConn>, j: int, live: bool, parent: Seq<String>)
    requires
        0 <= j <= ovs.len(),
        bind_overrides(slots, ovs.take(j), live, parent) is None,
    ensures
        bind_overrides(slots, ovs, live, parent) is None,
    decreases ovs.len() - j,
{
    if j == ovs.len() {
        assert(ovs.take(j) =~= ovs);
    } else {
        assert(ovs.take(j + 1).drop_last() =~= ovs.take(j));
        lemma_bind_none_prefix(slots, ovs, j + 1, live, parent);
    }
}

/// The exactly bound names, slot by slot: an overridden slot is exact when
/// its override is, any other when its default is (read among the names
/// bound exactly before it); only an untyped slot binds its value as folded.
pub open spec fn exact_set(slots: Seq<ParamSlot>, bound: Seq<(String, bool)>) -> Seq<String>
    decreases slots.len(),
{
    if slots.len() == 0 {
        Seq::empty()
    } else {
        let prev = exact_set(slots.drop_last(), bound);
        let s = slots.last();
        let e = match assoc_first(bound, s.name@) {
            Some(b) => b,
            None => exact(s.default, false, prev),
        };
        if e && s.ty == Some(ParamType::Implicit) {
            prev.push(s.name)
        } else {
            prev
        }
    }
}

/// The exactly bound parameter names of one instance of `child` with the
/// overrides `ovs`, read in the parent scope (`None`: the live scope).
pub open spec fn env_exact_spec(child: ModuleFacts, ovs: Seq<ParamConn>, parent: Option<Seq<String>>) -> Option<
    Seq<String>,
> {
    match child.params {
        None => None,
        Some(slots) => match bind_overrides(
            slots@,
            ovs,
            parent is None,
            match parent {
                Some(p) => p,
                None => Seq::empty(),
            },
        ) {
            None => None,
            Some(b) => Some(exact_set(slots@, b)),
        },
    }
}

/// The view of an optional name set.
pub open spec fn opt_names(o: Option<Vec<String>>) -> Option<Seq<String>> {
    match o {
        Some(v) => Some(v@),
        None => None,
    }
}

/// The module a path's instance segments reach from `f`, and the exactly
/// bound names of that instance (`live`: `f` is the module being lowered).
pub open spec fn hier_walk(
    t: Seq<(String, ModuleFacts)>,
    f: ModuleFacts,
    insts: Seq<String>,
    ex: Option<Seq<String>>,
    live: bool,
) -> Option<(ModuleFacts, Option<Seq<String>>)>
    decreases insts.len(),
{
    if insts.len() == 0 {
        Some((f, ex))
    } else {
        match assoc_first(f.insts@, insts[0]@) {
            None => None,
            Some(inst) => match assoc_first(t, inst.module@) {
                None => None,
                Some(child) => hier_walk(
                    t,
                    child,
                    insts.drop_first(),
                    if live || ex is Some {
                        env_exact_spec(child, inst.overrides@, ex)
                    } else {
                        None
                    },
                    false,
                ),
            },
        }
    }
}

fn overridable_slot_names(slots: &Vec<ParamSlot>) -> (r: Vec<String>)
    ensures
        r@ == overridable_names(slots@),
{
    let mut r: Vec<String> = Vec::new();
    let mut i: usize = 0;
    assert(slots@.take(0) =~= Seq::<ParamSlot>::empty());
    while i < slots.len()
        invariant
            i <= slots@.len(),
            r@ == overridable_names(slots@.take(i as int)),
        decreases slots@.len() - i,
    {
        assert(slots@.take(i as int + 1).drop_last() =~= slots@.take(i as int));
        if slots[i].overridable {
            r.push(slots[i].name.clone());
        }
        i += 1;
    }
    assert(slots@.take(i as int) =~= slots@);
    r
}

/// Whether the first slot named `k` is overridable (`None`: no slot).
fn slot_overridable(slots: &Vec<ParamSlot>, k: &String) -> (r: Option<bool>)
    ensures
        r == match slot_named(slots@, k@) {
            Some(s) => Some(s.overridable),
            None => None,
        },
{
    let mut i: usize = 0;
    assert(slots@.skip(0) =~= slots@);
    while i < slots.len()
        invariant
            i <= slots@.len(),
            slot_named(slots@, k@) == slot_named(slots@.skip(i as int), k@),
        decreases slots@.len() - i,
    {
        assert(slots@.skip(i as int).drop_first() =~= slots@.skip(i as int + 1));
        if slots[i].name == *k {
            assert(slots@.skip(i as int)[0] == slots@[i as int]);
            return Some(slots[i].overridable);
        }
        i += 1;
    }
    None
}

/// The exactly bound parameter names of one instance of `child` with the
/// `#()` overrides `overrides`, read in the parent's exact names (`None`:
/// the live scope of the module being lowered); `None` where the overrides
/// do not map onto the child's parameters.
pub fn env_exact(child: &ModuleFacts, overrides: &Vec<ParamConn>, parent: Option<&Vec<String>>) -> (r: Option<
    Vec<String>,
>)
    ensures
        opt_names(r) == env_exact_spec(
            *child,
            overrides@,
            match parent {
                Some(p) => Some(p@),
                None => None,
            },
        ),
{
    let slots = match &child.params {
        Some(s) => s,
        None => return None,
    };
    let ghost live = parent is None;
    let ghost pset = scope_set(parent);
    let positional = overridable_slot_names(slots);
    let mut bound: Vec<(String, bool)> = Vec::new();
    let mut pos_i: usize = 0;
    let mut k: usize = 0;
    assert(overrides@.take(0) =~= Seq::<ParamConn>::empty());
    while k < overrides.len()
        invariant
            k <= overrides@.len(),
            child.params == Some(*slots),
            positional@ == overridable_names(slots@),
            live == scope_live(parent),
            pset == scope_set(parent),
            pos_i == count_positional(overrides@.take(k as int)),
            pos_i <= k,
            bind_overrides(slots@, overrides@.take(k as int), live, pset) == Some(bound@),
        decreases overrides@.len() - k,
    {
        assert(overrides@.take(k as int + 1).drop_last() =~= overrides@.take(k as int));
        assert(overrides@.take(k as int + 1).last() == overrides@[k as int]);
        match &overrides[k] {
            ParamConn::Positional(v) => {
                if pos_i >= positional.len() {
                    proof {
                        lemma_bind_none_prefix(slots@, overrides@, k as int + 1, live, pset);
                    }
                    return None;
                }
                let name = positional[pos_i].clone();
                if contains_key(&bound, &name) {
                    proof {
                        lemma_bind_none_prefix(slots@, overrides@, k as int + 1, live, pset);
                    }
                    return None;
                }
                let e = expr_exact(v, parent);
                bound.push((name, e));
                pos_i += 1;
            },
            ParamConn::Named { name, value } => {
                match slot_overridable(slots, name) {
                    Some(true) => {},
                    _ => {
                        proof {
                            lemma_bind_none_prefix(slots@, overrides@, k as int + 1, live, pset);
                        }
                        return None;
                    },
                }
                let v = match value {
                    Some(v) => v,
                    None => {
                        proof {
                            lemma_bind_none_prefix(slots@, overrides@, k as int + 1, live, pset);
                        }
                        return None;
                    },
                };
                if contains_key(&bound, name) {
                    proof {
                        lemma_bind_none_prefix(slots@, overrides@, k as int + 1, live, pset);
                    }
                    return None;
                }
                let e = expr_exact(v, parent);
                bound.push((name.clone(), e));
            },
        }
        k += 1;
    }
    assert(overrides@.take(k as int) =~= overrides@);
    let mut ex: Vec<String> = Vec::new();
    let mut i: usize = 0;
    assert(slots@.take(0) =~= Seq::<ParamSlot>::empty());
    while i < slots.len()
        invariant
            i <= slots@.len(),
            ex@ == exact_set(slots@.take(i as int), bound@),
        decreases slots@.len() - i,
    {
        assert(slots@.take(i as int + 1).drop_last() =~= slots@.take(i as int));
        let s = &slots[i];
        let e = match lookup_first_index(&bound, &s.name) {
            Some(j) => bound[j].1,
            None => expr_exact(&s.default, Some(&ex)),
        };
        if e && s.ty == Some(ParamType::Implicit) {
            ex.push(s.name.clone());
        }
        i += 1;
    }
    assert(slots@.take(i as int) =~= slots@);
    Some(ex)
}

impl Elaborator {
    /// Is the declared width that the leaf `path.last()` (a net, or a
    /// function's return when `func`) is given — reached from the module
    /// being lowered through the instance segments before it — exact by
    /// construction? A literal width is; a range is when both its bounds are
    /// exact among the exactly bound names of the instance reached.
    pub open spec fn leaf_width_exact(&self, path: Seq<String>, func: bool) -> bool {
        let t = self.tables.module_facts@;
        path.len() > 0 && match assoc_first(t, self.tables.cur_module@) {
            None => false,
            Some(f0) => match hier_walk(t, f0, path.drop_last(), None, true) {
                None => false,
                Some((f, ex)) => {
                    let w = if func {
                        match assoc_first(f.funcs@, path.last()@) {
                            Some(ff) => Some(ff.width),
                            None => None,
                        }
                    } else {
                        match assoc_first(f.nets@, path.last()@) {
                            Some(nf) => Some(nf.width),
                            None => None,
                        }
                    };
                    match w {
                        Some(WidthFact::Lit(_)) => true,
                        Some(WidthFact::Range(r)) => match ex {
                            Some(s) => exact(r.msb, false, s) && exact(r.lsb, false, s),
                            None => false,
                        },
                        None => false,
                    }
                },
            },
        }
    }

    pub fn hier_leaf_width_exact(&self, path: &Vec<String>, func: bool) -> (r: bool)
        ensures
            r == self.leaf_width_exact(path@, func),
    {
        let n = path.len();
        if n == 0 {
            return false;
        }
        let t = &self.tables.module_facts;
        let mut f: &ModuleFacts = match lookup_first_index(t, &self.tables.cur_module) {
            Some(j) => &t[j].1,
            None => return false,
        };
        let ghost insts = path@.drop_last();
        let ghost goal = hier_walk(t@, *f, insts, None, true);
        let mut ex: Option<Vec<String>> = None;
        let mut live = true;
        let mut i: usize = 0;
        assert(insts.skip(0) =~= insts);
        while i < n - 1
            invariant
                n == path@.len(),
                n > 0,
                i <= n - 1,
                insts == path@.drop_last(),
                t == &self.tables.module_facts,
                goal == hier_walk(t@, *f, insts.skip(i as int), opt_names(ex), live),
                match assoc_first(t@, self.tables.cur_module@) {
                    Some(f0) => goal == hier_walk(t@, f0, insts, None, true),
                    None => false,
                },
                live ==> i == 0 && ex is None,
            decreases n - 1 - i,
        {
            assert(insts.skip(i as int)[0] == path@[i as int]);
            assert(insts.skip(i as int).drop_first() =~= insts.skip(i as int + 1));
            let inst: &InstFact = match lookup_first_index(&f.insts, &path[i]) {
                Some(j) => &f.insts[j].1,
                None => {
                    assert(goal is None);
                    return false;
                },
            };
            let child: &ModuleFacts = match lookup_first_index(t, &inst.module) {
                Some(j) => &t[j].1,
                None => {
                    assert(goal is None);
                    return false;
                },
            };
            let next = if live || ex.is_some() {
                let parent: Option<&Vec<String>> = match &ex {
                    Some(v) => Some(v),
                    None => None,
                };
                env_exact(child, &inst.overrides, parent)
            } else {
                None
            };
            ex = next;
            live = false;
            f = child;
            i += 1;
        }
        assert(insts.skip(i as int) =~= Seq::<String>::empty());
        let leaf = &path[n - 1];
        assert(path@.last() == path@[n - 1]);
        let w: Option<&WidthFact> = if func {
            match lookup_first_index(&f.funcs, leaf) {
                Some(j) => Some(&f.funcs[j].1.width),
                None => None,
            }
        } else {
            match lookup_first_index(&f.nets, leaf) {
                Some(j) => Some(&f.nets[j].1.width),
                None => None,
            }
        };
        match w {
            Some(WidthFact::Lit(_)) => true,
            Some(WidthFact::Range(r)) => match &ex {
                Some(s) => expr_exact(&r.msb, Some(s)) && expr_exact(&r.lsb, Some(s)),
                None => false,
            },
            None => false,
        }
    }

    /// Does some module of the design declare a function whose body writes
    /// a module net?
    pub open spec fn any_body_write_funcs(&self) -> bool {
        exists|i: int|
            0 <= i < self.tables.module_facts@.len() && (#[trigger] self.tables.module_facts@[i]).1.body_write_funcs@.len()
                > 0
    }

    pub fn facts_have_body_write_funcs(&self) -> (r: bool)
        ensures
            r == self.any_body_write_funcs(),
    {
        let t = &self.tables.module_facts;
        let mut i: usize = 0;
        while i < t.len()
            invariant
                i <= t@.len(),
                t == &self.tables.module_facts,
                forall|j: int| 0 <= j < i ==> (#[trigger] t@[j]).1.body_write_funcs@.len() == 0,
            decreases t@.len() - i,
        {
            if t[i].1.body_write_funcs.len() > 0 {
                return true;
            }
            i += 1;
        }
        false
    }
}

} // verus!
