//! The census of the names a module declares: how many times each name a
//! bare hierarchical segment could bind to is declared, generate bodies and
//! procedural block locals included. A name counted more than once is
//! ambiguous, and the module's static surface answers nothing for it.

use vstd::prelude::*;
use crate::ast::{CaseItem, DeclName, GenCaseItem, GenItem, ModuleDecl, ModuleItem, NetVarDecl, ParamDecl, PortList, Stmt};
use crate::hier::{count_of, keys_unique, note};
use crate::names::assoc_first;

verus! {

/// How many of `ns` are `k`.
pub open spec fn strs_count(ns: Seq<String>, k: Seq<char>) -> nat
    decreases ns.len(),
{
    if ns.len() == 0 {
        0
    } else {
        strs_count(ns.drop_last(), k) + if ns.last()@ == k {
            1nat
        } else {
            0nat
        }
    }
}

/// How many of the declared names `ns` are `k`.
pub open spec fn names_count(ns: Seq<DeclName>, k: Seq<char>) -> nat
    decreases ns.len(),
{
    if ns.len() == 0 {
        0
    } else {
        names_count(ns.drop_last(), k) + if ns.last().name@ == k {
            1nat
        } else {
            0nat
        }
    }
}

/// How many times the declarations `ds` declare `k`.
pub open spec fn decls_count(ds: Seq<NetVarDecl>, k: Seq<char>) -> nat
    decreases ds.len(),
{
    if ds.len() == 0 {
        0
    } else {
        decls_count(ds.drop_last(), k) + names_count(ds.last().names@, k)
    }
}

/// How many times a `begin … end` block inside `s` declares `k`.
pub open spec fn block_local_count(s: Stmt, k: Seq<char>) -> nat
    decreases s,
{
    match s {
        Stmt::Block { decls, stmts } => decls_count(decls@, k) + stmts_local_count(stmts@, k),
        Stmt::Fork { stmts } => stmts_local_count(stmts@, k),
        Stmt::If { then_s, else_s, .. } => block_local_count(*then_s, k) + match else_s {
            Some(e) => block_local_count(*e, k),
            None => 0,
        },
        Stmt::Case { items, .. } => items_local_count(items@, k),
        Stmt::For { body } => block_local_count(*body, k),
        Stmt::While { body, .. } => block_local_count(*body, k),
        Stmt::Repeat { body, .. } => block_local_count(*body, k),
        Stmt::Forever { body } => block_local_count(*body, k),
        Stmt::DelayCtrl { body } => match body {
            Some(b) => block_local_count(*b, k),
            None => 0,
        },
        Stmt::EventCtrl { body } => match body {
            Some(b) => block_local_count(*b, k),
            None => 0,
        },
        Stmt::Wait { body, .. } => match body {
            Some(b) => block_local_count(*b, k),
            None => 0,
        },
        _ => 0,
    }
}

pub open spec fn stmts_local_count(ss: Seq<Stmt>, k: Seq<char>) -> nat
    decreases ss,
{
    if ss.len() == 0 {
        0
    } else {
        stmts_local_count(ss.drop_last(), k) + block_local_count(ss.last(), k)
    }
}

pub open spec fn items_local_count(items: Seq<CaseItem>, k: Seq<char>) -> nat
    decreases items,
{
    if items.len() == 0 {
        0
    } else {
        items_local_count(items.drop_last(), k) + match items.last() {
            CaseItem::Match { body, .. } => block_local_count(body, k),
            CaseItem::Default { body } => block_local_count(body, k),
        }
    }
}

/// 1 when the optional label is `k`.
pub open spec fn label_count(l: Option<String>, k: Seq<char>) -> nat {
    match l {
        Some(n) => if n@ == k {
            1nat
        } else {
            0nat
        },
        None => 0,
    }
}

/// 1 when `n` is `k`.
pub open spec fn name_count(n: String, k: Seq<char>) -> nat {
    if n@ == k {
        1
    } else {
        0
    }
}

/// How many times a module item declares `k`.
pub open spec fn item_count(it: ModuleItem, k: Seq<char>) -> nat
    decreases it,
{
    match it {
        ModuleItem::NetVar(d) => names_count(d.names@, k),
        ModuleItem::Param(p) => name_count(p.name, k),
        ModuleItem::PortDecl(ns) => strs_count(ns@, k),
        ModuleItem::Instance(mi) => inst_names_count(mi.instances@, k),
        ModuleItem::Genvar(ns) => strs_count(ns@, k),
        ModuleItem::Func(f) => name_count(f.name, k),
        ModuleItem::Task(t) => name_count(t.name, k),
        ModuleItem::Typedef(n) => name_count(n, k),
        ModuleItem::Class(n) => name_count(n, k),
        ModuleItem::Covergroup(n) => name_count(n, k),
        ModuleItem::CoverInstance(n) => name_count(n, k),
        ModuleItem::LetDecl(n) => name_count(n, k),
        ModuleItem::Clocking(n) => label_count(n, k),
        ModuleItem::Proc(body) => block_local_count(body, k),
        ModuleItem::Generate(items) => gens_count(items@, k),
        _ => 0,
    }
}

/// How many of the instance names are `k`.
pub open spec fn inst_names_count(ns: Seq<crate::ast::InstName>, k: Seq<char>) -> nat
    decreases ns.len(),
{
    if ns.len() == 0 {
        0
    } else {
        inst_names_count(ns.drop_last(), k) + name_count(ns.last().name, k)
    }
}

/// How many times a generate construct declares `k` (its labels, and the
/// items of all its bodies).
pub open spec fn gen_count(gi: GenItem, k: Seq<char>) -> nat
    decreases gi,
{
    match gi {
        GenItem::For { label, body } => label_count(label, k) + gens_count(body@, k),
        GenItem::If { label, then_b, else_b } => label_count(label, k) + gens_count(then_b@, k) + gens_count(
            else_b@,
            k,
        ),
        GenItem::Block { label, items } => label_count(label, k) + gens_count(items@, k),
        GenItem::Case { items } => gen_cases_count(items@, k),
        GenItem::Item(b) => item_count(*b, k),
    }
}

pub open spec fn gens_count(gs: Seq<GenItem>, k: Seq<char>) -> nat
    decreases gs,
{
    if gs.len() == 0 {
        0
    } else {
        gens_count(gs.drop_last(), k) + gen_count(gs.last(), k)
    }
}

pub open spec fn gen_cases_count(cs: Seq<GenCaseItem>, k: Seq<char>) -> nat
    decreases cs,
{
    if cs.len() == 0 {
        0
    } else {
        gen_cases_count(cs.drop_last(), k) + match cs.last() {
            GenCaseItem::Match { body } => gens_count(body@, k),
            GenCaseItem::Default { body } => gens_count(body@, k),
        }
    }
}

/// How many times the items `its` declare `k`.
pub open spec fn items_count(its: Seq<ModuleItem>, k: Seq<char>) -> nat
    decreases its.len(),
{
    if its.len() == 0 {
        0
    } else {
        items_count(its.drop_last(), k) + item_count(its.last(), k)
    }
}

/// How many times module `m` declares `k`: its parameters, its ports, and
/// its body items.
pub open spec fn module_count(m: ModuleDecl, k: Seq<char>) -> nat {
    params_count(m.params@, k) + ports_count(m.ports, k) + items_count(m.body@, k)
}

/// How many of the parameter declarations `ps` declare `k`.
pub open spec fn params_count(ps: Seq<ParamDecl>, k: Seq<char>) -> nat
    decreases ps.len(),
{
    if ps.len() == 0 {
        0
    } else {
        params_count(ps.drop_last(), k) + name_count(ps.last().name, k)
    }
}

/// How many of the ports in the list are `k`.
pub open spec fn ports_count(ports: PortList, k: Seq<char>) -> nat {
    match ports {
        PortList::Ansi(ns) => strs_count(ns@, k),
        PortList::NonAnsi(ns) => strs_count(ns@, k),
        PortList::Empty => 0,
    }
}

/// The census grew by `add` for every name.
pub open spec fn grew(before: Seq<(String, u32)>, after: Seq<(String, u32)>, more: spec_fn(Seq<char>) -> nat) -> bool {
    &&& forall|k: Seq<char>| #[trigger] count_of(after, k) == count_of(before, k) + more(k)
    &&& keys_unique(before) ==> keys_unique(after)
}

/// No count overflows when `add` is added to the census.
pub open spec fn fits(before: Seq<(String, u32)>, more: spec_fn(Seq<char>) -> nat) -> bool {
    forall|k: Seq<char>| #[trigger] count_of(before, k) + more(k) < u32::MAX
}

fn note_strs(ns: &Vec<String>, seen: &mut Vec<(String, u32)>)
    requires
        fits(old(seen)@, |k: Seq<char>| strs_count(ns@, k)),
    ensures
        grew(old(seen)@, final(seen)@, |k: Seq<char>| strs_count(ns@, k)),
{
    let mut i: usize = 0;
    assert(ns@.take(0) =~= Seq::<String>::empty());
    while i < ns.len()
        invariant
            i <= ns@.len(),
            fits(old(seen)@, |k: Seq<char>| strs_count(ns@, k)),
            grew(old(seen)@, seen@, |k: Seq<char>| strs_count(ns@.take(i as int), k)),
        decreases ns@.len() - i,
    {
        assert(ns@.take(i as int + 1).drop_last() =~= ns@.take(i as int));
        proof {
            lemma_strs_count_prefix(ns@, i as int + 1, ns@[i as int]@);
        }
        let ghost mid = seen@;
        note(seen, ns[i].as_str());
        proof {
            assert forall|k: Seq<char>| #[trigger] count_of(seen@, k) == count_of(old(seen)@, k) + strs_count(
                ns@.take(i as int + 1),
                k,
            ) by {
                assert(ns@.take(i as int + 1).last() == ns@[i as int]);
                assert(count_of(mid, k) == count_of(old(seen)@, k) + strs_count(ns@.take(i as int), k));
                if k != ns@[i as int]@ {
                    assert(assoc_first(seen@, k) == assoc_first(mid, k));
                }
            }
        }
        i += 1;
    }
    assert(ns@.take(i as int) =~= ns@);
}

proof fn lemma_strs_count_prefix(ns: Seq<String>, i: int, k: Seq<char>)
    requires
        0 <= i <= ns.len(),
    ensures
        strs_count(ns.take(i), k) <= strs_count(ns, k),
    decreases ns.len() - i,
{
    if i < ns.len() {
        lemma_strs_count_prefix(ns, i + 1, k);
        assert(ns.take(i + 1).drop_last() =~= ns.take(i));
    } else {
        assert(ns.take(i) =~= ns);
    }
}


// ── composing census steps ───────────────────────────────────────────────

proof fn lemma_grew_trans(
    a: Seq<(String, u32)>,
    b: Seq<(String, u32)>,
    c: Seq<(String, u32)>,
    f: spec_fn(Seq<char>) -> nat,
    g: spec_fn(Seq<char>) -> nat,
    h: spec_fn(Seq<char>) -> nat,
)
    requires
        grew(a, b, f),
        grew(b, c, g),
        forall|k: Seq<char>| #[trigger] h(k) == f(k) + g(k),
    ensures
        grew(a, c, h),
{
    assert forall|k: Seq<char>| #[trigger] count_of(c, k) == count_of(a, k) + h(k) by {
        assert(count_of(b, k) == count_of(a, k) + f(k));
        assert(h(k) == f(k) + g(k));
    }
}

proof fn lemma_fits_part(a: Seq<(String, u32)>, f: spec_fn(Seq<char>) -> nat, h: spec_fn(Seq<char>) -> nat)
    requires
        fits(a, h),
        forall|k: Seq<char>| #[trigger] f(k) <= h(k),
    ensures
        fits(a, f),
{
    assert forall|k: Seq<char>| #[trigger] count_of(a, k) + f(k) < u32::MAX by {
        assert(count_of(a, k) + h(k) < u32::MAX);
        assert(f(k) <= h(k));
    }
}

proof fn lemma_fits_after(
    a: Seq<(String, u32)>,
    b: Seq<(String, u32)>,
    f: spec_fn(Seq<char>) -> nat,
    g: spec_fn(Seq<char>) -> nat,
    h: spec_fn(Seq<char>) -> nat,
)
    requires
        fits(a, h),
        grew(a, b, f),
        forall|k: Seq<char>| #[trigger] h(k) >= f(k) + g(k),
    ensures
        fits(b, g),
{
    assert forall|k: Seq<char>| #[trigger] count_of(b, k) + g(k) < u32::MAX by {
        assert(count_of(a, k) + h(k) < u32::MAX);
        assert(count_of(b, k) == count_of(a, k) + f(k));
        assert(h(k) >= f(k) + g(k));
    }
}

proof fn lemma_grew_zero(a: Seq<(String, u32)>, f: spec_fn(Seq<char>) -> nat)
    requires
        forall|k: Seq<char>| #[trigger] f(k) == 0,
    ensures
        grew(a, a, f),
{
    assert forall|k: Seq<char>| #[trigger] count_of(a, k) == count_of(a, k) + f(k) by {
        assert(f(k) == 0);
    }
}

/// Count one more declaration of `n`, as a census step.
fn note_one(n: &String, seen: &mut Vec<(String, u32)>)
    requires
        fits(old(seen)@, |k: Seq<char>| name_count(*n, k)),
    ensures
        grew(old(seen)@, final(seen)@, |k: Seq<char>| name_count(*n, k)),
{
    assert(count_of(old(seen)@, n@) + name_count(*n, n@) < u32::MAX);
    let ghost mid = seen@;
    note(seen, n.as_str());
    proof {
        assert forall|k: Seq<char>| #[trigger] count_of(seen@, k) == count_of(old(seen)@, k) + name_count(*n, k) by {
            if k != n@ {
                assert(assoc_first(seen@, k) == assoc_first(mid, k));
            }
        }
    }
}

fn note_label(l: &Option<String>, seen: &mut Vec<(String, u32)>)
    requires
        fits(old(seen)@, |k: Seq<char>| label_count(*l, k)),
    ensures
        grew(old(seen)@, final(seen)@, |k: Seq<char>| label_count(*l, k)),
{
    match l {
        Some(n) => {
            proof {
                assert forall|k: Seq<char>| #[trigger] name_count(*n, k) == label_count(*l, k) by {
                }
                lemma_fits_part(seen@, |k: Seq<char>| name_count(*n, k), |k: Seq<char>| label_count(*l, k));
            }
            note_one(n, seen);
            proof {
                assert forall|k: Seq<char>| #[trigger] count_of(seen@, k) == count_of(old(seen)@, k) + label_count(*l, k) by {
                    assert(count_of(seen@, k) == count_of(old(seen)@, k) + name_count(*n, k));
                }
            }
        },
        None => {
            proof {
                lemma_grew_zero(seen@, |k: Seq<char>| label_count(*l, k));
            }
        },
    }
}

fn note_names(ns: &Vec<DeclName>, seen: &mut Vec<(String, u32)>)
    requires
        fits(old(seen)@, |k: Seq<char>| names_count(ns@, k)),
    ensures
        grew(old(seen)@, final(seen)@, |k: Seq<char>| names_count(ns@, k)),
{
    let mut i: usize = 0;
    assert(ns@.take(0) =~= Seq::<DeclName>::empty());
    proof {
        lemma_grew_zero(seen@, |k: Seq<char>| names_count(ns@.take(0), k));
    }
    while i < ns.len()
        invariant
            i <= ns@.len(),
            fits(old(seen)@, |k: Seq<char>| names_count(ns@, k)),
            grew(old(seen)@, seen@, |k: Seq<char>| names_count(ns@.take(i as int), k)),
        decreases ns@.len() - i,
    {
        assert(ns@.take(i as int + 1).drop_last() =~= ns@.take(i as int));
        let ghost mid = seen@;
        proof {
            assert forall|k: Seq<char>| #[trigger] names_count(ns@, k) >= names_count(ns@.take(i as int), k)
                + name_count(ns@[i as int].name, k) by {
                lemma_names_count_prefix(ns@, i as int + 1, k);
            }
            lemma_fits_after(
                old(seen)@,
                mid,
                |k: Seq<char>| names_count(ns@.take(i as int), k),
                |k: Seq<char>| name_count(ns@[i as int].name, k),
                |k: Seq<char>| names_count(ns@, k),
            );
        }
        note_one(&ns[i].name, seen);
        proof {
            lemma_grew_trans(
                old(seen)@,
                mid,
                seen@,
                |k: Seq<char>| names_count(ns@.take(i as int), k),
                |k: Seq<char>| name_count(ns@[i as int].name, k),
                |k: Seq<char>| names_count(ns@.take(i as int + 1), k),
            );
        }
        i += 1;
    }
    assert(ns@.take(i as int) =~= ns@);
}

proof fn lemma_names_count_prefix(ns: Seq<DeclName>, i: int, k: Seq<char>)
    requires
        0 <= i <= ns.len(),
    ensures
        names_count(ns.take(i), k) <= names_count(ns, k),
    decreases ns.len() - i,
{
    if i < ns.len() {
        lemma_names_count_prefix(ns, i + 1, k);
        assert(ns.take(i + 1).drop_last() =~= ns.take(i));
    } else {
        assert(ns.take(i) =~= ns);
    }
}

fn note_decls(ds: &Vec<NetVarDecl>, seen: &mut Vec<(String, u32)>)
    requires
        fits(old(seen)@, |k: Seq<char>| decls_count(ds@, k)),
    ensures
        grew(old(seen)@, final(seen)@, |k: Seq<char>| decls_count(ds@, k)),
{
    let mut i: usize = 0;
    assert(ds@.take(0) =~= Seq::<NetVarDecl>::empty());
    proof {
        lemma_grew_zero(seen@, |k: Seq<char>| decls_count(ds@.take(0), k));
    }
    while i < ds.len()
        invariant
            i <= ds@.len(),
            fits(old(seen)@, |k: Seq<char>| decls_count(ds@, k)),
            grew(old(seen)@, seen@, |k: Seq<char>| decls_count(ds@.take(i as int), k)),
        decreases ds@.len() - i,
    {
        assert(ds@.take(i as int + 1).drop_last() =~= ds@.take(i as int));
        let ghost mid = seen@;
        proof {
            assert forall|k: Seq<char>| #[trigger] decls_count(ds@, k) >= decls_count(ds@.take(i as int), k)
                + names_count(ds@[i as int].names@, k) by {
                lemma_decls_count_prefix(ds@, i as int + 1, k);
            }
            lemma_fits_after(
                old(seen)@,
                mid,
                |k: Seq<char>| decls_count(ds@.take(i as int), k),
                |k: Seq<char>| names_count(ds@[i as int].names@, k),
                |k: Seq<char>| decls_count(ds@, k),
            );
        }
        note_names(&ds[i].names, seen);
        proof {
            lemma_grew_trans(
                old(seen)@,
                mid,
                seen@,
                |k: Seq<char>| decls_count(ds@.take(i as int), k),
                |k: Seq<char>| names_count(ds@[i as int].names@, k),
                |k: Seq<char>| decls_count(ds@.take(i as int + 1), k),
            );
        }
        i += 1;
    }
    assert(ds@.take(i as int) =~= ds@);
}

proof fn lemma_decls_count_prefix(ds: Seq<NetVarDecl>, i: int, k: Seq<char>)
    requires
        0 <= i <= ds.len(),
    ensures
        decls_count(ds.take(i), k) <= decls_count(ds, k),
    decreases ds.len() - i,
{
    if i < ds.len() {
        lemma_decls_count_prefix(ds, i + 1, k);
        assert(ds.take(i + 1).drop_last() =~= ds.take(i));
    } else {
        assert(ds.take(i) =~= ds);
    }
}

proof fn lemma_stmts_count_prefix(ss: Seq<Stmt>, i: int, k: Seq<char>)
    requires
        0 <= i <= ss.len(),
    ensures
        stmts_local_count(ss.take(i), k) <= stmts_local_count(ss, k),
    decreases ss.len() - i,
{
    if i < ss.len() {
        lemma_stmts_count_prefix(ss, i + 1, k);
        assert(ss.take(i + 1).drop_last() =~= ss.take(i));
    } else {
        assert(ss.take(i) =~= ss);
    }
}

proof fn lemma_items_count_prefix(items: Seq<CaseItem>, i: int, k: Seq<char>)
    requires
        0 <= i <= items.len(),
    ensures
        items_local_count(items.take(i), k) <= items_local_count(items, k),
    decreases items.len() - i,
{
    if i < items.len() {
        lemma_items_count_prefix(items, i + 1, k);
        assert(items.take(i + 1).drop_last() =~= items.take(i));
    } else {
        assert(items.take(i) =~= items);
    }
}

/// The body of a `case` item.
pub open spec fn item_body(it: CaseItem) -> Stmt {
    match it {
        CaseItem::Match { body, .. } => body,
        CaseItem::Default { body } => body,
    }
}

#[verifier::loop_isolation(false)]
fn note_block_stmts(ss: &Vec<Stmt>, seen: &mut Vec<(String, u32)>, Ghost(whole): Ghost<Stmt>)
    requires
        forall|j: int| 0 <= j < ss@.len() ==> decreases_to!(whole => #[trigger] ss@[j]),
        fits(old(seen)@, |k: Seq<char>| stmts_local_count(ss@, k)),
    ensures
        grew(old(seen)@, final(seen)@, |k: Seq<char>| stmts_local_count(ss@, k)),
    decreases whole, 0nat,
{
    let mut i: usize = 0;
    assert(ss@.take(0) =~= Seq::<Stmt>::empty());
    proof {
        lemma_grew_zero(seen@, |k: Seq<char>| stmts_local_count(ss@.take(0), k));
    }
    while i < ss.len()
        invariant
            i <= ss@.len(),
            grew(old(seen)@, seen@, |k: Seq<char>| stmts_local_count(ss@.take(i as int), k)),
        decreases ss@.len() - i,
    {
        assert(ss@.take(i as int + 1).drop_last() =~= ss@.take(i as int));
        let ghost mid = seen@;
        proof {
            assert forall|k: Seq<char>| #[trigger] stmts_local_count(ss@, k) >= stmts_local_count(ss@.take(i as int), k)
                + block_local_count(ss@[i as int], k) by {
                lemma_stmts_count_prefix(ss@, i as int + 1, k);
            }
            lemma_fits_after(
                old(seen)@,
                mid,
                |k: Seq<char>| stmts_local_count(ss@.take(i as int), k),
                |k: Seq<char>| block_local_count(ss@[i as int], k),
                |k: Seq<char>| stmts_local_count(ss@, k),
            );
        }
        note_block_locals(&ss[i], seen);
        proof {
            lemma_grew_trans(
                old(seen)@,
                mid,
                seen@,
                |k: Seq<char>| stmts_local_count(ss@.take(i as int), k),
                |k: Seq<char>| block_local_count(ss@[i as int], k),
                |k: Seq<char>| stmts_local_count(ss@.take(i as int + 1), k),
            );
        }
        i += 1;
    }
    assert(ss@.take(i as int) =~= ss@);
}

/// Count every name a `begin … end` block inside `s` declares.
#[verifier::loop_isolation(false)]
pub fn note_block_locals(s: &Stmt, seen: &mut Vec<(String, u32)>)
    requires
        fits(old(seen)@, |k: Seq<char>| block_local_count(*s, k)),
    ensures
        grew(old(seen)@, final(seen)@, |k: Seq<char>| block_local_count(*s, k)),
    decreases s, 1nat,
{
    match s {
        Stmt::Block { decls, stmts } => {
            proof {
                assert forall|k: Seq<char>| #[trigger] block_local_count(*s, k) >= decls_count(decls@, k)
                    + stmts_local_count(stmts@, k) by {
                }
                lemma_fits_part(seen@, |k: Seq<char>| decls_count(decls@, k), |k: Seq<char>| block_local_count(*s, k));
            }
            let ghost mid = seen@;
            note_decls(decls, seen);
            proof {
                lemma_fits_after(
                    old(seen)@,
                    seen@,
                    |k: Seq<char>| decls_count(decls@, k),
                    |k: Seq<char>| stmts_local_count(stmts@, k),
                    |k: Seq<char>| block_local_count(*s, k),
                );
                assert forall|j: int| 0 <= j < stmts@.len() implies decreases_to!(*s => #[trigger] stmts@[j]) by {
                    assert(decreases_to!(*s => stmts@[j]));
                }
            }
            let ghost mid2 = seen@;
            note_block_stmts(stmts, seen, Ghost(*s));
            proof {
                lemma_grew_trans(
                    old(seen)@,
                    mid2,
                    seen@,
                    |k: Seq<char>| decls_count(decls@, k),
                    |k: Seq<char>| stmts_local_count(stmts@, k),
                    |k: Seq<char>| block_local_count(*s, k),
                );
            }
        },
        Stmt::Fork { stmts } => {
            proof {
                assert forall|j: int| 0 <= j < stmts@.len() implies decreases_to!(*s => #[trigger] stmts@[j]) by {
                    assert(decreases_to!(*s => stmts@[j]));
                }
                assert forall|k: Seq<char>| #[trigger] stmts_local_count(stmts@, k) <= block_local_count(*s, k) by {
                }
                lemma_fits_part(seen@, |k: Seq<char>| stmts_local_count(stmts@, k), |k: Seq<char>| block_local_count(*s, k));
            }
            note_block_stmts(stmts, seen, Ghost(*s));
            proof {
                assert forall|k: Seq<char>| #[trigger] count_of(seen@, k) == count_of(old(seen)@, k) + block_local_count(*s, k) by {
                    assert(count_of(seen@, k) == count_of(old(seen)@, k) + stmts_local_count(stmts@, k));
                }
            }
        },
        Stmt::If { then_s, else_s, .. } => {
            let ghost e_count = |k: Seq<char>| match else_s {
                Some(e) => block_local_count(**e, k),
                None => 0,
            };
            proof {
                assert forall|k: Seq<char>| #[trigger] block_local_count(*s, k) >= block_local_count(**then_s, k)
                    + e_count(k) by {
                }
                lemma_fits_part(seen@, |k: Seq<char>| block_local_count(**then_s, k), |k: Seq<char>| block_local_count(*s, k));
            }
            note_block_locals(then_s, seen);
            let ghost mid = seen@;
            proof {
                lemma_fits_after(
                    old(seen)@,
                    mid,
                    |k: Seq<char>| block_local_count(**then_s, k),
                    e_count,
                    |k: Seq<char>| block_local_count(*s, k),
                );
            }
            match else_s {
                Some(e) => {
                    proof {
                        assert forall|k: Seq<char>| #[trigger] block_local_count(**e, k) <= e_count(k) by {
                        }
                        lemma_fits_part(seen@, |k: Seq<char>| block_local_count(**e, k), e_count);
                    }
                    note_block_locals(e, seen);
                    proof {
                        assert forall|k: Seq<char>| #[trigger] block_local_count(**e, k) == e_count(k) by {
                        }
                    }
                },
                None => {
                    proof {
                        lemma_grew_zero(seen@, e_count);
                    }
                },
            }
            proof {
                assert forall|k: Seq<char>| #[trigger] count_of(seen@, k) == count_of(old(seen)@, k) + block_local_count(*s, k) by {
                    assert(count_of(mid, k) == count_of(old(seen)@, k) + block_local_count(**then_s, k));
                    match else_s {
                        Some(e) => {
                            assert(count_of(seen@, k) == count_of(mid, k) + block_local_count(**e, k));
                        },
                        None => {
                            assert(count_of(seen@, k) == count_of(mid, k) + e_count(k));
                        },
                    }
                }
            }
        },
        Stmt::Case { items, .. } => {
            let mut i: usize = 0;
            assert(items@.take(0) =~= Seq::<CaseItem>::empty());
            proof {
                lemma_grew_zero(seen@, |k: Seq<char>| items_local_count(items@.take(0), k));
            }
            while i < items.len()
                invariant
                    i <= items@.len(),
                    forall|j: int| 0 <= j < items@.len() ==> decreases_to!(*s => #[trigger] items@[j]),
                    grew(old(seen)@, seen@, |k: Seq<char>| items_local_count(items@.take(i as int), k)),
                decreases items@.len() - i,
            {
                assert(items@.take(i as int + 1).drop_last() =~= items@.take(i as int));
                let ghost mid = seen@;
                let body = match &items[i] {
                    CaseItem::Match { body, .. } => body,
                    CaseItem::Default { body } => body,
                };
                assert(*body == item_body(items@[i as int]));
                assert(decreases_to!(*s => *body)) by {
                    assert(decreases_to!(*s => items@[i as int]));
                    assert(decreases_to!(items@[i as int] => *body));
                }
                proof {
                    assert forall|k: Seq<char>| #[trigger] items_local_count(items@, k) >= items_local_count(
                        items@.take(i as int),
                        k,
                    ) + block_local_count(*body, k) by {
                        lemma_items_count_prefix(items@, i as int + 1, k);
                        assert(items@.take(i as int + 1).last() == items@[i as int]);
                    }
                    assert forall|k: Seq<char>| #[trigger] block_local_count(*s, k) == items_local_count(items@, k) by {
                    }
                    lemma_fits_after(
                        old(seen)@,
                        mid,
                        |k: Seq<char>| items_local_count(items@.take(i as int), k),
                        |k: Seq<char>| block_local_count(*body, k),
                        |k: Seq<char>| block_local_count(*s, k),
                    );
                }
                note_block_locals(body, seen);
                proof {
                    assert forall|k: Seq<char>| #[trigger] items_local_count(items@.take(i as int + 1), k)
                        == items_local_count(items@.take(i as int), k) + block_local_count(*body, k) by {
                        assert(items@.take(i as int + 1).last() == items@[i as int]);
                    }
                    lemma_grew_trans(
                        old(seen)@,
                        mid,
                        seen@,
                        |k: Seq<char>| items_local_count(items@.take(i as int), k),
                        |k: Seq<char>| block_local_count(*body, k),
                        |k: Seq<char>| items_local_count(items@.take(i as int + 1), k),
                    );
                }
                i += 1;
            }
            assert(items@.take(i as int) =~= items@);
            proof {
                assert forall|k: Seq<char>| #[trigger] count_of(seen@, k) == count_of(old(seen)@, k) + block_local_count(*s, k) by {
                    assert(count_of(seen@, k) == count_of(old(seen)@, k) + items_local_count(items@, k));
                }
            }
        },
        Stmt::For { body } | Stmt::While { body, .. } | Stmt::Repeat { body, .. } | Stmt::Forever { body } => {
            proof {
                assert forall|k: Seq<char>| #[trigger] block_local_count(**body, k) == block_local_count(*s, k) by {
                }
                lemma_fits_part(seen@, |k: Seq<char>| block_local_count(**body, k), |k: Seq<char>| block_local_count(*s, k));
            }
            note_block_locals(body, seen);
            proof {
                assert forall|k: Seq<char>| #[trigger] count_of(seen@, k) == count_of(old(seen)@, k) + block_local_count(*s, k) by {
                    assert(count_of(seen@, k) == count_of(old(seen)@, k) + block_local_count(**body, k));
                }
            }
        },
        Stmt::DelayCtrl { body } | Stmt::EventCtrl { body } | Stmt::Wait { body, .. } => match body {
            Some(b) => {
                proof {
                    assert forall|k: Seq<char>| #[trigger] block_local_count(**b, k) == block_local_count(*s, k) by {
                    }
                    lemma_fits_part(seen@, |k: Seq<char>| block_local_count(**b, k), |k: Seq<char>| block_local_count(*s, k));
                }
                note_block_locals(b, seen);
                proof {
                    assert forall|k: Seq<char>| #[trigger] count_of(seen@, k) == count_of(old(seen)@, k) + block_local_count(*s, k) by {
                        assert(count_of(seen@, k) == count_of(old(seen)@, k) + block_local_count(**b, k));
                    }
                }
            },
            None => {
                proof {
                    lemma_grew_zero(seen@, |k: Seq<char>| block_local_count(*s, k));
                }
            },
        },
        _ => {
            proof {
                lemma_grew_zero(seen@, |k: Seq<char>| block_local_count(*s, k));
            }
        },
    }
}

fn note_inst_names(ns: &Vec<crate::ast::InstName>, seen: &mut Vec<(String, u32)>)
    requires
        fits(old(seen)@, |k: Seq<char>| inst_names_count(ns@, k)),
    ensures
        grew(old(seen)@, final(seen)@, |k: Seq<char>| inst_names_count(ns@, k)),
{
    let mut i: usize = 0;
    assert(ns@.take(0) =~= Seq::<crate::ast::InstName>::empty());
    proof {
        lemma_grew_zero(seen@, |k: Seq<char>| inst_names_count(ns@.take(0), k));
    }
    while i < ns.len()
        invariant
            i <= ns@.len(),
            fits(old(seen)@, |k: Seq<char>| inst_names_count(ns@, k)),
            grew(old(seen)@, seen@, |k: Seq<char>| inst_names_count(ns@.take(i as int), k)),
        decreases ns@.len() - i,
    {
        assert(ns@.take(i as int + 1).drop_last() =~= ns@.take(i as int));
        let ghost mid = seen@;
        proof {
            assert forall|k: Seq<char>| #[trigger] inst_names_count(ns@, k) >= inst_names_count(ns@.take(i as int), k)
                + name_count(ns@[i as int].name, k) by {
                lemma_inst_count_prefix(ns@, i as int + 1, k);
            }
            lemma_fits_after(
                old(seen)@,
                mid,
                |k: Seq<char>| inst_names_count(ns@.take(i as int), k),
                |k: Seq<char>| name_count(ns@[i as int].name, k),
                |k: Seq<char>| inst_names_count(ns@, k),
            );
        }
        note_one(&ns[i].name, seen);
        proof {
            lemma_grew_trans(
                old(seen)@,
                mid,
                seen@,
                |k: Seq<char>| inst_names_count(ns@.take(i as int), k),
                |k: Seq<char>| name_count(ns@[i as int].name, k),
                |k: Seq<char>| inst_names_count(ns@.take(i as int + 1), k),
            );
        }
        i += 1;
    }
    assert(ns@.take(i as int) =~= ns@);
}

proof fn lemma_inst_count_prefix(ns: Seq<crate::ast::InstName>, i: int, k: Seq<char>)
    requires
        0 <= i <= ns.len(),
    ensures
        inst_names_count(ns.take(i), k) <= inst_names_count(ns, k),
    decreases ns.len() - i,
{
    if i < ns.len() {
        lemma_inst_count_prefix(ns, i + 1, k);
        assert(ns.take(i + 1).drop_last() =~= ns.take(i));
    } else {
        assert(ns.take(i) =~= ns);
    }
}

proof fn lemma_gens_count_prefix(gs: Seq<GenItem>, i: int, k: Seq<char>)
    requires
        0 <= i <= gs.len(),
    ensures
        gens_count(gs.take(i), k) <= gens_count(gs, k),
    decreases gs.len() - i,
{
    if i < gs.len() {
        lemma_gens_count_prefix(gs, i + 1, k);
        assert(gs.take(i + 1).drop_last() =~= gs.take(i));
    } else {
        assert(gs.take(i) =~= gs);
    }
}

proof fn lemma_cases_count_prefix(cs: Seq<GenCaseItem>, i: int, k: Seq<char>)
    requires
        0 <= i <= cs.len(),
    ensures
        gen_cases_count(cs.take(i), k) <= gen_cases_count(cs, k),
    decreases cs.len() - i,
{
    if i < cs.len() {
        lemma_cases_count_prefix(cs, i + 1, k);
        assert(cs.take(i + 1).drop_last() =~= cs.take(i));
    } else {
        assert(cs.take(i) =~= cs);
    }
}

/// The body of a generate `case` arm.
pub open spec fn gen_case_body(c: GenCaseItem) -> Seq<GenItem> {
    match c {
        GenCaseItem::Match { body } => body@,
        GenCaseItem::Default { body } => body@,
    }
}

#[verifier::loop_isolation(false)]
fn census_gens(gs: &Vec<GenItem>, seen: &mut Vec<(String, u32)>, Ghost(whole): Ghost<GenItem>)
    requires
        forall|j: int| 0 <= j < gs@.len() ==> decreases_to!(whole => #[trigger] gs@[j]),
        fits(old(seen)@, |k: Seq<char>| gens_count(gs@, k)),
    ensures
        grew(old(seen)@, final(seen)@, |k: Seq<char>| gens_count(gs@, k)),
    decreases whole, 0nat,
{
    let mut i: usize = 0;
    assert(gs@.take(0) =~= Seq::<GenItem>::empty());
    proof {
        lemma_grew_zero(seen@, |k: Seq<char>| gens_count(gs@.take(0), k));
    }
    while i < gs.len()
        invariant
            i <= gs@.len(),
            grew(old(seen)@, seen@, |k: Seq<char>| gens_count(gs@.take(i as int), k)),
        decreases gs@.len() - i,
    {
        assert(gs@.take(i as int + 1).drop_last() =~= gs@.take(i as int));
        let ghost mid = seen@;
        proof {
            assert forall|k: Seq<char>| #[trigger] gens_count(gs@, k) >= gens_count(gs@.take(i as int), k) + gen_count(
                gs@[i as int],
                k,
            ) by {
                lemma_gens_count_prefix(gs@, i as int + 1, k);
            }
            lemma_fits_after(
                old(seen)@,
                mid,
                |k: Seq<char>| gens_count(gs@.take(i as int), k),
                |k: Seq<char>| gen_count(gs@[i as int], k),
                |k: Seq<char>| gens_count(gs@, k),
            );
        }
        census_gen(&gs[i], seen);
        proof {
            lemma_grew_trans(
                old(seen)@,
                mid,
                seen@,
                |k: Seq<char>| gens_count(gs@.take(i as int), k),
                |k: Seq<char>| gen_count(gs@[i as int], k),
                |k: Seq<char>| gens_count(gs@.take(i as int + 1), k),
            );
        }
        i += 1;
    }
    assert(gs@.take(i as int) =~= gs@);
}

/// Count every name a generate construct declares: its label and, through
/// every arm, the names of its items.
#[verifier::loop_isolation(false)]
pub fn census_gen(gi: &GenItem, seen: &mut Vec<(String, u32)>)
    requires
        fits(old(seen)@, |k: Seq<char>| gen_count(*gi, k)),
    ensures
        grew(old(seen)@, final(seen)@, |k: Seq<char>| gen_count(*gi, k)),
    decreases gi, 1nat,
{
    match gi {
        GenItem::For { label, body: items } | GenItem::Block { label, items } => {
            proof {
                assert forall|k: Seq<char>| #[trigger] gen_count(*gi, k) == label_count(*label, k) + gens_count(items@, k) by {
                }
                lemma_fits_part(seen@, |k: Seq<char>| label_count(*label, k), |k: Seq<char>| gen_count(*gi, k));
            }
            note_label(label, seen);
            let ghost mid = seen@;
            proof {
                lemma_fits_after(
                    old(seen)@,
                    mid,
                    |k: Seq<char>| label_count(*label, k),
                    |k: Seq<char>| gens_count(items@, k),
                    |k: Seq<char>| gen_count(*gi, k),
                );
                assert forall|j: int| 0 <= j < items@.len() implies decreases_to!(*gi => #[trigger] items@[j]) by {
                    assert(decreases_to!(*gi => items@[j]));
                }
            }
            census_gens(items, seen, Ghost(*gi));
            proof {
                lemma_grew_trans(
                    old(seen)@,
                    mid,
                    seen@,
                    |k: Seq<char>| label_count(*label, k),
                    |k: Seq<char>| gens_count(items@, k),
                    |k: Seq<char>| gen_count(*gi, k),
                );
            }
        },
        GenItem::If { label, then_b, else_b } => {
            proof {
                assert forall|k: Seq<char>| #[trigger] gen_count(*gi, k) == label_count(*label, k) + gens_count(then_b@, k)
                    + gens_count(else_b@, k) by {
                }
                lemma_fits_part(seen@, |k: Seq<char>| label_count(*label, k), |k: Seq<char>| gen_count(*gi, k));
            }
            note_label(label, seen);
            let ghost mid = seen@;
            proof {
                lemma_fits_after(
                    old(seen)@,
                    mid,
                    |k: Seq<char>| label_count(*label, k),
                    |k: Seq<char>| gens_count(then_b@, k) + gens_count(else_b@, k),
                    |k: Seq<char>| gen_count(*gi, k),
                );
                lemma_fits_part(
                    mid,
                    |k: Seq<char>| gens_count(then_b@, k),
                    |k: Seq<char>| gens_count(then_b@, k) + gens_count(else_b@, k),
                );
                assert forall|j: int| 0 <= j < then_b@.len() implies decreases_to!(*gi => #[trigger] then_b@[j]) by {
                    assert(decreases_to!(*gi => then_b@[j]));
                }
                assert forall|j: int| 0 <= j < else_b@.len() implies decreases_to!(*gi => #[trigger] else_b@[j]) by {
                    assert(decreases_to!(*gi => else_b@[j]));
                }
            }
            census_gens(then_b, seen, Ghost(*gi));
            let ghost mid2 = seen@;
            proof {
                lemma_fits_after(
                    mid,
                    mid2,
                    |k: Seq<char>| gens_count(then_b@, k),
                    |k: Seq<char>| gens_count(else_b@, k),
                    |k: Seq<char>| gens_count(then_b@, k) + gens_count(else_b@, k),
                );
            }
            census_gens(else_b, seen, Ghost(*gi));
            proof {
                assert forall|k: Seq<char>| #[trigger] count_of(seen@, k) == count_of(old(seen)@, k) + gen_count(*gi, k) by {
                    assert(count_of(mid, k) == count_of(old(seen)@, k) + label_count(*label, k));
                    assert(count_of(mid2, k) == count_of(mid, k) + gens_count(then_b@, k));
                    assert(count_of(seen@, k) == count_of(mid2, k) + gens_count(else_b@, k));
                }
            }
        },
        GenItem::Case { items } => {
            let mut i: usize = 0;
            assert(items@.take(0) =~= Seq::<GenCaseItem>::empty());
            proof {
                lemma_grew_zero(seen@, |k: Seq<char>| gen_cases_count(items@.take(0), k));
            }
            while i < items.len()
                invariant
                    i <= items@.len(),
                    forall|j: int| 0 <= j < items@.len() ==> decreases_to!(*gi => #[trigger] items@[j]),
                    grew(old(seen)@, seen@, |k: Seq<char>| gen_cases_count(items@.take(i as int), k)),
                decreases items@.len() - i,
            {
                assert(items@.take(i as int + 1).drop_last() =~= items@.take(i as int));
                let ghost mid = seen@;
                let body = match &items[i] {
                    GenCaseItem::Match { body } => body,
                    GenCaseItem::Default { body } => body,
                };
                assert(body@ == gen_case_body(items@[i as int]));
                proof {
                    assert forall|j: int| 0 <= j < body@.len() implies decreases_to!(*gi => #[trigger] body@[j]) by {
                        assert(decreases_to!(*gi => items@[i as int]));
                        assert(decreases_to!(items@[i as int] => body@[j]));
                    }
                    assert forall|k: Seq<char>| #[trigger] gen_cases_count(items@, k) >= gen_cases_count(
                        items@.take(i as int),
                        k,
                    ) + gens_count(body@, k) by {
                        lemma_cases_count_prefix(items@, i as int + 1, k);
                        assert(items@.take(i as int + 1).last() == items@[i as int]);
                    }
                    assert forall|k: Seq<char>| #[trigger] gen_count(*gi, k) == gen_cases_count(items@, k) by {
                    }
                    lemma_fits_after(
                        old(seen)@,
                        mid,
                        |k: Seq<char>| gen_cases_count(items@.take(i as int), k),
                        |k: Seq<char>| gens_count(body@, k),
                        |k: Seq<char>| gen_count(*gi, k),
                    );
                }
                census_gens(body, seen, Ghost(*gi));
                proof {
                    assert forall|k: Seq<char>| #[trigger] gen_cases_count(items@.take(i as int + 1), k)
                        == gen_cases_count(items@.take(i as int), k) + gens_count(body@, k) by {
                        assert(items@.take(i as int + 1).last() == items@[i as int]);
                    }
                    lemma_grew_trans(
                        old(seen)@,
                        mid,
                        seen@,
                        |k: Seq<char>| gen_cases_count(items@.take(i as int), k),
                        |k: Seq<char>| gens_count(body@, k),
                        |k: Seq<char>| gen_cases_count(items@.take(i as int + 1), k),
                    );
                }
                i += 1;
            }
            assert(items@.take(i as int) =~= items@);
            proof {
                assert forall|k: Seq<char>| #[trigger] count_of(seen@, k) == count_of(old(seen)@, k) + gen_count(*gi, k) by {
                    assert(count_of(seen@, k) == count_of(old(seen)@, k) + gen_cases_count(items@, k));
                }
            }
        },
        GenItem::Item(b) => {
            proof {
                assert forall|k: Seq<char>| #[trigger] item_count(**b, k) == gen_count(*gi, k) by {
                }
                lemma_fits_part(seen@, |k: Seq<char>| item_count(**b, k), |k: Seq<char>| gen_count(*gi, k));
            }
            census_item(b, seen);
            proof {
                assert forall|k: Seq<char>| #[trigger] count_of(seen@, k) == count_of(old(seen)@, k) + gen_count(*gi, k) by {
                    assert(count_of(seen@, k) == count_of(old(seen)@, k) + item_count(**b, k));
                }
            }
        },
    }
}

/// Count every name a module item declares: a net, parameter, port,
/// instance, genvar, subroutine, type, class, covergroup, `let` or clocking
/// name; the block locals of a procedural block; the names of a generate
/// region.
#[verifier::loop_isolation(false)]
pub fn census_item(it: &ModuleItem, seen: &mut Vec<(String, u32)>)
    requires
        fits(old(seen)@, |k: Seq<char>| item_count(*it, k)),
    ensures
        grew(old(seen)@, final(seen)@, |k: Seq<char>| item_count(*it, k)),
    decreases it, 1nat,
{
    match it {
        ModuleItem::NetVar(d) => {
            note_names(&d.names, seen);
        },
        ModuleItem::Param(p) => {
            note_one(&p.name, seen);
        },
        ModuleItem::PortDecl(ns) | ModuleItem::Genvar(ns) => {
            note_strs(ns, seen);
        },
        ModuleItem::Instance(mi) => {
            note_inst_names(&mi.instances, seen);
        },
        ModuleItem::Func(f) => {
            note_one(&f.name, seen);
        },
        ModuleItem::Task(t) => {
            note_one(&t.name, seen);
        },
        ModuleItem::Typedef(n) | ModuleItem::Class(n) | ModuleItem::Covergroup(n) | ModuleItem::CoverInstance(n)
        | ModuleItem::LetDecl(n) => {
            note_one(n, seen);
        },
        ModuleItem::Clocking(n) => {
            note_label(n, seen);
        },
        ModuleItem::Proc(body) => {
            note_block_locals(body, seen);
        },
        ModuleItem::Generate(items) => {
            let mut i: usize = 0;
            assert(items@.take(0) =~= Seq::<GenItem>::empty());
            proof {
                lemma_grew_zero(seen@, |k: Seq<char>| gens_count(items@.take(0), k));
            }
            while i < items.len()
                invariant
                    i <= items@.len(),
                    forall|j: int| 0 <= j < items@.len() ==> decreases_to!(*it => #[trigger] items@[j]),
                    grew(old(seen)@, seen@, |k: Seq<char>| gens_count(items@.take(i as int), k)),
                decreases items@.len() - i,
            {
                assert(items@.take(i as int + 1).drop_last() =~= items@.take(i as int));
                let ghost mid = seen@;
                proof {
                    assert forall|k: Seq<char>| #[trigger] gens_count(items@, k) >= gens_count(items@.take(i as int), k)
                        + gen_count(items@[i as int], k) by {
                        lemma_gens_count_prefix(items@, i as int + 1, k);
                    }
                    assert forall|k: Seq<char>| #[trigger] item_count(*it, k) == gens_count(items@, k) by {
                    }
                    lemma_fits_after(
                        old(seen)@,
                        mid,
                        |k: Seq<char>| gens_count(items@.take(i as int), k),
                        |k: Seq<char>| gen_count(items@[i as int], k),
                        |k: Seq<char>| item_count(*it, k),
                    );
                }
                census_gen(&items[i], seen);
                proof {
                    lemma_grew_trans(
                        old(seen)@,
                        mid,
                        seen@,
                        |k: Seq<char>| gens_count(items@.take(i as int), k),
                        |k: Seq<char>| gen_count(items@[i as int], k),
                        |k: Seq<char>| gens_count(items@.take(i as int + 1), k),
                    );
                }
                i += 1;
            }
            assert(items@.take(i as int) =~= items@);
            proof {
                assert forall|k: Seq<char>| #[trigger] count_of(seen@, k) == count_of(old(seen)@, k) + item_count(*it, k) by {
                    assert(count_of(seen@, k) == count_of(old(seen)@, k) + gens_count(items@, k));
                }
            }
        },
        _ => {
            proof {
                lemma_grew_zero(seen@, |k: Seq<char>| item_count(*it, k));
            }
        },
    }
}

fn note_params(ps: &Vec<ParamDecl>, seen: &mut Vec<(String, u32)>)
    requires
        fits(old(seen)@, |k: Seq<char>| params_count(ps@, k)),
    ensures
        grew(old(seen)@, final(seen)@, |k: Seq<char>| params_count(ps@, k)),
{
    let mut i: usize = 0;
    assert(ps@.take(0) =~= Seq::<ParamDecl>::empty());
    proof {
        lemma_grew_zero(seen@, |k: Seq<char>| params_count(ps@.take(0), k));
    }
    while i < ps.len()
        invariant
            i <= ps@.len(),
            fits(old(seen)@, |k: Seq<char>| params_count(ps@, k)),
            grew(old(seen)@, seen@, |k: Seq<char>| params_count(ps@.take(i as int), k)),
        decreases ps@.len() - i,
    {
        assert(ps@.take(i as int + 1).drop_last() =~= ps@.take(i as int));
        let ghost mid = seen@;
        proof {
            assert forall|k: Seq<char>| #[trigger] params_count(ps@, k) >= params_count(ps@.take(i as int), k)
                + name_count(ps@[i as int].name, k) by {
                lemma_params_count_prefix(ps@, i as int + 1, k);
            }
            lemma_fits_after(
                old(seen)@,
                mid,
                |k: Seq<char>| params_count(ps@.take(i as int), k),
                |k: Seq<char>| name_count(ps@[i as int].name, k),
                |k: Seq<char>| params_count(ps@, k),
            );
        }
        note_one(&ps[i].name, seen);
        proof {
            lemma_grew_trans(
                old(seen)@,
                mid,
                seen@,
                |k: Seq<char>| params_count(ps@.take(i as int), k),
                |k: Seq<char>| name_count(ps@[i as int].name, k),
                |k: Seq<char>| params_count(ps@.take(i as int + 1), k),
            );
        }
        i += 1;
    }
    assert(ps@.take(i as int) =~= ps@);
}

proof fn lemma_params_count_prefix(ps: Seq<ParamDecl>, i: int, k: Seq<char>)
    requires
        0 <= i <= ps.len(),
    ensures
        params_count(ps.take(i), k) <= params_count(ps, k),
    decreases ps.len() - i,
{
    if i < ps.len() {
        lemma_params_count_prefix(ps, i + 1, k);
        assert(ps.take(i + 1).drop_last() =~= ps.take(i));
    } else {
        assert(ps.take(i) =~= ps);
    }
}

proof fn lemma_body_items_count_prefix(its: Seq<ModuleItem>, i: int, k: Seq<char>)
    requires
        0 <= i <= its.len(),
    ensures
        items_count(its.take(i), k) <= items_count(its, k),
    decreases its.len() - i,
{
    if i < its.len() {
        lemma_body_items_count_prefix(its, i + 1, k);
        assert(its.take(i + 1).drop_last() =~= its.take(i));
    } else {
        assert(its.take(i) =~= its);
    }
}

/// The census of module `m`: for every name, how many times the module
/// declares it (parameters, ports, body items, generate bodies and
/// procedural block locals). Names it never declares do not occur.
pub fn module_census(m: &ModuleDecl) -> (seen: Vec<(String, u32)>)
    requires
        forall|k: Seq<char>| #[trigger] module_count(*m, k) < u32::MAX,
    ensures
        forall|k: Seq<char>| #[trigger] count_of(seen@, k) == module_count(*m, k),
        keys_unique(seen@),
{
    let mut seen: Vec<(String, u32)> = Vec::new();
    let ghost empty = seen@;
    proof {
        assert forall|k: Seq<char>| #[trigger] count_of(empty, k) == 0 by {
            assert(assoc_first(empty, k) is None);
        }
        assert forall|k: Seq<char>| #[trigger] count_of(empty, k) + module_count(*m, k) < u32::MAX by {
            assert(count_of(empty, k) == 0);
        }
        assert forall|k: Seq<char>| #[trigger] params_count(m.params@, k) <= module_count(*m, k) by {
        }
        lemma_fits_part(empty, |k: Seq<char>| params_count(m.params@, k), |k: Seq<char>| module_count(*m, k));
    }
    note_params(&m.params, &mut seen);
    let ghost after_params = seen@;
    proof {
        lemma_fits_after(
            empty,
            after_params,
            |k: Seq<char>| params_count(m.params@, k),
            |k: Seq<char>| ports_count(m.ports, k) + items_count(m.body@, k),
            |k: Seq<char>| module_count(*m, k),
        );
        lemma_fits_part(
            after_params,
            |k: Seq<char>| ports_count(m.ports, k),
            |k: Seq<char>| ports_count(m.ports, k) + items_count(m.body@, k),
        );
    }
    match &m.ports {
        PortList::Ansi(ns) | PortList::NonAnsi(ns) => {
            note_strs(ns, &mut seen);
            proof {
                assert forall|k: Seq<char>| #[trigger] count_of(seen@, k) == count_of(after_params, k) + ports_count(m.ports, k) by {
                    assert(count_of(seen@, k) == count_of(after_params, k) + strs_count(ns@, k));
                }
            }
        },
        PortList::Empty => {
            proof {
                lemma_grew_zero(seen@, |k: Seq<char>| ports_count(m.ports, k));
            }
        },
    }
    let ghost after_ports = seen@;
    proof {
        lemma_fits_after(
            after_params,
            after_ports,
            |k: Seq<char>| ports_count(m.ports, k),
            |k: Seq<char>| items_count(m.body@, k),
            |k: Seq<char>| ports_count(m.ports, k) + items_count(m.body@, k),
        );
        lemma_grew_zero(seen@, |k: Seq<char>| items_count(m.body@.take(0), k));
    }
    let mut i: usize = 0;
    assert(m.body@.take(0) =~= Seq::<ModuleItem>::empty());
    while i < m.body.len()
        invariant
            i <= m.body@.len(),
            fits(after_ports, |k: Seq<char>| items_count(m.body@, k)),
            grew(after_ports, seen@, |k: Seq<char>| items_count(m.body@.take(i as int), k)),
        decreases m.body@.len() - i,
    {
        assert(m.body@.take(i as int + 1).drop_last() =~= m.body@.take(i as int));
        let ghost mid = seen@;
        proof {
            assert forall|k: Seq<char>| #[trigger] items_count(m.body@, k) >= items_count(m.body@.take(i as int), k)
                + item_count(m.body@[i as int], k) by {
                lemma_body_items_count_prefix(m.body@, i as int + 1, k);
            }
            lemma_fits_after(
                after_ports,
                mid,
                |k: Seq<char>| items_count(m.body@.take(i as int), k),
                |k: Seq<char>| item_count(m.body@[i as int], k),
                |k: Seq<char>| items_count(m.body@, k),
            );
        }
        census_item(&m.body[i], &mut seen);
        proof {
            lemma_grew_trans(
                after_ports,
                mid,
                seen@,
                |k: Seq<char>| items_count(m.body@.take(i as int), k),
                |k: Seq<char>| item_count(m.body@[i as int], k),
                |k: Seq<char>| items_count(m.body@.take(i as int + 1), k),
            );
        }
        i += 1;
    }
    assert(m.body@.take(i as int) =~= m.body@);
    proof {
        assert forall|k: Seq<char>| #[trigger] count_of(seen@, k) == module_count(*m, k) by {
            assert(count_of(after_params, k) == count_of(empty, k) + params_count(m.params@, k));
            assert(count_of(after_ports, k) == count_of(after_params, k) + ports_count(m.ports, k));
            assert(count_of(seen@, k) == count_of(after_ports, k) + items_count(m.body@, k));
            assert(count_of(empty, k) == 0);
        }
    }
    seen
}

// ── `defparam` anywhere in the design ──────────────────────────────────

/// A generate construct holds a `defparam` in one of its arms.
pub open spec fn gen_holds_defparam(gi: GenItem) -> bool
    decreases gi,
{
    match gi {
        GenItem::For { body, .. } => gens_hold_defparam(body@),
        GenItem::If { then_b, else_b, .. } => gens_hold_defparam(then_b@) || gens_hold_defparam(else_b@),
        GenItem::Block { items, .. } => gens_hold_defparam(items@),
        GenItem::Case { items } => cases_hold_defparam(items@),
        GenItem::Item(b) => *b is Defparam,
    }
}

pub open spec fn gens_hold_defparam(gs: Seq<GenItem>) -> bool
    decreases gs,
{
    if gs.len() == 0 {
        false
    } else {
        gens_hold_defparam(gs.drop_last()) || gen_holds_defparam(gs.last())
    }
}

pub open spec fn cases_hold_defparam(cs: Seq<GenCaseItem>) -> bool
    decreases cs,
{
    if cs.len() == 0 {
        false
    } else {
        cases_hold_defparam(cs.drop_last()) || gens_hold_defparam(gen_case_body(cs.last()))
    }
}

/// A module body item is a `defparam`, or a generate region holding one.
pub open spec fn item_holds_defparam(it: ModuleItem) -> bool {
    match it {
        ModuleItem::Defparam => true,
        ModuleItem::Generate(items) => gens_hold_defparam(items@),
        _ => false,
    }
}

/// Some module of the design holds a `defparam` at its top level or inside
/// a generate region.
pub open spec fn design_holds_defparam(modules: Seq<ModuleDecl>) -> bool {
    exists|i: int, j: int|
        0 <= i < modules.len() && 0 <= j < modules[i].body@.len() && #[trigger] item_holds_defparam(
            modules[i].body@[j],
        )
}

proof fn lemma_gens_hold_prefix(gs: Seq<GenItem>, i: int)
    requires
        0 <= i <= gs.len(),
    ensures
        gens_hold_defparam(gs) == (gens_hold_defparam(gs.take(i)) || exists|j: int|
            i <= j < gs.len() && #[trigger] gen_holds_defparam(gs[j])),
    decreases gs.len() - i,
{
    if i < gs.len() {
        lemma_gens_hold_prefix(gs, i + 1);
        assert(gs.take(i + 1).drop_last() =~= gs.take(i));
        assert(gs.take(i + 1).last() == gs[i]);
        if gen_holds_defparam(gs[i]) {
            assert(gens_hold_defparam(gs.take(i + 1)));
        }
    } else {
        assert(gs.take(i) =~= gs);
    }
}

proof fn lemma_cases_hold_prefix(cs: Seq<GenCaseItem>, i: int)
    requires
        0 <= i <= cs.len(),
    ensures
        cases_hold_defparam(cs) == (cases_hold_defparam(cs.take(i)) || exists|j: int|
            i <= j < cs.len() && #[trigger] gens_hold_defparam(gen_case_body(cs[j]))),
    decreases cs.len() - i,
{
    if i < cs.len() {
        lemma_cases_hold_prefix(cs, i + 1);
        assert(cs.take(i + 1).drop_last() =~= cs.take(i));
        assert(cs.take(i + 1).last() == cs[i]);
        if gens_hold_defparam(gen_case_body(cs[i])) {
            assert(cases_hold_defparam(cs.take(i + 1)));
        }
    } else {
        assert(cs.take(i) =~= cs);
    }
}

fn gens_scan_defparam(gs: &Vec<GenItem>, Ghost(whole): Ghost<GenItem>) -> (r: bool)
    requires
        forall|j: int| 0 <= j < gs@.len() ==> decreases_to!(whole => #[trigger] gs@[j]),
    ensures
        r == gens_hold_defparam(gs@),
    decreases whole, 0nat,
{
    let mut i: usize = 0;
    assert(gs@.take(0) =~= Seq::<GenItem>::empty());
    while i < gs.len()
        invariant
            i <= gs@.len(),
            forall|j: int| 0 <= j < gs@.len() ==> decreases_to!(whole => #[trigger] gs@[j]),
            !gens_hold_defparam(gs@.take(i as int)),
        decreases gs@.len() - i,
    {
        assert(gs@.take(i as int + 1).drop_last() =~= gs@.take(i as int));
        if gen_scan_defparam(&gs[i]) {
            proof {
                lemma_gens_hold_prefix(gs@, i as int);
                assert(gen_holds_defparam(gs@[i as int]));
            }
            return true;
        }
        i += 1;
    }
    assert(gs@.take(i as int) =~= gs@);
    false
}

#[verifier::loop_isolation(false)]
fn gen_scan_defparam(gi: &GenItem) -> (r: bool)
    ensures
        r == gen_holds_defparam(*gi),
    decreases gi, 1nat,
{
    match gi {
        GenItem::For { body: items, .. } | GenItem::Block { items, .. } => {
            proof {
                assert forall|j: int| 0 <= j < items@.len() implies decreases_to!(*gi => #[trigger] items@[j]) by {
                    assert(decreases_to!(*gi => items@[j]));
                }
            }
            gens_scan_defparam(items, Ghost(*gi))
        },
        GenItem::If { then_b, else_b, .. } => {
            proof {
                assert forall|j: int| 0 <= j < then_b@.len() implies decreases_to!(*gi => #[trigger] then_b@[j]) by {
                    assert(decreases_to!(*gi => then_b@[j]));
                }
                assert forall|j: int| 0 <= j < else_b@.len() implies decreases_to!(*gi => #[trigger] else_b@[j]) by {
                    assert(decreases_to!(*gi => else_b@[j]));
                }
            }
            gens_scan_defparam(then_b, Ghost(*gi)) || gens_scan_defparam(else_b, Ghost(*gi))
        },
        GenItem::Case { items } => {
            let mut i: usize = 0;
            assert(items@.take(0) =~= Seq::<GenCaseItem>::empty());
            while i < items.len()
                invariant
                    i <= items@.len(),
                    forall|j: int| 0 <= j < items@.len() ==> decreases_to!(*gi => #[trigger] items@[j]),
                    !cases_hold_defparam(items@.take(i as int)),
                decreases items@.len() - i,
            {
                assert(items@.take(i as int + 1).drop_last() =~= items@.take(i as int));
                let body = match &items[i] {
                    GenCaseItem::Match { body } => body,
                    GenCaseItem::Default { body } => body,
                };
                assert(body@ == gen_case_body(items@[i as int]));
                proof {
                    assert forall|j: int| 0 <= j < body@.len() implies decreases_to!(*gi => #[trigger] body@[j]) by {
                        assert(decreases_to!(*gi => items@[i as int]));
                        assert(decreases_to!(items@[i as int] => body@[j]));
                    }
                }
                if gens_scan_defparam(body, Ghost(*gi)) {
                    proof {
                        lemma_cases_hold_prefix(items@, i as int);
                        assert(gens_hold_defparam(gen_case_body(items@[i as int])));
                        assert(gen_holds_defparam(*gi) == cases_hold_defparam(items@));
                    }
                    return true;
                }
                i += 1;
            }
            assert(items@.take(i as int) =~= items@);
            false
        },
        GenItem::Item(b) => matches!(**b, ModuleItem::Defparam),
    }
}

/// Whether the generate items hold a `defparam` anywhere in their arms.
pub fn gen_has_defparam(items: &Vec<GenItem>) -> (r: bool)
    ensures
        r == gens_hold_defparam(items@),
{
    let mut i: usize = 0;
    assert(items@.take(0) =~= Seq::<GenItem>::empty());
    while i < items.len()
        invariant
            i <= items@.len(),
            !gens_hold_defparam(items@.take(i as int)),
        decreases items@.len() - i,
    {
        assert(items@.take(i as int + 1).drop_last() =~= items@.take(i as int));
        if gen_scan_defparam(&items[i]) {
            proof {
                lemma_gens_hold_prefix(items@, i as int);
                assert(gen_holds_defparam(items@[i as int]));
            }
            return true;
        }
        i += 1;
    }
    assert(items@.take(i as int) =~= items@);
    false
}

/// Whether some module of the design holds a `defparam`, directly in its body
/// or inside a generate region. Such a design binds child parameters from
/// outside the `#()` channel, so no module's parameter environment is built.
pub fn design_has_defparam(modules: &Vec<ModuleDecl>) -> (r: bool)
    ensures
        r == design_holds_defparam(modules@),
{
    let mut i: usize = 0;
    while i < modules.len()
        invariant
            i <= modules@.len(),
            forall|a: int, j: int|
                0 <= a < i && 0 <= j < modules@[a].body@.len() ==> !#[trigger] item_holds_defparam(
                    modules@[a].body@[j],
                ),
        decreases modules@.len() - i,
    {
        let body = &modules[i].body;
        let mut j: usize = 0;
        while j < body.len()
            invariant
                i < modules@.len(),
                body@ == modules@[i as int].body@,
                j <= body@.len(),
                forall|a: int, b: int|
                    0 <= a < i && 0 <= b < modules@[a].body@.len() ==> !#[trigger] item_holds_defparam(
                        modules@[a].body@[b],
                    ),
                forall|b: int| 0 <= b < j ==> !#[trigger] item_holds_defparam(body@[b]),
            decreases body@.len() - j,
        {
            let hit = match &body[j] {
                ModuleItem::Defparam => true,
                ModuleItem::Generate(items) => gen_has_defparam(items),
                _ => false,
            };
            if hit {
                assert(item_holds_defparam(modules@[i as int].body@[j as int]));
                return true;
            }
            j += 1;
        }
        i += 1;
    }
    false
}

} // verus!
