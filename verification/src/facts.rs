//! The parts of a module's static surface read off its declaration alone:
//! its parameter slots, in the order their defaults may refer to each other,
//! and its body instances. Both consult the module's census: a name the
//! module declares more than once answers nothing.

use vstd::prelude::*;
use crate::ast::{InstName, ModuleDecl, ModuleItem, ParamConn, ParamDecl, ParamKind, ParamType};
use crate::dup::{copy_conns, copy_expr, same_conns, same_expr};
use crate::hier::{count_of, InstFact, ParamSlot};
use crate::names::lookup_first;
use crate::census::{module_census, module_count};

verus! {

/// The parameter declarations of the body's top level, in order.
pub open spec fn body_params(items: Seq<ModuleItem>) -> Seq<ParamDecl>
    decreases items.len(),
{
    if items.len() == 0 {
        Seq::empty()
    } else {
        body_params(items.drop_last()) + match items.last() {
            ModuleItem::Param(p) => seq![p],
            _ => Seq::empty(),
        }
    }
}

/// Every parameter of `m` in slot order: the header list, then the body's.
pub open spec fn decl_params(m: ModuleDecl) -> Seq<ParamDecl> {
    m.params@ + body_params(m.body@)
}

/// The type a parameter is bound with: untyped and plain, or `integer`
/// (which the parser records as signed); any other declaration is a width
/// channel the fold does not model, and leaves the name unbound.
pub open spec fn slot_type(p: ParamDecl) -> Option<ParamType> {
    if p.ty == ParamType::Implicit && p.range is None && !p.signed {
        Some(ParamType::Implicit)
    } else if p.ty == ParamType::Integer && p.range is None && p.signed {
        Some(ParamType::Integer)
    } else {
        None
    }
}

/// Whether the `i`-th parameter of `m` (in slot order) sits where `#()` can
/// reach it: the header list, or the body of a module with no header list.
pub open spec fn header_reachable(m: ModuleDecl, i: int) -> bool {
    i < m.params@.len() || m.params@.len() == 0
}

/// `s` is the slot of declaration `p`.
pub open spec fn slot_of(s: ParamSlot, p: ParamDecl, overridable: bool) -> bool {
    &&& s.name@ == p.name@
    &&& s.overridable == (overridable && p.kind == ParamKind::Parameter)
    &&& s.ty == slot_type(p)
    &&& same_expr(p.value, s.default)
}

fn slot_type_of(p: &ParamDecl) -> (r: Option<ParamType>)
    ensures
        r == slot_type(*p),
{
    let plain = p.range.is_none();
    match p.ty {
        ParamType::Implicit => if plain && !p.signed {
            Some(ParamType::Implicit)
        } else {
            None
        },
        ParamType::Integer => if plain && p.signed {
            Some(ParamType::Integer)
        } else {
            None
        },
        _ => None,
    }
}

fn make_slot(p: &ParamDecl, overridable: bool) -> (s: ParamSlot)
    ensures
        slot_of(s, *p, overridable),
{
    let is_param = match p.kind {
        ParamKind::Parameter => true,
        ParamKind::Localparam => false,
    };
    ParamSlot {
        name: p.name.clone(),
        overridable: overridable && is_param,
        ty: slot_type_of(p),
        default: copy_expr(&p.value),
    }
}

fn census_count(seen: &Vec<(String, u32)>, n: &String) -> (c: u32)
    ensures
        c == count_of(seen@, n@),
{
    match lookup_first(seen, n) {
        Some(c) => c,
        None => 0,
    }
}

proof fn lemma_body_params_step(items: Seq<ModuleItem>, i: int)
    requires
        0 <= i < items.len(),
    ensures
        body_params(items.take(i + 1)) == body_params(items.take(i)) + match items[i] {
            ModuleItem::Param(p) => seq![p],
            _ => Seq::<ParamDecl>::empty(),
        },
{
    assert(items.take(i + 1).drop_last() =~= items.take(i));
    assert(items.take(i + 1).last() == items[i]);
}

/// The module's parameter slots in the order their defaults may refer to
/// each other: the header list, then the body's top-level `parameter` and
/// `localparam` items. `None` when one of them is declared more than once in
/// the module (`seen` is the module's census).
pub fn param_slots(m: &ModuleDecl, seen: &Vec<(String, u32)>) -> (r: Option<Vec<ParamSlot>>)
    ensures
        r is Some <==> forall|i: int| 0 <= i < decl_params(*m).len() ==> count_of(seen@, #[trigger] decl_params(*m)[i].name@) == 1,
        r matches Some(v) ==> v@.len() == decl_params(*m).len() && forall|i: int| 0 <= i < v@.len() ==> #[trigger] slot_of(
            v@[i],
            decl_params(*m)[i],
            header_reachable(*m, i),
        ),
{
    let has_header = m.params.len() > 0;
    let ghost d = decl_params(*m);
    let mut out: Vec<ParamSlot> = Vec::new();
    let mut i: usize = 0;
    while i < m.params.len()
        invariant
            i <= m.params@.len(),
            d == decl_params(*m),
            has_header == (m.params@.len() > 0),
            out@.len() == i,
            forall|j: int| 0 <= j < i ==> count_of(seen@, #[trigger] d[j].name@) == 1,
            forall|j: int| 0 <= j < i ==> #[trigger] slot_of(out@[j], d[j], header_reachable(*m, j)),
        decreases m.params@.len() - i,
    {
        assert(d[i as int] == m.params@[i as int]);
        if census_count(seen, &m.params[i].name) != 1 {
            return None;
        }
        out.push(make_slot(&m.params[i], true));
        i += 1;
    }
    let n_head = m.params.len();
    let mut k: usize = 0;
    assert(m.body@.take(0) =~= Seq::<ModuleItem>::empty());
    while k < m.body.len()
        invariant
            k <= m.body@.len(),
            d == decl_params(*m),
            n_head == m.params@.len(),
            has_header == (n_head > 0),
            out@.len() == n_head + body_params(m.body@.take(k as int)).len(),
            forall|j: int| 0 <= j < out@.len() ==> count_of(seen@, #[trigger] d[j].name@) == 1,
            forall|j: int| 0 <= j < out@.len() ==> #[trigger] slot_of(out@[j], d[j], header_reachable(*m, j)),
            forall|j: int| 0 <= j < body_params(m.body@.take(k as int)).len() ==> #[trigger] d[n_head + j]
                == body_params(m.body@.take(k as int))[j],
        decreases m.body@.len() - k,
    {
        proof {
            lemma_body_params_step(m.body@, k as int);
            lemma_body_params_prefix(m.body@, k as int + 1);
        }
        if let ModuleItem::Param(p) = &m.body[k] {
            let ghost at = out@.len();
            assert(d[at as int] == *p) by {
                assert(body_params(m.body@.take(k as int + 1))[at - n_head] == *p);
            }
            if census_count(seen, &p.name) != 1 {
                return None;
            }
            out.push(make_slot(p, !has_header));
        }
        k += 1;
    }
    assert(m.body@.take(k as int) =~= m.body@);
    Some(out)
}

proof fn lemma_body_params_prefix(items: Seq<ModuleItem>, i: int)
    requires
        0 <= i <= items.len(),
    ensures
        forall|j: int| 0 <= j < body_params(items.take(i)).len() ==> #[trigger] body_params(items.take(i))[j]
            == body_params(items)[j],
        body_params(items.take(i)).len() <= body_params(items).len(),
    decreases items.len() - i,
{
    if i < items.len() {
        lemma_body_params_prefix(items, i + 1);
        lemma_body_params_step(items, i);
        let a = body_params(items.take(i));
        let b = body_params(items.take(i + 1));
        assert forall|j: int| 0 <= j < a.len() implies #[trigger] a[j] == body_params(items)[j] by {
            assert(b[j] == a[j]);
            assert(b[j] == body_params(items)[j]);
        }
    } else {
        assert(items.take(i) =~= items);
    }
}

// ── body instances ───────────────────────────────────────────────────────

/// The instance entries of one instantiation that the hierarchy walk may
/// follow: each instance name with no unpacked dimension that the module
/// declares once, with the instantiated module and its overrides.
pub open spec fn inst_entries(ns: Seq<InstName>, module: String, ovs: Seq<ParamConn>, seen: Seq<(String, u32)>) -> Seq<
    (String, String, Seq<ParamConn>),
>
    decreases ns.len(),
{
    if ns.len() == 0 {
        Seq::empty()
    } else {
        inst_entries(ns.drop_last(), module, ovs, seen) + if ns.last().unpacked@.len() == 0 && count_of(
            seen,
            ns.last().name@,
        ) == 1 {
            seq![(ns.last().name, module, ovs)]
        } else {
            Seq::empty()
        }
    }
}

/// The followable instance entries of the body's top-level instantiations,
/// in order.
pub open spec fn body_inst_entries(items: Seq<ModuleItem>, seen: Seq<(String, u32)>) -> Seq<
    (String, String, Seq<ParamConn>),
>
    decreases items.len(),
{
    if items.len() == 0 {
        Seq::empty()
    } else {
        body_inst_entries(items.drop_last(), seen) + match items.last() {
            ModuleItem::Instance(mi) => inst_entries(mi.instances@, mi.module_name, mi.param_overrides@, seen),
            _ => Seq::empty(),
        }
    }
}

/// `f` is the fact of entry `e`.
pub open spec fn inst_fact_of(f: (String, InstFact), e: (String, String, Seq<ParamConn>)) -> bool {
    f.0 == e.0 && f.1.module == e.1 && same_conns(e.2, f.1.overrides@)
}

/// The body instances of `m` the hierarchy walk may follow, by instance
/// name: the instantiated module and a copy of the `#()` overrides. An
/// instance array, and a name the module declares more than once (`seen` is
/// the module's census), is left out.
pub fn instance_facts(m: &ModuleDecl, seen: &Vec<(String, u32)>) -> (r: Vec<(String, InstFact)>)
    ensures
        r@.len() == body_inst_entries(m.body@, seen@).len(),
        forall|i: int| 0 <= i < r@.len() ==> #[trigger] inst_fact_of(r@[i], body_inst_entries(m.body@, seen@)[i]),
{
    let mut out: Vec<(String, InstFact)> = Vec::new();
    let mut k: usize = 0;
    assert(m.body@.take(0) =~= Seq::<ModuleItem>::empty());
    while k < m.body.len()
        invariant
            k <= m.body@.len(),
            out@.len() == body_inst_entries(m.body@.take(k as int), seen@).len(),
            forall|i: int| 0 <= i < out@.len() ==> #[trigger] inst_fact_of(
                out@[i],
                body_inst_entries(m.body@.take(k as int), seen@)[i],
            ),
        decreases m.body@.len() - k,
    {
        assert(m.body@.take(k as int + 1).drop_last() =~= m.body@.take(k as int));
        assert(m.body@.take(k as int + 1).last() == m.body@[k as int]);
        let ghost pre = body_inst_entries(m.body@.take(k as int), seen@);
        if let ModuleItem::Instance(mi) = &m.body[k] {
            let ns = &mi.instances;
            let mut j: usize = 0;
            assert(ns@.take(0) =~= Seq::<InstName>::empty());
            while j < ns.len()
                invariant
                    j <= ns@.len(),
                    out@.len() == pre.len() + inst_entries(ns@.take(j as int), mi.module_name, mi.param_overrides@, seen@).len(),
                    forall|i: int| 0 <= i < out@.len() ==> #[trigger] inst_fact_of(
                        out@[i],
                        (pre + inst_entries(ns@.take(j as int), mi.module_name, mi.param_overrides@, seen@))[i],
                    ),
                decreases ns@.len() - j,
            {
                assert(ns@.take(j as int + 1).drop_last() =~= ns@.take(j as int));
                assert(ns@.take(j as int + 1).last() == ns@[j as int]);
                let ghost before = out@;
                let ghost e_prev = pre + inst_entries(ns@.take(j as int), mi.module_name, mi.param_overrides@, seen@);
                let ghost e_next = pre + inst_entries(ns@.take(j as int + 1), mi.module_name, mi.param_overrides@, seen@);
                if ns[j].unpacked.len() == 0 && census_count(seen, &ns[j].name) == 1 {
                    let f = InstFact { module: mi.module_name.clone(), overrides: copy_conns(&mi.param_overrides) };
                    out.push((ns[j].name.clone(), f));
                    proof {
                        assert forall|i: int| 0 <= i < out@.len() implies #[trigger] inst_fact_of(out@[i], e_next[i]) by {
                            if i < before.len() {
                                assert(e_next[i] == e_prev[i]);
                                assert(out@[i] == before[i]);
                            }
                        }
                    }
                } else {
                    assert(e_next =~= e_prev);
                }
                j += 1;
            }
            assert(ns@.take(j as int) =~= ns@);
        }
        k += 1;
    }
    assert(m.body@.take(k as int) =~= m.body@);
    out
}

/// The parameter slots of `m` as the hierarchy walk gets them: none at all
/// in a design that holds a `defparam` anywhere (one rebinds a child
/// parameter from outside the `#()` channel), else the slots read against the
/// module's own census.
pub fn module_param_slots(m: &ModuleDecl, design_defparam: bool) -> (r: Option<Vec<ParamSlot>>)
    requires
        forall|k: Seq<char>| #[trigger] module_count(*m, k) < u32::MAX,
    ensures
        design_defparam ==> r is None,
        !design_defparam ==> (r is Some <==> forall|i: int|
            0 <= i < decl_params(*m).len() ==> module_count(*m, #[trigger] decl_params(*m)[i].name@) == 1),
        r matches Some(v) ==> v@.len() == decl_params(*m).len() && forall|i: int| 0 <= i < v@.len() ==> #[trigger] slot_of(
            v@[i],
            decl_params(*m)[i],
            header_reachable(*m, i),
        ),
{
    if design_defparam {
        return None;
    }
    let seen = module_census(m);
    let r = param_slots(m, &seen);
    proof {
        assert forall|i: int| 0 <= i < decl_params(*m).len() implies (count_of(seen@, #[trigger] decl_params(*m)[i].name@) == 1)
            == (module_count(*m, decl_params(*m)[i].name@) == 1) by {
            assert(count_of(seen@, decl_params(*m)[i].name@) == module_count(*m, decl_params(*m)[i].name@));
        }
    }
    r
}

} // verus!
