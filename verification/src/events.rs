//! Event controls: the edge of a sensitivity term, the single-term `iff`
//! guard, and the kind of sensitivity a procedural block gets.

use vstd::prelude::*;
use crate::ast::{Edge, EventExpr, Expr, ProcKind, ProceduralBlock, Sensitivity, Stmt};
use crate::dup::{copy_expr, copy_stmt, same_expr, same_stmt};
use crate::elab::{Elaborator, MsgCode, Severity};
use crate::frames_ast::{has_timing, stmt_has_timing};
use crate::ir;
use crate::ir::{EdgeKind, SensKind};
use crate::names::assoc_first;

verus! {

/// The edge a term arms on: a bare signal arms on any edge.
pub open spec fn edge_kind(e: Edge) -> EdgeKind {
    match e {
        Edge::Posedge => EdgeKind::Posedge,
        Edge::Negedge => EdgeKind::Negedge,
        Edge::NoEdge => EdgeKind::AnyEdge,
    }
}

pub fn map_edge(e: Edge) -> (r: EdgeKind)
    ensures
        r == edge_kind(e),
{
    match e {
        Edge::Posedge => EdgeKind::Posedge,
        Edge::Negedge => EdgeKind::Negedge,
        Edge::NoEdge => EdgeKind::AnyEdge,
    }
}

/// Some term of the list names an explicit edge.
pub open spec fn any_edge(list: Seq<EventExpr>) -> bool {
    exists|i: int| 0 <= i < list.len() && #[trigger] list[i].edge != Edge::NoEdge
}

/// The kind an event list gets: edge when some term names an edge (or an
/// edge is forced, `always_ff`), else level; with no list, edge when forced
/// and combinational otherwise.
pub open spec fn list_kind(sens: Option<Sensitivity>, force_edge: bool) -> SensKind {
    match sens {
        Some(Sensitivity::List(l)) => if force_edge || any_edge(l@) {
            SensKind::Edge
        } else {
            SensKind::Level
        },
        _ => if force_edge {
            SensKind::Edge
        } else {
            SensKind::Comb
        },
    }
}

/// The bare name of an event control with one unguarded, edgeless term
/// that is a single-segment name (`@(cb)`).
pub open spec fn bare_event_name(sens: Option<Sensitivity>) -> Option<Seq<char>> {
    match sens {
        Some(Sensitivity::List(l)) => if l@.len() == 1 && l@[0].edge == Edge::NoEdge && l@[0].iff is None {
            match l@[0].expr {
                Expr::Ident(p) => if p.segments@.len() == 1 {
                    Some(p.segments@[0]@)
                } else {
                    None
                },
                _ => None,
            }
        } else {
            None
        },
        _ => None,
    }
}

/// The clocking event `@(cb)` stands for, when `cb` names a clocking block
/// of the table `t`.
pub open spec fn clocking_subst(t: Seq<(String, Sensitivity)>, sens: Option<Sensitivity>) -> Option<Sensitivity> {
    match bare_event_name(sens) {
        Some(n) => assoc_first(t, n),
        None => None,
    }
}

/// The event control that is lowered: a clocking block's event in place
/// of `@(cb)`, else the control as written.
pub open spec fn effective_events(t: Seq<(String, Sensitivity)>, sens: Option<Sensitivity>) -> Option<Sensitivity> {
    match clocking_subst(t, sens) {
        Some(ev) => Some(ev),
        None => sens,
    }
}

/// No clocking event is itself a bare clocking-block name.
pub open spec fn clocking_wf(t: Seq<(String, Sensitivity)>) -> bool {
    forall|i: int| 0 <= i < t.len() ==> clocking_subst(t, Some(#[trigger] t[i].1)) is None
}

/// The kind of sensitivity a procedural block of `kind` and event control
/// `sens` is scheduled by (`t` the clocking table): `initial` / `final` run
/// once, `always_comb` is combinational, `always_latch` a latch,
/// `always_ff` an edge list, `always @*` level (no run at time zero),
/// `always @(list)` by its (clocking-substituted) list, and a bare `always`
/// (self-timed or not) combinational-shaped.
pub open spec fn sens_kind(t: Seq<(String, Sensitivity)>, kind: ProcKind, sens: Option<Sensitivity>) -> SensKind {
    match kind {
        ProcKind::Initial | ProcKind::Final => SensKind::Initial,
        ProcKind::AlwaysComb => SensKind::Comb,
        ProcKind::AlwaysLatch => SensKind::Latch,
        ProcKind::AlwaysFf => list_kind(effective_events(t, sens), true),
        ProcKind::Always => match sens {
            None => SensKind::Comb,
            Some(Sensitivity::Star) => SensKind::Level,
            Some(Sensitivity::List(_)) => list_kind(effective_events(t, sens), false),
        },
    }
}

/// The terms of the lowered event list: for a list (after the clocking
/// substitution) of an `always_ff` or `always @(list)`, one term per event
/// in source order, sensing the net given for it; none otherwise.
pub open spec fn sens_terms_lowered(
    t: Seq<(String, Sensitivity)>,
    kind: ProcKind,
    sens: Option<Sensitivity>,
    nets: Seq<u32>,
    edges: Seq<ir::EdgeTerm>,
) -> bool {
    if kind == ProcKind::AlwaysFf || (kind == ProcKind::Always && sens matches Some(Sensitivity::List(_))) {
        terms_lowered(effective_events(t, sens), nets, edges)
    } else {
        edges.len() == 0
    }
}

/// `edges` holds, for each term of the list `sens`, the net given for it
/// and its edge; no terms without a list.
pub open spec fn terms_lowered(sens: Option<Sensitivity>, nets: Seq<u32>, edges: Seq<ir::EdgeTerm>) -> bool {
    match sens {
        Some(Sensitivity::List(l)) => edges.len() == l@.len() && forall|i: int|
            0 <= i < l@.len() ==> #[trigger] edges[i] == (ir::EdgeTerm { net: nets[i], kind: edge_kind(l@[i].edge) }),
        _ => edges.len() == 0,
    }
}

/// How many nets the lowered event list needs.
pub open spec fn nets_needed(t: Seq<(String, Sensitivity)>, kind: ProcKind, sens: Option<Sensitivity>) -> int {
    if kind == ProcKind::AlwaysFf || (kind == ProcKind::Always && sens matches Some(Sensitivity::List(_))) {
        match effective_events(t, sens) {
            Some(Sensitivity::List(l)) => l@.len() as int,
            _ => 0,
        }
    } else {
        0
    }
}

/// Does lowering warn: an `always_ff` without an event list (after the
/// clocking substitution), or an `always` with neither an event control
/// nor timing in its body (an inert process)?
pub open spec fn sens_warns(t: Seq<(String, Sensitivity)>, kind: ProcKind, sens: Option<Sensitivity>, body: Stmt) -> bool {
    match kind {
        ProcKind::AlwaysFf => !(effective_events(t, sens) matches Some(Sensitivity::List(_))),
        ProcKind::Always => sens is None && !has_timing(body),
        _ => false,
    }
}

pub open spec fn sens_warning(kind: ProcKind) -> Seq<char> {
    if kind == ProcKind::AlwaysFf {
        "always_ff requires an explicit @(edge ...) list"@
    } else {
        "always with neither @(...) nor in-body timing is unschedulable; lowered as an inert process"@
    }
}

/// The message of an `iff` on a list of several terms.
pub open spec fn multi_iff_msg() -> Seq<char> {
    "an `iff` guard on a multi-term event control is unsupported (only a single guarded term `@(edge sig iff cond)` is supported)"@
}

pub open spec fn opt_sens(s: Option<&Sensitivity>) -> Option<Sensitivity> {
    match s {
        Some(x) => Some(*x),
        None => None,
    }
}

fn list_has_edge(list: &Vec<EventExpr>) -> (r: bool)
    ensures
        r == any_edge(list@),
{
    let mut i: usize = 0;
    while i < list.len()
        invariant
            i <= list@.len(),
            forall|j: int| 0 <= j < i ==> (#[trigger] list@[j]).edge == Edge::NoEdge,
        decreases list@.len() - i,
    {
        if list[i].edge != Edge::NoEdge {
            return true;
        }
        i += 1;
    }
    false
}

impl Elaborator {
    /// The single-term `iff` guard of an event control (`@(edge sig iff g)`):
    /// `None` when no term has one; an `iff` on a list of several terms is
    /// refused with one error and gives `None`.
    pub fn event_iff_guard<'a>(&mut self, ctrl: &'a Sensitivity) -> (r: Option<&'a Expr>)
        ensures
            match *ctrl {
                Sensitivity::List(terms) => if forall|i: int| 0 <= i < terms@.len() ==> (#[trigger] terms@[i]).iff is None {
                    r is None && *final(self) == *old(self)
                } else if terms@.len() != 1 {
                    r is None && final(self).had_error && final(self).diags@.len() == old(self).diags@.len() + 1
                        && final(self).diags@.take(old(self).diags@.len() as int) == old(self).diags@
                        && final(self).diags@.last().severity == Severity::Error
                        && final(self).diags@.last().code == MsgCode::ElabUnsupported
                        && final(self).diags@.last().message@ == multi_iff_msg() && final(self).exprs
                        == old(self).exprs && final(self).tables == old(self).tables
                } else {
                    r == Some(&terms@[0].iff.unwrap()) && *final(self) == *old(self)
                },
                Sensitivity::Star => r is None && *final(self) == *old(self),
            },
    {
        let terms = match ctrl {
            Sensitivity::List(terms) => terms,
            Sensitivity::Star => return None,
        };
        let mut i: usize = 0;
        let mut any = false;
        while i < terms.len()
            invariant
                i <= terms@.len(),
                !any ==> forall|j: int| 0 <= j < i ==> (#[trigger] terms@[j]).iff is None,
                any ==> exists|j: int| 0 <= j < terms@.len() && (#[trigger] terms@[j]).iff is Some,
            decreases terms@.len() - i,
        {
            if terms[i].iff.is_some() {
                any = true;
            }
            i += 1;
        }
        if !any {
            return None;
        }
        if terms.len() != 1 {
            let ghost d0 = self.diags@;
            self.error(
                MsgCode::ElabUnsupported,
                "an `iff` guard on a multi-term event control is unsupported (only a single guarded term `@(edge sig iff cond)` is supported)",
            );
            proof {
                assert(self.diags@.take(d0.len() as int) =~= d0);
            }
            return None;
        }
        match &terms[0].iff {
            Some(g) => Some(g),
            None => None,
        }
    }

    /// The clocking event `@(cb)` stands for, when `cb` names a clocking
    /// block of the module.
    pub fn clocking_event_subst(&self, sens: Option<&Sensitivity>) -> (r: Option<&Sensitivity>)
        ensures
            match r {
                Some(x) => clocking_subst(self.tables.clocking_events@, opt_sens(sens)) == Some(*x),
                None => clocking_subst(self.tables.clocking_events@, opt_sens(sens)) is None,
            },
    {
        let l = match sens {
            Some(Sensitivity::List(l)) => l,
            _ => return None,
        };
        if l.len() != 1 || l[0].edge != Edge::NoEdge || l[0].iff.is_some() {
            return None;
        }
        let n = match &l[0].expr {
            Expr::Ident(p) => {
                if p.segments.len() != 1 {
                    return None;
                }
                &p.segments[0]
            },
            _ => return None,
        };
        let t = &self.tables.clocking_events;
        let mut i: usize = 0;
        assert(t@.skip(0) =~= t@);
        assert(bare_event_name(opt_sens(sens)) == Some(n@));
        while i < t.len()
            invariant
                i <= t@.len(),
                t == &self.tables.clocking_events,
                bare_event_name(opt_sens(sens)) == Some(n@),
                assoc_first(t@, n@) == assoc_first(t@.skip(i as int), n@),
            decreases t@.len() - i,
        {
            assert(t@.skip(i as int).drop_first() =~= t@.skip(i as int + 1));
            if t[i].0 == *n {
                assert(t@.skip(i as int)[0] == t@[i as int]);
                assert(assoc_first(t@.skip(i as int), n@) == Some(t@[i as int].1));
                return Some(&t[i].1);
            }
            i += 1;
        }
        None
    }

    /// Lower an event list: the clocking substitution first, then an edge
    /// list when some term names an edge or `force_edge` (`always_ff`) pins
    /// it, else a level list, its terms in source order; no list gives a
    /// combinational (or, forced, an edge) kind with no terms, and warns when
    /// forced. `term_nets` holds the net each term of the lowered list
    /// senses.
    pub fn classify_event_list(&mut self, sens: Option<&Sensitivity>, force_edge: bool, term_nets: &Vec<u32>) -> (r:
        ir::Sensitivity)
        requires
            clocking_wf(old(self).tables.clocking_events@),
            effective_events(old(self).tables.clocking_events@, opt_sens(sens)) matches Some(Sensitivity::List(l))
                ==> term_nets@.len() == l@.len(),
        ensures
            ({
                let eff = effective_events(old(self).tables.clocking_events@, opt_sens(sens));
                &&& r.kind == list_kind(eff, force_edge)
                &&& terms_lowered(eff, term_nets@, r.edges@)
                &&& (force_edge && !(eff matches Some(Sensitivity::List(_)))) ==> {
                    &&& final(self).diags@.len() == old(self).diags@.len() + 1
                    &&& final(self).diags@.take(old(self).diags@.len() as int) == old(self).diags@
                    &&& final(self).diags@.last().severity == Severity::Warning
                    &&& final(self).diags@.last().message@ == sens_warning(ProcKind::AlwaysFf)
                    &&& final(self).had_error == old(self).had_error
                    &&& final(self).exprs == old(self).exprs
                    &&& final(self).tables == old(self).tables
                }
                &&& !(force_edge && !(eff matches Some(Sensitivity::List(_)))) ==> *final(self) == *old(self)
            }),
    {
        let ghost t = self.tables.clocking_events@;
        let sub = self.clocking_event_subst(sens);
        let eff: Option<&Sensitivity> = match sub {
            Some(ev) => Some(ev),
            None => sens,
        };
        assert(opt_sens(eff) == effective_events(t, opt_sens(sens)));
        let l = match eff {
            Some(Sensitivity::List(l)) => l,
            _ => {
                if force_edge {
                    let ghost d0 = self.diags@;
                    self.warn("always_ff requires an explicit @(edge ...) list");
                    proof {
                        assert(self.diags@.take(d0.len() as int) =~= d0);
                    }
                    return ir::Sensitivity { kind: SensKind::Edge, edges: Vec::new() };
                }
                return ir::Sensitivity { kind: SensKind::Comb, edges: Vec::new() };
            },
        };
        let any = force_edge || list_has_edge(l);
        let mut edges: Vec<ir::EdgeTerm> = Vec::new();
        let mut i: usize = 0;
        while i < l.len()
            invariant
                i <= l@.len(),
                term_nets@.len() == l@.len(),
                edges@.len() == i,
                forall|j: int|
                    0 <= j < i ==> #[trigger] edges@[j] == (ir::EdgeTerm { net: term_nets@[j], kind: edge_kind(l@[j].edge) }),
            decreases l@.len() - i,
        {
            edges.push(ir::EdgeTerm { net: term_nets[i], kind: map_edge(l[i].edge) });
            i += 1;
        }
        ir::Sensitivity {
            kind: if any {
                SensKind::Edge
            } else {
                SensKind::Level
            },
            edges,
        }
    }

    /// Lower a procedural block's kind and event control to the sensitivity
    /// it is scheduled by (see [`sens_kind`]), its terms in source order
    /// (`term_nets` the net each term of the clocking-substituted list
    /// senses), warning where [`sens_warns`] says so.
    pub fn lower_sensitivity(&mut self, kind: ProcKind, sens: Option<&Sensitivity>, body: &Stmt, term_nets: &Vec<u32>) -> (r:
        ir::Sensitivity)
        requires
            clocking_wf(old(self).tables.clocking_events@),
            term_nets@.len() == nets_needed(old(self).tables.clocking_events@, kind, opt_sens(sens)),
        ensures
            ({
                let t = old(self).tables.clocking_events@;
                &&& r.kind == sens_kind(t, kind, opt_sens(sens))
                &&& sens_terms_lowered(t, kind, opt_sens(sens), term_nets@, r.edges@)
                &&& !sens_warns(t, kind, opt_sens(sens), *body) ==> *final(self) == *old(self)
                &&& sens_warns(t, kind, opt_sens(sens), *body) ==> {
                    &&& final(self).diags@.len() == old(self).diags@.len() + 1
                    &&& final(self).diags@.take(old(self).diags@.len() as int) == old(self).diags@
                    &&& final(self).diags@.last().severity == Severity::Warning
                    &&& final(self).diags@.last().message@ == sens_warning(kind)
                    &&& final(self).had_error == old(self).had_error
                    &&& final(self).exprs == old(self).exprs
                    &&& final(self).tables == old(self).tables
                }
            }),
    {
        match kind {
            ProcKind::Initial | ProcKind::Final => ir::Sensitivity { kind: SensKind::Initial, edges: Vec::new() },
            ProcKind::AlwaysComb => ir::Sensitivity { kind: SensKind::Comb, edges: Vec::new() },
            ProcKind::AlwaysLatch => ir::Sensitivity { kind: SensKind::Latch, edges: Vec::new() },
            ProcKind::AlwaysFf => self.classify_event_list(sens, true, term_nets),
            ProcKind::Always => match sens {
                None => {
                    if !stmt_has_timing(body) {
                        let ghost d0 = self.diags@;
                        self.warn(
                            "always with neither @(...) nor in-body timing is unschedulable; lowered as an inert process",
                        );
                        proof {
                            assert(self.diags@.take(d0.len() as int) =~= d0);
                        }
                    }
                    ir::Sensitivity { kind: SensKind::Comb, edges: Vec::new() }
                },
                Some(Sensitivity::Star) => ir::Sensitivity { kind: SensKind::Level, edges: Vec::new() },
                Some(Sensitivity::List(_)) => self.classify_event_list(sens, false, term_nets),
            },
        }
    }
}

// ── rewriting a guarded event control ────────────────────────────────────

/// The one term of an event control that has a single term carrying an
/// `iff` guard.
pub open spec fn single_iff_term(s: Sensitivity) -> Option<EventExpr> {
    match s {
        Sensitivity::List(terms) => if terms@.len() == 1 && terms@[0].iff is Some {
            Some(terms@[0])
        } else {
            None
        },
        Sensitivity::Star => None,
    }
}

/// An event control of several terms, one of which carries an `iff` guard.
pub open spec fn multi_iff(s: Sensitivity) -> bool {
    match s {
        Sensitivity::List(terms) => terms@.len() != 1 && exists|i: int|
            0 <= i < terms@.len() && (#[trigger] terms@[i]).iff is Some,
        Sensitivity::Star => false,
    }
}

/// `q` is `p` with its guarded term `t` rewritten: the event control keeps
/// the term without its guard, and the body runs under `if (guard)`.
pub open spec fn guard_moved_into_body(p: ProceduralBlock, t: EventExpr, q: ProceduralBlock) -> bool {
    &&& q.kind == p.kind
    &&& match q.sensitivity {
        Some(Sensitivity::List(ts)) => ts@.len() == 1 && ts@[0].edge == t.edge && same_expr(t.expr, ts@[0].expr)
            && ts@[0].iff is None,
        _ => false,
    }
    &&& match *q.body {
        Stmt::If { cond, then_s, else_s } => same_expr(t.iff.unwrap(), cond) && same_stmt(*p.body, *then_s)
            && else_s is None,
        _ => false,
    }
}

impl Elaborator {
    /// Rewrite `always @(edge sig iff g) S` to `always @(edge sig) if (g) S`:
    /// the lowered event control has no place for a guard, so the guard
    /// rides on the body. `None` when the block has no single guarded term;
    /// a guard on a list of several terms is refused with one error (see
    /// [`Self::event_iff_guard`]).
    pub fn desugar_event_iff(&mut self, p: &ProceduralBlock) -> (r: Option<ProceduralBlock>)
        ensures
            r is Some <==> (p.sensitivity matches Some(s) && single_iff_term(s) is Some),
            r matches Some(q) ==> (p.sensitivity matches Some(s) && guard_moved_into_body(
                *p,
                single_iff_term(s).unwrap(),
                q,
            )),
            (p.sensitivity matches Some(s) && multi_iff(s)) ==> {
                &&& final(self).had_error
                &&& final(self).diags@.len() == old(self).diags@.len() + 1
                &&& final(self).diags@.take(old(self).diags@.len() as int) == old(self).diags@
                &&& final(self).diags@.last().severity == Severity::Error
                &&& final(self).diags@.last().code == MsgCode::ElabUnsupported
                &&& final(self).diags@.last().message@ == multi_iff_msg()
                &&& final(self).exprs == old(self).exprs
                &&& final(self).tables == old(self).tables
            },
            !(p.sensitivity matches Some(s) && multi_iff(s)) ==> *final(self) == *old(self),
    {
        let sens = match &p.sensitivity {
            Some(s) => s,
            None => return None,
        };
        let guard = match self.event_iff_guard(sens) {
            Some(g) => g,
            None => return None,
        };
        let terms = match sens {
            Sensitivity::List(t) => t,
            Sensitivity::Star => return None,
        };
        let t0 = &terms[0];
        let term = EventExpr { edge: t0.edge, expr: copy_expr(&t0.expr), iff: None };
        let stripped = Sensitivity::List(vec![term]);
        let body = Stmt::If { cond: copy_expr(guard), then_s: Box::new(copy_stmt(&p.body)), else_s: None };
        Some(ProceduralBlock { kind: p.kind, sensitivity: Some(stripped), body: Box::new(body) })
    }
}

} // verus!
