//! Which of the module's functions and tasks are lowered through a frame:
//! the direct reasons (lifetime, body shape, formals) and recursion, direct
//! or mutual, found on the call graph.

use vstd::prelude::*;
use crate::ast::{Dim, FunctionDef, PortDir, TaskDef, TfPort};
use crate::calls::{collect_callee_stmt, stmt_calls};
use crate::elab::{Elaborator, FuncEntry};
use crate::expr_ctx::{assign_needs_context_width, assign_needs_cw};
use crate::frames_ast::{
    body_needs_frame, body_reads_only_locals, body_selects_mdpacked_local, is_fn_local,
    needs_frame, selects_mdpacked, stmt_reads_only,
};
use crate::graph::{adj_view, adj_wf, edge, lemma_reaches_by, reach_by, reachable_from, reaches, reaches_by};
use crate::names::{contains_name, has_name, lemma_has_name_push};

verus! {

// ── call graphs over named nodes ─────────────────────────────────────────

/// Node `j` is the first node carrying its name.
pub open spec fn is_first_named(names: Seq<String>, j: int) -> bool {
    0 <= j < names.len() && forall|i: int| 0 <= i < j ==> #[trigger] names[i]@ != names[j]@
}

/// `x → y`: node `x` calls the name of node `y`, and `y` is the node that
/// name resolves to (its first carrier).
pub open spec fn named_edge(names: Seq<String>, callees: Seq<Vec<String>>, x: int, y: int) -> bool {
    0 <= x < names.len() && x < callees.len() && is_first_named(names, y) && has_name(
        callees[x]@,
        names[y]@,
    )
}

/// The adjacency lists of the call graph among `names`, where node `x` calls
/// the names `callees[x]`.
fn named_adjacency(names: &Vec<String>, callees: &Vec<Vec<String>>) -> (adj: Vec<Vec<usize>>)
    requires
        callees@.len() == names@.len(),
    ensures
        adj@.len() == names@.len(),
        adj_wf(adj_view(adj@)),
        forall|x: int, y: int| #[trigger] edge(adj_view(adj@), x, y) == named_edge(names@, callees@, x, y),
{
    let n = names.len();
    let mut first: Vec<bool> = Vec::new();
    let mut j: usize = 0;
    while j < n
        invariant
            j <= n,
            n == names@.len(),
            first@.len() == j,
            forall|y: int| 0 <= y < j ==> first@[y] == is_first_named(names@, y),
        decreases n - j,
    {
        let mut f = true;
        let mut i: usize = 0;
        while i < j
            invariant
                i <= j,
                j < n,
                n == names@.len(),
                f == forall|t: int| 0 <= t < i ==> #[trigger] names@[t]@ != names@[j as int]@,
            decreases j - i,
        {
            if names[i] == names[j] {
                f = false;
            }
            i += 1;
        }
        first.push(f);
        j += 1;
    }
    let mut adj: Vec<Vec<usize>> = Vec::new();
    let mut x: usize = 0;
    while x < n
        invariant
            x <= n,
            n == names@.len(),
            callees@.len() == n,
            first@.len() == n,
            forall|y: int| 0 <= y < n ==> first@[y] == is_first_named(names@, y),
            adj@.len() == x,
            forall|a: int, b: int| 0 <= a < x && 0 <= b < adj@[a]@.len() ==> (#[trigger] adj@[a]@[b]) < n,
            forall|a: int, y: int|
                0 <= a < x && 0 <= y < n ==> (#[trigger] adj@[a]@.contains(y as usize) == named_edge(
                    names@,
                    callees@,
                    a,
                    y,
                )),
        decreases n - x,
    {
        let mut row: Vec<usize> = Vec::new();
        let mut y: usize = 0;
        while y < n
            invariant
                y <= n,
                x < n,
                n == names@.len(),
                callees@.len() == n,
                first@.len() == n,
                forall|t: int| 0 <= t < n ==> first@[t] == is_first_named(names@, t),
                forall|b: int| 0 <= b < row@.len() ==> (#[trigger] row@[b]) < y,
                forall|t: int|
                    0 <= t < n ==> (#[trigger] row@.contains(t as usize) == (t < y && named_edge(
                        names@,
                        callees@,
                        x as int,
                        t,
                    ))),
            decreases n - y,
        {
            if first[y] && contains_name(&callees[x], &names[y]) {
                let ghost before = row@;
                row.push(y);
                proof {
                    assert forall|t: int| 0 <= t < n implies (#[trigger] row@.contains(t as usize)
                        == (t < y + 1 && named_edge(names@, callees@, x as int, t))) by {
                        if t == y as int {
                            assert(row@[row@.len() - 1] == y);
                        } else {
                            if row@.contains(t as usize) {
                                let b = choose|b: int| 0 <= b < row@.len() && row@[b] == t as usize;
                                if b < before.len() {
                                    assert(before[b] == t as usize);
                                }
                            }
                            if before.contains(t as usize) {
                                let b = choose|b: int| 0 <= b < before.len() && before[b] == t as usize;
                                assert(row@[b] == t as usize);
                            }
                        }
                    }
                }
            } else {
                proof {
                    assert forall|t: int| 0 <= t < n implies (#[trigger] row@.contains(t as usize)
                        == (t < y + 1 && named_edge(names@, callees@, x as int, t))) by {
                        if t == y as int && row@.contains(t as usize) {
                            let b = choose|b: int| 0 <= b < row@.len() && row@[b] == t as usize;
                            assert(row@[b] < y);
                        }
                    }
                }
            }
            y += 1;
        }
        adj.push(row);
        proof {
            assert forall|a: int, y: int|
                0 <= a < x + 1 && 0 <= y < n implies (#[trigger] adj@[a]@.contains(y as usize)
                == named_edge(names@, callees@, a, y)) by {
            }
        }
        x += 1;
    }
    proof {
        let g = adj_view(adj@);
        assert forall|a: int, b: int| 0 <= a < g.len() && 0 <= b < g[a].len() implies (#[trigger] g[a][b]) < g.len() by {
            assert(g[a] == adj@[a]@);
        }
        assert forall|a: int, y: int| #[trigger] edge(g, a, y) == named_edge(names@, callees@, a, y) by {
            if 0 <= a < n {
                assert(g[a] == adj@[a]@);
            }
            if named_edge(names@, callees@, a, y) {
                assert(0 <= y < n);
            }
        }
    }
    adj
}

/// Which named nodes lie on a cycle of the call graph (call themselves,
/// directly or through others)?
fn on_cycle(names: &Vec<String>, callees: &Vec<Vec<String>>) -> (r: Vec<bool>)
    requires
        callees@.len() == names@.len(),
    ensures
        r@.len() == names@.len(),
        forall|i: int|
            0 <= i < r@.len() ==> r@[i] == reaches_by(
                |x: int, y: int| named_edge(names@, callees@, x, y),
                i,
                i,
            ),
{
    let adj = named_adjacency(names, callees);
    let ghost g = adj_view(adj@);
    let mut r: Vec<bool> = Vec::new();
    let mut i: usize = 0;
    while i < names.len()
        invariant
            i <= names@.len(),
            adj@.len() == names@.len(),
            g == adj_view(adj@),
            adj_wf(g),
            forall|x: int, y: int| #[trigger] edge(g, x, y) == named_edge(names@, callees@, x, y),
            r@.len() == i,
            forall|t: int|
                0 <= t < i ==> r@[t] == reaches_by(
                    |x: int, y: int| named_edge(names@, callees@, x, y),
                    t,
                    t,
                ),
        decreases names@.len() - i,
    {
        let reach = reachable_from(&adj, i);
        proof {
            assert forall|x: int, y: int| #[trigger] edge(g, x, y) == (|x: int, y: int| named_edge(names@, callees@, x, y))(x, y) by {
            }
            lemma_reaches_by(g, |x: int, y: int| named_edge(names@, callees@, x, y), i as int, i as int);
        }
        r.push(reach[i]);
        i += 1;
    }
    r
}

// ── functions ────────────────────────────────────────────────────────────

/// The declared return widths of the table's functions, where they fold,
/// in table order.
pub open spec fn ret_width_table(es: Seq<FuncEntry>) -> Seq<(String, u32)>
    decreases es.len(),
{
    if es.len() == 0 {
        Seq::empty()
    } else {
        let t = ret_width_table(es.drop_last());
        match es.last().ret_width {
            Some(w) => t.push((es.last().def.name, w)),
            None => t,
        }
    }
}

/// The names of the table's functions.
pub open spec fn func_names(es: Seq<FuncEntry>) -> Seq<String> {
    Seq::new(es.len(), |i: int| es[i].def.name)
}

/// Some formal of `ports` is an unpacked array.
pub open spec fn has_unpacked_formal(ports: Seq<TfPort>) -> bool {
    exists|p: int| 0 <= p < ports.len() && #[trigger] ports[p].unpacked@.len() > 0
}

/// Why function `i` of the table needs a frame on its own: a `string`
/// return; else — unless it is inline-aliased (read-only dynamic-array
/// input) — an `automatic` lifetime, a 2-state return, a body that is not
/// straight-line, an unpacked-array formal, or a self-contained body with a
/// widening context-width assignment or a multi-dimensional packed select.
pub open spec fn frame_direct(es: Seq<FuncEntry>, i: int) -> bool {
    let e = es[i];
    let f = e.def;
    f.ret_string || (!e.r2_inlinable && (f.automatic || f.ret_two_state || needs_frame(f.body)
        || has_unpacked_formal(f.ports@) || ((assign_needs_cw(
        f.body,
        e.widths@,
        e.unknown_bv@,
        ret_width_table(es),
    ) || selects_mdpacked(f)) && stmt_reads_only(f.body, |k: Seq<char>| is_fn_local(f, k)))))
}

/// The functions of the table calling each other: `x → y` when `x`'s body
/// calls the name of `y` and `y` is the table's entry for that name.
pub open spec fn func_call_edge(es: Seq<FuncEntry>, x: int, y: int) -> bool {
    0 <= x < es.len() && is_first_named(func_names(es), y) && stmt_calls(es[x].def.body, es[y].def.name@)
}

/// The frame set: the functions that need a frame on their own, and every
/// function on a recursion cycle (direct or mutual).
pub open spec fn in_func_frame_set(es: Seq<FuncEntry>, k: Seq<char>) -> bool {
    exists|i: int|
        0 <= i < es.len() && #[trigger] es[i].def.name@ == k && (frame_direct(es, i) || reaches_by(
            |x: int, y: int| func_call_edge(es, x, y),
            i,
            i,
        ))
}

fn has_unpacked_port(ports: &Vec<TfPort>) -> (r: bool)
    ensures
        r == has_unpacked_formal(ports@),
{
    let mut i: usize = 0;
    while i < ports.len()
        invariant
            i <= ports@.len(),
            forall|p: int| 0 <= p < i ==> (#[trigger] ports@[p]).unpacked@.len() == 0,
        decreases ports@.len() - i,
    {
        if ports[i].unpacked.len() > 0 {
            return true;
        }
        i += 1;
    }
    false
}

impl Elaborator {
    fn ret_widths(&self) -> (r: Vec<(String, u32)>)
        ensures
            r@ == ret_width_table(self.tables.func_table@),
    {
        let es = &self.tables.func_table;
        let mut t: Vec<(String, u32)> = Vec::new();
        let mut i: usize = 0;
        assert(es@.take(0) =~= Seq::<FuncEntry>::empty());
        while i < es.len()
            invariant
                i <= es@.len(),
                es == &self.tables.func_table,
                t@ == ret_width_table(es@.take(i as int)),
            decreases es@.len() - i,
        {
            assert(es@.take(i as int + 1).drop_last() =~= es@.take(i as int));
            match es[i].ret_width {
                Some(w) => {
                    let n = es[i].def.name.clone();
                    t.push((n, w));
                },
                None => {},
            }
            i += 1;
        }
        assert(es@.take(i as int) =~= es@);
        t
    }

    fn frame_direct_exec(&self, i: usize, fw: &Vec<(String, u32)>) -> (r: bool)
        requires
            i < self.tables.func_table@.len(),
            fw@ == ret_width_table(self.tables.func_table@),
        ensures
            r == frame_direct(self.tables.func_table@, i as int),
    {
        let e = &self.tables.func_table[i];
        let f = &e.def;
        if f.ret_string {
            return true;
        }
        if e.r2_inlinable {
            return false;
        }
        f.automatic || f.ret_two_state || body_needs_frame(&f.body) || has_unpacked_port(&f.ports)
            || ((assign_needs_context_width(&f.body, &e.widths, &e.unknown_bv, fw)
            || body_selects_mdpacked_local(f)) && body_reads_only_locals(f))
    }

    /// The set of this module's functions needing a frame: every function
    /// that needs one on its own (see [`frame_direct`]), plus every function
    /// on a recursion cycle, direct or mutual.
    pub fn build_frame_set(&self) -> (r: Vec<String>)
        ensures
            forall|k: Seq<char>| #[trigger] has_name(r@, k) == in_func_frame_set(self.tables.func_table@, k),
            forall|a: int, b: int| 0 <= a < b < r@.len() ==> r@[a]@ != r@[b]@,
    {
        let es = &self.tables.func_table;
        let n = es.len();
        let fw = self.ret_widths();
        let mut set: Vec<String> = Vec::new();
        let mut names: Vec<String> = Vec::new();
        let mut callees: Vec<Vec<String>> = Vec::new();
        let mut i: usize = 0;
        while i < n
            invariant
                i <= n,
                n == es@.len(),
                es == &self.tables.func_table,
                fw@ == ret_width_table(es@),
                names@.len() == i,
                callees@.len() == i,
                forall|t: int| 0 <= t < i ==> #[trigger] names@[t] == es@[t].def.name,
                forall|t: int, k: Seq<char>|
                    0 <= t < i ==> #[trigger] has_name(callees@[t]@, k) == stmt_calls(es@[t].def.body, k),
                forall|k: Seq<char>|
                    #[trigger] has_name(set@, k) == exists|t: int|
                        0 <= t < i && #[trigger] es@[t].def.name@ == k && frame_direct(es@, t),
                forall|a: int, b: int| 0 <= a < b < set@.len() ==> set@[a]@ != set@[b]@,
            decreases n - i,
        {
            let ghost before = set@;
            let direct = self.frame_direct_exec(i, &fw);
            if direct && !contains_name(&set, &es[i].def.name) {
                let nm = es[i].def.name.clone();
                set.push(nm);
                proof {
                    assert forall|k: Seq<char>|
                        #[trigger] has_name(set@, k) == exists|t: int|
                            0 <= t < i + 1 && #[trigger] es@[t].def.name@ == k && frame_direct(es@, t) by {
                        lemma_has_name_push(before, nm, k);
                        if exists|t: int| 0 <= t < i + 1 && #[trigger] es@[t].def.name@ == k && frame_direct(es@, t) {
                            let t = choose|t: int| 0 <= t < i + 1 && #[trigger] es@[t].def.name@ == k && frame_direct(es@, t);
                            if t < i {
                                assert(0 <= t < i && es@[t].def.name@ == k && frame_direct(es@, t));
                            }
                        }
                    }
                }
            } else {
                proof {
                    assert forall|k: Seq<char>|
                        #[trigger] has_name(set@, k) == exists|t: int|
                            0 <= t < i + 1 && #[trigger] es@[t].def.name@ == k && frame_direct(es@, t) by {
                        if exists|t: int| 0 <= t < i + 1 && #[trigger] es@[t].def.name@ == k && frame_direct(es@, t) {
                            let t = choose|t: int| 0 <= t < i + 1 && #[trigger] es@[t].def.name@ == k && frame_direct(es@, t);
                            if t < i {
                                assert(0 <= t < i && es@[t].def.name@ == k && frame_direct(es@, t));
                            }
                        }
                    }
                }
            }
            names.push(es[i].def.name.clone());
            let mut c: Vec<String> = Vec::new();
            collect_callee_stmt(&es[i].def.body, &mut c);
            proof {
                assert forall|k: Seq<char>| has_name(c@, k) == stmt_calls(es@[i as int].def.body, k) by {
                    assert(!has_name(Seq::<String>::empty(), k));
                }
            }
            callees.push(c);
            i += 1;
        }
        proof {
            assert(names@ =~= func_names(es@));
            assert forall|x: int, y: int|
                #[trigger] named_edge(names@, callees@, x, y) == func_call_edge(es@, x, y) by {
                if 0 <= x < n && 0 <= y < n {
                    assert(callees@[x]@ == callees@[x]@);
                    assert(has_name(callees@[x]@, names@[y]@) == stmt_calls(es@[x].def.body, names@[y]@));
                }
            }
            assert((|x: int, y: int| named_edge(names@, callees@, x, y)) =~= (|x: int, y: int|
                func_call_edge(es@, x, y)));
        }
        let cyc = on_cycle(&names, &callees);
        let ghost direct_set = set@;
        let mut j: usize = 0;
        while j < n
            invariant
                j <= n,
                n == es@.len(),
                es == &self.tables.func_table,
                cyc@.len() == n,
                forall|t: int|
                    0 <= t < n ==> cyc@[t] == reaches_by(|x: int, y: int| func_call_edge(es@, x, y), t, t),
                forall|k: Seq<char>|
                    #[trigger] has_name(direct_set, k) == exists|t: int|
                        0 <= t < n && #[trigger] es@[t].def.name@ == k && frame_direct(es@, t),
                forall|k: Seq<char>|
                    #[trigger] has_name(set@, k) == (has_name(direct_set, k) || exists|t: int|
                        0 <= t < j && #[trigger] es@[t].def.name@ == k && cyc@[t]),
                forall|a: int, b: int| 0 <= a < b < set@.len() ==> set@[a]@ != set@[b]@,
            decreases n - j,
        {
            let ghost before = set@;
            if cyc[j] && !contains_name(&set, &es[j].def.name) {
                let nm = es[j].def.name.clone();
                set.push(nm);
                proof {
                    assert forall|k: Seq<char>|
                        #[trigger] has_name(set@, k) == (has_name(direct_set, k) || exists|t: int|
                            0 <= t < j + 1 && #[trigger] es@[t].def.name@ == k && cyc@[t]) by {
                        lemma_has_name_push(before, nm, k);
                        if exists|t: int| 0 <= t < j + 1 && #[trigger] es@[t].def.name@ == k && cyc@[t] {
                            let t = choose|t: int| 0 <= t < j + 1 && #[trigger] es@[t].def.name@ == k && cyc@[t];
                            if t < j {
                                assert(0 <= t < j && es@[t].def.name@ == k && cyc@[t]);
                            }
                        }
                    }
                }
            } else {
                proof {
                    assert forall|k: Seq<char>|
                        #[trigger] has_name(set@, k) == (has_name(direct_set, k) || exists|t: int|
                            0 <= t < j + 1 && #[trigger] es@[t].def.name@ == k && cyc@[t]) by {
                        if exists|t: int| 0 <= t < j + 1 && #[trigger] es@[t].def.name@ == k && cyc@[t] {
                            let t = choose|t: int| 0 <= t < j + 1 && #[trigger] es@[t].def.name@ == k && cyc@[t];
                            if t < j {
                                assert(0 <= t < j && es@[t].def.name@ == k && cyc@[t]);
                            }
                        }
                    }
                }
            }
            j += 1;
        }
        proof {
            assert forall|k: Seq<char>| #[trigger] has_name(set@, k) == in_func_frame_set(es@, k) by {
                if in_func_frame_set(es@, k) {
                    let t = choose|t: int|
                        0 <= t < es@.len() && #[trigger] es@[t].def.name@ == k && (frame_direct(es@, t)
                            || reaches_by(|x: int, y: int| func_call_edge(es@, x, y), t, t));
                    if frame_direct(es@, t) {
                        assert(has_name(direct_set, k));
                    } else {
                        assert(cyc@[t]);
                    }
                }
                if has_name(set@, k) {
                    if has_name(direct_set, k) {
                        let t = choose|t: int| 0 <= t < n && #[trigger] es@[t].def.name@ == k && frame_direct(es@, t);
                        assert(in_func_frame_set(es@, k));
                    } else {
                        let t = choose|t: int| 0 <= t < n && #[trigger] es@[t].def.name@ == k && cyc@[t];
                        assert(in_func_frame_set(es@, k));
                    }
                }
            }
        }
        set
    }
}


// ── tasks ────────────────────────────────────────────────────────────────

/// An `output` / `inout` formal that is a dynamic array.
pub open spec fn is_out_dyn_formal(p: TfPort) -> bool {
    (p.dir == PortDir::Output || p.dir == PortDir::Inout) && exists|d: int|
        0 <= d < p.unpacked@.len() && #[trigger] p.unpacked@[d] is Dyn
}

/// A formal that is a fixed-size unpacked array (every unpacked dimension
/// a range or a size).
pub open spec fn is_fixed_array_formal(p: TfPort) -> bool {
    p.unpacked@.len() > 0 && forall|d: int|
        0 <= d < p.unpacked@.len() ==> (#[trigger] p.unpacked@[d] is Range || p.unpacked@[d] is Size)
}

/// Why a task needs a frame on its own: an `automatic` lifetime, being the
/// target of a hierarchical enable somewhere in the design, an output /
/// inout dynamic-array formal, or a fixed unpacked-array formal.
pub open spec fn task_direct(t: TaskDef, hier_called: Seq<String>) -> bool {
    t.automatic || has_name(hier_called, t.name@) || (exists|p: int|
        0 <= p < t.ports@.len() && #[trigger] is_out_dyn_formal(t.ports@[p])) || (exists|p: int|
        0 <= p < t.ports@.len() && #[trigger] is_fixed_array_formal(t.ports@[p]))
}

/// The names of the table's tasks.
pub open spec fn task_names(ts: Seq<TaskDef>) -> Seq<String> {
    Seq::new(ts.len(), |i: int| ts[i].name)
}

/// The tasks of the table enabling each other.
pub open spec fn task_call_edge(ts: Seq<TaskDef>, x: int, y: int) -> bool {
    0 <= x < ts.len() && is_first_named(task_names(ts), y) && stmt_calls(ts[x].body, ts[y].name@)
}

/// The task frame set: the tasks needing a frame on their own, and every
/// task on a recursion cycle (direct or mutual).
pub open spec fn in_task_frame_set(ts: Seq<TaskDef>, hier_called: Seq<String>, k: Seq<char>) -> bool {
    exists|i: int|
        0 <= i < ts.len() && #[trigger] ts[i].name@ == k && (task_direct(ts[i], hier_called)
            || reaches_by(|x: int, y: int| task_call_edge(ts, x, y), i, i))
}

fn port_is_out_dyn(p: &TfPort) -> (r: bool)
    ensures
        r == is_out_dyn_formal(*p),
{
    if !(p.dir == PortDir::Output || p.dir == PortDir::Inout) {
        return false;
    }
    let mut d: usize = 0;
    while d < p.unpacked.len()
        invariant
            d <= p.unpacked@.len(),
            p.dir == PortDir::Output || p.dir == PortDir::Inout,
            forall|e: int| 0 <= e < d ==> !(#[trigger] p.unpacked@[e] is Dyn),
        decreases p.unpacked@.len() - d,
    {
        if let Dim::Dyn = &p.unpacked[d] {
            assert(p.unpacked@[d as int] is Dyn);
            return true;
        }
        d += 1;
    }
    false
}

fn port_is_fixed_array(p: &TfPort) -> (r: bool)
    ensures
        r == is_fixed_array_formal(*p),
{
    if p.unpacked.len() == 0 {
        return false;
    }
    let mut d: usize = 0;
    while d < p.unpacked.len()
        invariant
            d <= p.unpacked@.len(),
            p.unpacked@.len() > 0,
            forall|e: int| 0 <= e < d ==> (#[trigger] p.unpacked@[e] is Range || p.unpacked@[e] is Size),
        decreases p.unpacked@.len() - d,
    {
        match &p.unpacked[d] {
            Dim::Range(_) | Dim::Size(_) => {},
            _ => return false,
        }
        d += 1;
    }
    true
}

fn task_direct_exec(t: &TaskDef, hier_called: &Vec<String>) -> (r: bool)
    ensures
        r == task_direct(*t, hier_called@),
{
    if t.automatic || contains_name(hier_called, &t.name) {
        return true;
    }
    let mut p: usize = 0;
    while p < t.ports.len()
        invariant
            p <= t.ports@.len(),
            !t.automatic,
            !has_name(hier_called@, t.name@),
            forall|q: int| 0 <= q < p ==> !(#[trigger] is_out_dyn_formal(t.ports@[q])),
            forall|q: int| 0 <= q < p ==> !(#[trigger] is_fixed_array_formal(t.ports@[q])),
        decreases t.ports@.len() - p,
    {
        if port_is_out_dyn(&t.ports[p]) || port_is_fixed_array(&t.ports[p]) {
            return true;
        }
        p += 1;
    }
    false
}

impl Elaborator {
    /// The set of this module's tasks needing a frame: every task that needs
    /// one on its own (see [`task_direct`]), plus every task on a recursion
    /// cycle, direct or mutual.
    pub fn build_task_frame_set(&self) -> (r: Vec<String>)
        ensures
            forall|k: Seq<char>|
                #[trigger] has_name(r@, k) == in_task_frame_set(
                    self.tables.task_table@,
                    self.tables.hier_called_task_names@,
                    k,
                ),
            forall|a: int, b: int| 0 <= a < b < r@.len() ==> r@[a]@ != r@[b]@,
    {
        let ts = &self.tables.task_table;
        let hier = &self.tables.hier_called_task_names;
        let n = ts.len();
        let mut set: Vec<String> = Vec::new();
        let mut names: Vec<String> = Vec::new();
        let mut callees: Vec<Vec<String>> = Vec::new();
        let mut i: usize = 0;
        while i < n
            invariant
                i <= n,
                n == ts@.len(),
                ts == &self.tables.task_table,
                hier == &self.tables.hier_called_task_names,
                names@.len() == i,
                callees@.len() == i,
                forall|t: int| 0 <= t < i ==> #[trigger] names@[t] == ts@[t].name,
                forall|t: int, k: Seq<char>|
                    0 <= t < i ==> #[trigger] has_name(callees@[t]@, k) == stmt_calls(ts@[t].body, k),
                forall|k: Seq<char>|
                    #[trigger] has_name(set@, k) == exists|t: int|
                        0 <= t < i && #[trigger] ts@[t].name@ == k && task_direct(ts@[t], hier@),
                forall|a: int, b: int| 0 <= a < b < set@.len() ==> set@[a]@ != set@[b]@,
            decreases n - i,
        {
            let ghost before = set@;
            let direct = task_direct_exec(&ts[i], hier);
            if direct && !contains_name(&set, &ts[i].name) {
                let nm = ts[i].name.clone();
                set.push(nm);
                proof {
                    assert forall|k: Seq<char>|
                        #[trigger] has_name(set@, k) == exists|t: int|
                            0 <= t < i + 1 && #[trigger] ts@[t].name@ == k && task_direct(ts@[t], hier@) by {
                        lemma_has_name_push(before, nm, k);
                        if exists|t: int| 0 <= t < i + 1 && #[trigger] ts@[t].name@ == k && task_direct(ts@[t], hier@) {
                            let t = choose|t: int| 0 <= t < i + 1 && #[trigger] ts@[t].name@ == k && task_direct(ts@[t], hier@);
                            if t < i {
                                assert(0 <= t < i && ts@[t].name@ == k && task_direct(ts@[t], hier@));
                            }
                        }
                    }
                }
            } else {
                proof {
                    assert forall|k: Seq<char>|
                        #[trigger] has_name(set@, k) == exists|t: int|
                            0 <= t < i + 1 && #[trigger] ts@[t].name@ == k && task_direct(ts@[t], hier@) by {
                        if exists|t: int| 0 <= t < i + 1 && #[trigger] ts@[t].name@ == k && task_direct(ts@[t], hier@) {
                            let t = choose|t: int| 0 <= t < i + 1 && #[trigger] ts@[t].name@ == k && task_direct(ts@[t], hier@);
                            if t < i {
                                assert(0 <= t < i && ts@[t].name@ == k && task_direct(ts@[t], hier@));
                            }
                        }
                    }
                }
            }
            names.push(ts[i].name.clone());
            let mut c: Vec<String> = Vec::new();
            collect_callee_stmt(&ts[i].body, &mut c);
            proof {
                assert forall|k: Seq<char>| has_name(c@, k) == stmt_calls(ts@[i as int].body, k) by {
                    assert(!has_name(Seq::<String>::empty(), k));
                }
            }
            callees.push(c);
            i += 1;
        }
        proof {
            assert(names@ =~= task_names(ts@));
            assert forall|x: int, y: int|
                #[trigger] named_edge(names@, callees@, x, y) == task_call_edge(ts@, x, y) by {
                if 0 <= x < n && 0 <= y < n {
                    assert(has_name(callees@[x]@, names@[y]@) == stmt_calls(ts@[x].body, names@[y]@));
                }
            }
            assert((|x: int, y: int| named_edge(names@, callees@, x, y)) =~= (|x: int, y: int|
                task_call_edge(ts@, x, y)));
        }
        let cyc = on_cycle(&names, &callees);
        let ghost direct_set = set@;
        let mut j: usize = 0;
        while j < n
            invariant
                j <= n,
                n == ts@.len(),
                ts == &self.tables.task_table,
                hier == &self.tables.hier_called_task_names,
                cyc@.len() == n,
                forall|t: int|
                    0 <= t < n ==> cyc@[t] == reaches_by(|x: int, y: int| task_call_edge(ts@, x, y), t, t),
                forall|k: Seq<char>|
                    #[trigger] has_name(direct_set, k) == exists|t: int|
                        0 <= t < n && #[trigger] ts@[t].name@ == k && task_direct(ts@[t], hier@),
                forall|k: Seq<char>|
                    #[trigger] has_name(set@, k) == (has_name(direct_set, k) || exists|t: int|
                        0 <= t < j && #[trigger] ts@[t].name@ == k && cyc@[t]),
                forall|a: int, b: int| 0 <= a < b < set@.len() ==> set@[a]@ != set@[b]@,
            decreases n - j,
        {
            let ghost before = set@;
            if cyc[j] && !contains_name(&set, &ts[j].name) {
                let nm = ts[j].name.clone();
                set.push(nm);
                proof {
                    assert forall|k: Seq<char>|
                        #[trigger] has_name(set@, k) == (has_name(direct_set, k) || exists|t: int|
                            0 <= t < j + 1 && #[trigger] ts@[t].name@ == k && cyc@[t]) by {
                        lemma_has_name_push(before, nm, k);
                        if exists|t: int| 0 <= t < j + 1 && #[trigger] ts@[t].name@ == k && cyc@[t] {
                            let t = choose|t: int| 0 <= t < j + 1 && #[trigger] ts@[t].name@ == k && cyc@[t];
                            if t < j {
                                assert(0 <= t < j && ts@[t].name@ == k && cyc@[t]);
                            }
                        }
                    }
                }
            } else {
                proof {
                    assert forall|k: Seq<char>|
                        #[trigger] has_name(set@, k) == (has_name(direct_set, k) || exists|t: int|
                            0 <= t < j + 1 && #[trigger] ts@[t].name@ == k && cyc@[t]) by {
                        if exists|t: int| 0 <= t < j + 1 && #[trigger] ts@[t].name@ == k && cyc@[t] {
                            let t = choose|t: int| 0 <= t < j + 1 && #[trigger] ts@[t].name@ == k && cyc@[t];
                            if t < j {
                                assert(0 <= t < j && ts@[t].name@ == k && cyc@[t]);
                            }
                        }
                    }
                }
            }
            j += 1;
        }
        proof {
            assert forall|k: Seq<char>|
                #[trigger] has_name(set@, k) == in_task_frame_set(ts@, hier@, k) by {
                if in_task_frame_set(ts@, hier@, k) {
                    let t = choose|t: int|
                        0 <= t < ts@.len() && #[trigger] ts@[t].name@ == k && (task_direct(ts@[t], hier@)
                            || reaches_by(|x: int, y: int| task_call_edge(ts@, x, y), t, t));
                    if task_direct(ts@[t], hier@) {
                        assert(has_name(direct_set, k));
                    } else {
                        assert(cyc@[t]);
                    }
                }
                if has_name(set@, k) {
                    if has_name(direct_set, k) {
                        let t = choose|t: int| 0 <= t < n && #[trigger] ts@[t].name@ == k && task_direct(ts@[t], hier@);
                        assert(in_task_frame_set(ts@, hier@, k));
                    } else {
                        let t = choose|t: int| 0 <= t < n && #[trigger] ts@[t].name@ == k && cyc@[t];
                        assert(in_task_frame_set(ts@, hier@, k));
                    }
                }
            }
        }
        set
    }
}

// ── laws ─────────────────────────────────────────────────────────────────

/// A function that calls itself is given a frame.
pub proof fn lemma_self_recursive_function_framed(es: Seq<FuncEntry>, i: int)
    requires
        0 <= i < es.len(),
        is_first_named(func_names(es), i),
        stmt_calls(es[i].def.body, es[i].def.name@),
    ensures
        in_func_frame_set(es, es[i].def.name@),
{
    let e = |x: int, y: int| func_call_edge(es, x, y);
    assert(e(i, i));
    assert(reach_by(e, i, i, 1));
}

/// Two functions that call each other are both given a frame.
pub proof fn lemma_mutually_recursive_functions_framed(es: Seq<FuncEntry>, i: int, j: int)
    requires
        0 <= i < es.len(),
        0 <= j < es.len(),
        is_first_named(func_names(es), i),
        is_first_named(func_names(es), j),
        stmt_calls(es[i].def.body, es[j].def.name@),
        stmt_calls(es[j].def.body, es[i].def.name@),
    ensures
        in_func_frame_set(es, es[i].def.name@),
        in_func_frame_set(es, es[j].def.name@),
{
    let e = |x: int, y: int| func_call_edge(es, x, y);
    assert(e(i, j) && e(j, i));
    assert(reach_by(e, j, i, 1));
    assert(e(i, j) && reach_by(e, j, i, 1));
    assert(reach_by(e, i, i, 2));
    assert(reach_by(e, i, j, 1));
    assert(e(j, i) && reach_by(e, i, j, 1));
    assert(reach_by(e, j, j, 2));
}

/// A `string`-returning function is always given a frame; a read-only
/// dynamic-array-input function that returns no string is framed only
/// when it is recursive.
pub proof fn lemma_string_and_inline_alias_functions(es: Seq<FuncEntry>, i: int)
    requires
        0 <= i < es.len(),
    ensures
        es[i].def.ret_string ==> in_func_frame_set(es, es[i].def.name@),
        !es[i].def.ret_string && es[i].r2_inlinable ==> !frame_direct(es, i),
{
}

/// An `automatic` task, and a task that is the target of a hierarchical
/// enable, are given a frame.
pub proof fn lemma_automatic_or_hier_called_task_framed(ts: Seq<TaskDef>, hier_called: Seq<String>, i: int)
    requires
        0 <= i < ts.len(),
        ts[i].automatic || has_name(hier_called, ts[i].name@),
    ensures
        in_task_frame_set(ts, hier_called, ts[i].name@),
{
    assert(task_direct(ts[i], hier_called));
}

/// A task that enables itself is given a frame.
pub proof fn lemma_self_recursive_task_framed(ts: Seq<TaskDef>, hier_called: Seq<String>, i: int)
    requires
        0 <= i < ts.len(),
        is_first_named(task_names(ts), i),
        stmt_calls(ts[i].body, ts[i].name@),
    ensures
        in_task_frame_set(ts, hier_called, ts[i].name@),
{
    let e = |x: int, y: int| task_call_edge(ts, x, y);
    assert(e(i, i));
    assert(reach_by(e, i, i, 1));
}

} // verus!
