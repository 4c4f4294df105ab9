//! Reachability in a finite directed graph given by adjacency lists: the
//! call graph of a module's subroutines (recursion detection) and the
//! control-flow graph of a subroutine body (which blocks its entry reaches).

use vstd::prelude::*;

verus! {

/// The adjacency lists as sequences.
pub open spec fn adj_view(adj: Seq<Vec<usize>>) -> Seq<Seq<usize>> {
    Seq::new(adj.len(), |i: int| adj[i]@)
}

/// Every target of every edge is a node of the graph.
pub open spec fn adj_wf(adj: Seq<Seq<usize>>) -> bool {
    forall|x: int, j: int| 0 <= x < adj.len() && 0 <= j < adj[x].len() ==> (#[trigger] adj[x][j]) < adj.len()
}

/// An edge `x → y`.
pub open spec fn edge(adj: Seq<Seq<usize>>, x: int, y: int) -> bool {
    0 <= x < adj.len() && 0 <= y < adj.len() && adj[x].contains(y as usize)
}

/// `b` is reached from `a` by a path of at most `k` edges, at least one.
pub open spec fn reach_within(adj: Seq<Seq<usize>>, a: int, b: int, k: nat) -> bool
    decreases k,
{
    k > 0 && (edge(adj, a, b) || exists|c: int| #[trigger] edge(adj, a, c) && reach_within(adj, c, b, (k - 1) as nat))
}

/// `b` is reached from `a` by a path of one edge or more.
pub open spec fn reaches(adj: Seq<Seq<usize>>, a: int, b: int) -> bool {
    exists|k: nat| #[trigger] reach_within(adj, a, b, k)
}

/// `b` is reached from `a` by at most `k` steps of the relation `e`, at least one.
pub open spec fn reach_by(e: spec_fn(int, int) -> bool, a: int, b: int, k: nat) -> bool
    decreases k,
{
    k > 0 && (e(a, b) || exists|c: int| #[trigger] e(a, c) && reach_by(e, c, b, (k - 1) as nat))
}

/// `b` is reached from `a` by one step of the relation `e` or more.
pub open spec fn reaches_by(e: spec_fn(int, int) -> bool, a: int, b: int) -> bool {
    exists|k: nat| #[trigger] reach_by(e, a, b, k)
}

proof fn lemma_reach_within_by(adj: Seq<Seq<usize>>, e: spec_fn(int, int) -> bool, a: int, b: int, k: nat)
    requires
        forall|x: int, y: int| #[trigger] edge(adj, x, y) == e(x, y),
    ensures
        reach_within(adj, a, b, k) == reach_by(e, a, b, k),
    decreases k,
{
    if k > 0 {
        assert forall|c: int| #[trigger] edge(adj, a, c) && reach_within(adj, c, b, (k - 1) as nat)
            <==> e(a, c) && reach_by(e, c, b, (k - 1) as nat) by {
            lemma_reach_within_by(adj, e, c, b, (k - 1) as nat);
        }
        if reach_within(adj, a, b, k) && !edge(adj, a, b) {
            let c = choose|c: int| #[trigger] edge(adj, a, c) && reach_within(adj, c, b, (k - 1) as nat);
            assert(e(a, c) && reach_by(e, c, b, (k - 1) as nat));
        }
        if reach_by(e, a, b, k) && !e(a, b) {
            let c = choose|c: int| #[trigger] e(a, c) && reach_by(e, c, b, (k - 1) as nat);
            assert(edge(adj, a, c) && reach_within(adj, c, b, (k - 1) as nat));
        }
    }
}

/// Reachability depends on the edge relation alone.
pub proof fn lemma_reaches_by(adj: Seq<Seq<usize>>, e: spec_fn(int, int) -> bool, a: int, b: int)
    requires
        forall|x: int, y: int| #[trigger] edge(adj, x, y) == e(x, y),
    ensures
        reaches(adj, a, b) == reaches_by(e, a, b),
{
    if reaches(adj, a, b) {
        let k = choose|k: nat| #[trigger] reach_within(adj, a, b, k);
        lemma_reach_within_by(adj, e, a, b, k);
        assert(reach_by(e, a, b, k));
    }
    if reaches_by(e, a, b) {
        let k = choose|k: nat| #[trigger] reach_by(e, a, b, k);
        lemma_reach_within_by(adj, e, a, b, k);
        assert(reach_within(adj, a, b, k));
    }
}

/// Extending a path by one edge at its end.
proof fn lemma_extend(adj: Seq<Seq<usize>>, a: int, x: int, y: int, k: nat)
    requires
        reach_within(adj, a, x, k),
        edge(adj, x, y),
    ensures
        reach_within(adj, a, y, k + 1),
    decreases k,
{
    if edge(adj, a, x) {
        assert(edge(adj, a, x) && reach_within(adj, x, y, k));
    } else {
        let c = choose|c: int| #[trigger] edge(adj, a, c) && reach_within(adj, c, x, (k - 1) as nat);
        lemma_extend(adj, c, x, y, (k - 1) as nat);
        assert(edge(adj, a, c) && reach_within(adj, c, y, k as nat));
    }
}

/// A set closed under edges holds everything reached from its members.
proof fn lemma_closed(adj: Seq<Seq<usize>>, v: Seq<bool>, c: int, b: int, k: nat)
    requires
        v.len() == adj.len(),
        0 <= c < v.len(),
        v[c],
        forall|x: int, y: int| 0 <= x < v.len() && v[x] && #[trigger] edge(adj, x, y) ==> 0 <= y < v.len() && v[y],
        reach_within(adj, c, b, k),
    ensures
        0 <= b < v.len() && v[b],
    decreases k,
{
    if !edge(adj, c, b) {
        let d = choose|d: int| #[trigger] edge(adj, c, d) && reach_within(adj, d, b, (k - 1) as nat);
        lemma_closed(adj, v, d, b, (k - 1) as nat);
    }
}

/// Which nodes are reached from `a` by one edge or more.
pub fn reachable_from(adj: &Vec<Vec<usize>>, a: usize) -> (r: Vec<bool>)
    requires
        adj_wf(adj_view(adj@)),
        a < adj@.len(),
    ensures
        r@.len() == adj@.len(),
        forall|b: int| 0 <= b < r@.len() ==> (r@[b] <==> reaches(adj_view(adj@), a as int, b)),
{
    let ghost g = adj_view(adj@);
    let n = adj.len();
    let mut disc: Vec<bool> = Vec::new();
    let mut i: usize = 0;
    while i < n
        invariant
            i <= n,
            n == adj@.len(),
            disc@.len() == i,
            forall|j: int| 0 <= j < i ==> !disc@[j],
        decreases n - i,
    {
        disc.push(false);
        i += 1;
    }
    let mut stack: Vec<usize> = Vec::new();
    // seed: the successors of `a`
    let mut j: usize = 0;
    let succ = &adj[a];
    assert(succ@ == g[a as int]);
    while j < succ.len()
        invariant
            g == adj_view(adj@),
            adj_wf(g),
            a < n,
            n == adj@.len(),
            succ@ == g[a as int],
            j <= succ@.len(),
            disc@.len() == n,
            forall|x: int| 0 <= x < n && #[trigger] disc@[x] ==> reaches(g, a as int, x),
            forall|s: int| 0 <= s < stack@.len() ==> (#[trigger] stack@[s]) < n && disc@[stack@[s] as int],
            forall|x: int| 0 <= x < n && disc@[x] ==> #[trigger] stack@.contains(x as usize),
            forall|t: int| 0 <= t < j ==> disc@[#[trigger] succ@[t] as int],
        decreases succ@.len() - j,
    {
        let y = succ[j];
        assert(g[a as int][j as int] == y);
        if !disc[y] {
            proof {
                assert(edge(g, a as int, y as int));
                assert(reach_within(g, a as int, y as int, 1));
            }
            let ghost old_disc = disc@;
            let ghost old_stack = stack@;
            disc.set(y, true);
            stack.push(y);
            proof {
                assert(stack@ == old_stack.push(y));
                assert forall|x: int| 0 <= x < n && disc@[x] implies #[trigger] stack@.contains(x as usize) by {
                    if x != y as int {
                        assert(old_disc[x]);
                        assert(old_stack.contains(x as usize));
                        let s = choose|s: int| 0 <= s < old_stack.len() && old_stack[s] == x as usize;
                        assert(stack@[s] == x as usize);
                    } else {
                        assert(stack@[stack@.len() - 1] == y);
                    }
                }
            }
        }
        j += 1;
    }
    // close under edges
    while stack.len() > 0
        invariant
            g == adj_view(adj@),
            adj_wf(g),
            a < n,
            n == adj@.len(),
            disc@.len() == n,
            forall|x: int| 0 <= x < n && #[trigger] disc@[x] ==> reaches(g, a as int, x),
            forall|s: int| 0 <= s < stack@.len() ==> (#[trigger] stack@[s]) < n && disc@[stack@[s] as int],
            forall|t: int| 0 <= t < g[a as int].len() ==> disc@[#[trigger] g[a as int][t] as int],
            forall|x: int, y: int|
                0 <= x < n && disc@[x] && !stack@.contains(x as usize) && #[trigger] edge(g, x, y)
                    ==> 0 <= y < n && disc@[y],
        decreases n - count_true(disc@), stack@.len(),
    {
        proof {
            lemma_count_le(disc@);
        }
        let ghost pre_stack = stack@;
        let x = stack.pop().unwrap();
        let ghost before = disc@;
        let ghost popped = stack@;
        assert(pre_stack == popped.push(x));
        assert(stack@.take(popped.len() as int) =~= popped);
        let succ = &adj[x];
        assert(succ@ == g[x as int]);
        let mut k: usize = 0;
        while k < succ.len()
            invariant
                g == adj_view(adj@),
                adj_wf(g),
                a < n,
                n == adj@.len(),
                (x as int) < n,
                before.len() == n,
                before[x as int],
                succ@ == g[x as int],
                k <= succ@.len(),
                disc@.len() == n,
                forall|z: int| 0 <= z < n && before[z] ==> disc@[z],
                forall|z: int| 0 <= z < n && #[trigger] disc@[z] ==> reaches(g, a as int, z),
                forall|s: int| 0 <= s < stack@.len() ==> (#[trigger] stack@[s]) < n && disc@[stack@[s] as int],
                forall|z: int| 0 <= z < n && disc@[z] && !before[z] ==> #[trigger] stack@.contains(z as usize),
                stack@.len() >= popped.len(),
                stack@.take(popped.len() as int) == popped,
                stack@.len() - popped.len() == count_true(disc@) - count_true(before),
                count_true(disc@) >= count_true(before),
                forall|t: int| 0 <= t < k ==> disc@[#[trigger] succ@[t] as int],
            decreases succ@.len() - k,
        {
            let y = succ[k];
            assert(g[x as int][k as int] == y);
            if !disc[y] {
                proof {
                    let kk = choose|kk: nat| #[trigger] reach_within(g, a as int, x as int, kk);
                    assert(edge(g, x as int, y as int));
                    lemma_extend(g, a as int, x as int, y as int, kk);
                    assert(reach_within(g, a as int, y as int, kk + 1));
                    lemma_count_update(disc@, y as int);
                }
                let ghost old_disc = disc@;
                let ghost old_stack = stack@;
                disc.set(y, true);
                stack.push(y);
                proof {
                    assert(stack@ == old_stack.push(y));
                    assert(stack@.take(popped.len() as int) =~= old_stack.take(popped.len() as int));
                    assert forall|z: int| 0 <= z < n && disc@[z] && !before[z] implies #[trigger] stack@.contains(z as usize) by {
                        if z != y as int {
                            assert(old_disc[z]);
                            assert(old_stack.contains(z as usize));
                            let s = choose|s: int| 0 <= s < old_stack.len() && old_stack[s] == z as usize;
                            assert(stack@[s] == z as usize);
                        } else {
                            assert(stack@[stack@.len() - 1] == y);
                        }
                    }
                }
            }
            k += 1;
        }
        proof {
            assert forall|t: int| 0 <= t < g[a as int].len() implies disc@[#[trigger] g[a as int][t] as int] by {
                assert(before[g[a as int][t] as int]);
            }
            assert forall|z: int, w: int|
                0 <= z < n && disc@[z] && !stack@.contains(z as usize) && #[trigger] edge(g, z, w)
                    implies 0 <= w < n && disc@[w] by {
                assert(adj_wf(g));
                let t2 = choose|t2: int| 0 <= t2 < g[z].len() && g[z][t2] == w as usize;
                assert(g[z][t2] < n);
                assert(g[z][t2] as int == w);
                if z == x as int {
                    assert(0 <= t2 < succ@.len());
                    assert(succ@[t2] as int == w);
                    assert(disc@[succ@[t2] as int]);
                } else {
                    if !before[z] {
                        assert(stack@.contains(z as usize));
                    }
                    assert(before[z]);
                    if popped.contains(z as usize) {
                        let s = choose|s: int| 0 <= s < popped.len() && popped[s] == z as usize;
                        assert(stack@.take(popped.len() as int)[s] == z as usize);
                        assert(stack@[s] == z as usize);
                    }
                    assert(!pre_stack.contains(z as usize)) by {
                        if pre_stack.contains(z as usize) {
                            let s = choose|s: int| 0 <= s < pre_stack.len() && pre_stack[s] == z as usize;
                            if s < popped.len() {
                                assert(popped[s] == z as usize);
                            }
                        }
                    }
                    assert(before[w]);
                }
            }
            lemma_count_le(disc@);
        }
    }
    proof {
        assert forall|b: int| 0 <= b < disc@.len() implies (disc@[b] <==> reaches(g, a as int, b)) by {
            if reaches(g, a as int, b) {
                let k = choose|k: nat| #[trigger] reach_within(g, a as int, b, k);
                if edge(g, a as int, b) {
                    let t = choose|t: int| 0 <= t < g[a as int].len() && g[a as int][t] == b as usize;
                    assert(disc@[g[a as int][t] as int]);
                } else {
                    let c = choose|c: int| #[trigger] edge(g, a as int, c) && reach_within(g, c, b, (k - 1) as nat);
                    let t = choose|t: int| 0 <= t < g[a as int].len() && g[a as int][t] == c as usize;
                    assert(disc@[g[a as int][t] as int]);
                    lemma_closed(g, disc@, c, b, (k - 1) as nat);
                }
            }
        }
    }
    disc
}

/// The number of `true` entries.
pub open spec fn count_true(s: Seq<bool>) -> nat
    decreases s.len(),
{
    if s.len() == 0 {
        0
    } else {
        count_true(s.drop_last()) + if s.last() {
            1nat
        } else {
            0nat
        }
    }
}

pub proof fn lemma_count_le(s: Seq<bool>)
    ensures
        count_true(s) <= s.len(),
    decreases s.len(),
{
    if s.len() > 0 {
        lemma_count_le(s.drop_last());
    }
}

pub proof fn lemma_count_update(s: Seq<bool>, i: int)
    requires
        0 <= i < s.len(),
        !s[i],
    ensures
        count_true(s.update(i, true)) == count_true(s) + 1,
    decreases s.len(),
{
    if i == s.len() - 1 {
        assert(s.update(i, true).drop_last() =~= s.drop_last());
    } else {
        assert(s.update(i, true).drop_last() =~= s.drop_last().update(i, true));
        lemma_count_update(s.drop_last(), i);
    }
}


/// Extending a path of the relation `e` by one step at its end.
pub proof fn lemma_extend_by(e: spec_fn(int, int) -> bool, a: int, x: int, y: int, k: nat)
    requires
        reach_by(e, a, x, k),
        e(x, y),
    ensures
        reach_by(e, a, y, k + 1),
    decreases k,
{
    if e(a, x) {
        assert(e(a, x) && reach_by(e, x, y, k));
    } else {
        let c = choose|c: int| #[trigger] e(a, c) && reach_by(e, c, x, (k - 1) as nat);
        lemma_extend_by(e, c, x, y, (k - 1) as nat);
        assert(e(a, c) && reach_by(e, c, y, k as nat));
    }
}

/// A set of nodes closed under the relation `e` holds everything reached
/// from its members.
pub proof fn lemma_closed_by(e: spec_fn(int, int) -> bool, v: Seq<bool>, c: int, b: int, k: nat)
    requires
        0 <= c < v.len(),
        v[c],
        forall|x: int, y: int| 0 <= x < v.len() && v[x] && #[trigger] e(x, y) ==> 0 <= y < v.len() && v[y],
        reach_by(e, c, b, k),
    ensures
        0 <= b < v.len() && v[b],
    decreases k,
{
    if !e(c, b) {
        let d = choose|d: int| #[trigger] e(c, d) && reach_by(e, d, b, (k - 1) as nat);
        lemma_closed_by(e, v, d, b, (k - 1) as nat);
    }
}

/// No `true` entry: the count is zero.
pub proof fn lemma_count_none(s: Seq<bool>)
    requires
        forall|x: int| 0 <= x < s.len() ==> !s[x],
    ensures
        count_true(s) == 0,
    decreases s.len(),
{
    if s.len() > 0 {
        lemma_count_none(s.drop_last());
    }
}

} // verus!
