//! Constructs a suspendable frame task cannot run correctly: a frame-local
//! unpacked array, a nonblocking assignment to a frame local, a `wait`
//! whose condition reads a frame local, `disable fork` and `wait fork` —
//! anywhere in the blocks the task's entry reaches, fork arms included.

use vstd::prelude::*;
use vstd::string::StringExecFns;
use crate::elab::{Elaborator, MsgCode, Severity};
use crate::frame_check::FrameReject;
use crate::names::contains_u32;
use crate::frame_check::stmt_args_in;
use crate::graph::{adj_view, adj_wf, edge, lemma_reaches_by, reachable_from, reaches_by};
use crate::ir;
use crate::ir::{DisableKind, Terminator, WaitCause};

verus! {

/// Every block a terminator can lead to within the task: a call continues
/// at its return block, a fork at its arms, its join and its continuation.
pub open spec fn task_succs(t: Terminator) -> Seq<u32> {
    match t {
        Terminator::Goto { target } => seq![target],
        Terminator::Branch { then_bb, else_bb, .. } => seq![then_bb, else_bb],
        Terminator::Call { ret_bb, .. } => seq![ret_bb],
        Terminator::Delay { resume, .. } => seq![resume],
        Terminator::Wait { resume, .. } => seq![resume],
        Terminator::Fork { children, join, resume_bb } => children@ + seq![join, resume_bb],
        Terminator::Return => Seq::empty(),
    }
}

/// The blocks a terminator continues to in the task's own activity: as
/// [`task_succs`], but a fork continues only after its join (its arms run as
/// activities of their own).
pub open spec fn cont_succs(t: Terminator) -> Seq<u32> {
    match t {
        Terminator::Fork { resume_bb, .. } => seq![resume_bb],
        _ => task_succs(t),
    }
}

/// The successors of a terminator: with `arms`, a fork's arms and join
/// included; without, its continuation only.
pub open spec fn succs_of(t: Terminator, arms: bool) -> Seq<u32> {
    if arms {
        task_succs(t)
    } else {
        cont_succs(t)
    }
}

/// Is `net` in `lo .. hi`?
pub open spec fn in_range(net: u32, lo: u32, hi: u32) -> bool {
    lo <= net && net < hi
}

impl Elaborator {
    /// A task edge `x → y` between blocks of the arena.
    pub open spec fn task_edge(&self, x: int, y: int) -> bool {
        let bs = self.bodies.func_blocks@;
        0 <= x < bs.len() && 0 <= y < bs.len() && task_succs(bs[x].term).contains(y as u32)
    }

    /// An edge `x → y` between blocks of the arena, fork arms included or
    /// not.
    pub open spec fn step_edge(&self, x: int, y: int, arms: bool) -> bool {
        let bs = self.bodies.func_blocks@;
        0 <= x < bs.len() && 0 <= y < bs.len() && succs_of(bs[x].term, arms).contains(y as u32)
    }

    /// A continuation edge `x → y`: within the activity, forks passed over.
    pub open spec fn cont_edge(&self, x: int, y: int) -> bool {
        self.step_edge(x, y, false)
    }

    /// Block `b` is on the task's own activity from `entry`: it is the entry
    /// or the entry reaches it through continuation edges.
    pub open spec fn cont_block(&self, entry: u32, b: int) -> bool {
        0 <= b < self.bodies.func_blocks@.len() && (b == entry as int || reaches_by(
            |x: int, y: int| self.cont_edge(x, y),
            entry as int,
            b,
        ))
    }

    /// Block `b` belongs to the task entered at `entry`.
    pub open spec fn task_block(&self, entry: u32, b: int) -> bool {
        0 <= b < self.bodies.func_blocks@.len() && (b == entry as int || reaches_by(
            |x: int, y: int| self.task_edge(x, y),
            entry as int,
            b,
        ))
    }

    /// Does the lowered node `eid` read a net of `lo .. hi` (through any of
    /// its operands, an element index included)?
    pub open spec fn reads_in(&self, eid: int, lo: u32, hi: u32) -> bool
        decreases eid + 1, 0nat,
    {
        if !(0 <= eid < self.exprs@.len()) {
            false
        } else {
            match self.exprs@[eid] {
                ir::Expr::Const { .. } | ir::Expr::ArrayItem { .. } => false,
                ir::Expr::Signal { net, word } => in_range(net, lo, hi) || match word {
                    Some(w) => w < eid && self.reads_in(w as int, lo, hi),
                    None => false,
                },
                ir::Expr::Select { base, offset, width, .. } => (base < eid && self.reads_in(base as int, lo, hi))
                    || (offset < eid && self.reads_in(offset as int, lo, hi)) || (width < eid && self.reads_in(
                    width as int,
                    lo,
                    hi,
                )),
                ir::Expr::Concat { parts } => self.any_reads_in(parts@, eid, lo, hi),
                ir::Expr::Replicate { count, value } => (count < eid && self.reads_in(count as int, lo, hi)) || (
                value < eid && self.reads_in(value as int, lo, hi)),
                ir::Expr::Unary { operand, .. } => operand < eid && self.reads_in(operand as int, lo, hi),
                ir::Expr::Binary { lhs, rhs, .. } => (lhs < eid && self.reads_in(lhs as int, lo, hi)) || (rhs
                    < eid && self.reads_in(rhs as int, lo, hi)),
                ir::Expr::Ternary { cond, then_e, else_e } => (cond < eid && self.reads_in(cond as int, lo, hi))
                    || (then_e < eid && self.reads_in(then_e as int, lo, hi)) || (else_e < eid && self.reads_in(
                    else_e as int,
                    lo,
                    hi,
                )),
                ir::Expr::SysFunc { args, .. } => self.any_reads_in(args@, eid, lo, hi),
                ir::Expr::Call { args, .. } => self.any_reads_in(args@, eid, lo, hi),
            }
        }
    }

    /// Does one of the operands `ids` (all of node `eid`) read a net of
    /// `lo .. hi`?
    pub open spec fn any_reads_in(&self, ids: Seq<u32>, eid: int, lo: u32, hi: u32) -> bool
        decreases eid, ids.len(),
    {
        if ids.len() == 0 || eid < 0 {
            false
        } else {
            self.any_reads_in(ids.drop_last(), eid, lo, hi) || (ids.last() < eid && self.reads_in(
                ids.last() as int,
                lo,
                hi,
            ))
        }
    }

    fn ids_read_in(&self, ids: &Vec<u32>, eid: u32, lo: u32, hi: u32) -> (r: bool)
        ensures
            r == self.any_reads_in(ids@, eid as int, lo, hi),
        decreases eid, 0nat,
    {
        let mut i: usize = 0;
        let mut r = false;
        assert(ids@.take(0) =~= Seq::<u32>::empty());
        while i < ids.len()
            invariant
                i <= ids@.len(),
                r == self.any_reads_in(ids@.take(i as int), eid as int, lo, hi),
            decreases ids@.len() - i,
        {
            assert(ids@.take(i as int + 1).drop_last() =~= ids@.take(i as int));
            let x = ids[i];
            let m = x < eid && self.expr_reads_in(x, lo, hi);
            r = r || m;
            i += 1;
        }
        assert(ids@.take(i as int) =~= ids@);
        r
    }

    /// Does the lowered node `eid` read a net of `lo .. hi`?
    pub fn expr_reads_in(&self, eid: u32, lo: u32, hi: u32) -> (r: bool)
        ensures
            r == self.reads_in(eid as int, lo, hi),
        decreases eid, 1nat,
    {
        if (eid as usize) >= self.exprs.len() {
            return false;
        }
        match &self.exprs[eid as usize] {
            ir::Expr::Const { .. } | ir::Expr::ArrayItem { .. } => false,
            ir::Expr::Signal { net, word } => {
                if lo <= *net && *net < hi {
                    return true;
                }
                match word {
                    Some(w) => *w < eid && self.expr_reads_in(*w, lo, hi),
                    None => false,
                }
            },
            ir::Expr::Select { base, offset, width, .. } => (*base < eid && self.expr_reads_in(*base, lo, hi)) || (
            *offset < eid && self.expr_reads_in(*offset, lo, hi)) || (*width < eid && self.expr_reads_in(
                *width,
                lo,
                hi,
            )),
            ir::Expr::Concat { parts } => self.ids_read_in(parts, eid, lo, hi),
            ir::Expr::Replicate { count, value } => (*count < eid && self.expr_reads_in(*count, lo, hi)) || (*value
                < eid && self.expr_reads_in(*value, lo, hi)),
            ir::Expr::Unary { operand, .. } => *operand < eid && self.expr_reads_in(*operand, lo, hi),
            ir::Expr::Binary { lhs, rhs, .. } => (*lhs < eid && self.expr_reads_in(*lhs, lo, hi)) || (*rhs < eid
                && self.expr_reads_in(*rhs, lo, hi)),
            ir::Expr::Ternary { cond, then_e, else_e } => (*cond < eid && self.expr_reads_in(*cond, lo, hi)) || (
            *then_e < eid && self.expr_reads_in(*then_e, lo, hi)) || (*else_e < eid && self.expr_reads_in(
                *else_e,
                lo,
                hi,
            )),
            ir::Expr::SysFunc { args, .. } => self.ids_read_in(args, eid, lo, hi),
            ir::Expr::Call { args, .. } => self.ids_read_in(args, eid, lo, hi),
        }
    }

    /// Does a wait condition read a frame local of `lo .. hi`? (It is
    /// re-evaluated on wake without the frame's window restored.)
    pub open spec fn wait_reads(&self, cond: WaitCause, lo: u32, hi: u32) -> bool {
        match cond {
            WaitCause::Edge { net, .. } => in_range(net, lo, hi),
            WaitCause::Level { nets } => exists|k: int| 0 <= k < nets@.len() && in_range(#[trigger] nets@[k], lo, hi),
            WaitCause::Named { ev } => in_range(ev, lo, hi),
            WaitCause::Expr { expr } => self.reads_in(expr as int, lo, hi),
            WaitCause::Fork => false,
        }
    }

    #[verifier::loop_isolation(false)]
    pub fn wait_cond_reads_frame_local(&self, cond: &WaitCause, lo: u32, hi: u32) -> (r: bool)
        ensures
            r == self.wait_reads(*cond, lo, hi),
    {
        match cond {
            WaitCause::Edge { net, .. } => lo <= *net && *net < hi,
            WaitCause::Level { nets } => {
                let mut k: usize = 0;
                while k < nets.len()
                    invariant
                        k <= nets@.len(),
                        forall|t: int| 0 <= t < k ==> !in_range(#[trigger] nets@[t], lo, hi),
                    decreases nets@.len() - k,
                {
                    if lo <= nets[k] && nets[k] < hi {
                        assert(in_range(nets@[k as int], lo, hi));
                        return true;
                    }
                    k += 1;
                }
                false
            },
            WaitCause::Named { ev } => lo <= *ev && *ev < hi,
            WaitCause::Expr { expr } => self.expr_reads_in(*expr, lo, hi),
            WaitCause::Fork => false,
        }
    }

    /// A statement unsafe in a suspendable task: a nonblocking assignment
    /// to a frame local, or `disable fork`.
    pub open spec fn stmt_unsafe(&self, sid: u32, lo: u32, hi: u32) -> bool {
        match self.bodies.stmts@[sid as int] {
            ir::Stmt::NonblockingAssign { lhs, .. } => exists|k: int|
                0 <= k < lhs.chunks@.len() && in_range(#[trigger] lhs.chunks@[k].net, lo, hi),
            ir::Stmt::Disable { scope_kind } => scope_kind == DisableKind::Fork,
            _ => false,
        }
    }

    /// A block unsafe in a suspendable task: an unsafe statement, a wait
    /// reading a frame local, or `wait fork`.
    pub open spec fn block_unsafe(&self, b: int, lo: u32, hi: u32) -> bool {
        let blk = self.bodies.func_blocks@[b];
        (exists|j: int| 0 <= j < blk.stmts@.len() && self.stmt_unsafe(#[trigger] blk.stmts@[j], lo, hi)) || match blk.term {
            Terminator::Wait { cond, .. } => self.wait_reads(cond, lo, hi) || cond is Fork,
            _ => false,
        }
    }

    /// The task entered at `entry` with locals `lo .. hi` holds a construct
    /// its suspendable frame cannot run: a frame-local unpacked array, or an
    /// unsafe block it reaches.
    pub open spec fn task_unsafe(&self, entry: u32, lo: u32, hi: u32) -> bool {
        (exists|i: int|
            0 <= i < self.bodies.frame_array_local@.len() && in_range(
                #[trigger] self.bodies.frame_array_local@[i],
                lo,
                hi,
            )) || (exists|b: int| #[trigger] self.task_block(entry, b) && self.block_unsafe(b, lo, hi))
    }

    /// The successor lists of the block arena's edges (fork arms included
    /// or not).
    fn task_adjacency(&self, arms: bool) -> (adj: Vec<Vec<usize>>)
        requires
            self.bodies_wf(),
        ensures
            adj@.len() == self.bodies.func_blocks@.len(),
            adj_wf(adj_view(adj@)),
            forall|x: int, y: int| #[trigger] edge(adj_view(adj@), x, y) == self.step_edge(x, y, arms),
    {
        let bs = &self.bodies.func_blocks;
        let n = bs.len();
        let mut adj: Vec<Vec<usize>> = Vec::new();
        let mut x: usize = 0;
        while x < n
            invariant
                x <= n,
                bs == &self.bodies.func_blocks,
                n == bs@.len(),
                n <= u32::MAX,
                adj@.len() == x,
                forall|a: int, b: int| 0 <= a < x && 0 <= b < adj@[a]@.len() ==> (#[trigger] adj@[a]@[b]) < n,
                forall|a: int, y: int|
                    0 <= a < x && 0 <= y < n ==> (#[trigger] adj@[a]@.contains(y as usize) == self.step_edge(a, y, arms)),
            decreases n - x,
        {
            let succ = self.term_successors(&bs[x].term, arms);
            let mut row: Vec<usize> = Vec::new();
            let mut j: usize = 0;
            while j < succ.len()
                invariant
                    j <= succ@.len(),
                    x < n,
                    n == bs@.len(),
                    n <= u32::MAX,
                    bs == &self.bodies.func_blocks,
                    succ@ == succs_of(bs@[x as int].term, arms),
                    forall|b: int| 0 <= b < row@.len() ==> (#[trigger] row@[b]) < n,
                    forall|t: int|
                        0 <= t < n ==> (#[trigger] row@.contains(t as usize) <==> exists|c: int|
                            0 <= c < j && #[trigger] succ@[c] == t as u32),
                decreases succ@.len() - j,
            {
                let y = succ[j];
                let ghost before = row@;
                if (y as usize) < n {
                    row.push(y as usize);
                    proof {
                        assert forall|t: int| 0 <= t < n implies (#[trigger] row@.contains(t as usize)
                            <==> exists|c: int| 0 <= c < j + 1 && #[trigger] succ@[c] == t as u32) by {
                            if row@.contains(t as usize) {
                                let b = choose|b: int| 0 <= b < row@.len() && row@[b] == t as usize;
                                if b < before.len() {
                                    assert(before[b] == t as usize);
                                    assert(before.contains(t as usize));
                                } else {
                                    assert(succ@[j as int] == t as u32);
                                }
                            }
                            if exists|c: int| 0 <= c < j + 1 && #[trigger] succ@[c] == t as u32 {
                                let c = choose|c: int| 0 <= c < j + 1 && #[trigger] succ@[c] == t as u32;
                                if c < j {
                                    assert(before.contains(t as usize));
                                    let b = choose|b: int| 0 <= b < before.len() && before[b] == t as usize;
                                    assert(row@[b] == t as usize);
                                } else {
                                    assert(row@[row@.len() - 1] == t as usize);
                                }
                            }
                        }
                    }
                } else {
                    proof {
                        assert forall|t: int| 0 <= t < n implies (#[trigger] row@.contains(t as usize)
                            <==> exists|c: int| 0 <= c < j + 1 && #[trigger] succ@[c] == t as u32) by {
                            if exists|c: int| 0 <= c < j + 1 && #[trigger] succ@[c] == t as u32 {
                                let c = choose|c: int| 0 <= c < j + 1 && #[trigger] succ@[c] == t as u32;
                                if c == j {
                                    assert(y == t as u32);
                                }
                            }
                        }
                    }
                }
                j += 1;
            }
            adj.push(row);
            proof {
                assert forall|a: int, y: int|
                    0 <= a < x + 1 && 0 <= y < n implies (#[trigger] adj@[a]@.contains(y as usize)
                    == self.step_edge(a, y, arms)) by {
                    if a == x as int {
                        assert(adj@[a]@ == row@);
                        if succs_of(bs@[x as int].term, arms).contains(y as u32) {
                            let c = choose|c: int| 0 <= c < succ@.len() && succ@[c] == y as u32;
                            assert(row@.contains(y as usize));
                        }
                        if row@.contains(y as usize) {
                            let c = choose|c: int| 0 <= c < j && #[trigger] succ@[c] == y as u32;
                            assert(succ@.contains(y as u32));
                        }
                    }
                }
            }
            x += 1;
        }
        proof {
            let g = adj_view(adj@);
            assert forall|a: int, b: int| 0 <= a < g.len() && 0 <= b < g[a].len() implies (#[trigger] g[a][b]) < g.len() by {
                assert(g[a] == adj@[a]@);
            }
            assert forall|a: int, y: int| #[trigger] edge(g, a, y) == self.step_edge(a, y, arms) by {
                if 0 <= a < n {
                    assert(g[a] == adj@[a]@);
                }
            }
        }
        adj
    }

    fn term_successors(&self, t: &Terminator, arms: bool) -> (r: Vec<u32>)
        ensures
            r@ == succs_of(*t, arms),
    {
        let mut r: Vec<u32> = Vec::new();
        match t {
            Terminator::Goto { target } => {
                r.push(*target);
            },
            Terminator::Branch { then_bb, else_bb, .. } => {
                r.push(*then_bb);
                r.push(*else_bb);
            },
            Terminator::Call { ret_bb, .. } => {
                r.push(*ret_bb);
            },
            Terminator::Delay { resume, .. } => {
                r.push(*resume);
            },
            Terminator::Wait { resume, .. } => {
                r.push(*resume);
            },
            Terminator::Fork { children, join, resume_bb } => {
                if !arms {
                    r.push(*resume_bb);
                    assert(r@ =~= seq![*resume_bb]);
                    return r;
                }
                let mut k: usize = 0;
                while k < children.len()
                    invariant
                        k <= children@.len(),
                        r@ == children@.take(k as int),
                    decreases children@.len() - k,
                {
                    r.push(children[k]);
                    assert(children@.take(k as int + 1) =~= children@.take(k as int).push(children@[k as int]));
                    k += 1;
                }
                assert(children@.take(k as int) =~= children@);
                r.push(*join);
                r.push(*resume_bb);
                assert(r@ =~= children@ + seq![*join, *resume_bb]);
            },
            Terminator::Return => {},
        }
        r
    }

    fn block_unsafe_exec(&self, b: usize, lo: u32, hi: u32) -> (r: bool)
        requires
            self.bodies_wf(),
            b < self.bodies.func_blocks@.len(),
        ensures
            r == self.block_unsafe(b as int, lo, hi),
    {
        let blk = &self.bodies.func_blocks[b];
        let mut j: usize = 0;
        while j < blk.stmts.len()
            invariant
                self.bodies_wf(),
                b < self.bodies.func_blocks@.len(),
                *blk == self.bodies.func_blocks@[b as int],
                j <= blk.stmts@.len(),
                forall|t: int| 0 <= t < j ==> !self.stmt_unsafe(#[trigger] blk.stmts@[t], lo, hi),
            decreases blk.stmts@.len() - j,
        {
            let sid = blk.stmts[j];
            assert(self.bodies.func_blocks@[b as int].stmts@[j as int] == sid);
            let bad = match &self.bodies.stmts[sid as usize] {
                ir::Stmt::NonblockingAssign { lhs, .. } => {
                    let mut k: usize = 0;
                    let mut found = false;
                    while k < lhs.chunks.len()
                        invariant
                            k <= lhs.chunks@.len(),
                            !found ==> forall|t: int| 0 <= t < k ==> !in_range(#[trigger] lhs.chunks@[t].net, lo, hi),
                            found ==> exists|t: int| 0 <= t < lhs.chunks@.len() && in_range(#[trigger] lhs.chunks@[t].net, lo, hi),
                        decreases lhs.chunks@.len() - k,
                    {
                        if lo <= lhs.chunks[k].net && lhs.chunks[k].net < hi {
                            assert(in_range(lhs.chunks@[k as int].net, lo, hi));
                            found = true;
                        }
                        k += 1;
                    }
                    found
                },
                ir::Stmt::Disable { scope_kind } => *scope_kind == DisableKind::Fork,
                _ => false,
            };
            if bad {
                assert(self.stmt_unsafe(blk.stmts@[j as int], lo, hi));
                return true;
            }
            j += 1;
        }
        match &blk.term {
            Terminator::Wait { cond, .. } => {
                let fork = match cond {
                    WaitCause::Fork => true,
                    _ => false,
                };
                self.wait_cond_reads_frame_local(cond, lo, hi) || fork
            },
            _ => false,
        }
    }

    /// Does frame task `fid`, whose locals are the nets
    /// `base_net .. base_net + locals_len`, hold a construct its suspendable
    /// frame cannot run correctly (see [`Self::task_unsafe`])? Only the
    /// blocks its entry reaches — through calls' return blocks, waits,
    /// delays, and forks' arms, join and continuation — are read.
    pub fn frame_task_has_unsafe_construct(&self, fid: u32, base_net: u32, locals_len: u32) -> (r: bool)
        requires
            self.bodies_wf(),
            (fid as int) < self.bodies.func_entries@.len(),
            base_net + locals_len <= u32::MAX,
        ensures
            r == self.task_unsafe(self.bodies.func_entries@[fid as int], base_net, (base_net + locals_len) as u32),
    {
        let lo = base_net;
        let hi = base_net + locals_len;
        assert(hi == (base_net + locals_len) as u32);
        let fal = &self.bodies.frame_array_local;
        let mut i: usize = 0;
        while i < fal.len()
            invariant
                i <= fal@.len(),
                fal == &self.bodies.frame_array_local,
                lo == base_net,
                hi == (base_net + locals_len) as u32,
                forall|t: int| 0 <= t < i ==> !in_range(#[trigger] fal@[t], lo, hi),
            decreases fal@.len() - i,
        {
            if lo <= fal[i] && fal[i] < hi {
                assert(in_range(fal@[i as int], lo, hi));
                return true;
            }
            i += 1;
        }
        let entry = self.bodies.func_entries[fid as usize];
        let n = self.bodies.func_blocks.len();
        let adj = self.task_adjacency(true);
        let ghost g = adj_view(adj@);
        let ghost e = |x: int, y: int| self.task_edge(x, y);
        if (entry as usize) >= n {
            proof {
                assert forall|b: int| #[trigger] self.task_block(entry, b) implies false by {
                    if b != entry as int {
                        let k = choose|k: nat| #[trigger] crate::graph::reach_by(e, entry as int, b, k);
                        assert(!e(entry as int, b));
                        if !e(entry as int, b) {
                            let c = choose|c: int| #[trigger] e(entry as int, c) && crate::graph::reach_by(
                                e,
                                c,
                                b,
                                (k - 1) as nat,
                            );
                        }
                    }
                }
            }
            return false;
        }
        let reach = reachable_from(&adj, entry as usize);
        proof {
            assert forall|x: int, y: int| #[trigger] edge(g, x, y) == e(x, y) by {
                assert(self.step_edge(x, y, true) == self.task_edge(x, y));
            }
        }
        let mut b: usize = 0;
        while b < n
            invariant
                self.bodies_wf(),
                n == self.bodies.func_blocks@.len(),
                (entry as int) < n,
                entry == self.bodies.func_entries@[fid as int],
                lo == base_net,
                hi == (base_net + locals_len) as u32,
                forall|t: int|
                    0 <= t < self.bodies.frame_array_local@.len() ==> !in_range(
                        #[trigger] self.bodies.frame_array_local@[t],
                        lo,
                        hi,
                    ),
                reach@.len() == n,
                g == adj_view(adj@),
                e == (|x: int, y: int| self.task_edge(x, y)),
                forall|x: int, y: int| #[trigger] edge(g, x, y) == e(x, y),
                forall|t: int| 0 <= t < n ==> (reach@[t] <==> crate::graph::reaches(g, entry as int, t)),
                forall|t: int| 0 <= t < b && #[trigger] self.task_block(entry, t) ==> !self.block_unsafe(t, lo, hi),
            decreases n - b,
        {
            proof {
                lemma_reaches_by(g, e, entry as int, b as int);
            }
            if (b == entry as usize || reach[b]) && self.block_unsafe_exec(b, lo, hi) {
                assert(self.task_block(entry, b as int));
                return true;
            }
            proof {
                if self.task_block(entry, b as int) {
                    assert(b as int == entry as int || reach@[b as int]);
                }
            }
            b += 1;
        }
        proof {
            assert forall|t: int| #[trigger] self.task_block(entry, t) implies !self.block_unsafe(t, lo, hi) by {
                assert(0 <= t < n);
            }
        }
        false
    }
}

/// The verdict on the forks of a task body: every arm self-contained
/// (`CaseA`), a `join` fork whose arms touch the task's locals (`CaseB`), or a
/// fork the frame cannot run (`Loud`).
#[derive(Clone, Copy, PartialEq, Eq, Structural, Debug)]
pub enum ForkAdmit {
    CaseA,
    CaseB,
    Loud,
}

/// A fork under this verdict keeps the task off the suspendable path: a
/// loud one always, a `CaseB` one in a static task (its locals live in one
/// shared store).
pub open spec fn fork_refused(verdict: ForkAdmit, automatic: bool) -> bool {
    verdict == ForkAdmit::Loud || (verdict == ForkAdmit::CaseB && !automatic)
}

impl Elaborator {
    /// The task entered at `entry` can be lifted onto the suspendable-frame
    /// path: no block of its own activity ends in a fork that the verdict
    /// refuses.
    pub open spec fn leaf_nonsuspending(&self, entry: u32, verdict: ForkAdmit, automatic: bool) -> bool {
        !(fork_refused(verdict, automatic) && exists|b: int|
            #[trigger] self.cont_block(entry, b) && self.bodies.func_blocks@[b].term is Fork)
    }

    /// Can task `fid` be lifted onto the suspendable-frame path? Nested task
    /// calls, timing controls and admitted forks are fine; a fork the verdict
    /// `fork_admit` refuses is not. Only the blocks of the task's own
    /// activity are read: a call continues at its return block, a fork after
    /// its join.
    pub fn frame_body_is_leaf_nonsuspending(&self, fid: u32, fork_admit: ForkAdmit) -> (r: bool)
        requires
            self.bodies_wf(),
            (fid as int) < self.bodies.func_entries@.len(),
            (fid as int) < self.func_metas@.len(),
        ensures
            r == self.leaf_nonsuspending(
                self.bodies.func_entries@[fid as int],
                fork_admit,
                self.func_metas@[fid as int].is_automatic,
            ),
    {
        let entry = self.bodies.func_entries[fid as usize];
        let automatic = self.func_metas[fid as usize].is_automatic;
        let refused = match fork_admit {
            ForkAdmit::Loud => true,
            ForkAdmit::CaseB => !automatic,
            ForkAdmit::CaseA => false,
        };
        if !refused {
            return true;
        }
        let n = self.bodies.func_blocks.len();
        let ghost e = |x: int, y: int| self.cont_edge(x, y);
        if (entry as usize) >= n {
            proof {
                assert forall|b: int| #[trigger] self.cont_block(entry, b) implies false by {
                    if b != entry as int {
                        let k = choose|k: nat| #[trigger] crate::graph::reach_by(e, entry as int, b, k);
                        assert(!e(entry as int, b));
                        if !e(entry as int, b) {
                            let c = choose|c: int| #[trigger] e(entry as int, c) && crate::graph::reach_by(
                                e,
                                c,
                                b,
                                (k - 1) as nat,
                            );
                        }
                    }
                }
            }
            return true;
        }
        let adj = self.task_adjacency(false);
        let ghost g = adj_view(adj@);
        let reach = reachable_from(&adj, entry as usize);
        proof {
            assert forall|x: int, y: int| #[trigger] edge(g, x, y) == e(x, y) by {
            }
        }
        let mut b: usize = 0;
        while b < n
            invariant
                self.bodies_wf(),
                n == self.bodies.func_blocks@.len(),
                (entry as int) < n,
                reach@.len() == n,
                (fid as int) < self.bodies.func_entries@.len(),
                (fid as int) < self.func_metas@.len(),
                entry == self.bodies.func_entries@[fid as int],
                automatic == self.func_metas@[fid as int].is_automatic,
                fork_refused(fork_admit, automatic),
                g == adj_view(adj@),
                e == (|x: int, y: int| self.cont_edge(x, y)),
                forall|x: int, y: int| #[trigger] edge(g, x, y) == e(x, y),
                forall|t: int| 0 <= t < n ==> (reach@[t] <==> crate::graph::reaches(g, entry as int, t)),
                forall|t: int| 0 <= t < b && #[trigger] self.cont_block(entry, t) ==> !(self.bodies.func_blocks@[t].term is Fork),
            decreases n - b,
        {
            proof {
                lemma_reaches_by(g, e, entry as int, b as int);
            }
            let is_fork = match &self.bodies.func_blocks[b].term {
                Terminator::Fork { .. } => true,
                _ => false,
            };
            if (b == entry as usize || reach[b]) && is_fork {
                assert(self.cont_block(entry, b as int));
                return false;
            }
            proof {
                if self.cont_block(entry, b as int) {
                    assert(b as int == entry as int || reach@[b as int]);
                }
            }
            b += 1;
        }
        proof {
            assert forall|t: int| #[trigger] self.cont_block(entry, t) implies !(self.bodies.func_blocks@[t].term is Fork) by {
                assert(0 <= t < n);
            }
        }
        true
    }
}

// ── the deferred frame-task decision ─────────────────────────────────────

/// A frame task whose verdict waits until every task body is lowered: the
/// task, its name, its frame-local nets `base_net .. base_net + locals_len`,
/// whether a `repeat` with a timing control in its body counts on a shared
/// counter, and the verdict on its forks.
#[derive(Debug)]
pub struct PendingTask {
    pub fid: u32,
    pub name: String,
    pub base_net: u32,
    pub locals_len: u32,
    pub unsafe_repeat: bool,
    pub fork_verdict: ForkAdmit,
}

/// What becomes of a pending frame task: lifted onto the suspendable-frame
/// path (with a window its `join` fork shares, or not), refused as outside
/// the suspendable subset, or checked as a plain subset task (with the
/// reason it is refused, if any).
#[derive(Clone, Copy, Debug)]
pub enum TaskFate {
    Lifted { shared: bool },
    Refused,
    Subset(Option<FrameReject>),
}

/// The diagnostic of a suspendable task outside the subset the frame
/// machinery runs.
pub open spec fn suspend_subset_msg(name: Seq<char>) -> Seq<char> {
    "frame task `"@ + name
        + "` body uses a construct outside the supported suspendable-task subset (a `fork`, a frame-local unpacked ARRAY, a `wait`/`repeat` reading a frame-local, or a nonblocking assign to a frame-local) \u{2014} $display/NBA-to-module-net/@/#/wait-on-a-net and nested task calls ARE supported"@
}

/// The diagnostic a fate reports, if any.
pub open spec fn fate_message(name: Seq<char>, f: TaskFate) -> Option<Seq<char>> {
    match f {
        TaskFate::Lifted { .. } => None,
        TaskFate::Refused => Some(suspend_subset_msg(name)),
        TaskFate::Subset(Some(w)) => Some(Elaborator::frame_reject_msg(name, w)),
        TaskFate::Subset(None) => None,
    }
}

/// `meta` with its shared-fork flag set to `shared`.
pub open spec fn with_shared(meta: ir::FuncMeta, shared: bool) -> ir::FuncMeta {
    ir::FuncMeta {
        base_net: meta.base_net,
        locals_len: meta.locals_len,
        return_slot: meta.return_slot,
        ret_width: meta.ret_width,
        is_automatic: meta.is_automatic,
        has_hier_call: meta.has_hier_call,
        contains_shared_fork: shared,
    }
}

impl Elaborator {
    /// Every pending task names a subroutine with an entry and a record,
    /// and its local range fits `u32`.
    pub open spec fn pending_wf(&self, ps: Seq<PendingTask>) -> bool {
        forall|i: int|
            0 <= i < ps.len() ==> (#[trigger] ps[i]).fid < self.bodies.func_entries@.len() && ps[i].fid
                < self.func_metas@.len() && ps[i].base_net + ps[i].locals_len <= u32::MAX
    }

    /// The fate of pending task `p`, given the set of suspendable tasks: a
    /// suspendable task is lifted when no refused fork, no unsafe `repeat`
    /// and no unsafe construct holds it back, and refused otherwise; any
    /// other task is checked as a plain frame task (nested calls allowed).
    pub open spec fn task_fate(&self, p: PendingTask, suspendable: Seq<u32>) -> TaskFate {
        let entry = self.bodies.func_entries@[p.fid as int];
        let automatic = self.func_metas@[p.fid as int].is_automatic;
        if suspendable.contains(p.fid) {
            if self.leaf_nonsuspending(entry, p.fork_verdict, automatic) && !p.unsafe_repeat && !self.task_unsafe(
                entry,
                p.base_net,
                (p.base_net + p.locals_len) as u32,
            ) {
                TaskFate::Lifted { shared: automatic && p.fork_verdict == ForkAdmit::CaseB }
            } else {
                TaskFate::Refused
            }
        } else {
            TaskFate::Subset(self.frame_walk(entry, p.base_net, p.locals_len, true))
        }
    }

    /// The diagnostics the pending tasks report, in order.
    pub open spec fn fate_messages(&self, ps: Seq<PendingTask>, suspendable: Seq<u32>) -> Seq<Seq<char>>
        decreases ps.len(),
    {
        if ps.len() == 0 {
            Seq::empty()
        } else {
            self.fate_messages(ps.drop_last(), suspendable) + match fate_message(
                ps.last().name@,
                self.task_fate(ps.last(), suspendable),
            ) {
                Some(m) => seq![m],
                None => Seq::empty(),
            }
        }
    }

    /// Some pending task of subroutine `m` is lifted with a shared window.
    pub open spec fn shares_fork(&self, ps: Seq<PendingTask>, suspendable: Seq<u32>, m: int) -> bool {
        exists|i: int|
            0 <= i < ps.len() && ps[i].fid == m && (#[trigger] self.task_fate(ps[i], suspendable)) == (
            TaskFate::Lifted { shared: true })
    }

    fn decide_task(&self, p: &PendingTask, suspendable: &Vec<u32>) -> (f: TaskFate)
        requires
            self.bodies_wf(),
            p.fid < self.bodies.func_entries@.len(),
            p.fid < self.func_metas@.len(),
            p.base_net + p.locals_len <= u32::MAX,
        ensures
            f == self.task_fate(*p, suspendable@),
    {
        let entry = self.bodies.func_entries[p.fid as usize];
        let automatic = self.func_metas[p.fid as usize].is_automatic;
        if contains_u32(suspendable, p.fid) {
            if self.frame_body_is_leaf_nonsuspending(p.fid, p.fork_verdict) && !p.unsafe_repeat
                && !self.frame_task_has_unsafe_construct(p.fid, p.base_net, p.locals_len) {
                let case_b = match p.fork_verdict {
                    ForkAdmit::CaseB => true,
                    _ => false,
                };
                TaskFate::Lifted { shared: automatic && case_b }
            } else {
                TaskFate::Refused
            }
        } else {
            TaskFate::Subset(self.classify_frame_body(entry, p.base_net, p.locals_len, true))
        }
    }

    fn suspend_subset_message(name: &str) -> (msg: String)
        ensures
            msg@ == suspend_subset_msg(name@),
    {
        let mut msg = String::from_str("frame task `");
        msg.append(name);
        msg.append(
            "` body uses a construct outside the supported suspendable-task subset (a `fork`, a frame-local unpacked ARRAY, a `wait`/`repeat` reading a frame-local, or a nonblocking assign to a frame-local) \u{2014} $display/NBA-to-module-net/@/#/wait-on-a-net and nested task calls ARE supported",
        );
        msg
    }

    /// Decide every deferred frame task once all task bodies are lowered,
    /// given the set of tasks that can suspend: lift a suspendable task the
    /// frame machinery runs (flagging a shared window for an automatic one
    /// with a `join` fork whose arms touch its locals), refuse any other
    /// suspendable one, and check every other one as a plain frame task.
    /// Each refusal is one error, in the order of `pending`.
    pub fn resolve_frame_task_rejects(&mut self, pending: &Vec<PendingTask>, suspendable: &Vec<u32>)
        requires
            old(self).bodies_wf(),
            old(self).pending_wf(pending@),
        ensures
            ({
                let msgs = old(self).fate_messages(pending@, suspendable@);
                let n0 = old(self).diags@.len();
                &&& final(self).diags@.len() == n0 + msgs.len()
                &&& final(self).diags@.take(n0 as int) == old(self).diags@
                &&& forall|k: int| 0 <= k < msgs.len() ==> {
                    &&& (#[trigger] final(self).diags@[n0 + k]).severity == Severity::Error
                    &&& final(self).diags@[n0 + k].code == MsgCode::ElabUnsupported
                    &&& final(self).diags@[n0 + k].message@ == msgs[k]
                }
                &&& final(self).had_error == (old(self).had_error || msgs.len() > 0)
            }),
            final(self).func_metas@.len() == old(self).func_metas@.len(),
            forall|m: int| 0 <= m < old(self).func_metas@.len() ==> #[trigger] final(self).func_metas@[m] == with_shared(
                old(self).func_metas@[m],
                old(self).func_metas@[m].contains_shared_fork || old(self).shares_fork(pending@, suspendable@, m),
            ),
            final(self).exprs == old(self).exprs,
            final(self).consts == old(self).consts,
            final(self).nets == old(self).nets,
            final(self).canon == old(self).canon,
            final(self).repeatable == old(self).repeatable,
            final(self).tables == old(self).tables,
            final(self).bodies == old(self).bodies,
            final(self).size_cast_real_reported == old(self).size_cast_real_reported,
    {
        let mut fates: Vec<TaskFate> = Vec::new();
        let mut i: usize = 0;
        while i < pending.len()
            invariant
                i <= pending@.len(),
                self.bodies_wf(),
                self.pending_wf(pending@),
                *self == *old(self),
                fates@.len() == i,
                forall|j: int| 0 <= j < i ==> fates@[j] == old(self).task_fate(#[trigger] pending@[j], suspendable@),
            decreases pending@.len() - i,
        {
            assert(self.pending_wf(pending@));
            let ghost pi = pending@[i as int];
            assert(pi.fid < self.bodies.func_entries@.len());
            let f = self.decide_task(&pending[i], suspendable);
            fates.push(f);
            i += 1;
        }
        let ghost s0 = *self;
        let n0 = self.diags.len();
        let mut i: usize = 0;
        assert(pending@.take(0) =~= Seq::<PendingTask>::empty());
        assert(self.diags@.take(n0 as int) =~= s0.diags@);
        while i < pending.len()
            invariant
                i <= pending@.len(),
                s0 == *old(self),
                fates@.len() == pending@.len(),
                forall|j: int| 0 <= j < pending@.len() ==> fates@[j] == s0.task_fate(#[trigger] pending@[j], suspendable@),
                s0.pending_wf(pending@),
                n0 == s0.diags@.len(),
                ({
                    let msgs = s0.fate_messages(pending@.take(i as int), suspendable@);
                    &&& self.diags@.len() == n0 + msgs.len()
                    &&& self.diags@.take(n0 as int) == s0.diags@
                    &&& forall|k: int| 0 <= k < msgs.len() ==> {
                        &&& (#[trigger] self.diags@[n0 + k]).severity == Severity::Error
                        &&& self.diags@[n0 + k].code == MsgCode::ElabUnsupported
                        &&& self.diags@[n0 + k].message@ == msgs[k]
                    }
                    &&& self.had_error == (s0.had_error || msgs.len() > 0)
                }),
                self.func_metas@.len() == s0.func_metas@.len(),
                forall|m: int| 0 <= m < s0.func_metas@.len() ==> #[trigger] self.func_metas@[m] == with_shared(
                    s0.func_metas@[m],
                    s0.func_metas@[m].contains_shared_fork || s0.shares_fork(pending@.take(i as int), suspendable@, m),
                ),
                self.exprs == s0.exprs,
                self.consts == s0.consts,
                self.nets == s0.nets,
                self.canon == s0.canon,
                self.repeatable == s0.repeatable,
                self.tables == s0.tables,
                self.bodies == s0.bodies,
                self.size_cast_real_reported == s0.size_cast_real_reported,
            decreases pending@.len() - i,
        {
            let ghost pre = pending@.take(i as int);
            let ghost post = pending@.take(i as int + 1);
            assert(post.drop_last() =~= pre);
            assert(post.last() == pending@[i as int]);
            let ghost msgs0 = s0.fate_messages(pre, suspendable@);
            let ghost d_before = self.diags@;
            let ghost metas_before = self.func_metas@;
            let p = &pending[i];
            assert(s0.pending_wf(pending@));
            let ghost pi = pending@[i as int];
            assert(pi.fid < s0.func_metas@.len());
            match fates[i] {
                TaskFate::Lifted { shared } => {
                    if shared {
                        let mut m = self.func_metas[p.fid as usize];
                        m.contains_shared_fork = true;
                        self.func_metas.set(p.fid as usize, m);
                    }
                },
                TaskFate::Refused => {
                    let msg = Self::suspend_subset_message(p.name.as_str());
                    self.error(MsgCode::ElabUnsupported, msg.as_str());
                },
                TaskFate::Subset(Some(w)) => {
                    let msg = Self::reject_message(p.name.as_str(), w);
                    self.error(MsgCode::ElabUnsupported, msg.as_str());
                },
                TaskFate::Subset(None) => {},
            }
            proof {
                let f = s0.task_fate(pi, suspendable@);
                assert(fates@[i as int] == f);
                let msgs1 = s0.fate_messages(post, suspendable@);
                assert(msgs1 == msgs0 + match fate_message(pi.name@, f) {
                    Some(m) => seq![m],
                    None => Seq::<Seq<char>>::empty(),
                });
                assert(self.diags@.take(n0 as int) =~= s0.diags@) by {
                    assert forall|k: int| 0 <= k < n0 implies self.diags@[k] == s0.diags@[k] by {
                        assert(d_before.take(n0 as int)[k] == s0.diags@[k]);
                    }
                }
                assert forall|k: int| 0 <= k < msgs1.len() implies {
                    &&& (#[trigger] self.diags@[n0 + k]).severity == Severity::Error
                    &&& self.diags@[n0 + k].code == MsgCode::ElabUnsupported
                    &&& self.diags@[n0 + k].message@ == msgs1[k]
                } by {
                    if k < msgs0.len() {
                        assert(self.diags@[n0 + k] == d_before[n0 + k]);
                        assert(msgs1[k] == msgs0[k]);
                    }
                }
                assert forall|m: int| 0 <= m < s0.func_metas@.len() implies #[trigger] self.func_metas@[m] == with_shared(
                    s0.func_metas@[m],
                    s0.func_metas@[m].contains_shared_fork || s0.shares_fork(post, suspendable@, m),
                ) by {
                    let was = s0.shares_fork(pre, suspendable@, m);
                    let now = s0.shares_fork(post, suspendable@, m);
                    if was {
                        let j = choose|j: int|
                            0 <= j < pre.len() && pre[j].fid == m && (#[trigger] s0.task_fate(pre[j], suspendable@)) == (
                            TaskFate::Lifted { shared: true });
                        assert(post[j] == pre[j]);
                        assert(now);
                    }
                    if now && !was {
                        let j = choose|j: int|
                            0 <= j < post.len() && post[j].fid == m && (#[trigger] s0.task_fate(post[j], suspendable@)) == (
                            TaskFate::Lifted { shared: true });
                        if j < pre.len() {
                            assert(post[j] == pre[j]);
                        }
                        assert(j == pre.len());
                    }
                    if m == pi.fid as int && f == (TaskFate::Lifted { shared: true }) {
                        assert(post[pre.len() as int] == pi);
                        assert(now);
                    }
                }
            }
            i += 1;
        }
        assert(pending@.take(i as int) =~= pending@);
    }
}

} // verus!
