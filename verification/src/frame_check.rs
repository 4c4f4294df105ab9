//! Is a lowered frame body inside the frame-call subset? Only blocking
//! assignments to the body's own locals, control flow and (for tasks)
//! nested task calls are; the check walks the blocks the body's entry
//! reaches through its own control-flow edges.

use vstd::prelude::*;
use vstd::string::StringExecFns;
use crate::elab::{Elaborator, MsgCode, Severity};
use crate::graph::{
    count_true, lemma_closed_by, lemma_count_le, lemma_count_none, lemma_count_update, lemma_extend_by, reach_by,
    reaches_by,
};
use crate::ir;
use crate::ir::{DisableKind, LvChunk, SysTaskId, Terminator};
use crate::names::contains_u32;
use crate::scope::is_handle_kind;

verus! {

/// Why a frame body falls outside the frame-call subset.
#[derive(Clone, Copy, PartialEq, Eq, Structural, Debug)]
pub enum FrameReject {
    Timing,
    ConcatTarget,
    OutsideNet,
    PartSelect,
    SysTask,
}

/// The words a diagnostic uses for a reason.
pub open spec fn reject_text(w: FrameReject) -> Seq<char> {
    match w {
        FrameReject::Timing => "a timing/suspend/fork control (#delay, @, wait, fork)"@,
        FrameReject::ConcatTarget => "a concatenation-target assignment"@,
        FrameReject::OutsideNet => "an assignment to a net outside the function"@,
        FrameReject::PartSelect => "a part-select / array-element assignment"@,
        FrameReject::SysTask => "a $systask / nonblocking / force / release statement"@,
    }
}

impl FrameReject {
    pub fn text(&self) -> (s: &'static str)
        ensures
            s@ == reject_text(*self),
    {
        match self {
            FrameReject::Timing => "a timing/suspend/fork control (#delay, @, wait, fork)",
            FrameReject::ConcatTarget => "a concatenation-target assignment",
            FrameReject::OutsideNet => "an assignment to a net outside the function",
            FrameReject::PartSelect => "a part-select / array-element assignment",
            FrameReject::SysTask => "a $systask / nonblocking / force / release statement",
        }
    }
}

/// The blocks a terminator continues to within the same body: a call
/// continues at its return block, a fork and a return nowhere.
pub open spec fn term_succs(t: Terminator) -> Seq<u32> {
    match t {
        Terminator::Goto { target } => seq![target],
        Terminator::Branch { then_bb, else_bb, .. } => seq![then_bb, else_bb],
        Terminator::Call { ret_bb, .. } => seq![ret_bb],
        Terminator::Delay { resume, .. } => seq![resume],
        Terminator::Wait { resume, .. } => seq![resume],
        Terminator::Fork { .. } => Seq::empty(),
        Terminator::Return => Seq::empty(),
    }
}

/// A terminator the frame executes synchronously.
pub open spec fn term_ok(t: Terminator, allow_call: bool) -> bool {
    t is Goto || t is Branch || t is Return || (allow_call && t is Call)
}

/// Every operand of a system-task statement is a node of the arena.
pub open spec fn stmt_args_in(s: ir::Stmt, n: int) -> bool {
    match s {
        ir::Stmt::SysTask { args, .. } => forall|k: int| 0 <= k < args@.len() ==> (#[trigger] args@[k]) < n,
        _ => true,
    }
}

impl Elaborator {
    /// Block ids fit `u32`, the statement ids of every block name
    /// statements, and the operands of every system task name arena nodes.
    pub open spec fn bodies_wf(&self) -> bool {
        &&& self.bodies.func_blocks@.len() <= u32::MAX
        &&& forall|b: int, j: int|
            0 <= b < self.bodies.func_blocks@.len() && 0 <= j < self.bodies.func_blocks@[b].stmts@.len()
                ==> (#[trigger] self.bodies.func_blocks@[b].stmts@[j]) < self.bodies.stmts@.len()
        &&& forall|s: int| 0 <= s < self.bodies.stmts@.len() ==> stmt_args_in(
            #[trigger] self.bodies.stmts@[s],
            self.exprs@.len() as int,
        )
    }

    /// A control-flow edge `x → y` between blocks of the arena.
    pub open spec fn cfg_edge(&self, x: int, y: int) -> bool {
        let bs = self.bodies.func_blocks@;
        0 <= x < bs.len() && 0 <= y < bs.len() && term_succs(bs[x].term).contains(y as u32)
    }

    /// Block `b` belongs to the body entered at `entry`: it is the entry or
    /// the entry reaches it.
    pub open spec fn body_block(&self, entry: u32, b: int) -> bool {
        0 <= b < self.bodies.func_blocks@.len() && (b == entry as int || reaches_by(
            |x: int, y: int| self.cfg_edge(x, y),
            entry as int,
            b,
        ))
    }

    /// `net` is a dynamic-storage handle.
    pub open spec fn is_handle(&self, net: u32) -> bool {
        (net as int) < self.nets@.len() && is_handle_kind(self.nets@[net as int].kind)
    }

    /// The reason a chunk of a blocking-assignment target is refused, with
    /// the frame's locals at `lo .. hi`: a class-field write and an
    /// in-frame dynamic-array write go to the heap and are fine; a whole
    /// write must target a frame local; a part / bit / element write is
    /// fine only on an in-frame scalar that is no unpacked array.
    pub open spec fn chunk_reject(&self, c: LvChunk, lo: int, hi: int) -> Option<FrameReject> {
        let in_frame = lo <= c.net && c.net < hi;
        if self.bodies.class_handle_nets@.contains(c.net) && c.word is Some {
            None
        } else if in_frame && self.is_handle(c.net) {
            None
        } else if c.offset is None && c.word is None && c.width is None {
            if !in_frame {
                Some(FrameReject::OutsideNet)
            } else {
                None
            }
        } else if c.word is Some || !in_frame || self.bodies.frame_array_local@.contains(c.net) {
            Some(FrameReject::PartSelect)
        } else {
            None
        }
    }

    /// A system task the frame executors perform: an in-frame dynamic-array
    /// `new[]` / `delete()`, a dynamic-array formal snapshot marker, a
    /// genuine print, or a severity task.
    pub open spec fn systask_allowed(&self, sid: u32, which: SysTaskId, args: Seq<u32>, lo: int, hi: int) -> bool {
        ||| ((which == SysTaskId::DynNew || which == SysTaskId::DynDelete) && args.len() > 0
            && match self.exprs@[args[0] as int] {
            ir::Expr::Signal { net, .. } => lo <= net && net < hi && self.is_handle(net),
            _ => false,
        })
        ||| (which == SysTaskId::Display && self.bodies.dyn_formal_marker_stmts@.contains(sid))
        ||| ((which == SysTaskId::Display || which == SysTaskId::Write)
            && self.bodies.frame_print_stmts@.contains(sid))
        ||| (which == SysTaskId::Display && self.bodies.severities@.contains(sid))
    }

    /// Statement `sid` is refused for reason `w`.
    pub open spec fn stmt_reject(&self, sid: u32, lo: int, hi: int, w: FrameReject) -> bool {
        match self.bodies.stmts@[sid as int] {
            ir::Stmt::BlockingAssign { lhs, .. } => (w == FrameReject::ConcatTarget && lhs.chunks@.len()
                > 1) || exists|k: int|
                0 <= k < lhs.chunks@.len() && self.chunk_reject(#[trigger] lhs.chunks@[k], lo, hi) == Some(w),
            ir::Stmt::Disable { scope_kind } => scope_kind != DisableKind::Scope && w == FrameReject::SysTask,
            ir::Stmt::SysTask { which, args } => !self.systask_allowed(sid, which, args@, lo, hi) && w
                == FrameReject::SysTask,
            _ => w == FrameReject::SysTask,
        }
    }

    /// Block `b` is refused for reason `w`: by its terminator or by one of
    /// its statements.
    pub open spec fn block_reject(&self, b: int, lo: int, hi: int, allow_call: bool, w: FrameReject) -> bool {
        let blk = self.bodies.func_blocks@[b];
        (!term_ok(blk.term, allow_call) && w == FrameReject::Timing) || exists|j: int|
            0 <= j < blk.stmts@.len() && self.stmt_reject(#[trigger] blk.stmts@[j], lo, hi, w)
    }

    /// The body entered at `entry` is refused for reason `w`.
    pub open spec fn body_reject(&self, entry: u32, lo: int, hi: int, allow_call: bool, w: FrameReject) -> bool {
        exists|b: int| #[trigger] self.body_block(entry, b) && self.block_reject(b, lo, hi, allow_call, w)
    }

    /// The body entered at `entry`, whose locals are the nets
    /// `net_base .. net_base + locals_len`, is refused for reason `w`.
    pub open spec fn frame_body_reject(&self, entry: u32, net_base: u32, locals_len: u32, allow_call: bool, w: FrameReject) -> bool {
        self.body_reject(entry, net_base as int, net_base + locals_len, allow_call, w)
    }

    /// The reason the walk gives for a run of target chunks: the last
    /// chunk's own reason, if it has one, else the run before it.
    pub open spec fn chunks_reason(&self, cs: Seq<LvChunk>, lo: int, hi: int) -> Option<FrameReject>
        decreases cs.len(),
    {
        if cs.len() == 0 {
            None
        } else {
            match self.chunk_reject(cs.last(), lo, hi) {
                Some(w) => Some(w),
                None => self.chunks_reason(cs.drop_last(), lo, hi),
            }
        }
    }

    /// The reason given for statement `sid`: for an assignment, that of its
    /// last refused chunk, else a concatenation target; for the others,
    /// whether it is refused at all.
    pub open spec fn stmt_reason(&self, sid: u32, lo: int, hi: int) -> Option<FrameReject> {
        match self.bodies.stmts@[sid as int] {
            ir::Stmt::BlockingAssign { lhs, .. } => match self.chunks_reason(lhs.chunks@, lo, hi) {
                Some(w) => Some(w),
                None => if lhs.chunks@.len() > 1 {
                    Some(FrameReject::ConcatTarget)
                } else {
                    None
                },
            },
            ir::Stmt::Disable { scope_kind } => if scope_kind == DisableKind::Scope {
                None
            } else {
                Some(FrameReject::SysTask)
            },
            ir::Stmt::SysTask { which, args } => if self.systask_allowed(sid, which, args@, lo, hi) {
                None
            } else {
                Some(FrameReject::SysTask)
            },
            _ => Some(FrameReject::SysTask),
        }
    }

    /// The reason given for a run of statements: the last refused one's.
    pub open spec fn stmts_reason(&self, ss: Seq<u32>, lo: int, hi: int) -> Option<FrameReject>
        decreases ss.len(),
    {
        if ss.len() == 0 {
            None
        } else {
            match self.stmt_reason(ss.last(), lo, hi) {
                Some(w) => Some(w),
                None => self.stmts_reason(ss.drop_last(), lo, hi),
            }
        }
    }

    /// The reason given for block `b`: its last refused statement's, else
    /// a timing control when its terminator suspends.
    pub open spec fn block_reason(&self, b: int, lo: int, hi: int, allow_call: bool) -> Option<FrameReject> {
        let blk = self.bodies.func_blocks@[b];
        match self.stmts_reason(blk.stmts@, lo, hi) {
            Some(w) => Some(w),
            None => if term_ok(blk.term, allow_call) {
                None
            } else {
                Some(FrameReject::Timing)
            },
        }
    }

    /// The depth-first walk from a stack of pending blocks (the top is the
    /// last), with the blocks already visited and the reason found so far:
    /// a visited or unknown block is skipped; a new one is visited, its
    /// reason (if any) replaces the one so far, and its successors are
    /// pushed in order. The walk gives the reason it holds at the end.
    pub open spec fn walk(
        &self,
        lo: int,
        hi: int,
        allow_call: bool,
        stack: Seq<u32>,
        seen: Seq<bool>,
        why: Option<FrameReject>,
    ) -> Option<FrameReject>
        decreases seen.len() - count_true(seen), stack.len(),
    {
        if stack.len() == 0 {
            why
        } else {
            let b = stack.last() as int;
            if b >= seen.len() || seen[b] {
                self.walk(lo, hi, allow_call, stack.drop_last(), seen, why)
            } else {
                proof {
                    lemma_count_update(seen, b);
                    lemma_count_le(seen.update(b, true));
                }
                let why2 = match self.block_reason(b, lo, hi, allow_call) {
                    Some(w) => Some(w),
                    None => why,
                };
                self.walk(
                    lo,
                    hi,
                    allow_call,
                    stack.drop_last() + term_succs(self.bodies.func_blocks@[b].term),
                    seen.update(b, true),
                    why2,
                )
            }
        }
    }

    /// The reason the walk from `entry` gives for the body whose locals are
    /// `net_base .. net_base + locals_len`.
    pub open spec fn frame_walk(&self, entry: u32, net_base: u32, locals_len: u32, allow_call: bool) -> Option<
        FrameReject,
    > {
        self.walk(
            net_base as int,
            net_base + locals_len,
            allow_call,
            seq![entry],
            Seq::new(self.bodies.func_blocks@.len(), |i: int| false),
            None,
        )
    }

    fn chunk_reject_exec(&self, c: &LvChunk, lo: u32, hi: u32) -> (r: Option<FrameReject>)
        ensures
            r == self.chunk_reject(*c, lo as int, hi as int),
    {
        let in_frame = lo <= c.net && c.net < hi;
        if contains_u32(&self.bodies.class_handle_nets, c.net) && c.word.is_some() {
            return None;
        }
        if in_frame && self.is_dyn_handle_net(c.net) {
            return None;
        }
        if c.offset.is_none() && c.word.is_none() && c.width.is_none() {
            if !in_frame {
                Some(FrameReject::OutsideNet)
            } else {
                None
            }
        } else if c.word.is_some() || !in_frame || contains_u32(&self.bodies.frame_array_local, c.net) {
            Some(FrameReject::PartSelect)
        } else {
            None
        }
    }

    fn systask_allowed_exec(&self, sid: u32, which: SysTaskId, args: &Vec<u32>, lo: u32, hi: u32) -> (r: bool)
        requires
            forall|k: int| 0 <= k < args@.len() ==> (#[trigger] args@[k]) < self.exprs@.len(),
        ensures
            r == self.systask_allowed(sid, which, args@, lo as int, hi as int),
    {
        if (which == SysTaskId::DynNew || which == SysTaskId::DynDelete) && args.len() > 0 {
            let a = args[0];
            let ok = match &self.exprs[a as usize] {
                ir::Expr::Signal { net, .. } => lo <= *net && *net < hi && self.is_dyn_handle_net(*net),
                _ => false,
            };
            if ok {
                return true;
            }
        }
        (which == SysTaskId::Display && contains_u32(&self.bodies.dyn_formal_marker_stmts, sid))
            || ((which == SysTaskId::Display || which == SysTaskId::Write) && contains_u32(
            &self.bodies.frame_print_stmts,
            sid,
        )) || (which == SysTaskId::Display && contains_u32(&self.bodies.severities, sid))
    }

    /// The reason statement `sid` is refused, if any: of several, the last
    /// one found.
    fn stmt_reject_exec(&self, sid: u32, lo: u32, hi: u32) -> (r: Option<FrameReject>)
        requires
            self.bodies_wf(),
            (sid as int) < self.bodies.stmts@.len(),
        ensures
            r == self.stmt_reason(sid, lo as int, hi as int),
            r is None ==> forall|w: FrameReject| !self.stmt_reject(sid, lo as int, hi as int, w),
            r matches Some(w) ==> self.stmt_reject(sid, lo as int, hi as int, w),
    {
        proof {
            assert(stmt_args_in(self.bodies.stmts@[sid as int], self.exprs@.len() as int));
        }
        match &self.bodies.stmts[sid as usize] {
            ir::Stmt::BlockingAssign { lhs, .. } => {
                let mut why: Option<FrameReject> = None;
                if lhs.chunks.len() > 1 {
                    why = Some(FrameReject::ConcatTarget);
                }
                let mut k: usize = 0;
                assert(lhs.chunks@.take(0) =~= Seq::<LvChunk>::empty());
                while k < lhs.chunks.len()
                    invariant
                        k <= lhs.chunks@.len(),
                        why == match self.chunks_reason(lhs.chunks@.take(k as int), lo as int, hi as int) {
                            Some(w) => Some(w),
                            None => if lhs.chunks@.len() > 1 {
                                Some(FrameReject::ConcatTarget)
                            } else {
                                None
                            },
                        },
                        self.bodies.stmts@[sid as int] matches ir::Stmt::BlockingAssign { lhs: l, .. } && l
                            == *lhs,
                        why is None ==> lhs.chunks@.len() <= 1 && forall|t: int|
                            0 <= t < k ==> self.chunk_reject(#[trigger] lhs.chunks@[t], lo as int, hi as int)
                                is None,
                        why matches Some(w) ==> self.stmt_reject(sid, lo as int, hi as int, w),
                    decreases lhs.chunks@.len() - k,
                {
                    let c = lhs.chunks[k];
                    assert(lhs.chunks@.take(k as int + 1).drop_last() =~= lhs.chunks@.take(k as int));
                    assert(lhs.chunks@.take(k as int + 1).last() == lhs.chunks@[k as int]);
                    if let Some(w) = self.chunk_reject_exec(&c, lo, hi) {
                        why = Some(w);
                        assert(self.chunk_reject(lhs.chunks@[k as int], lo as int, hi as int) == Some(w));
                    }
                    k += 1;
                }
                assert(lhs.chunks@.take(k as int) =~= lhs.chunks@);
                why
            },
            ir::Stmt::Disable { scope_kind } => {
                if *scope_kind == DisableKind::Scope {
                    None
                } else {
                    Some(FrameReject::SysTask)
                }
            },
            ir::Stmt::SysTask { which, args } => {
                if self.systask_allowed_exec(sid, *which, args, lo, hi) {
                    None
                } else {
                    Some(FrameReject::SysTask)
                }
            },
            _ => Some(FrameReject::SysTask),
        }
    }

    /// The reason block `b` is refused, if any: of several, the last one
    /// found (the terminator's first, then the statements' in order).
    fn block_reject_exec(&self, b: usize, lo: u32, hi: u32, allow_call: bool) -> (r: Option<FrameReject>)
        requires
            self.bodies_wf(),
            b < self.bodies.func_blocks@.len(),
        ensures
            r == self.block_reason(b as int, lo as int, hi as int, allow_call),
            r is None ==> forall|w: FrameReject| !self.block_reject(b as int, lo as int, hi as int, allow_call, w),
            r matches Some(w) ==> self.block_reject(b as int, lo as int, hi as int, allow_call, w),
    {
        let blk = &self.bodies.func_blocks[b];
        let ok = match &blk.term {
            Terminator::Goto { .. } | Terminator::Branch { .. } | Terminator::Return => true,
            Terminator::Call { .. } => allow_call,
            _ => false,
        };
        let mut why: Option<FrameReject> = if ok {
            None
        } else {
            Some(FrameReject::Timing)
        };
        let mut j: usize = 0;
        assert(blk.stmts@.take(0) =~= Seq::<u32>::empty());
        while j < blk.stmts.len()
            invariant
                why == match self.stmts_reason(blk.stmts@.take(j as int), lo as int, hi as int) {
                    Some(w) => Some(w),
                    None => if ok {
                        None
                    } else {
                        Some(FrameReject::Timing)
                    },
                },
                self.bodies_wf(),
                b < self.bodies.func_blocks@.len(),
                *blk == self.bodies.func_blocks@[b as int],
                ok == term_ok(blk.term, allow_call),
                j <= blk.stmts@.len(),
                why is None ==> ok && forall|t: int, w: FrameReject|
                    0 <= t < j ==> !#[trigger] self.stmt_reject(blk.stmts@[t], lo as int, hi as int, w),
                why matches Some(w) ==> self.block_reject(b as int, lo as int, hi as int, allow_call, w),
            decreases blk.stmts@.len() - j,
        {
            let sid = blk.stmts[j];
            assert(self.bodies.func_blocks@[b as int].stmts@[j as int] == sid);
            assert(blk.stmts@.take(j as int + 1).drop_last() =~= blk.stmts@.take(j as int));
            assert(blk.stmts@.take(j as int + 1).last() == sid);
            if let Some(w) = self.stmt_reject_exec(sid, lo, hi) {
                why = Some(w);
                assert(self.stmt_reject(blk.stmts@[j as int], lo as int, hi as int, w));
            }
            j += 1;
        }
        assert(blk.stmts@.take(j as int) =~= blk.stmts@);
        why
    }

    /// Classify the frame body entered at `entry`, whose locals are the
    /// nets `net_base .. net_base + locals_len`: `None` when it is inside
    /// the frame-call subset, else a reason it is not. Only the blocks the
    /// entry reaches through the body's own edges are read (a call
    /// continues at its return block). Of several reasons, the one the
    /// depth-first walk meets last is given (`frame_walk`). A reached block
    /// that suspends (a delay, a wait, a fork), or calls when calls are not
    /// allowed, makes the result a refusal; blocks the entry does not reach
    /// never change it (see [`lemma_frame_walk_reads_reached_blocks_only`]).
    pub fn classify_frame_body(&self, entry: u32, net_base: u32, locals_len: u32, allow_call: bool) -> (r:
        Option<FrameReject>)
        requires
            self.bodies_wf(),
            net_base + locals_len <= u32::MAX,
        ensures
            r is None <==> forall|w: FrameReject|
                !self.frame_body_reject(entry, net_base, locals_len, allow_call, w),
            r matches Some(w) ==> self.frame_body_reject(entry, net_base, locals_len, allow_call, w),
            r == self.frame_walk(entry, net_base, locals_len, allow_call),
            forall|b: int|
                #[trigger] self.body_block(entry, b) && !term_ok(self.bodies.func_blocks@[b].term, allow_call)
                    ==> r is Some,
    {
        let lo = net_base;
        let hi = net_base + locals_len;
        let n = self.bodies.func_blocks.len();
        let ghost e = |x: int, y: int| self.cfg_edge(x, y);
        let mut seen: Vec<bool> = Vec::new();
        let mut i: usize = 0;
        while i < n
            invariant
                i <= n,
                seen@.len() == i,
                forall|x: int| 0 <= x < i ==> !seen@[x],
            decreases n - i,
        {
            seen.push(false);
            i += 1;
        }
        proof {
            lemma_count_none(seen@);
        }
        let mut stack: Vec<u32> = Vec::new();
        stack.push(entry);
        assert(stack@[0] == entry);
        assert(stack@ =~= seq![entry]);
        assert(seen@ =~= Seq::new(n as nat, |i: int| false));
        let mut why: Option<FrameReject> = None;
        while stack.len() > 0
            invariant
                self.walk(lo as int, hi as int, allow_call, stack@, seen@, why) == self.frame_walk(
                    entry,
                    net_base,
                    locals_len,
                    allow_call,
                ),
                self.bodies_wf(),
                n == self.bodies.func_blocks@.len(),
                n <= u32::MAX,
                lo == net_base,
                hi == net_base + locals_len,
                e == (|x: int, y: int| self.cfg_edge(x, y)),
                seen@.len() == n,
                forall|s: int|
                    0 <= s < stack@.len() && (#[trigger] stack@[s]) < n ==> self.body_block(entry, stack@[s] as int),
                forall|x: int| 0 <= x < n && #[trigger] seen@[x] ==> self.body_block(entry, x),
                forall|x: int, y: int|
                    0 <= x < n && seen@[x] && #[trigger] self.cfg_edge(x, y) ==> seen@[y] || stack@.contains(
                        y as u32,
                    ),
                (entry as int) < n ==> seen@[entry as int] || stack@.contains(entry),
                why is None ==> forall|x: int, w: FrameReject|
                    0 <= x < n && seen@[x] ==> !#[trigger] self.block_reject(x, lo as int, hi as int, allow_call, w),
                why matches Some(w) ==> exists|x: int|
                    0 <= x < n && #[trigger] seen@[x] && self.block_reject(x, lo as int, hi as int, allow_call, w),
            decreases n - count_true(seen@), stack@.len(),
        {
            proof {
                lemma_count_le(seen@);
            }
            let ghost pre = stack@;
            let b = stack.pop().unwrap();
            let ghost popped = stack@;
            assert(pre == popped.push(b));
            assert(pre.drop_last() =~= popped);
            if (b as usize) >= n {
                proof {
                    assert(self.walk(lo as int, hi as int, allow_call, pre, seen@, why) == self.walk(
                        lo as int,
                        hi as int,
                        allow_call,
                        popped,
                        seen@,
                        why,
                    ));
                    assert forall|x: int, y: int|
                        0 <= x < n && seen@[x] && #[trigger] self.cfg_edge(x, y) implies seen@[y]
                            || stack@.contains(y as u32) by {
                        if !seen@[y] {
                            assert(pre.contains(y as u32));
                            let s = choose|s: int| 0 <= s < pre.len() && pre[s] == y as u32;
                            if s == pre.len() - 1 {
                                assert(y < n);
                            } else {
                                assert(popped[s] == y as u32);
                            }
                        }
                    }
                    if (entry as int) < n && !seen@[entry as int] {
                        let s = choose|s: int| 0 <= s < pre.len() && pre[s] == entry;
                        assert(popped[s] == entry);
                    }
                }
                continue;
            }
            if seen[b as usize] {
                proof {
                    assert(self.walk(lo as int, hi as int, allow_call, pre, seen@, why) == self.walk(
                        lo as int,
                        hi as int,
                        allow_call,
                        popped,
                        seen@,
                        why,
                    ));
                    assert forall|x: int, y: int|
                        0 <= x < n && seen@[x] && #[trigger] self.cfg_edge(x, y) implies seen@[y]
                            || stack@.contains(y as u32) by {
                        if !seen@[y] {
                            let s = choose|s: int| 0 <= s < pre.len() && pre[s] == y as u32;
                            if s < popped.len() {
                                assert(popped[s] == y as u32);
                            } else {
                                assert(pre[s] == b);
                                assert(y == b as int);
                            }
                        }
                    }
                    if (entry as int) < n && !seen@[entry as int] {
                        let s = choose|s: int| 0 <= s < pre.len() && pre[s] == entry;
                        if s < popped.len() {
                            assert(popped[s] == entry);
                        }
                    }
                }
                continue;
            }
            proof {
                assert(self.body_block(entry, b as int));
                lemma_count_update(seen@, b as int);
            }
            let ghost before = seen@;
            seen.set(b as usize, true);
            let bw = self.block_reject_exec(b as usize, lo, hi, allow_call);
            let ghost why0 = why;
            if let Some(w) = bw {
                why = Some(w);
            }
            proof {
                if why0 is None && bw is None {
                    assert forall|x: int, w: FrameReject|
                        0 <= x < n && seen@[x] implies !#[trigger] self.block_reject(x, lo as int, hi as int, allow_call, w) by {
                        if x != b as int {
                            assert(before[x]);
                        }
                    }
                }
                if let Some(w) = why {
                    if bw is Some {
                        assert(seen@[b as int]);
                    } else {
                        let x = choose|x: int|
                            0 <= x < n && #[trigger] before[x] && self.block_reject(x, lo as int, hi as int, allow_call, w);
                        assert(seen@[x]);
                    }
                }
            }
            let ghost mid = stack@;
            assert(mid == popped);
            match &self.bodies.func_blocks[b as usize].term {
                Terminator::Goto { target } => {
                    stack.push(*target);
                },
                Terminator::Branch { then_bb, else_bb, .. } => {
                    stack.push(*then_bb);
                    stack.push(*else_bb);
                },
                Terminator::Call { ret_bb, .. } => {
                    stack.push(*ret_bb);
                },
                Terminator::Delay { resume, .. } => {
                    stack.push(*resume);
                },
                Terminator::Wait { resume, .. } => {
                    stack.push(*resume);
                },
                Terminator::Fork { .. } | Terminator::Return => {},
            }
            proof {
                let succ = term_succs(self.bodies.func_blocks@[b as int].term);
                assert(stack@ == mid + succ);
                assert(seen@ == before.update(b as int, true));
                assert(bw == self.block_reason(b as int, lo as int, hi as int, allow_call));
                assert(self.walk(lo as int, hi as int, allow_call, pre, before, why0) == self.walk(
                    lo as int,
                    hi as int,
                    allow_call,
                    popped + succ,
                    before.update(b as int, true),
                    why,
                ));
                assert forall|s: int|
                    0 <= s < stack@.len() && (#[trigger] stack@[s]) < n implies self.body_block(
                        entry,
                        stack@[s] as int,
                    ) by {
                    if s >= mid.len() {
                        let y = stack@[s] as int;
                        assert(succ[s - mid.len()] == stack@[s]);
                        assert(self.cfg_edge(b as int, y));
                        assert(e(b as int, y));
                        if b as int == entry as int {
                            assert(reach_by(e, entry as int, y, 1));
                        } else {
                            let k = choose|k: nat| #[trigger] reach_by(e, entry as int, b as int, k);
                            lemma_extend_by(e, entry as int, b as int, y, k);
                        }
                    } else {
                        assert(popped[s] == stack@[s]);
                    }
                }
                assert forall|x: int, y: int|
                    0 <= x < n && seen@[x] && #[trigger] self.cfg_edge(x, y) implies seen@[y]
                        || stack@.contains(y as u32) by {
                    if x == b as int {
                        let t = choose|t: int| 0 <= t < succ.len() && succ[t] == y as u32;
                        assert(stack@[mid.len() + t] == y as u32);
                    } else if !seen@[y] {
                        assert(before[x]);
                        let s = choose|s: int| 0 <= s < pre.len() && pre[s] == y as u32;
                        if s < popped.len() {
                            assert(mid[s] == y as u32);
                            assert(stack@[s] == y as u32);
                        } else {
                            assert(pre[s] == b);
                            assert(y == b as int);
                        }
                    }
                }
                if (entry as int) < n && !seen@[entry as int] {
                    let s = choose|s: int| 0 <= s < pre.len() && pre[s] == entry;
                    if s < popped.len() {
                        assert(mid[s] == entry);
                        assert(stack@[s] == entry);
                    }
                }
                lemma_count_le(seen@);
            }
        }
        proof {
            assert forall|x: int, y: int| 0 <= x < seen@.len() && seen@[x] && #[trigger] e(x, y) implies 0 <= y
                < seen@.len() && seen@[y] by {
                assert(self.cfg_edge(x, y));
            }
            assert forall|b: int| #[trigger] self.body_block(entry, b) implies seen@[b] by {
                if b != entry as int {
                    let k = choose|k: nat| #[trigger] reach_by(e, entry as int, b, k);
                    if (entry as int) >= n {
                        assert(e(entry as int, b) || exists|c: int| #[trigger] e(entry as int, c) && reach_by(
                            e,
                            c,
                            b,
                            (k - 1) as nat,
                        ));
                    } else {
                        lemma_closed_by(e, seen@, entry as int, b, k);
                    }
                }
            }
            if why is None {
                assert forall|w: FrameReject| !#[trigger] self.frame_body_reject(entry, net_base, locals_len, allow_call, w) by {
                    if self.body_reject(entry, lo as int, hi as int, allow_call, w) {
                        let b = choose|b: int|
                            #[trigger] self.body_block(entry, b) && self.block_reject(b, lo as int, hi as int, allow_call, w);
                        assert(seen@[b]);
                    }
                }
            }
            if let Some(w) = why {
                let x = choose|x: int|
                    0 <= x < n && #[trigger] seen@[x] && self.block_reject(x, lo as int, hi as int, allow_call, w);
                assert(self.body_block(entry, x));
                assert(self.frame_body_reject(entry, net_base, locals_len, allow_call, w));
            }
            assert forall|b: int|
                #[trigger] self.body_block(entry, b) && !term_ok(self.bodies.func_blocks@[b].term, allow_call)
                    implies why is Some by {
                assert(self.block_reject(b, lo as int, hi as int, allow_call, FrameReject::Timing));
                assert(self.frame_body_reject(entry, net_base, locals_len, allow_call, FrameReject::Timing));
            }
        }
        why
    }

    /// The diagnostic of a frame body outside the subset.
    pub open spec fn frame_reject_msg(name: Seq<char>, w: FrameReject) -> Seq<char> {
        "frame function/task `"@ + name + "` body uses "@ + reject_text(w)
            + ", which is outside the frame-call subset (only blocking assigns to its own locals, if/else/case/loops, and nested task calls are supported)"@
    }

    /// The diagnostic of a frame body outside the subset, for reason `w`.
    pub fn reject_message(name: &str, w: FrameReject) -> (msg: String)
        ensures
            msg@ == Self::frame_reject_msg(name@, w),
    {
        let mut msg = String::from_str("frame function/task `");
        msg.append(name);
        msg.append("` body uses ");
        msg.append(w.text());
        msg.append(
            ", which is outside the frame-call subset (only blocking assigns to its own locals, if/else/case/loops, and nested task calls are supported)",
        );
        msg
    }

    /// Refuse, with one error, a frame body outside the frame-call subset
    /// (see [`Self::classify_frame_body`]); a body inside it reports
    /// nothing.
    pub fn validate_frame_body(&mut self, name: &str, entry: u32, net_base: u32, locals_len: u32, allow_call: bool)
        requires
            old(self).bodies_wf(),
            net_base + locals_len <= u32::MAX,
        ensures
            (forall|w: FrameReject|
                !old(self).frame_body_reject(entry, net_base, locals_len, allow_call, w)) ==> *final(self)
                == *old(self),
            !(forall|w: FrameReject|
                !old(self).frame_body_reject(entry, net_base, locals_len, allow_call, w)) ==> {
                &&& final(self).had_error
                &&& final(self).diags@.len() == old(self).diags@.len() + 1
                &&& final(self).diags@.take(old(self).diags@.len() as int) == old(self).diags@
                &&& final(self).diags@.last().severity == Severity::Error
                &&& final(self).diags@.last().code == MsgCode::ElabUnsupported
                &&& exists|w: FrameReject|
                    old(self).frame_body_reject(entry, net_base, locals_len, allow_call, w)
                        && final(self).diags@.last().message@ == Self::frame_reject_msg(name@, w)
                &&& old(self).frame_walk(entry, net_base, locals_len, allow_call) matches Some(w)
                    && final(self).diags@.last().message@ == Self::frame_reject_msg(name@, w)
                &&& final(self).exprs == old(self).exprs
                &&& final(self).consts == old(self).consts
                &&& final(self).nets == old(self).nets
                &&& final(self).func_metas == old(self).func_metas
                &&& final(self).tables == old(self).tables
                &&& final(self).bodies == old(self).bodies
            },
    {
        if let Some(w) = self.classify_frame_body(entry, net_base, locals_len, allow_call) {
            let msg = Self::reject_message(name, w);
            let ghost d0 = self.diags@;
            self.error(MsgCode::ElabUnsupported, msg.as_str());
            proof {
                assert(self.diags@.take(d0.len() as int) =~= d0);
                assert(old(self).frame_body_reject(entry, net_base, locals_len, allow_call, w));
            }
        }
    }

    /// Is `net` a frame local: inside some framed subroutine's range of
    /// local nets?
    pub open spec fn frame_local(&self, net: u32) -> bool {
        exists|m: int|
            0 <= m < self.func_metas@.len() && (#[trigger] self.func_metas@[m]).base_net <= net && net
                < self.func_metas@[m].base_net + self.func_metas@[m].locals_len
    }

    pub fn net_is_frame_local(&self, net: u32) -> (r: bool)
        ensures
            r == self.frame_local(net),
    {
        let mut i: usize = 0;
        while i < self.func_metas.len()
            invariant
                i <= self.func_metas@.len(),
                forall|m: int|
                    0 <= m < i ==> !((#[trigger] self.func_metas@[m]).base_net <= net && net
                        < self.func_metas@[m].base_net + self.func_metas@[m].locals_len),
            decreases self.func_metas@.len() - i,
        {
            let m = self.func_metas[i];
            if m.base_net <= net && (net as u64) < m.base_net as u64 + m.locals_len as u64 {
                return true;
            }
            i += 1;
        }
        false
    }
}

// ── what the walk reads ─────────────────────────────────────────────────

/// `s2` holds what `s1` holds for a frame body entered at `entry`: the same
/// blocks wherever `s1`'s body reaches, and the same statements, nodes,
/// nets and side tables; blocks it does not reach may differ.
pub open spec fn same_body_view(s1: Elaborator, s2: Elaborator, entry: u32) -> bool {
    &&& s1.bodies.func_blocks@.len() == s2.bodies.func_blocks@.len()
    &&& forall|b: int| #[trigger] s1.body_block(entry, b) ==> s1.bodies.func_blocks@[b] == s2.bodies.func_blocks@[b]
    &&& s1.bodies.stmts@ == s2.bodies.stmts@
    &&& s1.exprs@ == s2.exprs@
    &&& s1.nets@ == s2.nets@
    &&& s1.bodies.class_handle_nets@ == s2.bodies.class_handle_nets@
    &&& s1.bodies.frame_array_local@ == s2.bodies.frame_array_local@
    &&& s1.bodies.dyn_formal_marker_stmts@ == s2.bodies.dyn_formal_marker_stmts@
    &&& s1.bodies.frame_print_stmts@ == s2.bodies.frame_print_stmts@
    &&& s1.bodies.severities@ == s2.bodies.severities@
}

proof fn lemma_chunks_reason_same(s1: Elaborator, s2: Elaborator, cs: Seq<LvChunk>, lo: int, hi: int)
    requires
        s1.nets@ == s2.nets@,
        s1.bodies.class_handle_nets@ == s2.bodies.class_handle_nets@,
        s1.bodies.frame_array_local@ == s2.bodies.frame_array_local@,
    ensures
        s1.chunks_reason(cs, lo, hi) == s2.chunks_reason(cs, lo, hi),
    decreases cs.len(),
{
    if cs.len() > 0 {
        lemma_chunks_reason_same(s1, s2, cs.drop_last(), lo, hi);
        assert(s1.chunk_reject(cs.last(), lo, hi) == s2.chunk_reject(cs.last(), lo, hi));
    }
}

proof fn lemma_stmts_reason_same(s1: Elaborator, s2: Elaborator, ss: Seq<u32>, lo: int, hi: int, entry: u32)
    requires
        same_body_view(s1, s2, entry),
    ensures
        s1.stmts_reason(ss, lo, hi) == s2.stmts_reason(ss, lo, hi),
    decreases ss.len(),
{
    if ss.len() > 0 {
        lemma_stmts_reason_same(s1, s2, ss.drop_last(), lo, hi, entry);
        let sid = ss.last();
        match s1.bodies.stmts@[sid as int] {
            ir::Stmt::BlockingAssign { lhs, .. } => {
                lemma_chunks_reason_same(s1, s2, lhs.chunks@, lo, hi);
            },
            ir::Stmt::SysTask { which, args } => {
                assert(s1.systask_allowed(sid, which, args@, lo, hi) == s2.systask_allowed(sid, which, args@, lo, hi));
            },
            _ => {},
        }
        assert(s1.stmt_reason(sid, lo, hi) == s2.stmt_reason(sid, lo, hi));
    }
}

proof fn lemma_walk_same(
    s1: Elaborator,
    s2: Elaborator,
    entry: u32,
    lo: int,
    hi: int,
    allow_call: bool,
    stack: Seq<u32>,
    seen: Seq<bool>,
    why: Option<FrameReject>,
)
    requires
        same_body_view(s1, s2, entry),
        seen.len() == s1.bodies.func_blocks@.len(),
        forall|t: int| 0 <= t < stack.len() && (#[trigger] stack[t] as int) < seen.len() ==> s1.body_block(entry, stack[t] as int),
    ensures
        s1.walk(lo, hi, allow_call, stack, seen, why) == s2.walk(lo, hi, allow_call, stack, seen, why),
    decreases seen.len() - count_true(seen), stack.len(),
{
    if stack.len() == 0 {
        return;
    }
    let b = stack.last() as int;
    let rest = stack.drop_last();
    assert forall|t: int| 0 <= t < rest.len() && (#[trigger] rest[t] as int) < seen.len() implies s1.body_block(entry, rest[t] as int) by {
        assert(rest[t] == stack[t]);
    }
    if b >= seen.len() || seen[b] {
        lemma_walk_same(s1, s2, entry, lo, hi, allow_call, rest, seen, why);
        return;
    }
    assert(stack[stack.len() - 1] as int == b);
    assert(s1.body_block(entry, b));
    let blk = s1.bodies.func_blocks@[b];
    assert(blk == s2.bodies.func_blocks@[b]);
    lemma_stmts_reason_same(s1, s2, blk.stmts@, lo, hi, entry);
    assert(s1.block_reason(b, lo, hi, allow_call) == s2.block_reason(b, lo, hi, allow_call));
    lemma_count_update(seen, b);
    lemma_count_le(seen.update(b, true));
    let succ = term_succs(blk.term);
    let next = rest + succ;
    let e = |x: int, y: int| s1.cfg_edge(x, y);
    assert forall|t: int| 0 <= t < next.len() && (#[trigger] next[t] as int) < seen.len() implies s1.body_block(entry, next[t] as int) by {
        if t < rest.len() {
            assert(next[t] == rest[t]);
        } else {
            let y = next[t] as int;
            assert(succ[t - rest.len()] == next[t]);
            assert(s1.cfg_edge(b, y));
            assert(e(b, y));
            if b == entry as int {
                assert(reach_by(e, entry as int, y, 1));
            } else {
                let k = choose|k: nat| #[trigger] reach_by(e, entry as int, b, k);
                lemma_extend_by(e, entry as int, b, y, k);
            }
        }
    }
    let why2 = match s1.block_reason(b, lo, hi, allow_call) {
        Some(w) => Some(w),
        None => why,
    };
    lemma_walk_same(s1, s2, entry, lo, hi, allow_call, next, seen.update(b, true), why2);
}

/// The reason a frame body is refused for depends only on the blocks its
/// entry reaches: two states that agree on those blocks (and on the
/// statements, nodes, nets and side tables) classify the body alike,
/// whatever the blocks of other bodies hold.
pub proof fn lemma_frame_walk_reads_reached_blocks_only(
    s1: Elaborator,
    s2: Elaborator,
    entry: u32,
    net_base: u32,
    locals_len: u32,
    allow_call: bool,
)
    requires
        same_body_view(s1, s2, entry),
    ensures
        s1.frame_walk(entry, net_base, locals_len, allow_call) == s2.frame_walk(entry, net_base, locals_len, allow_call),
{
    let n = s1.bodies.func_blocks@.len();
    let seen = Seq::new(n, |i: int| false);
    assert(seen =~= Seq::new(s2.bodies.func_blocks@.len(), |i: int| false));
    let stack = seq![entry];
    assert forall|t: int| 0 <= t < stack.len() && (#[trigger] stack[t] as int) < seen.len() implies s1.body_block(entry, stack[t] as int) by {
        assert(stack[t] == entry);
    }
    lemma_walk_same(
        s1,
        s2,
        entry,
        net_base as int,
        net_base + locals_len,
        allow_call,
        stack,
        seen,
        None,
    );
}

} // verus!
