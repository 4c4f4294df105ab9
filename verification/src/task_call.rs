//! The binding of a call of a task that runs in its own frame: each input
//! actual is lowered into the formal's slot before the call (in the
//! formal's width context), and each output actual is the target its slot
//! is copied back to after it.

use vstd::prelude::*;
use crate::args::{fill_defaults, fill_tail, refs_are};
use crate::ast::{Expr, FunctionDef, PortDir, TaskDef, TfPort};
use crate::ir::NetKind;
use crate::scope::dims_dyn_kind;
use crate::elab::{Elaborator, IdentRoute};
use crate::ir;
use crate::ir::LvChunk;
use crate::lower::{lemma_lowered_or_plain_kept, lemma_step_refl, lemma_step_trans, lower_budget};
use crate::names::{assoc_first, lookup_first};

verus! {

/// What a frame task call binds: the callee, the slots loaded before the
/// call with the lowered actual each takes, and the slots copied back
/// after it with the target each is copied to, both in slot order.
pub struct TaskCallPlan {
    pub callee: u32,
    pub in_binds: Vec<(u32, u32)>,
    pub out_binds: Vec<(u32, ir::Lvalue)>,
}

/// A dynamic-array formal (its first dynamic dimension is `[]`).
pub open spec fn is_dyn_array_formal(p: TfPort) -> bool {
    dims_dyn_kind(p.unpacked@) == Some(NetKind::DynArray)
}

/// A formal whose slot is loaded before the call. Of a task: an input or
/// inout of no unpacked dimension. Of a function: any input, and an inout
/// that is no dynamic array.
pub open spec fn binds_in(p: TfPort, func: bool) -> bool {
    if func {
        p.dir == PortDir::Input || (p.dir == PortDir::Inout && !is_dyn_array_formal(p))
    } else {
        (p.dir == PortDir::Input || p.dir == PortDir::Inout) && p.unpacked@.len() == 0
    }
}

/// A formal whose slot is copied back after the call (when its actual is a
/// bare net). Of a task: an output or inout of no unpacked dimension. Of a
/// function: an output or inout that is no dynamic array.
pub open spec fn binds_out(p: TfPort, func: bool) -> bool {
    (p.dir == PortDir::Output || p.dir == PortDir::Inout) && if func {
        !is_dyn_array_formal(p)
    } else {
        p.unpacked@.len() == 0
    }
}

/// The slots among the first `k` formals that are loaded before the call,
/// in order.
pub open spec fn in_slots(ports: Seq<TfPort>, k: int, func: bool) -> Seq<u32>
    decreases k,
{
    if k <= 0 {
        Seq::empty()
    } else if binds_in(ports[k - 1], func) {
        in_slots(ports, k - 1, func).push((k - 1) as u32)
    } else {
        in_slots(ports, k - 1, func)
    }
}

/// The net a bare name reads, where the name is a plain scope net.
pub open spec fn bare_net(routes: Seq<(String, IdentRoute)>, scope: Seq<(String, u32)>, a: Expr) -> Option<
    u32,
> {
    match a {
        Expr::Ident(p) => if p.segments@.len() == 1 && assoc_first(routes, p.segments@[0]@) is None {
            assoc_first(scope, p.segments@[0]@)
        } else {
            None
        },
        _ => None,
    }
}

/// The slots among the first `k` formals that are copied back after the
/// call (see [`binds_out`]) whose actual is a bare net, with that net, in
/// order.
pub open spec fn out_targets(
    routes: Seq<(String, IdentRoute)>,
    scope: Seq<(String, u32)>,
    ports: Seq<TfPort>,
    out: Seq<Expr>,
    k: int,
    func: bool,
) -> Seq<(u32, u32)>
    decreases k,
{
    if k <= 0 {
        Seq::empty()
    } else {
        let prev = out_targets(routes, scope, ports, out, k - 1, func);
        if binds_out(ports[k - 1], func) {
            match bare_net(routes, scope, out[k - 1]) {
                Some(n) => prev.push(((k - 1) as u32, n)),
                None => prev,
            }
        } else {
            prev
        }
    }
}

/// The lowering budget of the actual a call gives formal `i`: its actual,
/// else its default.
pub open spec fn actual_budget(ports: Seq<TfPort>, args: Seq<Expr>, i: int) -> nat {
    if i < args.len() {
        lower_budget(args[i])
    } else {
        match ports[i].default {
            Some(d) => lower_budget(d),
            None => 0,
        }
    }
}

/// The lowering budget of the actuals of the first `k` formals.
pub open spec fn call_budget(ports: Seq<TfPort>, args: Seq<Expr>, k: int) -> nat
    decreases k,
{
    if k <= 0 {
        0
    } else {
        call_budget(ports, args, k - 1) + actual_budget(ports, args, k - 1)
    }
}

proof fn lemma_call_budget_mono(ports: Seq<TfPort>, args: Seq<Expr>, i: int, j: int)
    requires
        0 <= i <= j,
    ensures
        call_budget(ports, args, i) <= call_budget(ports, args, j),
    decreases j - i,
{
    if i < j {
        lemma_call_budget_mono(ports, args, i, j - 1);
    }
}

proof fn lemma_fill_tail_shape(ports: Seq<TfPort>, args: Seq<Expr>, scope_ok: Seq<bool>, f: Seq<char>, k: int)
    requires
        args.len() <= k <= ports.len(),
        fill_tail(ports, args, scope_ok, f, k) is Ok,
    ensures
        fill_tail(ports, args, scope_ok, f, k) matches Ok(out) && out.len() == k && (forall|i: int|
            0 <= i < args.len() ==> #[trigger] out[i] == args[i]) && (forall|i: int|
            args.len() <= i < k ==> ports[i].default == Some(#[trigger] out[i])),
    decreases k,
{
    if k > args.len() {
        lemma_fill_tail_shape(ports, args, scope_ok, f, k - 1);
    }
}

/// The lowering gives each actual the width of its formal's frame slot.
impl Elaborator {
    /// The width of slot `slot` of the frame of subroutine `fid`: its net's
    /// declared width, 32 when the net is unknown.
    pub open spec fn formal_width(&self, fid: u32, slot: int) -> u32 {
        let base: int = if (fid as int) < self.func_metas@.len() {
            self.func_metas@[fid as int].base_net as int
        } else {
            0
        };
        if base + slot < self.nets@.len() {
            self.nets@[base + slot].width
        } else {
            32
        }
    }

    fn formal_width_exec(&self, fid: u32, slot: usize) -> (w: u32)
        ensures
            w == self.formal_width(fid, slot as int),
    {
        let base: u128 = if (fid as usize) < self.func_metas.len() {
            self.func_metas[fid as usize].base_net as u128
        } else {
            0
        };
        let n: u128 = base + slot as u128;
        if n < self.nets.len() as u128 {
            self.nets[n as usize].width
        } else {
            32
        }
    }

    fn bare_net_exec(&self, a: &Expr) -> (r: Option<u32>)
        ensures
            r == bare_net(self.tables.ident_routes@, self.tables.scope_nets@, *a),
    {
        match a {
            Expr::Ident(p) => {
                if p.segments.len() == 1 && lookup_first(&self.tables.ident_routes, &p.segments[0]).is_none() {
                    lookup_first(&self.tables.scope_nets, &p.segments[0])
                } else {
                    None
                }
            },
            _ => None,
        }
    }

    /// `ins` and `outs` bind the call of a frame subroutine `fid` with the
    /// formals `ports` to the effective actuals `out` (see
    /// [`Self::emit_frame_task_call`]).
    pub open spec fn binds_as(
        &self,
        old: &Elaborator,
        fid: u32,
        ports: Seq<TfPort>,
        out: Seq<Expr>,
        func: bool,
        ins: Seq<(u32, u32)>,
        outs: Seq<(u32, ir::Lvalue)>,
    ) -> bool {
        let slots = in_slots(ports, ports.len() as int, func);
        let targets = out_targets(
            old.tables.ident_routes@,
            old.tables.scope_nets@,
            ports,
            out,
            ports.len() as int,
            func,
        );
        &&& ins.len() == slots.len()
        &&& forall|k: int|
            0 <= k < slots.len() ==> {
                &&& (#[trigger] ins[k]).0 == slots[k]
                &&& self.lowered_or_plain(
                    out[slots[k] as int],
                    self.formal_width(fid, slots[k] as int),
                    ins[k].1 as int,
                )
            }
        &&& outs.len() == targets.len()
        &&& forall|k: int|
            0 <= k < targets.len() ==> {
                &&& (#[trigger] outs[k]).0 == targets[k].0
                &&& outs[k].1.chunks@ == seq![
                    LvChunk { net: targets[k].1, word: None, offset: None, width: None },
                ]
            }
    }

    /// The frame slot a function's return value is copied out of.
    pub open spec fn return_slot_of(&self, fid: u32, nports: int) -> u32 {
        if (fid as int) < self.func_metas@.len() {
            self.func_metas@[fid as int].return_slot
        } else {
            nports as u32
        }
    }

    /// The binding shared by task and function calls (`func` picks the
    /// rules of [`binds_in`] and [`binds_out`]).
    fn bind_frame_call(
        &mut self,
        fid: u32,
        name: &String,
        ports: &Vec<TfPort>,
        args: &Vec<Expr>,
        scope_ok: &Vec<bool>,
        func: bool,
    ) -> (r: Option<(Vec<(u32, u32)>, Vec<(u32, ir::Lvalue)>)>)
        requires
            old(self).wf(),
            old(self).consts_closed(),
            scope_ok@.len() == ports@.len(),
            ports@.len() <= u32::MAX,
            old(self).exprs@.len() + call_budget(ports@, args@, ports@.len() as int) < u32::MAX,
            old(self).consts@.len() + call_budget(ports@, args@, ports@.len() as int) < u32::MAX,
        ensures
            match fill_defaults(ports@, args@, scope_ok@, name@) {
                Err(m) => r is None && final(self).reported(old(self), m),
                Ok(out) => r matches Some((ins, outs)) && final(self).lowering_step(old(self))
                    && final(self).binds_as(old(self), fid, ports@, out, func, ins@, outs@),
            },
    {
        let eff = match self.fill_default_args(name.as_str(), ports, args, scope_ok) {
            Some(v) => v,
            None => return None,
        };
        let ghost out: Seq<Expr> = fill_defaults(ports@, args@, scope_ok@, name@)->Ok_0;
        proof {
            lemma_fill_tail_shape(ports@, args@, scope_ok@, name@, ports@.len() as int);
            lemma_step_refl(self);
        }
        let ghost s0: Elaborator = *self;
        let mut in_binds: Vec<(u32, u32)> = Vec::new();
        let mut out_binds: Vec<(u32, ir::Lvalue)> = Vec::new();
        let mut i: usize = 0;
        while i < ports.len()
            invariant
                i <= ports@.len(),
                ports@.len() <= u32::MAX,
                eff@.len() == ports@.len(),
                refs_are(eff@, out),
                out.len() == ports@.len(),
                forall|j: int| 0 <= j < args@.len() ==> #[trigger] out[j] == args@[j],
                forall|j: int| args@.len() <= j < ports@.len() ==> ports@[j].default == Some(#[trigger] out[j]),
                s0.wf(),
                s0.consts_closed(),
                self.lowering_step(&s0),
                s0.exprs@.len() + call_budget(ports@, args@, ports@.len() as int) < u32::MAX,
                s0.consts@.len() + call_budget(ports@, args@, ports@.len() as int) < u32::MAX,
                self.exprs@.len() <= s0.exprs@.len() + call_budget(ports@, args@, i as int),
                self.consts@.len() <= s0.consts@.len() + call_budget(ports@, args@, i as int),
                in_binds@.len() == in_slots(ports@, i as int, func).len(),
                forall|k: int|
                    0 <= k < in_binds@.len() ==> {
                        &&& (#[trigger] in_binds@[k]).0 == in_slots(ports@, i as int, func)[k]
                        &&& self.lowered_or_plain(
                            out[in_binds@[k].0 as int],
                            self.formal_width(fid, in_binds@[k].0 as int),
                            in_binds@[k].1 as int,
                        )
                    },
                out_binds@.len() == out_targets(
                    s0.tables.ident_routes@,
                    s0.tables.scope_nets@,
                    ports@,
                    out,
                    i as int,
                    func,
                ).len(),
                forall|k: int|
                    0 <= k < out_binds@.len() ==> {
                        let t = out_targets(
                            s0.tables.ident_routes@,
                            s0.tables.scope_nets@,
                            ports@,
                            out,
                            i as int,
                            func,
                        );
                        &&& (#[trigger] out_binds@[k]).0 == t[k].0
                        &&& out_binds@[k].1.chunks@ == seq![
                            LvChunk { net: t[k].1, word: None, offset: None, width: None },
                        ]
                    },
            decreases ports@.len() - i,
        {
            let ghost sa: Elaborator = *self;
            let ghost ins_before = in_binds@;
            let p = &ports[i];
            let a: &Expr = eff[i];
            assert(*a == out[i as int]);
            proof {
                lemma_call_budget_mono(ports@, args@, i as int + 1, ports@.len() as int);
                assert(lower_budget(out[i as int]) == actual_budget(ports@, args@, i as int));
            }
            let ghost mut sb: Elaborator = *self;
            proof {
                lemma_step_refl(&sa);
            }
            let dyn_arr = match self.dyn_dim_kind(&p.unpacked) {
                Some(k) => k == NetKind::DynArray,
                None => false,
            };
            let is_in = if func {
                p.dir == PortDir::Input || (p.dir == PortDir::Inout && !dyn_arr)
            } else {
                (p.dir == PortDir::Input || p.dir == PortDir::Inout) && p.unpacked.len() == 0
            };
            let is_out = (p.dir == PortDir::Output || p.dir == PortDir::Inout) && if func {
                !dyn_arr
            } else {
                p.unpacked.len() == 0
            };
            if is_in {
                let fw = self.formal_width_exec(fid, i);
                let eid = self.lower_ctx_or_plain(a, fw);
                in_binds.push((i as u32, eid));
            }
            proof {
                sb = *self;
            }
            if is_out {
                match self.bare_net_exec(a) {
                    Some(net) => {
                        let lv = ir::Lvalue { chunks: vec![LvChunk { net, word: None, offset: None, width: None }] };
                        out_binds.push((i as u32, lv));
                        proof {
                            lemma_step_refl(&sb);
                        }
                    },
                    None => {
                        self.report_unsupported("frame call: an output/inout actual must be a simple net");
                    },
                }
            } else {
                proof {
                    lemma_step_refl(&sb);
                }
            }
            proof {
                assert(self.lowering_step(&sb));
            }
            let ghost sc: Elaborator = *self;
            if !is_in && !is_out {
                if p.dir == PortDir::Ref {
                    self.report_unsupported("frame call: a ref formal is not bound here");
                } else {
                    self.report_unsupported("frame call: an array formal of this kind is not bound here");
                }
            } else {
                proof {
                    lemma_step_refl(&sc);
                }
            }
            proof {
                lemma_step_trans(&sa, &sb, &sc);
                lemma_step_trans(&sa, &sc, self);
                lemma_step_trans(&s0, &sa, self);
                assert forall|k: int| 0 <= k < ins_before.len() implies self.lowered_or_plain(
                    out[ins_before[k].0 as int],
                    self.formal_width(fid, ins_before[k].0 as int),
                    ins_before[k].1 as int,
                ) by {
                    lemma_lowered_or_plain_kept(
                        &sa,
                        self,
                        out[ins_before[k].0 as int],
                        sa.formal_width(fid, ins_before[k].0 as int),
                        ins_before[k].1 as int,
                    );
                }
                assert(in_binds@.take(ins_before.len() as int) =~= ins_before);
                if in_binds@.len() > ins_before.len() {
                    assert(in_binds@.last().0 as int == i as int);
                    lemma_step_trans(&sb, &sc, self);
                    lemma_lowered_or_plain_kept(
                        &sb,
                        self,
                        out[i as int],
                        sb.formal_width(fid, i as int),
                        in_binds@.last().1 as int,
                    );
                }
            }
            i += 1;
            proof {
                assert forall|k: int| 0 <= k < in_binds@.len() implies (#[trigger] in_binds@[k]).0 == in_slots(
                    ports@,
                    i as int,
                    func,
                )[k] && self.lowered_or_plain(
                    out[in_binds@[k].0 as int],
                    self.formal_width(fid, in_binds@[k].0 as int),
                    in_binds@[k].1 as int,
                ) by {
                    if k < ins_before.len() {
                        assert(in_binds@[k] == ins_before[k]);
                    }
                }
            }
        }
        Some((in_binds, out_binds))
    }

    /// Bind a call of the frame task `task` (frame `fid`) to `args`: the
    /// effective actuals are the actuals and the defaults of the omitted
    /// trailing formals (`None`, with the one error of [`fill_defaults`],
    /// when they cannot be had). Then, in slot order, each input and inout
    /// actual is lowered in the width context of its frame slot and loaded
    /// into it before the call, and each output and inout actual that is a
    /// bare net is the whole-net target its slot is copied back to after
    /// the call. A formal with unpacked dimensions, a `ref` formal, and an
    /// output actual that is not a bare net are each refused with one error
    /// and bind nothing.
    pub fn emit_frame_task_call(
        &mut self,
        fid: u32,
        task: &TaskDef,
        args: &Vec<Expr>,
        scope_ok: &Vec<bool>,
    ) -> (r: Option<TaskCallPlan>)
        requires
            old(self).wf(),
            old(self).consts_closed(),
            scope_ok@.len() == task.ports@.len(),
            task.ports@.len() <= u32::MAX,
            old(self).exprs@.len() + call_budget(task.ports@, args@, task.ports@.len() as int) < u32::MAX,
            old(self).consts@.len() + call_budget(task.ports@, args@, task.ports@.len() as int) < u32::MAX,
        ensures
            match fill_defaults(task.ports@, args@, scope_ok@, task.name@) {
                Err(m) => r is None && final(self).reported(old(self), m),
                Ok(out) => r matches Some(plan) && final(self).lowering_step(old(self)) && plan.callee == fid
                    && final(self).binds_as(old(self), fid, task.ports@, out, false, plan.in_binds@, plan.out_binds@),
            },
    {
        match self.bind_frame_call(fid, &task.name, &task.ports, args, scope_ok, false) {
            Some((in_binds, out_binds)) => Some(TaskCallPlan { callee: fid, in_binds, out_binds }),
            None => None,
        }
    }

    /// Bind a call of the frame function `func` (frame `fid`) that has
    /// output or inout formals, as [`Self::emit_frame_task_call`] binds a
    /// task call (by the function rules of [`binds_in`] and [`binds_out`]:
    /// an input of any shape is loaded, a dynamic-array output or inout is
    /// refused), and then copy the function's return slot to `ret_lval`,
    /// last.
    pub fn emit_frame_func_out_call(
        &mut self,
        fid: u32,
        func: &FunctionDef,
        args: &Vec<Expr>,
        scope_ok: &Vec<bool>,
        ret_lval: ir::Lvalue,
    ) -> (r: Option<TaskCallPlan>)
        requires
            old(self).wf(),
            old(self).consts_closed(),
            scope_ok@.len() == func.ports@.len(),
            func.ports@.len() <= u32::MAX,
            old(self).exprs@.len() + call_budget(func.ports@, args@, func.ports@.len() as int) < u32::MAX,
            old(self).consts@.len() + call_budget(func.ports@, args@, func.ports@.len() as int) < u32::MAX,
        ensures
            match fill_defaults(func.ports@, args@, scope_ok@, func.name@) {
                Err(m) => r is None && final(self).reported(old(self), m),
                Ok(out) => r matches Some(plan) && final(self).lowering_step(old(self)) && plan.callee == fid
                    && plan.out_binds@.len() >= 1 && final(self).binds_as(
                    old(self),
                    fid,
                    func.ports@,
                    out,
                    true,
                    plan.in_binds@,
                    plan.out_binds@.drop_last(),
                ) && plan.out_binds@.last().0 == old(self).return_slot_of(fid, func.ports@.len() as int)
                    && plan.out_binds@.last().1 == ret_lval,
            },
    {
        let return_slot: u32 = if (fid as usize) < self.func_metas.len() {
            self.func_metas[fid as usize].return_slot
        } else {
            func.ports.len() as u32
        };
        match self.bind_frame_call(fid, &func.name, &func.ports, args, scope_ok, true) {
            Some((in_binds, out_binds)) => {
                let ghost before = out_binds@;
                let mut out_binds = out_binds;
                out_binds.push((return_slot, ret_lval));
                assert(out_binds@.drop_last() =~= before);
                Some(TaskCallPlan { callee: fid, in_binds, out_binds })
            },
            None => None,
        }
    }
}

/// The slots a frame call loads come in strictly increasing slot order, and
/// a formal is loaded exactly when it takes a value in: each such formal
/// once, every other formal never.
pub proof fn lemma_in_slots_exact(ports: Seq<TfPort>, k: int, func: bool)
    requires
        0 <= k <= ports.len(),
        ports.len() <= u32::MAX,
    ensures
        forall|a: int, b: int|
            0 <= a < b < in_slots(ports, k, func).len() ==> #[trigger] in_slots(ports, k, func)[a]
                < #[trigger] in_slots(ports, k, func)[b],
        forall|a: int| 0 <= a < in_slots(ports, k, func).len() ==> (#[trigger] in_slots(ports, k, func)[a] as int) < k,
        forall|j: int| 0 <= j < k ==> (binds_in(ports[j], func) <==> #[trigger] in_slots(ports, k, func).contains(j as u32)),
    decreases k,
{
    if k > 0 {
        lemma_in_slots_exact(ports, k - 1, func);
        let prev = in_slots(ports, k - 1, func);
        assert forall|j: int| 0 <= j < k implies (binds_in(ports[j], func) <==> #[trigger] in_slots(
            ports,
            k,
            func,
        ).contains(j as u32)) by {
            if j < k - 1 {
                if binds_in(ports[k - 1], func) {
                    if in_slots(ports, k, func).contains(j as u32) {
                        let a = choose|a: int| 0 <= a < in_slots(ports, k, func).len() && in_slots(ports, k, func)[a] == j as u32;
                        if a < prev.len() {
                            assert(prev[a] == j as u32);
                        }
                    }
                    if prev.contains(j as u32) {
                        let a = choose|a: int| 0 <= a < prev.len() && prev[a] == j as u32;
                        assert(in_slots(ports, k, func)[a] == j as u32);
                    }
                }
            } else {
                if !binds_in(ports[k - 1], func) {
                    if prev.contains(j as u32) {
                        let a = choose|a: int| 0 <= a < prev.len() && prev[a] == j as u32;
                        assert((prev[a] as int) < k - 1);
                    }
                } else {
                    assert(in_slots(ports, k, func)[prev.len() as int] == j as u32);
                }
            }
        }
    }
}

/// The copy-back targets of a frame call come in strictly increasing slot
/// order, each of a formal that copies back.
pub proof fn lemma_out_targets_ordered(
    routes: Seq<(String, IdentRoute)>,
    scope: Seq<(String, u32)>,
    ports: Seq<TfPort>,
    out: Seq<Expr>,
    k: int,
    func: bool,
)
    requires
        0 <= k <= ports.len(),
        ports.len() <= u32::MAX,
    ensures
        forall|a: int, b: int|
            0 <= a < b < out_targets(routes, scope, ports, out, k, func).len() ==> (#[trigger] out_targets(
                routes,
                scope,
                ports,
                out,
                k,
                func,
            )[a]).0 < (#[trigger] out_targets(routes, scope, ports, out, k, func)[b]).0,
        forall|a: int|
            0 <= a < out_targets(routes, scope, ports, out, k, func).len() ==> {
                let t = #[trigger] out_targets(routes, scope, ports, out, k, func)[a];
                &&& (t.0 as int) < k
                &&& binds_out(ports[t.0 as int], func)
                &&& bare_net(routes, scope, out[t.0 as int]) == Some(t.1)
            },
    decreases k,
{
    if k > 0 {
        lemma_out_targets_ordered(routes, scope, ports, out, k - 1, func);
    }
}

} // verus!
