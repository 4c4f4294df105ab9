//! The blocking assignments whose right-hand side is a whole
//! dynamic-storage value: a handle copy `dst = src`, a queue slice
//! `dst = q[a:b]`, an allocation `d = new[n]`, and a pop into a target
//! `x = q.pop_front()`. Every other assignment takes the plain path.

use vstd::prelude::*;
use crate::ast::{Expr, Lvalue};
use crate::elab::{Elaborator, MsgCode};
use crate::ir;
use crate::ir::{LvChunk, NetKind, SysFuncId};
use crate::lower::{lemma_lowered_kept, lemma_node_kept, lemma_step_refl, lemma_step_trans, lower_budget};
use crate::names::{assoc_first, contains_u32, lookup_first};
use crate::scope::is_handle_kind;

verus! {

/// What a special assignment lowers to.
#[derive(Debug)]
pub enum DynAssign {
    /// a deep copy of the handle `src` into the handle `dst`
    HandleCopy { dst: u32, src: u32 },
    /// a queue slice: the destination and source handle reads, then the
    /// two lowered bounds
    QueueSlice { args: Vec<u32> },
    /// an allocation: the handle read, then the lowered size
    Alloc { args: Vec<u32> },
    /// the popped value written to the target
    Pop { stmt: ir::Stmt },
    /// handled with no statement: a self-copy, or refused with one error
    Done,
}

/// The lowering budget of the operands a special assignment lowers.
pub open spec fn special_budget(rhs: Expr) -> nat {
    match rhs {
        Expr::PartSelect { msb, lsb, .. } => lower_budget(*msb) + lower_budget(*lsb),
        Expr::New { size } => lower_budget(*size),
        _ => 0,
    }
}

/// Is `m` a pop method?
pub open spec fn is_pop(m: Seq<char>) -> bool {
    m == "pop_back"@ || m == "pop_front"@
}

impl Elaborator {
    /// The dynamic-storage net a bare name reads, with its kind.
    pub open spec fn dyn_handle_of(&self, name: Seq<char>) -> Option<(u32, NetKind)> {
        match assoc_first(self.tables.scope_nets@, name) {
            Some(n) => if (n as int) < self.nets@.len() && is_handle_kind(self.nets@[n as int].kind) {
                Some((n, self.nets@[n as int].kind))
            } else {
                None
            },
            None => None,
        }
    }

    /// The handle a bare target names.
    pub open spec fn lhs_handle(&self, lhs: Lvalue) -> Option<(u32, NetKind)> {
        match lhs {
            Lvalue::Ident(p) => if p.segments@.len() == 1 {
                self.dyn_handle_of(p.segments@[0]@)
            } else {
                None
            },
            _ => None,
        }
    }

    /// The handle a bare source expression names.
    pub open spec fn expr_handle(&self, e: Expr) -> Option<(u32, NetKind)> {
        match e {
            Expr::Ident(p) => if p.segments@.len() == 1 {
                self.dyn_handle_of(p.segments@[0]@)
            } else {
                None
            },
            _ => None,
        }
    }

    /// The element type of a handle net: width, sign, two-state.
    pub open spec fn elem_type(&self, net: u32) -> (u32, bool, bool) {
        (
            self.nets@[net as int].width,
            self.nets@[net as int].signed,
            self.tables.two_state_heap_handles@.contains(net),
        )
    }

    /// The net a bare target names, whatever its kind.
    pub open spec fn lhs_net(&self, lhs: Lvalue) -> Option<u32> {
        match lhs {
            Lvalue::Ident(p) => if p.segments@.len() == 1 {
                assoc_first(self.tables.scope_nets@, p.segments@[0]@)
            } else {
                None
            },
            _ => None,
        }
    }

    /// `self` is `old` with one error more, whose message is `m`, and
    /// nothing else changed.
    pub open spec fn refused_with(&self, old: &Elaborator, m: Seq<char>) -> bool {
        &&& self.lowering_step(old)
        &&& self.exprs == old.exprs
        &&& self.diags@.len() == old.diags@.len() + 1
        &&& self.diags@.last().message@ == m
    }

    fn dyn_handle_exec(&self, name: &String) -> (r: Option<(u32, NetKind)>)
        ensures
            r == self.dyn_handle_of(name@),
    {
        match lookup_first(&self.tables.scope_nets, name) {
            Some(n) => {
                if (n as usize) < self.nets.len() {
                    let k = self.nets[n as usize].kind;
                    if k == NetKind::DynArray || k == NetKind::Queue || k == NetKind::Assoc || k
                        == NetKind::AssocStr {
                        return Some((n, k));
                    }
                }
                None
            },
            None => None,
        }
    }

    fn lhs_handle_exec(&self, lhs: &Lvalue) -> (r: Option<(u32, NetKind)>)
        ensures
            r == self.lhs_handle(*lhs),
    {
        match lhs {
            Lvalue::Ident(p) => {
                if p.segments.len() == 1 {
                    self.dyn_handle_exec(&p.segments[0])
                } else {
                    None
                }
            },
            _ => None,
        }
    }

    fn expr_handle_exec(&self, e: &Expr) -> (r: Option<(u32, NetKind)>)
        ensures
            r == self.expr_handle(*e),
    {
        match e {
            Expr::Ident(p) => {
                if p.segments.len() == 1 {
                    self.dyn_handle_exec(&p.segments[0])
                } else {
                    None
                }
            },
            _ => None,
        }
    }

    fn elem_type_exec(&self, net: u32) -> (r: (u32, bool, bool))
        requires
            (net as int) < self.nets@.len(),
        ensures
            r == self.elem_type(net),
    {
        (self.nets[net as usize].width, self.nets[net as usize].signed, contains_u32(&self.tables.two_state_heap_handles, net))
    }

    fn same_elem_type(&self, a: u32, b: u32) -> (r: bool)
        requires
            (a as int) < self.nets@.len(),
            (b as int) < self.nets@.len(),
        ensures
            r == (self.elem_type(a) == self.elem_type(b)),
    {
        let x = self.elem_type_exec(a);
        let y = self.elem_type_exec(b);
        x.0 == y.0 && x.1 == y.1 && x.2 == y.2
    }

    fn refuse_assign(&mut self, msg: &str) -> (r: Option<DynAssign>)
        requires
            old(self).wf(),
            old(self).consts_closed(),
        ensures
            final(self).refused_with(old(self), msg@),
            r matches Some(DynAssign::Done),
    {
        self.report_unsupported(msg);
        Some(DynAssign::Done)
    }

    /// Lower `lhs = rhs` (delayed when `delay`) when `rhs` is a whole
    /// dynamic-storage value; `None`, with nothing changed, for any other
    /// assignment (it takes the plain path).
    ///
    /// - `dst = src`, both bare dynamic-storage names: refused when delayed,
    ///   when the kinds differ, or when the element types (width, sign,
    ///   two-state) differ; a self-copy is nothing; else a deep copy.
    /// - `dst = src[a:b]`, both queues: refused when delayed or when the
    ///   element types differ; else the slice over the two handle reads and
    ///   the lowered bounds.
    /// - `d = new[n]` (no net of the scope is named `new`): refused unless
    ///   `d` is a dynamic array, and when delayed; else the allocation over
    ///   the handle read and the lowered size.
    /// - `x = q.pop_back()` / `pop_front()` of a queue: refused when
    ///   delayed, when given arguments, or when `x` is not a bare net; else
    ///   the popped value is written to `x`.
    pub fn dyn_blocking_special(&mut self, lhs: &Lvalue, delay: bool, rhs: &Expr) -> (r: Option<DynAssign>)
        requires
            old(self).wf(),
            old(self).consts_closed(),
            old(self).exprs@.len() + 4 + special_budget(*rhs) < u32::MAX,
            old(self).consts@.len() + special_budget(*rhs) < u32::MAX,
        ensures
            match *rhs {
                Expr::Ident(_) => match (old(self).expr_handle(*rhs), old(self).lhs_handle(*lhs)) {
                    (Some((sn, sk)), Some((dn, dk))) => if delay {
                        r matches Some(DynAssign::Done) && final(self).refused_with(
                            old(self),
                            "a delayed whole-handle copy is outside the MVP"@,
                        )
                    } else if dk != sk {
                        r matches Some(DynAssign::Done) && final(self).refused_with(
                            old(self),
                            "whole-handle copy needs the SAME dynamic-storage kind on both sides (queue=queue, dynamic=dynamic, assoc=assoc)"@,
                        )
                    } else if old(self).elem_type(dn) != old(self).elem_type(sn) {
                        r matches Some(DynAssign::Done) && final(self).refused_with(
                            old(self),
                            "whole-handle copy needs matching element types on both sides (width/sign/state)"@,
                        )
                    } else if dn == sn {
                        r matches Some(DynAssign::Done) && *final(self) == *old(self)
                    } else {
                        r matches Some(DynAssign::HandleCopy { dst, src }) && dst == dn && src == sn && *final(self)
                            == *old(self)
                    },
                    _ => r is None && *final(self) == *old(self),
                },
                Expr::PartSelect { base, msb, lsb } => match (old(self).expr_handle(*base), old(self).lhs_handle(*lhs)) {
                    (Some((sn, NetKind::Queue)), Some((dn, NetKind::Queue))) => if delay {
                        r matches Some(DynAssign::Done) && final(self).refused_with(
                            old(self),
                            "a delayed queue-slice assignment is outside the MVP"@,
                        )
                    } else if old(self).elem_type(dn) != old(self).elem_type(sn) {
                        r matches Some(DynAssign::Done) && final(self).refused_with(
                            old(self),
                            "queue slice needs matching element types on both sides (width/sign/state)"@,
                        )
                    } else {
                        &&& final(self).lowering_step(old(self))
                        &&& r matches Some(DynAssign::QueueSlice { args }) && args@.len() == 4
                            && args@[0] == old(self).exprs@.len() && args@[1] == old(self).exprs@.len() + 1
                            && final(self).lowered(*msb, args@[2] as int) && final(self).lowered(*lsb, args@[3] as int)
                        &&& final(self).exprs@[old(self).exprs@.len() as int] == (ir::Expr::Signal { net: dn, word: None })
                        &&& final(self).exprs@[old(self).exprs@.len() as int + 1] == (ir::Expr::Signal { net: sn, word: None })
                    },
                    _ => r is None && *final(self) == *old(self),
                },
                Expr::New { size } => if assoc_first(old(self).tables.scope_nets@, "new"@) is Some {
                    r is None && *final(self) == *old(self)
                } else {
                    match old(self).lhs_handle(*lhs) {
                        Some((dn, NetKind::DynArray)) => if delay {
                            r matches Some(DynAssign::Done) && final(self).refused_with(
                                old(self),
                                "a delayed `new[]` assignment is outside the MVP"@,
                            )
                        } else {
                            &&& final(self).lowering_step(old(self))
                            &&& r matches Some(DynAssign::Alloc { args }) && args@.len() == 2 && args@[0]
                                == old(self).exprs@.len() && final(self).lowered(*size, args@[1] as int)
                            &&& final(self).exprs@[old(self).exprs@.len() as int] == (ir::Expr::Signal { net: dn, word: None })
                        },
                        _ => r matches Some(DynAssign::Done) && final(self).refused_with(
                            old(self),
                            "`new[n]` assigns only to a dynamic-ARRAY handle (`integer d[]; d = new[n];`)"@,
                        ),
                    }
                },
                Expr::Call { name, args } => if name.segments@.len() == 2 && is_pop(name.segments@[1]@) {
                    match old(self).dyn_handle_of(name.segments@[0]@) {
                    Some((qn, NetKind::Queue)) => if delay {
                        r matches Some(DynAssign::Done) && final(self).refused_with(
                            old(self),
                            "a delayed queue-pop assignment is outside the MVP"@,
                        )
                    } else if args@.len() != 0 {
                        r matches Some(DynAssign::Done) && final(self).refused_with(
                            old(self),
                            "pop_back()/pop_front() take no arguments"@,
                        )
                    } else {
                        match old(self).lhs_net(*lhs) {
                            Some(xn) => {
                                let h = old(self).exprs@.len() as u32;
                                &&& final(self).lowering_step(old(self))
                                &&& final(self).exprs@.len() == old(self).exprs@.len() + 2
                                &&& final(self).exprs@[h as int] == (ir::Expr::Signal { net: qn, word: None })
                                &&& final(self).exprs@[h + 1] matches ir::Expr::SysFunc { which, args: ids } && which == (
                                if name.segments@[1]@ == "pop_front"@ {
                                    SysFuncId::QPopFront
                                } else {
                                    SysFuncId::QPopBack
                                }) && ids@ == seq![h]
                                &&& r matches Some(DynAssign::Pop { stmt }) && stmt matches ir::Stmt::BlockingAssign { lhs: lv, rhs: p }
                                    && p == h + 1 && lv.chunks@ == seq![LvChunk { net: xn, word: None, offset: None, width: None }]
                            },
                            None => r matches Some(DynAssign::Done) && final(self).refused_with(
                                old(self),
                                "a queue pop into this target is not lowered here"@,
                            ),
                        }
                    },
                    _ => r is None && *final(self) == *old(self),
                    }
                } else {
                    r is None && *final(self) == *old(self)
                },
                _ => r is None && *final(self) == *old(self),
            },
    {
        match rhs {
            Expr::Ident(_) => {
                let (sn, sk) = match self.expr_handle_exec(rhs) {
                    Some(h) => h,
                    None => return None,
                };
                let (dn, dk) = match self.lhs_handle_exec(lhs) {
                    Some(h) => h,
                    None => return None,
                };
                if delay {
                    return self.refuse_assign("a delayed whole-handle copy is outside the MVP");
                }
                if dk != sk {
                    return self.refuse_assign(
                        "whole-handle copy needs the SAME dynamic-storage kind on both sides (queue=queue, dynamic=dynamic, assoc=assoc)",
                    );
                }
                if !self.same_elem_type(dn, sn) {
                    return self.refuse_assign(
                        "whole-handle copy needs matching element types on both sides (width/sign/state)",
                    );
                }
                if dn == sn {
                    return Some(DynAssign::Done);
                }
                Some(DynAssign::HandleCopy { dst: dn, src: sn })
            },
            Expr::PartSelect { base, msb, lsb } => {
                let (sn, sk) = match self.expr_handle_exec(base) {
                    Some(h) => h,
                    None => return None,
                };
                let (dn, dk) = match self.lhs_handle_exec(lhs) {
                    Some(h) => h,
                    None => return None,
                };
                if sk != NetKind::Queue || dk != NetKind::Queue {
                    return None;
                }
                if delay {
                    return self.refuse_assign("a delayed queue-slice assignment is outside the MVP");
                }
                if !self.same_elem_type(dn, sn) {
                    return self.refuse_assign("queue slice needs matching element types on both sides (width/sign/state)");
                }
                let ghost s0: Elaborator = *self;
                proof {
                    lemma_step_refl(&s0);
                }
                let dst_h = self.push_node(ir::Expr::Signal { net: dn, word: None });
                let ghost s1: Elaborator = *self;
                let src_h = self.push_node(ir::Expr::Signal { net: sn, word: None });
                let ghost s2: Elaborator = *self;
                let a = self.lower_expr(msb);
                let ghost s3: Elaborator = *self;
                let b = self.lower_expr(lsb);
                proof {
                    lemma_step_trans(&s0, &s1, &s2);
                    lemma_step_trans(&s0, &s2, &s3);
                    lemma_step_trans(&s0, &s3, self);
                    lemma_step_trans(&s2, &s3, self);
                    lemma_step_trans(&s1, &s2, self);
                    lemma_lowered_kept(&s3, self, **msb, a as int);
                    lemma_node_kept(&s1, self, dst_h as int);
                    lemma_node_kept(&s2, self, src_h as int);
                }
                let args: Vec<u32> = vec![dst_h, src_h, a, b];
                assert(args@ =~= seq![dst_h, src_h, a, b]);
                Some(DynAssign::QueueSlice { args })
            },
            Expr::New { size } => {
                let new_name = String::from_str("new");
                if lookup_first(&self.tables.scope_nets, &new_name).is_some() {
                    return None;
                }
                let dn = match self.lhs_handle_exec(lhs) {
                    Some((dn, NetKind::DynArray)) => dn,
                    _ => {
                        return self.refuse_assign(
                            "`new[n]` assigns only to a dynamic-ARRAY handle (`integer d[]; d = new[n];`)",
                        );
                    },
                };
                if delay {
                    return self.refuse_assign("a delayed `new[]` assignment is outside the MVP");
                }
                let ghost s0: Elaborator = *self;
                proof {
                    lemma_step_refl(&s0);
                }
                let h = self.push_node(ir::Expr::Signal { net: dn, word: None });
                let ghost s1: Elaborator = *self;
                let n = self.lower_expr(size);
                proof {
                    lemma_step_trans(&s0, &s1, self);
                    lemma_node_kept(&s1, self, h as int);
                }
                let args: Vec<u32> = vec![h, n];
                assert(args@ =~= seq![h, n]);
                Some(DynAssign::Alloc { args })
            },
            Expr::Call { name, args } => {
                if name.segments.len() != 2 {
                    return None;
                }
                let m = &name.segments[1];
                let front = *m == String::from_str("pop_front");
                let back = *m == String::from_str("pop_back");
                if !(front || back) {
                    return None;
                }
                let qn = match self.dyn_handle_exec(&name.segments[0]) {
                    Some((qn, NetKind::Queue)) => qn,
                    _ => return None,
                };
                if delay {
                    return self.refuse_assign("a delayed queue-pop assignment is outside the MVP");
                }
                if args.len() != 0 {
                    return self.refuse_assign("pop_back()/pop_front() take no arguments");
                }
                let xn = match lhs {
                    Lvalue::Ident(p) => {
                        if p.segments.len() == 1 {
                            lookup_first(&self.tables.scope_nets, &p.segments[0])
                        } else {
                            None
                        }
                    },
                    _ => None,
                };
                let xn = match xn {
                    Some(x) => x,
                    None => return self.refuse_assign("a queue pop into this target is not lowered here"),
                };
                let ghost s0: Elaborator = *self;
                proof {
                    lemma_step_refl(&s0);
                }
                let h = self.push_node(ir::Expr::Signal { net: qn, word: None });
                let ghost s1: Elaborator = *self;
                let mut pargs: Vec<u32> = Vec::new();
                pargs.push(h);
                assert(pargs@ =~= seq![h]);
                let which = if front {
                    SysFuncId::QPopFront
                } else {
                    SysFuncId::QPopBack
                };
                let pop = self.push_node(ir::Expr::SysFunc { which, args: pargs });
                proof {
                    lemma_step_trans(&s0, &s1, self);
                    lemma_node_kept(&s1, self, h as int);
                }
                let lv = ir::Lvalue { chunks: vec![LvChunk { net: xn, word: None, offset: None, width: None }] };
                Some(DynAssign::Pop { stmt: ir::Stmt::BlockingAssign { lhs: lv, rhs: pop } })
            },
            _ => None,
        }
    }
}

} // verus!
