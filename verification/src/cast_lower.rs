//! A static cast `T'(e)` by its target: a signing cast stamps the
//! operand's sign and keeps its width, `real'` converts an integral operand,
//! a primitive integral cast converts a real operand; a real operand of a
//! signing cast is refused.

use vstd::prelude::*;
use crate::ast::{CastPrim, CastTarget, Expr};
use crate::casts::{prim_wsign, sign_stamp};
use crate::elab::{operands_below, Elaborator, MsgCode, Severity};
use crate::ir;
use crate::ir::SysFuncId;
use crate::lower::{lemma_lowered_kept, lemma_lowered_or_plain_kept, lemma_step_refl, lemma_step_trans, lower_budget};
use crate::names::{assoc_first, lookup_first};

verus! {

/// The sign a cast target stamps, where it is a signing cast whose sign is
/// known: `signed'`/`unsigned'`, or a type parameter of this instance
/// whose shape resolved.
pub open spec fn signing_of(t: CastTarget, type_params: Seq<(String, bool)>) -> Option<bool> {
    match t {
        CastTarget::Signing { signed } => Some(signed),
        CastTarget::SigningParam { shape_param } => assoc_first(type_params, shape_param@),
        _ => None,
    }
}

proof fn lemma_real_call_same(s1: &Elaborator, s2: &Elaborator, e: Expr)
    requires
        s1.tables == s2.tables,
    ensures
        s1.has_real_call(e) == s2.has_real_call(e),
    decreases e,
{
    match e {
        Expr::Paren(inner) => lemma_real_call_same(s1, s2, *inner),
        Expr::Unary { operand, .. } => lemma_real_call_same(s1, s2, *operand),
        Expr::Binary { lhs, rhs, .. } => {
            lemma_real_call_same(s1, s2, *lhs);
            lemma_real_call_same(s1, s2, *rhs);
        },
        Expr::Ternary { then_e, else_e, .. } => {
            lemma_real_call_same(s1, s2, *then_e);
            lemma_real_call_same(s1, s2, *else_e);
        },
        _ => {},
    }
}

impl Elaborator {
    /// The one-argument system function node at `id`: its function and
    /// argument.
    pub open spec fn unary_sysfunc(&self, id: int) -> Option<(SysFuncId, u32)> {
        match self.exprs@[id] {
            ir::Expr::SysFunc { which, args } => if args@.len() == 1 {
                Some((which, args@[0]))
            } else {
                None
            },
            _ => None,
        }
    }

    /// Node `id` is the cast of `operand` to the sign `signed`: the sign
    /// stamp over the lowered operand when that is not real, else the
    /// placeholder, the operand having been lowered before it.
    pub open spec fn signing_cast_at(&self, operand: Expr, signed: bool, id: int) -> bool {
        ||| {
            &&& self.unary_sysfunc(id) matches Some((which, e)) && which == sign_stamp(signed) && e < id
                && self.lowered(operand, e as int)
            &&& !(self.is_real(self.unary_sysfunc(id)->Some_0.1 as int) || self.has_real_call(operand))
        }
        ||| {
            &&& self.placeholder_at(id)
            &&& exists|e: int| 0 <= e < id && #[trigger] self.lowered(operand, e) && (self.is_real(e) || self.has_real_call(operand))
        }
    }

    /// Stamp the lowered operand `e` with `signed`, refusing a real operand.
    fn signing_cast(&mut self, operand: &Expr, signed: bool) -> (id: u32)
        requires
            old(self).wf(),
            old(self).consts_closed(),
            old(self).exprs@.len() + lower_budget(*operand) + 1 < u32::MAX,
            old(self).consts@.len() + lower_budget(*operand) + 1 < u32::MAX,
        ensures
            final(self).lowering_step(old(self)),
            (id as int) < final(self).exprs@.len(),
            final(self).signing_cast_at(*operand, signed, id as int),
    {
        let ghost s0: Elaborator = *self;
        let e = self.lower_expr(operand);
        let ghost s1: Elaborator = *self;
        if self.cast_operand_is_real(operand, e) {
            self.report_unsupported("signed'/unsigned' cast is not defined on a real operand");
            let ghost s2: Elaborator = *self;
            let id = self.refuse_node();
            proof {
                lemma_step_trans(&s0, &s1, &s2);
                lemma_step_trans(&s0, &s2, self);
                lemma_step_trans(&s1, &s2, self);
                lemma_lowered_kept(&s1, self, *operand, e as int);
                crate::lower::lemma_reads_kept(&s1, self, e as int);
                lemma_real_call_same(&s1, self, *operand);
                assert(0 <= e < id && self.lowered(*operand, e as int) && (self.is_real(e as int)
                    || self.has_real_call(*operand)));
            }
            return id;
        }
        let mut args: Vec<u32> = Vec::new();
        args.push(e);
        assert(args@ =~= seq![e]);
        let id = self.push_node(ir::Expr::SysFunc { which: if signed { SysFuncId::Signed } else { SysFuncId::Unsigned }, args });
        proof {
            lemma_step_trans(&s0, &s1, self);
            lemma_lowered_kept(&s1, self, *operand, e as int);
            crate::lower::lemma_reads_kept(&s1, self, e as int);
            lemma_real_call_same(&s1, self, *operand);
            assert(self.unary_sysfunc(id as int) == Some((sign_stamp(signed), e)));
        }
        id
    }

    /// The placeholder after a refusal already reported.
    fn refuse_node(&mut self) -> (id: u32)
        requires
            old(self).wf(),
            old(self).consts_closed(),
            old(self).exprs@.len() < u32::MAX,
            old(self).consts@.len() < u32::MAX,
        ensures
            final(self).lowering_step(old(self)),
            id as int == old(self).exprs@.len(),
            final(self).placeholder_at(id as int),
            final(self).diags == old(self).diags,
    {
        self.push_const(crate::elab::make_const_u32(0, 1))
    }

    /// Lower the cast `target'(operand)`. A signing cast (`signed'`,
    /// `unsigned'`, or a type parameter of this instance whose shape
    /// resolved) lowers the operand and stamps its sign, refusing a real
    /// operand with one error; a type parameter whose shape does not
    /// resolve is refused. `real'` of a real operand is the operand, of an
    /// integral one `$itor` over it. A primitive integral cast lowers the
    /// operand in the context of its width; a real operand is converted
    /// (round, keep the low bits, stamp the sign). A size cast whose width
    /// is not a positive constant is refused; size and named casts, and an
    /// integral cast of an integral operand, are refused here with one
    /// error and the placeholder.
    pub fn lower_cast(&mut self, target: &CastTarget, operand: &Expr) -> (id: u32)
        requires
            old(self).wf(),
            old(self).consts_closed(),
            old(self).exprs@.len() + lower_budget(*operand) + 6 < u32::MAX,
            old(self).consts@.len() + lower_budget(*operand) + 3 < u32::MAX,
        ensures
            final(self).lowering_step(old(self)),
            (id as int) < final(self).exprs@.len(),
            signing_of(*target, old(self).tables.type_param_signs@) matches Some(signed) ==> final(self).signing_cast_at(
                *operand,
                signed,
                id as int,
            ),
            (target is SigningParam && signing_of(*target, old(self).tables.type_param_signs@) is None) ==> {
                &&& final(self).placeholder_at(id as int)
                &&& final(self).diags@.len() == old(self).diags@.len() + 1
                &&& final(self).diags@.last().message@
                    == "a cast to a type parameter whose per-instance shape does not resolve in this scope"@
            },
            *target == CastTarget::Prim(CastPrim::Real) ==> exists|e: int| 0 <= e && #[trigger] final(self).lowered(*operand, e) && if final(self).is_real(e) || final(self).has_real_call(*operand) {
                id as int == e
            } else {
                final(self).unary_sysfunc(id as int) == Some((SysFuncId::Itor, e as u32))
            },
            (target matches CastTarget::Prim(p) && p != CastPrim::Real) ==> {
                let tw = prim_wsign(target->Prim_0)->Some_0.0;
                let ts = prim_wsign(target->Prim_0)->Some_0.1;
                exists|e: int| 0 <= e && #[trigger] final(self).lowered_or_plain(*operand, tw, e) && if final(self).is_real(e) || final(self).has_real_call(*operand) {
                    final(self).is_real_to_int(id as int - 4, e as u32, tw, ts)
                } else {
                    final(self).placeholder_at(id as int)
                }
            },
    {
        let ghost s0: Elaborator = *self;
        proof {
            lemma_step_refl(&s0);
        }
        match target {
            CastTarget::Signing { signed } => self.signing_cast(operand, *signed),
            CastTarget::SigningParam { shape_param } => match lookup_first(&self.tables.type_param_signs, shape_param) {
                Some(signed) => self.signing_cast(operand, signed),
                None => {
                    self.report_unsupported("a cast to a type parameter whose per-instance shape does not resolve in this scope");
                    let ghost s1: Elaborator = *self;
                    let id = self.refuse_node();
                    proof {
                        lemma_step_trans(&s0, &s1, self);
                    }
                    id
                },
            },
            CastTarget::Prim(CastPrim::Real) => {
                let e = self.lower_expr(operand);
                let ghost s1: Elaborator = *self;
                if self.cast_operand_is_real(operand, e) {
                    proof {
                        assert(self.lowered(*operand, e as int));
                    }
                    return e;
                }
                let mut args: Vec<u32> = Vec::new();
                args.push(e);
                assert(args@ =~= seq![e]);
                let id = self.push_node(ir::Expr::SysFunc { which: SysFuncId::Itor, args });
                proof {
                    lemma_step_trans(&s0, &s1, self);
                    lemma_lowered_kept(&s1, self, *operand, e as int);
                    crate::lower::lemma_reads_kept(&s1, self, e as int);
                    lemma_real_call_same(&s1, self, *operand);
                    assert(self.lowered(*operand, e as int));
                }
                id
            },
            CastTarget::Prim(p) => {
                let (tw, ts, _) = match crate::casts::cast_prim_wsign(*p) {
                    Some(t) => t,
                    None => (32, true, true),
                };
                let e = self.lower_ctx_or_plain(operand, tw);
                let ghost s1: Elaborator = *self;
                if self.cast_operand_is_real(operand, e) {
                    let id = self.lower_real_to_int_cast(e, tw, ts);
                    proof {
                        let n = s1.exprs@.len() as int;
                        assert(self.exprs@.take(n) == s1.exprs@);
                        assert forall|i: int| 0 <= i < self.exprs@.len() implies (#[trigger] self.exprs@[i] matches ir::Expr::Const { val }
                            ==> (val as int) < self.consts@.len()) by {
                            if i < n {
                                assert(self.exprs@.take(n)[i] == self.exprs@[i]);
                                assert(s1.exprs@[i] == self.exprs@[i]);
                            } else {
                                assert(i == n || i == n + 1 || i == n + 2 || i == n + 3 || i == n + 4);
                            }
                        }
                        assert(self.diags@.take(s1.diags@.len() as int) =~= s1.diags@);
                        assert(self.lowering_step(&s1));
                        lemma_step_trans(&s0, &s1, self);
                        lemma_lowered_or_plain_kept(&s1, self, *operand, tw, e as int);
                        crate::lower::lemma_reads_kept(&s1, self, e as int);
                        lemma_real_call_same(&s1, self, *operand);
                        assert(self.lowered_or_plain(*operand, tw, e as int));
                    }
                    return id;
                }
                self.report_unsupported("an integral cast of an integral operand is not lowered here");
                let ghost s2: Elaborator = *self;
                let id = self.refuse_node();
                proof {
                    lemma_step_trans(&s0, &s1, &s2);
                    lemma_step_trans(&s0, &s2, self);
                    lemma_step_trans(&s1, &s2, self);
                    lemma_lowered_or_plain_kept(&s1, self, *operand, tw, e as int);
                    crate::lower::lemma_reads_kept(&s1, self, e as int);
                    lemma_real_call_same(&s1, self, *operand);
                    assert(self.lowered_or_plain(*operand, tw, e as int));
                }
                id
            },
            CastTarget::Size(_) => {
                match self.cast_size_fold(target) {
                    Some(n) => {
                        if 1 <= n && n <= u32::MAX as i64 {
                            self.report_unsupported("a size cast is not lowered here");
                        } else {
                            self.report_unsupported("size cast width must be a positive constant expression");
                        }
                    },
                    None => {
                        self.report_unsupported("size cast width must be a positive constant expression");
                    },
                }
                let ghost s1: Elaborator = *self;
                let id = self.refuse_node();
                proof {
                    lemma_step_trans(&s0, &s1, self);
                }
                id
            },
            CastTarget::Named(_) => {
                self.report_unsupported("a named cast is not lowered here");
                let ghost s1: Elaborator = *self;
                let id = self.refuse_node();
                proof {
                    lemma_step_trans(&s0, &s1, self);
                }
                id
            },
        }
    }
}

} // verus!
