//! The self-determined width of a size-cast operand, answered on the source
//! tree before anything is lowered: exact where it is given, `None` wherever
//! a width would be a guess (the caller then measures the operand by
//! lowering it).

use vstd::prelude::*;
use crate::ast::{CastTarget, Expr, SysName};
use crate::casts::{cast_prim_wsign, prim_wsign};
use crate::elab::{Elaborator, IdentRoute};
use crate::expr_ctx::{
    ast_decimal_lit_i64, decimal_lit, is_left_width_binop, is_one_bit_binop, is_one_bit_unop,
    max_opt, range_width, range_width_exec,
};
use crate::names::{assoc_first, contains_u32, lookup_first};
use crate::pkg::param_width;

verus! {

impl Elaborator {
    /// The width a read of `net` has, where it is a value: none for a whole
    /// fixed-size unpacked array.
    pub open spec fn net_read_width(&self, net: u32) -> Option<u32> {
        if self.is_static_array(net as int) {
            None
        } else {
            self.read_width(net as int)
        }
    }

    /// The width a bare name reads with, by the route the resolver gives it:
    /// an array item's element width, a substituted actual's lowered width
    /// (none for one substituted verbatim), an aliased or plain net's read
    /// width, a wide constant's width, a parameter's materialized width;
    /// none for a string, a real, a guessed parameter or an unknown name.
    pub open spec fn ident_read_width(&self, name: Seq<char>) -> Option<u32> {
        match assoc_first(self.tables.ident_routes@, name) {
            Some(IdentRoute::ArrayItem { width, .. }) => Some(width),
            Some(IdentRoute::Subst(eid)) => if self.tables.verbatim_actuals@.contains(eid) {
                None
            } else {
                self.bits_of(eid as int)
            },
            Some(IdentRoute::OutSubst(net)) => self.net_read_width(net),
            Some(IdentRoute::Str) => None,
            Some(IdentRoute::Real) => None,
            Some(IdentRoute::Wide(cv)) => Some(cv.width),
            Some(IdentRoute::Param { v, meta, guessed }) => if guessed {
                None
            } else {
                Some(param_width(v, meta))
            },
            None => match assoc_first(self.tables.scope_nets@, name) {
                Some(net) => self.net_read_width(net),
                None => None,
            },
        }
    }

    /// The value a size cast's target folds to: a decimal literal `N'(e)`,
    /// or a name `P'(e)` that is a parameter whose value is known.
    pub open spec fn cast_size_value(&self, t: CastTarget) -> Option<i64> {
        match t {
            CastTarget::Size(x) => decimal_lit(*x),
            CastTarget::Named(p) => if p.segments@.len() == 1 {
                match assoc_first(self.tables.ident_routes@, p.segments@[0]@) {
                    Some(IdentRoute::Param { v, guessed, .. }) => if guessed {
                        None
                    } else {
                        Some(v)
                    },
                    _ => None,
                }
            } else {
                None
            },
            _ => None,
        }
    }

    /// The width of a bit-select of a bare scope net: one bit, or the element
    /// width when the net is a fixed-size unpacked array; none for a net of
    /// several packed dimensions or any other base.
    pub open spec fn bit_select_width(&self, base: Expr) -> Option<u32> {
        match base {
            Expr::Ident(p) => if p.segments@.len() == 1 && assoc_first(
                self.tables.ident_routes@,
                p.segments@[0]@,
            ) is None {
                match assoc_first(self.tables.scope_nets@, p.segments@[0]@) {
                    Some(net) => if self.is_static_array(net as int) {
                        self.read_width(net as int)
                    } else if self.tables.multi_packed_nets@.contains(net) {
                        None
                    } else {
                        Some(1)
                    },
                    None => None,
                }
            } else {
                None
            },
            _ => None,
        }
    }

    /// The width of a constant part-select `n[m:l]` of a bare scope net that
    /// is a plain vector: `|m - l| + 1`.
    pub open spec fn part_select_width(&self, base: Expr, msb: Expr, lsb: Expr) -> Option<u32> {
        match base {
            Expr::Ident(p) => if p.segments@.len() == 1 {
                match assoc_first(self.tables.scope_nets@, p.segments@[0]@) {
                    Some(net) => if self.is_static_array(net as int)
                        || self.tables.multi_packed_nets@.contains(net) {
                        None
                    } else {
                        match (decimal_lit(msb), decimal_lit(lsb)) {
                            (Some(m), Some(l)) => range_width(m as int, l as int),
                            _ => None,
                        }
                    },
                    None => None,
                }
            } else {
                None
            },
            _ => None,
        }
    }

    /// The self-determined width of a size-cast operand: comparisons and
    /// logical operators are one bit, a shift or power is as wide as its left
    /// operand, other binary operators and `?:` the wider operand, `+ - ~`
    /// their operand, a concatenation the sum of its parts, a replication
    /// its count times that sum; a fill literal adds nothing (0); a nested
    /// cast is as wide as its target; `$signed`/`$unsigned` their argument.
    pub open spec fn size_ctx_width(&self, e: Expr) -> Option<u32>
        decreases e,
    {
        match e {
            Expr::Paren(inner) => self.size_ctx_width(*inner),
            Expr::Binary { op, lhs, rhs } => if is_one_bit_binop(op) {
                Some(1)
            } else if is_left_width_binop(op) {
                self.size_ctx_width(*lhs)
            } else {
                max_opt(self.size_ctx_width(*lhs), self.size_ctx_width(*rhs))
            },
            Expr::Unary { op, operand } => if is_one_bit_unop(op) {
                Some(1)
            } else {
                self.size_ctx_width(*operand)
            },
            Expr::Ternary { then_e, else_e, .. } => max_opt(
                self.size_ctx_width(*then_e),
                self.size_ctx_width(*else_e),
            ),
            Expr::Concat(parts) => match self.sum_ctx_widths(parts@) {
                Some(s) => if s <= u32::MAX {
                    Some(s as u32)
                } else {
                    None
                },
                None => None,
            },
            Expr::Replicate { count, value } => match (
                decimal_lit(*count),
                self.sum_ctx_widths(value@),
            ) {
                (Some(c), Some(s)) => if 0 <= c <= u32::MAX && s <= u32::MAX && c * s
                    <= u32::MAX {
                    Some((c * s) as u32)
                } else {
                    None
                },
                _ => None,
            },
            Expr::BitSelect { base, .. } => self.bit_select_width(*base),
            Expr::PartSelect { base, msb, lsb } => self.part_select_width(*base, *msb, *lsb),
            Expr::IndexedPart { width, .. } => match decimal_lit(*width) {
                Some(w) => if 0 <= w <= u32::MAX {
                    Some(w as u32)
                } else {
                    None
                },
                None => None,
            },
            Expr::IntLit(l) => if l.fill {
                Some(0)
            } else {
                match l.parsed {
                    Some(s) => Some(s.width),
                    None => None,
                }
            },
            Expr::Ident(p) => if p.segments@.len() == 1 {
                self.ident_read_width(p.segments@[0]@)
            } else {
                None
            },
            Expr::PkgScoped { pkg, name } => self.pkg_read_width(pkg@, name@),
            Expr::Cast { target, expr } => match target {
                CastTarget::Prim(p) => match prim_wsign(p) {
                    Some((w, _, _)) => Some(w),
                    None => None,
                },
                CastTarget::Signing { .. } => self.size_ctx_width(*expr),
                CastTarget::SigningParam { .. } => self.size_ctx_width(*expr),
                _ => match self.cast_size_value(target) {
                    Some(n) => if 1 <= n <= u32::MAX {
                        Some(n as u32)
                    } else {
                        None
                    },
                    None => None,
                },
            },
            Expr::SysCall { name, args } => if (name is Signed || name is Unsigned) && args@.len()
                == 1 {
                self.size_ctx_width(args@[0])
            } else {
                None
            },
            _ => None,
        }
    }

    /// The sum of the widths of `parts`; unknown when any part is.
    pub open spec fn sum_ctx_widths(&self, parts: Seq<Expr>) -> Option<int>
        decreases parts,
    {
        if parts.len() == 0 {
            Some(0)
        } else {
            match (self.sum_ctx_widths(parts.drop_last()), self.size_ctx_width(parts.last())) {
                (Some(a), Some(b)) => Some(a + b),
                _ => None,
            }
        }
    }

    proof fn lemma_sum_ctx_nonneg(&self, parts: Seq<Expr>)
        ensures
            self.sum_ctx_widths(parts) matches Some(a) ==> a >= 0,
        decreases parts.len(),
    {
        if parts.len() > 0 {
            self.lemma_sum_ctx_nonneg(parts.drop_last());
        }
    }

    /// A prefix's sum is unknown only if the whole sum is, and never exceeds it.
    proof fn lemma_sum_ctx_prefix(&self, parts: Seq<Expr>, i: int)
        requires
            0 <= i <= parts.len(),
        ensures
            self.sum_ctx_widths(parts.take(i)) is None ==> self.sum_ctx_widths(parts) is None,
            self.sum_ctx_widths(parts.take(i)) matches Some(a) ==> (self.sum_ctx_widths(
                parts,
            ) matches Some(b) ==> a <= b),
        decreases parts.len() - i,
    {
        if i == parts.len() {
            assert(parts.take(i) =~= parts);
        } else {
            self.lemma_sum_ctx_prefix(parts, i + 1);
            assert(parts.take(i + 1).drop_last() =~= parts.take(i));
            self.lemma_sum_ctx_nonneg(parts.take(i));
        }
    }

    fn net_width_if_value(&self, net: u32) -> (r: Option<u32>)
        ensures
            r == self.net_read_width(net),
    {
        if self.net_is_static_array(net) {
            None
        } else {
            self.signal_read_width(net)
        }
    }

    /// The width a bare name reads with (see [`Self::ident_read_width`]).
    pub fn ident_width(&self, name: &String) -> (r: Option<u32>)
        requires
            self.wf(),
        ensures
            r == self.ident_read_width(name@),
    {
        match lookup_first(&self.tables.ident_routes, name) {
            Some(IdentRoute::ArrayItem { width, .. }) => Some(width),
            Some(IdentRoute::Subst(eid)) => {
                if contains_u32(&self.tables.verbatim_actuals, eid) {
                    None
                } else {
                    self.ir_bits_of(eid)
                }
            },
            Some(IdentRoute::OutSubst(net)) => self.net_width_if_value(net),
            Some(IdentRoute::Str) => None,
            Some(IdentRoute::Real) => None,
            Some(IdentRoute::Wide(cv)) => Some(cv.width),
            Some(IdentRoute::Param { v, meta, guessed }) => {
                if guessed {
                    None
                } else {
                    Some(Self::param_const_width(v, meta))
                }
            },
            None => match lookup_first(&self.tables.scope_nets, name) {
                Some(net) => self.net_width_if_value(net),
                None => None,
            },
        }
    }

    pub(crate) fn cast_size_fold(&self, t: &CastTarget) -> (r: Option<i64>)
        ensures
            r == self.cast_size_value(*t),
    {
        match t {
            CastTarget::Size(x) => ast_decimal_lit_i64(x),
            CastTarget::Named(p) => {
                if p.segments.len() == 1 {
                    match lookup_first(&self.tables.ident_routes, &p.segments[0]) {
                        Some(IdentRoute::Param { v, guessed, .. }) => {
                            if guessed {
                                None
                            } else {
                                Some(v)
                            }
                        },
                        _ => None,
                    }
                } else {
                    None
                }
            },
            _ => None,
        }
    }

    fn bit_select_width_exec(&self, base: &Expr) -> (r: Option<u32>)
        ensures
            r == self.bit_select_width(*base),
    {
        match base {
            Expr::Ident(p) => {
                if p.segments.len() == 1 && lookup_first(
                    &self.tables.ident_routes,
                    &p.segments[0],
                ).is_none() {
                    match lookup_first(&self.tables.scope_nets, &p.segments[0]) {
                        Some(net) => {
                            if self.net_is_static_array(net) {
                                self.signal_read_width(net)
                            } else if contains_u32(&self.tables.multi_packed_nets, net) {
                                None
                            } else {
                                Some(1)
                            }
                        },
                        None => None,
                    }
                } else {
                    None
                }
            },
            _ => None,
        }
    }

    fn part_select_width_exec(&self, base: &Expr, msb: &Expr, lsb: &Expr) -> (r: Option<u32>)
        ensures
            r == self.part_select_width(*base, *msb, *lsb),
    {
        match base {
            Expr::Ident(p) => {
                if p.segments.len() == 1 {
                    match lookup_first(&self.tables.scope_nets, &p.segments[0]) {
                        Some(net) => {
                            if self.net_is_static_array(net) || contains_u32(
                                &self.tables.multi_packed_nets,
                                net,
                            ) {
                                None
                            } else {
                                match (ast_decimal_lit_i64(msb), ast_decimal_lit_i64(lsb)) {
                                    (Some(m), Some(l)) => range_width_exec(m, l),
                                    _ => None,
                                }
                            }
                        },
                        None => None,
                    }
                } else {
                    None
                }
            },
            _ => None,
        }
    }

    /// The checked sum of the widths of `parts`, as the `Concat` and
    /// `Replicate` arms read it.
    fn sum_ctx_parts(&self, parts: &Vec<Expr>, Ghost(whole): Ghost<Expr>) -> (r: Option<u32>)
        requires
            self.wf(),
            self.pkg_tables_wf(),
            forall|i: int| 0 <= i < parts@.len() ==> decreases_to!(whole => #[trigger] parts@[i]),
        ensures
            match self.sum_ctx_widths(parts@) {
                Some(s) => if s <= u32::MAX {
                    r == Some(s as u32)
                } else {
                    r is None
                },
                None => r is None,
            },
            r matches Some(v) ==> self.sum_ctx_widths(parts@) == Some(v as int),
        decreases whole, 0nat,
    {
        let mut sum: u32 = 0;
        let mut i: usize = 0;
        assert(parts@.take(0) =~= Seq::<Expr>::empty());
        while i < parts.len()
            invariant
                i <= parts.len(),
                self.wf(),
                self.pkg_tables_wf(),
                forall|j: int| 0 <= j < parts@.len() ==> decreases_to!(whole => #[trigger] parts@[j]),
                self.sum_ctx_widths(parts@.take(i as int)) == Some(sum as int),
            decreases parts.len() - i,
        {
            assert(parts@.take(i as int + 1).drop_last() =~= parts@.take(i as int));
            assert(parts@.take(i as int + 1).last() == parts@[i as int]);
            let w = match self.size_ctx_self_width(&parts[i]) {
                Some(w) => w,
                None => {
                    proof {
                        self.lemma_sum_ctx_prefix(parts@, i as int + 1);
                    }
                    return None;
                },
            };
            if sum > u32::MAX - w {
                proof {
                    self.lemma_sum_ctx_prefix(parts@, i as int + 1);
                }
                return None;
            }
            sum = sum + w;
            i += 1;
        }
        assert(parts@.take(i as int) =~= parts@);
        Some(sum)
    }

    /// The self-determined width of a size-cast operand (see
    /// [`Self::size_ctx_width`]).
    pub fn size_ctx_self_width(&self, e: &Expr) -> (r: Option<u32>)
        requires
            self.wf(),
            self.pkg_tables_wf(),
        ensures
            r == self.size_ctx_width(*e),
        decreases *e, 1nat,
    {
        match e {
            Expr::Paren(inner) => self.size_ctx_self_width(inner),
            Expr::Binary { op, lhs, rhs } => {
                if crate::expr_ctx::binop_is_one_bit(*op) {
                    Some(1)
                } else if crate::expr_ctx::binop_is_left_width(*op) {
                    self.size_ctx_self_width(lhs)
                } else {
                    match self.size_ctx_self_width(lhs) {
                        Some(x) => match self.size_ctx_self_width(rhs) {
                            Some(y) => Some(
                                if x >= y {
                                    x
                                } else {
                                    y
                                },
                            ),
                            None => None,
                        },
                        None => None,
                    }
                }
            },
            Expr::Unary { op, operand } => {
                if crate::expr_ctx::unop_is_one_bit(*op) {
                    Some(1)
                } else {
                    self.size_ctx_self_width(operand)
                }
            },
            Expr::Ternary { then_e, else_e, .. } => match self.size_ctx_self_width(then_e) {
                Some(x) => match self.size_ctx_self_width(else_e) {
                    Some(y) => Some(
                        if x >= y {
                            x
                        } else {
                            y
                        },
                    ),
                    None => None,
                },
                None => None,
            },
            Expr::Concat(parts) => {
                proof {
                    assert forall|i: int| 0 <= i < parts@.len() implies decreases_to!(*e => #[trigger] parts@[i]) by {
                        assert(decreases_to!(*e => parts@[i]));
                    }
                }
                self.sum_ctx_parts(parts, Ghost(*e))
            },
            Expr::Replicate { count, value } => {
                let c = match ast_decimal_lit_i64(count) {
                    Some(c) => c,
                    None => return None,
                };
                proof {
                    assert forall|i: int| 0 <= i < value@.len() implies decreases_to!(*e => #[trigger] value@[i]) by {
                        assert(decreases_to!(*e => value@[i]));
                    }
                }
                let s = match self.sum_ctx_parts(value, Ghost(*e)) {
                    Some(s) => s,
                    None => return None,
                };
                if c < 0 || c > u32::MAX as i64 {
                    return None;
                }
                let ghost ci = c as int;
                let c = c as u32;
                assert(ci == c as int);
                if s != 0 && c > u32::MAX / s {
                    proof {
                        assert((c as int) * (s as int) > u32::MAX) by (nonlinear_arith)
                            requires
                                s > 0,
                                c > u32::MAX / s,
                        ;
                    }
                    return None;
                }
                proof {
                    assert((c as int) * (s as int) <= u32::MAX) by (nonlinear_arith)
                        requires
                            s == 0 || c <= u32::MAX / s,
                    ;
                }
                Some(c * s)
            },
            Expr::BitSelect { base, .. } => self.bit_select_width_exec(base),
            Expr::PartSelect { base, msb, lsb } => self.part_select_width_exec(base, msb, lsb),
            Expr::IndexedPart { width, .. } => match ast_decimal_lit_i64(width) {
                Some(w) => {
                    if 0 <= w && w <= u32::MAX as i64 {
                        Some(w as u32)
                    } else {
                        None
                    }
                },
                None => None,
            },
            Expr::IntLit(l) => {
                if l.fill {
                    Some(0)
                } else {
                    match l.parsed {
                        Some(s) => Some(s.width),
                        None => None,
                    }
                }
            },
            Expr::Ident(p) => {
                if p.segments.len() == 1 {
                    self.ident_width(&p.segments[0])
                } else {
                    None
                }
            },
            Expr::PkgScoped { pkg, name } => self.pkg_const_read_width(pkg.as_str(), name.as_str()),
            Expr::Cast { target, expr } => match target {
                CastTarget::Prim(p) => match cast_prim_wsign(*p) {
                    Some((w, _, _)) => Some(w),
                    None => None,
                },
                CastTarget::Signing { .. } => self.size_ctx_self_width(expr),
                CastTarget::SigningParam { .. } => self.size_ctx_self_width(expr),
                _ => match self.cast_size_fold(target) {
                    Some(n) => {
                        if 1 <= n && n <= u32::MAX as i64 {
                            Some(n as u32)
                        } else {
                            None
                        }
                    },
                    None => None,
                },
            },
            Expr::SysCall { name, args } => {
                let sign_fn = match name {
                    SysName::Signed => true,
                    SysName::Unsigned => true,
                    _ => false,
                };
                if sign_fn && args.len() == 1 {
                    proof {
                        assert(decreases_to!(*e => args@[0]));
                    }
                    self.size_ctx_self_width(&args[0])
                } else {
                    None
                }
            },
            _ => None,
        }
    }
}

} // verus!
