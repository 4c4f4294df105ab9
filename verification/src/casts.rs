//! Casts: the width and sign of a primitive cast type, the sign a cast
//! operand extends by, the real→integer conversion of an actual bound to an
//! integral formal, the sign stamp, and the refusal of a real operand.

use vstd::prelude::*;
use crate::ast::{BinOp as AstBinOp, CaseKind, CastPrim, Expr, ParamType, UnOp};
use crate::elab::{const_u32_spec, make_const_u32, operands_below, Elaborator, FuncEntry, MsgCode, SelfWidth};
use crate::ir;
use crate::ir::{BinOp, SelKind, SysFuncId};

verus! {

/// The message of a size cast over a real operand.
pub open spec fn real_size_cast_msg() -> Seq<char> {
    "size cast is not defined on a real operand (use int'/longint')"@
}

/// The (width, signed, two-state) of a primitive cast type; `None` for
/// `real`, which is no bit vector.
pub open spec fn prim_wsign(p: CastPrim) -> Option<(u32, bool, bool)> {
    match p {
        CastPrim::Int => Some((32, true, true)),
        CastPrim::Integer => Some((32, true, false)),
        CastPrim::Byte => Some((8, true, true)),
        CastPrim::Shortint => Some((16, true, true)),
        CastPrim::Longint => Some((64, true, true)),
        CastPrim::Bit => Some((1, false, true)),
        CastPrim::Logic | CastPrim::Reg => Some((1, false, false)),
        CastPrim::Time => Some((64, false, false)),
        CastPrim::Real => None,
    }
}

pub fn cast_prim_wsign(p: CastPrim) -> (r: Option<(u32, bool, bool)>)
    ensures
        r == prim_wsign(p),
{
    match p {
        CastPrim::Int => Some((32, true, true)),
        CastPrim::Integer => Some((32, true, false)),
        CastPrim::Byte => Some((8, true, true)),
        CastPrim::Shortint => Some((16, true, true)),
        CastPrim::Longint => Some((64, true, true)),
        CastPrim::Bit => Some((1, false, true)),
        CastPrim::Logic | CastPrim::Reg => Some((1, false, false)),
        CastPrim::Time => Some((64, false, false)),
        CastPrim::Real => None,
    }
}

/// The comparison a `case` flavor matches a label with.
pub open spec fn case_op(kind: CaseKind) -> BinOp {
    match kind {
        CaseKind::Case => BinOp::CaseEq,
        CaseKind::Casez => BinOp::CasezEq,
        CaseKind::Casex => BinOp::CasexEq,
    }
}

/// The sign stamp of a target sign.
pub open spec fn sign_stamp(signed: bool) -> SysFuncId {
    if signed {
        SysFuncId::Signed
    } else {
        SysFuncId::Unsigned
    }
}

impl Elaborator {
    /// The state other than the arena and the constants is unchanged.
    pub open spec fn only_arena_changed(&self, old: &Elaborator) -> bool {
        &&& self.nets == old.nets
        &&& self.func_metas == old.func_metas
        &&& self.canon == old.canon
        &&& self.repeatable == old.repeatable
        &&& self.tables == old.tables
        &&& self.bodies == old.bodies
        &&& self.diags == old.diags
        &&& self.had_error == old.had_error
        &&& self.size_cast_real_reported == old.size_cast_real_reported
    }

    /// The arena grew: the old nodes and constants are kept.
    pub open spec fn arena_extends(&self, old: &Elaborator) -> bool {
        &&& old.exprs@.len() <= self.exprs@.len()
        &&& self.exprs@.take(old.exprs@.len() as int) == old.exprs@
        &&& old.consts@.len() <= self.consts@.len()
        &&& self.consts@.take(old.consts@.len() as int) == old.consts@
    }

    /// Node `id` is the numeric constant `v` of `w` bits.
    pub open spec fn is_const_node(&self, id: int, v: u32, w: u32) -> bool {
        0 <= id < self.exprs@.len() && match self.exprs@[id] {
            ir::Expr::Const { val } => (val as int) < self.consts@.len() && self.consts@[val as int]
                == const_u32_spec(v, w),
            _ => false,
        }
    }

    /// Node `id` is the system function `which` over the one argument `a`.
    pub open spec fn is_sysfunc1(&self, id: int, which: SysFuncId, a: u32) -> bool {
        0 <= id < self.exprs@.len() && match self.exprs@[id] {
            ir::Expr::SysFunc { which: w, args } => w == which && args@ == seq![a],
            _ => false,
        }
    }

    /// Nodes `n .. n + 3` select the low `w` bits of `e`: the offset `0`,
    /// the width `w`, and the part select, unsigned.
    pub open spec fn is_low_select(&self, n: int, e: u32, w: u32) -> bool {
        &&& self.is_const_node(n, 0, 32)
        &&& self.is_const_node(n + 1, w, 32)
        &&& n + 2 < self.exprs@.len()
        &&& self.exprs@[n + 2] matches ir::Expr::Select { base, offset, width, kind }
        &&& base == e && offset as int == n && width as int == n + 1 && kind == SelKind::Part
    }

    /// Nodes `n .. n + 5` convert the real `e` to an integer of `w` bits:
    /// round to an integer, keep the low `w` bits, stamp the target sign.
    pub open spec fn is_real_to_int(&self, n: int, e: u32, w: u32, signed: bool) -> bool {
        &&& n + 5 == self.exprs@.len()
        &&& self.is_sysfunc1(n, SysFuncId::RealToInt, e)
        &&& self.is_low_select(n + 1, n as u32, w)
        &&& self.is_sysfunc1(n + 4, sign_stamp(signed), (n + 3) as u32)
    }

    /// May node `e` be evaluated more than once (no side effect, no draw)?
    pub open spec fn is_repeatable(&self, e: int) -> bool {
        0 <= e < self.repeatable@.len() && self.repeatable@[e]
    }

    pub fn expr_is_repeatable(&self, e: u32) -> (r: bool)
        ensures
            r == self.is_repeatable(e as int),
    {
        (e as usize) < self.repeatable.len() && self.repeatable[e as usize]
    }

    /// The sign a cast inherits from its operand: the canonical rule's, or
    /// `None` while that is not knowable yet.
    pub fn cast_operand_signed(&self, e: u32) -> (r: Option<bool>)
        ensures
            r == match self.canon_of(e as int) {
                Some(sw) => Some(sw.signed),
                None => None,
            },
    {
        let c: Option<SelfWidth> = if (e as usize) < self.canon.len() {
            self.canon[e as usize]
        } else {
            None
        };
        match c {
            Some(sw) => Some(sw.signed),
            None => None,
        }
    }

    /// The sign to extend a cast operand by: the canonical sign, except that
    /// a signed operand that may not be repeated keeps the hand-written
    /// mirror's sign when the widening is fabricated; the mirror's sign too
    /// while the canonical one is not knowable.
    pub open spec fn extend_signed(&self, e: int, fabricated_widening: bool) -> bool {
        match self.canon_of(e) {
            Some(sw) => if sw.signed && fabricated_widening && !self.is_repeatable(e) {
                self.self_signed(e)
            } else {
                sw.signed
            },
            None => self.self_signed(e),
        }
    }

    pub fn cast_extend_signed(&self, e: u32, fabricated_widening: bool) -> (r: bool)
        requires
            self.wf(),
        ensures
            r == self.extend_signed(e as int, fabricated_widening),
    {
        match self.cast_operand_signed(e) {
            Some(true) => {
                if fabricated_widening && !self.expr_is_repeatable(e) {
                    self.expr_self_signed(e)
                } else {
                    true
                }
            },
            Some(s) => s,
            None => self.expr_self_signed(e),
        }
    }

    /// A numeric constant node of `w` bits holding `v`.
    pub fn const_u32_expr(&mut self, v: u32, w: u32) -> (id: u32)
        requires
            old(self).wf(),
            old(self).exprs@.len() < u32::MAX,
            old(self).consts@.len() < u32::MAX,
        ensures
            final(self).wf(),
            final(self).only_arena_changed(old(self)),
            final(self).arena_extends(old(self)),
            id as int == old(self).exprs@.len(),
            final(self).exprs@.len() == old(self).exprs@.len() + 1,
            final(self).consts@.len() <= old(self).consts@.len() + 1,
            final(self).is_const_node(id as int, v, w),
    {
        let cid = self.intern_const(make_const_u32(v, w));
        let id = self.push_expr(ir::Expr::Const { val: cid });
        proof {
            assert(self.exprs@.take(old(self).exprs@.len() as int) =~= old(self).exprs@);
            assert(self.consts@.take(old(self).consts@.len() as int) =~= old(self).consts@);
        }
        id
    }

    /// The node downstream edges use after an error: the 1-bit constant 0.
    pub fn placeholder_expr(&mut self) -> (id: u32)
        requires
            old(self).wf(),
            old(self).exprs@.len() < u32::MAX,
            old(self).consts@.len() < u32::MAX,
        ensures
            final(self).wf(),
            final(self).only_arena_changed(old(self)),
            final(self).arena_extends(old(self)),
            id as int == old(self).exprs@.len(),
            final(self).exprs@.len() == old(self).exprs@.len() + 1,
            final(self).consts@.len() <= old(self).consts@.len() + 1,
            final(self).is_const_node(id as int, 0, 1),
    {
        self.const_u32_expr(0, 1)
    }

    /// The low `w` bits of `e` (unsigned).
    pub fn select_low(&mut self, e: u32, w: u32) -> (id: u32)
        requires
            old(self).wf(),
            (e as int) < old(self).exprs@.len(),
            old(self).exprs@.len() + 3 < u32::MAX,
            old(self).consts@.len() + 2 < u32::MAX,
        ensures
            final(self).wf(),
            final(self).only_arena_changed(old(self)),
            final(self).arena_extends(old(self)),
            final(self).exprs@.len() == old(self).exprs@.len() + 3,
            final(self).consts@.len() <= old(self).consts@.len() + 2,
            id as int == old(self).exprs@.len() + 2,
            final(self).is_low_select(old(self).exprs@.len() as int, e, w),
    {
        let ghost s0 = *self;
        let off = self.const_u32_expr(0, 32);
        let ghost s1 = *self;
        let wid = self.const_u32_expr(w, 32);
        let id = self.push_expr(ir::Expr::Select { base: e, offset: off, width: wid, kind: SelKind::Part });
        proof {
            assert(self.exprs@[off as int] == s1.exprs@[off as int]);
            assert(s1.exprs@[off as int] == s0.exprs@.push(s1.exprs@[off as int])[off as int]);
            assert(self.consts@.take(s1.consts@.len() as int) =~= s1.consts@);
            assert(self.exprs@.take(s0.exprs@.len() as int) =~= s0.exprs@);
            assert(self.consts@.take(s0.consts@.len() as int) =~= s0.consts@);
            assert(s1.consts@.take(s0.consts@.len() as int) =~= s0.consts@);
        }
        id
    }

    /// `e` stamped with sign `signed`.
    fn stamp_sign(&mut self, e: u32, signed: bool) -> (id: u32)
        requires
            old(self).wf(),
            (e as int) < old(self).exprs@.len(),
            old(self).exprs@.len() + 1 < u32::MAX,
        ensures
            final(self).wf(),
            final(self).only_arena_changed(old(self)),
            final(self).consts == old(self).consts,
            final(self).exprs@.len() == old(self).exprs@.len() + 1,
            final(self).exprs@.take(old(self).exprs@.len() as int) == old(self).exprs@,
            id as int == old(self).exprs@.len(),
            final(self).is_sysfunc1(id as int, sign_stamp(signed), e),
            final(self).self_signed(id as int) == signed,
            !final(self).is_real(id as int),
            final(self).bits_of(id as int) == final(self).bits_of(e as int),
    {
        let which = if signed {
            SysFuncId::Signed
        } else {
            SysFuncId::Unsigned
        };
        let mut args: Vec<u32> = Vec::new();
        args.push(e);
        let id = self.push_expr(ir::Expr::SysFunc { which, args });
        proof {
            assert(self.exprs@.take(old(self).exprs@.len() as int) =~= old(self).exprs@);
        }
        id
    }

    /// A real → integral conversion of `e` to `tw` bits under sign
    /// `tsigned` (round half away from zero, keep the low bits, stamp the
    /// sign); a target wider than 64 bits is refused.
    pub fn lower_real_to_int_cast(&mut self, e: u32, tw: u32, tsigned: bool) -> (id: u32)
        requires
            old(self).wf(),
            (e as int) < old(self).exprs@.len(),
            old(self).exprs@.len() + 5 < u32::MAX,
            old(self).consts@.len() + 2 < u32::MAX,
        ensures
            final(self).wf(),
            final(self).arena_extends(old(self)),
            final(self).nets == old(self).nets,
            final(self).func_metas == old(self).func_metas,
            final(self).canon == old(self).canon,
            final(self).repeatable == old(self).repeatable,
            final(self).tables == old(self).tables,
            final(self).bodies == old(self).bodies,
            final(self).size_cast_real_reported == old(self).size_cast_real_reported,
            tw > 64 ==> {
                &&& final(self).had_error
                &&& final(self).diags@.len() == old(self).diags@.len() + 1
                &&& final(self).diags@.take(old(self).diags@.len() as int) == old(self).diags@
                &&& final(self).diags@.last().severity == crate::elab::Severity::Error
                &&& final(self).diags@.last().code == MsgCode::ElabUnsupported
                &&& final(self).exprs@.len() == old(self).exprs@.len() + 1
                &&& id as int == old(self).exprs@.len()
                &&& final(self).is_const_node(id as int, 0, 1)
            },
            tw <= 64 ==> {
                &&& final(self).diags == old(self).diags
                &&& final(self).had_error == old(self).had_error
                &&& final(self).is_real_to_int(old(self).exprs@.len() as int, e, tw, tsigned)
                &&& id as int == old(self).exprs@.len() + 4
                &&& final(self).bits_of(id as int) == Some(tw)
                &&& final(self).self_signed(id as int) == tsigned
                &&& !final(self).is_real(id as int)
            },
    {
        if tw > 64 {
            let ghost d0 = self.diags@;
            self.error(MsgCode::ElabUnsupported, "real→integer cast wider than 64 bits is outside the cast scope");
            proof {
                assert(self.diags@.take(d0.len() as int) =~= d0);
            }
            return self.placeholder_expr();
        }
        let ghost s0 = *self;
        let mut args: Vec<u32> = Vec::new();
        args.push(e);
        let rti = self.push_expr(ir::Expr::SysFunc { which: SysFuncId::RealToInt, args });
        let ghost s1 = *self;
        let low = self.select_low(rti, tw);
        let ghost s2 = *self;
        let id = self.stamp_sign(low, tsigned);
        proof {
            let n = s0.exprs@.len() as int;
            assert(self.exprs@[n] == s1.exprs@[n]) by {
                assert(self.exprs@.take(s2.exprs@.len() as int)[n] == s2.exprs@[n]);
                assert(s2.exprs@.take(s1.exprs@.len() as int)[n] == s1.exprs@[n]);
            }
            assert(self.exprs@.take(s2.exprs@.len() as int) == s2.exprs@);
            assert forall|k: int| n + 1 <= k < n + 4 implies self.exprs@[k] == s2.exprs@[k] by {
                assert(self.exprs@.take(s2.exprs@.len() as int)[k] == s2.exprs@[k]);
            }
            assert(self.consts == s2.consts);
            assert(self.bits_of(n + 3) == Some(tw)) by {
                assert(self.is_const_node(n + 2, tw, 32));
                assert(self.width_edge(n + 2) == Some(tw));
            }
            assert(self.exprs@.take(n) =~= s0.exprs@) by {
                assert(s1.exprs@.take(n) =~= s0.exprs@);
                assert forall|k: int| 0 <= k < n implies self.exprs@[k] == s0.exprs@[k] by {
                    assert(self.exprs@.take(s2.exprs@.len() as int)[k] == s2.exprs@[k]);
                    assert(s2.exprs@.take(s1.exprs@.len() as int)[k] == s1.exprs@[k]);
                }
            }
        }
        id
    }

    /// An actual bound to an integral formal of `w` bits and sign
    /// `formal_signed`: a real actual that may be repeated is converted to
    /// the formal's type; every other actual — integral, not repeatable, or
    /// for a width outside 1..=64, or an id that names no node — is returned
    /// as it is.
    pub fn coerce_real_actual_to_formal(&mut self, eid: u32, w: u32, formal_signed: bool) -> (id: u32)
        requires
            old(self).wf(),
            old(self).exprs@.len() + 5 < u32::MAX,
            old(self).consts@.len() + 2 < u32::MAX,
        ensures
            final(self).wf(),
            (w == 0 || w > 64 || !old(self).is_real(eid as int) || !old(self).is_repeatable(eid as int))
                ==> id == eid && *final(self) == *old(self),
            !(w == 0 || w > 64 || !old(self).is_real(eid as int) || !old(self).is_repeatable(eid as int))
                ==> {
                &&& final(self).arena_extends(old(self))
                &&& final(self).only_arena_changed(old(self))
                &&& final(self).is_real_to_int(old(self).exprs@.len() as int, eid, w, formal_signed)
                &&& id as int == old(self).exprs@.len() + 4
                &&& final(self).bits_of(id as int) == Some(w)
                &&& final(self).self_signed(id as int) == formal_signed
                &&& !final(self).is_real(id as int)
            },
    {
        if w == 0 || w > 64 {
            return eid;
        }
        if !self.expr_is_real(eid) {
            return eid;
        }
        if !self.expr_is_repeatable(eid) {
            return eid;
        }
        self.lower_real_to_int_cast(eid, w, formal_signed)
    }

    /// `x` with the enclosing expression's sign `ext`, its width unchanged:
    /// `x` itself when its own sign already is `ext`, else `x` stamped.
    pub fn coerce_sign(&mut self, x: u32, ext: bool) -> (id: u32)
        requires
            old(self).wf(),
            (x as int) < old(self).exprs@.len(),
            old(self).exprs@.len() + 1 < u32::MAX,
        ensures
            final(self).wf(),
            ext == old(self).self_signed(x as int) ==> id == x && *final(self) == *old(self),
            final(self).self_signed(id as int) == ext,
            ext != old(self).self_signed(x as int) ==> {
                &&& final(self).only_arena_changed(old(self))
                &&& final(self).consts == old(self).consts
                &&& final(self).exprs@.len() == old(self).exprs@.len() + 1
                &&& final(self).exprs@.take(old(self).exprs@.len() as int) == old(self).exprs@
                &&& id as int == old(self).exprs@.len()
                &&& final(self).is_sysfunc1(id as int, sign_stamp(ext), x)
            },
    {
        let cur = self.expr_self_signed(x);
        if ext == cur {
            return x;
        }
        self.stamp_sign(x, ext)
    }

    /// The 4-state label match of a `case` flavor: `scrut === label` for a
    /// plain `case`, the wildcard matches for `casez` / `casex`.
    pub fn case_cmp(&mut self, scrut_id: u32, lbl_id: u32, kind: CaseKind) -> (id: u32)
        requires
            old(self).wf(),
            scrut_id < old(self).exprs@.len(),
            lbl_id < old(self).exprs@.len(),
            old(self).exprs@.len() < u32::MAX,
        ensures
            final(self).wf(),
            final(self).only_arena_changed(old(self)),
            final(self).consts == old(self).consts,
            final(self).exprs@ == old(self).exprs@.push(
                ir::Expr::Binary { op: case_op(kind), lhs: scrut_id, rhs: lbl_id },
            ),
            id == old(self).exprs@.len(),
    {
        let op = match kind {
            CaseKind::Case => BinOp::CaseEq,
            CaseKind::Casez => BinOp::CasezEq,
            CaseKind::Casex => BinOp::CasexEq,
        };
        self.push_expr(ir::Expr::Binary { op, lhs: scrut_id, rhs: lbl_id })
    }

    /// A real operand of a size cast is refused: reported once per cast
    /// (while `size_cast_real_reported` is clear) and replaced by the
    /// placeholder; any other operand is returned as it is.
    pub fn refuse_real_size_operand(&mut self, x: u32) -> (id: u32)
        requires
            old(self).wf(),
            old(self).exprs@.len() < u32::MAX,
            old(self).consts@.len() < u32::MAX,
        ensures
            final(self).wf(),
            !old(self).is_real(x as int) ==> id == x && *final(self) == *old(self),
            old(self).is_real(x as int) ==> {
                &&& final(self).size_cast_real_reported
                &&& final(self).arena_extends(old(self))
                &&& final(self).exprs@.len() == old(self).exprs@.len() + 1
                &&& id as int == old(self).exprs@.len()
                &&& final(self).is_const_node(id as int, 0, 1)
                &&& final(self).nets == old(self).nets
                &&& final(self).tables == old(self).tables
                &&& old(self).size_cast_real_reported ==> final(self).diags == old(self).diags
                    && final(self).had_error == old(self).had_error
                &&& !old(self).size_cast_real_reported ==> {
                    &&& final(self).had_error
                    &&& final(self).diags@.len() == old(self).diags@.len() + 1
                    &&& final(self).diags@.take(old(self).diags@.len() as int) == old(self).diags@
                    &&& final(self).diags@.last().code == MsgCode::ElabUnsupported
                    &&& final(self).diags@.last().message@ == real_size_cast_msg()
                }
            },
    {
        if !self.expr_is_real(x) {
            return x;
        }
        if !self.size_cast_real_reported {
            self.size_cast_real_reported = true;
            let ghost d0 = self.diags@;
            self.error(MsgCode::ElabUnsupported, "size cast is not defined on a real operand (use int'/longint')");
            proof {
                assert(self.diags@.take(d0.len() as int) =~= d0);
            }
        }
        self.placeholder_expr()
    }
}

/// Is `e` a context-determined operation a size cast must drive its width
/// into (arithmetic, bitwise, shift and power operators, unary `+ - ~`, the
/// conditional)? A leaf, a select, a concatenation or a comparison is
/// self-determined: the cast just resizes its value.
pub open spec fn size_ctx_operation(e: Expr) -> bool
    decreases e,
{
    match e {
        Expr::Paren(inner) => size_ctx_operation(*inner),
        Expr::Binary { op, .. } => match op {
            AstBinOp::Add | AstBinOp::Sub | AstBinOp::Mul | AstBinOp::Div | AstBinOp::Mod | AstBinOp::BitAnd
            | AstBinOp::BitOr | AstBinOp::BitXor | AstBinOp::BitXnor | AstBinOp::Shl | AstBinOp::Shr
            | AstBinOp::AShl | AstBinOp::AShr | AstBinOp::Pow => true,
            _ => false,
        },
        Expr::Unary { op, .. } => op == UnOp::Plus || op == UnOp::Minus || op == UnOp::BitNot,
        Expr::Ternary { .. } => true,
        _ => false,
    }
}

pub fn is_size_ctx_operation(e: &Expr) -> (r: bool)
    ensures
        r == size_ctx_operation(*e),
    decreases e,
{
    match e {
        Expr::Paren(inner) => is_size_ctx_operation(inner),
        Expr::Binary { op, .. } => match op {
            AstBinOp::Add | AstBinOp::Sub | AstBinOp::Mul | AstBinOp::Div | AstBinOp::Mod | AstBinOp::BitAnd
            | AstBinOp::BitOr | AstBinOp::BitXor | AstBinOp::BitXnor | AstBinOp::Shl | AstBinOp::Shr
            | AstBinOp::AShl | AstBinOp::AShr | AstBinOp::Pow => true,
            _ => false,
        },
        Expr::Unary { op, .. } => *op == UnOp::Plus || *op == UnOp::Minus || *op == UnOp::BitNot,
        Expr::Ternary { .. } => true,
        _ => false,
    }
}

/// The operands of a dynamic-array initializer: the elements of an
/// assignment pattern `'{…}` or of a concatenation `{…}`.
pub fn dyn_pattern_elems(init: &Expr) -> (r: Option<&Vec<Expr>>)
    ensures
        match *init {
            Expr::AssignPattern(parts) => r == Some(&parts),
            Expr::Concat(parts) => r == Some(&parts),
            _ => r is None,
        },
{
    match init {
        Expr::AssignPattern(parts) | Expr::Concat(parts) => Some(parts),
        _ => None,
    }
}

/// The return type of the first function of the table named `k`, if any.
pub open spec fn func_ret_type(es: Seq<FuncEntry>, k: Seq<char>) -> Option<ParamType>
    decreases es.len(),
{
    if es.len() == 0 {
        None
    } else if es[0].def.name@ == k {
        Some(es[0].def.ret_type)
    } else {
        func_ret_type(es.drop_first(), k)
    }
}

impl Elaborator {
    /// Does `e` reach a call of a `real`-returning function of the module
    /// through the positions realness propagates through (parentheses,
    /// unary `+ -`, binary `+ - * / **`, the branches of `?:`)?
    pub open spec fn has_real_call(&self, e: Expr) -> bool
        decreases e,
    {
        match e {
            Expr::Paren(inner) => self.has_real_call(*inner),
            Expr::Unary { op, operand } => (op == UnOp::Plus || op == UnOp::Minus) && self.has_real_call(*operand),
            Expr::Binary { op, lhs, rhs } => (op == AstBinOp::Add || op == AstBinOp::Sub || op == AstBinOp::Mul
                || op == AstBinOp::Div || op == AstBinOp::Pow) && (self.has_real_call(*lhs) || self.has_real_call(
                *rhs,
            )),
            Expr::Ternary { then_e, else_e, .. } => self.has_real_call(*then_e) || self.has_real_call(*else_e),
            Expr::Call { name, .. } => name.segments@.len() == 1 && match func_ret_type(
                self.tables.func_table@,
                name.segments@[0]@,
            ) {
                Some(t) => t == ParamType::Real || t == ParamType::Realtime,
                None => false,
            },
            _ => false,
        }
    }

    fn func_returns_real(&self, k: &String) -> (r: bool)
        ensures
            r == match func_ret_type(self.tables.func_table@, k@) {
                Some(t) => t == ParamType::Real || t == ParamType::Realtime,
                None => false,
            },
    {
        let es = &self.tables.func_table;
        let mut i: usize = 0;
        assert(es@.skip(0) =~= es@);
        while i < es.len()
            invariant
                i <= es@.len(),
                es == &self.tables.func_table,
                func_ret_type(es@, k@) == func_ret_type(es@.skip(i as int), k@),
            decreases es@.len() - i,
        {
            assert(es@.skip(i as int).drop_first() =~= es@.skip(i as int + 1));
            if es[i].def.name == *k {
                assert(es@.skip(i as int)[0] == es@[i as int]);
                let t = es[i].def.ret_type;
                return t == ParamType::Real || t == ParamType::Realtime;
            }
            i += 1;
        }
        false
    }

    pub fn ast_has_real_call(&self, e: &Expr) -> (r: bool)
        ensures
            r == self.has_real_call(*e),
        decreases e,
    {
        match e {
            Expr::Paren(inner) => self.ast_has_real_call(inner),
            Expr::Unary { op, operand } => (*op == UnOp::Plus || *op == UnOp::Minus) && self.ast_has_real_call(
                operand,
            ),
            Expr::Binary { op, lhs, rhs } => (*op == AstBinOp::Add || *op == AstBinOp::Sub || *op == AstBinOp::Mul
                || *op == AstBinOp::Div || *op == AstBinOp::Pow) && (self.ast_has_real_call(lhs)
                || self.ast_has_real_call(rhs)),
            Expr::Ternary { then_e, else_e, .. } => self.ast_has_real_call(then_e) || self.ast_has_real_call(
                else_e,
            ),
            Expr::Call { name, .. } => name.segments.len() == 1 && self.func_returns_real(&name.segments[0]),
            _ => false,
        }
    }

    /// Is a cast operand real: its lowered node is, or its source reaches a
    /// `real`-returning function call (a lowered call carries no real flag)?
    pub fn cast_operand_is_real(&self, operand: &Expr, eid: u32) -> (r: bool)
        requires
            self.wf(),
        ensures
            r == (self.is_real(eid as int) || self.has_real_call(*operand)),
    {
        self.expr_is_real(eid) || self.ast_has_real_call(operand)
    }
}

/// The diagnostic a binary operator with a real operand is refused with:
/// `%`, and the bitwise and shift operators, are not defined on reals.
pub open spec fn real_operand_refusal(op: BinOp) -> Option<Seq<char>> {
    match op {
        BinOp::Mod => Some("modulo (%) not defined on real operand"@),
        BinOp::BitAnd | BinOp::BitOr | BinOp::BitXor | BinOp::BitXnor | BinOp::Shl | BinOp::Shr | BinOp::AShl
        | BinOp::AShr => Some("bitwise/shift/reduction not defined on real operand"@),
        _ => None,
    }
}

impl Elaborator {
    /// Route a binary operator one of whose lowered operands is real: `**`
    /// becomes the `$pow` system function over both operands (its id is
    /// returned); `%` and the bitwise and shift operators are refused with one
    /// error and give `None`, so the caller still builds its node; any other
    /// operator, and two operands neither of which is real, give `None` and
    /// change nothing.
    pub fn binary_real_operand_route(&mut self, irop: BinOp, lhs: u32, rhs: u32) -> (r: Option<u32>)
        requires
            old(self).wf(),
            (lhs as int) < old(self).exprs@.len(),
            (rhs as int) < old(self).exprs@.len(),
            old(self).exprs@.len() < u32::MAX,
        ensures
            !(old(self).is_real(lhs as int) || old(self).is_real(rhs as int)) ==> r is None && *final(self) == *old(self),
            (old(self).is_real(lhs as int) || old(self).is_real(rhs as int)) && irop == BinOp::Pow ==> {
                &&& r == Some(old(self).exprs@.len() as u32)
                &&& final(self).wf()
                &&& final(self).exprs@.len() == old(self).exprs@.len() + 1
                &&& final(self).exprs@.drop_last() == old(self).exprs@
                &&& final(self).exprs@.last() matches ir::Expr::SysFunc { which, args } && which == SysFuncId::Pow
                    && args@ == seq![lhs, rhs]
                &&& final(self).diags == old(self).diags
                &&& final(self).had_error == old(self).had_error
                &&& final(self).consts == old(self).consts
                &&& final(self).nets == old(self).nets
                &&& final(self).tables == old(self).tables
                &&& final(self).bodies == old(self).bodies
                &&& final(self).func_metas == old(self).func_metas
                &&& final(self).canon == old(self).canon
                &&& final(self).repeatable == old(self).repeatable
                &&& final(self).size_cast_real_reported == old(self).size_cast_real_reported
            },
            (old(self).is_real(lhs as int) || old(self).is_real(rhs as int)) && irop != BinOp::Pow ==> {
                &&& r is None
                &&& real_operand_refusal(irop) is None ==> *final(self) == *old(self)
                &&& real_operand_refusal(irop) matches Some(m) ==> {
                    &&& final(self).had_error
                    &&& final(self).diags@.len() == old(self).diags@.len() + 1
                    &&& final(self).diags@.drop_last() == old(self).diags@
                    &&& final(self).diags@.last().severity == crate::elab::Severity::Error
                    &&& final(self).diags@.last().code == MsgCode::ElabUnsupported
                    &&& final(self).diags@.last().message@ == m
                    &&& final(self).exprs == old(self).exprs
                    &&& final(self).consts == old(self).consts
                    &&& final(self).nets == old(self).nets
                    &&& final(self).tables == old(self).tables
                    &&& final(self).bodies == old(self).bodies
                    &&& final(self).func_metas == old(self).func_metas
                    &&& final(self).canon == old(self).canon
                    &&& final(self).repeatable == old(self).repeatable
                    &&& final(self).size_cast_real_reported == old(self).size_cast_real_reported
                }
            },
    {
        if !(self.expr_is_real(lhs) || self.expr_is_real(rhs)) {
            return None;
        }
        match irop {
            BinOp::Mod => {
                self.error(MsgCode::ElabUnsupported, "modulo (%) not defined on real operand");
                assert(self.diags@.drop_last() =~= old(self).diags@);
            },
            BinOp::Pow => {
                let args: Vec<u32> = vec![lhs, rhs];
                assert(args@ =~= seq![lhs, rhs]);
                let id = self.push_expr(ir::Expr::SysFunc { which: SysFuncId::Pow, args });
                assert(self.exprs@.drop_last() =~= old(self).exprs@);
                return Some(id);
            },
            BinOp::BitAnd | BinOp::BitOr | BinOp::BitXor | BinOp::BitXnor | BinOp::Shl | BinOp::Shr | BinOp::AShl
            | BinOp::AShr => {
                self.error(MsgCode::ElabUnsupported, "bitwise/shift/reduction not defined on real operand");
                assert(self.diags@.drop_last() =~= old(self).diags@);
            },
            _ => {},
        }
        None
    }
}

} // verus!
