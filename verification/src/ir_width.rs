//! Self-determined width and sign of an already-lowered expression, the
//! engine's width-table rules mirrored over the partial arena.

use vstd::prelude::*;
use crate::names::contains_u32;
use crate::elab::{Elaborator, SelfWidth, arena_wf, operands_below};
use crate::ir;
use crate::ir::{BinOp, ConstRepr, NetKind, SelKind, SysFuncId, UnOp};

verus! {

/// How a system function's result width is decided.
pub enum SysWidth {
    /// a fixed intrinsic width
    Fixed(u32),
    /// the width of its first argument (`$signed`, `$unsigned`)
    FirstArg,
    /// the element/handle type decides it: not a constant here
    Unknown,
}

/// The result width of each system function.
pub open spec fn sysfunc_width(which: SysFuncId) -> SysWidth {
    match which {
        SysFuncId::Time | SysFuncId::Realtime | SysFuncId::Itor | SysFuncId::BitsToReal
        | SysFuncId::RealToBits | SysFuncId::StrAtoreal | SysFuncId::Ln | SysFuncId::Log10
        | SysFuncId::Exp | SysFuncId::Sqrt | SysFuncId::Pow | SysFuncId::Floor | SysFuncId::Ceil
        | SysFuncId::Sin | SysFuncId::Cos | SysFuncId::Tan | SysFuncId::Asin | SysFuncId::Acos
        | SysFuncId::Atan | SysFuncId::Atan2 | SysFuncId::Hypot | SysFuncId::Sinh
        | SysFuncId::Cosh | SysFuncId::Tanh | SysFuncId::Asinh | SysFuncId::Acosh
        | SysFuncId::Atanh => SysWidth::Fixed(64),
        SysFuncId::Signed | SysFuncId::Unsigned => SysWidth::FirstArg,
        SysFuncId::Clog2 | SysFuncId::Rtoi | SysFuncId::DynSize | SysFuncId::AssocNum
        | SysFuncId::AssocFirst | SysFuncId::AssocNext | SysFuncId::AssocLast
        | SysFuncId::AssocPrev | SysFuncId::Random | SysFuncId::Urandom
        | SysFuncId::UrandomRange | SysFuncId::CountOnes | SysFuncId::Stime | SysFuncId::Fopen
        | SysFuncId::TestPlusargs | SysFuncId::ValuePlusargs | SysFuncId::StrLen
        | SysFuncId::StrCmp | SysFuncId::Fgets | SysFuncId::Fscanf | SysFuncId::Sscanf
        | SysFuncId::Fread | SysFuncId::Feof | SysFuncId::Fgetc | SysFuncId::Ungetc
        | SysFuncId::DistUniform | SysFuncId::DistNormal | SysFuncId::DistExponential
        | SysFuncId::DistPoisson | SysFuncId::DistChiSquare | SysFuncId::DistT
        | SysFuncId::DistErlang | SysFuncId::Cast | SysFuncId::StrAtoi | SysFuncId::StrAtohex
        | SysFuncId::StrAtooct | SysFuncId::StrAtobin => SysWidth::Fixed(32),
        SysFuncId::AssocExists | SysFuncId::OneHot | SysFuncId::OneHot0
        | SysFuncId::IsUnknown => SysWidth::Fixed(1),
        SysFuncId::StrGetC => SysWidth::Fixed(8),
        _ => SysWidth::Unknown,
    }
}

fn sysfunc_width_exec(which: SysFuncId) -> (r: SysWidth)
    ensures
        r == sysfunc_width(which),
{
    match which {
        SysFuncId::Time | SysFuncId::Realtime | SysFuncId::Itor | SysFuncId::BitsToReal
        | SysFuncId::RealToBits | SysFuncId::StrAtoreal | SysFuncId::Ln | SysFuncId::Log10
        | SysFuncId::Exp | SysFuncId::Sqrt | SysFuncId::Pow | SysFuncId::Floor | SysFuncId::Ceil
        | SysFuncId::Sin | SysFuncId::Cos | SysFuncId::Tan | SysFuncId::Asin | SysFuncId::Acos
        | SysFuncId::Atan | SysFuncId::Atan2 | SysFuncId::Hypot | SysFuncId::Sinh
        | SysFuncId::Cosh | SysFuncId::Tanh | SysFuncId::Asinh | SysFuncId::Acosh
        | SysFuncId::Atanh => SysWidth::Fixed(64),
        SysFuncId::Signed | SysFuncId::Unsigned => SysWidth::FirstArg,
        SysFuncId::Clog2 | SysFuncId::Rtoi | SysFuncId::DynSize | SysFuncId::AssocNum
        | SysFuncId::AssocFirst | SysFuncId::AssocNext | SysFuncId::AssocLast
        | SysFuncId::AssocPrev | SysFuncId::Random | SysFuncId::Urandom
        | SysFuncId::UrandomRange | SysFuncId::CountOnes | SysFuncId::Stime | SysFuncId::Fopen
        | SysFuncId::TestPlusargs | SysFuncId::ValuePlusargs | SysFuncId::StrLen
        | SysFuncId::StrCmp | SysFuncId::Fgets | SysFuncId::Fscanf | SysFuncId::Sscanf
        | SysFuncId::Fread | SysFuncId::Feof | SysFuncId::Fgetc | SysFuncId::Ungetc
        | SysFuncId::DistUniform | SysFuncId::DistNormal | SysFuncId::DistExponential
        | SysFuncId::DistPoisson | SysFuncId::DistChiSquare | SysFuncId::DistT
        | SysFuncId::DistErlang | SysFuncId::Cast | SysFuncId::StrAtoi | SysFuncId::StrAtohex
        | SysFuncId::StrAtooct | SysFuncId::StrAtobin => SysWidth::Fixed(32),
        SysFuncId::AssocExists | SysFuncId::OneHot | SysFuncId::OneHot0
        | SysFuncId::IsUnknown => SysWidth::Fixed(1),
        SysFuncId::StrGetC => SysWidth::Fixed(8),
        _ => SysWidth::Unknown,
    }
}

/// The system functions whose result is signed.
pub open spec fn sysfunc_signed(which: SysFuncId) -> bool {
    match which {
        SysFuncId::Signed | SysFuncId::DynSize | SysFuncId::AssocNum | SysFuncId::AssocFirst
        | SysFuncId::AssocNext | SysFuncId::AssocLast | SysFuncId::AssocPrev | SysFuncId::Rtoi
        | SysFuncId::Stime => true,
        _ => false,
    }
}

/// The operators whose width is the wider operand's and whose sign is both
/// operands' (arithmetic and bitwise).
pub open spec fn is_arith_binop(op: BinOp) -> bool {
    match op {
        BinOp::Add | BinOp::Sub | BinOp::Mul | BinOp::Div | BinOp::Mod | BinOp::BitAnd
        | BinOp::BitOr | BinOp::BitXor | BinOp::BitXnor => true,
        _ => false,
    }
}

/// The operators whose width and sign are the left operand's (power, shifts).
pub open spec fn is_left_binop(op: BinOp) -> bool {
    match op {
        BinOp::Pow | BinOp::Shl | BinOp::Shr | BinOp::AShl | BinOp::AShr => true,
        _ => false,
    }
}

/// `+ - ~`: context-determined unary operators.
pub open spec fn is_ctx_unop(op: UnOp) -> bool {
    op == UnOp::Plus || op == UnOp::Minus || op == UnOp::BitNot
}

fn binop_is_arith(op: BinOp) -> (r: bool)
    ensures
        r == is_arith_binop(op),
{
    match op {
        BinOp::Add | BinOp::Sub | BinOp::Mul | BinOp::Div | BinOp::Mod | BinOp::BitAnd
        | BinOp::BitOr | BinOp::BitXor | BinOp::BitXnor => true,
        _ => false,
    }
}

fn binop_is_left(op: BinOp) -> (r: bool)
    ensures
        r == is_left_binop(op),
{
    match op {
        BinOp::Pow | BinOp::Shl | BinOp::Shr | BinOp::AShl | BinOp::AShr => true,
        _ => false,
    }
}

/// The larger of two widths.
pub open spec fn max_u32(a: u32, b: u32) -> u32 {
    if a >= b {
        a
    } else {
        b
    }
}

impl Elaborator {
    /// The low 64 bits of a numeric constant node `id`.
    pub open spec fn const_node_value(&self, id: int) -> Option<u64> {
        if 0 <= id < self.exprs@.len() {
            match self.exprs@[id] {
                ir::Expr::Const { val } => if (val as int) < self.consts@.len()
                    && self.consts@[val as int].repr == ConstRepr::Numeric {
                    Some(self.consts@[val as int].bits)
                } else {
                    None
                },
                _ => None,
            }
        } else {
            None
        }
    }

    /// A select's width operand folded: a numeric constant, or the
    /// synthesized `(msb - lsb) + 1` tree over constants.
    pub open spec fn width_edge(&self, id: int) -> Option<u32> {
        if 0 <= id < self.exprs@.len() {
            match self.exprs@[id] {
                ir::Expr::Const { .. } => match self.const_node_value(id) {
                    Some(v) => if v <= u32::MAX {
                        Some(v as u32)
                    } else {
                        None
                    },
                    None => None,
                },
                ir::Expr::Binary { op: BinOp::Add, lhs, rhs } => if 0 <= lhs < self.exprs@.len()
                    && self.const_node_value(rhs as int) == Some(1u64) {
                    match self.exprs@[lhs as int] {
                        ir::Expr::Binary { op: BinOp::Sub, lhs: m, rhs: l } => match (
                            self.const_node_value(m as int),
                            self.const_node_value(l as int),
                        ) {
                            (Some(mv), Some(lv)) => if mv >= lv && mv - lv + 1 <= u32::MAX {
                                Some((mv - lv + 1) as u32)
                            } else {
                                None
                            },
                            _ => None,
                        },
                        _ => None,
                    }
                } else {
                    None
                },
                _ => None,
            }
        } else {
            None
        }
    }

    fn const_node_value_exec(&self, id: u32) -> (r: Option<u64>)
        ensures
            r == self.const_node_value(id as int),
    {
        if (id as usize) < self.exprs.len() {
            match &self.exprs[id as usize] {
                ir::Expr::Const { val } => {
                    if (*val as usize) < self.consts.len() && self.consts[*val as usize].repr
                        == ConstRepr::Numeric {
                        Some(self.consts[*val as usize].bits)
                    } else {
                        None
                    }
                },
                _ => None,
            }
        } else {
            None
        }
    }

    /// Fold a select's width operand (see [`Self::width_edge`]).
    pub fn width_edge_u32(&self, id: u32) -> (r: Option<u32>)
        ensures
            r == self.width_edge(id as int),
    {
        if (id as usize) >= self.exprs.len() {
            return None;
        }
        match &self.exprs[id as usize] {
            ir::Expr::Const { .. } => match self.const_node_value_exec(id) {
                Some(v) => {
                    if v <= u32::MAX as u64 {
                        Some(v as u32)
                    } else {
                        None
                    }
                },
                None => None,
            },
            ir::Expr::Binary { op: BinOp::Add, lhs, rhs } => {
                if (*lhs as usize) < self.exprs.len() && self.const_node_value_exec(*rhs) == Some(
                    1u64,
                ) {
                    match &self.exprs[*lhs as usize] {
                        ir::Expr::Binary { op: BinOp::Sub, lhs: m, rhs: l } => {
                            match (self.const_node_value_exec(*m), self.const_node_value_exec(*l)) {
                                (Some(mv), Some(lv)) => {
                                    if mv >= lv && mv - lv < u32::MAX as u64 {
                                        Some((mv - lv + 1) as u32)
                                    } else {
                                        None
                                    }
                                },
                                _ => None,
                            }
                        },
                        _ => None,
                    }
                } else {
                    None
                }
            },
            _ => None,
        }
    }

    /// Self-determined width of the lowered node `eid` (as the engine's
    /// width table gives it); `None` where the width is not
    /// known here (a `string` net, an element-typed system function, an id
    /// outside the arena).
    pub open spec fn bits_of(&self, eid: int) -> Option<u32>
        decreases eid,
    {
        if !(0 <= eid < self.exprs@.len()) {
            None
        } else {
            match self.exprs@[eid] {
                ir::Expr::Const { val } => if (val as int) < self.consts@.len() {
                    Some(max_u32(self.consts@[val as int].width, 1))
                } else {
                    None
                },
                ir::Expr::Signal { net, .. } => if (net as int) < self.nets@.len() {
                    if self.nets@[net as int].kind == NetKind::String {
                        None
                    } else {
                        Some(max_u32(self.nets@[net as int].width, 1))
                    }
                } else {
                    None
                },
                ir::Expr::Select { width, kind, .. } => if kind == SelKind::Bit {
                    Some(1)
                } else {
                    self.width_edge(width as int)
                },
                ir::Expr::Concat { parts } => match self.sum_bits(parts@, eid) {
                    Some(s) => if s <= u32::MAX {
                        Some(s as u32)
                    } else {
                        None
                    },
                    None => None,
                },
                ir::Expr::Replicate { count, value } => if value < eid {
                    match (self.width_edge(count as int), self.bits_of(value as int)) {
                        (Some(c), Some(v)) => if c * v <= u32::MAX {
                            Some((c * v) as u32)
                        } else {
                            None
                        },
                        _ => None,
                    }
                } else {
                    None
                },
                ir::Expr::Unary { op, operand } => if is_ctx_unop(op) {
                    if operand < eid {
                        self.bits_of(operand as int)
                    } else {
                        None
                    }
                } else {
                    Some(1)
                },
                ir::Expr::Binary { op, lhs, rhs } => if is_arith_binop(op) {
                    if lhs < eid && rhs < eid {
                        match (self.bits_of(lhs as int), self.bits_of(rhs as int)) {
                            (Some(a), Some(b)) => Some(max_u32(a, b)),
                            _ => None,
                        }
                    } else {
                        None
                    }
                } else if is_left_binop(op) {
                    if lhs < eid {
                        self.bits_of(lhs as int)
                    } else {
                        None
                    }
                } else {
                    Some(1)
                },
                ir::Expr::Ternary { then_e, else_e, .. } => if then_e < eid && else_e < eid {
                    match (self.bits_of(then_e as int), self.bits_of(else_e as int)) {
                        (Some(a), Some(b)) => Some(max_u32(a, b)),
                        _ => None,
                    }
                } else {
                    None
                },
                ir::Expr::ArrayItem { width, .. } => Some(max_u32(width, 1)),
                ir::Expr::SysFunc { which, args } => match sysfunc_width(which) {
                    SysWidth::Fixed(w) => Some(w),
                    SysWidth::FirstArg => if args@.len() > 0 && args@[0] < eid {
                        self.bits_of(args@[0] as int)
                    } else {
                        None
                    },
                    SysWidth::Unknown => None,
                },
                ir::Expr::Call { func, .. } => if (func as int) < self.func_metas@.len() {
                    Some(max_u32(self.func_metas@[func as int].ret_width, 1))
                } else {
                    None
                },
            }
        }
    }

    /// The sum of the widths of `parts` (all operands of node `eid`); unknown
    /// when any part is.
    pub open spec fn sum_bits(&self, parts: Seq<u32>, eid: int) -> Option<int>
        decreases eid, parts.len(),
    {
        if parts.len() == 0 {
            Some(0)
        } else if parts.last() < eid {
            match (self.sum_bits(parts.drop_last(), eid), self.bits_of(parts.last() as int)) {
                (Some(a), Some(b)) => Some(a + b),
                _ => None,
            }
        } else {
            None
        }
    }

    proof fn lemma_sum_bits_prefix(&self, parts: Seq<u32>, i: int, eid: int)
        requires
            0 <= i <= parts.len(),
        ensures
            self.sum_bits(parts.take(i), eid) is None ==> self.sum_bits(parts, eid) is None,
            self.sum_bits(parts.take(i), eid) matches Some(a) ==> (self.sum_bits(
                parts,
                eid,
            ) matches Some(b) ==> a <= b),
        decreases parts.len() - i,
    {
        if i == parts.len() {
            assert(parts.take(i) =~= parts);
        } else {
            self.lemma_sum_bits_prefix(parts, i + 1, eid);
            assert(parts.take(i + 1).drop_last() =~= parts.take(i));
            self.lemma_sum_bits_nonneg(parts.take(i), eid);
        }
    }

    proof fn lemma_sum_bits_nonneg(&self, parts: Seq<u32>, eid: int)
        ensures
            self.sum_bits(parts, eid) matches Some(a) ==> a >= 0,
        decreases parts.len(),
    {
        if parts.len() > 0 {
            self.lemma_sum_bits_nonneg(parts.drop_last(), eid);
        }
    }

    /// Self-determined width of an already-lowered expression, mirroring the
    /// engine's width table over the partial arena. `None` ⇒ loud at the caller.
    pub fn ir_bits_of(&self, eid: u32) -> (r: Option<u32>)
        requires
            self.wf(),
        ensures
            r == self.bits_of(eid as int),
        decreases eid,
    {
        if (eid as usize) >= self.exprs.len() {
            return None;
        }
        proof {
            assert(operands_below(self.exprs@[eid as int], eid as int));
        }
        match &self.exprs[eid as usize] {
            ir::Expr::Const { val } => {
                if (*val as usize) < self.consts.len() {
                    let w = self.consts[*val as usize].width;
                    Some(
                        if w >= 1 {
                            w
                        } else {
                            1
                        },
                    )
                } else {
                    None
                }
            },
            ir::Expr::Signal { net, .. } => {
                if (*net as usize) < self.nets.len() {
                    let nv = self.nets[*net as usize];
                    if nv.kind == NetKind::String {
                        None
                    } else {
                        Some(
                            if nv.width >= 1 {
                                nv.width
                            } else {
                                1
                            },
                        )
                    }
                } else {
                    None
                }
            },
            ir::Expr::Select { width, kind, .. } => {
                if *kind == SelKind::Bit {
                    Some(1)
                } else {
                    self.width_edge_u32(*width)
                }
            },
            ir::Expr::Concat { parts } => {
                let mut s: u32 = 0;
                let mut i: usize = 0;
                assert(parts@.take(0) =~= Seq::<u32>::empty());
                while i < parts.len()
                    invariant
                        self.wf(),
                        (eid as int) < self.exprs@.len(),
                        self.exprs@[eid as int] == (ir::Expr::Concat { parts: *parts }),
                        i <= parts@.len(),
                        forall|k: int| 0 <= k < parts@.len() ==> #[trigger] parts@[k] < eid,
                        self.sum_bits(parts@.take(i as int), eid as int) == Some(s as int),
                    decreases parts@.len() - i,
                {
                    assert(parts@.take(i as int + 1).drop_last() =~= parts@.take(i as int));
                    assert(parts@.take(i as int + 1).last() == parts@[i as int]);
                    let p = parts[i];
                    let w = match self.ir_bits_of(p) {
                        Some(w) => w,
                        None => {
                            proof {
                                self.lemma_sum_bits_prefix(parts@, i as int + 1, eid as int);
                            }
                            return None;
                        },
                    };
                    if s > u32::MAX - w {
                        proof {
                            self.lemma_sum_bits_prefix(parts@, i as int + 1, eid as int);
                        }
                        return None;
                    }
                    s = s + w;
                    i += 1;
                }
                assert(parts@.take(i as int) =~= parts@);
                Some(s)
            },
            ir::Expr::Replicate { count, value } => {
                let c = match self.width_edge_u32(*count) {
                    Some(c) => c,
                    None => return None,
                };
                let v = match self.ir_bits_of(*value) {
                    Some(v) => v,
                    None => return None,
                };
                proof {
                    assert((c as u64) * (v as u64) <= u32::MAX as int * u32::MAX as int) by (nonlinear_arith)
                        requires
                            c <= u32::MAX,
                            v <= u32::MAX,
                    ;
                }
                let prod: u64 = c as u64 * v as u64;
                if prod <= u32::MAX as u64 {
                    Some(prod as u32)
                } else {
                    None
                }
            },
            ir::Expr::Unary { op, operand } => {
                if *op == UnOp::Plus || *op == UnOp::Minus || *op == UnOp::BitNot {
                    self.ir_bits_of(*operand)
                } else {
                    Some(1)
                }
            },
            ir::Expr::Binary { op, lhs, rhs } => {
                if binop_is_arith(*op) {
                    let a = match self.ir_bits_of(*lhs) {
                        Some(a) => a,
                        None => return None,
                    };
                    let b = match self.ir_bits_of(*rhs) {
                        Some(b) => b,
                        None => return None,
                    };
                    Some(
                        if a >= b {
                            a
                        } else {
                            b
                        },
                    )
                } else if binop_is_left(*op) {
                    self.ir_bits_of(*lhs)
                } else {
                    Some(1)
                }
            },
            ir::Expr::Ternary { then_e, else_e, .. } => {
                let a = match self.ir_bits_of(*then_e) {
                    Some(a) => a,
                    None => return None,
                };
                let b = match self.ir_bits_of(*else_e) {
                    Some(b) => b,
                    None => return None,
                };
                Some(
                    if a >= b {
                        a
                    } else {
                        b
                    },
                )
            },
            ir::Expr::ArrayItem { width, .. } => Some(
                if *width >= 1 {
                    *width
                } else {
                    1
                },
            ),
            ir::Expr::SysFunc { which, args } => match sysfunc_width_exec(*which) {
                SysWidth::Fixed(w) => Some(w),
                SysWidth::FirstArg => {
                    if args.len() > 0 {
                        self.ir_bits_of(args[0])
                    } else {
                        None
                    }
                },
                SysWidth::Unknown => None,
            },
            ir::Expr::Call { func, .. } => {
                if (*func as usize) < self.func_metas.len() {
                    let w = self.func_metas[*func as usize].ret_width;
                    Some(
                        if w >= 1 {
                            w
                        } else {
                            1
                        },
                    )
                } else {
                    None
                }
            },
        }
    }

    /// Self-determined signedness of the lowered node `eid`:
    /// selects, concatenations and 1-bit results are unsigned, `+ - ~`
    /// follow the operand, arithmetic and bitwise operators need both operands
    /// signed, power and shifts follow the left operand, and a call is read
    /// as unsigned.
    pub open spec fn self_signed(&self, eid: int) -> bool
        decreases eid,
    {
        if !(0 <= eid < self.exprs@.len()) {
            false
        } else {
            match self.exprs@[eid] {
                ir::Expr::Const { val } => (val as int) < self.consts@.len() && (
                self.consts@[val as int].repr == ConstRepr::Real || (self.consts@[val as int].repr
                    == ConstRepr::Numeric && self.consts@[val as int].signed)),
                ir::Expr::Signal { net, .. } => (net as int) < self.nets@.len()
                    && self.nets@[net as int].signed,
                ir::Expr::ArrayItem { signed, .. } => signed,
                ir::Expr::Select { .. } | ir::Expr::Concat { .. } | ir::Expr::Replicate {
                    ..
                } => false,
                ir::Expr::Unary { op, operand } => is_ctx_unop(op) && operand < eid
                    && self.self_signed(operand as int),
                ir::Expr::Binary { op, lhs, rhs } => if is_arith_binop(op) {
                    lhs < eid && rhs < eid && self.self_signed(lhs as int) && self.self_signed(
                        rhs as int,
                    )
                } else if is_left_binop(op) {
                    lhs < eid && self.self_signed(lhs as int)
                } else {
                    false
                },
                ir::Expr::Ternary { then_e, else_e, .. } => then_e < eid && else_e < eid
                    && self.self_signed(then_e as int) && self.self_signed(else_e as int),
                ir::Expr::SysFunc { which, .. } => sysfunc_signed(which),
                ir::Expr::Call { .. } => false,
            }
        }
    }

    /// Self-determined signedness of an already-lowered expression.
    pub fn expr_self_signed(&self, eid: u32) -> (r: bool)
        requires
            self.wf(),
        ensures
            r == self.self_signed(eid as int),
        decreases eid,
    {
        if (eid as usize) >= self.exprs.len() {
            return false;
        }
        proof {
            assert(operands_below(self.exprs@[eid as int], eid as int));
        }
        match &self.exprs[eid as usize] {
            ir::Expr::Const { val } => {
                (*val as usize) < self.consts.len() && (self.consts[*val as usize].repr
                    == ConstRepr::Real || (self.consts[*val as usize].repr == ConstRepr::Numeric
                    && self.consts[*val as usize].signed))
            },
            ir::Expr::Signal { net, .. } => (*net as usize) < self.nets.len()
                && self.nets[*net as usize].signed,
            ir::Expr::ArrayItem { signed, .. } => *signed,
            ir::Expr::Select { .. } | ir::Expr::Concat { .. } | ir::Expr::Replicate {
                ..
            } => false,
            ir::Expr::Unary { op, operand } => {
                (*op == UnOp::Plus || *op == UnOp::Minus || *op == UnOp::BitNot)
                    && self.expr_self_signed(*operand)
            },
            ir::Expr::Binary { op, lhs, rhs } => {
                if binop_is_arith(*op) {
                    self.expr_self_signed(*lhs) && self.expr_self_signed(*rhs)
                } else if binop_is_left(*op) {
                    self.expr_self_signed(*lhs)
                } else {
                    false
                }
            },
            ir::Expr::Ternary { then_e, else_e, .. } => self.expr_self_signed(*then_e)
                && self.expr_self_signed(*else_e),
            ir::Expr::SysFunc { which, .. } => match which {
                SysFuncId::Signed | SysFuncId::DynSize | SysFuncId::AssocNum
                | SysFuncId::AssocFirst | SysFuncId::AssocNext | SysFuncId::AssocLast
                | SysFuncId::AssocPrev | SysFuncId::Rtoi | SysFuncId::Stime => true,
                _ => false,
            },
            ir::Expr::Call { .. } => false,
        }
    }

    /// Does subroutine `f` return a `real` (its return slot is a real net)?
    pub open spec fn func_ret_is_real(&self, f: int) -> bool {
        0 <= f < self.func_metas@.len() && {
            let m = self.func_metas@[f];
            let n = m.base_net + m.return_slot;
            n < self.nets@.len() && self.nets@[n].kind == NetKind::Real
        }
    }

    /// Is the lowered node `eid` real-valued? A hierarchical read of a
    /// `real` declaration, a real constant, a real net, an element of a
    /// dynamic array of reals, a real-returning system function or call, and
    /// `+ -` unary, `+ - * / **` binary and `?:` over a real operand.
    pub open spec fn is_real(&self, eid: int) -> bool
        decreases eid,
    {
        if !(0 <= eid < self.exprs@.len()) {
            false
        } else if self.tables.hier_real@.contains(eid as u32) {
            true
        } else {
            match self.exprs@[eid] {
                ir::Expr::Const { val } => (val as int) < self.consts@.len()
                    && self.consts@[val as int].repr == ConstRepr::Real,
                ir::Expr::Signal { net, word } => ((net as int) < self.nets@.len()
                    && self.nets@[net as int].kind == NetKind::Real) || (word is Some
                    && self.tables.real_elem_dyn_nets@.contains(net)),
                ir::Expr::Unary { op, operand } => (op == UnOp::Plus || op == UnOp::Minus)
                    && operand < eid && self.is_real(operand as int),
                ir::Expr::Binary { op, lhs, rhs } => is_real_arith(op) && lhs < eid && rhs < eid
                    && (self.is_real(lhs as int) || self.is_real(rhs as int)),
                ir::Expr::Ternary { then_e, else_e, .. } => then_e < eid && else_e < eid && (
                self.is_real(then_e as int) || self.is_real(else_e as int)),
                ir::Expr::SysFunc { which, .. } => sysfunc_is_real(which),
                ir::Expr::Call { func, .. } => self.func_ret_is_real(func as int),
                _ => false,
            }
        }
    }

    /// Static realness of an already-lowered expression.
    pub fn expr_is_real(&self, eid: u32) -> (r: bool)
        requires
            self.wf(),
        ensures
            r == self.is_real(eid as int),
        decreases eid,
    {
        if (eid as usize) >= self.exprs.len() {
            return false;
        }
        if contains_u32(&self.tables.hier_real, eid) {
            return true;
        }
        proof {
            assert(operands_below(self.exprs@[eid as int], eid as int));
        }
        match &self.exprs[eid as usize] {
            ir::Expr::Const { val } => (*val as usize) < self.consts.len()
                && self.consts[*val as usize].repr == ConstRepr::Real,
            ir::Expr::Signal { net, word } => ((*net as usize) < self.nets.len()
                && self.nets[*net as usize].kind == NetKind::Real) || (word.is_some()
                && contains_u32(&self.tables.real_elem_dyn_nets, *net)),
            ir::Expr::Unary { op, operand } => (*op == UnOp::Plus || *op == UnOp::Minus)
                && self.expr_is_real(*operand),
            ir::Expr::Binary { op, lhs, rhs } => {
                (*op == BinOp::Add || *op == BinOp::Sub || *op == BinOp::Mul || *op == BinOp::Div
                    || *op == BinOp::Pow) && (self.expr_is_real(*lhs) || self.expr_is_real(*rhs))
            },
            ir::Expr::Ternary { then_e, else_e, .. } => self.expr_is_real(*then_e)
                || self.expr_is_real(*else_e),
            ir::Expr::SysFunc { which, .. } => sysfunc_is_real_exec(*which),
            ir::Expr::Call { func, .. } => {
                if (*func as usize) < self.func_metas.len() {
                    let m = self.func_metas[*func as usize];
                    let n: u64 = m.base_net as u64 + m.return_slot as u64;
                    n < self.nets.len() as u64 && self.nets[n as usize].kind == NetKind::Real
                } else {
                    false
                }
            },
            _ => false,
        }
    }

    /// The context a lowered SIBLING lends to a fill-bearing operand: the
    /// wider of the enclosing context and the sibling's own width (32 when
    /// unknown) — nothing at all when the sibling is real.
    pub open spec fn sibling_ctx_spec(&self, base: u32, sibling: int) -> u32 {
        if self.is_real(sibling) {
            0
        } else {
            max_u32(
                base,
                match self.bits_of(sibling) {
                    Some(w) => w,
                    None => 32,
                },
            )
        }
    }

    pub fn sibling_ctx(&self, base: u32, sibling: u32) -> (r: u32)
        requires
            self.wf(),
        ensures
            r == self.sibling_ctx_spec(base, sibling as int),
    {
        if self.expr_is_real(sibling) {
            return 0;
        }
        let w = match self.ir_bits_of(sibling) {
            Some(w) => w,
            None => 32,
        };
        if base >= w {
            base
        } else {
            w
        }
    }

    /// The canonical shape recorded for `e`, if any.
    pub open spec fn canon_of(&self, e: int) -> Option<SelfWidth> {
        if 0 <= e < self.canon@.len() {
            self.canon@[e]
        } else {
            None
        }
    }

    fn canonical_self_width(&self, e: u32) -> (r: Option<SelfWidth>)
        ensures
            r == self.canon_of(e as int),
    {
        if (e as usize) < self.canon.len() {
            self.canon[e as usize]
        } else {
            None
        }
    }

    /// `e`'s self width when it can be TRUSTED: the mirror answers, and the
    /// canonical rule, where it answers, agrees.
    pub open spec fn trusted_width(&self, e: int) -> Option<u32> {
        match self.bits_of(e) {
            Some(known) => match self.canon_of(e) {
                Some(c) => if c.width == known {
                    Some(known)
                } else {
                    None
                },
                None => Some(known),
            },
            None => None,
        }
    }

    pub fn trusted_self_width(&self, e: u32) -> (r: Option<u32>)
        requires
            self.wf(),
        ensures
            r == self.trusted_width(e as int),
    {
        let known = match self.ir_bits_of(e) {
            Some(k) => k,
            None => return None,
        };
        match self.canonical_self_width(e) {
            Some(c) => {
                if c.width == known {
                    Some(known)
                } else {
                    None
                }
            },
            None => Some(known),
        }
    }

    /// Does some chunk of the lowered target write a `real` net?
    pub open spec fn targets_real(&self, lv: ir::Lvalue) -> bool {
        exists|i: int|
            0 <= i < lv.chunks@.len() && (#[trigger] lv.chunks@[i]).net < self.nets@.len()
                && self.nets@[lv.chunks@[i].net as int].kind == NetKind::Real
    }

    /// Does this lvalue write a `real`? (A real target has no bit width to
    /// lend a fill.)
    pub fn lvalue_targets_real(&self, lv: &ir::Lvalue) -> (r: bool)
        ensures
            r == self.targets_real(*lv),
    {
        let mut i: usize = 0;
        while i < lv.chunks.len()
            invariant
                i <= lv.chunks@.len(),
                forall|j: int|
                    0 <= j < i ==> !((#[trigger] lv.chunks@[j]).net < self.nets@.len()
                        && self.nets@[lv.chunks@[j].net as int].kind == NetKind::Real),
            decreases lv.chunks@.len() - i,
        {
            let n = lv.chunks[i].net;
            if (n as usize) < self.nets.len() && self.nets[n as usize].kind == NetKind::Real {
                return true;
            }
            i += 1;
        }
        false
    }
}

/// The binary operators through which realness propagates.
pub open spec fn is_real_arith(op: BinOp) -> bool {
    op == BinOp::Add || op == BinOp::Sub || op == BinOp::Mul || op == BinOp::Div || op == BinOp::Pow
}

/// The system functions returning a `real`.
pub open spec fn sysfunc_is_real(which: SysFuncId) -> bool {
    match which {
        SysFuncId::Realtime | SysFuncId::Itor | SysFuncId::BitsToReal | SysFuncId::StrAtoreal
        | SysFuncId::Ln | SysFuncId::Log10 | SysFuncId::Exp | SysFuncId::Sqrt | SysFuncId::Pow
        | SysFuncId::Floor | SysFuncId::Ceil | SysFuncId::Sin | SysFuncId::Cos | SysFuncId::Tan
        | SysFuncId::Asin | SysFuncId::Acos | SysFuncId::Atan | SysFuncId::Atan2
        | SysFuncId::Hypot | SysFuncId::Sinh | SysFuncId::Cosh | SysFuncId::Tanh
        | SysFuncId::Asinh | SysFuncId::Acosh | SysFuncId::Atanh => true,
        _ => false,
    }
}

fn sysfunc_is_real_exec(which: SysFuncId) -> (r: bool)
    ensures
        r == sysfunc_is_real(which),
{
    match which {
        SysFuncId::Realtime | SysFuncId::Itor | SysFuncId::BitsToReal | SysFuncId::StrAtoreal
        | SysFuncId::Ln | SysFuncId::Log10 | SysFuncId::Exp | SysFuncId::Sqrt | SysFuncId::Pow
        | SysFuncId::Floor | SysFuncId::Ceil | SysFuncId::Sin | SysFuncId::Cos | SysFuncId::Tan
        | SysFuncId::Asin | SysFuncId::Acos | SysFuncId::Atan | SysFuncId::Atan2
        | SysFuncId::Hypot | SysFuncId::Sinh | SysFuncId::Cosh | SysFuncId::Tanh
        | SysFuncId::Asinh | SysFuncId::Acosh | SysFuncId::Atanh => true,
        _ => false,
    }
}

} // verus!
