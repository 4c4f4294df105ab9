//! The lowered form: an arena of expressions addressed by id, constants,
//! nets, statements and control-flow blocks of subroutine bodies.

use vstd::prelude::*;

verus! {

/// Unary operators of the lowered form.
#[derive(Clone, Copy, PartialEq, Eq, Structural, Debug)]
pub enum UnOp {
    Plus,
    Minus,
    LogNot,
    BitNot,
    RedAnd,
    RedNand,
    RedOr,
    RedNor,
    RedXor,
    RedXnor,
}

/// Binary operators of the lowered form.
#[derive(Clone, Copy, PartialEq, Eq, Structural, Debug)]
pub enum BinOp {
    Add,
    Sub,
    Mul,
    Div,
    Mod,
    Pow,
    Shl,
    Shr,
    AShl,
    AShr,
    Lt,
    Le,
    Gt,
    Ge,
    Eq,
    Ne,
    CaseEq,
    CaseNe,
    CasezEq,
    CasexEq,
    BitAnd,
    BitXor,
    BitXnor,
    BitOr,
    LogAnd,
    LogOr,
}

/// Edge kinds of a sensitivity term.
#[derive(Clone, Copy, PartialEq, Eq, Structural, Debug)]
pub enum EdgeKind {
    Posedge,
    Negedge,
    AnyEdge,
}

/// System functions of the lowered form.
#[derive(Clone, Copy, PartialEq, Eq, Structural, Debug)]
pub enum SysFuncId {
    Time,
    Realtime,
    Itor,
    BitsToReal,
    RealToBits,
    StrAtoreal,
    Ln,
    Log10,
    Exp,
    Sqrt,
    Pow,
    Floor,
    Ceil,
    Sin,
    Cos,
    Tan,
    Asin,
    Acos,
    Atan,
    Atan2,
    Hypot,
    Sinh,
    Cosh,
    Tanh,
    Asinh,
    Acosh,
    Atanh,
    Signed,
    Unsigned,
    Clog2,
    Rtoi,
    DynSize,
    AssocNum,
    AssocFirst,
    AssocNext,
    AssocLast,
    AssocPrev,
    Random,
    Urandom,
    UrandomRange,
    CountOnes,
    Stime,
    Fopen,
    TestPlusargs,
    ValuePlusargs,
    StrLen,
    StrCmp,
    Fgets,
    Fscanf,
    Sscanf,
    Fread,
    Feof,
    Fgetc,
    Ungetc,
    DistUniform,
    DistNormal,
    DistExponential,
    DistPoisson,
    DistChiSquare,
    DistT,
    DistErlang,
    Cast,
    StrAtoi,
    StrAtohex,
    StrAtooct,
    StrAtobin,
    AssocExists,
    OneHot,
    OneHot0,
    IsUnknown,
    StrGetC,
    QPopBack,
    QPopFront,
    Sformatf,
    StrSubstr,
    StrToUpper,
    StrToLower,
    ArrSum,
    ArrProduct,
    ArrAnd,
    ArrOr,
    ArrXor,
    StrCast,
    RealToInt,
}

/// Kinds of a select node.
#[derive(Clone, Copy, PartialEq, Eq, Structural, Debug)]
pub enum SelKind {
    Bit,
    Part,
    Indexed,
}

/// One node of the expression arena. Operands are ids of earlier nodes.
#[derive(Debug)]
pub enum Expr {
    Const { val: u32 },
    Signal { net: u32, word: Option<u32> },
    Select { base: u32, offset: u32, width: u32, kind: SelKind },
    Concat { parts: Vec<u32> },
    Replicate { count: u32, value: u32 },
    Unary { op: UnOp, operand: u32 },
    Binary { op: BinOp, lhs: u32, rhs: u32 },
    Ternary { cond: u32, then_e: u32, else_e: u32 },
    ArrayItem { width: u32, signed: bool },
    SysFunc { which: SysFuncId, args: Vec<u32> },
    Call { func: u32, args: Vec<u32> },
}

/// How a constant's bits are to be read.
#[derive(Clone, Copy, PartialEq, Eq, Structural, Debug)]
pub enum ConstRepr {
    Numeric,
    Real,
    Str,
}

/// A constant: its width, sign, reading, and its low 64 bits.
#[derive(Clone, Copy, PartialEq, Eq, Structural, Debug)]
pub struct ConstVal {
    pub width: u32,
    pub signed: bool,
    pub repr: ConstRepr,
    pub bits: u64,
}

/// Storage kinds of a net.
#[derive(Clone, Copy, PartialEq, Eq, Structural, Debug)]
pub enum NetKind {
    Wire,
    Reg,
    Integer,
    Real,
    String,
    Event,
    DynArray,
    Queue,
    Assoc,
    AssocStr,
}

/// A declared net: kind, width (of one element for an array) and sign.
#[derive(Clone, Copy, PartialEq, Eq, Structural, Debug)]
pub struct NetVar {
    pub kind: NetKind,
    pub width: u32,
    pub signed: bool,
}

/// What the elaborator records about one subroutine given a frame.
#[derive(Clone, Copy, PartialEq, Eq, Structural, Debug)]
pub struct FuncMeta {
    /// first net of its frame-local range
    pub base_net: u32,
    /// number of frame-local nets
    pub locals_len: u32,
    /// the return slot, relative to `base_net`
    pub return_slot: u32,
    /// declared return width
    pub ret_width: u32,
    pub is_automatic: bool,
    pub has_hier_call: bool,
    /// a lifted task whose `join` fork shares the parent's window
    pub contains_shared_fork: bool,
}

/// One chunk of a lowered assignment target.
#[derive(Clone, Copy, PartialEq, Eq, Structural, Debug)]
pub struct LvChunk {
    pub net: u32,
    /// array word selected, if any
    pub word: Option<u32>,
    /// bit offset of a part/bit write, if any
    pub offset: Option<u32>,
    /// width of a part/bit write, if any
    pub width: Option<u32>,
}

/// A lowered assignment target.
#[derive(Debug)]
pub struct Lvalue {
    pub chunks: Vec<LvChunk>,
}

/// What a `disable` names.
#[derive(Clone, Copy, PartialEq, Eq, Structural, Debug)]
pub enum DisableKind {
    Scope,
    Fork,
}

/// System tasks of the lowered form.
#[derive(Clone, Copy, PartialEq, Eq, Structural, Debug)]
pub enum SysTaskId {
    Display,
    Write,
    DynNew,
    DynDelete,
    QPushBack,
    QPushFront,
    AssocDeleteKey,
    QDeleteIdx,
    QInsert,
    ArrSort,
    ArrRsort,
    ArrReverse,
    Other,
}

/// Lowered statements.
#[derive(Debug)]
pub enum Stmt {
    BlockingAssign { lhs: Lvalue, rhs: u32 },
    NonblockingAssign { lhs: Lvalue, rhs: u32 },
    Disable { scope_kind: DisableKind },
    SysTask { which: SysTaskId, args: Vec<u32> },
    /// force / release / any other statement
    Other,
}

/// What a `Wait` terminator waits for.
#[derive(Debug)]
pub enum WaitCause {
    Edge { net: u32, kind: EdgeKind },
    Level { nets: Vec<u32> },
    Named { ev: u32 },
    Expr { expr: u32 },
    Fork,
}

/// How a control-flow block ends.
#[derive(Debug)]
pub enum Terminator {
    Goto { target: u32 },
    Branch { cond: u32, then_bb: u32, else_bb: u32 },
    Return,
    Call { func: u32, ret_bb: u32 },
    Delay { amount: u32, resume: u32 },
    Wait { cond: WaitCause, resume: u32 },
    Fork { children: Vec<u32>, join: u32, resume_bb: u32 },
}

/// A control-flow block: statement ids, then a terminator.
#[derive(Debug)]
pub struct Block {
    pub stmts: Vec<u32>,
    pub term: Terminator,
}

/// Kinds of process sensitivity.
#[derive(Clone, Copy, PartialEq, Eq, Structural, Debug)]
pub enum SensKind {
    Initial,
    Comb,
    Latch,
    Level,
    Edge,
}

/// One term of a lowered event list: the net it senses and its edge.
#[derive(Clone, Copy, PartialEq, Eq, Structural, Debug)]
pub struct EdgeTerm {
    pub net: u32,
    pub kind: EdgeKind,
}

/// A lowered process sensitivity: its kind and its terms, in source order.
#[derive(Debug)]
pub struct Sensitivity {
    pub kind: SensKind,
    pub edges: Vec<EdgeTerm>,
}

} // verus!
