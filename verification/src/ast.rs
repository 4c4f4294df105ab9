//! The source-language tree the elaborator reads: expressions, lvalues,
//! statements and the declarations that the width, sign and frame questions
//! consult. Only what those questions look at is held; source spans are not.

use vstd::prelude::*;

verus! {

/// Unary operators.
#[derive(Clone, Copy, PartialEq, Eq, Structural, Debug)]
pub enum UnOp {
    Plus,
    Minus,
    LogNot,
    BitNot,
    RedAnd,
    RedNand,
    RedOr,
    RedNor,
    RedXor,
    RedXnor,
}

/// Binary operators.
#[derive(Clone, Copy, PartialEq, Eq, Structural, Debug)]
pub enum BinOp {
    Add,
    Sub,
    Mul,
    Div,
    Mod,
    Pow,
    Shl,
    Shr,
    AShl,
    AShr,
    Lt,
    Le,
    Gt,
    Ge,
    Eq,
    Ne,
    CaseEq,
    CaseNe,
    WildEq,
    WildNe,
    BitAnd,
    BitXor,
    BitXnor,
    BitOr,
    LogAnd,
    LogOr,
}

/// How an integer literal is spelled.
#[derive(Clone, Copy, PartialEq, Eq, Structural, Debug)]
pub enum IntLitKind {
    /// `42`
    Decimal,
    /// `8'hff`, `4'sd3`
    Sized,
    /// `'hff`, `'1` (unsized based, fills included)
    Based,
}

/// What the literal parser reads off an integer literal: its width and sign.
#[derive(Clone, Copy, PartialEq, Eq, Structural, Debug)]
pub struct LitShape {
    pub width: u32,
    pub signed: bool,
}

/// An integer literal as the parser hands it over: its spelling kind, its
/// parsed shape (`None` for a malformed literal), its value where it fits an
/// `i64` and holds no x/z bit, and whether it is an unsized fill
/// (`'0 '1 'x 'z`).
#[derive(Clone, Copy, PartialEq, Eq, Structural, Debug)]
pub struct IntLit {
    pub kind: IntLitKind,
    pub parsed: Option<LitShape>,
    pub value: Option<i64>,
    pub fill: bool,
}

/// Direction of an indexed part-select (`+:` / `-:`).
#[derive(Clone, Copy, PartialEq, Eq, Structural, Debug)]
pub enum PartDir {
    Up,
    Down,
}

/// Primitive casting types (`int'(e)` and friends).
#[derive(Clone, Copy, PartialEq, Eq, Structural, Debug)]
pub enum CastPrim {
    Int,
    Integer,
    Byte,
    Shortint,
    Longint,
    Bit,
    Logic,
    Reg,
    Time,
    Real,
}

/// The flavor of a `case` statement.
#[derive(Clone, Copy, PartialEq, Eq, Structural, Debug)]
pub enum CaseKind {
    Case,
    Casez,
    Casex,
}

/// A dotted name `a.b.c` (one segment for a plain name).
#[derive(Debug)]
pub struct HierPath {
    pub segments: Vec<String>,
}

/// The system functions whose name the elaborator's questions test for.
#[derive(Debug)]
pub enum SysName {
    Clog2,
    Signed,
    Unsigned,
    Cast,
    Other(String),
}

/// The target of a static cast `T'(e)`.
#[derive(Debug)]
pub enum CastTarget {
    Signing { signed: bool },
    SigningParam { shape_param: String },
    Size(Box<Expr>),
    Prim(CastPrim),
    Named(HierPath),
}

/// Expressions.
#[derive(Debug)]
pub enum Expr {
    IntLit(IntLit),
    RealLit,
    StrLit,
    TimeLit,
    Null,
    Dollar,
    Ident(HierPath),
    PkgScoped { pkg: String, name: String },
    Paren(Box<Expr>),
    Unary { op: UnOp, operand: Box<Expr> },
    Binary { op: BinOp, lhs: Box<Expr>, rhs: Box<Expr> },
    Ternary { cond: Box<Expr>, then_e: Box<Expr>, else_e: Box<Expr> },
    BitSelect { base: Box<Expr>, index: Box<Expr> },
    PartSelect { base: Box<Expr>, msb: Box<Expr>, lsb: Box<Expr> },
    IndexedPart { base: Box<Expr>, offset: Box<Expr>, width: Box<Expr>, dir: PartDir },
    Concat(Vec<Expr>),
    Replicate { count: Box<Expr>, value: Vec<Expr> },
    Call { name: HierPath, args: Vec<Expr> },
    SysCall { name: SysName, args: Vec<Expr> },
    Cast { target: CastTarget, expr: Box<Expr> },
    MinTypMax { min: Box<Expr>, typ: Box<Expr>, max: Box<Expr> },
    AssignPattern(Vec<Expr>),
    NamedArg { formal: String, value: Option<Box<Expr>> },
    /// `new[size]`: a dynamic array of `size` elements.
    New { size: Box<Expr> },
    /// Every other form (method calls, `dist`, streaming, …): none of
    /// the questions asked here looks inside one.
    Other,
}

/// Assignment targets.
#[derive(Debug)]
pub enum Lvalue {
    Ident(HierPath),
    BitSelect { base: Box<Lvalue>, index: Box<Expr> },
    PartSelect { base: Box<Lvalue>, msb: Box<Expr>, lsb: Box<Expr> },
    IndexedPart { base: Box<Lvalue>, offset: Box<Expr>, width: Box<Expr>, dir: PartDir },
    Concat(Vec<Lvalue>),
}

/// One item of a `case` statement.
#[derive(Debug)]
pub enum CaseItem {
    Match { labels: Vec<Expr>, body: Stmt },
    Default { body: Stmt },
}

/// Statements.
#[derive(Debug)]
pub enum Stmt {
    Null,
    Block { decls: Vec<NetVarDecl>, stmts: Vec<Stmt> },
    Blocking { lhs: Lvalue, rhs: Expr, delay: bool, event: bool },
    Nonblocking { lhs: Lvalue, rhs: Expr },
    If { cond: Expr, then_s: Box<Stmt>, else_s: Option<Box<Stmt>> },
    Case { scrut: Expr, items: Vec<CaseItem> },
    For { body: Box<Stmt> },
    While { cond: Expr, body: Box<Stmt> },
    Repeat { count: Expr, body: Box<Stmt> },
    Forever { body: Box<Stmt> },
    Fork { stmts: Vec<Stmt> },
    DelayCtrl { body: Option<Box<Stmt>> },
    EventCtrl { body: Option<Box<Stmt>> },
    Wait { cond: Expr, body: Option<Box<Stmt>> },
    WaitFork,
    Return { value: Option<Expr> },
    TaskCall { name: HierPath, args: Vec<Expr> },
    SysTaskCall { args: Vec<Expr> },
    /// Every other statement form (`disable`, `force`, `release`, …).
    Other,
}

/// Declared net/variable kinds.
#[derive(Clone, Copy, PartialEq, Eq, Structural, Debug)]
pub enum NetVarKind {
    Wire,
    Reg,
    Logic,
    Bit,
    Byte,
    Shortint,
    Int,
    Longint,
    Integer,
    Time,
    Real,
    Realtime,
    String,
    Event,
}

/// A `[msb:lsb]` range.
#[derive(Debug)]
pub struct Range {
    pub msb: Expr,
    pub lsb: Expr,
}

/// An associative array's key type.
#[derive(Clone, Copy, PartialEq, Eq, Structural, Debug)]
pub enum AssocKey {
    Str,
    Int,
    Wildcard,
}

/// One unpacked dimension.
#[derive(Debug)]
pub enum Dim {
    Range(Range),
    Size(Expr),
    Dyn,
    Queue,
    Assoc(AssocKey),
}

/// One declared name of a net/variable declaration.
#[derive(Debug)]
pub struct DeclName {
    pub name: String,
    pub unpacked: Vec<Dim>,
}

/// A net/variable declaration (`logic [7:0] a, b[4];`).
#[derive(Debug)]
pub struct NetVarDecl {
    pub kind: NetVarKind,
    pub signed: bool,
    pub range: Option<Range>,
    pub packed: Vec<Range>,
    pub names: Vec<DeclName>,
}

/// A subroutine port direction.
#[derive(Clone, Copy, PartialEq, Eq, Structural, Debug)]
pub enum PortDir {
    Input,
    Output,
    Inout,
    Ref,
}

/// A function/task formal.
#[derive(Debug)]
pub struct TfPort {
    pub name: String,
    pub dir: PortDir,
    pub net_or_var: Option<NetVarKind>,
    pub signed: bool,
    pub range: Option<Range>,
    pub unpacked: Vec<Dim>,
    pub default: Option<Expr>,
}

/// The declared return type keyword of a function.
#[derive(Clone, Copy, PartialEq, Eq, Structural, Debug)]
pub enum ParamType {
    Implicit,
    Integer,
    Real,
    Realtime,
    Time,
}

/// A parameter override of an instantiation: by position or by name (a
/// named override may leave its value out, `.P()`).
#[derive(Debug)]
pub enum ParamConn {
    Positional(Expr),
    Named { name: String, value: Option<Expr> },
}

/// A function declaration.
#[derive(Debug)]
pub struct FunctionDef {
    pub name: String,
    pub ports: Vec<TfPort>,
    pub body_decls: Vec<NetVarDecl>,
    pub body: Stmt,
    pub automatic: bool,
    pub ret_type: ParamType,
    pub ret_two_state: bool,
    pub ret_string: bool,
    pub signed: bool,
    pub range: Option<Range>,
}

/// A task declaration.
#[derive(Debug)]
pub struct TaskDef {
    pub name: String,
    pub ports: Vec<TfPort>,
    pub body: Stmt,
    pub automatic: bool,
}

/// Event edges in a sensitivity list.
#[derive(Clone, Copy, PartialEq, Eq, Structural, Debug)]
pub enum Edge {
    Posedge,
    Negedge,
    NoEdge,
}

/// One term of an event list: `posedge clk iff en`.
#[derive(Debug)]
pub struct EventExpr {
    pub edge: Edge,
    pub expr: Expr,
    pub iff: Option<Expr>,
}

/// An event control: `@(*)` or `@(a or posedge b)`.
#[derive(Debug)]
pub enum Sensitivity {
    Star,
    List(Vec<EventExpr>),
}

/// Procedural block kinds.
#[derive(Clone, Copy, PartialEq, Eq, Structural, Debug)]
pub enum ProcKind {
    Initial,
    Final,
    Always,
    AlwaysComb,
    AlwaysLatch,
    AlwaysFf,
}

/// A procedural block: its kind, its event control, its body.
#[derive(Debug)]
pub struct ProceduralBlock {
    pub kind: ProcKind,
    pub sensitivity: Option<Sensitivity>,
    pub body: Box<Stmt>,
}

/// `parameter` or `localparam`.
#[derive(Clone, Copy, PartialEq, Eq, Structural, Debug)]
pub enum ParamKind {
    Parameter,
    Localparam,
}

/// A parameter declaration (in the header list or the body).
#[derive(Debug)]
pub struct ParamDecl {
    pub name: String,
    pub kind: ParamKind,
    pub ty: ParamType,
    pub range: Option<Range>,
    pub signed: bool,
    pub value: Expr,
}

/// A module's port list: ANSI ports, non-ANSI port names, or no list
/// (only the names are read here).
#[derive(Debug)]
pub enum PortList {
    Ansi(Vec<String>),
    NonAnsi(Vec<String>),
    Empty,
}

/// One instance name of an instantiation, with its unpacked dimensions
/// (an instance array has some).
#[derive(Debug)]
pub struct InstName {
    pub name: String,
    pub unpacked: Vec<Dim>,
}

/// An instantiation `m #(…) u0(…), u1(…);`.
#[derive(Debug)]
pub struct ModuleInstance {
    pub module_name: String,
    pub param_overrides: Vec<ParamConn>,
    pub instances: Vec<InstName>,
}

/// A module body item (the declared names of each; a procedural block by
/// its body).
#[derive(Debug)]
pub enum ModuleItem {
    NetVar(NetVarDecl),
    Param(ParamDecl),
    PortDecl(Vec<String>),
    Instance(ModuleInstance),
    Genvar(Vec<String>),
    Func(FunctionDef),
    Task(TaskDef),
    Typedef(String),
    Class(String),
    Covergroup(String),
    CoverInstance(String),
    LetDecl(String),
    Clocking(Option<String>),
    Proc(Stmt),
    Generate(Vec<GenItem>),
    Defparam,
    Other,
}

/// A generate construct.
#[derive(Debug)]
pub enum GenItem {
    For { label: Option<String>, body: Vec<GenItem> },
    If { label: Option<String>, then_b: Vec<GenItem>, else_b: Vec<GenItem> },
    Block { label: Option<String>, items: Vec<GenItem> },
    Case { items: Vec<GenCaseItem> },
    Item(Box<ModuleItem>),
}

/// One arm of a generate `case`.
#[derive(Debug)]
pub enum GenCaseItem {
    Match { body: Vec<GenItem> },
    Default { body: Vec<GenItem> },
}

/// A module (or interface) declaration.
#[derive(Debug)]
pub struct ModuleDecl {
    pub name: String,
    pub params: Vec<ParamDecl>,
    pub ports: PortList,
    pub body: Vec<ModuleItem>,
}

} // verus!
