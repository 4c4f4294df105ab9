//! The elaborator's state (the expression arena, constants, nets, frame
//! metadata and the scope tables the questions read), its diagnostics, and
//! the append points of the arena.

use vstd::prelude::*;
use vstd::string::StringExecFns;
use crate::ir;
use crate::ir::{ConstRepr, ConstVal, NetKind, NetVar};
use crate::ast::{FunctionDef, TaskDef};
use crate::hier::ModuleFacts;

verus! {

/// Diagnostic codes.
#[derive(Clone, Copy, PartialEq, Eq, Structural, Debug)]
pub enum MsgCode {
    ElabUnsupported,
    ElabWarning,
}

/// Severity of a diagnostic.
#[derive(Clone, Copy, PartialEq, Eq, Structural, Debug)]
pub enum Severity {
    Error,
    Warning,
}

/// One reported diagnostic.
#[derive(Debug)]
pub struct Diagnostic {
    pub severity: Severity,
    pub code: MsgCode,
    pub message: String,
}

/// The canonical self-determined shape of a lowered expression, as the
/// engine's width table gives it.
#[derive(Clone, Copy, PartialEq, Eq, Structural, Debug)]
pub struct SelfWidth {
    pub width: u32,
    pub signed: bool,
}

/// The elaborator's state, as far as the questions of this library read it.
pub struct Elaborator {
    /// the expression arena; an operand id is always below its user's id
    pub exprs: Vec<ir::Expr>,
    /// interned constants
    pub consts: Vec<ConstVal>,
    /// declared nets
    pub nets: Vec<NetVar>,
    /// per framed subroutine: its frame-local net range and return shape
    pub func_metas: Vec<ir::FuncMeta>,
    /// per expression id: the canonical self shape the engine's width table
    /// gives it, where it is knowable yet (`None` for a placeholder)
    pub canon: Vec<Option<SelfWidth>>,
    /// per expression id: may the node be evaluated more than once (no
    /// side effect, no draw)?
    pub repeatable: Vec<bool>,
    /// declaration and scope tables
    pub tables: Tables,
    /// the lowered bodies of framed subroutines and their side tables
    pub bodies: Bodies,
    /// reported diagnostics, in order
    pub diags: Vec<Diagnostic>,
    /// set once an error is reported
    pub had_error: bool,
    /// a size cast over a real operand was reported in the cast being lowered
    pub size_cast_real_reported: bool,
}

/// The lowered bodies of framed subroutines: one arena of control-flow
/// blocks and one of statements, shared by all bodies, and the side tables
/// that say which statements and nets a frame may use.
pub struct Bodies {
    /// per framed subroutine: its entry block
    pub func_entries: Vec<u32>,
    pub func_blocks: Vec<ir::Block>,
    pub stmts: Vec<ir::Stmt>,
    /// nets holding a class handle
    pub class_handle_nets: Vec<u32>,
    /// frame-local nets that are unpacked arrays
    pub frame_array_local: Vec<u32>,
    /// statement ids of dynamic-array formal snapshot markers
    pub dyn_formal_marker_stmts: Vec<u32>,
    /// statement ids of genuine `$display` / `$write` prints in a frame body
    pub frame_print_stmts: Vec<u32>,
    /// statement ids of severity tasks (`$info` … `$fatal`)
    pub severities: Vec<u32>,
}

/// One function of the module, with the facts its routing reads.
pub struct FuncEntry {
    pub def: FunctionDef,
    /// formal/local name → declared width, where the declared range folds
    pub widths: Vec<(String, u32)>,
    /// bit-vector formals/locals whose declared width does not fold
    pub unknown_bv: Vec<String>,
    /// the declared return width, where it folds
    pub ret_width: Option<u32>,
    /// a read-only dynamic-array-input function the inline path aliases
    pub r2_inlinable: bool,
}

/// Declaration and scope tables of the module being elaborated.
pub struct Tables {
    /// read-only dynamic-array formals aliased to the caller's net, innermost last
    pub dyn_subst: Vec<(String, u32)>,
    /// formals of the bodies being lowered and whether each is `string`, innermost last
    pub formal_str: Vec<(String, bool)>,
    /// the module's functions
    pub func_table: Vec<FuncEntry>,
    /// the module's tasks
    pub task_table: Vec<TaskDef>,
    /// task names that are the target of a hierarchical enable anywhere in the design
    pub hier_called_task_names: Vec<String>,
    /// package `real` constants
    pub pkg_real: Vec<PkgEntry<()>>,
    /// package `string` constants
    pub pkg_str: Vec<PkgEntry<()>>,
    /// package constants wider than 64 bits: their width and sign
    pub pkg_wide: Vec<PkgEntry<WideConst>>,
    /// package numeric constants: their value
    pub pkg_consts: Vec<PkgEntry<i64>>,
    /// declared (width, signed) of package numeric constants, where declared
    pub pkg_const_meta: Vec<PkgEntry<(u32, bool)>>,
    /// package variables: their net
    pub pkg_vars: Vec<PkgEntry<u32>>,
    /// nets that are fixed-size unpacked arrays (no value as a whole)
    pub static_array_nets: Vec<u32>,
    /// per module (and interface) of the design, its static surface
    pub module_facts: Vec<(String, ModuleFacts)>,
    /// the module being lowered
    pub cur_module: String,
    /// expression ids of hierarchical reads whose declaration is `real`
    pub hier_real: Vec<u32>,
    /// dynamic-storage nets whose elements are `real`
    pub real_elem_dyn_nets: Vec<u32>,
    /// the module's clocking blocks by name, each with its clocking event
    pub clocking_events: Vec<(String, crate::ast::Sensitivity)>,
    /// names of the scope being lowered that the name resolver routes
    /// somewhere other than a plain net read, first entry of a name wins
    pub ident_routes: Vec<(String, IdentRoute)>,
    /// names of the scope being lowered that read a net, innermost first
    pub scope_nets: Vec<(String, u32)>,
    /// expression ids of actuals that are substituted verbatim (re-lowered
    /// at each read, so they have no fixed width)
    pub verbatim_actuals: Vec<u32>,
    /// nets declared with more than one packed dimension
    pub multi_packed_nets: Vec<u32>,
    /// type parameters of this instance whose shape resolved, with its sign
    pub type_param_signs: Vec<(String, bool)>,
    /// dynamic-storage nets whose elements are two-state
    pub two_state_heap_handles: Vec<u32>,
}

/// Where the name resolver routes a bare identifier read.
#[derive(Clone, Copy, Debug)]
pub enum IdentRoute {
    /// an element of an array item being iterated: its width and sign
    ArrayItem { width: u32, signed: bool },
    /// a formal substituted by the lowered actual with this id
    Subst(u32),
    /// an output formal aliased to this caller net
    OutSubst(u32),
    /// a `string` value
    Str,
    /// a `real` value
    Real,
    /// a constant wider than 64 bits
    Wide(WideConst),
    /// a parameter: its value, its declared (width, signed) if any, and
    /// whether the value is only a guess
    Param { v: i64, meta: Option<(u32, bool)>, guessed: bool },
}

/// A symbol `pkg::name` of a package table, and what the table holds for it.
pub struct PkgEntry<V> {
    pub pkg: String,
    pub name: String,
    pub val: V,
}

/// The shape of a package constant wider than 64 bits.
#[derive(Clone, Copy, PartialEq, Eq, Structural, Debug)]
pub struct WideConst {
    pub width: u32,
    pub signed: bool,
}

/// Every operand id of `e` is below `id`.
pub open spec fn operands_below(e: ir::Expr, id: int) -> bool {
    match e {
        ir::Expr::Select { base, offset, width, .. } => base < id && offset < id && width < id,
        ir::Expr::Concat { parts } => forall|k: int| 0 <= k < parts@.len() ==> #[trigger] parts@[k] < id,
        ir::Expr::Replicate { count, value } => count < id && value < id,
        ir::Expr::Unary { operand, .. } => operand < id,
        ir::Expr::Binary { lhs, rhs, .. } => lhs < id && rhs < id,
        ir::Expr::Ternary { cond, then_e, else_e } => cond < id && then_e < id && else_e < id,
        ir::Expr::SysFunc { args, .. } => forall|k: int| 0 <= k < args@.len() ==> #[trigger] args@[k] < id,
        ir::Expr::Call { args, .. } => forall|k: int| 0 <= k < args@.len() ==> #[trigger] args@[k] < id,
        _ => true,
    }
}

/// The arena is well formed: every node's operands are earlier nodes.
pub open spec fn arena_wf(exprs: Seq<ir::Expr>) -> bool {
    forall|i: int| 0 <= i < exprs.len() ==> operands_below(#[trigger] exprs[i], i)
}

impl Elaborator {
    /// The arena invariant every reader of it relies on: operands are
    /// earlier nodes, and the hierarchical reads of `real` declarations are
    /// nodes already lowered.
    pub open spec fn wf(&self) -> bool {
        &&& arena_wf(self.exprs@)
        &&& forall|i: int| 0 <= i < self.tables.hier_real@.len() ==> (#[trigger] self.tables.hier_real@[i] as int)
            < self.exprs@.len()
    }

    /// A fresh elaborator state with nothing lowered yet.
    pub fn new() -> (r: Self)
        ensures
            r.wf(),
            r.exprs@.len() == 0,
            r.consts@.len() == 0,
            r.nets@.len() == 0,
            r.func_metas@.len() == 0,
            r.canon@.len() == 0,
            r.repeatable@.len() == 0,
            r.tables.dyn_subst@.len() == 0,
            r.tables.formal_str@.len() == 0,
            r.tables.func_table@.len() == 0,
            r.tables.task_table@.len() == 0,
            r.tables.hier_called_task_names@.len() == 0,
            r.tables.pkg_real@.len() == 0,
            r.tables.pkg_str@.len() == 0,
            r.tables.pkg_wide@.len() == 0,
            r.tables.pkg_consts@.len() == 0,
            r.tables.pkg_const_meta@.len() == 0,
            r.tables.pkg_vars@.len() == 0,
            r.tables.static_array_nets@.len() == 0,
            r.tables.module_facts@.len() == 0,
            r.tables.cur_module@.len() == 0,
            r.tables.hier_real@.len() == 0,
            r.tables.real_elem_dyn_nets@.len() == 0,
            r.tables.clocking_events@.len() == 0,
            r.tables.ident_routes@.len() == 0,
            r.tables.scope_nets@.len() == 0,
            r.tables.verbatim_actuals@.len() == 0,
            r.tables.multi_packed_nets@.len() == 0,
            r.tables.type_param_signs@.len() == 0,
            r.tables.two_state_heap_handles@.len() == 0,
            r.diags@.len() == 0,
            !r.had_error,
            !r.size_cast_real_reported,
            r.bodies.func_blocks@.len() == 0,
            r.bodies.stmts@.len() == 0,
    {
        Elaborator {
            exprs: Vec::new(),
            consts: Vec::new(),
            nets: Vec::new(),
            func_metas: Vec::new(),
            canon: Vec::new(),
            repeatable: Vec::new(),
            tables: Tables {
                dyn_subst: Vec::new(),
                formal_str: Vec::new(),
                func_table: Vec::new(),
                task_table: Vec::new(),
                hier_called_task_names: Vec::new(),
                pkg_real: Vec::new(),
                pkg_str: Vec::new(),
                pkg_wide: Vec::new(),
                pkg_consts: Vec::new(),
                pkg_const_meta: Vec::new(),
                pkg_vars: Vec::new(),
                static_array_nets: Vec::new(),
                module_facts: Vec::new(),
                cur_module: String::new(),
                hier_real: Vec::new(),
                real_elem_dyn_nets: Vec::new(),
                clocking_events: Vec::new(),
                ident_routes: Vec::new(),
                scope_nets: Vec::new(),
                verbatim_actuals: Vec::new(),
                multi_packed_nets: Vec::new(),
                type_param_signs: Vec::new(),
                two_state_heap_handles: Vec::new(),
            },
            bodies: Bodies {
                func_entries: Vec::new(),
                func_blocks: Vec::new(),
                stmts: Vec::new(),
                class_handle_nets: Vec::new(),
                frame_array_local: Vec::new(),
                dyn_formal_marker_stmts: Vec::new(),
                frame_print_stmts: Vec::new(),
                severities: Vec::new(),
            },
            diags: Vec::new(),
            had_error: false,
            size_cast_real_reported: false,
        }
    }

    /// THE expression append point: `e` becomes the next id.
    pub fn push_expr(&mut self, e: ir::Expr) -> (id: u32)
        requires
            old(self).wf(),
            operands_below(e, old(self).exprs@.len() as int),
            old(self).exprs@.len() < u32::MAX,
        ensures
            final(self).wf(),
            id as int == old(self).exprs@.len(),
            final(self).exprs@ == old(self).exprs@.push(e),
            final(self).consts == old(self).consts,
            final(self).nets == old(self).nets,
            final(self).func_metas == old(self).func_metas,
            final(self).canon == old(self).canon,
            final(self).repeatable == old(self).repeatable,
            final(self).tables == old(self).tables,
            final(self).bodies == old(self).bodies,
            final(self).size_cast_real_reported == old(self).size_cast_real_reported,
            final(self).diags == old(self).diags,
            final(self).had_error == old(self).had_error,
    {
        let id = self.exprs.len() as u32;
        self.exprs.push(e);
        proof {
            assert forall|i: int| 0 <= i < self.exprs@.len() implies operands_below(
                #[trigger] self.exprs@[i],
                i,
            ) by {
                if i < old(self).exprs@.len() {
                    assert(self.exprs@[i] == old(self).exprs@[i]);
                }
            }
        }
        id
    }

    /// Intern a constant: the id of an equal constant already held, else of
    /// `cv` appended.
    pub fn intern_const(&mut self, cv: ConstVal) -> (id: u32)
        requires
            old(self).consts@.len() < u32::MAX,
        ensures
            (id as int) < final(self).consts@.len(),
            final(self).consts@[id as int] == cv,
            old(self).consts@.contains(cv) ==> final(self).consts == old(self).consts,
            !old(self).consts@.contains(cv) ==> final(self).consts@ == old(self).consts@.push(cv),
            final(self).exprs == old(self).exprs,
            final(self).nets == old(self).nets,
            final(self).func_metas == old(self).func_metas,
            final(self).canon == old(self).canon,
            final(self).repeatable == old(self).repeatable,
            final(self).tables == old(self).tables,
            final(self).bodies == old(self).bodies,
            final(self).size_cast_real_reported == old(self).size_cast_real_reported,
            final(self).diags == old(self).diags,
            final(self).had_error == old(self).had_error,
    {
        let mut i: usize = 0;
        while i < self.consts.len()
            invariant
                i <= self.consts@.len(),
                self.consts@.len() < u32::MAX,
                forall|j: int| 0 <= j < i ==> self.consts@[j] != cv,
            decreases self.consts@.len() - i,
        {
            if self.consts[i] == cv {
                return i as u32;
            }
            i += 1;
        }
        let id = self.consts.len() as u32;
        self.consts.push(cv);
        id
    }

    /// Report an error diagnostic.
    pub fn error(&mut self, code: MsgCode, msg: &str)
        ensures
            final(self).had_error,
            final(self).diags@.len() == old(self).diags@.len() + 1,
            forall|i: int| 0 <= i < old(self).diags@.len() ==> final(self).diags@[i] == old(self).diags@[i],
            final(self).diags@.last().severity == Severity::Error,
            final(self).diags@.last().code == code,
            final(self).diags@.last().message@ == msg@,
            final(self).exprs == old(self).exprs,
            final(self).consts == old(self).consts,
            final(self).nets == old(self).nets,
            final(self).func_metas == old(self).func_metas,
            final(self).canon == old(self).canon,
            final(self).repeatable == old(self).repeatable,
            final(self).tables == old(self).tables,
            final(self).bodies == old(self).bodies,
            final(self).size_cast_real_reported == old(self).size_cast_real_reported,
    {
        self.diags.push(Diagnostic { severity: Severity::Error, code, message: String::from_str(msg) });
        self.had_error = true;
    }

    /// Report a warning diagnostic (elaboration continues).
    pub fn warn(&mut self, msg: &str)
        ensures
            final(self).had_error == old(self).had_error,
            final(self).diags@.len() == old(self).diags@.len() + 1,
            forall|i: int| 0 <= i < old(self).diags@.len() ==> final(self).diags@[i] == old(self).diags@[i],
            final(self).diags@.last().severity == Severity::Warning,
            final(self).diags@.last().code == MsgCode::ElabWarning,
            final(self).diags@.last().message@ == msg@,
            final(self).exprs == old(self).exprs,
            final(self).consts == old(self).consts,
            final(self).nets == old(self).nets,
            final(self).func_metas == old(self).func_metas,
            final(self).canon == old(self).canon,
            final(self).repeatable == old(self).repeatable,
            final(self).tables == old(self).tables,
            final(self).bodies == old(self).bodies,
            final(self).size_cast_real_reported == old(self).size_cast_real_reported,
    {
        self.diags.push(
            Diagnostic {
                severity: Severity::Warning,
                code: MsgCode::ElabWarning,
                message: String::from_str(msg),
            },
        );
    }
}

/// A numeric constant of `width` bits holding `v`.
pub open spec fn const_u32_spec(v: u32, width: u32) -> ConstVal {
    ConstVal { width, signed: false, repr: ConstRepr::Numeric, bits: v as u64 }
}

pub fn make_const_u32(v: u32, width: u32) -> (r: ConstVal)
    ensures
        r == const_u32_spec(v, width),
{
    ConstVal { width, signed: false, repr: ConstRepr::Numeric, bits: v as u64 }
}

} // verus!
