//! A method of a dynamic-storage variable called as a statement
//! (`q.push_back(v);`, `a.delete(k);`, `d.sort();`, …): the statement it
//! lowers to, or the error that refuses it.

use vstd::prelude::*;
use vstd::string::StringExecFns;
use crate::ast::Expr;
use crate::elab::{operands_below, Elaborator, MsgCode};
use crate::ir;
use crate::ir::{LvChunk, NetKind, NetVar, SysFuncId, SysTaskId};
use crate::lower::{lemma_lowered_kept, lemma_step_refl, lemma_step_trans, lower_budget};

verus! {

/// What a `(method, kind, argument count)` statement call is.
#[derive(Clone, Copy, PartialEq, Eq, Structural, Debug)]
pub enum DynMethodForm {
    /// `push_back(v)` / `push_front(v)` of a queue
    Push { front: bool },
    /// `delete()` of any dynamic storage
    DeleteAll,
    /// `delete(k)` of an associative array
    DeleteKey,
    /// `delete(i)` of a queue
    DeleteIdx,
    /// `insert(i, v)` of a queue
    Insert,
    /// `sort()` / `rsort()` / `reverse()` of a dynamic array or queue
    Order { which: SysTaskId },
    /// `pop_back()` / `pop_front()` of a queue, value discarded
    Pop { front: bool },
    /// anything else: refused
    Refused,
}

/// The statement call table, first matching row first.
pub open spec fn dyn_method_form(kind: NetKind, m: Seq<char>, n: int) -> DynMethodForm {
    let is_queue = kind == NetKind::Queue;
    let ordered = kind == NetKind::DynArray || kind == NetKind::Queue;
    if (m == "push_back"@ || m == "push_front"@) && is_queue && n == 1 {
        DynMethodForm::Push { front: m == "push_front"@ }
    } else if m == "delete"@ && n == 0 {
        DynMethodForm::DeleteAll
    } else if m == "delete"@ && (kind == NetKind::Assoc || kind == NetKind::AssocStr) && n == 1 {
        DynMethodForm::DeleteKey
    } else if m == "delete"@ && is_queue && n == 1 {
        DynMethodForm::DeleteIdx
    } else if m == "insert"@ && is_queue && n == 2 {
        DynMethodForm::Insert
    } else if (m == "sort"@ || m == "rsort"@ || m == "reverse"@) && ordered && n == 0 {
        DynMethodForm::Order {
            which: if m == "sort"@ {
                SysTaskId::ArrSort
            } else if m == "rsort"@ {
                SysTaskId::ArrRsort
            } else {
                SysTaskId::ArrReverse
            },
        }
    } else if (m == "pop_back"@ || m == "pop_front"@) && is_queue && n == 0 {
        DynMethodForm::Pop { front: m == "pop_front"@ }
    } else {
        DynMethodForm::Refused
    }
}

/// The error a refused statement call reports.
pub open spec fn dyn_method_refusal(kind: NetKind, m: Seq<char>, n: int) -> Seq<char> {
    let is_queue = kind == NetKind::Queue;
    let ordered = kind == NetKind::DynArray || kind == NetKind::Queue;
    if m == "delete"@ && n == 1 {
        "indexed delete(i) is a queue/assoc method (a dyn array only supports delete())"@
    } else if m == "insert"@ && is_queue {
        "insert() takes exactly (index, value)"@
    } else if (m == "sort"@ || m == "rsort"@ || m == "reverse"@) && ordered {
        "array ordering methods take no arguments (with-clause is a separate slice)"@
    } else if (m == "pop_back"@ || m == "pop_front"@) && is_queue {
        "pop_back()/pop_front() take no arguments"@
    } else if m == "size"@ || m == "num"@ || m == "exists"@ {
        "value-returning method used as a statement"@
    } else if m == "first"@ || m == "next"@ || m == "last"@ || m == "prev"@ {
        "first/next/last/prev results must be assigned (`st = a.first(k);`)"@
    } else {
        "unknown or kind-mismatched dynamic-storage method `."@ + m + "()`"@
    }
}

/// The lowering budget of the first two arguments.
pub open spec fn args2_budget(args: Seq<Expr>) -> nat {
    (if args.len() > 0 {
        lower_budget(args[0])
    } else {
        0
    }) + (if args.len() > 1 {
        lower_budget(args[1])
    } else {
        0
    })
}

fn str_is(s: &String, lit: &str) -> (r: bool)
    ensures
        r == (s@ == lit@),
{
    let l = String::from_str(lit);
    *s == l
}

/// Classify a statement call by the table of [`dyn_method_form`].
pub fn classify_dyn_method(kind: NetKind, method: &String, n: usize) -> (r: DynMethodForm)
    ensures
        r == dyn_method_form(kind, method@, n as int),
{
    let is_queue = kind == NetKind::Queue;
    let ordered = kind == NetKind::DynArray || kind == NetKind::Queue;
    let push_back = str_is(method, "push_back");
    let push_front = str_is(method, "push_front");
    let delete = str_is(method, "delete");
    let insert = str_is(method, "insert");
    let sort = str_is(method, "sort");
    let rsort = str_is(method, "rsort");
    let reverse = str_is(method, "reverse");
    let pop_back = str_is(method, "pop_back");
    let pop_front = str_is(method, "pop_front");
    if (push_back || push_front) && is_queue && n == 1 {
        DynMethodForm::Push { front: push_front }
    } else if delete && n == 0 {
        DynMethodForm::DeleteAll
    } else if delete && (kind == NetKind::Assoc || kind == NetKind::AssocStr) && n == 1 {
        DynMethodForm::DeleteKey
    } else if delete && is_queue && n == 1 {
        DynMethodForm::DeleteIdx
    } else if insert && is_queue && n == 2 {
        DynMethodForm::Insert
    } else if (sort || rsort || reverse) && ordered && n == 0 {
        DynMethodForm::Order {
            which: if sort {
                SysTaskId::ArrSort
            } else if rsort {
                SysTaskId::ArrRsort
            } else {
                SysTaskId::ArrReverse
            },
        }
    } else if (pop_back || pop_front) && is_queue && n == 0 {
        DynMethodForm::Pop { front: pop_front }
    } else {
        DynMethodForm::Refused
    }
}

fn dyn_method_refusal_msg(kind: NetKind, method: &String, n: usize) -> (r: String)
    ensures
        r@ == dyn_method_refusal(kind, method@, n as int),
{
    let is_queue = kind == NetKind::Queue;
    let ordered = kind == NetKind::DynArray || kind == NetKind::Queue;
    if str_is(method, "delete") && n == 1 {
        String::from_str("indexed delete(i) is a queue/assoc method (a dyn array only supports delete())")
    } else if str_is(method, "insert") && is_queue {
        String::from_str("insert() takes exactly (index, value)")
    } else if (str_is(method, "sort") || str_is(method, "rsort") || str_is(method, "reverse")) && ordered {
        String::from_str("array ordering methods take no arguments (with-clause is a separate slice)")
    } else if (str_is(method, "pop_back") || str_is(method, "pop_front")) && is_queue {
        String::from_str("pop_back()/pop_front() take no arguments")
    } else if str_is(method, "size") || str_is(method, "num") || str_is(method, "exists") {
        String::from_str("value-returning method used as a statement")
    } else if str_is(method, "first") || str_is(method, "next") || str_is(method, "last") || str_is(
        method,
        "prev",
    ) {
        String::from_str("first/next/last/prev results must be assigned (`st = a.first(k);`)")
    } else {
        let mut s = String::from_str("unknown or kind-mismatched dynamic-storage method `.");
        s.append(method.as_str());
        s.append("()`");
        s
    }
}

/// The system task a statement is, with its argument ids.
pub open spec fn task_of(r: Option<ir::Stmt>) -> Option<(SysTaskId, Seq<u32>)> {
    match r {
        Some(ir::Stmt::SysTask { which, args }) => Some((which, args@)),
        _ => None,
    }
}

impl Elaborator {
    /// Lower the statement call `.method(args)` of the dynamic-storage net
    /// `net` of kind `kind`. A read of the whole handle is lowered first,
    /// always. Then, by [`dyn_method_form`]: a push is the queue push task
    /// over the handle and the lowered value; `delete()` the delete task
    /// over the handle; `delete(k)` / `delete(i)` the key or index delete
    /// over the handle and the lowered key or index; `insert(i, v)` the
    /// insert task over the handle, index and value; an ordering method its
    /// task over the handle; a discarded pop writes the popped value into a
    /// fresh sink net of the element's type (32 bits unsigned when the net
    /// is unknown). Anything else is refused with the one error of
    /// [`dyn_method_refusal`] and gives no statement.
    pub fn lower_dyn_method_stmt(&mut self, net: u32, kind: NetKind, method: &String, args: &Vec<Expr>) -> (r: Option<
        ir::Stmt,
    >)
        requires
            old(self).wf(),
            old(self).consts_closed(),
            old(self).exprs@.len() + 2 + args2_budget(args@) < u32::MAX,
            old(self).consts@.len() + args2_budget(args@) < u32::MAX,
            old(self).nets@.len() < u32::MAX,
        ensures
            old(self).exprs@.len() < final(self).exprs@.len(),
            final(self).exprs@[old(self).exprs@.len() as int] == (ir::Expr::Signal { net, word: None }),
            ({
                let h = old(self).exprs@.len() as u32;
                match dyn_method_form(kind, method@, args@.len() as int) {
                    DynMethodForm::Push { front } => {
                        &&& final(self).lowering_step(old(self))
                        &&& task_of(r) matches Some((w, ids)) && w == (if front {
                            SysTaskId::QPushFront
                        } else {
                            SysTaskId::QPushBack
                        }) && ids.len() == 2 && ids[0] == h && final(self).lowered(args@[0], ids[1] as int)
                    },
                    DynMethodForm::DeleteAll => {
                        &&& final(self).lowering_step(old(self))
                        &&& task_of(r) == Some((SysTaskId::DynDelete, seq![h]))
                    },
                    DynMethodForm::DeleteKey => {
                        &&& final(self).lowering_step(old(self))
                        &&& task_of(r) matches Some((w, ids)) && w == SysTaskId::AssocDeleteKey && ids.len() == 2
                            && ids[0] == h && final(self).lowered(args@[0], ids[1] as int)
                    },
                    DynMethodForm::DeleteIdx => {
                        &&& final(self).lowering_step(old(self))
                        &&& task_of(r) matches Some((w, ids)) && w == SysTaskId::QDeleteIdx && ids.len() == 2
                            && ids[0] == h && final(self).lowered(args@[0], ids[1] as int)
                    },
                    DynMethodForm::Insert => {
                        &&& final(self).lowering_step(old(self))
                        &&& task_of(r) matches Some((w, ids)) && w == SysTaskId::QInsert && ids.len() == 3
                            && ids[0] == h && final(self).lowered(args@[0], ids[1] as int) && final(self).lowered(
                            args@[1],
                            ids[2] as int,
                        )
                    },
                    DynMethodForm::Order { which } => {
                        &&& final(self).lowering_step(old(self))
                        &&& task_of(r) == Some((which, seq![h]))
                    },
                    DynMethodForm::Pop { front } => {
                        let (ew, es) = if (net as int) < old(self).nets@.len() {
                            let nv = old(self).nets@[net as int];
                            (if nv.width >= 1 { nv.width } else { 1u32 }, nv.signed)
                        } else {
                            (32u32, false)
                        };
                        &&& final(self).nets@ == old(self).nets@.push(NetVar { kind: NetKind::Reg, width: ew, signed: es })
                        &&& final(self).exprs@.len() == old(self).exprs@.len() + 2
                        &&& final(self).exprs@.take(old(self).exprs@.len() as int) == old(self).exprs@
                        &&& final(self).exprs@[h + 1] matches ir::Expr::SysFunc { which, args: ids } && which == (
                        if front {
                            SysFuncId::QPopFront
                        } else {
                            SysFuncId::QPopBack
                        }) && ids@ == seq![h]
                        &&& r matches Some(st) && st matches ir::Stmt::BlockingAssign { lhs, rhs } && rhs == h + 1
                            && lhs.chunks@ == seq![
                            LvChunk { net: old(self).nets@.len() as u32, word: None, offset: None, width: None },
                        ]
                        &&& final(self).diags == old(self).diags
                        &&& final(self).consts == old(self).consts
                        &&& final(self).wf()
                    },
                    DynMethodForm::Refused => {
                        &&& final(self).lowering_step(old(self))
                        &&& r is None
                        &&& final(self).diags@.len() == old(self).diags@.len() + 1
                        &&& final(self).diags@.last().message@ == dyn_method_refusal(kind, method@, args@.len() as int)
                        &&& final(self).exprs@.len() == old(self).exprs@.len() + 1
                    },
                }
            }),
    {
        let ghost s0: Elaborator = *self;
        let handle = self.push_expr(ir::Expr::Signal { net, word: None });
        let ghost s1: Elaborator = *self;
        proof {
            lemma_step_refl(&s0);
            assert(s1.exprs@.take(s0.exprs@.len() as int) =~= s0.exprs@);
            assert(s1.consts@.take(s0.consts@.len() as int) =~= s0.consts@);
            assert(s1.diags@.take(s0.diags@.len() as int) =~= s0.diags@);
            assert forall|i: int| 0 <= i < s1.exprs@.len() implies (#[trigger] s1.exprs@[i] matches ir::Expr::Const { val }
                ==> (val as int) < s1.consts@.len()) by {
                if i < s0.exprs@.len() {
                    assert(s1.exprs@[i] == s0.exprs@[i]);
                }
            }
            assert(s1.lowering_step(&s0));
        }
        match classify_dyn_method(kind, method, args.len()) {
            DynMethodForm::Push { front } => {
                let v = self.lower_expr(&args[0]);
                proof {
                    lemma_step_trans(&s0, &s1, self);
                    crate::lower::lemma_node_kept(&s1, self, handle as int);
                }
                let which = if front {
                    SysTaskId::QPushFront
                } else {
                    SysTaskId::QPushBack
                };
                Some(ir::Stmt::SysTask { which, args: vec![handle, v] })
            },
            DynMethodForm::DeleteAll => {
                Some(ir::Stmt::SysTask { which: SysTaskId::DynDelete, args: vec![handle] })
            },
            DynMethodForm::DeleteKey => {
                let k = self.lower_expr(&args[0]);
                proof {
                    lemma_step_trans(&s0, &s1, self);
                    crate::lower::lemma_node_kept(&s1, self, handle as int);
                }
                Some(ir::Stmt::SysTask { which: SysTaskId::AssocDeleteKey, args: vec![handle, k] })
            },
            DynMethodForm::DeleteIdx => {
                let i = self.lower_expr(&args[0]);
                proof {
                    lemma_step_trans(&s0, &s1, self);
                    crate::lower::lemma_node_kept(&s1, self, handle as int);
                }
                Some(ir::Stmt::SysTask { which: SysTaskId::QDeleteIdx, args: vec![handle, i] })
            },
            DynMethodForm::Insert => {
                let i = self.lower_expr(&args[0]);
                let ghost s2: Elaborator = *self;
                let v = self.lower_expr(&args[1]);
                proof {
                    lemma_step_trans(&s0, &s1, &s2);
                    lemma_step_trans(&s0, &s2, self);
                    lemma_step_trans(&s1, &s2, self);
                    lemma_lowered_kept(&s2, self, args@[0], i as int);
                    crate::lower::lemma_node_kept(&s1, self, handle as int);
                }
                Some(ir::Stmt::SysTask { which: SysTaskId::QInsert, args: vec![handle, i, v] })
            },
            DynMethodForm::Order { which } => Some(ir::Stmt::SysTask { which, args: vec![handle] }),
            DynMethodForm::Pop { front } => {
                let (ew, es) = match self.handle_elem_type(net) {
                    Some(t) => t,
                    None => (32, false),
                };
                let sink = self.nets.len() as u32;
                self.nets.push(NetVar { kind: NetKind::Reg, width: ew, signed: es });
                let which = if front {
                    SysFuncId::QPopFront
                } else {
                    SysFuncId::QPopBack
                };
                let pid = self.push_expr(ir::Expr::SysFunc { which, args: vec![handle] });
                proof {
                    assert(self.exprs@.take(s0.exprs@.len() as int) =~= s0.exprs@);
                }
                Some(
                    ir::Stmt::BlockingAssign {
                        lhs: ir::Lvalue { chunks: vec![LvChunk { net: sink, word: None, offset: None, width: None }] },
                        rhs: pid,
                    },
                )
            },
            DynMethodForm::Refused => {
                let msg = dyn_method_refusal_msg(kind, method, args.len());
                self.report_unsupported(msg.as_str());
                proof {
                    lemma_step_trans(&s0, &s1, self);
                }
                None
            },
        }
    }
}

} // verus!
