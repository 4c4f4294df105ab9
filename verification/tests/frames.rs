use lib::ast::{
    Dim, Expr, FunctionDef, HierPath, IntLit, IntLitKind, LitShape, Lvalue, ParamType, PortDir, Range, Stmt,
    TaskDef, TfPort,
};
use lib::elab::{Elaborator, FuncEntry, MsgCode, Severity};
use lib::frame_check::FrameReject;
use lib::frame_unsafe::{ForkAdmit, PendingTask};
use lib::ir;
use lib::ir::{Block, DisableKind, FuncMeta, LvChunk, NetKind, NetVar, SysTaskId, Terminator};

fn path(n: &str) -> HierPath {
    HierPath { segments: vec![n.to_string()] }
}

fn ident(n: &str) -> Expr {
    Expr::Ident(path(n))
}

fn dec(v: i64) -> Expr {
    Expr::IntLit(IntLit {
        kind: IntLitKind::Decimal,
        parsed: Some(LitShape { width: 32, signed: true }),
        value: Some(v),
        fill: false,
    })
}

fn call(n: &str) -> Expr {
    Expr::Call { name: path(n), args: vec![] }
}

fn assign(lhs: &str, rhs: Expr) -> Stmt {
    Stmt::Blocking { lhs: Lvalue::Ident(path(lhs)), rhs, delay: false, event: false }
}

fn port(n: &str, dir: PortDir, unpacked: Vec<Dim>) -> TfPort {
    TfPort { name: n.to_string(), dir, net_or_var: None, signed: false, range: None, unpacked, default: None }
}

fn func(name: &str, body: Stmt, automatic: bool) -> FunctionDef {
    FunctionDef {
        name: name.to_string(),
        ports: vec![port("a", PortDir::Input, vec![])],
        body_decls: vec![],
        body,
        automatic,
        ret_type: ParamType::Implicit,
        ret_two_state: false,
        ret_string: false,
        signed: false,
        range: None,
    }
}

fn entry(def: FunctionDef) -> FuncEntry {
    FuncEntry { def, widths: vec![], unknown_bv: vec![], ret_width: None, r2_inlinable: false }
}

fn has(v: &Vec<String>, n: &str) -> bool {
    v.iter().any(|s| s == n)
}

#[test]
fn function_frame_set_direct_and_recursive() {
    let mut el = Elaborator::new();
    let t = &mut el.tables.func_table;
    t.push(entry(func("plain", assign("plain", ident("a")), false)));
    t.push(entry(func("auto", assign("auto", ident("a")), true)));
    t.push(entry(func("selfrec", assign("selfrec", call("selfrec")), false)));
    t.push(entry(func("ping", assign("ping", call("pong")), false)));
    t.push(entry(func("pong", assign("pong", call("ping")), false)));
    t.push(entry(func("calls_plain", assign("calls_plain", call("plain")), false)));
    t.push(entry(func("ctl", Stmt::Return { value: Some(ident("a")) }, false)));
    let mut s = func("str", assign("str", ident("a")), true);
    s.ret_string = true;
    let mut se = entry(s);
    se.r2_inlinable = true;
    t.push(se);
    let mut alias = entry(func("alias", Stmt::Return { value: None }, true));
    alias.r2_inlinable = true;
    t.push(alias);
    let mut arr = func("arr", assign("arr", ident("a")), false);
    arr.ports.push(port("m", PortDir::Input, vec![Dim::Size(dec(4))]));
    t.push(entry(arr));
    let set = el.build_frame_set();
    assert!(!has(&set, "plain"));
    assert!(has(&set, "auto"));
    assert!(has(&set, "selfrec"));
    assert!(has(&set, "ping"));
    assert!(has(&set, "pong"));
    assert!(!has(&set, "calls_plain"));
    assert!(has(&set, "ctl"));
    assert!(has(&set, "str"));
    assert!(!has(&set, "alias"));
    assert!(has(&set, "arr"));
}

fn task(name: &str, body: Stmt, automatic: bool, ports: Vec<TfPort>) -> TaskDef {
    TaskDef { name: name.to_string(), ports, body, automatic }
}

fn enable(n: &str) -> Stmt {
    Stmt::TaskCall { name: path(n), args: vec![] }
}

#[test]
fn task_frame_set_direct_and_recursive() {
    let mut el = Elaborator::new();
    el.tables.hier_called_task_names.push("remote".to_string());
    let t = &mut el.tables.task_table;
    t.push(task("plain", Stmt::Null, false, vec![]));
    t.push(task("auto", Stmt::Null, true, vec![]));
    t.push(task("remote", Stmt::Null, false, vec![]));
    t.push(task("outdyn", Stmt::Null, false, vec![port("q", PortDir::Output, vec![Dim::Dyn])]));
    t.push(task("indyn", Stmt::Null, false, vec![port("q", PortDir::Input, vec![Dim::Dyn])]));
    t.push(task(
        "fixed",
        Stmt::Null,
        false,
        vec![port("m", PortDir::Input, vec![Dim::Range(Range { msb: dec(3), lsb: dec(0) }), Dim::Size(dec(2))])],
    ));
    t.push(task("rec", enable("rec"), false, vec![]));
    t.push(task("a", Stmt::Block { decls: vec![], stmts: vec![enable("b")] }, false, vec![]));
    t.push(task("b", enable("a"), false, vec![]));
    t.push(task("caller", enable("plain"), false, vec![]));
    let set = el.build_task_frame_set();
    assert!(!has(&set, "plain"));
    assert!(has(&set, "auto"));
    assert!(has(&set, "remote"));
    assert!(has(&set, "outdyn"));
    assert!(!has(&set, "indyn"));
    assert!(has(&set, "fixed"));
    assert!(has(&set, "rec"));
    assert!(has(&set, "a"));
    assert!(has(&set, "b"));
    assert!(!has(&set, "caller"));
}

fn chunk(net: u32) -> LvChunk {
    LvChunk { net, word: None, offset: None, width: None }
}

fn blocking(chunks: Vec<LvChunk>) -> ir::Stmt {
    ir::Stmt::BlockingAssign { lhs: ir::Lvalue { chunks }, rhs: 0 }
}

/// Nets 0..4 are module nets, 4..8 the frame's locals (7 a dynamic array);
/// block 0 branches to 1 and 2, which both go to 3, which returns.
fn body_elaborator() -> Elaborator {
    let mut el = Elaborator::new();
    for _ in 0..7 {
        el.nets.push(NetVar { kind: NetKind::Reg, width: 8, signed: false });
    }
    el.nets.push(NetVar { kind: NetKind::DynArray, width: 8, signed: false });
    el.push_expr(ir::Expr::Signal { net: 7, word: None });
    el.push_expr(ir::Expr::Signal { net: 1, word: None });
    let b = &mut el.bodies;
    b.stmts.push(blocking(vec![chunk(5)]));
    b.func_blocks.push(Block { stmts: vec![0], term: Terminator::Branch { cond: 0, then_bb: 1, else_bb: 2 } });
    b.func_blocks.push(Block { stmts: vec![], term: Terminator::Goto { target: 3 } });
    b.func_blocks.push(Block { stmts: vec![], term: Terminator::Goto { target: 3 } });
    b.func_blocks.push(Block { stmts: vec![], term: Terminator::Return });
    el
}

#[test]
fn subset_body_is_accepted() {
    let el = body_elaborator();
    assert_eq!(el.classify_frame_body(0, 4, 4, false), None);
}

#[test]
fn write_outside_the_frame_is_refused() {
    let mut el = body_elaborator();
    el.bodies.stmts.push(blocking(vec![chunk(1)]));
    el.bodies.func_blocks[2].stmts.push(1);
    assert_eq!(el.classify_frame_body(0, 4, 4, false), Some(FrameReject::OutsideNet));
    // the same block unreachable from another entry is not read
    assert_eq!(el.classify_frame_body(3, 4, 4, false), None);
}

#[test]
fn select_writes_and_concat_targets() {
    let mut el = body_elaborator();
    let part = LvChunk { net: 5, word: None, offset: Some(0), width: Some(4) };
    el.bodies.stmts.push(blocking(vec![part]));
    el.bodies.func_blocks[1].stmts.push(1);
    // an in-frame scalar part-select is fine
    assert_eq!(el.classify_frame_body(0, 4, 4, false), None);
    el.bodies.frame_array_local.push(5);
    assert_eq!(el.classify_frame_body(0, 4, 4, false), Some(FrameReject::PartSelect));
    let mut el2 = body_elaborator();
    el2.bodies.stmts.push(blocking(vec![chunk(5), chunk(6)]));
    el2.bodies.func_blocks[3].stmts.push(1);
    assert_eq!(el2.classify_frame_body(0, 4, 4, false), Some(FrameReject::ConcatTarget));
    let mut el3 = body_elaborator();
    let elem = LvChunk { net: 7, word: Some(0), offset: None, width: None };
    el3.bodies.stmts.push(blocking(vec![elem]));
    el3.bodies.func_blocks[3].stmts.push(1);
    // an in-frame dynamic-array element write goes to the heap
    assert_eq!(el3.classify_frame_body(0, 4, 4, false), None);
}

#[test]
fn timing_terminators_and_task_calls() {
    let mut el = body_elaborator();
    el.bodies.func_blocks[2].term = Terminator::Call { func: 0, ret_bb: 3 };
    assert_eq!(el.classify_frame_body(0, 4, 4, false), Some(FrameReject::Timing));
    assert_eq!(el.classify_frame_body(0, 4, 4, true), None);
    el.bodies.func_blocks[1].term = Terminator::Delay { amount: 0, resume: 3 };
    assert_eq!(el.classify_frame_body(0, 4, 4, true), Some(FrameReject::Timing));
}

#[test]
fn system_tasks_in_a_frame_body() {
    let mut el = body_elaborator();
    el.bodies.stmts.push(ir::Stmt::SysTask { which: SysTaskId::DynNew, args: vec![0] });
    el.bodies.stmts.push(ir::Stmt::Disable { scope_kind: DisableKind::Scope });
    el.bodies.func_blocks[1].stmts.push(1);
    el.bodies.func_blocks[1].stmts.push(2);
    assert_eq!(el.classify_frame_body(0, 4, 4, false), None);
    el.bodies.stmts.push(ir::Stmt::SysTask { which: SysTaskId::Display, args: vec![] });
    el.bodies.func_blocks[2].stmts.push(3);
    assert_eq!(el.classify_frame_body(0, 4, 4, false), Some(FrameReject::SysTask));
    el.bodies.frame_print_stmts.push(3);
    assert_eq!(el.classify_frame_body(0, 4, 4, false), None);
    // a `new[]` on a module net stays refused
    el.bodies.stmts.push(ir::Stmt::SysTask { which: SysTaskId::DynDelete, args: vec![1] });
    el.bodies.func_blocks[3].stmts.push(4);
    assert_eq!(el.classify_frame_body(0, 4, 4, false), Some(FrameReject::SysTask));
}

#[test]
fn validate_frame_body_reports_once() {
    let mut el = body_elaborator();
    el.validate_frame_body("f", 0, 4, 4, false);
    assert!(el.diags.is_empty());
    el.bodies.stmts.push(ir::Stmt::Other);
    el.bodies.func_blocks[3].stmts.push(1);
    el.validate_frame_body("f", 0, 4, 4, false);
    assert_eq!(el.diags.len(), 1);
    assert!(el.had_error);
    assert_eq!(el.diags[0].severity, Severity::Error);
    assert_eq!(el.diags[0].code, MsgCode::ElabUnsupported);
    assert_eq!(
        el.diags[0].message,
        "frame function/task `f` body uses a $systask / nonblocking / force / release statement, which is outside the frame-call subset (only blocking assigns to its own locals, if/else/case/loops, and nested task calls are supported)"
    );
    assert_eq!(FrameReject::Timing.text(), "a timing/suspend/fork control (#delay, @, wait, fork)");
}

#[test]
fn frame_local_nets() {
    let mut el = Elaborator::new();
    el.func_metas.push(FuncMeta { base_net: 10, locals_len: 3, return_slot: 0, ret_width: 8, is_automatic: true, has_hier_call: false, contains_shared_fork: false });
    el.func_metas.push(FuncMeta { base_net: 20, locals_len: 0, return_slot: 0, ret_width: 8, is_automatic: false, has_hier_call: false, contains_shared_fork: false });
    assert!(!el.net_is_frame_local(9));
    assert!(el.net_is_frame_local(10));
    assert!(el.net_is_frame_local(12));
    assert!(!el.net_is_frame_local(13));
    assert!(!el.net_is_frame_local(20));
}

/// A task at block 0: 0 waits on net 1 (module) resuming at 1, which
/// forks arm 2 (join 3, continuation 3); 3 returns. Locals are nets 4..8.
fn task_elaborator() -> Elaborator {
    let mut el = body_elaborator();
    el.bodies.func_entries.push(0);
    el.bodies.func_blocks = vec![
        Block { stmts: vec![], term: Terminator::Wait { cond: ir::WaitCause::Edge { net: 1, kind: ir::EdgeKind::Posedge }, resume: 1 } },
        Block { stmts: vec![], term: Terminator::Fork { children: vec![2], join: 3, resume_bb: 3 } },
        Block { stmts: vec![0], term: Terminator::Return },
        Block { stmts: vec![], term: Terminator::Return },
    ];
    el
}

#[test]
fn suspendable_task_constructs() {
    let el = task_elaborator();
    assert!(!el.frame_task_has_unsafe_construct(0, 4, 4));
    // a nonblocking assignment to a frame local inside the fork arm
    let mut el2 = task_elaborator();
    el2.bodies.stmts.push(ir::Stmt::NonblockingAssign { lhs: ir::Lvalue { chunks: vec![chunk(6)] }, rhs: 0 });
    el2.bodies.func_blocks[2].stmts.push(1);
    assert!(el2.frame_task_has_unsafe_construct(0, 4, 4));
    // to a module net it is fine
    let mut el3 = task_elaborator();
    el3.bodies.stmts.push(ir::Stmt::NonblockingAssign { lhs: ir::Lvalue { chunks: vec![chunk(2)] }, rhs: 0 });
    el3.bodies.func_blocks[3].stmts.push(1);
    assert!(!el3.frame_task_has_unsafe_construct(0, 4, 4));
    // `disable fork`
    let mut el4 = task_elaborator();
    el4.bodies.stmts.push(ir::Stmt::Disable { scope_kind: DisableKind::Fork });
    el4.bodies.func_blocks[3].stmts.push(1);
    assert!(el4.frame_task_has_unsafe_construct(0, 4, 4));
    // a wait reading a frame local, and `wait fork`
    let mut el5 = task_elaborator();
    el5.bodies.func_blocks[0].term = Terminator::Wait { cond: ir::WaitCause::Level { nets: vec![1, 5] }, resume: 1 };
    assert!(el5.frame_task_has_unsafe_construct(0, 4, 4));
    let mut el6 = task_elaborator();
    el6.bodies.func_blocks[3].term = Terminator::Wait { cond: ir::WaitCause::Fork, resume: 3 };
    assert!(el6.frame_task_has_unsafe_construct(0, 4, 4));
    // a frame-local unpacked array
    let mut el7 = task_elaborator();
    el7.bodies.frame_array_local.push(7);
    assert!(el7.frame_task_has_unsafe_construct(0, 4, 4));
    assert!(!el7.frame_task_has_unsafe_construct(0, 8, 4));
}

#[test]
fn wait_conditions_reading_frame_locals() {
    let mut el = body_elaborator();
    // 2: net 1 + net 5
    let a = el.push_expr(ir::Expr::Signal { net: 5, word: None });
    let s = el.push_expr(ir::Expr::Binary { op: ir::BinOp::Add, lhs: 1, rhs: a });
    assert!(el.expr_reads_in(s, 4, 8));
    assert!(!el.expr_reads_in(1, 4, 8));
    assert!(el.wait_cond_reads_frame_local(&ir::WaitCause::Expr { expr: s }, 4, 8));
    assert!(!el.wait_cond_reads_frame_local(&ir::WaitCause::Named { ev: 2 }, 4, 8));
    assert!(el.wait_cond_reads_frame_local(&ir::WaitCause::Named { ev: 4 }, 4, 8));
    assert!(!el.wait_cond_reads_frame_local(&ir::WaitCause::Fork, 4, 8));
}

#[test]
fn the_reason_given_is_the_last_one_the_walk_meets() {
    // The walk visits 0, then the else arm 2, then 3, then the then arm 1.
    let mut el = body_elaborator();
    el.bodies.stmts.push(blocking(vec![chunk(1)]));
    el.bodies.stmts.push(ir::Stmt::Other);
    el.bodies.func_blocks[1].stmts.push(1);
    el.bodies.func_blocks[2].stmts.push(2);
    assert_eq!(el.classify_frame_body(0, 4, 4, false), Some(FrameReject::OutsideNet));
    let mut el2 = body_elaborator();
    el2.bodies.stmts.push(ir::Stmt::Other);
    el2.bodies.stmts.push(blocking(vec![chunk(1)]));
    el2.bodies.func_blocks[2].stmts.push(2);
    el2.bodies.func_blocks[3].stmts.push(1);
    assert_eq!(el2.classify_frame_body(0, 4, 4, false), Some(FrameReject::SysTask));
    el2.validate_frame_body("t", 0, 4, 4, false);
    assert!(el2.diags[0].message.contains("a $systask / nonblocking / force / release statement"));
}

#[test]
fn within_a_block_statements_outrank_the_terminator() {
    let mut el = body_elaborator();
    el.bodies.stmts.push(blocking(vec![chunk(1), LvChunk { net: 5, word: Some(0), offset: None, width: None }]));
    el.bodies.func_blocks[3].stmts.push(1);
    el.bodies.func_blocks[3].term = Terminator::Delay { amount: 0, resume: 3 };
    // the last refused chunk of the last refused statement decides
    assert_eq!(el.classify_frame_body(0, 4, 4, false), Some(FrameReject::PartSelect));
    el.bodies.func_blocks[3].stmts.clear();
    assert_eq!(el.classify_frame_body(0, 4, 4, false), Some(FrameReject::Timing));
}

fn meta(automatic: bool) -> FuncMeta {
    FuncMeta { base_net: 4, locals_len: 4, return_slot: 0, ret_width: 0, is_automatic: automatic, has_hier_call: false, contains_shared_fork: false }
}

#[test]
fn liftable_tasks_and_their_forks() {
    let mut el = task_elaborator();
    el.func_metas.push(meta(false));
    assert!(el.frame_body_is_leaf_nonsuspending(0, ForkAdmit::CaseA));
    assert!(!el.frame_body_is_leaf_nonsuspending(0, ForkAdmit::CaseB), "a static task shares its store");
    assert!(!el.frame_body_is_leaf_nonsuspending(0, ForkAdmit::Loud));
    el.func_metas[0].is_automatic = true;
    assert!(el.frame_body_is_leaf_nonsuspending(0, ForkAdmit::CaseB));
    assert!(!el.frame_body_is_leaf_nonsuspending(0, ForkAdmit::Loud));
    // without a fork on the task's activity no verdict matters
    el.bodies.func_blocks[1].term = Terminator::Call { func: 0, ret_bb: 3 };
    assert!(el.frame_body_is_leaf_nonsuspending(0, ForkAdmit::Loud));
    // a fork reached through a delay and a call's return block
    el.bodies.func_blocks[3].term = Terminator::Delay { amount: 0, resume: 2 };
    el.bodies.func_blocks[2].term = Terminator::Fork { children: vec![], join: 3, resume_bb: 3 };
    assert!(!el.frame_body_is_leaf_nonsuspending(0, ForkAdmit::Loud));
}

fn pending(name: &str, unsafe_repeat: bool, fork_verdict: ForkAdmit) -> PendingTask {
    PendingTask { fid: 0, name: name.to_string(), base_net: 4, locals_len: 4, unsafe_repeat, fork_verdict }
}

#[test]
fn deferred_frame_tasks_are_lifted_refused_or_checked() {
    let mut el = task_elaborator();
    el.func_metas.push(meta(true));
    el.resolve_frame_task_rejects(&vec![pending("t", false, ForkAdmit::CaseB)], &vec![0]);
    assert!(el.diags.is_empty());
    assert!(el.func_metas[0].contains_shared_fork);

    let mut el2 = task_elaborator();
    el2.func_metas.push(meta(true));
    el2.resolve_frame_task_rejects(&vec![pending("t", false, ForkAdmit::CaseA)], &vec![0]);
    assert!(el2.diags.is_empty());
    assert!(!el2.func_metas[0].contains_shared_fork);

    let mut el3 = task_elaborator();
    el3.func_metas.push(meta(true));
    el3.resolve_frame_task_rejects(
        &vec![pending("t", true, ForkAdmit::CaseA), pending("u", false, ForkAdmit::Loud)],
        &vec![0],
    );
    assert_eq!(el3.diags.len(), 2);
    assert!(el3.had_error);
    assert_eq!(el3.diags[0].code, MsgCode::ElabUnsupported);
    assert_eq!(
        el3.diags[1].message,
        "frame task `u` body uses a construct outside the supported suspendable-task subset (a `fork`, a frame-local unpacked ARRAY, a `wait`/`repeat` reading a frame-local, or a nonblocking assign to a frame-local) \u{2014} $display/NBA-to-module-net/@/#/wait-on-a-net and nested task calls ARE supported"
    );
    assert!(!el3.func_metas[0].contains_shared_fork);

    let mut el4 = task_elaborator();
    el4.func_metas.push(meta(false));
    el4.resolve_frame_task_rejects(&vec![pending("s", false, ForkAdmit::CaseA)], &vec![]);
    assert_eq!(el4.diags.len(), 1);
    assert_eq!(
        el4.diags[0].message,
        "frame function/task `s` body uses a timing/suspend/fork control (#delay, @, wait, fork), which is outside the frame-call subset (only blocking assigns to its own locals, if/else/case/loops, and nested task calls are supported)"
    );
}
