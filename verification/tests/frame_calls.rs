use lib::ast::{Dim, Expr, FunctionDef, HierPath, IntLit, IntLitKind, LitShape, ParamType, PortDir, Stmt, TaskDef, TfPort};
use lib::elab::Elaborator;
use lib::ir;
use lib::ir::{ConstVal, FuncMeta, LvChunk, NetKind, NetVar};

fn ident(n: &str) -> Expr {
    Expr::Ident(HierPath { segments: vec![n.to_string()] })
}

fn fill_one() -> Expr {
    Expr::IntLit(IntLit { kind: IntLitKind::Based, parsed: None, value: Some(1), fill: true })
}

fn dec(v: i64) -> Expr {
    Expr::IntLit(IntLit { kind: IntLitKind::Decimal, parsed: Some(LitShape { width: 32, signed: true }), value: Some(v), fill: false })
}

fn port(n: &str, dir: PortDir, unpacked: Vec<Dim>, default: Option<Expr>) -> TfPort {
    TfPort { name: n.to_string(), dir, net_or_var: None, signed: false, range: None, unpacked, default }
}

fn whole(net: u32) -> Vec<LvChunk> {
    vec![LvChunk { net, word: None, offset: None, width: None }]
}

/// Caller nets `x` (0) and `y` (1); frame 0 has its slots at nets 10..13:
/// 8, 1 and 4 bits wide.
fn setup() -> Elaborator {
    let mut el = Elaborator::new();
    for n in 0..13u32 {
        let width = match n {
            10 => 8,
            12 => 4,
            _ => 1,
        };
        el.nets.push(NetVar { kind: NetKind::Reg, width, signed: false });
    }
    el.tables.scope_nets.push(("x".to_string(), 0));
    el.tables.scope_nets.push(("y".to_string(), 1));
    el.func_metas.push(FuncMeta {
        base_net: 10,
        locals_len: 3,
        return_slot: 3,
        ret_width: 8,
        is_automatic: true,
        has_hier_call: false,
        contains_shared_fork: false,
    });
    el
}

fn const_of(el: &Elaborator, id: u32) -> ConstVal {
    match &el.exprs[id as usize] {
        ir::Expr::Const { val } => el.consts[*val as usize],
        other => panic!("not a constant: {:?}", other),
    }
}

fn three_port_task() -> TaskDef {
    TaskDef {
        name: "t".to_string(),
        ports: vec![
            port("a", PortDir::Input, vec![], None),
            port("b", PortDir::Output, vec![], None),
            port("c", PortDir::Inout, vec![], None),
        ],
        body: Stmt::Null,
        automatic: true,
    }
}

#[test]
fn task_call_binds_in_and_out_in_slot_order() {
    let mut el = setup();
    let task = three_port_task();
    let args = vec![fill_one(), ident("x"), ident("y")];
    let plan = el.emit_frame_task_call(0, &task, &args, &vec![true, true, true]).unwrap();
    assert_eq!(plan.callee, 0);
    // a (slot 0) and c (slot 2) are loaded, in that order
    assert_eq!(plan.in_binds.len(), 2);
    assert_eq!(plan.in_binds[0].0, 0);
    assert_eq!(plan.in_binds[1].0, 2);
    // the fill takes the width of its 8-bit slot
    let a = const_of(&el, plan.in_binds[0].1);
    assert_eq!(a.width, 8);
    assert_eq!(a.bits, 0xff);
    assert!(matches!(el.exprs[plan.in_binds[1].1 as usize], ir::Expr::Signal { net: 1, word: None }));
    // b (slot 1) copies back to x, c (slot 2) to y
    assert_eq!(plan.out_binds.len(), 2);
    assert_eq!(plan.out_binds[0].0, 1);
    assert_eq!(plan.out_binds[0].1.chunks, whole(0));
    assert_eq!(plan.out_binds[1].0, 2);
    assert_eq!(plan.out_binds[1].1.chunks, whole(1));
    assert!(el.diags.is_empty());
}

#[test]
fn task_call_defaults_and_refusals() {
    let mut el = setup();
    let mut task = three_port_task();
    task.ports[2] = port("c", PortDir::Input, vec![], Some(dec(9)));
    // c omitted: its default is loaded
    let plan = el.emit_frame_task_call(0, &task, &vec![dec(1), ident("x")], &vec![true, true, true]).unwrap();
    assert_eq!(plan.in_binds.len(), 2);
    assert_eq!(const_of(&el, plan.in_binds[1].1).bits, 9);
    // an output actual that is not a bare net binds nothing and is refused
    let before = el.diags.len();
    let plan2 = el.emit_frame_task_call(0, &task, &vec![dec(1), dec(2)], &vec![true, true, true]).unwrap();
    assert!(plan2.out_binds.is_empty());
    assert_eq!(el.diags.len(), before + 1);
    // an unpacked-array formal of a task is refused
    let arr_task = TaskDef {
        name: "u".to_string(),
        ports: vec![port("m", PortDir::Input, vec![Dim::Size(dec(4))], None)],
        body: Stmt::Null,
        automatic: true,
    };
    let plan3 = el.emit_frame_task_call(0, &arr_task, &vec![ident("x")], &vec![true]).unwrap();
    assert!(plan3.in_binds.is_empty());
    assert_eq!(el.diags.len(), before + 2);
}

#[test]
fn task_call_missing_actual_is_refused() {
    let mut el = setup();
    let task = three_port_task();
    let r = el.emit_frame_task_call(0, &task, &vec![dec(1)], &vec![true, true, true]);
    assert!(r.is_none());
    assert_eq!(el.diags.len(), 1);
    assert!(el.had_error);
}

#[test]
fn function_call_copies_the_return_slot_last() {
    let mut el = setup();
    let f = FunctionDef {
        name: "f".to_string(),
        ports: vec![
            port("a", PortDir::Input, vec![Dim::Size(dec(2))], None),
            port("b", PortDir::Output, vec![], None),
            port("d", PortDir::Inout, vec![Dim::Dyn], None),
        ],
        body_decls: vec![],
        body: Stmt::Null,
        automatic: true,
        ret_type: ParamType::Implicit,
        ret_two_state: false,
        ret_string: false,
        signed: false,
        range: None,
    };
    let ret = ir::Lvalue { chunks: whole(5) };
    let plan = el
        .emit_frame_func_out_call(0, &f, &vec![ident("x"), ident("y"), ident("x")], &vec![true, true, true], ret)
        .unwrap();
    // a function input of any shape is loaded
    assert_eq!(plan.in_binds.len(), 1);
    assert_eq!(plan.in_binds[0].0, 0);
    // b copies back to y, then the return slot (3) to net 5
    assert_eq!(plan.out_binds.len(), 2);
    assert_eq!(plan.out_binds[0].0, 1);
    assert_eq!(plan.out_binds[0].1.chunks, whole(1));
    assert_eq!(plan.out_binds[1].0, 3);
    assert_eq!(plan.out_binds[1].1.chunks, whole(5));
    // the dynamic-array inout is refused
    assert_eq!(el.diags.len(), 1);
}
