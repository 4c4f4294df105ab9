use lib::ast::{BinOp, CastPrim, CastTarget, Expr, HierPath, IntLit, IntLitKind, LitShape, Lvalue, SysName, UnOp};
use lib::elab::{Elaborator, IdentRoute, MsgCode, Severity, WideConst};
use lib::ir;
use lib::ir::{ConstRepr, ConstVal, NetKind, NetVar, SysFuncId};
use lib::dyn_assign::DynAssign;
use lib::dyn_method::{classify_dyn_method, DynMethodForm};
use lib::lower::{expr_contains_fill, lit_const_exec, ones_exec};

fn path(n: &str) -> HierPath {
    HierPath { segments: vec![n.to_string()] }
}

fn ident(n: &str) -> Expr {
    Expr::Ident(path(n))
}

fn dec(v: i64) -> Expr {
    Expr::IntLit(IntLit {
        kind: IntLitKind::Decimal,
        parsed: Some(LitShape { width: 32, signed: true }),
        value: Some(v),
        fill: false,
    })
}

fn sized(width: u32, v: i64) -> Expr {
    Expr::IntLit(IntLit { kind: IntLitKind::Sized, parsed: Some(LitShape { width, signed: false }), value: Some(v), fill: false })
}

fn fill_lit(digit: Option<i64>) -> IntLit {
    IntLit { kind: IntLitKind::Based, parsed: None, value: digit, fill: true }
}

fn fill(digit: i64) -> Expr {
    Expr::IntLit(fill_lit(Some(digit)))
}

fn bin(op: BinOp, a: Expr, b: Expr) -> Expr {
    Expr::Binary { op, lhs: Box::new(a), rhs: Box::new(b) }
}

/// An elaborator with the nets `a` (8 bits), `b` (4 bits, signed), `r`
/// (real), `s` (string) and `arr` (a fixed array of 16-bit words) in scope.
fn scope() -> Elaborator {
    let mut el = Elaborator::new();
    el.nets.push(NetVar { kind: NetKind::Reg, width: 8, signed: false });
    el.nets.push(NetVar { kind: NetKind::Reg, width: 4, signed: true });
    el.nets.push(NetVar { kind: NetKind::Real, width: 64, signed: true });
    el.nets.push(NetVar { kind: NetKind::String, width: 0, signed: false });
    el.nets.push(NetVar { kind: NetKind::Reg, width: 16, signed: false });
    el.tables.scope_nets.push(("a".to_string(), 0));
    el.tables.scope_nets.push(("b".to_string(), 1));
    el.tables.scope_nets.push(("r".to_string(), 2));
    el.tables.scope_nets.push(("s".to_string(), 3));
    el.tables.scope_nets.push(("arr".to_string(), 4));
    el.tables.static_array_nets.push(4);
    el
}

fn const_of(el: &Elaborator, id: u32) -> ConstVal {
    match &el.exprs[id as usize] {
        ir::Expr::Const { val } => el.consts[*val as usize],
        other => panic!("not a constant: {:?}", other),
    }
}

#[test]
fn ones_and_literal_constants() {
    assert_eq!(ones_exec(0), 0);
    assert_eq!(ones_exec(4), 0xf);
    assert_eq!(ones_exec(64), u64::MAX);
    assert_eq!(ones_exec(70), u64::MAX);
    let one = lit_const_exec(&fill_lit(Some(1)), 8).unwrap();
    assert_eq!(one, ConstVal { width: 8, signed: false, repr: ConstRepr::Numeric, bits: 0xff });
    let zero = lit_const_exec(&fill_lit(Some(0)), 8).unwrap();
    assert_eq!(zero.bits, 0);
    assert_eq!(lit_const_exec(&fill_lit(None), 8), None);
    let l = IntLit { kind: IntLitKind::Sized, parsed: Some(LitShape { width: 4, signed: true }), value: Some(3), fill: false };
    assert_eq!(lit_const_exec(&l, 99), Some(ConstVal { width: 4, signed: true, repr: ConstRepr::Numeric, bits: 3 }));
}

#[test]
fn fill_detection() {
    assert!(expr_contains_fill(&bin(BinOp::Add, ident("a"), fill(1))));
    assert!(expr_contains_fill(&Expr::Concat(vec![ident("a"), fill(0)])));
    assert!(!expr_contains_fill(&bin(BinOp::Add, ident("a"), dec(1))));
    assert!(!expr_contains_fill(&Expr::Call { name: path("f"), args: vec![fill(1)] }));
}

#[test]
fn size_ctx_widths() {
    let mut el = scope();
    el.tables.ident_routes.push(("P".to_string(), IdentRoute::Param { v: 5, meta: Some((12, false)), guessed: false }));
    el.tables.ident_routes.push(("Q".to_string(), IdentRoute::Param { v: 5, meta: None, guessed: true }));
    el.tables.ident_routes.push((
        "W".to_string(),
        IdentRoute::Wide(WideConst { width: 100, signed: false }),
    ));
    assert_eq!(el.size_ctx_self_width(&bin(BinOp::Add, ident("a"), ident("b"))), Some(8));
    assert_eq!(el.size_ctx_self_width(&bin(BinOp::Eq, ident("a"), ident("b"))), Some(1));
    assert_eq!(el.size_ctx_self_width(&bin(BinOp::Shl, ident("b"), ident("a"))), Some(4));
    // a fill adds nothing to the widest operand
    assert_eq!(el.size_ctx_self_width(&bin(BinOp::Add, ident("b"), fill(1))), Some(4));
    assert_eq!(el.size_ctx_self_width(&Expr::Concat(vec![ident("a"), ident("b")])), Some(12));
    let rep = Expr::Replicate { count: Box::new(dec(3)), value: vec![ident("b")] };
    assert_eq!(el.size_ctx_self_width(&rep), Some(12));
    assert_eq!(el.size_ctx_self_width(&ident("P")), Some(12));
    assert_eq!(el.size_ctx_self_width(&ident("Q")), None);
    assert_eq!(el.size_ctx_self_width(&ident("W")), Some(100));
    // a string has no width; a whole fixed array is no value
    assert_eq!(el.size_ctx_self_width(&ident("s")), None);
    assert_eq!(el.size_ctx_self_width(&ident("arr")), None);
    // an element of the array is a word, a bit of a vector one bit
    let elem = Expr::BitSelect { base: Box::new(ident("arr")), index: Box::new(dec(0)) };
    assert_eq!(el.size_ctx_self_width(&elem), Some(16));
    let bit = Expr::BitSelect { base: Box::new(ident("a")), index: Box::new(dec(0)) };
    assert_eq!(el.size_ctx_self_width(&bit), Some(1));
    let part = Expr::PartSelect { base: Box::new(ident("a")), msb: Box::new(dec(5)), lsb: Box::new(dec(2)) };
    assert_eq!(el.size_ctx_self_width(&part), Some(4));
    let cast = Expr::Cast { target: CastTarget::Prim(CastPrim::Shortint), expr: Box::new(ident("a")) };
    assert_eq!(el.size_ctx_self_width(&cast), Some(16));
    let sz = Expr::Cast { target: CastTarget::Size(Box::new(dec(6))), expr: Box::new(ident("a")) };
    assert_eq!(el.size_ctx_self_width(&sz), Some(6));
    let signed = Expr::SysCall { name: SysName::Signed, args: vec![ident("a")] };
    assert_eq!(el.size_ctx_self_width(&signed), Some(8));
    assert_eq!(el.size_ctx_self_width(&Expr::Call { name: path("f"), args: vec![] }), None);
}

#[test]
fn fill_grows_to_the_context() {
    let mut el = scope();
    let id = el.lower_expr_ctx(&fill(1), 8);
    assert_eq!(const_of(&el, id), ConstVal { width: 8, signed: false, repr: ConstRepr::Numeric, bits: 0xff });
    // no context: a self-determined fill is one bit
    let id1 = el.lower_expr(&fill(1));
    assert_eq!(const_of(&el, id1).width, 1);
    // a zero context still gives one bit
    let id0 = el.lower_expr_ctx(&fill(1), 0);
    assert_eq!(const_of(&el, id0).width, 1);
    assert!(el.diags.is_empty());
}

#[test]
fn fill_operand_takes_the_wider_of_context_and_sibling() {
    let mut el = scope();
    // a + '1 under a 4-bit context: the fill is 8 bits wide (a's width)
    let id = el.lower_expr_ctx(&bin(BinOp::Add, ident("a"), fill(1)), 4);
    match &el.exprs[id as usize] {
        ir::Expr::Binary { op, lhs, rhs } => {
            assert_eq!(*op, ir::BinOp::Add);
            assert!(matches!(el.exprs[*lhs as usize], ir::Expr::Signal { net: 0, word: None }));
            assert_eq!(const_of(&el, *rhs).width, 8);
            assert_eq!(const_of(&el, *rhs).bits, 0xff);
        },
        other => panic!("unexpected node {:?}", other),
    }
    // under a 16-bit context the context wins
    let id2 = el.lower_expr_ctx(&bin(BinOp::Add, ident("a"), fill(1)), 16);
    match &el.exprs[id2 as usize] {
        ir::Expr::Binary { rhs, .. } => assert_eq!(const_of(&el, *rhs).width, 16),
        other => panic!("unexpected node {:?}", other),
    }
    // a comparison ignores the outer context
    let id3 = el.lower_expr_ctx(&bin(BinOp::Lt, ident("a"), fill(1)), 32);
    match &el.exprs[id3 as usize] {
        ir::Expr::Binary { op, rhs, .. } => {
            assert_eq!(*op, ir::BinOp::Lt);
            assert_eq!(const_of(&el, *rhs).width, 8);
        },
        other => panic!("unexpected node {:?}", other),
    }
    // a shift passes the context to its left operand only
    let id4 = el.lower_expr_ctx(&bin(BinOp::Shl, fill(1), fill(1)), 16);
    match &el.exprs[id4 as usize] {
        ir::Expr::Binary { lhs, rhs, .. } => {
            assert_eq!(const_of(&el, *lhs).width, 16);
            assert_eq!(const_of(&el, *rhs).width, 1);
        },
        other => panic!("unexpected node {:?}", other),
    }
}

#[test]
fn ternary_branches_size_each_other() {
    let mut el = scope();
    let e = Expr::Ternary { cond: Box::new(ident("b")), then_e: Box::new(fill(1)), else_e: Box::new(sized(32, 7)) };
    // lower_expr routes a fill-bearing operator through the context lowering
    let id = el.lower_expr(&e);
    match &el.exprs[id as usize] {
        ir::Expr::Ternary { then_e, else_e, .. } => {
            assert_eq!(const_of(&el, *then_e).width, 32);
            assert_eq!(const_of(&el, *else_e).bits, 7);
        },
        other => panic!("unexpected node {:?}", other),
    }
}

#[test]
fn real_operands_route_and_refuse() {
    let mut el = scope();
    // a real `**` becomes $pow
    let id = el.lower_expr(&bin(BinOp::Pow, ident("r"), dec(2)));
    assert!(matches!(&el.exprs[id as usize], ir::Expr::SysFunc { which: SysFuncId::Pow, .. }));
    assert!(el.diags.is_empty());
    // `%` on a real is refused once and keeps its node
    let id2 = el.lower_expr(&bin(BinOp::Mod, ident("r"), dec(2)));
    assert!(matches!(&el.exprs[id2 as usize], ir::Expr::Binary { op: ir::BinOp::Mod, .. }));
    assert_eq!(el.diags.len(), 1);
    assert_eq!(el.diags[0].message, "modulo (%) not defined on real operand");
    // `~` on a real is refused and keeps its node
    let un = Expr::Unary { op: UnOp::BitNot, operand: Box::new(ident("r")) };
    let id3 = el.lower_expr(&un);
    assert!(matches!(&el.exprs[id3 as usize], ir::Expr::Unary { op: ir::UnOp::BitNot, .. }));
    assert_eq!(el.diags.len(), 2);
    assert_eq!(el.diags[1].severity, Severity::Error);
    assert_eq!(el.diags[1].code, MsgCode::ElabUnsupported);
    assert!(el.had_error);
}

#[test]
fn string_comparison_and_refusals() {
    let mut el = scope();
    el.tables.ident_routes.push(("s".to_string(), IdentRoute::Str));
    let id = el.lower_expr(&bin(BinOp::Lt, ident("s"), Expr::StrLit));
    match &el.exprs[id as usize] {
        ir::Expr::Binary { op, lhs, rhs } => {
            assert_eq!(*op, ir::BinOp::Lt);
            assert!(matches!(&el.exprs[*lhs as usize], ir::Expr::SysFunc { which: SysFuncId::StrCmp, .. }));
            assert_eq!(const_of(&el, *rhs), ConstVal { width: 32, signed: true, repr: ConstRepr::Numeric, bits: 0 });
        },
        other => panic!("unexpected node {:?}", other),
    }
    // a form outside the lowering is one error and the placeholder
    let before = el.diags.len();
    let p = el.lower_expr(&bin(BinOp::WildEq, ident("a"), ident("b")));
    assert_eq!(const_of(&el, p), ConstVal { width: 1, signed: false, repr: ConstRepr::Numeric, bits: 0 });
    assert_eq!(el.diags.len(), before + 1);
    let q = el.lower_expr(&ident("nope"));
    assert_eq!(const_of(&el, q).width, 1);
    assert_eq!(el.diags.len(), before + 2);
}

#[test]
fn names_lower_to_nets_and_parameters() {
    let mut el = scope();
    el.tables.ident_routes.push(("P".to_string(), IdentRoute::Param { v: 5, meta: Some((12, false)), guessed: false }));
    let id = el.lower_expr(&ident("b"));
    assert!(matches!(el.exprs[id as usize], ir::Expr::Signal { net: 1, word: None }));
    let p = el.lower_expr(&ident("P"));
    assert_eq!(const_of(&el, p), ConstVal { width: 12, signed: false, repr: ConstRepr::Numeric, bits: 5 });
    // parentheses add no node
    let before = el.exprs.len();
    let q = el.lower_expr(&Expr::Paren(Box::new(ident("a"))));
    assert_eq!(el.exprs.len(), before + 1);
    assert_eq!(q as usize, before);
}

fn net_dyn(el: &mut Elaborator, kind: NetKind, width: u32, signed: bool) -> u32 {
    el.nets.push(NetVar { kind, width, signed });
    (el.nets.len() - 1) as u32
}

#[test]
fn dyn_method_statement_table() {
    let m = |s: &str| s.to_string();
    assert_eq!(classify_dyn_method(NetKind::Queue, &m("push_front"), 1), DynMethodForm::Push { front: true });
    assert_eq!(classify_dyn_method(NetKind::DynArray, &m("push_back"), 1), DynMethodForm::Refused);
    assert_eq!(classify_dyn_method(NetKind::DynArray, &m("delete"), 0), DynMethodForm::DeleteAll);
    assert_eq!(classify_dyn_method(NetKind::AssocStr, &m("delete"), 1), DynMethodForm::DeleteKey);
    assert_eq!(classify_dyn_method(NetKind::Queue, &m("delete"), 1), DynMethodForm::DeleteIdx);
    assert_eq!(classify_dyn_method(NetKind::Queue, &m("insert"), 2), DynMethodForm::Insert);
    assert_eq!(
        classify_dyn_method(NetKind::DynArray, &m("rsort"), 0),
        DynMethodForm::Order { which: ir::SysTaskId::ArrRsort }
    );
    assert_eq!(classify_dyn_method(NetKind::Assoc, &m("sort"), 0), DynMethodForm::Refused);
    assert_eq!(classify_dyn_method(NetKind::Queue, &m("pop_back"), 0), DynMethodForm::Pop { front: false });
}

#[test]
fn dyn_method_statements_lower() {
    let mut el = scope();
    let q = net_dyn(&mut el, NetKind::Queue, 8, true);
    let r = el.lower_dyn_method_stmt(q, NetKind::Queue, &"push_back".to_string(), &vec![ident("a")]).unwrap();
    let handle = (el.exprs.len() - 2) as u32;
    assert!(matches!(el.exprs[handle as usize], ir::Expr::Signal { net, word: None } if net == q));
    match r {
        ir::Stmt::SysTask { which, args } => {
            assert_eq!(which, ir::SysTaskId::QPushBack);
            assert_eq!(args.len(), 2);
            assert_eq!(args[0], handle);
        },
        other => panic!("unexpected statement {:?}", other),
    }
    let ins = el.lower_dyn_method_stmt(q, NetKind::Queue, &"insert".to_string(), &vec![dec(0), ident("b")]).unwrap();
    assert!(matches!(ins, ir::Stmt::SysTask { which: ir::SysTaskId::QInsert, ref args } if args.len() == 3));
    // a discarded pop writes a fresh sink net of the element's type
    let nets_before = el.nets.len() as u32;
    let pop = el.lower_dyn_method_stmt(q, NetKind::Queue, &"pop_front".to_string(), &vec![]).unwrap();
    assert_eq!(el.nets[nets_before as usize], NetVar { kind: NetKind::Reg, width: 8, signed: true });
    match pop {
        ir::Stmt::BlockingAssign { lhs, rhs } => {
            assert_eq!(lhs.chunks[0].net, nets_before);
            assert!(matches!(&el.exprs[rhs as usize], ir::Expr::SysFunc { which: SysFuncId::QPopFront, .. }));
        },
        other => panic!("unexpected statement {:?}", other),
    }
    assert!(el.diags.is_empty());
    // refusals: one error each, no statement
    assert!(el.lower_dyn_method_stmt(q, NetKind::Queue, &"size".to_string(), &vec![]).is_none());
    assert_eq!(el.diags[0].message, "value-returning method used as a statement");
    assert!(el.lower_dyn_method_stmt(q, NetKind::Queue, &"frob".to_string(), &vec![]).is_none());
    assert_eq!(el.diags[1].message, "unknown or kind-mismatched dynamic-storage method `.frob()`");
    let d = net_dyn(&mut el, NetKind::DynArray, 8, false);
    assert!(el.lower_dyn_method_stmt(d, NetKind::DynArray, &"delete".to_string(), &vec![dec(1)]).is_none());
    assert_eq!(el.diags[2].message, "indexed delete(i) is a queue/assoc method (a dyn array only supports delete())");
}

#[test]
fn casts_by_target() {
    let mut el = scope();
    // signed'(a): the sign stamp over a's read
    let id = el.lower_cast(&CastTarget::Signing { signed: true }, &ident("a"));
    match &el.exprs[id as usize] {
        ir::Expr::SysFunc { which, args } => {
            assert_eq!(*which, SysFuncId::Signed);
            assert!(matches!(el.exprs[args[0] as usize], ir::Expr::Signal { net: 0, word: None }));
        },
        other => panic!("unexpected node {:?}", other),
    }
    assert!(el.diags.is_empty());
    // unsigned'(r) of a real: one error, the placeholder
    let p = el.lower_cast(&CastTarget::Signing { signed: false }, &ident("r"));
    assert_eq!(const_of(&el, p), ConstVal { width: 1, signed: false, repr: ConstRepr::Numeric, bits: 0 });
    assert_eq!(el.diags.len(), 1);
    assert_eq!(el.diags[0].message, "signed'/unsigned' cast is not defined on a real operand");
    // a type parameter: resolved or refused
    let t = CastTarget::SigningParam { shape_param: "T".to_string() };
    let q = el.lower_cast(&t, &ident("a"));
    assert_eq!(const_of(&el, q).width, 1);
    assert_eq!(el.diags.len(), 2);
    el.tables.type_param_signs.push(("T".to_string(), false));
    let u = el.lower_cast(&t, &ident("b"));
    assert!(matches!(&el.exprs[u as usize], ir::Expr::SysFunc { which: SysFuncId::Unsigned, .. }));
    assert_eq!(el.diags.len(), 2);
}

#[test]
fn real_and_primitive_casts() {
    let mut el = scope();
    // real'(a) converts; real'(r) is r itself
    let id = el.lower_cast(&CastTarget::Prim(CastPrim::Real), &ident("a"));
    assert!(matches!(&el.exprs[id as usize], ir::Expr::SysFunc { which: SysFuncId::Itor, .. }));
    let before = el.exprs.len();
    let r = el.lower_cast(&CastTarget::Prim(CastPrim::Real), &ident("r"));
    assert_eq!(r as usize, before);
    assert!(matches!(el.exprs[r as usize], ir::Expr::Signal { net: 2, word: None }));
    // int'(r): round, keep the low 32 bits, stamp signed
    let start = el.exprs.len();
    let i = el.lower_cast(&CastTarget::Prim(CastPrim::Int), &ident("r"));
    assert_eq!(i as usize, start + 5);
    assert!(matches!(&el.exprs[start + 1], ir::Expr::SysFunc { which: SysFuncId::RealToInt, .. }));
    assert!(matches!(&el.exprs[i as usize], ir::Expr::SysFunc { which: SysFuncId::Signed, .. }));
    assert!(el.diags.is_empty());
    // a size cast of width 0 is refused with its own message
    let z = el.lower_cast(&CastTarget::Size(Box::new(dec(0))), &ident("a"));
    assert_eq!(const_of(&el, z).width, 1);
    assert_eq!(el.diags[0].message, "size cast width must be a positive constant expression");
}

fn lv(n: &str) -> Lvalue {
    Lvalue::Ident(path(n))
}

#[test]
fn whole_handle_assignments() {
    let mut el = scope();
    let q1 = net_dyn(&mut el, NetKind::Queue, 8, false);
    let q2 = net_dyn(&mut el, NetKind::Queue, 8, false);
    let d = net_dyn(&mut el, NetKind::DynArray, 8, false);
    let q3 = net_dyn(&mut el, NetKind::Queue, 16, false);
    el.tables.scope_nets.push(("q1".to_string(), q1));
    el.tables.scope_nets.push(("q2".to_string(), q2));
    el.tables.scope_nets.push(("d".to_string(), d));
    el.tables.scope_nets.push(("q3".to_string(), q3));
    // a deep copy between handles of one kind and element type
    assert!(matches!(el.dyn_blocking_special(&lv("q1"), false, &ident("q2")), Some(DynAssign::HandleCopy { dst, src }) if dst == q1 && src == q2));
    // a self-copy is nothing
    assert!(matches!(el.dyn_blocking_special(&lv("q1"), false, &ident("q1")), Some(DynAssign::Done)));
    assert!(el.diags.is_empty());
    // kinds and element types must agree
    assert!(matches!(el.dyn_blocking_special(&lv("q1"), false, &ident("d")), Some(DynAssign::Done)));
    assert_eq!(el.diags.len(), 1);
    assert!(matches!(el.dyn_blocking_special(&lv("q1"), false, &ident("q3")), Some(DynAssign::Done)));
    assert_eq!(el.diags[1].message, "whole-handle copy needs matching element types on both sides (width/sign/state)");
    // a plain read takes the plain path
    assert!(el.dyn_blocking_special(&lv("a"), false, &ident("b")).is_none());
    // a queue slice
    let slice = Expr::PartSelect { base: Box::new(ident("q2")), msb: Box::new(dec(1)), lsb: Box::new(dec(3)) };
    let before = el.exprs.len() as u32;
    match el.dyn_blocking_special(&lv("q1"), false, &slice) {
        Some(DynAssign::QueueSlice { args }) => {
            assert_eq!(args.len(), 4);
            assert_eq!(args[0], before);
            assert_eq!(args[1], before + 1);
            assert!(matches!(el.exprs[args[1] as usize], ir::Expr::Signal { net, word: None } if net == q2));
        },
        other => panic!("unexpected {:?}", other),
    }
    // new[n] of a dynamic array, refused for a queue
    let alloc = Expr::New { size: Box::new(dec(4)) };
    assert!(matches!(el.dyn_blocking_special(&lv("d"), false, &alloc), Some(DynAssign::Alloc { ref args }) if args.len() == 2));
    let n_before = el.diags.len();
    assert!(matches!(el.dyn_blocking_special(&lv("q1"), false, &alloc), Some(DynAssign::Done)));
    assert_eq!(el.diags.len(), n_before + 1);
    // a pop into a net
    let pop = Expr::Call { name: HierPath { segments: vec!["q1".to_string(), "pop_front".to_string()] }, args: vec![] };
    match el.dyn_blocking_special(&lv("a"), false, &pop) {
        Some(DynAssign::Pop { stmt: ir::Stmt::BlockingAssign { lhs, rhs } }) => {
            assert_eq!(lhs.chunks[0].net, 0);
            assert!(matches!(&el.exprs[rhs as usize], ir::Expr::SysFunc { which: SysFuncId::QPopFront, .. }));
        },
        other => panic!("unexpected {:?}", other),
    }
    // a delayed pop is refused
    assert!(matches!(el.dyn_blocking_special(&lv("a"), true, &pop), Some(DynAssign::Done)));
    assert_eq!(el.diags.last().unwrap().message, "a delayed queue-pop assignment is outside the MVP");
}

#[test]
fn concatenations_lower_their_parts_in_order() {
    let mut el = scope();
    let id = el.lower_expr(&Expr::Concat(vec![ident("a"), fill(1), ident("b")]));
    match &el.exprs[id as usize] {
        ir::Expr::Concat { parts } => {
            assert_eq!(parts.len(), 3);
            assert!(matches!(el.exprs[parts[0] as usize], ir::Expr::Signal { net: 0, word: None }));
            // a fill in a concatenation is self-determined: one bit
            assert_eq!(const_of(&el, parts[1]).width, 1);
            assert!(matches!(el.exprs[parts[2] as usize], ir::Expr::Signal { net: 1, word: None }));
            assert!(parts[0] < parts[1] && parts[1] < parts[2]);
        },
        other => panic!("unexpected node {:?}", other),
    }
    assert!(el.diags.is_empty());
    // a real part is reported, the node kept
    let r = el.lower_expr(&Expr::Concat(vec![ident("r"), ident("a")]));
    assert!(matches!(el.exprs[r as usize], ir::Expr::Concat { .. }));
    assert_eq!(el.diags[0].message, "real may not appear in concatenation (use $realtobits)");
}
