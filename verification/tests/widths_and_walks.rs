use lib::ast::{
    BinOp, DeclName, Expr, FunctionDef, HierPath, IntLit, IntLitKind, LitShape, Lvalue, NetVarDecl, NetVarKind,
    ParamType, PortDir, Range, Stmt, TfPort, UnOp,
};
use lib::calls::collect_callee_stmt;
use lib::elab::{Elaborator, SelfWidth};
use lib::expr_ctx::{
    assign_needs_context_width, ast_decimal_lit_i64, ast_expr_self_width, binop_is_widening, ctx_widening_below,
    ident_index_chain, map_binop, map_unop, range_width_exec,
};
use lib::frames_ast::{
    body_has_return, body_needs_frame, body_reads_only_locals, body_selects_mdpacked_local, collect_block_local_names,
    expr_reads_only_locals, stmt_has_timing,
};
use lib::graph::reachable_from;
use lib::ir;
use lib::ir::{ConstRepr, ConstVal, FuncMeta, LvChunk, NetKind, NetVar, SelKind, SysFuncId};
use lib::names::{lookup_first, lookup_last};

fn path(n: &str) -> HierPath {
    HierPath { segments: vec![n.to_string()] }
}

fn ident(n: &str) -> Expr {
    Expr::Ident(path(n))
}

fn dec(v: i64) -> Expr {
    Expr::IntLit(IntLit {
        kind: IntLitKind::Decimal,
        parsed: Some(LitShape { width: 32, signed: true }),
        value: Some(v),
        fill: false,
    })
}

fn sized(width: u32) -> Expr {
    Expr::IntLit(IntLit { kind: IntLitKind::Sized, parsed: Some(LitShape { width, signed: false }), value: Some(1), fill: false })
}

fn bin(op: BinOp, a: Expr, b: Expr) -> Expr {
    Expr::Binary { op, lhs: Box::new(a), rhs: Box::new(b) }
}

fn widths(v: &[(&str, u32)]) -> Vec<(String, u32)> {
    v.iter().map(|(n, w)| (n.to_string(), *w)).collect()
}

#[test]
fn operator_mapping() {
    assert_eq!(map_binop(BinOp::WildEq), ir::BinOp::Eq);
    assert_eq!(map_binop(BinOp::CaseNe), ir::BinOp::CaseNe);
    assert_eq!(map_binop(BinOp::Add), ir::BinOp::Add);
    assert_eq!(map_unop(UnOp::RedXnor), ir::UnOp::RedXnor);
    assert!(binop_is_widening(BinOp::Add));
    assert!(!binop_is_widening(BinOp::BitAnd));
}

#[test]
fn literal_and_range_widths() {
    assert_eq!(ast_decimal_lit_i64(&dec(42)), Some(42));
    assert_eq!(ast_decimal_lit_i64(&sized(8)), None);
    assert_eq!(range_width_exec(7, 0), Some(8));
    assert_eq!(range_width_exec(0, 7), Some(8));
    assert_eq!(range_width_exec(i64::MAX, 0), None);
}

#[test]
fn self_widths_of_source_expressions() {
    let w = widths(&[("a", 8), ("b", 4)]);
    let fw = widths(&[("f", 16)]);
    assert_eq!(ast_expr_self_width(&bin(BinOp::Add, ident("a"), ident("b")), &w, &fw), Some(8));
    assert_eq!(ast_expr_self_width(&bin(BinOp::Lt, ident("a"), ident("b")), &w, &fw), Some(1));
    assert_eq!(ast_expr_self_width(&bin(BinOp::Shl, ident("b"), ident("a")), &w, &fw), Some(4));
    assert_eq!(ast_expr_self_width(&Expr::Concat(vec![ident("a"), ident("b"), sized(3)]), &w, &fw), Some(15));
    assert_eq!(ast_expr_self_width(&Expr::Call { name: path("f"), args: vec![] }, &w, &fw), Some(16));
    assert_eq!(ast_expr_self_width(&ident("zz"), &w, &fw), None);
    let rep = Expr::Replicate { count: Box::new(dec(3)), value: vec![ident("b")] };
    assert_eq!(ast_expr_self_width(&rep, &w, &fw), Some(12));
}

#[test]
fn context_width_needed_by_a_widening_assignment() {
    let w = widths(&[("a", 8), ("b", 8), ("y", 16)]);
    let fw: Vec<(String, u32)> = vec![];
    let sum = bin(BinOp::Add, ident("a"), ident("b"));
    assert!(ctx_widening_below(&sum, Some(16), &w, &fw));
    assert!(!ctx_widening_below(&sum, Some(8), &w, &fw));
    assert!(ctx_widening_below(&sum, None, &w, &fw));
    assert!(!ctx_widening_below(&bin(BinOp::Eq, sum, ident("y")), Some(16), &w, &fw));
    let body = Stmt::Block {
        decls: vec![],
        stmts: vec![Stmt::Blocking { lhs: Lvalue::Ident(path("y")), rhs: bin(BinOp::Add, ident("a"), ident("b")), delay: false, event: false }],
    };
    assert!(assign_needs_context_width(&body, &w, &vec![], &fw));
    let narrow = Stmt::Blocking { lhs: Lvalue::Ident(path("a")), rhs: bin(BinOp::Add, ident("a"), ident("b")), delay: false, event: false };
    assert!(!assign_needs_context_width(&narrow, &w, &vec![], &fw));
}

#[test]
fn index_chains() {
    let e = Expr::BitSelect { base: Box::new(Expr::BitSelect { base: Box::new(ident("m")), index: Box::new(dec(1)) }), index: Box::new(dec(2)) };
    let (n, d) = ident_index_chain(&e).unwrap();
    assert_eq!(n, "m");
    assert_eq!(d, 2);
    assert!(ident_index_chain(&dec(1)).is_none());
}

/// 0: const 8'd3 (numeric), 1: signed 8-bit net, 2: 4-bit net, 3: 0 + 1
/// (Add), 4: Select{1, off 0, width node 5}, 5: const 4, 6: real const,
/// 7: call of a real-returning frame function.
fn ir_arena() -> Elaborator {
    let mut el = Elaborator::new();
    el.nets.push(NetVar { kind: NetKind::Reg, width: 8, signed: true });
    el.nets.push(NetVar { kind: NetKind::Reg, width: 4, signed: false });
    el.nets.push(NetVar { kind: NetKind::Real, width: 64, signed: true });
    let c3 = el.intern_const(ConstVal { width: 8, signed: false, repr: ConstRepr::Numeric, bits: 3 });
    el.push_expr(ir::Expr::Const { val: c3 });
    el.push_expr(ir::Expr::Signal { net: 0, word: None });
    el.push_expr(ir::Expr::Signal { net: 1, word: None });
    el.push_expr(ir::Expr::Binary { op: ir::BinOp::Add, lhs: 1, rhs: 2 });
    let c4 = el.intern_const(ConstVal { width: 32, signed: false, repr: ConstRepr::Numeric, bits: 4 });
    el.push_expr(ir::Expr::Const { val: c4 });
    el.push_expr(ir::Expr::Select { base: 1, offset: 0, width: 4, kind: SelKind::Part });
    let cr = el.intern_const(ConstVal { width: 64, signed: true, repr: ConstRepr::Real, bits: 0 });
    el.push_expr(ir::Expr::Const { val: cr });
    el.func_metas.push(FuncMeta { base_net: 2, locals_len: 1, return_slot: 0, ret_width: 64, is_automatic: true, has_hier_call: false, contains_shared_fork: false });
    el.push_expr(ir::Expr::Call { func: 0, args: vec![1] });
    el
}

#[test]
fn lowered_widths_signs_and_realness() {
    let el = ir_arena();
    assert_eq!(el.ir_bits_of(0), Some(8));
    assert_eq!(el.ir_bits_of(3), Some(8));
    assert_eq!(el.ir_bits_of(5), Some(4));
    assert_eq!(el.ir_bits_of(99), None);
    assert!(el.expr_self_signed(1));
    assert!(!el.expr_self_signed(3));
    assert!(!el.expr_self_signed(5));
    assert!(el.expr_is_real(6));
    assert!(el.expr_is_real(7));
    assert!(!el.expr_is_real(3));
    assert_eq!(el.sibling_ctx(4, 1), 8);
    assert_eq!(el.sibling_ctx(16, 1), 16);
    assert_eq!(el.sibling_ctx(16, 6), 0);
}

#[test]
fn trusted_width_needs_the_canonical_rule_to_agree() {
    let mut el = ir_arena();
    assert_eq!(el.trusted_self_width(1), Some(8));
    el.canon = vec![None, Some(SelfWidth { width: 8, signed: true }), Some(SelfWidth { width: 5, signed: false })];
    assert_eq!(el.trusted_self_width(1), Some(8));
    assert_eq!(el.trusted_self_width(2), None);
    let lv = ir::Lvalue { chunks: vec![LvChunk { net: 2, word: None, offset: None, width: None }] };
    assert!(el.lvalue_targets_real(&lv));
    let lv2 = ir::Lvalue { chunks: vec![LvChunk { net: 1, word: None, offset: None, width: None }] };
    assert!(!el.lvalue_targets_real(&lv2));
    let _ = SysFuncId::Signed;
}

fn func(body: Stmt, decls: Vec<NetVarDecl>) -> FunctionDef {
    FunctionDef {
        name: "f".to_string(),
        ports: vec![TfPort { name: "a".to_string(), dir: PortDir::Input, net_or_var: None, signed: false, range: None, unpacked: vec![], default: None }],
        body_decls: decls,
        body,
        automatic: false,
        ret_type: ParamType::Implicit,
        ret_two_state: false,
        ret_string: false,
        signed: false,
        range: None,
    }
}

#[test]
fn body_shapes() {
    let straight = Stmt::Block { decls: vec![], stmts: vec![Stmt::Blocking { lhs: Lvalue::Ident(path("f")), rhs: ident("a"), delay: false, event: false }] };
    assert!(!body_needs_frame(&straight));
    assert!(!stmt_has_timing(&straight));
    assert!(!body_has_return(&straight));
    let ret = Stmt::If { cond: ident("a"), then_s: Box::new(Stmt::Return { value: None }), else_s: None };
    assert!(body_needs_frame(&ret));
    assert!(body_has_return(&ret));
    let timed = Stmt::While { cond: ident("a"), body: Box::new(Stmt::EventCtrl { body: None }) };
    assert!(stmt_has_timing(&timed));
    let locals = vec!["a".to_string()];
    assert!(expr_reads_only_locals(&bin(BinOp::Add, ident("a"), dec(1)), &locals));
    assert!(!expr_reads_only_locals(&ident("g"), &locals));
    assert!(body_reads_only_locals(&func(straight, vec![])));
    let reads_global = Stmt::Blocking { lhs: Lvalue::Ident(path("f")), rhs: ident("g"), delay: false, event: false };
    assert!(!body_reads_only_locals(&func(reads_global, vec![])));
}

#[test]
fn packed_locals_and_block_names() {
    let md = NetVarDecl {
        kind: NetVarKind::Logic,
        signed: false,
        range: None,
        packed: vec![Range { msb: dec(3), lsb: dec(0) }, Range { msb: dec(7), lsb: dec(0) }],
        names: vec![DeclName { name: "p".to_string(), unpacked: vec![] }],
    };
    let sel = Stmt::Blocking {
        lhs: Lvalue::Ident(path("f")),
        rhs: Expr::BitSelect { base: Box::new(ident("p")), index: Box::new(dec(1)) },
        delay: false,
        event: false,
    };
    let f = func(Stmt::Block { decls: vec![], stmts: vec![sel] }, vec![md]);
    assert!(body_selects_mdpacked_local(&f));
    let inner = NetVarDecl { kind: NetVarKind::Int, signed: true, range: None, packed: vec![], names: vec![DeclName { name: "t".to_string(), unpacked: vec![] }] };
    let blk = Stmt::Block { decls: vec![inner], stmts: vec![] };
    let mut out: Vec<String> = Vec::new();
    collect_block_local_names(&blk, false, &mut out);
    assert!(out.iter().any(|n| n == "t"));
}

#[test]
fn callees_of_a_body() {
    let s = Stmt::Block {
        decls: vec![],
        stmts: vec![
            Stmt::Blocking { lhs: Lvalue::Ident(path("x")), rhs: bin(BinOp::Add, Expr::Call { name: path("g"), args: vec![] }, dec(1)), delay: false, event: false },
            Stmt::TaskCall { name: path("t"), args: vec![Expr::Call { name: path("h"), args: vec![] }] },
        ],
    };
    let mut out: Vec<String> = Vec::new();
    collect_callee_stmt(&s, &mut out);
    for n in ["g", "t", "h"] {
        assert!(out.iter().any(|c| c == n));
    }
    assert!(!out.iter().any(|c| c == "x"));
}

#[test]
fn reachability() {
    let adj = vec![vec![1], vec![2], vec![0], vec![3], vec![]];
    let r = reachable_from(&adj, 0);
    assert_eq!(r, vec![true, true, true, false, false]);
    let r3 = reachable_from(&adj, 3);
    assert_eq!(r3, vec![false, false, false, true, false]);
    let r4 = reachable_from(&adj, 4);
    assert_eq!(r4, vec![false; 5]);
}

#[test]
fn name_tables() {
    let t = vec![("a".to_string(), 1u32), ("b".to_string(), 2), ("a".to_string(), 3)];
    assert_eq!(lookup_first(&t, &"a".to_string()), Some(1));
    assert_eq!(lookup_last(&t, &"a".to_string()), Some(3));
    assert_eq!(lookup_last(&t, &"c".to_string()), None);
}
