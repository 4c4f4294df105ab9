use lib::ast::{CaseKind, CastPrim};
use lib::casts::cast_prim_wsign;
use lib::elab::{Elaborator, MsgCode, SelfWidth, Severity};
use lib::ir::{BinOp, ConstRepr, ConstVal, Expr, NetKind, NetVar, SelKind, SysFuncId};

fn real_const() -> ConstVal {
    ConstVal { width: 64, signed: true, repr: ConstRepr::Real, bits: 0 }
}

/// An elaborator whose arena holds: 0 a real net read, 1 an unsigned 8-bit
/// net read, 2 a signed 8-bit net read, 3 a real constant.
fn arena() -> Elaborator {
    let mut el = Elaborator::new();
    el.nets.push(NetVar { kind: NetKind::Real, width: 64, signed: true });
    el.nets.push(NetVar { kind: NetKind::Reg, width: 8, signed: false });
    el.nets.push(NetVar { kind: NetKind::Reg, width: 8, signed: true });
    el.push_expr(Expr::Signal { net: 0, word: None });
    el.push_expr(Expr::Signal { net: 1, word: None });
    el.push_expr(Expr::Signal { net: 2, word: None });
    let c = el.intern_const(real_const());
    el.push_expr(Expr::Const { val: c });
    el.repeatable = vec![true, true, true, false];
    el
}

#[test]
fn cast_prim_widths_and_signs() {
    assert_eq!(cast_prim_wsign(CastPrim::Int), Some((32, true, true)));
    assert_eq!(cast_prim_wsign(CastPrim::Integer), Some((32, true, false)));
    assert_eq!(cast_prim_wsign(CastPrim::Byte), Some((8, true, true)));
    assert_eq!(cast_prim_wsign(CastPrim::Shortint), Some((16, true, true)));
    assert_eq!(cast_prim_wsign(CastPrim::Longint), Some((64, true, true)));
    assert_eq!(cast_prim_wsign(CastPrim::Bit), Some((1, false, true)));
    assert_eq!(cast_prim_wsign(CastPrim::Logic), Some((1, false, false)));
    assert_eq!(cast_prim_wsign(CastPrim::Reg), Some((1, false, false)));
    assert_eq!(cast_prim_wsign(CastPrim::Time), Some((64, false, false)));
    assert_eq!(cast_prim_wsign(CastPrim::Real), None);
}

#[test]
fn cast_operand_sign_from_the_canonical_rule() {
    let mut el = arena();
    el.canon = vec![None, Some(SelfWidth { width: 8, signed: true }), None];
    assert_eq!(el.cast_operand_signed(0), None);
    assert_eq!(el.cast_operand_signed(1), Some(true));
    assert_eq!(el.cast_operand_signed(7), None);
}

#[test]
fn cast_extend_sign_keeps_the_mirror_for_a_fabricated_unrepeatable_widening() {
    let mut el = arena();
    el.canon = vec![
        None,
        Some(SelfWidth { width: 8, signed: true }),
        Some(SelfWidth { width: 8, signed: false }),
        Some(SelfWidth { width: 64, signed: true }),
    ];
    // no canonical sign: the mirror's (the real net reads signed)
    assert!(el.cast_extend_signed(0, false));
    // canonical signed, repeatable: signed either way
    assert!(el.cast_extend_signed(1, true));
    assert!(el.cast_extend_signed(1, false));
    // canonical unsigned wins over the mirror's signed
    assert!(!el.cast_extend_signed(2, true));
    // canonical signed, not repeatable, fabricated widening: the mirror's
    assert!(el.cast_extend_signed(3, true));
    el.repeatable[1] = false;
    assert!(!el.cast_extend_signed(1, true));
    assert!(el.cast_extend_signed(1, false));
}

#[test]
fn coerce_real_actual_converts_a_repeatable_real() {
    let mut el = arena();
    let n = el.exprs.len() as u32;
    let id = el.coerce_real_actual_to_formal(0, 16, true);
    assert_eq!(id, n + 4);
    assert_eq!(el.exprs.len() as u32, n + 5);
    assert!(matches!(&el.exprs[n as usize], Expr::SysFunc { which: SysFuncId::RealToInt, args } if args == &vec![0u32]));
    assert!(matches!(&el.exprs[(n + 3) as usize], Expr::Select { base, kind: SelKind::Part, .. } if *base == n));
    assert!(matches!(&el.exprs[(n + 4) as usize], Expr::SysFunc { which: SysFuncId::Signed, args } if args == &vec![n + 3]));
    assert_eq!(el.ir_bits_of(id), Some(16));
    assert!(el.expr_self_signed(id));
    assert!(!el.expr_is_real(id));
    assert!(el.diags.is_empty());
}

#[test]
fn coerce_real_actual_leaves_other_actuals() {
    let mut el = arena();
    let n = el.exprs.len();
    // integral actual
    assert_eq!(el.coerce_real_actual_to_formal(1, 16, true), 1);
    // width outside the cast's scope
    assert_eq!(el.coerce_real_actual_to_formal(0, 0, true), 0);
    assert_eq!(el.coerce_real_actual_to_formal(0, 65, true), 0);
    // a real that may not be repeated
    assert_eq!(el.coerce_real_actual_to_formal(3, 16, false), 3);
    assert_eq!(el.exprs.len(), n);
}

#[test]
fn real_to_int_cast_wider_than_64_is_refused() {
    let mut el = arena();
    let n = el.exprs.len() as u32;
    let id = el.lower_real_to_int_cast(0, 65, false);
    assert_eq!(id, n);
    assert!(el.had_error);
    assert_eq!(el.diags.len(), 1);
    assert_eq!(el.diags[0].message, "real→integer cast wider than 64 bits is outside the cast scope");
    let id2 = el.lower_real_to_int_cast(0, 40, false);
    assert_eq!(el.ir_bits_of(id2), Some(40));
    assert!(!el.expr_self_signed(id2));
}

#[test]
fn coerce_sign_stamps_only_a_different_sign() {
    let mut el = arena();
    let n = el.exprs.len() as u32;
    assert_eq!(el.coerce_sign(1, false), 1);
    let id = el.coerce_sign(1, true);
    assert_eq!(id, n);
    assert!(matches!(&el.exprs[n as usize], Expr::SysFunc { which: SysFuncId::Signed, args } if args == &vec![1u32]));
    assert!(el.expr_self_signed(id));
    let id2 = el.coerce_sign(2, false);
    assert!(matches!(&el.exprs[id2 as usize], Expr::SysFunc { which: SysFuncId::Unsigned, .. }));
    assert!(!el.expr_self_signed(id2));
}

#[test]
fn case_cmp_per_case_flavor() {
    let mut el = arena();
    let a = el.case_cmp(1, 2, CaseKind::Case);
    let b = el.case_cmp(1, 2, CaseKind::Casez);
    let c = el.case_cmp(1, 2, CaseKind::Casex);
    assert!(matches!(&el.exprs[a as usize], Expr::Binary { op: BinOp::CaseEq, lhs: 1, rhs: 2 }));
    assert!(matches!(&el.exprs[b as usize], Expr::Binary { op: BinOp::CasezEq, lhs: 1, rhs: 2 }));
    assert!(matches!(&el.exprs[c as usize], Expr::Binary { op: BinOp::CasexEq, lhs: 1, rhs: 2 }));
}

#[test]
fn refuse_real_size_operand_reports_once_per_cast() {
    let mut el = arena();
    assert_eq!(el.refuse_real_size_operand(1), 1);
    assert!(el.diags.is_empty());
    let p = el.refuse_real_size_operand(0);
    assert_ne!(p, 0);
    assert_eq!(el.ir_bits_of(p), Some(1));
    assert_eq!(el.diags.len(), 1);
    assert_eq!(el.diags[0].message, "size cast is not defined on a real operand (use int'/longint')");
    assert!(el.size_cast_real_reported);
    let q = el.refuse_real_size_operand(3);
    assert_ne!(q, 3);
    assert_eq!(el.diags.len(), 1);
}

#[test]
fn placeholder_is_a_one_bit_zero() {
    let mut el = Elaborator::new();
    let p = el.placeholder_expr();
    assert_eq!(p, 0);
    assert_eq!(el.ir_bits_of(p), Some(1));
    assert!(!el.expr_self_signed(p));
}

#[test]
fn radix_conversion_on_a_real_argument_is_refused() {
    let mut el = arena();
    el.check_format_real_radix("%h", &[0]);
    assert_eq!(el.diags.len(), 1);
    assert_eq!(el.diags[0].severity, Severity::Error);
    assert_eq!(el.diags[0].code, MsgCode::ElabUnsupported);
    assert_eq!(el.diags[0].message, "binary/hex/octal format not defined on a real argument");
    assert!(el.had_error);
}

#[test]
fn decimal_and_float_conversions_on_a_real_are_legal() {
    let mut el = arena();
    el.check_format_real_radix("%f %g %e %d", &[0, 0, 3, 0]);
    assert!(el.diags.is_empty());
    assert!(!el.had_error);
}

#[test]
fn format_arguments_pair_positionally() {
    let mut el = arena();
    // `%%` and `%m` take no argument; `%5.2x` pairs with the second one
    el.check_format_real_radix("a=%d %% %m b=%5.2x c=%b", &[1, 0, 2]);
    assert_eq!(el.diags.len(), 1);
    let mut el2 = arena();
    el2.check_format_real_radix("%b %o %X", &[0, 3, 1]);
    assert_eq!(el2.diags.len(), 2);
    let mut el3 = arena();
    // a radix conversion without an argument, and a trailing `%`
    el3.check_format_real_radix("%x %", &[]);
    assert!(el3.diags.is_empty());
}

#[test]
fn dyn_pattern_elems_of_patterns_and_concats() {
    let one = || lib::ast::Expr::IntLit(lib::ast::IntLit {
        kind: lib::ast::IntLitKind::Decimal,
        parsed: None,
        value: Some(1),
        fill: false,
    });
    let pat = lib::ast::Expr::AssignPattern(vec![one(), one()]);
    assert_eq!(lib::casts::dyn_pattern_elems(&pat).map(|v| v.len()), Some(2));
    let cat = lib::ast::Expr::Concat(vec![one()]);
    assert_eq!(lib::casts::dyn_pattern_elems(&cat).map(|v| v.len()), Some(1));
    assert!(lib::casts::dyn_pattern_elems(&one()).is_none());
}

#[test]
fn binary_operators_over_real_operands() {
    let mut el = arena();
    // two integral operands: nothing happens
    assert_eq!(el.binary_real_operand_route(BinOp::Mod, 1, 2), None);
    assert!(el.diags.is_empty());
    let n = el.exprs.len();
    // `**` over a real operand becomes `$pow`
    let id = el.binary_real_operand_route(BinOp::Pow, 1, 0).expect("desugared");
    assert_eq!(id as usize, n);
    assert!(matches!(&el.exprs[n], Expr::SysFunc { which: SysFuncId::Pow, args } if args == &vec![1, 0]));
    assert!(el.diags.is_empty());
    // `+` is fine on reals
    assert_eq!(el.binary_real_operand_route(BinOp::Add, 0, 3), None);
    assert!(el.diags.is_empty());
    // `%` and the bitwise and shift operators are refused
    assert_eq!(el.binary_real_operand_route(BinOp::Mod, 0, 1), None);
    assert_eq!(el.diags.len(), 1);
    assert_eq!(el.diags[0].message, "modulo (%) not defined on real operand");
    assert_eq!(el.binary_real_operand_route(BinOp::AShr, 2, 3), None);
    assert_eq!(el.diags[1].message, "bitwise/shift/reduction not defined on real operand");
    assert!(el.had_error);
    assert_eq!(el.exprs.len(), n + 1);
}

#[test]
fn cast_operands_real_by_node_or_by_call() {
    let el = arena();
    let plain = lib::ast::Expr::Ident(lib::ast::HierPath { segments: vec!["x".to_string()] });
    assert!(el.cast_operand_is_real(&plain, 0));
    assert!(el.cast_operand_is_real(&plain, 3));
    assert!(!el.cast_operand_is_real(&plain, 1));
    let call = lib::ast::Expr::Call { name: lib::ast::HierPath { segments: vec!["f".to_string()] }, args: vec![] };
    assert!(!el.cast_operand_is_real(&call, 1), "no function `f` is declared");
}

#[test]
fn hierarchical_real_reads_and_real_dynamic_elements() {
    let mut el = arena();
    assert!(!el.expr_is_real(1));
    el.tables.hier_real.push(1);
    assert!(el.expr_is_real(1));
    el.nets.push(NetVar { kind: NetKind::DynArray, width: 64, signed: true });
    let whole = el.push_expr(Expr::Signal { net: 3, word: None });
    let elem = el.push_expr(Expr::Signal { net: 3, word: Some(1) });
    assert!(!el.expr_is_real(elem));
    el.tables.real_elem_dyn_nets.push(3);
    assert!(el.expr_is_real(elem));
    assert!(!el.expr_is_real(whole));
}
