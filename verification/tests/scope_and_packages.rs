use lib::ast::{AssocKey, Dim, Expr, IntLit, IntLitKind, LitShape, Range};
use lib::elab::{Elaborator, PkgEntry, WideConst};
use lib::ir::{NetKind, NetVar};

fn net(kind: NetKind, width: u32, signed: bool) -> NetVar {
    NetVar { kind, width, signed }
}

fn entry<V>(pkg: &str, name: &str, val: V) -> PkgEntry<V> {
    PkgEntry { pkg: pkg.to_string(), name: name.to_string(), val }
}

fn dec(v: i64) -> Expr {
    Expr::IntLit(IntLit {
        kind: IntLitKind::Decimal,
        parsed: Some(LitShape { width: 32, signed: true }),
        value: Some(v),
        fill: false,
    })
}

#[test]
fn formal_is_string_innermost_formal_wins() {
    let mut el = Elaborator::new();
    assert!(!el.formal_is_string("s"));
    el.tables.formal_str.push(("s".to_string(), true));
    assert!(el.formal_is_string("s"));
    // an inner body's formal of the same name that is not a string shadows it
    el.tables.formal_str.push(("s".to_string(), false));
    assert!(!el.formal_is_string("s"));
    // leaving the inner body restores the outer binding
    el.tables.formal_str.truncate(1);
    assert!(el.formal_is_string("s"));
    assert!(!el.formal_is_string("t"));
}

#[test]
fn dyn_subst_lookup_innermost_alias() {
    let mut el = Elaborator::new();
    assert_eq!(el.dyn_subst_lookup("b"), None);
    el.tables.dyn_subst.push(("b".to_string(), 3));
    el.tables.dyn_subst.push(("c".to_string(), 4));
    el.tables.dyn_subst.push(("b".to_string(), 7));
    assert_eq!(el.dyn_subst_lookup("b"), Some(7));
    assert_eq!(el.dyn_subst_lookup("c"), Some(4));
    assert_eq!(el.dyn_subst_lookup("d"), None);
}

#[test]
fn handle_elem_type_floors_width_at_one() {
    let mut el = Elaborator::new();
    el.nets.push(net(NetKind::DynArray, 8, true));
    el.nets.push(net(NetKind::Queue, 0, false));
    assert_eq!(el.handle_elem_type(0), Some((8, true)));
    assert_eq!(el.handle_elem_type(1), Some((1, false)));
    assert_eq!(el.handle_elem_type(2), None);
}

#[test]
fn dyn_dim_kind_first_dynamic_dimension() {
    let el = Elaborator::new();
    let fixed = vec![Dim::Range(Range { msb: dec(3), lsb: dec(0) })];
    assert_eq!(el.dyn_dim_kind(&fixed), None);
    assert_eq!(el.dyn_dim_kind(&vec![Dim::Dyn]), Some(NetKind::DynArray));
    assert_eq!(el.dyn_dim_kind(&vec![Dim::Queue]), Some(NetKind::Queue));
    assert_eq!(el.dyn_dim_kind(&vec![Dim::Assoc(AssocKey::Str)]), Some(NetKind::AssocStr));
    assert_eq!(el.dyn_dim_kind(&vec![Dim::Assoc(AssocKey::Int)]), Some(NetKind::Assoc));
    let mixed = vec![Dim::Size(dec(4)), Dim::Queue, Dim::Dyn];
    assert_eq!(el.dyn_dim_kind(&mixed), Some(NetKind::Queue));
}

#[test]
fn handle_nets_and_read_widths() {
    let mut el = Elaborator::new();
    el.nets.push(net(NetKind::Reg, 8, false));
    el.nets.push(net(NetKind::Assoc, 32, false));
    el.nets.push(net(NetKind::String, 0, false));
    el.nets.push(net(NetKind::Wire, 0, false));
    assert!(!el.is_dyn_handle_net(0));
    assert!(el.is_dyn_handle_net(1));
    assert!(!el.is_dyn_handle_net(9));
    assert_eq!(el.signal_read_width(0), Some(8));
    assert_eq!(el.signal_read_width(2), None);
    assert_eq!(el.signal_read_width(3), Some(1));
    assert_eq!(el.signal_read_width(9), None);
}

#[test]
fn param_const_width_declared_or_materialized() {
    assert_eq!(Elaborator::param_const_width(5, Some((8, false))), 8);
    assert_eq!(Elaborator::param_const_width(5, Some((0, false))), 32);
    assert_eq!(Elaborator::param_const_width(5, None), 32);
    assert_eq!(Elaborator::param_const_width(-5, None), 32);
    assert_eq!(Elaborator::param_const_width(4_294_967_295, None), 32);
    assert_eq!(Elaborator::param_const_width(4_294_967_296, None), 64);
    assert_eq!(Elaborator::param_const_width(-2_147_483_649, None), 64);
}

fn pkg_elaborator() -> Elaborator {
    let mut el = Elaborator::new();
    el.nets.push(net(NetKind::Reg, 12, true));
    el.nets.push(net(NetKind::Reg, 8, false));
    el.tables.pkg_real.push(entry("p", "R", ()));
    el.tables.pkg_str.push(entry("p", "S", ()));
    el.tables.pkg_wide.push(entry("p", "W", WideConst { width: 100, signed: true }));
    el.tables.pkg_consts.push(entry("p", "C", 7));
    el.tables.pkg_consts.push(entry("p", "D", 7));
    el.tables.pkg_const_meta.push(entry("p", "D", (4, false)));
    el.tables.pkg_vars.push(entry("p", "v", 0));
    el.tables.pkg_vars.push(entry("p", "mem", 1));
    el.tables.static_array_nets.push(1);
    // a name bound as real as well as numeric reads as the real
    el.tables.pkg_consts.push(entry("p", "R", 1));
    el
}

#[test]
fn pkg_const_read_width_in_binding_order() {
    let el = pkg_elaborator();
    assert_eq!(el.pkg_const_read_width("p", "R"), None);
    assert_eq!(el.pkg_const_read_width("p", "S"), None);
    assert_eq!(el.pkg_const_read_width("p", "W"), Some(100));
    assert_eq!(el.pkg_const_read_width("p", "C"), Some(32));
    assert_eq!(el.pkg_const_read_width("p", "D"), Some(4));
    assert_eq!(el.pkg_const_read_width("p", "v"), Some(12));
    assert_eq!(el.pkg_const_read_width("p", "mem"), None);
    assert_eq!(el.pkg_const_read_width("p", "nope"), None);
    assert_eq!(el.pkg_const_read_width("q", "C"), None);
}

#[test]
fn pkg_const_read_signed_in_binding_order() {
    let el = pkg_elaborator();
    assert_eq!(el.pkg_const_read_signed("p", "R"), None);
    assert_eq!(el.pkg_const_read_signed("p", "S"), None);
    assert_eq!(el.pkg_const_read_signed("p", "W"), Some(true));
    assert_eq!(el.pkg_const_read_signed("p", "C"), Some(true));
    assert_eq!(el.pkg_const_read_signed("p", "D"), Some(false));
    assert_eq!(el.pkg_const_read_signed("p", "v"), Some(true));
    assert_eq!(el.pkg_const_read_signed("p", "mem"), None);
    assert_eq!(el.pkg_const_read_signed("p", "nope"), None);
}


fn dec_lit(v: i64) -> lib::ast::Expr {
    lib::ast::Expr::IntLit(lib::ast::IntLit {
        kind: lib::ast::IntLitKind::Decimal,
        parsed: Some(lib::ast::LitShape { width: 32, signed: true }),
        value: Some(v),
        fill: false,
    })
}

#[test]
fn other_storage_initializers_expand_to_nothing() {
    let el = Elaborator::new();
    assert!(el.dyn_decl_init_stmts(&"a".to_string(), NetKind::Assoc, &vec![dec_lit(1)]).is_empty());
}

#[test]
fn queue_initializer_pushes_each_element() {
    let el = Elaborator::new();
    let out = el.dyn_decl_init_stmts(&"q".to_string(), NetKind::Queue, &vec![dec_lit(4), dec_lit(5)]);
    assert_eq!(out.len(), 2);
    match &out[1] {
        lib::ast::Stmt::TaskCall { name, args } => {
            assert_eq!(name.segments, vec!["q".to_string(), "push_back".to_string()]);
            assert_eq!(format!("{:?}", args), format!("{:?}", vec![dec_lit(5)]));
        },
        other => panic!("unexpected {other:?}"),
    }
}

#[test]
fn dynamic_array_initializer_allocates_then_writes() {
    let el = Elaborator::new();
    let out = el.dyn_decl_init_stmts(&"d".to_string(), NetKind::DynArray, &vec![dec_lit(7), dec_lit(8), dec_lit(9)]);
    assert_eq!(out.len(), 4);
    match &out[0] {
        lib::ast::Stmt::Blocking { lhs: lib::ast::Lvalue::Ident(p), rhs: lib::ast::Expr::New { size }, delay: false, event: false } => {
            assert_eq!(p.segments, vec!["d".to_string()]);
            assert_eq!(format!("{:?}", size), format!("{:?}", Box::new(dec_lit(3))));
        },
        other => panic!("unexpected {other:?}"),
    }
    match &out[3] {
        lib::ast::Stmt::Blocking { lhs: lib::ast::Lvalue::BitSelect { base, index }, rhs, .. } => {
            assert!(matches!(&**base, lib::ast::Lvalue::Ident(p) if p.segments == vec!["d".to_string()]));
            assert_eq!(format!("{:?}", index), format!("{:?}", Box::new(dec_lit(2))));
            assert_eq!(format!("{:?}", rhs), format!("{:?}", dec_lit(9)));
        },
        other => panic!("unexpected {other:?}"),
    }
}
