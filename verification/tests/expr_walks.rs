use lib::ast::{BinOp, CastPrim, CastTarget, Expr, HierPath, IntLit, IntLitKind, LitShape, SysName, UnOp};
use lib::expr_ctx::has_opaque_leaf;
use lib::frames_ast::dyn_formal_call_exprs;

fn path(segs: &[&str]) -> HierPath {
    HierPath { segments: segs.iter().map(|s| s.to_string()).collect() }
}

fn ident(n: &str) -> Expr {
    Expr::Ident(path(&[n]))
}

fn lit(v: i64) -> Expr {
    Expr::IntLit(IntLit {
        kind: IntLitKind::Decimal,
        parsed: Some(LitShape { width: 32, signed: true }),
        value: Some(v),
        fill: false,
    })
}

fn call(n: &str, args: Vec<Expr>) -> Expr {
    Expr::Call { name: path(&[n]), args }
}

fn bin(a: Expr, b: Expr) -> Expr {
    Expr::Binary { op: BinOp::Add, lhs: Box::new(a), rhs: Box::new(b) }
}

fn callee(e: &Expr) -> String {
    match e {
        Expr::Call { name, .. } => name.segments.join("."),
        other => panic!("not a call: {other:?}"),
    }
}

#[test]
fn call_sites_come_in_source_order() {
    let e = Expr::Ternary {
        cond: Box::new(call("f", vec![call("inner", vec![])])),
        then_e: Box::new(Expr::Concat(vec![call("g", vec![]), lit(1), Expr::Paren(Box::new(call("h", vec![])))])),
        else_e: Box::new(Expr::Unary { op: UnOp::Minus, operand: Box::new(bin(ident("x"), call("k", vec![]))) }),
    };
    let sites = dyn_formal_call_exprs(&e);
    let names: Vec<String> = sites.iter().map(callee).collect();
    assert_eq!(names, vec!["f", "g", "h", "k"]);
}

#[test]
fn a_call_is_its_own_site_and_selects_hide_calls() {
    let c = call("f", vec![call("g", vec![])]);
    let sites = dyn_formal_call_exprs(&c);
    assert_eq!(sites.len(), 1);
    assert_eq!(format!("{:?}", sites[0]), format!("{c:?}"));
    let hidden = Expr::BitSelect { base: Box::new(ident("a")), index: Box::new(call("f", vec![])) };
    assert!(dyn_formal_call_exprs(&hidden).is_empty());
    assert!(dyn_formal_call_exprs(&lit(3)).is_empty());
}

#[test]
fn opaque_leaves_are_found_anywhere() {
    let none: Vec<String> = vec![];
    assert!(!has_opaque_leaf(&bin(ident("a"), lit(2)), &none));
    assert!(has_opaque_leaf(&bin(ident("a"), Expr::Ident(path(&["u", "v"]))), &none));
    assert!(has_opaque_leaf(&Expr::Call { name: path(&["u", "hf"]), args: vec![] }, &none));
    assert!(!has_opaque_leaf(&call("f", vec![ident("a")]), &none));
    assert!(has_opaque_leaf(&call("f", vec![Expr::Ident(path(&["u", "v"]))]), &none));
    let braced = Expr::Concat(vec![lit(1), Expr::Replicate { count: Box::new(lit(2)), value: vec![Expr::Ident(path(&["u", "w"]))] }]);
    assert!(has_opaque_leaf(&braced, &none));
    assert!(!has_opaque_leaf(&Expr::PkgScoped { pkg: "p".to_string(), name: "N".to_string() }, &none));
    assert!(has_opaque_leaf(&Expr::AssignPattern(vec![]), &none));
    assert!(has_opaque_leaf(&Expr::Other, &none));
    let cast = Expr::Cast { target: CastTarget::Prim(CastPrim::Int), expr: Box::new(ident("x")) };
    assert!(!has_opaque_leaf(&cast, &none));
    let sys = Expr::SysCall { name: SysName::Clog2, args: vec![ident("x")] };
    assert!(!has_opaque_leaf(&sys, &none));
}

#[test]
fn verbatim_actuals_are_opaque() {
    let verbatim = vec!["x".to_string()];
    let sys = Expr::SysCall { name: SysName::Clog2, args: vec![ident("x")] };
    assert!(has_opaque_leaf(&sys, &verbatim));
    assert!(has_opaque_leaf(&Expr::PartSelect { base: Box::new(ident("a")), msb: Box::new(ident("x")), lsb: Box::new(lit(0)) }, &verbatim));
    assert!(!has_opaque_leaf(&ident("y"), &verbatim));
}
