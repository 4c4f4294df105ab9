use lib::ast::{
    BinOp, Edge, EventExpr, Expr, HierPath, IntLit, IntLitKind, LitShape, PortDir, ProcKind, Sensitivity, Stmt, TfPort,
};
use lib::args::expr_mentions;
use lib::elab::{Elaborator, Severity};
use lib::events::map_edge;
use lib::ir::{EdgeKind, EdgeTerm, SensKind};

fn ident(n: &str) -> Expr {
    Expr::Ident(HierPath { segments: vec![n.to_string()] })
}

fn dec(v: i64) -> Expr {
    Expr::IntLit(IntLit {
        kind: IntLitKind::Decimal,
        parsed: Some(LitShape { width: 32, signed: true }),
        value: Some(v),
        fill: false,
    })
}

fn named(f: &str, v: Option<Expr>) -> Expr {
    Expr::NamedArg { formal: f.to_string(), value: v.map(Box::new) }
}

fn port(n: &str, default: Option<Expr>) -> TfPort {
    TfPort { name: n.to_string(), dir: PortDir::Input, net_or_var: None, signed: false, range: None, unpacked: vec![], default }
}

fn lit_of(e: &Expr) -> Option<i64> {
    match e {
        Expr::IntLit(l) => l.value,
        _ => None,
    }
}

fn ports3() -> Vec<TfPort> {
    vec![port("a", None), port("b", Some(dec(20))), port("c", Some(dec(30)))]
}

#[test]
fn positional_actuals_bind_in_order() {
    let mut el = Elaborator::new();
    let ports = ports3();
    let args = vec![dec(1), dec(2), dec(3)];
    let r = el.resolve_named_args("f", &ports, &args, &vec![true; 3]).unwrap();
    assert_eq!(r.iter().map(|e| lit_of(e)).collect::<Vec<_>>(), vec![Some(1), Some(2), Some(3)]);
    assert!(el.diags.is_empty());
}

#[test]
fn named_actuals_reorder_and_defaults_fill() {
    let mut el = Elaborator::new();
    let ports = ports3();
    let args = vec![named("c", Some(dec(7))), named("a", Some(dec(5)))];
    let r = el.resolve_named_args("f", &ports, &args, &vec![true; 3]).unwrap();
    assert_eq!(r.iter().map(|e| lit_of(e)).collect::<Vec<_>>(), vec![Some(5), Some(20), Some(7)]);
    // `.b()` binds the default, a positional first actual binds `a`
    let args2 = vec![dec(1), named("b", None)];
    let r2 = el.resolve_named_args("f", &ports, &args2, &vec![true; 3]).unwrap();
    assert_eq!(r2.iter().map(|e| lit_of(e)).collect::<Vec<_>>(), vec![Some(1), Some(20), Some(30)]);
    assert!(el.diags.is_empty());
}

fn refused(args: Vec<Expr>, scope_ok: Vec<bool>, ports: Vec<TfPort>) -> String {
    let mut el = Elaborator::new();
    assert!(el.resolve_named_args("f", &ports, &args, &scope_ok).is_none());
    assert_eq!(el.diags.len(), 1);
    assert_eq!(el.diags[0].severity, Severity::Error);
    assert!(el.had_error);
    el.diags[0].message.clone()
}

#[test]
fn binding_errors() {
    assert_eq!(refused(vec![named("z", Some(dec(1)))], vec![true; 3], ports3()), "call to `f`: no formal named `z`");
    assert_eq!(
        refused(vec![named("a", Some(dec(1))), named("a", Some(dec(2)))], vec![true; 3], ports3()),
        "call to `f`: formal `a` is bound more than once"
    );
    assert_eq!(refused(vec![named("a", None)], vec![true; 3], ports3()), "call to `f`: `.a()` has no default value");
    assert_eq!(
        refused(vec![named("a", Some(dec(1))), dec(2)], vec![true; 3], ports3()),
        "call to `f`: a positional argument cannot follow a named one"
    );
    assert_eq!(refused(vec![dec(1), dec(2), dec(3), dec(4)], vec![true; 3], ports3()), "call to `f`: too many positional arguments");
    assert_eq!(refused(vec![], vec![true; 3], ports3()), "call to `f`: missing actual for formal `a` (no default value)");
    assert_eq!(
        refused(vec![dec(1)], vec![true, false, true], ports3()),
        "call to `f`: the omitted actual for formal `b` takes a DEFAULT value whose names bind differently at this call site than where `f` is declared — a default is evaluated in the subroutine's own scope, so pass the argument explicitly here, or make the default a literal / `pkg::` constant"
    );
    let reads = vec![port("a", None), port("b", Some(Expr::Binary { op: BinOp::Add, lhs: Box::new(ident("a")), rhs: Box::new(dec(1)) }))];
    assert_eq!(
        refused(vec![dec(1)], vec![true, true], reads),
        "function/task `f`: a default argument value that references another formal is unsupported"
    );
}

#[test]
fn trailing_defaults_fill() {
    let mut el = Elaborator::new();
    let ports = ports3();
    let args = vec![dec(1)];
    let r = el.fill_default_args("g", &ports, &args, &vec![true; 3]).unwrap();
    assert_eq!(r.iter().map(|e| lit_of(e)).collect::<Vec<_>>(), vec![Some(1), Some(20), Some(30)]);
    let all = vec![dec(1), dec(2), dec(3)];
    let r2 = el.fill_default_args("g", &ports, &all, &vec![true; 3]).unwrap();
    assert_eq!(r2.len(), 3);
    assert!(el.diags.is_empty());
    let too_many = vec![dec(1), dec(2), dec(3), dec(4), dec(5), dec(6), dec(7), dec(8), dec(9), dec(10), dec(11), dec(12)];
    assert!(el.fill_default_args("g", &ports, &too_many, &vec![true; 3]).is_none());
    assert_eq!(el.diags[0].message, "function/task `g`: 12 args for 3 formals");
    let none: Vec<Expr> = vec![];
    assert!(el.fill_default_args("g", &ports, &none, &vec![true; 3]).is_none());
    assert_eq!(el.diags[1].message, "function/task `g`: missing actual for formal `a` (no default value)");
}

#[test]
fn mentions_reads_names_anywhere() {
    let k = "a".to_string();
    assert!(expr_mentions(&ident("a"), &k));
    assert!(!expr_mentions(&ident("b"), &k));
    let nested = Expr::Concat(vec![dec(1), Expr::Paren(Box::new(ident("a")))]);
    assert!(expr_mentions(&nested, &k));
    let call = Expr::Call { name: HierPath { segments: vec!["a".to_string()] }, args: vec![] };
    assert!(!expr_mentions(&call, &k));
}

#[test]
fn edges_of_terms() {
    assert_eq!(map_edge(Edge::Posedge), EdgeKind::Posedge);
    assert_eq!(map_edge(Edge::Negedge), EdgeKind::Negedge);
    assert_eq!(map_edge(Edge::NoEdge), EdgeKind::AnyEdge);
}

fn term(edge: Edge, n: &str, iff: Option<Expr>) -> EventExpr {
    EventExpr { edge, expr: ident(n), iff }
}

#[test]
fn iff_guard_of_a_single_term() {
    let mut el = Elaborator::new();
    let one = Sensitivity::List(vec![term(Edge::Posedge, "clk", Some(ident("en")))]);
    let g = el.event_iff_guard(&one).unwrap();
    assert!(matches!(g, Expr::Ident(p) if p.segments == vec!["en".to_string()]));
    let plain = Sensitivity::List(vec![term(Edge::Posedge, "clk", None), term(Edge::NoEdge, "rst", None)]);
    assert!(el.event_iff_guard(&plain).is_none());
    assert!(el.event_iff_guard(&Sensitivity::Star).is_none());
    assert!(el.diags.is_empty());
    let multi = Sensitivity::List(vec![term(Edge::Posedge, "clk", Some(ident("en"))), term(Edge::NoEdge, "rst", None)]);
    assert!(el.event_iff_guard(&multi).is_none());
    assert_eq!(el.diags.len(), 1);
    assert!(el.had_error);
}

fn kind_of(el: &mut Elaborator, k: ProcKind, s: Option<&Sensitivity>, body: &Stmt, nets: Vec<u32>) -> SensKind {
    el.lower_sensitivity(k, s, body, &nets).kind
}

#[test]
fn sensitivity_kinds() {
    let mut el = Elaborator::new();
    let body = Stmt::Null;
    let edge = Sensitivity::List(vec![term(Edge::Posedge, "clk", None), term(Edge::NoEdge, "rst", None)]);
    let level = Sensitivity::List(vec![term(Edge::NoEdge, "a", None), term(Edge::NoEdge, "b", None)]);
    assert_eq!(kind_of(&mut el, ProcKind::Initial, None, &body, vec![]), SensKind::Initial);
    assert_eq!(kind_of(&mut el, ProcKind::Final, None, &body, vec![]), SensKind::Initial);
    assert_eq!(kind_of(&mut el, ProcKind::AlwaysComb, None, &body, vec![]), SensKind::Comb);
    assert_eq!(kind_of(&mut el, ProcKind::AlwaysLatch, None, &body, vec![]), SensKind::Latch);
    assert_eq!(kind_of(&mut el, ProcKind::Always, Some(&edge), &body, vec![1, 2]), SensKind::Edge);
    assert_eq!(kind_of(&mut el, ProcKind::Always, Some(&level), &body, vec![3, 4]), SensKind::Level);
    assert_eq!(kind_of(&mut el, ProcKind::Always, Some(&Sensitivity::Star), &body, vec![]), SensKind::Level);
    assert_eq!(kind_of(&mut el, ProcKind::AlwaysFf, Some(&level), &body, vec![3, 4]), SensKind::Edge);
    assert!(el.diags.is_empty());
    // a self-timed `always` is combinational-shaped without a warning
    let timed = Stmt::DelayCtrl { body: None };
    assert_eq!(kind_of(&mut el, ProcKind::Always, None, &timed, vec![]), SensKind::Comb);
    assert!(el.diags.is_empty());
    assert_eq!(kind_of(&mut el, ProcKind::Always, None, &body, vec![]), SensKind::Comb);
    assert_eq!(el.diags.len(), 1);
    assert_eq!(el.diags[0].severity, Severity::Warning);
    assert_eq!(kind_of(&mut el, ProcKind::AlwaysFf, Some(&Sensitivity::Star), &body, vec![]), SensKind::Edge);
    assert_eq!(el.diags[1].message, "always_ff requires an explicit @(edge ...) list");
    assert!(!el.had_error);
}

#[test]
fn event_terms_in_source_order() {
    let mut el = Elaborator::new();
    let edge = Sensitivity::List(vec![term(Edge::Posedge, "clk", None), term(Edge::NoEdge, "rst", None)]);
    let r = el.lower_sensitivity(ProcKind::Always, Some(&edge), &Stmt::Null, &vec![7, 9]);
    assert_eq!(
        r.edges,
        vec![EdgeTerm { net: 7, kind: EdgeKind::Posedge }, EdgeTerm { net: 9, kind: EdgeKind::AnyEdge }]
    );
    let r = el.lower_sensitivity(ProcKind::AlwaysComb, None, &Stmt::Null, &vec![]);
    assert!(r.edges.is_empty());
}

#[test]
fn a_clocking_block_name_stands_for_its_event() {
    let mut el = Elaborator::new();
    el.tables.clocking_events.push(("cb".to_string(), Sensitivity::List(vec![term(Edge::Posedge, "clk", None)])));
    let at_cb = Sensitivity::List(vec![term(Edge::NoEdge, "cb", None)]);
    assert!(el.clocking_event_subst(Some(&at_cb)).is_some());
    let r = el.lower_sensitivity(ProcKind::Always, Some(&at_cb), &Stmt::Null, &vec![5]);
    assert_eq!(r.kind, SensKind::Edge);
    assert_eq!(r.edges, vec![EdgeTerm { net: 5, kind: EdgeKind::Posedge }]);
    // an edge on the name, or another name, is not substituted
    let pos_cb = Sensitivity::List(vec![term(Edge::Posedge, "cb", None)]);
    assert!(el.clocking_event_subst(Some(&pos_cb)).is_none());
    let at_x = Sensitivity::List(vec![term(Edge::NoEdge, "x", None)]);
    assert_eq!(el.lower_sensitivity(ProcKind::Always, Some(&at_x), &Stmt::Null, &vec![2]).kind, SensKind::Level);
}

fn block(sens: Option<Sensitivity>, body: Stmt) -> lib::ast::ProceduralBlock {
    lib::ast::ProceduralBlock { kind: ProcKind::Always, sensitivity: sens, body: Box::new(body) }
}

#[test]
fn a_guarded_term_moves_its_guard_into_the_body() {
    let mut el = Elaborator::new();
    let body = Stmt::Block { decls: vec![], stmts: vec![Stmt::SysTaskCall { args: vec![ident("q")] }] };
    let p = block(Some(Sensitivity::List(vec![term(Edge::Posedge, "clk", Some(ident("en")))])), body);
    let q = el.desugar_event_iff(&p).expect("rewritten");
    assert!(el.diags.is_empty());
    assert_eq!(q.kind, ProcKind::Always);
    match &q.sensitivity {
        Some(Sensitivity::List(ts)) => {
            assert_eq!(ts.len(), 1);
            assert_eq!(ts[0].edge, Edge::Posedge);
            assert!(ts[0].iff.is_none());
            assert_eq!(format!("{:?}", ts[0].expr), format!("{:?}", ident("clk")));
        },
        other => panic!("unexpected {other:?}"),
    }
    match &*q.body {
        Stmt::If { cond, then_s, else_s: None } => {
            assert_eq!(format!("{cond:?}"), format!("{:?}", ident("en")));
            assert_eq!(format!("{:?}", then_s), format!("{:?}", p.body));
        },
        other => panic!("unexpected {other:?}"),
    }
}

#[test]
fn unguarded_or_multi_term_controls_are_not_rewritten() {
    let mut el = Elaborator::new();
    assert!(el.desugar_event_iff(&block(None, Stmt::Null)).is_none());
    assert!(el.desugar_event_iff(&block(Some(Sensitivity::Star), Stmt::Null)).is_none());
    let plain = Sensitivity::List(vec![term(Edge::Negedge, "clk", None)]);
    assert!(el.desugar_event_iff(&block(Some(plain), Stmt::Null)).is_none());
    assert!(el.diags.is_empty());
    let multi = Sensitivity::List(vec![term(Edge::Posedge, "a", Some(ident("g"))), term(Edge::Posedge, "b", None)]);
    assert!(el.desugar_event_iff(&block(Some(multi), Stmt::Null)).is_none());
    assert_eq!(el.diags.len(), 1);
    assert!(el.had_error);
}
