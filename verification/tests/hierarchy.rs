use lib::ast::{BinOp, Expr, HierPath, IntLit, IntLitKind, LitShape, ParamConn, ParamType, Range, SysName};
use lib::elab::Elaborator;
use lib::hier::{env_exact, expr_exact, note, FuncFact, InstFact, ModuleFacts, NetFact, ParamSlot, WidthFact};

fn ident(n: &str) -> Expr {
    Expr::Ident(HierPath { segments: vec![n.to_string()] })
}

fn dec(v: i64) -> Expr {
    Expr::IntLit(IntLit {
        kind: IntLitKind::Decimal,
        parsed: Some(LitShape { width: 32, signed: true }),
        value: Some(v),
        fill: false,
    })
}

fn sized(width: u32, signed: bool) -> Expr {
    Expr::IntLit(IntLit { kind: IntLitKind::Sized, parsed: Some(LitShape { width, signed }), value: Some(6), fill: false })
}

fn bin(op: BinOp, a: Expr, b: Expr) -> Expr {
    Expr::Binary { op, lhs: Box::new(a), rhs: Box::new(b) }
}

fn names(v: &[&str]) -> Vec<String> {
    v.iter().map(|s| s.to_string()).collect()
}

#[test]
fn note_counts_declarations() {
    let mut seen: Vec<(String, u32)> = Vec::new();
    note(&mut seen, "a");
    note(&mut seen, "b");
    note(&mut seen, "a");
    assert_eq!(seen, vec![("a".to_string(), 2), ("b".to_string(), 1)]);
}

#[test]
fn exact_expressions() {
    let set = names(&["W"]);
    assert!(expr_exact(&dec(8), None));
    assert!(expr_exact(&sized(32, false), None));
    assert!(!expr_exact(&sized(4, false), None));
    assert!(!expr_exact(&sized(32, true), None));
    assert!(expr_exact(&ident("X"), None));
    assert!(!expr_exact(&ident("X"), Some(&set)));
    assert!(expr_exact(&bin(BinOp::Sub, ident("W"), dec(1)), Some(&set)));
    assert!(!expr_exact(&bin(BinOp::Div, ident("W"), dec(2)), Some(&set)));
    let clog = Expr::SysCall { name: SysName::Clog2, args: vec![ident("W")] };
    assert!(expr_exact(&clog, Some(&set)));
    assert!(expr_exact(&Expr::Paren(Box::new(Expr::PkgScoped { pkg: "p".to_string(), name: "N".to_string() })), Some(&set)));
    assert!(!expr_exact(&Expr::Unary { op: lib::ast::UnOp::Minus, operand: Box::new(dec(1)) }, None));
}

fn slot(name: &str, overridable: bool, ty: Option<ParamType>, default: Expr) -> ParamSlot {
    ParamSlot { name: name.to_string(), overridable, ty, default }
}

fn child() -> ModuleFacts {
    ModuleFacts {
        insts: vec![],
        nets: vec![
            ("hs".to_string(), NetFact { signed: false, width: WidthFact::Range(Range { msb: bin(BinOp::Sub, ident("W"), dec(1)), lsb: dec(0) }), dims: 0 }),
            ("lit".to_string(), NetFact { signed: true, width: WidthFact::Lit(8), dims: 0 }),
            ("half".to_string(), NetFact { signed: false, width: WidthFact::Range(Range { msb: bin(BinOp::Div, ident("W"), dec(2)), lsb: dec(0) }), dims: 0 }),
        ],
        funcs: vec![("hf".to_string(), FuncFact { width: WidthFact::Range(Range { msb: ident("D"), lsb: dec(0) }), signed: false })],
        body_write_funcs: vec![],
        params: Some(vec![
            slot("W", true, Some(ParamType::Implicit), dec(8)),
            slot("T", true, Some(ParamType::Integer), dec(3)),
            slot("D", false, Some(ParamType::Implicit), bin(BinOp::Mul, ident("W"), dec(2))),
        ]),
    }
}

#[test]
fn env_exact_binds_overrides_and_defaults() {
    let c = child();
    // defaults only: W and D exact, T typed
    assert_eq!(env_exact(&c, &vec![], None), Some(names(&["W", "D"])));
    // a positional override of W by a narrow literal makes W, and D over it, inexact
    assert_eq!(env_exact(&c, &vec![ParamConn::Positional(sized(3, false))], None), Some(names(&[])));
    // a named override of T
    let named = vec![ParamConn::Named { name: "T".to_string(), value: Some(dec(1)) }];
    assert_eq!(env_exact(&c, &named, None), Some(names(&["W", "D"])));
    // overriding a slot that is not overridable, naming no slot, binding twice, or too many positionals
    assert_eq!(env_exact(&c, &vec![ParamConn::Named { name: "D".to_string(), value: Some(dec(1)) }], None), None);
    assert_eq!(env_exact(&c, &vec![ParamConn::Named { name: "Z".to_string(), value: Some(dec(1)) }], None), None);
    assert_eq!(env_exact(&c, &vec![ParamConn::Named { name: "W".to_string(), value: None }], None), None);
    let twice = vec![ParamConn::Positional(dec(1)), ParamConn::Named { name: "W".to_string(), value: Some(dec(2)) }];
    assert_eq!(env_exact(&c, &twice, None), None);
    let many = vec![ParamConn::Positional(dec(1)), ParamConn::Positional(dec(2)), ParamConn::Positional(dec(3))];
    assert_eq!(env_exact(&c, &many, None), None);
    // an override read in a parent scope where its name is not exact
    let parent = names(&["Q"]);
    assert_eq!(env_exact(&c, &vec![ParamConn::Positional(ident("P"))], Some(&parent)), Some(names(&[])));
    let no_params = ModuleFacts { insts: vec![], nets: vec![], funcs: vec![], body_write_funcs: vec![], params: None };
    assert_eq!(env_exact(&no_params, &vec![], None), None);
}

fn design() -> Elaborator {
    let mut el = Elaborator::new();
    let top = ModuleFacts {
        insts: vec![("u".to_string(), InstFact { module: "child".to_string(), overrides: vec![] })],
        nets: vec![],
        funcs: vec![],
        body_write_funcs: vec![],
        params: Some(vec![]),
    };
    el.tables.module_facts.push(("top".to_string(), top));
    el.tables.module_facts.push(("child".to_string(), child()));
    el.tables.cur_module = "top".to_string();
    el
}

#[test]
fn hier_leaf_width_exactness() {
    let el = design();
    assert!(el.hier_leaf_width_exact(&names(&["u", "hs"]), false));
    assert!(el.hier_leaf_width_exact(&names(&["u", "lit"]), false));
    assert!(!el.hier_leaf_width_exact(&names(&["u", "half"]), false));
    assert!(el.hier_leaf_width_exact(&names(&["u", "hf"]), true));
    assert!(!el.hier_leaf_width_exact(&names(&["u", "hf"]), false));
    assert!(!el.hier_leaf_width_exact(&names(&["v", "hs"]), false));
    assert!(!el.hier_leaf_width_exact(&names(&[]), false));
    assert!(!el.facts_have_body_write_funcs());
    let mut el2 = design();
    el2.tables.module_facts[1].1.body_write_funcs.push("hf".to_string());
    assert!(el2.facts_have_body_write_funcs());
}
