use lib::ast::{
    BinOp, CastPrim, CastTarget, Expr, HierPath, InstName, IntLit, IntLitKind, LitShape, Lvalue, ModuleDecl,
    ModuleInstance, ModuleItem, ParamConn, ParamDecl, ParamKind, ParamType, PartDir, PortList, Range, SysName,
};
use lib::census::module_census;
use lib::dup::{copy_conns, copy_expr};
use lib::expr_ctx::expr_to_lvalue;
use lib::facts::{instance_facts, module_param_slots, param_slots};

fn ident(n: &str) -> Expr {
    Expr::Ident(HierPath { segments: vec![n.to_string()] })
}

fn dec(v: i64) -> Expr {
    Expr::IntLit(IntLit {
        kind: IntLitKind::Decimal,
        parsed: Some(LitShape { width: 32, signed: true }),
        value: Some(v),
        fill: false,
    })
}

fn p(name: &str, kind: ParamKind, ty: ParamType, ranged: bool, signed: bool, value: Expr) -> ParamDecl {
    ParamDecl {
        name: name.to_string(),
        kind,
        ty,
        range: if ranged { Some(Range { msb: dec(3), lsb: dec(0) }) } else { None },
        signed,
        value,
    }
}

fn plain(name: &str, v: i64) -> ParamDecl {
    p(name, ParamKind::Parameter, ParamType::Implicit, false, false, dec(v))
}

fn dbg<T: std::fmt::Debug>(t: &T) -> String {
    format!("{t:?}")
}

#[test]
fn copy_expr_reproduces_every_shape() {
    let e = Expr::Ternary {
        cond: Box::new(Expr::Binary { op: BinOp::Lt, lhs: Box::new(ident("a")), rhs: Box::new(dec(3)) }),
        then_e: Box::new(Expr::Concat(vec![
            Expr::Replicate { count: Box::new(dec(2)), value: vec![ident("b"), Expr::Null] },
            Expr::SysCall { name: SysName::Other("$bits".to_string()), args: vec![ident("c")] },
        ])),
        else_e: Box::new(Expr::Cast {
            target: CastTarget::Size(Box::new(dec(8))),
            expr: Box::new(Expr::NamedArg { formal: "x".to_string(), value: Some(Box::new(ident("d"))) }),
        }),
    };
    let c = copy_expr(&e);
    assert_eq!(dbg(&c), dbg(&e));
    let call = Expr::Call {
        name: HierPath { segments: vec!["u".to_string(), "f".to_string()] },
        args: vec![Expr::Cast { target: CastTarget::Prim(CastPrim::Int), expr: Box::new(dec(1)) }],
    };
    assert_eq!(dbg(&copy_expr(&call)), dbg(&call));
}

#[test]
fn copy_conns_keeps_names_and_values() {
    let ovs = vec![
        ParamConn::Positional(dec(4)),
        ParamConn::Named { name: "W".to_string(), value: Some(ident("N")) },
        ParamConn::Named { name: "D".to_string(), value: None },
    ];
    assert_eq!(dbg(&copy_conns(&ovs)), dbg(&ovs));
}

#[test]
fn expr_to_lvalue_reads_targets_and_refuses_values() {
    let sel = Expr::Paren(Box::new(Expr::BitSelect { base: Box::new(ident("q")), index: Box::new(dec(1)) }));
    match expr_to_lvalue(&sel) {
        Some(Lvalue::BitSelect { base, index }) => {
            assert!(matches!(*base, Lvalue::Ident(ref p) if p.segments == vec!["q".to_string()]));
            assert_eq!(dbg(&*index), dbg(&dec(1)));
        },
        other => panic!("unexpected {other:?}"),
    }
    let cat = Expr::Concat(vec![
        ident("a"),
        Expr::IndexedPart { base: Box::new(ident("b")), offset: Box::new(dec(0)), width: Box::new(dec(4)), dir: PartDir::Up },
        Expr::PartSelect { base: Box::new(ident("c")), msb: Box::new(dec(3)), lsb: Box::new(dec(0)) },
    ]);
    match expr_to_lvalue(&cat) {
        Some(Lvalue::Concat(parts)) => {
            assert_eq!(parts.len(), 3);
            assert!(matches!(parts[1], Lvalue::IndexedPart { dir: PartDir::Up, .. }));
            assert!(matches!(parts[2], Lvalue::PartSelect { .. }));
        },
        other => panic!("unexpected {other:?}"),
    }
    assert!(expr_to_lvalue(&dec(5)).is_none());
    assert!(expr_to_lvalue(&Expr::Binary { op: BinOp::Add, lhs: Box::new(ident("a")), rhs: Box::new(ident("b")) }).is_none());
    assert!(expr_to_lvalue(&Expr::Concat(vec![ident("a"), dec(1)])).is_none());
    assert!(expr_to_lvalue(&Expr::BitSelect { base: Box::new(dec(1)), index: Box::new(dec(0)) }).is_none());
}

fn module(params: Vec<ParamDecl>, body: Vec<ModuleItem>) -> ModuleDecl {
    ModuleDecl { name: "m".to_string(), params, ports: PortList::Empty, body }
}

#[test]
fn param_slots_follow_header_then_body_order() {
    let m = module(
        vec![plain("W", 8), p("N", ParamKind::Parameter, ParamType::Integer, false, true, dec(3))],
        vec![
            ModuleItem::Param(p("L", ParamKind::Localparam, ParamType::Implicit, false, false, ident("W"))),
            ModuleItem::Param(p("B", ParamKind::Parameter, ParamType::Implicit, true, false, dec(1))),
        ],
    );
    let seen = module_census(&m);
    let slots = param_slots(&m, &seen).expect("unique names");
    let names: Vec<&str> = slots.iter().map(|s| s.name.as_str()).collect();
    assert_eq!(names, vec!["W", "N", "L", "B"]);
    assert!(slots[0].overridable && slots[1].overridable);
    assert!(!slots[2].overridable, "a localparam is never overridable");
    assert!(!slots[3].overridable, "a body parameter is not reachable beside a header list");
    assert_eq!(slots[0].ty, Some(ParamType::Implicit));
    assert_eq!(slots[1].ty, Some(ParamType::Integer));
    assert_eq!(slots[2].ty, Some(ParamType::Implicit));
    assert_eq!(slots[3].ty, None, "a ranged parameter leaves the name unbound");
    assert_eq!(dbg(&slots[2].default), dbg(&ident("W")));
}

#[test]
fn body_parameters_are_overridable_without_a_header() {
    let m = module(vec![], vec![ModuleItem::Param(plain("P", 1)), ModuleItem::Other, ModuleItem::Param(plain("Q", 2))]);
    let seen = module_census(&m);
    let slots = param_slots(&m, &seen).unwrap();
    assert_eq!(slots.len(), 2);
    assert!(slots[0].overridable && slots[1].overridable);
    let signed_untyped = module(vec![p("S", ParamKind::Parameter, ParamType::Implicit, false, true, dec(0))], vec![]);
    let seen = module_census(&signed_untyped);
    assert_eq!(param_slots(&signed_untyped, &seen).unwrap()[0].ty, None);
}

#[test]
fn duplicate_parameter_name_builds_no_slots() {
    let m = module(vec![plain("W", 8)], vec![ModuleItem::Param(plain("W", 4))]);
    let seen = module_census(&m);
    assert!(param_slots(&m, &seen).is_none());
    assert!(module_param_slots(&m, false).is_none());
}

#[test]
fn a_defparam_anywhere_drops_the_slots() {
    let m = module(vec![plain("W", 8)], vec![]);
    assert!(module_param_slots(&m, false).is_some());
    assert!(module_param_slots(&m, true).is_none());
}

#[test]
fn instance_facts_keep_followable_instances() {
    let ovs = vec![ParamConn::Named { name: "W".to_string(), value: Some(dec(16)) }];
    let m = module(
        vec![],
        vec![
            ModuleItem::Instance(ModuleInstance {
                module_name: "child".to_string(),
                param_overrides: ovs,
                instances: vec![
                    InstName { name: "u0".to_string(), unpacked: vec![] },
                    InstName { name: "arr".to_string(), unpacked: vec![lib::ast::Dim::Size(dec(4))] },
                    InstName { name: "dup".to_string(), unpacked: vec![] },
                ],
            }),
            ModuleItem::Typedef("dup".to_string()),
            ModuleItem::Instance(ModuleInstance {
                module_name: "leaf".to_string(),
                param_overrides: vec![],
                instances: vec![InstName { name: "u1".to_string(), unpacked: vec![] }],
            }),
        ],
    );
    let seen = module_census(&m);
    let facts = instance_facts(&m, &seen);
    let names: Vec<(&str, &str)> = facts.iter().map(|(n, f)| (n.as_str(), f.module.as_str())).collect();
    assert_eq!(names, vec![("u0", "child"), ("u1", "leaf")]);
    assert!(matches!(&facts[0].1.overrides[0], ParamConn::Named { name, value: Some(_) } if name == "W"));
    assert!(facts[1].1.overrides.is_empty());
}
