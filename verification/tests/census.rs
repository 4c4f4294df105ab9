use lib::ast::{
    DeclName, Expr, FunctionDef, GenCaseItem, GenItem, InstName, ModuleDecl, ModuleInstance, ModuleItem, NetVarDecl,
    NetVarKind, ParamDecl, ParamKind, ParamType, PortList, Stmt,
};
use lib::census::{census_gen, design_has_defparam, gen_has_defparam, module_census, note_block_locals};

fn count(seen: &[(String, u32)], n: &str) -> u32 {
    seen.iter().find(|(k, _)| k == n).map(|(_, c)| *c).unwrap_or(0)
}

fn decl(ns: &[&str]) -> NetVarDecl {
    NetVarDecl {
        kind: NetVarKind::Logic,
        signed: false,
        range: None,
        packed: vec![],
        names: ns.iter().map(|n| DeclName { name: n.to_string(), unpacked: vec![] }).collect(),
    }
}

fn param(n: &str) -> ParamDecl {
    ParamDecl {
        name: n.to_string(),
        kind: ParamKind::Parameter,
        ty: ParamType::Implicit,
        range: None,
        signed: false,
        value: Expr::Null,
    }
}

fn func(n: &str) -> FunctionDef {
    FunctionDef {
        name: n.to_string(),
        ports: vec![],
        body_decls: vec![],
        body: Stmt::Null,
        automatic: false,
        ret_type: ParamType::Implicit,
        ret_two_state: false,
        ret_string: false,
        signed: false,
        range: None,
    }
}

fn module(body: Vec<ModuleItem>) -> ModuleDecl {
    ModuleDecl {
        name: "top".to_string(),
        params: vec![param("W")],
        ports: PortList::Ansi(vec!["clk".to_string(), "q".to_string()]),
        body,
    }
}

#[test]
fn module_census_counts_every_declaration() {
    let m = module(vec![
        ModuleItem::NetVar(decl(&["a", "b"])),
        ModuleItem::Param(param("D")),
        ModuleItem::Instance(ModuleInstance {
            module_name: "child".to_string(),
            param_overrides: vec![],
            instances: vec![InstName { name: "u0".to_string(), unpacked: vec![] }],
        }),
        ModuleItem::Func(func("f")),
        ModuleItem::Typedef("t".to_string()),
        ModuleItem::Clocking(Some("cb".to_string())),
        ModuleItem::Clocking(None),
        ModuleItem::Other,
    ]);
    let seen = module_census(&m);
    for n in ["W", "clk", "q", "a", "b", "D", "u0", "f", "t", "cb"] {
        assert_eq!(count(&seen, n), 1, "{n}");
    }
    assert_eq!(count(&seen, "child"), 0);
    assert_eq!(seen.len(), 10);
}

#[test]
fn module_census_sees_duplicates_across_header_and_body() {
    let m = module(vec![
        ModuleItem::NetVar(decl(&["q"])),
        ModuleItem::Param(param("W")),
        ModuleItem::Genvar(vec!["i".to_string(), "i".to_string()]),
    ]);
    let seen = module_census(&m);
    assert_eq!(count(&seen, "W"), 2);
    assert_eq!(count(&seen, "q"), 2);
    assert_eq!(count(&seen, "i"), 2);
    assert_eq!(count(&seen, "clk"), 1);
}

#[test]
fn module_census_non_ansi_and_empty_port_lists() {
    let mut m = module(vec![ModuleItem::PortDecl(vec!["clk".to_string()])]);
    m.ports = PortList::NonAnsi(vec!["clk".to_string()]);
    let seen = module_census(&m);
    assert_eq!(count(&seen, "clk"), 2);
    m.ports = PortList::Empty;
    let seen = module_census(&m);
    assert_eq!(count(&seen, "clk"), 1);
    assert_eq!(count(&seen, "q"), 0);
}

#[test]
fn block_locals_are_counted_through_nested_statements() {
    let inner = Stmt::Block { decls: vec![decl(&["tmp"])], stmts: vec![] };
    let s = Stmt::Block {
        decls: vec![decl(&["x", "tmp"])],
        stmts: vec![Stmt::If { cond: Expr::Null, then_s: Box::new(inner), else_s: None }],
    };
    let mut seen: Vec<(String, u32)> = Vec::new();
    note_block_locals(&s, &mut seen);
    assert_eq!(count(&seen, "tmp"), 2);
    assert_eq!(count(&seen, "x"), 1);
    let mut none: Vec<(String, u32)> = Vec::new();
    note_block_locals(&Stmt::Null, &mut none);
    assert!(none.is_empty());
}

#[test]
fn generate_labels_and_bodies_are_counted() {
    let g = GenItem::If {
        label: Some("g".to_string()),
        then_b: vec![GenItem::Item(Box::new(ModuleItem::NetVar(decl(&["w"]))))],
        else_b: vec![GenItem::Block {
            label: Some("g".to_string()),
            items: vec![GenItem::Case {
                items: vec![
                    GenCaseItem::Match { body: vec![GenItem::Item(Box::new(ModuleItem::NetVar(decl(&["w"]))))] },
                    GenCaseItem::Default { body: vec![GenItem::For { label: Some("loop".to_string()), body: vec![] }] },
                ],
            }],
        }],
    };
    let mut seen: Vec<(String, u32)> = Vec::new();
    census_gen(&g, &mut seen);
    assert_eq!(count(&seen, "g"), 2);
    assert_eq!(count(&seen, "w"), 2);
    assert_eq!(count(&seen, "loop"), 1);
}

#[test]
fn proc_block_locals_enter_the_module_census() {
    let m = module(vec![
        ModuleItem::NetVar(decl(&["tmp"])),
        ModuleItem::Proc(Stmt::Block { decls: vec![decl(&["tmp"])], stmts: vec![] }),
    ]);
    let seen = module_census(&m);
    assert_eq!(count(&seen, "tmp"), 2);
}

#[test]
fn defparam_is_found_at_top_level_and_in_generate_arms() {
    let nested = vec![GenItem::Case {
        items: vec![
            GenCaseItem::Match { body: vec![] },
            GenCaseItem::Default {
                body: vec![GenItem::Block { label: None, items: vec![GenItem::Item(Box::new(ModuleItem::Defparam))] }],
            },
        ],
    }];
    assert!(gen_has_defparam(&nested));
    let clean = vec![GenItem::For { label: None, body: vec![GenItem::Item(Box::new(ModuleItem::Other))] }];
    assert!(!gen_has_defparam(&clean));
    assert!(!gen_has_defparam(&vec![]));

    let plain = module(vec![ModuleItem::Other]);
    let direct = module(vec![ModuleItem::Other, ModuleItem::Defparam]);
    let in_gen = module(vec![ModuleItem::Generate(nested)]);
    assert!(!design_has_defparam(&vec![module(vec![]), plain]));
    assert!(design_has_defparam(&vec![module(vec![]), direct]));
    assert!(design_has_defparam(&vec![in_gen]));
    assert!(!design_has_defparam(&vec![]));
}
