use isla::bitvector::B64;
use isla::executor::solver::SmtResult;
use isla::page_table::address::{plan_addresses, take_addresses, ModelValue};
use isla::page_table::driver::{start_setup, SetupAction, SetupEvent, SetupState};
use isla::page_table::setup::{
    armv8_litmus_page_tables, armv8_page_tables, eval_initial_constraints, eval_table_constraints, needed_walk,
    AddressConstraint, Constraint, EvalError, Exp, Litmus, MapOp, PageAttrs, SelfMapping, SetupParseError, Stage,
    TableConstraint, Val, Walk,
};
use isla::page_table::{IsaConfig, VirtualAddress};
use isla::smt::smtlib::Def;
use isla::text::TextMap;

fn config() -> IsaConfig {
    IsaConfig {
        page_table_base: 0x300000,
        page_size: 4096,
        s2_page_table_base: 0x200000,
        s2_page_size: 4096,
        thread_base: 0x400000,
        symbolic_addr_base: 0x600000,
        symbolic_addr_top: 0x700000,
        symbolic_addr_stride: 0x1000,
    }
}

fn vars() -> TextMap<Val> {
    let mut vars = TextMap::new();
    vars.insert("x".to_string(), Val::VA(VirtualAddress::from_u64(16)));
    vars.insert("ipa".to_string(), Val::IPA(VirtualAddress::from_u64(32)));
    vars.insert("pa".to_string(), Val::PA(48));
    vars.insert("invalid".to_string(), Val::Invalid);
    vars
}

fn id(name: &str) -> Exp {
    Exp::Id(name.to_string())
}

fn app(f: &str, args: Vec<Exp>) -> Exp {
    Exp::App(f.to_string(), args)
}

fn message<T>(r: Result<T, EvalError>) -> String {
    match r {
        Ok(_) => panic!("expected an error"),
        Err(e) => e.text(),
    }
}

#[test]
fn expressions_convert_addresses() {
    let vars = vars();
    let eval = |e: Exp| e.eval(&vars).ok().unwrap();
    assert_eq!(eval(app("va_to_pa", vec![id("x")])), Val::PA(16));
    assert_eq!(eval(app("pa_to_va", vec![id("pa")])), Val::VA(VirtualAddress::from_u64(48)));
    assert_eq!(eval(app("ipa_to_va", vec![id("ipa")])), Val::VA(VirtualAddress::from_u64(32)));
    assert_eq!(eval(app("va_to_ipa", vec![id("x")])), Val::IPA(VirtualAddress::from_u64(16)));
    assert_eq!(eval(app("pa_to_ipa", vec![id("pa")])), Val::IPA(VirtualAddress::from_u64(48)));
    assert_eq!(eval(app("ipa_to_pa", vec![id("ipa")])), Val::PA(32));
    assert_eq!(eval(Exp::I128(-7)), Val::I128(-7));
    assert_eq!(eval(app("pa_to_va", vec![app("va_to_pa", vec![id("x")])])), Val::VA(VirtualAddress::from_u64(16)));
}

#[test]
fn expressions_report_errors() {
    let vars = vars();
    assert_eq!(message(id("y").eval(&vars)), "Variable not found: y");
    assert_eq!(message(app("f", vec![]).eval(&vars)), "Function not found: f");
    assert_eq!(message(app("f", vec![id("y")]).eval(&vars)), "Variable not found: y");
    assert_eq!(message(app("va_to_pa", vec![]).eval(&vars)), "va_to_pa expects a single argument");
    assert_eq!(message(app("va_to_pa", vec![id("pa")]).eval(&vars)), "va_to_pa expects a virtual address argument");
    assert_eq!(message(app("pa_to_va", vec![id("x")]).eval(&vars)), "pa_to_va expects a physical address argument");
    assert_eq!(
        message(app("ipa_to_va", vec![id("x")]).eval(&vars)),
        "ipa_to_va expects an intermediate physical address argument"
    );
    assert_eq!(message(app("va_to_ipa", vec![id("pa")]).eval(&vars)), "va_to_ipa expects a virtual address argument");
    assert_eq!(message(app("pa_to_ipa", vec![id("x")]).eval(&vars)), "pa_to_ipa expects a physical address argument");
    assert_eq!(
        message(app("ipa_to_pa", vec![id("x")]).eval(&vars)),
        "ipa_to_pa expects an intermediate physical address argument"
    );
}

#[test]
fn values_become_numbers() {
    assert_eq!(Val::VA(VirtualAddress::from_u64(3)).to_u64().ok(), Some(3));
    assert_eq!(Val::I128(u64::MAX as i128).to_u64().ok(), Some(u64::MAX));
    assert_eq!(Val::Invalid.to_u64().ok(), Some(0));
    assert_eq!(message(Val::I128(-1).to_u64()), "-1 cannot be converted to u64");
    assert_eq!(
        message(Val::I128(i128::MIN).to_u64()),
        "-170141183460469231731687303715884105728 cannot be converted to u64"
    );
    assert_eq!(message(Val::I128(1 << 64).to_u64()), "18446744073709551616 cannot be converted to u64");
}

#[test]
fn identity_mappings() {
    let vars = vars();
    let ops = TableConstraint::IdentityMap(id("x")).eval(&vars).ok().unwrap();
    assert_eq!(
        ops,
        vec![
            MapOp::IdentityMap { tables: Stage::One, root: Stage::Two, addr: 16, attrs: PageAttrs::Default(Stage::Two) },
            MapOp::IdentityMap { tables: Stage::Two, root: Stage::Two, addr: 16, attrs: PageAttrs::Default(Stage::Two) },
        ]
    );
    let ops = TableConstraint::IdentityMap(id("ipa")).eval(&vars).ok().unwrap();
    assert_eq!(ops.len(), 1);
    assert_eq!(
        message(TableConstraint::IdentityMap(id("pa")).eval(&vars)),
        "Type error creating identity mapping for PA(48): Expected addresses"
    );
}

#[test]
fn mappings_by_stage() {
    let vars = vars();
    let ops = TableConstraint::MapsTo(id("x"), id("pa")).eval(&vars).ok().unwrap();
    assert_eq!(ops.len(), 2);
    assert_eq!(
        ops[0],
        MapOp::MapPage {
            tables: Stage::One,
            root: Stage::One,
            from: VirtualAddress::from_u64(16),
            to: 48,
            attrs: PageAttrs::Default(Stage::One)
        }
    );
    let ops = TableConstraint::MapsTo(id("ipa"), id("pa")).eval(&vars).ok().unwrap();
    assert_eq!(
        ops,
        vec![MapOp::MapPage {
            tables: Stage::Two,
            root: Stage::Two,
            from: VirtualAddress::from_u64(32),
            to: 48,
            attrs: PageAttrs::Default(Stage::One)
        }]
    );
    assert_eq!(
        message(TableConstraint::MapsTo(id("pa"), id("x")).eval(&vars)),
        "Type error creating mapping PA(48) |-> VA(VirtualAddress { bits: 16 }): Expected addresses"
    );
    assert_eq!(
        message(TableConstraint::MapsTo(id("x"), id("invalid")).eval(&vars)),
        "Type error creating mapping VA(VirtualAddress { bits: 16 }) |-> Invalid: Expected addresses"
    );
}

#[test]
fn mappings_that_may_be() {
    let vars = vars();
    let ops = TableConstraint::MaybeMapsTo(id("x"), id("ipa")).eval(&vars).ok().unwrap();
    assert_eq!(
        ops,
        vec![MapOp::MaybeMapPage {
            tables: Stage::One,
            root: Stage::One,
            from: VirtualAddress::from_u64(16),
            to: 32,
            attrs: PageAttrs::Default(Stage::One)
        }]
    );
    let ops = TableConstraint::MaybeMapsTo(id("ipa"), id("invalid")).eval(&vars).ok().unwrap();
    assert_eq!(
        ops,
        vec![MapOp::MaybeInvalid { tables: Stage::Two, root: Stage::Two, from: VirtualAddress::from_u64(32) }]
    );
    assert_eq!(
        message(TableConstraint::MaybeMapsTo(Exp::I128(-3), id("ipa")).eval(&vars)),
        "Type error creating mapping I128(-3) |-> IPA(VirtualAddress { bits: 32 }): Expected addresses"
    );
}

#[test]
fn table_constraints_in_order() {
    let constraints = vec![
        Constraint::Table(TableConstraint::IdentityMap(id("ipa"))),
        Constraint::Initial(id("pa"), Exp::I128(5)),
        Constraint::Table(TableConstraint::MapsTo(id("x"), id("ipa"))),
    ];
    let plan = eval_table_constraints(&constraints, &vars());
    assert_eq!(plan.ops.len(), 2);
    assert_eq!(plan.outcome(2).ok(), Some(vec![(Val::PA(48), Val::I128(5))]));
    let plan = eval_table_constraints(&constraints, &vars());
    assert_eq!(message(plan.outcome(1)), "Could not create page table mapping");
}

#[test]
fn table_constraints_stop_at_an_error() {
    let constraints = vec![
        Constraint::Table(TableConstraint::IdentityMap(id("ipa"))),
        Constraint::Initial(id("nowhere"), Exp::I128(5)),
        Constraint::Table(TableConstraint::MapsTo(id("x"), id("ipa"))),
    ];
    let plan = eval_table_constraints(&constraints, &vars());
    assert_eq!(plan.ops.len(), 1);
    assert_eq!(message(plan.outcome(1)), "Variable not found: nowhere");
}

#[test]
fn initial_contents_of_memory() {
    let x = Val::VA(VirtualAddress::from_u64(16));
    assert_eq!(needed_walk(&x), Some(Walk::Both(16)));
    assert_eq!(needed_walk(&Val::IPA(VirtualAddress::from_u64(32))), Some(Walk::Second(32)));
    assert_eq!(needed_walk(&Val::PA(1)), None);
    let constraints = vec![(x, Val::I128(1)), (Val::PA(48), Val::I128(2)), (Val::PA(48), Val::I128(3))];
    let walks = vec![Ok(100), Ok(0), Ok(0)];
    let m = eval_initial_constraints(&constraints, &walks).ok().unwrap();
    assert_eq!(m.len(), 2);
    assert_eq!(m.get(&100), Some(&1));
    assert_eq!(m.get(&48), Some(&3));
}

#[test]
fn initial_constraints_report_errors() {
    let x = Val::VA(VirtualAddress::from_u64(16));
    let failed = vec![Err("no entry".to_string())];
    assert_eq!(
        message(eval_initial_constraints(&vec![(x, Val::I128(1))], &failed)),
        "Error while walking translation table: no entry"
    );
    assert_eq!(
        message(eval_initial_constraints(&vec![(Val::Invalid, Val::I128(1))], &failed)),
        "Location Invalid must be an address"
    );
    assert_eq!(
        message(eval_initial_constraints(&vec![(Val::PA(1), Val::I128(-1))], &failed)),
        "-1 cannot be converted to u64"
    );
}

#[test]
fn addresses_are_asked_for() {
    let setup = vec![
        Constraint::Address(AddressConstraint::Virtual(vec!["a".to_string(), "b".to_string()])),
        Constraint::Address(AddressConstraint::Physical(vec!["p".to_string()])),
    ];
    let tables = armv8_page_tables(TextMap::new(), 2, &setup, &config());
    assert_eq!(tables.addresses.defs.len(), 4 + 4 + 1 + 4);
    assert!(matches!(tables.addresses.defs[0], Def::DeclareConst(0, _)));
    assert!(matches!(tables.addresses.defs[8], Def::Assert(_)));
    assert_eq!(tables.addresses.vars.len(), 3);
    assert_eq!(tables.code_ops.len(), 4);
    assert_eq!(
        tables.code_ops[2],
        MapOp::IdentityMap {
            tables: Stage::One,
            root: Stage::One,
            addr: 0x401000,
            attrs: PageAttrs::Code(Stage::One)
        }
    );
    assert_eq!(tables.vars.get("invalid"), Some(&Val::Invalid));
}

#[test]
fn addresses_are_taken_from_the_model() {
    let setup = vec![
        Constraint::Address(AddressConstraint::Virtual(vec!["a".to_string()])),
        Constraint::Address(AddressConstraint::Intermediate(vec!["i".to_string()])),
        Constraint::Table(TableConstraint::MapsTo(id("a"), id("i"))),
    ];
    let tables = armv8_page_tables(TextMap::new(), 0, &setup, &config());
    let values = vec![ModelValue::Bits(B64::from_u64(0x600000)), ModelValue::Bits(B64::from_u64(0x601000))];
    let plan = tables.with_addresses(SmtResult::Sat, &values, &setup).ok().unwrap();
    assert_eq!(
        plan.ops,
        vec![MapOp::MapPage {
            tables: Stage::One,
            root: Stage::One,
            from: VirtualAddress::from_u64(0x600000),
            to: 0x601000,
            attrs: PageAttrs::Default(Stage::One)
        }]
    );
}

#[test]
fn addresses_that_cannot_be_found() {
    let setup = vec![Constraint::Address(AddressConstraint::Virtual(vec!["a".to_string()]))];
    let start = || armv8_page_tables(TextMap::new(), 0, &setup, &config());
    let none = vec![ModelValue::Other("true".to_string())];
    assert_eq!(
        message(start().with_addresses(SmtResult::Unsat, &none, &setup)),
        "Error while generating addresses: No satisfiable set of addresses"
    );
    assert_eq!(
        message(start().with_addresses(SmtResult::Sat, &none, &setup)),
        "Error while generating addresses: Address value true was not a bitvector in satisfiable model"
    );
    let broken = vec![ModelValue::Unreadable("no model".to_string())];
    assert_eq!(
        message(start().with_addresses(SmtResult::Sat, &broken, &setup)),
        "Error while generating addresses: no model"
    );
}

#[test]
fn litmus_addresses_are_virtual() {
    let mut symbolic_addrs = TextMap::new();
    symbolic_addrs.insert("x".to_string(), 0x1000);
    symbolic_addrs.insert("y".to_string(), 0x2000);
    let litmus = Litmus {
        symbolic_addrs,
        assembled: 1,
        page_table_setup: vec![],
    };
    let tables = armv8_litmus_page_tables(&litmus, &config());
    assert_eq!(tables.vars.get("x"), Some(&Val::VA(VirtualAddress::from_u64(0x1000))));
    assert_eq!(tables.vars.get("y"), Some(&Val::VA(VirtualAddress::from_u64(0x2000))));
    assert_eq!(tables.vars.get("invalid"), Some(&Val::Invalid));
    let mut names = tables.vars.keys();
    names.sort();
    assert_eq!(names, vec!["invalid", "x", "y"]);
    assert_eq!(tables.code_ops.len(), 2);
}

#[test]
fn tables_map_themselves() {
    let config = config();
    let mut mapping = SelfMapping::new(&config);
    let s1_end = config.page_table_base + 4096;
    let s2_end = config.s2_page_table_base + 2 * 4096;
    let mut ops = Vec::new();
    while mapping != SelfMapping::Done {
        ops.extend(mapping.next(&config, s1_end, s2_end));
    }
    assert_eq!(ops.len(), 2 + 2);
    assert!(matches!(ops[1], MapOp::IdentityMap { tables: Stage::Two, addr: 0x201000, .. }));
    assert!(matches!(ops[2], MapOp::IdentityMap { tables: Stage::One, root: Stage::One, addr: 0x300000, .. }));
    assert!(matches!(ops[3], MapOp::IdentityMap { tables: Stage::Two, addr: 0x300000, .. }));
}

#[test]
fn lexical_errors_have_a_position() {
    assert_eq!(SetupParseError::Lex { pos: 12 }.text(), "Lexical error at position: 12");
}

#[test]
fn tables_map_themselves_up_to_the_last_page() {
    let mut config = config();
    config.page_table_base = 0xffff_ffff_ffff_e000;
    let mut mapping = SelfMapping::new(&config);
    let mut mapped = Vec::new();
    while mapping != SelfMapping::Done {
        for op in mapping.next(&config, 0xffff_ffff_ffff_f000, config.s2_page_table_base) {
            match op {
                MapOp::IdentityMap { addr, .. } => mapped.push(addr),
                _ => panic!("another operation"),
            }
        }
    }
    assert_eq!(mapped, vec![0xffff_ffff_ffff_e000, 0xffff_ffff_ffff_e000]);
}

#[test]
fn variables_stay_when_no_addresses_are_found() {
    let names = vec!["x".to_string(), "y".to_string()];
    let setup = vec![Constraint::Address(AddressConstraint::Virtual(names))];
    let config = IsaConfig {
        symbolic_addr_base: 0x1000,
        symbolic_addr_top: 0x2000,
        symbolic_addr_stride: 0x1000,
        ..config()
    };
    let plan = plan_addresses(&setup, &config);
    let mut vars = vars();
    let r = take_addresses(&plan, SmtResult::Unsat, &Vec::new(), &mut vars);
    assert_eq!(message(r), "Error while generating addresses: No satisfiable set of addresses");
    assert_eq!(vars.get("x"), Some(&Val::VA(VirtualAddress::from_u64(16))));
    assert_eq!(vars.get("y"), None);
    let values = vec![ModelValue::Bits(B64::from_u64(0x1000)), ModelValue::Other("true".to_string())];
    assert!(take_addresses(&plan, SmtResult::Sat, &values, &mut vars).is_err());
    assert_eq!(vars.get("x"), Some(&Val::VA(VirtualAddress::from_u64(0x1000))));
    assert_eq!(vars.get("y"), None);
}

#[test]
fn setups_go_step_by_step() {
    let config = config();
    let setup = vec![
        Constraint::Address(AddressConstraint::Virtual(vec!["a".to_string()])),
        Constraint::Table(TableConstraint::MapsTo(id("a"), app("va_to_pa", vec![id("a")]))),
        Constraint::Initial(Exp::App("va_to_pa".to_string(), vec![id("a")]), Exp::I128(1)),
        Constraint::Initial(id("a"), Exp::I128(2)),
    ];
    let (state, action) = start_setup(armv8_page_tables(TextMap::new(), 1, &setup, &config));
    assert!(matches!(action, SetupAction::CreateTables));
    let (state, action) = state.step(SetupEvent::TablesCreated, &setup, &config);
    assert!(matches!(action, SetupAction::MapCode(ops) if ops.len() == 2));
    let (state, action) = state.step(SetupEvent::Mapped(2), &setup, &config);
    assert!(matches!(action, SetupAction::FindAddresses));
    match &state {
        SetupState::FindingAddresses(tables) => assert_eq!(tables.addresses.vars.len(), 1),
        _ => panic!("no addresses to be found"),
    }
    let found = SetupEvent::Found(SmtResult::Sat, vec![ModelValue::Bits(B64::from_u64(0x600000))]);
    let (state, action) = state.step(found, &setup, &config);
    assert!(matches!(action, SetupAction::MapTables(ops) if ops.len() == 2));
    let (mut state, action) = state.step(SetupEvent::Mapped(2), &setup, &config);
    assert!(matches!(action, SetupAction::MapThemselves(ops) if ops.is_empty()));
    let mut mapped = 0;
    loop {
        let ends = SetupEvent::Ends { s1_end: 0x302000, s2_end: 0x201000 };
        let (next, action) = state.step(ends, &setup, &config);
        state = next;
        match action {
            SetupAction::MapThemselves(ops) => mapped += ops.len(),
            SetupAction::AddRegion(stage) => {
                assert_eq!(stage, Stage::One);
                break;
            }
            _ => panic!("another action"),
        }
    }
    assert_eq!(mapped, 1 + 2 * 2);
    let (state, action) = state.step(SetupEvent::RegionAdded, &setup, &config);
    assert!(matches!(action, SetupAction::AddRegion(Stage::Two)));
    let (state, action) = state.step(SetupEvent::RegionAdded, &setup, &config);
    assert!(matches!(action, SetupAction::Follow(Walk::Both(0x600000))));
    let (state, action) = state.step(SetupEvent::Followed(Ok(0x700000)), &setup, &config);
    assert!(matches!(state, SetupState::Ended));
    match action {
        SetupAction::Finish(contents) => {
            assert_eq!(contents.len(), 2);
            assert_eq!(contents.get(&0x600000), Some(&1));
            assert_eq!(contents.get(&0x700000), Some(&2));
        }
        _ => panic!("the setup is not complete"),
    }
}

#[test]
fn setups_fail_where_a_step_does() {
    let config = config();
    let setup = vec![
        Constraint::Table(TableConstraint::MapsTo(id("x"), id("pa"))),
        Constraint::Initial(id("x"), Exp::I128(-1)),
    ];
    let at_addresses = || {
        let (state, _) = start_setup(armv8_page_tables(vars(), 0, &setup, &config));
        let (state, _) = state.step(SetupEvent::TablesCreated, &setup, &config);
        state.step(SetupEvent::Mapped(0), &setup, &config).0
    };
    let failure = |(state, action): (SetupState, SetupAction)| match action {
        SetupAction::Fail(e) => {
            assert!(matches!(state, SetupState::Ended));
            e.text()
        }
        _ => panic!("the setup goes on"),
    };
    let unsat = SetupEvent::Found(SmtResult::Unsat, Vec::new());
    assert_eq!(
        failure(at_addresses().step(unsat, &setup, &config)),
        "Error while generating addresses: No satisfiable set of addresses"
    );
    let sat = || SetupEvent::Found(SmtResult::Sat, Vec::new());
    let (state, _) = at_addresses().step(sat(), &setup, &config);
    assert_eq!(
        failure(state.step(SetupEvent::Mapped(1), &setup, &config)),
        "Could not create page table mapping"
    );
    let at_walk = || {
        let (state, _) = at_addresses().step(sat(), &setup, &config);
        let (mut state, _) = state.step(SetupEvent::Mapped(2), &setup, &config);
        for _ in 0..2 {
            state = state.step(SetupEvent::Ends { s1_end: 0, s2_end: 0 }, &setup, &config).0;
        }
        for _ in 0..2 {
            state = state.step(SetupEvent::RegionAdded, &setup, &config).0;
        }
        state
    };
    let lost = SetupEvent::Followed(Err("lost".to_string()));
    assert_eq!(failure(at_walk().step(lost, &setup, &config)), "Error while walking translation table: lost");
    assert_eq!(
        failure(at_walk().step(SetupEvent::Followed(Ok(1)), &setup, &config)),
        "-1 cannot be converted to u64"
    );
}
