use siko::ir_data::{Enum, Variant};
use siko::ir_type::Type;
use siko::matchcompiler::{
    matchDecisions, removePaths, shapesCheck, Bindings, Case, CompiledMatch, Match, MatchCompiler,
    MatchError, MatchKind, Node, SymbolTable,
};
use siko::path::{DataPath, DataType, DecisionPath};
use siko::pattern::Pattern;
use siko::qualifiedname::{build, QualifiedName};

fn int_type() -> Type {
    Type::Named(build("Int", "Int"), Vec::new())
}

/// An `Option`-like enum: `Some` with one payload item, `None` with none.
fn option_table() -> (SymbolTable, QualifiedName, QualifiedName, QualifiedName) {
    let option_name = build("Std", "Option");
    let some_name = option_name.add("Some".to_string());
    let none_name = option_name.add("None".to_string());
    let mut e = Enum::new(option_name.clone(), Type::SelfType);
    e.variants.push(Variant { name: some_name.clone(), items: vec![int_type()] });
    e.variants.push(Variant { name: none_name.clone(), items: vec![] });
    let table = SymbolTable {
        names: vec![
            (some_name.clone(), some_name.clone()),
            (none_name.clone(), none_name.clone()),
        ],
        variants: vec![
            (some_name.clone(), option_name.clone()),
            (none_name.clone(), option_name.clone()),
        ],
        enums: vec![(option_name.clone(), e)],
    };
    (table, option_name, some_name, none_name)
}

/// An enum with three nullary variants `A`, `B`, `C`.
fn abc_table() -> (SymbolTable, QualifiedName, Vec<QualifiedName>) {
    let enum_name = build("M", "Abc");
    let names: Vec<QualifiedName> = ["A", "B", "C"]
        .iter()
        .map(|v| enum_name.add(v.to_string()))
        .collect();
    let mut e = Enum::new(enum_name.clone(), Type::SelfType);
    for n in &names {
        e.variants.push(Variant { name: n.clone(), items: vec![] });
    }
    let table = SymbolTable {
        names: names.iter().map(|n| (n.clone(), n.clone())).collect(),
        variants: names.iter().map(|n| (n.clone(), enum_name.clone())).collect(),
        enums: vec![(enum_name.clone(), e)],
    };
    (table, enum_name, names)
}

fn same_path(a: &DecisionPath, b: &DecisionPath) -> bool {
    a.decisions == b.decisions
}

fn compiled(table: SymbolTable, branches: Vec<Pattern>) -> CompiledMatch {
    let compiler = MatchCompiler::new(table, branches);
    compiler.compile().expect("compilation should succeed")
}

fn winner_at(c: &CompiledMatch, end: &DecisionPath) -> Match {
    c.resolveTerminal(end).expect("every terminal should resolve")
}

#[test]
fn first_match_wins_some_zero() {
    // Branch 0 = Some(_), branch 1 = Some(0): for shape "Some with payload
    // 0" the earlier, less specific branch must win.
    let (table, option_name, some_name, none_name) = option_table();
    let branches = vec![
        Pattern::Named(some_name.clone(), vec![Pattern::Wildcard]),
        Pattern::Named(some_name.clone(), vec![Pattern::IntegerLiteral("0".to_string())]),
    ];
    let c = compiled(table, branches);
    let some_path = DataPath::Variant(
        Box::new(DataPath::Root),
        some_name.clone(),
        option_name.clone(),
    );
    let zero_terminal = DecisionPath::new()
        .add(some_path.clone())
        .add(DataPath::IntegerLiteral(Box::new(some_path.clone()), "0".to_string()));
    let terminals = c.terminals();
    assert!(terminals.iter().any(|t| same_path(t, &zero_terminal)));
    let w = winner_at(&c, &zero_terminal);
    assert_eq!(w.kind, MatchKind::UserDefined(0));
    // The None terminal is taken by no user branch: a generated alternative
    // covers it.
    let none_terminal = DecisionPath::new().add(DataPath::Variant(
        Box::new(DataPath::Root),
        none_name.clone(),
        option_name.clone(),
    ));
    let w = winner_at(&c, &none_terminal);
    assert_eq!(w.kind, MatchKind::Alternative);
}

#[test]
fn totality_every_terminal_resolves() {
    // Every terminal of the compiled tree resolves to exactly one match:
    // never zero, and deterministically (resolution is a function).
    let (table, _, some_name, _) = option_table();
    let branches = vec![
        Pattern::Named(some_name.clone(), vec![Pattern::Wildcard]),
        Pattern::Named(some_name.clone(), vec![Pattern::IntegerLiteral("0".to_string())]),
    ];
    let c = compiled(table, branches);
    let terminals = c.terminals();
    assert_eq!(terminals.len(), 3);
    for t in &terminals {
        assert!(c.resolveTerminal(t).is_some());
    }
}

#[test]
fn enum_closure_all_variants_switched() {
    // Branches [A, B] over enum {A, B, C}: the root switch still carries
    // three cases, in declaration order, and the C case resolves to an
    // alternative, never to nothing.
    let (table, enum_name, names) = abc_table();
    let branches = vec![
        Pattern::Named(names[0].clone(), vec![]),
        Pattern::Named(names[1].clone(), vec![]),
    ];
    let c = compiled(table, branches);
    match &c.node {
        Node::Switch(sw) => {
            assert_eq!(sw.cases.len(), 3);
            for (i, (case, _)) in sw.cases.iter().enumerate() {
                match case {
                    Case::Variant(n) => assert!(*n == names[i]),
                    _ => panic!("enum switch must have only variant cases"),
                }
            }
        },
        _ => panic!("enum scrutinee must compile to a switch"),
    }
    let c_terminal = DecisionPath::new().add(DataPath::Variant(
        Box::new(DataPath::Root),
        names[2].clone(),
        enum_name.clone(),
    ));
    let w = winner_at(&c, &c_terminal);
    assert_eq!(w.kind, MatchKind::Alternative);
    // The two written branches still win their own cases.
    for (i, name) in names.iter().enumerate().take(2) {
        let t = DecisionPath::new().add(DataPath::Variant(
            Box::new(DataPath::Root),
            name.clone(),
            enum_name.clone(),
        ));
        assert_eq!(winner_at(&c, &t).kind, MatchKind::UserDefined(i as i64));
    }
}

#[test]
fn tuple_decomposition_is_unconditional() {
    // A match on (x, y) decomposes the tuple without branching on it.
    let (table, _, _, _) = option_table();
    let branches = vec![Pattern::Tuple(vec![
        Pattern::Bind("x".to_string(), false),
        Pattern::Bind("y".to_string(), false),
    ])];
    let c = compiled(table, branches);
    match &c.node {
        Node::Tuple(_) => (),
        _ => panic!("a tuple scrutinee must compile to a decomposition, not a switch"),
    }
}

#[test]
fn binding_scoped_to_payload_position() {
    // Pattern Some(x): the binding map associates x with exactly the
    // decision prefix at the payload position.
    let (table, option_name, some_name, _) = option_table();
    let compiler = MatchCompiler::new(table, Vec::new());
    let pattern = Pattern::Named(some_name.clone(), vec![Pattern::Bind("x".to_string(), false)]);
    let (decision, bindings) = compiler.generateDecisions(
        &pattern,
        &DataPath::Root,
        &DecisionPath::new(),
        Bindings::new(),
    );
    let some_path = DataPath::Variant(
        Box::new(DataPath::Root),
        some_name.clone(),
        option_name.clone(),
    );
    let expected_key = DecisionPath::new().add(some_path.clone()).add(some_path.clone());
    assert_eq!(bindings.bindings.len(), 1);
    assert!(same_path(&bindings.bindings[0].0, &expected_key));
    assert_eq!(bindings.bindings[0].1.as_str(), "x");
    let expected_decision = DecisionPath::new()
        .add(some_path.clone())
        .add(DataPath::Wildcard(Box::new(some_path.clone())));
    assert!(same_path(&decision, &expected_decision));
}

#[test]
fn sibling_branches_bind_same_name_independently() {
    // Two branches each binding `x` keep their bindings in their own match
    // entries; nothing collides across branches.
    let (table, _, some_name, none_name) = option_table();
    let branches = vec![
        Pattern::Named(some_name.clone(), vec![Pattern::Bind("x".to_string(), false)]),
        Pattern::Named(none_name.clone(), vec![]),
    ];
    let c = compiled(table, branches);
    let user_matches: Vec<&Match> = c
        .matches
        .iter()
        .filter(|m| matches!(m.kind, MatchKind::UserDefined(_)))
        .collect();
    assert_eq!(user_matches.len(), 2);
    assert_eq!(user_matches[0].bindings.bindings.len(), 1);
    assert_eq!(user_matches[1].bindings.bindings.len(), 0);
}

#[test]
fn literal_switch_has_default() {
    // match n { 0 => .., 1 => .., _ => .. } over an integer: cases
    // {0, 1, Default}, in that order.
    let (table, _, _, _) = option_table();
    let branches = vec![
        Pattern::IntegerLiteral("0".to_string()),
        Pattern::IntegerLiteral("1".to_string()),
        Pattern::Wildcard,
    ];
    let c = compiled(table, branches);
    match &c.node {
        Node::Switch(sw) => {
            assert_eq!(sw.cases.len(), 3);
            assert!(matches!(&sw.cases[0].0, Case::Integer(v) if v.as_str() == "0"));
            assert!(matches!(&sw.cases[1].0, Case::Integer(v) if v.as_str() == "1"));
            assert!(matches!(&sw.cases[2].0, Case::Default));
        },
        _ => panic!("an integer scrutinee must compile to a switch"),
    }
}

#[test]
fn literal_default_without_wildcard_branch() {
    // Omitting the catch-all branch still produces a Default case, fed only
    // by generated alternatives.
    let (table, _, _, _) = option_table();
    let branches = vec![
        Pattern::IntegerLiteral("0".to_string()),
        Pattern::IntegerLiteral("1".to_string()),
    ];
    let c = compiled(table, branches);
    match &c.node {
        Node::Switch(sw) => {
            assert_eq!(sw.cases.len(), 3);
            assert!(matches!(&sw.cases[2].0, Case::Default));
        },
        _ => panic!("an integer scrutinee must compile to a switch"),
    }
    let default_terminal = DecisionPath::new().add(DataPath::Wildcard(Box::new(DataPath::Root)));
    let w = winner_at(&c, &default_terminal);
    assert_eq!(w.kind, MatchKind::Alternative);
}

#[test]
fn redundant_branch_wins_nowhere() {
    // Branches [_, 5] in that order: branch 0 covers every terminal, so
    // branch 1 is redundant — no terminal resolves to it.
    let (table, _, _, _) = option_table();
    let branches = vec![Pattern::Wildcard, Pattern::IntegerLiteral("5".to_string())];
    let c = compiled(table, branches);
    let terminals = c.terminals();
    assert_eq!(terminals.len(), 2);
    for t in &terminals {
        let w = winner_at(&c, t);
        assert_eq!(w.kind, MatchKind::UserDefined(0));
    }
}

#[test]
fn redundant_branch_flagged() {
    // Branches [_, 5]: the second is flagged redundant, the first is not.
    let (table, _, _, _) = option_table();
    let branches = vec![Pattern::Wildcard, Pattern::IntegerLiteral("5".to_string())];
    let c = compiled(table, branches);
    let redundant = c.redundantBranches();
    assert_eq!(redundant, vec![1]);
    assert!(c.missingPaths().is_empty());
}

#[test]
fn missing_pattern_flagged() {
    // Branches [A] over enum {A, B, C}: the B and C shapes are missing, and
    // nothing is redundant.
    let (table, enum_name, names) = abc_table();
    let branches = vec![Pattern::Named(names[0].clone(), vec![])];
    let c = compiled(table, branches);
    let missing = c.missingPaths();
    assert_eq!(missing.len(), 2);
    for (k, miss) in missing.iter().enumerate() {
        let expected = DecisionPath::new().add(DataPath::Variant(
            Box::new(DataPath::Root),
            names[k + 1].clone(),
            enum_name.clone(),
        ));
        assert!(same_path(miss, &expected));
    }
    assert!(c.redundantBranches().is_empty());
}

#[test]
fn string_literals_switch_with_default() {
    let (table, _, _, _) = option_table();
    let branches = vec![
        Pattern::StringLiteral("yes".to_string()),
        Pattern::Wildcard,
    ];
    let c = compiled(table, branches);
    match &c.node {
        Node::Switch(sw) => {
            assert_eq!(sw.cases.len(), 2);
            assert!(matches!(&sw.cases[0].0, Case::String(v) if v.as_str() == "yes"));
            assert!(matches!(&sw.cases[1].0, Case::Default));
        },
        _ => panic!("a string scrutinee must compile to a switch"),
    }
}

#[test]
fn nested_pattern_compiles_deep_switch() {
    // Some(0) | Some(_) | None: under the Some case an integer switch.
    let (table, option_name, some_name, none_name) = option_table();
    let branches = vec![
        Pattern::Named(some_name.clone(), vec![Pattern::IntegerLiteral("0".to_string())]),
        Pattern::Named(some_name.clone(), vec![Pattern::Wildcard]),
        Pattern::Named(none_name.clone(), vec![]),
    ];
    let c = compiled(table, branches);
    let some_path = DataPath::Variant(
        Box::new(DataPath::Root),
        some_name.clone(),
        option_name.clone(),
    );
    let zero_terminal = DecisionPath::new()
        .add(some_path.clone())
        .add(DataPath::IntegerLiteral(Box::new(some_path.clone()), "0".to_string()));
    assert_eq!(winner_at(&c, &zero_terminal).kind, MatchKind::UserDefined(0));
    let other_terminal = DecisionPath::new()
        .add(some_path.clone())
        .add(DataPath::Wildcard(Box::new(some_path.clone())));
    assert_eq!(winner_at(&c, &other_terminal).kind, MatchKind::UserDefined(1));
}

#[test]
fn resolution_error_reported() {
    let (table, _, _, _) = option_table();
    let unknown = build("Nowhere", "Ghost");
    let branches = vec![Pattern::Named(unknown, vec![])];
    let compiler = MatchCompiler::new(table, branches);
    match compiler.compile() {
        Err(MatchError::ResolutionError(_)) => (),
        _ => panic!("an unknown constructor must be a resolution error"),
    }
}

#[test]
fn arity_mismatch_reported() {
    let (table, _, some_name, _) = option_table();
    // Some declares one payload item; a nullary Some pattern is rejected.
    let branches = vec![Pattern::Named(some_name.clone(), vec![])];
    let compiler = MatchCompiler::new(table, branches);
    match compiler.compile() {
        Err(MatchError::ArityMismatch(_, want, got)) => {
            assert_eq!(want, 1);
            assert_eq!(got, 0);
        },
        _ => panic!("a constructor with the wrong arity must be rejected"),
    }
}

#[test]
fn shape_conflict_reported() {
    // One branch tests the scrutinee as an integer, another as a string:
    // an internal-consistency failure of the upstream type checker.
    let (table, _, _, _) = option_table();
    let branches = vec![
        Pattern::IntegerLiteral("0".to_string()),
        Pattern::StringLiteral("a".to_string()),
    ];
    let compiler = MatchCompiler::new(table, branches);
    match compiler.compile() {
        Err(MatchError::ShapeConflict(p)) => assert!(p == DataPath::Root),
        _ => panic!("conflicting shapes at one position must be rejected"),
    }
}

#[test]
fn class_pattern_unsupported() {
    // A constructor that resolves but is no variant is a nominal-class
    // pattern; the tree builder has no semantics for it and reports so.
    let (mut table, _, _, _) = option_table();
    let class_name = build("M", "Point");
    table.names.push((class_name.clone(), class_name.clone()));
    let branches = vec![Pattern::Named(class_name, vec![])];
    let compiler = MatchCompiler::new(table, branches);
    match compiler.compile() {
        Err(MatchError::ClassUnsupported(p)) => assert!(p == DataPath::Root),
        _ => panic!("a class pattern at a decided position must be rejected"),
    }
}

#[test]
fn undeclared_enum_caught_by_shape_check() {
    // A shape table naming an enum the symbol table does not declare is an
    // internal-consistency failure.
    let (table, _, _, _) = option_table();
    let ghost_enum = build("Nowhere", "E");
    let shapes = vec![(DataPath::Root, DataType::Enum(ghost_enum))];
    match shapesCheck(&table, &shapes) {
        Err(MatchError::UndeclaredEnum(_)) => (),
        _ => panic!("an undeclared enum shape must be rejected"),
    }
    let ok_shapes = vec![(DataPath::Root, DataType::Integer)];
    assert!(shapesCheck(&table, &ok_shapes).is_ok());
}

#[test]
fn catch_all_branch_covers_every_terminal() {
    // With a catch-all branch anywhere in the set, every terminal resolves.
    let (table, _, some_name, _) = option_table();
    let branches = vec![
        Pattern::Named(some_name.clone(), vec![Pattern::IntegerLiteral("1".to_string())]),
        Pattern::Wildcard,
    ];
    let c = compiled(table, branches);
    for t in &c.terminals() {
        assert!(c.resolveTerminal(t).is_some());
    }
    assert!(c.missingPaths().is_empty());
    assert!(c.redundantBranches().is_empty());
}

#[test]
fn is_match_subsumption() {
    let (table, _, some_name, none_name) = option_table();
    let compiler = MatchCompiler::new(table, Vec::new());
    let some_zero = Pattern::Named(
        some_name.clone(),
        vec![Pattern::IntegerLiteral("0".to_string())],
    );
    let some_any = Pattern::Named(some_name.clone(), vec![Pattern::Wildcard]);
    let none_pat = Pattern::Named(none_name.clone(), vec![]);
    assert!(compiler.isMatch(&some_any, &some_zero));
    assert!(!compiler.isMatch(&some_zero, &some_any));
    assert!(!compiler.isMatch(&some_any, &none_pat));
    assert!(compiler.isMatch(&Pattern::Wildcard, &none_pat));
    assert!(compiler.isMatch(&Pattern::Bind("x".to_string(), false), &some_zero));
    assert!(compiler.isMatch(
        &Pattern::IntegerLiteral("7".to_string()),
        &Pattern::IntegerLiteral("7".to_string())
    ));
    assert!(!compiler.isMatch(
        &Pattern::IntegerLiteral("7".to_string()),
        &Pattern::IntegerLiteral("8".to_string())
    ));
}

#[test]
fn wildcard_step_absorbs_descendants() {
    // A wildcard step consumes every terminal step structurally below its
    // parent; a literal step consumes only its equal.
    let (_, option_name, some_name, _) = option_table();
    let some_path = DataPath::Variant(
        Box::new(DataPath::Root),
        some_name.clone(),
        option_name.clone(),
    );
    let terminal = DecisionPath::new()
        .add(some_path.clone())
        .add(DataPath::IntegerLiteral(Box::new(some_path.clone()), "0".to_string()));
    // The root wildcard absorbs the whole terminal path.
    let stripped = removePaths(&DataPath::Wildcard(Box::new(DataPath::Root)), terminal.clone());
    assert_eq!(stripped.decisions.len(), 0);
    // A match path [Some-variant, payload wildcard] covers the terminal.
    let m = DecisionPath::new()
        .add(some_path.clone())
        .add(DataPath::Wildcard(Box::new(some_path.clone())));
    assert!(matchDecisions(terminal.clone(), m));
    // A match testing a different literal does not.
    let other = DecisionPath::new()
        .add(some_path.clone())
        .add(DataPath::IntegerLiteral(Box::new(some_path.clone()), "1".to_string()));
    assert!(!matchDecisions(terminal, other));
}

#[test]
fn path_ancestry() {
    let (_, option_name, some_name, _) = option_table();
    let some_path = DataPath::Variant(
        Box::new(DataPath::Root),
        some_name.clone(),
        option_name.clone(),
    );
    let deep = DataPath::IntegerLiteral(Box::new(some_path.clone()), "0".to_string());
    assert!(deep.isChild(&DataPath::Root));
    assert!(deep.isChild(&some_path));
    assert!(!some_path.isChild(&deep));
    assert!(deep.getParent() == some_path);
    assert!(DataPath::Root.getParent() == DataPath::Root);
}

#[test]
fn alternatives_generated_for_written_branch() {
    // Compiling [Some(0)] synthesizes alternatives: the other variant and
    // the opened payload.
    let (table, _, some_name, _) = option_table();
    let branches = vec![Pattern::Named(
        some_name.clone(),
        vec![Pattern::IntegerLiteral("0".to_string())],
    )];
    let c = compiled(table, branches);
    let user_count = c
        .matches
        .iter()
        .filter(|m| matches!(m.kind, MatchKind::UserDefined(_)))
        .count();
    let alt_count = c
        .matches
        .iter()
        .filter(|m| matches!(m.kind, MatchKind::Alternative))
        .count();
    assert_eq!(user_count, 1);
    // One alternative per other variant (None) and one per opened payload
    // position (Some(_)).
    assert_eq!(alt_count, 2);
}
