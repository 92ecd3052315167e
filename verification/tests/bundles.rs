use clinlint::numset::NumSet;
use clinlint::semantics::encoding_semantic::EncodingSemantics;
use clinlint::semantics::special_literal_semantic::{LiteralType, SpecialLiteralSemantics};
use clinlint::semantics::statement_semantic::StatementSemantics;
use clinlint::semantics::term_semantic::{TermOperator, TermSemantic, TermType};
use clinlint::syntax_tree::{Point, TextRange};
use clinlint::varset::VarSet;

fn set(names: &[&str]) -> VarSet {
    let mut s = VarSet::new();
    for n in names {
        s.insert(n.to_string());
    }
    s
}

fn sorted(s: &VarSet) -> Vec<String> {
    let mut v = s.to_vec();
    v.sort();
    v
}

fn constant(value: i64) -> TermSemantic {
    let mut term = TermSemantic::new();
    term.kind = TermType::Constant;
    let mut values = NumSet::new();
    values.insert(value);
    term.value = values;
    term
}

#[test]
fn a_new_bundle_is_empty() {
    let bundle = StatementSemantics::new();
    assert!(bundle.vars.is_empty());
    assert!(bundle.global_vars.is_empty());
    assert!(bundle.provide.is_empty());
    assert!(bundle.depend.is_empty());
    assert!(bundle.dependencies.is_empty());
    assert!(bundle.special_literals.is_empty());
    assert_eq!(bundle.term.kind, TermType::Unknown);
    assert_eq!(bundle.term.operator, TermOperator::NoOperator);
    assert_eq!(bundle.term.value.len(), 0);
    assert_eq!(
        bundle.term.range,
        TextRange {
            start_byte: 0,
            end_byte: 0,
            start_point: Point { row: 0, column: 0 },
            end_point: Point { row: 0, column: 0 },
        }
    );
    assert_eq!(TextRange::empty(), bundle.term.range);
}

#[test]
fn a_bundle_is_built_field_by_field() {
    let literal = SpecialLiteralSemantics {
        id: 7,
        kind: LiteralType::Conjunction,
        local_dependency: vec![(set(&[]), set(&["L"]))],
    };
    let bundle = StatementSemantics::new()
        .with_vars(set(&["X", "Y"]))
        .with_global_vars(set(&["X"]))
        .with_provide(set(&["Y"]))
        .with_depend(set(&["X"]))
        .with_dependencies(vec![(set(&["Y"]), set(&["X"]))])
        .with_special_literals(vec![literal])
        .with_term(constant(5));
    assert_eq!(sorted(&bundle.vars), vec!["X", "Y"]);
    assert_eq!(sorted(&bundle.global_vars), vec!["X"]);
    assert_eq!(sorted(&bundle.provide), vec!["Y"]);
    assert_eq!(sorted(&bundle.depend), vec!["X"]);
    assert_eq!(bundle.dependencies.len(), 1);
    assert_eq!(sorted(&bundle.dependencies[0].0), vec!["Y"]);
    assert_eq!(sorted(&bundle.dependencies[0].1), vec!["X"]);
    assert_eq!(bundle.special_literals.len(), 1);
    assert_eq!(bundle.special_literals[0].id, 7);
    assert_eq!(bundle.special_literals[0].kind, LiteralType::Conjunction);
    assert_eq!(bundle.term.kind, TermType::Constant);
    assert!(bundle.term.value.contains(5));
    // A copy holds the same
    let copy = bundle.clone();
    assert_eq!(format!("{:?}", copy), format!("{:?}", bundle));
}

#[test]
fn bundles_are_stored_by_node_identity() {
    let mut semantics = EncodingSemantics::new();
    assert_eq!(semantics.statement_semantics.len(), 0);
    // Nothing is stored of node 3: what is asked for comes out empty
    assert!(semantics.get_statement_semantics_for_node(3).vars.is_empty());
    assert!(!StatementSemantics::is_evaluable(3, &semantics));

    // The first update of a node creates its bundle, the next ones fill it
    StatementSemantics::update_vars_for_node(&mut semantics, 3, set(&["X", "Y"]));
    StatementSemantics::update_provide_for_node(&mut semantics, 3, set(&["X"]));
    StatementSemantics::update_depend_for_node(&mut semantics, 3, set(&["Y"]));
    StatementSemantics::update_global_vars_for_node(&mut semantics, 3, set(&["Y", "X"]));
    StatementSemantics::update_dependencies_for_node(
        &mut semantics,
        3,
        vec![(set(&["X"]), set(&[])), (set(&[]), set(&["Y"]))],
    );
    StatementSemantics::update_special_literals_for_node(
        &mut semantics,
        3,
        vec![SpecialLiteralSemantics {
            id: 2,
            kind: LiteralType::AggregateElement,
            local_dependency: Vec::new(),
        }],
    );
    StatementSemantics::update_term_for_node(&mut semantics, 3, constant(9));
    StatementSemantics::update_vars_for_node(&mut semantics, 4, set(&["Z"]));
    assert_eq!(semantics.statement_semantics.len(), 2);

    let bundle = semantics.get_statement_semantics_for_node(3);
    assert_eq!(sorted(&bundle.vars), vec!["X", "Y"]);
    assert_eq!(sorted(&bundle.provide), vec!["X"]);
    assert_eq!(sorted(&bundle.depend), vec!["Y"]);
    assert_eq!(sorted(&bundle.global_vars), vec!["X", "Y"]);
    assert_eq!(bundle.dependencies.len(), 2);
    assert_eq!(sorted(&bundle.dependencies[1].1), vec!["Y"]);
    assert_eq!(bundle.special_literals.len(), 1);
    assert_eq!(bundle.special_literals[0].kind, LiteralType::AggregateElement);
    assert!(bundle.term.value.contains(9));
    assert!(StatementSemantics::is_evaluable(3, &semantics));
    assert!(!StatementSemantics::is_evaluable(4, &semantics));

    // An update replaces the one field and keeps the others
    StatementSemantics::update_vars_for_node(&mut semantics, 3, set(&["W"]));
    let bundle = semantics.get_statement_semantics_for_node(3);
    assert_eq!(sorted(&bundle.vars), vec!["W"]);
    assert_eq!(sorted(&bundle.provide), vec!["X"]);
    assert_eq!(sorted(&semantics.get_statement_semantics_for_node(4).vars), vec!["Z"]);

    semantics.set_statement_semantics_for_node(4, StatementSemantics::new());
    assert!(semantics.get_statement_semantics_for_node(4).vars.is_empty());
    assert_eq!(semantics.statement_semantics.len(), 2);
}

#[test]
fn a_pass_forgets_what_the_tree_does_not_hold() {
    let mut semantics = EncodingSemantics::new();
    StatementSemantics::update_vars_for_node(&mut semantics, 11, set(&["X"]));
    StatementSemantics::update_vars_for_node(&mut semantics, 12, set(&["Y"]));
    // Nothing was remembered of these nodes, so nothing is pending when a pass starts
    semantics.startup();
    assert_eq!(semantics.node_ids_encountered.len(), 0);
    semantics.cleanup();
    assert_eq!(semantics.statement_semantics.len(), 2);
    assert_eq!(semantics.old_node_ids_encountered.len(), 2);
    // Now they are remembered: a pass that meets none of them drops them
    semantics.startup();
    assert_eq!(semantics.node_ids_encountered.len(), 2);
    assert_eq!(semantics.old_node_ids_encountered.len(), 0);
    assert!(semantics.node_ids_encountered.contains(&11));
    semantics.node_ids_encountered.remove(&12);
    semantics.cleanup();
    assert_eq!(semantics.statement_semantics.len(), 1);
    assert!(semantics.statement_semantics.contains_key(&12));
    assert!(semantics.old_node_ids_encountered.contains(&12));
    assert_eq!(semantics.old_node_ids_encountered.len(), 1);
}
