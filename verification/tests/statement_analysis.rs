use clinlint::diagnostics::diagnostic_codes::DiagnosticsCode;
use clinlint::diagnostics::diagnostic_run_data::DiagnosticsRunData;
use clinlint::diagnostics::statement_analysis::statement_analysis;
use clinlint::document::DocumentData;

fn create_test_document(source: String) -> DocumentData {
    let mut parser = tree_sitter::Parser::new();
    parser
        .set_language(&tree_sitter_clingo::language())
        .expect("Error loading clingo grammar");

    let tree = parser.parse(source.clone(), None).unwrap();

    let mut doc = DocumentData::new(
        "file://test.lp".to_string(),
        tree,
        ropey::Rope::from_str(&source),
        1,
    );
    assert!(doc.generate_semantics(None));
    doc
}

#[test]
fn no_variables_should_be_detected_as_safe() {
    let mut diags = DiagnosticsRunData::create_test_diagnostics();

    statement_analysis(&mut diags, &create_test_document("a :- b.".to_string()));

    assert_eq!(diags.total_diagnostics.len(), 0);
}

#[test]
fn unsafe_variables_should_be_detected_no_body() {
    let mut diags = DiagnosticsRunData::create_test_diagnostics();

    statement_analysis(&mut diags, &create_test_document("a(X).".to_string()));

    assert_eq!(diags.total_diagnostics.len(), 1);

    assert_eq!(
        format!("Number({})", diags.total_diagnostics.get(0).unwrap().code),
        format!("Number({})", DiagnosticsCode::UnsafeVariable.into_i32())
    );
}

#[test]
fn unsafe_variables_should_be_detected_no_variables_in_body() {
    let mut diags = DiagnosticsRunData::create_test_diagnostics();

    statement_analysis(&mut diags, &create_test_document("a(X) :- b.".to_string()));

    assert_eq!(diags.total_diagnostics.len(), 1);

    assert_eq!(
        format!("Number({})", diags.total_diagnostics.get(0).unwrap().code),
        format!("Number({})", DiagnosticsCode::UnsafeVariable.into_i32())
    );
}

#[test]
fn unsafe_variables_should_not_be_detected_if_variable_in_body() {
    let mut diags = DiagnosticsRunData::create_test_diagnostics();

    statement_analysis(
        &mut diags,
        &create_test_document("a(X) :- b(X).".to_string()),
    );

    assert_eq!(diags.total_diagnostics.len(), 0);
}

#[test]
fn safeness_should_be_blocked_by_not() {
    let mut diags = DiagnosticsRunData::create_test_diagnostics();

    statement_analysis(
        &mut diags,
        &create_test_document("a :- not b(X).".to_string()),
    );

    assert_eq!(diags.total_diagnostics.len(), 1);

    assert_eq!(
        format!("Number({})", diags.total_diagnostics.get(0).unwrap().code),
        format!("Number({})", DiagnosticsCode::UnsafeVariable.into_i32())
    );
}

#[test]
fn safeness_should_be_blocked_by_multiple_nots() {
    let mut diags = DiagnosticsRunData::create_test_diagnostics();

    statement_analysis(
        &mut diags,
        &create_test_document("a :- not not b(X).".to_string()),
    );

    assert_eq!(diags.total_diagnostics.len(), 1);

    assert_eq!(
        format!("Number({})", diags.total_diagnostics.get(0).unwrap().code),
        format!("Number({})", DiagnosticsCode::UnsafeVariable.into_i32())
    );
}

#[test]
fn safeness_should_be_working_if_one_of_the_body_atoms_provides_it() {
    let mut diags = DiagnosticsRunData::create_test_diagnostics();

    statement_analysis(
        &mut diags,
        &create_test_document("a(X) :- not b(X), b(X).".to_string()),
    );

    assert_eq!(diags.total_diagnostics.len(), 0);
}

#[test]
fn safeness_should_not_be_blocked_by_not_in_head() {
    let mut diags = DiagnosticsRunData::create_test_diagnostics();

    statement_analysis(
        &mut diags,
        &create_test_document("not a(X) :- b(X).".to_string()),
    );

    assert_eq!(diags.total_diagnostics.len(), 0);
}

#[test]
fn safeness_should_work_with_integrity_constraints() {
    let mut diags = DiagnosticsRunData::create_test_diagnostics();

    statement_analysis(&mut diags, &create_test_document(":- b(X).".to_string()));

    assert_eq!(diags.total_diagnostics.len(), 0);
}

#[test]
fn unsafeness_should_work_with_integrity_constraints() {
    let mut diags = DiagnosticsRunData::create_test_diagnostics();

    statement_analysis(
        &mut diags,
        &create_test_document(":- b(X), c(X+Y).".to_string()),
    );

    assert_eq!(diags.total_diagnostics.len(), 1);

    assert_eq!(
        format!("Number({})", diags.total_diagnostics.get(0).unwrap().code),
        format!("Number({})", DiagnosticsCode::UnsafeVariable.into_i32())
    );
}

#[test]
fn unsafe_variables_should_be_detected_in_choice_rule_with_no_body() {
    let mut diags = DiagnosticsRunData::create_test_diagnostics();

    statement_analysis(&mut diags, &create_test_document("{a(X)}.".to_string()));

    assert_eq!(diags.total_diagnostics.len(), 1);

    assert_eq!(
        format!("Number({})", diags.total_diagnostics.get(0).unwrap().code),
        format!("Number({})", DiagnosticsCode::UnsafeVariable.into_i32())
    );
}

#[test]
fn safeness_correctly_detected_in_choice_rule() {
    let mut diags = DiagnosticsRunData::create_test_diagnostics();

    statement_analysis(
        &mut diags,
        &create_test_document("{a(X) : b(X)}.".to_string()),
    );

    assert_eq!(diags.total_diagnostics.len(), 0);
}

#[test]
fn unsafe_variables_should_be_detected_in_choice_rule() {
    let mut diags = DiagnosticsRunData::create_test_diagnostics();

    statement_analysis(
        &mut diags,
        &create_test_document("{a(Y) : b(X)}.".to_string()),
    );

    assert_eq!(diags.total_diagnostics.len(), 1);

    assert_eq!(
        format!("Number({})", diags.total_diagnostics.get(0).unwrap().code),
        format!("Number({})", DiagnosticsCode::UnsafeVariable.into_i32())
    );
}

#[test]
fn body_can_safe_variables_in_choice_rule() {
    let mut diags = DiagnosticsRunData::create_test_diagnostics();

    statement_analysis(
        &mut diags,
        &create_test_document("{a(X)} :- b(X).".to_string()),
    );

    assert_eq!(diags.total_diagnostics.len(), 0);
}

#[test]
fn unsafe_variables_should_be_detected_in_conjunctions() {
    let mut diags = DiagnosticsRunData::create_test_diagnostics();

    statement_analysis(
        &mut diags,
        &create_test_document("{a(X)} :- a : b(X).".to_string()),
    );

    assert_eq!(diags.total_diagnostics.len(), 2);

    assert_eq!(
        format!("Number({})", diags.total_diagnostics.get(0).unwrap().code),
        format!("Number({})", DiagnosticsCode::UnsafeVariable.into_i32())
    );
}

#[test]
fn unsafe_variables_should_be_detected_in_conjunctions_with_not() {
    let mut diags = DiagnosticsRunData::create_test_diagnostics();

    statement_analysis(
        &mut diags,
        &create_test_document("a :- not a(Y) : b(X).".to_string()),
    );

    assert_eq!(diags.total_diagnostics.len(), 1);

    assert_eq!(
        format!("Number({})", diags.total_diagnostics.get(0).unwrap().code),
        format!("Number({})", DiagnosticsCode::UnsafeVariable.into_i32())
    );
}

#[test]
fn unsafe_variables_should_be_detected_in_show() {
    let mut diags = DiagnosticsRunData::create_test_diagnostics();

    statement_analysis(
        &mut diags,
        &create_test_document("#show X : a.".to_string()),
    );

    assert_eq!(diags.total_diagnostics.len(), 1);

    assert_eq!(
        format!("Number({})", diags.total_diagnostics.get(0).unwrap().code),
        format!("Number({})", DiagnosticsCode::UnsafeVariable.into_i32())
    );
}

#[test]
fn safeness_should_be_detected_in_show() {
    let mut diags = DiagnosticsRunData::create_test_diagnostics();

    statement_analysis(
        &mut diags,
        &create_test_document("#show X : a(X).".to_string()),
    );

    assert_eq!(diags.total_diagnostics.len(), 0);
}

#[test]
fn unsafe_variables_should_be_detected_with_aggregates() {
    let mut diags = DiagnosticsRunData::create_test_diagnostics();

    statement_analysis(
        &mut diags,
        &create_test_document("a(X) :- N = #count{X : b(X)}.".to_string()),
    );

    assert_eq!(diags.total_diagnostics.len(), 4);

    assert_eq!(
        format!("Number({})", diags.total_diagnostics.get(0).unwrap().code),
        format!("Number({})", DiagnosticsCode::UnsafeVariable.into_i32())
    );
}

#[test]
fn unsafe_variables_should_be_detected_with_aggregates_and_disjunction() {
    let mut diags = DiagnosticsRunData::create_test_diagnostics();

    statement_analysis(
        &mut diags,
        &create_test_document("a(N), c(X) :- N = #count{X : b(X)}.".to_string()),
    );

    assert_eq!(diags.total_diagnostics.len(), 5);

    assert_eq!(
        format!("Number({})", diags.total_diagnostics.get(0).unwrap().code),
        format!("Number({})", DiagnosticsCode::UnsafeVariable.into_i32())
    );
}

#[test]
fn safeness_should_be_detected_with_aggregates() {
    let mut diags = DiagnosticsRunData::create_test_diagnostics();

    statement_analysis(
        &mut diags,
        &create_test_document("a :- N = #count{X : b(X)}.".to_string()),
    );

    assert_eq!(diags.total_diagnostics.len(), 0);
}

#[test]
fn unsafe_variables_should_be_detected_within_aggregates() {
    let mut diags = DiagnosticsRunData::create_test_diagnostics();

    statement_analysis(
        &mut diags,
        &create_test_document("a :- N = #count{X : b}.".to_string()),
    );

    assert_eq!(diags.total_diagnostics.len(), 1);

    assert_eq!(
        format!("Number({})", diags.total_diagnostics.get(0).unwrap().code),
        format!("Number({})", DiagnosticsCode::UnsafeVariable.into_i32())
    );
}

#[test]
fn unsafe_variables_should_be_detected_with_disjunction() {
    let mut diags = DiagnosticsRunData::create_test_diagnostics();

    statement_analysis(
        &mut diags,
        &create_test_document("a(E) : b(X) :- a.".to_string()),
    );

    assert_eq!(diags.total_diagnostics.len(), 1);

    assert_eq!(
        format!("Number({})", diags.total_diagnostics.get(0).unwrap().code),
        format!("Number({})", DiagnosticsCode::UnsafeVariable.into_i32())
    );
}

#[test]
fn safeness_should_be_detected_with_disjunction() {
    let mut diags = DiagnosticsRunData::create_test_diagnostics();

    statement_analysis(
        &mut diags,
        &create_test_document("a(X) : b(X) :- a.".to_string()),
    );

    assert_eq!(diags.total_diagnostics.len(), 0);
}

#[test]
fn unsafe_variables_should_be_detected_with_comparison() {
    let mut diags = DiagnosticsRunData::create_test_diagnostics();

    statement_analysis(
        &mut diags,
        &create_test_document("a(Y) :- X=Y.".to_string()),
    );

    assert_eq!(diags.total_diagnostics.len(), 3);
}

#[test]
fn safe_variables_should_be_detected_with_comparison_indirectly() {
    let mut diags = DiagnosticsRunData::create_test_diagnostics();

    statement_analysis(
        &mut diags,
        &create_test_document("a(Y) :- a(X), X=Y.".to_string()),
    );

    assert_eq!(diags.total_diagnostics.len(), 0);
}

#[test]
fn unsafe_variables_should_be_detected_with_multiple_statements_correctly() {
    let mut diags = DiagnosticsRunData::create_test_diagnostics();

    statement_analysis(
        &mut diags,
        &create_test_document(
            "a(X) :- b(Y). c(X) :- d(X). a(Y), b(Z) :- a(X), X=Y, Y=Z. c(X,Y) :- a(Z, Y)."
                .to_string(),
        ),
    );

    assert_eq!(diags.total_diagnostics.len(), 2);
}

#[test]
fn safe_variables_should_be_detected_with_pools() {
    let mut diags = DiagnosticsRunData::create_test_diagnostics();

    statement_analysis(
        &mut diags,
        &create_test_document("a(X) :- a(X;X).".to_string()),
    );

    assert_eq!(diags.total_diagnostics.len(), 0);
}

#[test]
fn unsafe_variables_should_be_detected_with_pools() {
    let mut diags = DiagnosticsRunData::create_test_diagnostics();

    statement_analysis(
        &mut diags,
        &create_test_document("a(X) :- a(X;Y).".to_string()),
    );

    assert_eq!(diags.total_diagnostics.len(), 2);
}

#[test]
fn unsafe_variables_should_be_detected_with_aritmethics() {
    let mut diags = DiagnosticsRunData::create_test_diagnostics();

    statement_analysis(
        &mut diags,
        &create_test_document("a(X,Y) :- a(X+Y, X).".to_string()),
    );

    assert_eq!(diags.total_diagnostics.len(), 2);
}

#[test]
fn constant_should_safe_equation() {
    let mut diags = DiagnosticsRunData::create_test_diagnostics();

    statement_analysis(
        &mut diags,
        &create_test_document("a(X) :- a(X+1).".to_string()),
    );

    assert_eq!(diags.total_diagnostics.len(), 0);
}

#[test]
fn constant_cannot_safe_multiplication_if_zero() {
    let mut diags = DiagnosticsRunData::create_test_diagnostics();

    statement_analysis(
        &mut diags,
        &create_test_document("a(X) :- a(X*0).".to_string()),
    );

    assert_eq!(diags.total_diagnostics.len(), 2);
}

#[test]
fn negated_not_equals_should_be_handled_as_equals() {
    let mut diags = DiagnosticsRunData::create_test_diagnostics();

    statement_analysis(
        &mut diags,
        &create_test_document("a(X) :- a(Y), not Y != X.".to_string()),
    );

    assert_eq!(diags.total_diagnostics.len(), 0);
}

#[test]
fn unsafe_variables_should_be_detected_in_weak_constraint() {
    let mut diags = DiagnosticsRunData::create_test_diagnostics();

    statement_analysis(
        &mut diags,
        &create_test_document(":~ a(X). [Y]".to_string()),
    );

    assert_eq!(diags.total_diagnostics.len(), 1);
}

#[test]
fn safeness_should_be_detected_in_weak_constraint() {
    let mut diags = DiagnosticsRunData::create_test_diagnostics();

    statement_analysis(
        &mut diags,
        &create_test_document(":~ a(X). [X]".to_string()),
    );

    assert_eq!(diags.total_diagnostics.len(), 0);
}

#[test]
fn unsafe_variables_should_be_detected_in_optimization() {
    let mut diags = DiagnosticsRunData::create_test_diagnostics();

    statement_analysis(
        &mut diags,
        &create_test_document("#minimize{Y@1,X:hotel(X)}.".to_string()),
    );

    assert_eq!(diags.total_diagnostics.len(), 1);
}

#[test]
fn safeness_should_be_detected_in_optimization() {
    let mut diags = DiagnosticsRunData::create_test_diagnostics();

    statement_analysis(
        &mut diags,
        &create_test_document("#minimize{Y@1,X:hotel(X), star(X, Y)}.".to_string()),
    );

    assert_eq!(diags.total_diagnostics.len(), 0);
}

#[test]
fn unsafe_variables_should_be_detected_for_aggregate_in_head() {
    let mut diags = DiagnosticsRunData::create_test_diagnostics();

    statement_analysis(
        &mut diags,
        &create_test_document("#sum{X : b(X)}.".to_string()),
    );

    assert_eq!(diags.total_diagnostics.len(), 2);
}

#[test]
fn safeness_should_be_detected_for_aggregate_in_head() {
    let mut diags = DiagnosticsRunData::create_test_diagnostics();

    statement_analysis(
        &mut diags,
        &create_test_document("#sum{X : b(X)} :- test(X).".to_string()),
    );

    assert_eq!(diags.total_diagnostics.len(), 0);
}
