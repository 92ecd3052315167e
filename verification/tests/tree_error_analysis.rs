use clinlint::diagnostics::diagnostic_codes::DiagnosticsCode;
use clinlint::diagnostics::diagnostic_run_data::DiagnosticsRunData;
use clinlint::diagnostics::tree_error_analysis::search_for_tree_error;
use clinlint::document::DocumentData;

fn create_test_document(source: String) -> DocumentData {
    let mut parser = tree_sitter::Parser::new();
    parser
        .set_language(&tree_sitter_clingo::language())
        .expect("Error loading clingo grammar");

    let tree = parser.parse(source.clone(), None).unwrap();

    let mut doc = DocumentData::new(
        "file://test.lp".to_string(),
        tree,
        ropey::Rope::from_str(&source),
        1,
    );
    assert!(doc.generate_semantics(None));
    doc
}

#[test]
fn unknown_character_should_throw_unknown_parser_error() {
    let mut diags = DiagnosticsRunData::create_test_diagnostics();
    let doc = create_test_document("a b.".to_string());

    search_for_tree_error(&mut diags, &doc);

    assert_eq!(diags.total_diagnostics.len(), 1);

    assert_eq!(
        format!("Number({})", diags.total_diagnostics.get(0).unwrap().code),
        format!("Number({})", DiagnosticsCode::UnknownParseState.into_i32())
    );
}
#[test]
fn if_parser_expects_dot_throw_dot_parser_error() {
    let mut diags = DiagnosticsRunData::create_test_diagnostics();
    let doc = create_test_document("a. d c :- a.".to_string());

    search_for_tree_error(&mut diags, &doc);

    assert_eq!(diags.total_diagnostics.len(), 1);

    assert_eq!(
        format!("Number({})", diags.total_diagnostics.get(0).unwrap().code),
        format!("Number({})", DiagnosticsCode::ExpectedDot.into_i32())
    );
}
#[test]
fn if_parser_misses_token_throw_missing_token() {
    let mut diags = DiagnosticsRunData::create_test_diagnostics();
    let doc = create_test_document("a(b.".to_string());

    search_for_tree_error(&mut diags, &doc);

    assert_eq!(diags.total_diagnostics.len(), 1);

    assert_eq!(
        format!("Number({})", diags.total_diagnostics.get(0).unwrap().code),
        format!(
            "Number({})",
            DiagnosticsCode::ExpectedMissingToken.into_i32()
        )
    );
}
