use clinlint::diagnostics::diagnostic_codes::DiagnosticsCode;
use clinlint::diagnostics::run_diagnostics;
use clinlint::document::{DocumentData, UpdateError};
use clinlint::node_kind::NodeKind;
use clinlint::protocol::{Position, PositionRange, TextDocumentContentChangeEvent};
use clinlint::semantics::term_semantic::TermType;
use clinlint::syntax_tree::{Point, TextRange};

fn parser() -> tree_sitter::Parser {
    let mut parser = tree_sitter::Parser::new();
    parser
        .set_language(&tree_sitter_clingo::language())
        .expect("Error loading clingo grammar");
    parser
}

fn open(source: &str) -> DocumentData {
    let tree = parser().parse(source, None).unwrap();
    let mut doc =
        DocumentData::new("file://test.lp".to_string(), tree, ropey::Rope::from_str(source), 1);
    assert!(doc.generate_semantics(None));
    doc
}

fn change(start: (u32, u32), end: (u32, u32), text: &str) -> TextDocumentContentChangeEvent {
    TextDocumentContentChangeEvent {
        range: Some(PositionRange {
            start: Position { line: start.0, character: start.1 },
            end: Position { line: end.0, character: end.1 },
        }),
        text: text.to_string(),
    }
}

fn messages(doc: &DocumentData) -> Vec<(i32, String, usize, usize)> {
    run_diagnostics(doc, 100)
        .iter()
        .map(|d| (d.code, d.message.clone(), d.range.start_point.row, d.range.start_point.column))
        .collect()
}

// Everything that is stored of the nodes of the document, in the order of the nodes
fn stored(doc: &DocumentData) -> Vec<(String, String)> {
    doc.syntax
        .nodes
        .iter()
        .map(|n| {
            (n.label.clone(), format!("{:?}", doc.semantics.get_statement_semantics_for_node(n.id)))
        })
        .collect()
}

#[test]
fn a_new_document_knows_nothing() {
    let source = "a(X) :- b(X).";
    let tree = parser().parse(source, None).unwrap();
    let doc = DocumentData::new("file://new.lp".to_string(), tree, ropey::Rope::from_str(source), 7);
    assert_eq!(doc.uri, "file://new.lp");
    assert_eq!(doc.version, 7);
    assert_eq!(doc.syntax.len(), 0);
    assert_eq!(doc.semantics.statement_semantics.len(), 0);
    assert_eq!(doc.get_bytes(), source.as_bytes().to_vec());
}

#[test]
fn the_tree_is_written_down_in_post_order() {
    let doc = open("a(X).");
    let labels: Vec<String> = doc.syntax.nodes.iter().map(|n| n.label.clone()).collect();
    assert_eq!(
        labels,
        vec![
            "identifier", "LPAREN", "VARIABLE", "term", "termvec", "argvec", "RPAREN", "atom",
            "literal", "head", "DOT", "statement", "source_file"
        ]
    );
    let n = doc.syntax.len();
    let root = &doc.syntax.nodes[n - 1];
    assert_eq!(root.kind, NodeKind::SourceFile);
    assert_eq!(root.first, 0);
    assert_eq!(root.children, vec![n - 2]);
    assert_eq!(doc.syntax.parent(n - 1), None);
    assert_eq!(doc.syntax.parent(n - 2), Some(n - 1));
    // The atom has four children; the descendants of a node come right before it
    assert_eq!(doc.syntax.nodes[7].children, vec![0, 1, 5, 6]);
    assert_eq!(doc.syntax.nodes[7].first, 0);
    assert_eq!(doc.syntax.nodes[5].first, 2);
    assert_eq!(doc.syntax.child(7, 2), Some(5));
    assert_eq!(doc.syntax.child(7, 4), None);
    assert_eq!(doc.syntax.child_count(7), 4);
    assert_eq!(doc.syntax.child_kind(7, 1), NodeKind::Lparen);
    assert_eq!(doc.syntax.child_kind(7, 9), NodeKind::Other);
    assert_eq!(doc.syntax.nodes[2].kind, NodeKind::Variable);
    assert_eq!(doc.syntax.prev_sibling(5), Some(1));
    assert_eq!(doc.syntax.prev_sibling(0), None);
    assert_eq!(doc.syntax.prev_sibling(10), Some(9));
    assert_eq!(doc.syntax.nodes[2].text, "X");
    assert_eq!(doc.syntax.nodes[0].text, "a");
    assert_eq!(doc.syntax.nodes[7].text, "");
    assert_eq!(doc.syntax.nodes[2].range.start_byte, 2);
    assert_eq!(doc.syntax.nodes[2].range.end_byte, 3);
    let id = doc.syntax.nodes[4].id;
    assert_eq!(doc.syntax.index_of(id), Some(4));
}

#[test]
fn source_is_read_by_byte_range() {
    let doc = open("a(X) :- b(X).");
    let at = |start: usize, end: usize| TextRange {
        start_byte: start,
        end_byte: end,
        start_point: Point { row: 0, column: start },
        end_point: Point { row: 0, column: end },
    };
    assert_eq!(doc.get_source_for_range(at(8, 12)), "b(X)");
    assert_eq!(doc.get_source_for_range(at(0, 0)), "");
    // Nothing comes out for a range that is no range of the text
    assert_eq!(doc.get_source_for_range(at(8, 99)), "");
    assert_eq!(doc.get_source_for_range(at(5, 2)), "");
    let point = DocumentData::convert_position_to_point(Position { line: 3, character: 14 });
    assert_eq!(point, Point { row: 3, column: 14 });
}

#[test]
fn an_edit_changes_the_text_and_the_diagnostics() {
    let mut doc = open("a(X) :- b(X).\nc(Y) :- d(X), e(X, Y).\n");
    assert_eq!(messages(&doc), vec![]);
    let mut parser = parser();
    assert!(doc.update_document(vec![change((0, 10), (0, 11), "Z")], &mut parser).is_ok());
    assert_eq!(doc.source.to_string(), "a(X) :- b(Z).\nc(Y) :- d(X), e(X, Y).\n");
    assert_eq!(
        messages(&doc),
        vec![(DiagnosticsCode::UnsafeVariable.into_i32(), "'X' is unsafe".to_string(), 0, 2)]
    );
    // Several changes are applied one after the other, each to the text that the last one left
    assert!(doc.update_document(
        vec![change((0, 2), (0, 3), "Z"), change((1, 2), (1, 3), "W"), change((2, 0), (2, 0), "f.\n")],
        &mut parser
    ).is_ok());
    assert_eq!(doc.source.to_string(), "a(Z) :- b(Z).\nc(W) :- d(X), e(X, Y).\nf.\n");
    assert_eq!(
        messages(&doc),
        vec![(DiagnosticsCode::UnsafeVariable.into_i32(), "'W' is unsafe".to_string(), 1, 2)]
    );
    assert_eq!(doc.version, 1);
    assert_eq!(doc.uri, "file://test.lp");
}

#[test]
fn an_edit_with_text_of_several_bytes_per_character() {
    let mut doc = open("a(\"\u{e9}\u{e9}\", X) :- b(X).");
    let mut parser = parser();
    assert!(doc.update_document(vec![change((0, 16), (0, 17), "Y")], &mut parser).is_ok());
    assert_eq!(doc.source.to_string(), "a(\"\u{e9}\u{e9}\", X) :- b(Y).");
    // The column of a diagnostic counts bytes: the two accents take two bytes each
    assert_eq!(
        messages(&doc),
        vec![(DiagnosticsCode::UnsafeVariable.into_i32(), "'X' is unsafe".to_string(), 0, 10)]
    );
}

#[test]
fn an_edit_outside_the_text_is_rejected() {
    let source = "a(X) :- b(X).\n";
    let mut doc = open(source);
    let before = stored(&doc);
    let mut parser = parser();
    // There is no line 9
    assert_eq!(
        doc.update_document(vec![change((9, 0), (9, 1), "Z")], &mut parser),
        Err(UpdateError::InvalidChange(0))
    );
    // The range ends before it starts
    assert_eq!(
        doc.update_document(vec![change((0, 5), (0, 2), "Z")], &mut parser),
        Err(UpdateError::InvalidChange(0))
    );
    // The second change cannot be applied, so the first is not applied either
    assert_eq!(
        doc.update_document(
            vec![change((0, 2), (0, 3), "Z"), change((0, 500), (0, 501), "Z")],
            &mut parser
        ),
        Err(UpdateError::InvalidChange(1))
    );
    // A parser that was given no language gives no tree
    assert_eq!(
        doc.update_document(vec![change((0, 2), (0, 3), "Z")], &mut tree_sitter::Parser::new()),
        Err(UpdateError::ParseFailed)
    );
    assert_eq!(doc.source.to_string(), source);
    assert_eq!(stored(&doc), before);
    assert_eq!(messages(&doc), vec![]);
}

#[test]
fn a_change_without_a_range_is_rejected() {
    let source = "a(X) :- b(X).\n";
    let mut doc = open(source);
    let before = stored(&doc);
    let mut parser = parser();
    assert_eq!(
        doc.update_document(
            vec![TextDocumentContentChangeEvent { range: None, text: "b.".to_string() }],
            &mut parser
        ),
        Err(UpdateError::InvalidChange(0))
    );
    // The change before it is not applied either
    assert_eq!(
        doc.update_document(
            vec![
                change((0, 2), (0, 3), "Z"),
                TextDocumentContentChangeEvent { range: None, text: "b.".to_string() },
            ],
            &mut parser
        ),
        Err(UpdateError::InvalidChange(1))
    );
    assert_eq!(doc.source.to_string(), source);
    assert_eq!(stored(&doc), before);
}

#[test]
fn a_full_pass_after_edits_equals_an_analysis_from_scratch() {
    let mut doc = open("a(X) :- b(X).\nc(Y) :- d(X), e(X, Y).\n{f(X) : g(X)} :- N = #count{Z : h(Z)}.\n");
    let mut parser = parser();
    assert!(doc.update_document(vec![change((0, 10), (0, 11), "Z")], &mut parser).is_ok());
    assert!(doc.update_document(vec![change((1, 0), (1, 22), "")], &mut parser).is_ok());
    assert!(doc.update_document(vec![change((2, 10), (2, 11), "Y + 1")], &mut parser).is_ok());
    assert_eq!(
        doc.source.to_string(),
        "a(X) :- b(Z).\n\n{f(X) : g(Y + 1)} :- N = #count{Z : h(Z)}.\n"
    );
    assert!(doc.generate_semantics(None));
    // The same tree, analysed by a document that has never seen anything
    let mut scratch =
        DocumentData::new(doc.uri.clone(), doc.tree.clone(), doc.source.clone(), doc.version);
    assert!(scratch.generate_semantics(None));
    assert_eq!(stored(&doc), stored(&scratch));
    assert_eq!(messages(&doc), messages(&scratch));
    // And so is what the edits left before the full pass
    let mut edited = open("a(X) :- b(X).\n");
    assert!(edited.update_document(vec![change((0, 10), (0, 11), "Z")], &mut parser).is_ok());
    let after_edit = stored(&edited);
    assert!(edited.generate_semantics(None));
    assert_eq!(stored(&edited), after_edit);
}

#[test]
fn there_is_one_bundle_for_every_node() {
    let mut doc = open("a(X) :- b(X).\nc(Y) :- d(X), e(X, Y).\n");
    assert!(doc.syntax.len() > 20);
    assert_eq!(doc.semantics.statement_semantics.len(), doc.syntax.len());
    let mut parser = parser();
    // Taking a statement out drops the bundles of its nodes
    let before = doc.syntax.len();
    assert!(doc.update_document(vec![change((1, 0), (1, 22), "")], &mut parser).is_ok());
    assert!(doc.syntax.len() < before);
    assert_eq!(doc.semantics.statement_semantics.len(), doc.syntax.len());
    assert!(doc.update_document(vec![change((1, 0), (1, 0), "g(1..3). h :- not g(Z).")], &mut parser).is_ok());
    assert_eq!(doc.semantics.statement_semantics.len(), doc.syntax.len());
    for node in &doc.syntax.nodes {
        assert!(doc.semantics.statement_semantics.contains_key(&node.id));
    }
    assert_eq!(doc.semantics.old_node_ids_encountered.len(), doc.syntax.len());
}

#[test]
fn every_node_binds_and_needs_only_its_own_variables() {
    let mut doc = open(
        "a(X,Y) :- b(X+Y, X), not c(Z), Z = X*2, W != Y.\n{d(X) : e(X,Y)} :- N = #count{Z : f(Z;X)}.\n#show X : a(X,1..3).\n:~ a(X,Y). [X@2, Y]\n",
    );
    let mut parser = parser();
    assert!(doc.update_document(vec![change((0, 2), (0, 3), "V")], &mut parser).is_ok());
    let mut provided = 0;
    let mut needed = 0;
    for node in &doc.syntax.nodes {
        let bundle = doc.semantics.get_statement_semantics_for_node(node.id);
        assert!(bundle.provide.is_subset(&bundle.vars), "{:?}", node);
        assert!(bundle.depend.is_subset(&bundle.vars), "{:?}", node);
        if !bundle.provide.is_empty() {
            provided += 1;
        }
        if !bundle.depend.is_empty() {
            needed += 1;
        }
    }
    assert!(provided > 10);
    assert!(needed > 5);
}

#[test]
fn terms_know_their_values() {
    let doc = open("a(X) :- b(X + 1, 3 * 4, f(2), 0x1F, 7 / 0, 9 - 2, 1 - 3).");
    let terms: Vec<(String, TermType, Vec<i64>)> = doc
        .syntax
        .nodes
        .iter()
        .filter(|n| n.kind == NodeKind::Term)
        .map(|n| {
            let term = doc.semantics.get_statement_semantics_for_node(n.id).term;
            let mut values: Vec<i64> = (0..term.value.len()).map(|i| term.value.get(i)).collect();
            values.sort();
            (doc.get_source_for_range(n.range), term.kind, values)
        })
        .collect();
    let find = |text: &str| terms.iter().find(|t| t.0 == text).unwrap().clone();
    assert_eq!(find("1"), ("1".to_string(), TermType::Constant, vec![1]));
    assert_eq!(find("X + 1"), ("X + 1".to_string(), TermType::Variable, vec![]));
    assert_eq!(find("3 * 4"), ("3 * 4".to_string(), TermType::Constant, vec![12]));
    assert_eq!(find("f(2)"), ("f(2)".to_string(), TermType::Identifier, vec![]));
    // A number that is not written in decimal counts as zero
    assert_eq!(find("0x1F"), ("0x1F".to_string(), TermType::Constant, vec![0]));
    assert_eq!(find("7 / 0"), ("7 / 0".to_string(), TermType::Constant, vec![]));
    assert_eq!(find("9 - 2"), ("9 - 2".to_string(), TermType::Constant, vec![7]));
    assert_eq!(find("1 - 3"), ("1 - 3".to_string(), TermType::Constant, vec![-2]));
}

#[test]
fn only_touched_nodes_are_looked_at_again() {
    let mut doc = open("a(X) :- b(X).\nc(Y) :- d(Y).\n");
    // Forget what is known of the variable of the second statement
    let second = doc
        .syntax
        .nodes
        .iter()
        .filter(|n| n.kind == NodeKind::Statement)
        .nth(1)
        .unwrap()
        .id;
    let mut forged = doc.semantics.get_statement_semantics_for_node(second);
    forged.dependencies = Vec::new();
    let mut wrong = clinlint::varset::VarSet::new();
    wrong.insert("Q".to_string());
    forged.global_vars = wrong;
    doc.semantics.set_statement_semantics_for_node(second, forged);
    // A pass that is told of a change in the first statement leaves the second as it is
    assert!(doc.generate_semantics(Some(vec![(3, 0)])));
    let kept = doc.semantics.get_statement_semantics_for_node(second);
    assert!(kept.dependencies.is_empty());
    assert!(kept.global_vars.contains(&"Q".to_string()));
    // A pass that is told of a change in the second statement computes it anew
    assert!(doc.generate_semantics(Some(vec![(20, 21)])));
    let anew = doc.semantics.get_statement_semantics_for_node(second);
    assert!(!anew.dependencies.is_empty());
    assert!(!anew.global_vars.contains(&"Q".to_string()));
    assert!(anew.global_vars.contains(&"Y".to_string()));
}

#[test]
fn a_long_program_is_analysed() {
    let mut source = String::new();
    for i in 0..1500 {
        source.push_str(&format!("p{}(X, Y) :- q{}(X), r(Y, {}), not s(X, Z{}).\n", i, i, i, i));
    }
    // A body of many literals nests deeply
    source.push_str("t(X0) :- ");
    for i in 0..400 {
        source.push_str(&format!("u(X{}, X{}), ", i, i + 1));
    }
    source.push_str("v(X400).\n");
    let mut doc = open(&source);
    assert_eq!(doc.semantics.statement_semantics.len(), doc.syntax.len());
    assert!(doc.syntax.len() > 50000);
    // Every statement but the last has one unsafe variable, and the cap counts
    assert_eq!(run_diagnostics(&doc, 5000).len(), 1500);
    assert_eq!(run_diagnostics(&doc, 100).len(), 100);
    let mut parser = parser();
    assert!(doc.update_document(vec![change((700, 3), (700, 3), "0")], &mut parser).is_ok());
    assert_eq!(doc.semantics.statement_semantics.len(), doc.syntax.len());
    assert_eq!(run_diagnostics(&doc, 5000).len(), 1500);
    assert!(doc.update_document(vec![change((1500, 2), (1500, 4), "X999")], &mut parser).is_ok());
    assert_eq!(run_diagnostics(&doc, 5000).len(), 1501);
}

#[test]
fn a_tree_that_does_not_fit_the_text_is_not_analysed() {
    // The tree of one text, with another text
    let tree = parser().parse("a(X) :- b(X), c(Y).", None).unwrap();
    let mut doc =
        DocumentData::new("file://test.lp".to_string(), tree, ropey::Rope::from_str("a(X)."), 1);
    assert!(!doc.generate_semantics(None));
    assert_eq!(doc.syntax.len(), 0);
    assert_eq!(doc.semantics.statement_semantics.len(), 0);
    // An edit far from the end of the text leaves the parser with the end of the old tree
    let result = doc.update_document(vec![change((0, 0), (0, 0), "")], &mut parser());
    println!("{:?} {:?}", result, doc.source.to_string());
    assert_eq!(result, Err(UpdateError::InconsistentTree));
    assert_eq!(doc.source.to_string(), "a(X).");
}

#[test]
fn a_pass_that_is_told_of_no_change_keeps_everything() {
    let mut doc = open("a(X) :- b(X, Y), not c(Z).\n#show X : a(X).\n:~ a(X). [X@2, Y]\n");
    let before = stored(&doc);
    let found = messages(&doc);
    assert!(doc.generate_semantics(Some(vec![])));
    assert_eq!(stored(&doc), before);
    assert_eq!(messages(&doc), found);
    assert_eq!(found.len(), 2);
}

#[test]
fn a_walk_that_gave_a_tree_is_taken_over_and_one_that_gave_none_is_not() {
    let source = "a(X) :- b(X), not c(Y).\n";
    let tree = parser().parse(source, None).unwrap();
    let mut doc =
        DocumentData::new("file://test.lp".to_string(), tree, ropey::Rope::from_str(source), 1);

    assert!(!clinlint::semantics::analyze_syntax(&mut doc, None, &None));
    assert_eq!(doc.syntax.len(), 0);
    assert!(messages(&doc).is_empty());

    let syntax = clinlint::parser::snapshot(&doc.tree, &doc.source);
    let nodes = syntax.as_ref().unwrap().len();
    assert!(nodes > 0);
    assert!(clinlint::semantics::analyze_syntax(&mut doc, syntax, &None));
    assert_eq!(doc.syntax.len(), nodes);
    assert_eq!(stored(&doc).len(), nodes);
    assert_eq!(messages(&doc), messages(&open(source)));
    assert_eq!(messages(&doc).len(), 1);
}

#[test]
fn a_factor_that_is_zero_binds_nothing() {
    let codes = |source: &str| -> Vec<i32> { messages(&open(source)).iter().map(|m| m.0).collect() };
    let unsafe_variable = DiagnosticsCode::UnsafeVariable.into_i32();
    assert_eq!(codes("a(X) :- b(X*2)."), vec![]);
    // Both places at which the variable stands are reported
    assert_eq!(codes("a(X) :- b(X*0)."), vec![unsafe_variable, unsafe_variable]);
    assert_eq!(codes("a(X) :- b(X*(1-3+2))."), vec![unsafe_variable, unsafe_variable]);
}
