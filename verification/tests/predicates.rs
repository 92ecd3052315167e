use clinlint::completion::check_completion;
use clinlint::completion::context_location::{get_location_from_context, ContextLocation};
use clinlint::completion::keyword_competion::keyword_completion_resolver;
use clinlint::completion::predicate_completion::predicate_completion_resolver;
use clinlint::diagnostics::diagnostic_codes::DiagnosticsCode;
use clinlint::diagnostics::diagnostic_run_data::DiagnosticsRunData;
use clinlint::diagnostics::run_diagnostics;
use clinlint::diagnostics::statement_analysis::statement_analysis;
use clinlint::diagnostics::tree_error_analysis::search_for_tree_error;
use clinlint::document::DocumentData;
use clinlint::goto::definition::check_goto_definition;
use clinlint::goto::get_occurences_for_predicate;
use clinlint::goto::references::check_goto_references;
use clinlint::node_kind::NodeKind;
use clinlint::protocol::{CompletionContext, CompletionTriggerKind, Position};
use clinlint::semantics::predicate_occurence_semantics::PredicateOccurenceLocation;

fn open(source: &str) -> DocumentData {
    let mut parser = tree_sitter::Parser::new();
    parser
        .set_language(&tree_sitter_clingo::language())
        .expect("Error loading clingo grammar");
    let tree = parser.parse(source, None).unwrap();
    let mut doc =
        DocumentData::new("file://test.lp".to_string(), tree, ropey::Rope::from_str(source), 1);
    assert!(doc.generate_semantics(None));
    doc
}

// The predicates of a document, each with the locations of its occurences
fn index(doc: &DocumentData) -> Vec<(String, usize, Vec<PredicateOccurenceLocation>)> {
    let mut all: Vec<(String, usize, Vec<PredicateOccurenceLocation>)> = doc
        .semantics
        .predicate_semantics
        .predicates
        .iter()
        .map(|e| (e.key().0.clone(), e.key().1, e.value().iter().map(|o| o.location).collect()))
        .collect();
    all.sort_by(|a, b| (a.0.clone(), a.1).cmp(&(b.0.clone(), b.1)));
    all
}

fn unsafe_count(source: &str) -> usize {
    let mut diags = DiagnosticsRunData::create_test_diagnostics();
    statement_analysis(&mut diags, &open(source));
    for d in &diags.total_diagnostics {
        assert_eq!(d.code, DiagnosticsCode::UnsafeVariable.into_i32());
        assert_eq!(d.source, "clinlint");
    }
    diags.total_diagnostics.len()
}

use PredicateOccurenceLocation::{Body, Condition, Head};

#[test]
fn predicates_are_indexed_by_name_and_arity() {
    let doc = open("a(X) :- b(X, 1), not c(f(X)).\nb(1, 2).\n{a(X) : b(X, X)} :- c(X).\n");
    assert_eq!(
        index(&doc),
        vec![
            ("a".to_string(), 1, vec![Head, Head]),
            ("b".to_string(), 2, vec![Body, Head, Condition]),
            ("c".to_string(), 1, vec![Body, Body]),
            ("f".to_string(), 1, vec![Body]),
        ]
    );
    let arguments = doc
        .syntax
        .nodes
        .iter()
        .find(|n| n.kind == NodeKind::Argvec && doc.get_source_for_range(n.range) == "X, 1")
        .unwrap();
    assert_eq!(doc.semantics.predicate_semantics.get_predicates_arity_for_node(&arguments.id), 1);
    assert_eq!(doc.semantics.predicate_semantics.get_predicates_arity_for_node(&usize::MAX), 0);
}

#[test]
fn the_index_is_rebuilt_on_every_pass() {
    let mut doc = open("a(X) :- b(X).\n");
    let once = index(&doc);
    assert!(doc.generate_semantics(None));
    assert!(doc.generate_semantics(Some(vec![(0, 3)])));
    assert_eq!(index(&doc), once);
    assert_eq!(once, vec![("a".to_string(), 1, vec![Head]), ("b".to_string(), 1, vec![Body])]);
}

#[test]
fn the_index_does_not_depend_on_white_space() {
    let tight = open("a(X):-b(X,Y),not c(Y).{d(X):e(X)}:-b(X,X).");
    let loose = open("a( X )  :-\n    b( X , Y ),\n    not  c( Y ) .\n\n{ d( X ) : e( X ) }  :-  b( X , X ) .\n");
    assert_eq!(index(&tight), index(&loose));
    assert_eq!(index(&tight).len(), 5);
}

#[test]
fn definitions_and_references_are_found() {
    let doc = open("a(X) :- b(X).\nb(1).\nc :- a(Y) : b(Y).\n");
    let ranges = |found: Option<Vec<clinlint::protocol::Location>>| -> Vec<(String, usize, usize)> {
        found.unwrap().iter().map(|l| (l.uri.clone(), l.range.start_byte, l.range.end_byte)).collect()
    };
    let uri = "file://test.lp".to_string();
    // The cursor stands on the b of the first statement
    assert_eq!(
        ranges(check_goto_definition(&doc, Position { line: 0, character: 9 })),
        vec![(uri.clone(), 14, 18)]
    );
    assert_eq!(
        ranges(check_goto_references(&doc, Position { line: 0, character: 9 })),
        vec![(uri.clone(), 8, 12), (uri.clone(), 32, 36)]
    );
    // The cursor stands on the a of the first statement
    assert_eq!(
        ranges(check_goto_definition(&doc, Position { line: 0, character: 0 })),
        vec![(uri.clone(), 0, 4)]
    );
    assert_eq!(
        ranges(check_goto_references(&doc, Position { line: 0, character: 0 })),
        vec![(uri.clone(), 25, 29)]
    );
    // The cursor stands on nothing that is a predicate with arguments
    assert_eq!(ranges(check_goto_definition(&doc, Position { line: 2, character: 0 })), vec![]);
    let atom = doc.syntax.nodes.iter().position(|n| n.kind == NodeKind::Atom).unwrap();
    let found = get_occurences_for_predicate(&doc, Some(atom), vec![Head, Body, Condition]);
    assert_eq!(found.len(), 2);
    assert_eq!(get_occurences_for_predicate(&doc, None, vec![Head]).len(), 0);
    assert_eq!(get_occurences_for_predicate(&doc, Some(atom), vec![]).len(), 0);
}

#[test]
fn locations_are_told_from_the_context() {
    let doc = open("a(X) :- b(X), c(X).\n");
    let find = |kind: NodeKind, text: &str| {
        doc.syntax
            .nodes
            .iter()
            .position(|n| n.kind == kind && doc.get_source_for_range(n.range) == text)
            .unwrap()
    };
    assert_eq!(get_location_from_context(&doc.syntax, None), ContextLocation::Unknown);
    assert_eq!(
        get_location_from_context(&doc.syntax, Some(find(NodeKind::Atom, "a(X)"))),
        ContextLocation::Head
    );
    assert_eq!(
        get_location_from_context(&doc.syntax, Some(find(NodeKind::Atom, "b(X)"))),
        ContextLocation::Body
    );
    assert_eq!(
        get_location_from_context(&doc.syntax, Some(find(NodeKind::Atom, "c(X)"))),
        ContextLocation::Body
    );
    assert_eq!(
        get_location_from_context(&doc.syntax, Some(doc.syntax.len() - 1)),
        ContextLocation::Statement
    );
    let in_head = keyword_completion_resolver(&doc.syntax, Some(find(NodeKind::Atom, "a(X)"))).unwrap();
    assert_eq!(in_head[0].label, "sup");
    let nowhere = keyword_completion_resolver(&doc.syntax, None).unwrap();
    assert_eq!(nowhere[0].label, "show");
}

#[test]
fn completion_proposes_variables_and_predicates() {
    let doc = open("a(X) :- b(X).\nc(Y) :- d(X), e(X, Y).\n");
    let labels = |items: Option<Vec<clinlint::protocol::CompletionItem>>| -> Vec<String> {
        let mut l: Vec<String> = items.unwrap().iter().map(|i| i.label.clone()).collect();
        l.sort();
        l
    };
    let invoked = || CompletionContext {
        trigger_kind: CompletionTriggerKind::Invoked,
        trigger_character: None,
    };
    // Behind the d of the second statement: d is being typed and is not proposed
    assert_eq!(
        labels(check_completion(&doc, invoked(), "".to_string(), Position { line: 1, character: 9 })),
        vec!["X", "Y", "a/1", "b/1", "c/1", "e/2"]
    );
    // Behind the X of the first statement
    assert_eq!(
        labels(check_completion(&doc, invoked(), "".to_string(), Position { line: 0, character: 11 })),
        vec!["X", "a/1", "b/1", "c/1", "d/1", "e/2"]
    );
    // At the very start there is no node in front of the cursor
    assert_eq!(
        labels(check_completion(&doc, invoked(), "".to_string(), Position { line: 0, character: 0 })),
        Vec::<String>::new()
    );
    assert_eq!(labels(predicate_completion_resolver(&doc, None)), Vec::<String>::new());
    // A typed character that is no # asks for nothing
    let typed = CompletionContext {
        trigger_kind: CompletionTriggerKind::TriggerCharacter,
        trigger_character: Some("(".to_string()),
    };
    assert!(check_completion(&doc, typed, "(".to_string(), Position { line: 0, character: 2 }).is_none());
    // Behind a # the keywords are proposed, whatever asked for them
    let hash = check_completion(&doc, invoked(), "#".to_string(), Position { line: 1, character: 9 });
    assert_eq!(hash.unwrap().len(), 11);
    let hash = check_completion(&doc, invoked(), "#".to_string(), Position { line: 0, character: 0 });
    assert_eq!(hash.unwrap().len(), 13);
}

#[test]
fn syntax_problems_name_what_is_wrong() {
    let show = |source: &str| -> Vec<(i32, String, String, usize, usize)> {
        let mut diags = DiagnosticsRunData::create_test_diagnostics();
        search_for_tree_error(&mut diags, &open(source));
        diags
            .total_diagnostics
            .iter()
            .map(|d| (d.code, d.source.clone(), d.message.clone(), d.range.start_byte, d.range.end_byte))
            .collect()
    };
    assert_eq!(
        show("a b."),
        vec![(1000, "tree-sitter".to_string(), "syntax error while parsing value: 'a'".to_string(), 0, 1)]
    );
    assert_eq!(
        show("a. d c :- a."),
        vec![(
            1001,
            "tree-sitter".to_string(),
            "syntax error while parsing value: 'd', expected: '.'".to_string(),
            3,
            4
        )]
    );
    assert_eq!(
        show("a(b."),
        vec![(1101, "tree-sitter".to_string(), "syntax error while parsing, expected: ')'".to_string(), 3, 3)]
    );
    assert_eq!(show("a :- b."), vec![]);
}

#[test]
fn the_analysis_goes_on_after_a_syntax_error() {
    let doc = open("a b.\nc(X) :- d.\ne(Y) :- f(");
    let all = run_diagnostics(&doc, 100);
    let codes: Vec<i32> = all.iter().map(|d| d.code).collect();
    // The problems of the parser come first, then the unsafe variables
    assert!(codes.contains(&1000));
    assert!(codes.contains(&2000));
    let first_unsafe = codes.iter().position(|c| *c == 2000).unwrap();
    assert!(codes[..first_unsafe].iter().all(|c| *c < 2000));
    assert!(codes[first_unsafe..].iter().all(|c| *c == 2000));
    let unsafe_names: Vec<String> =
        all.iter().filter(|d| d.code == 2000).map(|d| d.message.clone()).collect();
    assert!(unsafe_names.contains(&"'X' is unsafe".to_string()));
}

#[test]
fn problems_are_capped() {
    let doc = open("a(X, Y, Z).\nb(V, W).\n");
    assert_eq!(run_diagnostics(&doc, 100).len(), 5);
    assert_eq!(run_diagnostics(&doc, 4).len(), 4);
    assert_eq!(run_diagnostics(&doc, 1).len(), 1);
    assert_eq!(run_diagnostics(&doc, 0).len(), 0);
    let capped = run_diagnostics(&doc, 2);
    assert_eq!(capped[0].message, "'X' is unsafe");
    assert_eq!(capped[1].message, "'Y' is unsafe");
    let source = open("a b. c(X).");
    let both = run_diagnostics(&source, 100);
    assert_eq!(both.iter().map(|d| d.code).collect::<Vec<i32>>(), vec![1000, 2000]);
    assert_eq!(run_diagnostics(&source, 1)[0].code, 1000);
}

#[test]
fn an_unsafe_variable_is_reported_where_it_occurs() {
    let doc = open("a(X) :- b.\nc(Y) :- not d(Y),\n  e.\n");
    let all: Vec<(String, usize, usize, usize, usize)> = run_diagnostics(&doc, 100)
        .iter()
        .map(|d| {
            (
                d.message.clone(),
                d.range.start_point.row,
                d.range.start_point.column,
                d.range.end_point.row,
                d.range.end_point.column,
            )
        })
        .collect();
    assert_eq!(
        all,
        vec![
            ("'X' is unsafe".to_string(), 0, 2, 0, 3),
            ("'Y' is unsafe".to_string(), 1, 2, 1, 3),
            ("'Y' is unsafe".to_string(), 1, 14, 1, 15),
        ]
    );
}

#[test]
fn scopes_inside_a_statement_are_checked_on_their_own() {
    // A variable of a condition cannot be used outside it
    assert_eq!(unsafe_count("a(X) :- b : c(X)."), 2);
    // A variable that only the condition of a conditional literal holds must be bound there
    assert_eq!(unsafe_count("a :- b : not c(X)."), 1);
    assert_eq!(unsafe_count("a :- b(X) : c(X)."), 0);
    // A variable of a conditional literal that its condition does not hold is global
    assert_eq!(unsafe_count("a :- a(Y) : b(X)."), 1);
    assert_eq!(unsafe_count("a :- #count{X : b(X), not c(Y)} > 1."), 1);
    assert_eq!(unsafe_count("a, b(X) : c(X), d :- e."), 0);
    assert_eq!(unsafe_count("a(X) ; b(Y) : c(Y) :- d(X)."), 0);
}

#[test]
fn comparisons_bind_through_equality_only() {
    assert_eq!(unsafe_count("a(X) :- X = 1..3."), 0);
    assert_eq!(unsafe_count("a(X) :- b(Y), X = Y + 1."), 0);
    assert_eq!(unsafe_count("a(X) :- X < 3."), 2);
    assert_eq!(unsafe_count("a(X) :- b(X), X < Y < 3."), 1);
    assert_eq!(unsafe_count("a(X) :- b(Y), not X = Y."), 2);
    assert_eq!(unsafe_count("a(X) :- b(Y), not not X = Y."), 0);
    assert_eq!(unsafe_count("a(X) :- b(Y), not X != Y."), 0);
    assert_eq!(unsafe_count("a(X) :- b(X*2)."), 0);
    assert_eq!(unsafe_count("a(X) :- b(0*X)."), 2);
    assert_eq!(unsafe_count("a(X) :- b(2-X)."), 0);
    assert_eq!(unsafe_count("a(X) :- b(X*Y), c(Y)."), 2);
}

#[test]
fn statements_of_every_form_are_checked() {
    assert_eq!(unsafe_count("#external a(X) : b(X)."), 0);
    assert_eq!(unsafe_count("#external a(X)."), 1);
    assert_eq!(unsafe_count("#maximize{X@1 : a(X); Y : b(Y)}."), 0);
    assert_eq!(unsafe_count("#maximize{X@1 : a(X); Y : b(X)}."), 1);
    assert_eq!(unsafe_count(":~ a(X). [X@2, Y]"), 1);
    assert_eq!(unsafe_count(":~ a(X), b(Y). [X@2, Y]"), 0);
    assert_eq!(unsafe_count("a(X) :- X = #count{Y : b(Y)}."), 0);
    assert_eq!(unsafe_count("a :- #count{Y : b(Y)} = X."), 0);
    assert_eq!(unsafe_count("a(f(X)) :- b(X)."), 0);
    assert_eq!(unsafe_count("a(X) :- b(f(X))."), 0);
    assert_eq!(unsafe_count(""), 0);
    assert_eq!(unsafe_count("% nothing but a comment\n"), 0);
}
