use clinlint::completion::keyword_competion::{
    create_completion_items_for_body_head, create_completion_items_for_statement,
    create_keyword_completion_item,
};
use clinlint::completion::predicate_completion::{
    create_predicate_completion_item, create_snippet, create_variable_completion_item,
};
use clinlint::diagnostics::diagnostic_codes::DiagnosticsCode;
use clinlint::diagnostics::diagnostic_run_data::DiagnosticsRunData;
use clinlint::diagnostics::tree_utils::humanize_token;
use clinlint::dirty_ranges::order_ranges;
use clinlint::document::merge_ranges;
use clinlint::node_kind::NodeKind;
use clinlint::numset::NumSet;
use clinlint::protocol::{CompletionItemKind, DiagnosticSeverity, InsertTextFormat};
use clinlint::semantics::term_semantic::{TermOperator, TermSemantic, TermType};
use clinlint::syntax_tree::{Point, TextRange};
use clinlint::text::decimal_text;

fn range(start: usize, end: usize) -> TextRange {
    TextRange {
        start_byte: start,
        end_byte: end,
        start_point: Point { row: 0, column: start },
        end_point: Point { row: 0, column: end },
    }
}

fn constant(values: &[i64]) -> TermSemantic {
    let mut term = TermSemantic::new();
    term.kind = TermType::Constant;
    let mut set = NumSet::new();
    for v in values {
        set.insert(*v);
    }
    term.value = set;
    term
}

fn values(set: &NumSet) -> Vec<i64> {
    let mut v: Vec<i64> = (0..set.len()).map(|i| set.get(i)).collect();
    v.sort();
    v
}

#[test]
fn diagnostic_codes_are_stable() {
    assert_eq!(DiagnosticsCode::UnknownParseState.into_i32(), 1000);
    assert_eq!(DiagnosticsCode::ExpectedDot.into_i32(), 1001);
    assert_eq!(DiagnosticsCode::ExpectedMissingToken.into_i32(), 1101);
    assert_eq!(DiagnosticsCode::UnsafeVariable.into_i32(), 2000);
    assert_eq!(DiagnosticsCode::UndefinedOperation.into_i32(), 2001);
}

#[test]
fn tokens_are_humanized() {
    assert_eq!(humanize_token("LPAREN"), "(");
    assert_eq!(humanize_token("RPAREN"), ")");
    assert_eq!(humanize_token("LBRACE"), "{");
    assert_eq!(humanize_token("RBRACE"), "}");
    assert_eq!(humanize_token("DOT"), ".");
    assert_eq!(humanize_token("COLON"), "COLON");
    assert_eq!(humanize_token(""), "");
}

#[test]
fn comparison_operators_are_negated() {
    assert_eq!(TermSemantic::negate_comparison_operator("NEQ"), "EQ");
    assert_eq!(TermSemantic::negate_comparison_operator("EQ"), "NEQ");
    assert_eq!(TermSemantic::negate_comparison_operator("LT"), "GEQ");
    assert_eq!(TermSemantic::negate_comparison_operator("GT"), "LEQ");
    assert_eq!(TermSemantic::negate_comparison_operator("LEQ"), "GT");
    assert_eq!(TermSemantic::negate_comparison_operator("GEQ"), "LT");
    assert_eq!(TermSemantic::negate_comparison_operator("ADD"), "");
    assert_eq!(NodeKind::Neq.negate(), NodeKind::Eq);
    assert_eq!(NodeKind::Geq.negate(), NodeKind::Lt);
    assert_eq!(NodeKind::Add.negate(), NodeKind::Other);
}

#[test]
fn labels_are_classified() {
    assert_eq!(NodeKind::from_label("statement"), NodeKind::Statement);
    assert_eq!(NodeKind::from_label("VARIABLE"), NodeKind::Variable);
    assert_eq!(NodeKind::from_label("cmp"), NodeKind::Comparison);
    assert_eq!(NodeKind::from_label("bodydot"), NodeKind::Bodydot);
    assert_eq!(NodeKind::from_label("variable"), NodeKind::Other);
    assert_eq!(NodeKind::from_label(""), NodeKind::Other);
    assert!(NodeKind::Number.has_text());
    assert!(!NodeKind::Term.has_text());
}

#[test]
fn constant_terms_are_evaluated() {
    let a = constant(&[2, 3]);
    let b = constant(&[10, 0]);
    assert_eq!(values(&TermSemantic::evaluate(&a, &b, &TermOperator::Add)), vec![2, 3, 12, 13]);
    assert_eq!(values(&TermSemantic::evaluate(&a, &b, &TermOperator::Mul)), vec![0, 20, 30]);
    // A difference is the difference of whole numbers
    assert_eq!(values(&TermSemantic::evaluate(&b, &a, &TermOperator::Sub)), vec![-3, -2, 7, 8]);
    assert_eq!(
        values(&TermSemantic::evaluate(&constant(&[1]), &constant(&[3]), &TermOperator::Sub)),
        vec![-2]
    );
    // A division by zero has no value
    assert_eq!(values(&TermSemantic::evaluate(&b, &constant(&[0, 5]), &TermOperator::Div)), vec![0, 2]);
    assert_eq!(values(&TermSemantic::evaluate(&a, &constant(&[0]), &TermOperator::Div)), vec![]);
    assert_eq!(values(&TermSemantic::evaluate(&a, &b, &TermOperator::Dots)), vec![]);
    assert_eq!(values(&TermSemantic::evaluate(&a, &b, &TermOperator::NoOperator)), vec![]);
    // A quotient is rounded towards zero
    assert_eq!(
        values(&TermSemantic::evaluate(&constant(&[-7, 7]), &constant(&[2, -2]), &TermOperator::Div)),
        vec![-3, 3]
    );
    // Only at the limits of the machine word does a result wrap around
    assert_eq!(
        values(&TermSemantic::evaluate(&constant(&[i64::MAX]), &constant(&[2]), &TermOperator::Add)),
        vec![i64::MIN + 1]
    );
    assert_eq!(
        values(&TermSemantic::evaluate(&constant(&[i64::MIN]), &constant(&[1]), &TermOperator::Sub)),
        vec![i64::MAX]
    );
    assert_eq!(
        values(&TermSemantic::evaluate(&constant(&[i64::MAX]), &constant(&[2]), &TermOperator::Mul)),
        vec![-2]
    );
    assert_eq!(
        values(&TermSemantic::evaluate(&constant(&[i64::MIN]), &constant(&[-1]), &TermOperator::Div)),
        vec![i64::MIN]
    );
}

#[test]
fn overlapping_ranges_are_merged() {
    assert_eq!(merge_ranges(&vec![]), vec![]);
    assert_eq!(merge_ranges(&vec![(5, 9)]), vec![(5, 9)]);
    // The second range widens the first, the third stands alone
    assert_eq!(merge_ranges(&vec![(5, 9), (7, 12), (20, 21)]), vec![(5, 12), (20, 21)]);
    // Ranges that only touch are kept apart
    assert_eq!(merge_ranges(&vec![(5, 9), (9, 12)]), vec![(5, 9), (9, 12)]);
    // A range widens the first range that it overlaps, and only that one
    assert_eq!(merge_ranges(&vec![(0, 4), (6, 10), (3, 7)]), vec![(0, 7), (6, 10)]);
    assert_eq!(order_ranges(&vec![(3, 1), (2, 2), (4, 8)]), vec![(1, 3), (2, 2), (4, 8)]);
}

#[test]
fn numbers_are_written_in_decimal() {
    assert_eq!(decimal_text(0), "0");
    assert_eq!(decimal_text(7), "7");
    assert_eq!(decimal_text(10), "10");
    assert_eq!(decimal_text(4096), "4096");
    assert_eq!(decimal_text(usize::MAX), usize::MAX.to_string());
}

#[test]
fn snippets_have_a_place_for_every_argument() {
    assert_eq!(create_snippet(&"a".to_string(), 0), "a$0");
    assert_eq!(create_snippet(&"a".to_string(), 1), "a(${1:()})$0");
    assert_eq!(create_snippet(&"edge".to_string(), 3), "edge(${1:()}, ${2:()}, ${3:()})$0");
    let item = create_predicate_completion_item("edge".to_string(), 2, "edge($1, $2)".to_string());
    assert_eq!(item.label, "edge/2");
    assert_eq!(item.insert_text, Some("edge($1, $2)".to_string()));
    assert_eq!(item.insert_text_format, Some(InsertTextFormat::Snippet));
    assert_eq!(item.kind, Some(CompletionItemKind::Field));
    let variable = create_variable_completion_item("X".to_string());
    assert_eq!(variable.label, "X");
    assert_eq!(variable.kind, Some(CompletionItemKind::Variable));
    assert_eq!(variable.insert_text, None);
}

#[test]
fn keywords_are_listed() {
    let statement: Vec<String> =
        create_completion_items_for_statement().iter().map(|i| i.label.clone()).collect();
    assert_eq!(
        statement,
        vec![
            "show", "minimize", "maximize", "minimise", "maximise", "external", "program", "const",
            "edge", "heuristic", "project", "script", "defined"
        ]
    );
    let inner: Vec<String> =
        create_completion_items_for_body_head().iter().map(|i| i.label.clone()).collect();
    assert_eq!(
        inner,
        vec!["sup", "supremum", "inf", "infimum", "sum", "sum+", "count", "min", "max", "false", "true"]
    );
    let show = &create_completion_items_for_statement()[0];
    assert_eq!(show.insert_text, Some("show $1.\n$0".to_string()));
    assert_eq!(show.detail, Some("show (1).".to_string()));
    assert_eq!(show.kind, Some(CompletionItemKind::Keyword));
    assert_eq!(show.insert_text_format, Some(InsertTextFormat::Snippet));
    let item = create_keyword_completion_item("k", "k $1", "what k is", "k (1)");
    assert_eq!(item.label, "k");
    assert_eq!(item.insert_text, Some("k $1".to_string()));
    assert_eq!(item.documentation, Some("what k is".to_string()));
    assert_eq!(item.detail, Some("k (1)".to_string()));
}

#[test]
fn no_more_problems_are_reported_than_may_be() {
    let mut run = DiagnosticsRunData::new(2);
    run.create_linter_diagnostic(range(0, 1), DiagnosticSeverity::Error, 2000, "one".to_string());
    run.create_tree_sitter_diagnostic(range(1, 2), DiagnosticSeverity::Error, 1000, "two".to_string());
    run.create_linter_diagnostic(range(2, 3), DiagnosticSeverity::Error, 2000, "three".to_string());
    assert_eq!(run.current_number_of_problems, 2);
    assert_eq!(run.total_diagnostics.len(), 2);
    assert_eq!(run.total_diagnostics[0].source, "clinlint");
    assert_eq!(run.total_diagnostics[0].message, "one");
    assert_eq!(run.total_diagnostics[0].code, 2000);
    assert_eq!(run.total_diagnostics[0].range, range(0, 1));
    assert_eq!(run.total_diagnostics[1].source, "tree-sitter");
    assert_eq!(run.total_diagnostics[1].severity, DiagnosticSeverity::Error);
    assert_eq!(DiagnosticsRunData::create_test_diagnostics().maximum_number_of_problems, 100);
}
