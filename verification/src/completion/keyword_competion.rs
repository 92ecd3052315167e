use crate::completion::context_location::{context_of, get_location_from_context, ContextLocation};
use crate::protocol::{
    items_view, CompletionFacts, CompletionItem, CompletionItemKind, InsertTextFormat,
};
use crate::syntax_tree::SyntaxTree;
use vstd::prelude::*;
use vstd::string::StringExecFns;

verus! {

/// The proposal of a keyword.
pub open spec fn keyword_item(
    keyword: Seq<char>,
    replace_text: Seq<char>,
    documentation: Seq<char>,
    detail: Seq<char>,
) -> CompletionFacts {
    CompletionFacts {
        label: keyword,
        insert_text: Some(replace_text),
        insert_text_format: Some(InsertTextFormat::Snippet),
        kind: Some(CompletionItemKind::Keyword),
        documentation: Some(documentation),
        detail: Some(detail),
    }
}

/// The keywords that start a statement, behind a `#`.
pub open spec fn statement_keywords() -> Seq<CompletionFacts> {
    seq![
        keyword_item("show"@, "show $1.\n$0"@, "Shows only a specific number of items in the output answer set"@, "show (1)."@),
        keyword_item("minimize"@, "minimize{${1:()}@${2:()},${3:()}:${4:()}}.\n$0"@, "Optimization statement"@, "minimize{(1)@(2),(3):(4)}."@),
        keyword_item("maximize"@, "maximize{${1:()}@${2:()},${3:()}:${4:()}}.\n$0"@, "Optimization statement"@, "maximize{(1)@(2),(3):(4)}."@),
        keyword_item("minimise"@, "minimise{${1:()}@${2:()},${3:()}:${4:()}}.\n$0"@, "Optimization statement"@, "minimise{(1)@(2),(3):(4)}."@),
        keyword_item("maximise"@, "maximise{${1:()}@${2:()},${3:()}:${4:()}}.\n$0"@, "Optimization statement"@, "maximise{(1)@(2),(3):(4)}."@),
        keyword_item("external"@, "external $1.\n$0"@, "Do not let the grounder optimize this predicate"@, "external (1)."@),
        keyword_item("program"@, "program $1.\n$0"@, "Organize the encoding in multiple program parts"@, "program (1)."@),
        keyword_item("const"@, "const $1.\n$0"@, "Declare a constant to be replaced by the grounder"@, "const (1)."@),
        keyword_item("edge"@, "edge($1).\n$0"@, "???"@, "edge((1))."@),
        keyword_item("heuristic"@, "heuristic $1.\n$0"@, "???"@, "heuristic (1)."@),
        keyword_item("project"@, "project $1.\n$0"@, "???"@, "project (1)."@),
        keyword_item("script"@, "script $1.\n$0"@, "???"@, "script (1)."@),
        keyword_item("defined"@, "defined $1.\n$0"@, "Denote to the grounder that a predicate is defined in another file"@, "defined (1)."@),
    ]
}

/// The keywords that stand in the head or the body of a statement, behind a `#`.
pub open spec fn body_head_keywords() -> Seq<CompletionFacts> {
    seq![
        keyword_item("sup"@, "sup$0"@, "represents the greates element among all variable-free terms"@, "sup"@),
        keyword_item("supremum"@, "supremum$0"@, "represents the greates element among all variable-free terms"@, "supremum"@),
        keyword_item("inf"@, "inf$0"@, "represents the smallest element among all variable-free terms"@, "inf"@),
        keyword_item("infimum"@, "infimum$0"@, "represents the smallest element among all variable-free terms"@, "infimum"@),
        keyword_item("sum"@, "sum{${1:()} : ${2:()}}$0"@, "sum up the weights"@, "sum{(1) : (2)}"@),
        keyword_item("sum+"@, "sum+{${1:()} : ${2:()}}$0"@, "sum up the number of positive weights"@, "sum+{(1) : (2)}"@),
        keyword_item("count"@, "count{${1:()} : ${2:()}}$0"@, "count the number of elements"@, "count{(1) : (2)}"@),
        keyword_item("min"@, "min{${1:()} : ${2:()}}$0"@, "returns the minimum weight"@, "min{(1) : (2)}"@),
        keyword_item("max"@, "max{${1:()} : ${2:()}}$0"@, "returns the maximum weight"@, "max{(1) : (2)}"@),
        keyword_item("false"@, "false$0"@, "???"@, "false"@),
        keyword_item("true"@, "true$0"@, "???"@, "true"@),
    ]
}

/// The keywords that are proposed at a location.
pub open spec fn keywords_at(location: ContextLocation) -> Seq<CompletionFacts> {
    match location {
        ContextLocation::Body | ContextLocation::Head => body_head_keywords(),
        _ => statement_keywords(),
    }
}

/// Resolve a keyword completion: the keywords that can stand where the
/// node stands.
pub fn keyword_completion_resolver(tree: &SyntaxTree, node: Option<usize>) -> (items: Option<
    Vec<CompletionItem>,
>)
    requires
        tree.wf(),
        node matches Some(i) ==> i < tree.size(),
    ensures
        items matches Some(list) && items_view(list@) == keywords_at(
            match node {
                Some(i) => context_of(*tree, i as int),
                None => ContextLocation::Unknown,
            },
        ),
{
    let context_location = get_location_from_context(tree, node);
    match context_location {
        ContextLocation::Body | ContextLocation::Head => Some(
            create_completion_items_for_body_head(),
        ),
        _ => Some(create_completion_items_for_statement()),
    }
}

/// Create a completion item.
/// keyword: The keyword that is going to be shown in bold.
/// replace_text: The snippet used by the client to generate the new text
/// after completion.
/// documentation: The documentation shown to the user.
/// detail: Some detailed info shown on the right to distinguish between
/// multiple variants.
pub fn create_keyword_completion_item(
    keyword: &str,
    replace_text: &str,
    documentation: &str,
    detail: &str,
) -> (item: CompletionItem)
    ensures
        item@ == keyword_item(keyword@, replace_text@, documentation@, detail@),
{
    CompletionItem {
        label: String::from_str(keyword),
        insert_text: Some(String::from_str(replace_text)),
        insert_text_format: Some(InsertTextFormat::Snippet),
        kind: Some(CompletionItemKind::Keyword),
        documentation: Some(String::from_str(documentation)),
        detail: Some(String::from_str(detail)),
    }
}

/// Create all completion items while a user is creating a new statement.
pub fn create_completion_items_for_statement() -> (items: Vec<CompletionItem>)
    ensures
        items_view(items@) == statement_keywords(),
{
    let mut items: Vec<CompletionItem> = Vec::new();
    items.push(create_keyword_completion_item("show", "show $1.\n$0", "Shows only a specific number of items in the output answer set", "show (1)."));
    items.push(create_keyword_completion_item("minimize", "minimize{${1:()}@${2:()},${3:()}:${4:()}}.\n$0", "Optimization statement", "minimize{(1)@(2),(3):(4)}."));
    items.push(create_keyword_completion_item("maximize", "maximize{${1:()}@${2:()},${3:()}:${4:()}}.\n$0", "Optimization statement", "maximize{(1)@(2),(3):(4)}."));
    items.push(create_keyword_completion_item("minimise", "minimise{${1:()}@${2:()},${3:()}:${4:()}}.\n$0", "Optimization statement", "minimise{(1)@(2),(3):(4)}."));
    items.push(create_keyword_completion_item("maximise", "maximise{${1:()}@${2:()},${3:()}:${4:()}}.\n$0", "Optimization statement", "maximise{(1)@(2),(3):(4)}."));
    items.push(create_keyword_completion_item("external", "external $1.\n$0", "Do not let the grounder optimize this predicate", "external (1)."));
    items.push(create_keyword_completion_item("program", "program $1.\n$0", "Organize the encoding in multiple program parts", "program (1)."));
    items.push(create_keyword_completion_item("const", "const $1.\n$0", "Declare a constant to be replaced by the grounder", "const (1)."));
    items.push(create_keyword_completion_item("edge", "edge($1).\n$0", "???", "edge((1))."));
    items.push(create_keyword_completion_item("heuristic", "heuristic $1.\n$0", "???", "heuristic (1)."));
    items.push(create_keyword_completion_item("project", "project $1.\n$0", "???", "project (1)."));
    items.push(create_keyword_completion_item("script", "script $1.\n$0", "???", "script (1)."));
    items.push(create_keyword_completion_item("defined", "defined $1.\n$0", "Denote to the grounder that a predicate is defined in another file", "defined (1)."));
    proof {
        assert(items_view(items@) =~= statement_keywords());
    }
    items
}

/// Create all completion items while a user is creating the body or head of a
/// statement.
pub fn create_completion_items_for_body_head() -> (items: Vec<CompletionItem>)
    ensures
        items_view(items@) == body_head_keywords(),
{
    let mut items: Vec<CompletionItem> = Vec::new();
    items.push(create_keyword_completion_item("sup", "sup$0", "represents the greates element among all variable-free terms", "sup"));
    items.push(create_keyword_completion_item("supremum", "supremum$0", "represents the greates element among all variable-free terms", "supremum"));
    items.push(create_keyword_completion_item("inf", "inf$0", "represents the smallest element among all variable-free terms", "inf"));
    items.push(create_keyword_completion_item("infimum", "infimum$0", "represents the smallest element among all variable-free terms", "infimum"));
    items.push(create_keyword_completion_item("sum", "sum{${1:()} : ${2:()}}$0", "sum up the weights", "sum{(1) : (2)}"));
    items.push(create_keyword_completion_item("sum+", "sum+{${1:()} : ${2:()}}$0", "sum up the number of positive weights", "sum+{(1) : (2)}"));
    items.push(create_keyword_completion_item("count", "count{${1:()} : ${2:()}}$0", "count the number of elements", "count{(1) : (2)}"));
    items.push(create_keyword_completion_item("min", "min{${1:()} : ${2:()}}$0", "returns the minimum weight", "min{(1) : (2)}"));
    items.push(create_keyword_completion_item("max", "max{${1:()} : ${2:()}}$0", "returns the maximum weight", "max{(1) : (2)}"));
    items.push(create_keyword_completion_item("false", "false$0", "???", "false"));
    items.push(create_keyword_completion_item("true", "true$0", "???", "true"));
    proof {
        assert(items_view(items@) =~= body_head_keywords());
    }
    items
}

} // verus!
