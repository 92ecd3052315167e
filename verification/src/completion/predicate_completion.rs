use crate::document::DocumentData;
use crate::node_kind::NodeKind;
use crate::protocol::{
    items_view, CompletionFacts, CompletionItem, CompletionItemKind, InsertTextFormat,
};
use crate::semantics::predicate_semantics::{
    predicates_keys, predicates_lookup, signatures, Index, Signature,
};
use crate::source::slice_between;
use crate::syntax_tree::SyntaxTree;
use crate::text::{decimal, decimal_text};
use crate::varset::names_of;
use vstd::prelude::*;
use vstd::string::StringExecFns;

verus! {

/// The proposal of a variable.
pub open spec fn variable_item(variable: Seq<char>) -> CompletionFacts {
    CompletionFacts {
        label: variable,
        insert_text: None,
        insert_text_format: None,
        kind: Some(CompletionItemKind::Variable),
        documentation: None,
        detail: None,
    }
}

/// The proposals of the variables, in their order.
pub open spec fn variable_items(variables: Seq<String>, n: int) -> Seq<CompletionFacts>
    decreases n,
{
    if n <= 0 {
        Seq::empty()
    } else {
        variable_items(variables, n - 1).push(variable_item(variables[n - 1]@))
    }
}

/// The places to fill in for the first `n` arguments of a predicate of
/// the given arity, with commas between them.
pub open spec fn placeholders(arity: nat, n: nat) -> Seq<char>
    decreases n,
{
    if n == 0 {
        Seq::empty()
    } else {
        placeholders(arity, (n - 1) as nat) + "${"@ + decimal(n) + ":()}"@ + (if n < arity {
            ", "@
        } else {
            Seq::empty()
        })
    }
}

/// The template that is inserted for a predicate: its name, a place to
/// fill in for each argument, and the place at which the cursor ends up.
pub open spec fn snippet_of(identifier: Seq<char>, arity: nat) -> Seq<char> {
    if arity > 0 {
        identifier + "("@ + placeholders(arity, arity) + ")"@ + "$0"@
    } else {
        identifier + "$0"@
    }
}

/// The proposal of a predicate.
pub open spec fn predicate_item(identifier: Seq<char>, arity: nat, insert_text_snippet: Seq<char>)
    -> CompletionFacts {
    CompletionFacts {
        label: identifier + "/"@ + decimal(arity),
        insert_text: Some(insert_text_snippet),
        insert_text_format: Some(InsertTextFormat::Snippet),
        kind: Some(CompletionItemKind::Field),
        documentation: None,
        detail: None,
    }
}

/// Whether a predicate is proposed where the text `here` stands: not the
/// predicate that is being typed, which occurs only there.
pub open spec fn proposed(index: Index, here: Seq<char>, signature: Signature) -> bool {
    !(index[signature].len() == 1 && here == signature.0)
}

/// The proposals of the first `n` of the predicates.
pub open spec fn predicate_items(index: Index, here: Seq<char>, keys: Seq<Signature>, n: int) -> Seq<
    CompletionFacts,
>
    decreases n,
{
    if n <= 0 {
        Seq::empty()
    } else {
        let before = predicate_items(index, here, keys, n - 1);
        if proposed(index, here, keys[n - 1]) {
            before.push(
                predicate_item(
                    keys[n - 1].0,
                    keys[n - 1].1 as nat,
                    snippet_of(keys[n - 1].0, keys[n - 1].1 as nat),
                ),
            )
        } else {
            before
        }
    }
}

/// The nearest statement above node `i`.
pub open spec fn statement_above(t: SyntaxTree, i: int) -> Option<int>
    decreases t.size() - i,
{
    match t.parents@[i] {
        Some(p) => if i < p < t.size() {
            if t.kind(p as int) == NodeKind::Statement {
                Some(p as int)
            } else {
                statement_above(t, p as int)
            }
        } else {
            None
        },
        None => None,
    }
}

/// The variables that are proposed at node `i`: those of the statement
/// that it stands in.
pub open spec fn variables_at(document: DocumentData, i: int) -> Set<Seq<char>> {
    match statement_above(document.syntax, i) {
        Some(s) => document.semantics.attributes(document.syntax.id(s)).vars,
        None => Set::empty(),
    }
}

/// The text at node `i` of the document.
pub open spec fn text_at(document: DocumentData, i: int) -> Seq<char> {
    let range = document.syntax.nodes@[i].range;
    match slice_between(document.text(), range.start_byte, range.end_byte) {
        Some(slice) => slice,
        None => Seq::empty(),
    }
}

/// Whether `items` are the proposals at node `i`: first the variables of
/// the statement, each once, then the predicates of the document, each
/// once; the order among the variables and among the predicates is not
/// specified.
pub open spec fn completes(document: DocumentData, i: int, items: Seq<CompletionFacts>) -> bool {
    exists|variables: Seq<String>, keys: Seq<Signature>|
        {
            &&& names_of(variables) == variables_at(document, i)
            &&& forall|a: int, b: int|
                0 <= a < b < variables.len() ==> variables[a]@ != variables[b]@
            &&& keys.no_duplicates()
            &&& keys.to_set() == document.semantics.predicate_semantics.index().dom()
            &&& items == #[trigger] variable_items(variables, variables.len() as int)
                + #[trigger] predicate_items(
                document.semantics.predicate_semantics.index(),
                text_at(document, i),
                keys,
                keys.len() as int,
            )
        }
}

/// The template that is inserted for a predicate.
pub fn create_snippet(identifier: &String, arity: usize) -> (snippet: String)
    ensures
        snippet@ == snippet_of(identifier@, arity as nat),
{
    let mut insert_text_snippet = identifier.clone();
    if arity > 0 {
        insert_text_snippet.append("(");
        let ghost start = insert_text_snippet@;
        let mut i: usize = 0;
        proof {
            assert(start + placeholders(arity as nat, 0) =~= start);
        }
        while i < arity
            invariant
                i <= arity,
                start == identifier@ + "("@,
                insert_text_snippet@ == start + placeholders(arity as nat, i as nat),
            decreases arity - i,
        {
            i = i + 1;
            let ghost before = insert_text_snippet@;
            insert_text_snippet.append("${");
            insert_text_snippet.append(decimal_text(i).as_str());
            insert_text_snippet.append(":()}");
            if i < arity {
                insert_text_snippet.append(", ");
            }
            proof {
                let tail = if i < arity {
                    ", "@
                } else {
                    Seq::<char>::empty()
                };
                assert(insert_text_snippet@ =~= before + "${"@ + decimal(i as nat) + ":()}"@ + tail);
                assert(insert_text_snippet@ =~= start + placeholders(arity as nat, i as nat));
            }
        }
        insert_text_snippet.append(")");
    }
    insert_text_snippet.append("$0");
    proof {
        assert(insert_text_snippet@ =~= snippet_of(identifier@, arity as nat));
    }
    insert_text_snippet
}

/// Resolve a completion that the user asked for: the variables of the
/// statement that the node stands in, and the predicates of the document.
pub fn predicate_completion_resolver(document: &DocumentData, node: Option<usize>) -> (items: Option<
    Vec<CompletionItem>,
>)
    requires
        document.wf(),
        node matches Some(i) ==> i < document.syntax.size(),
    ensures
        items matches Some(list) && (match node {
            Some(i) => completes(*document, i as int, items_view(list@)),
            None => list@.len() == 0,
        }),
{
    let mut items: Vec<CompletionItem> = Vec::new();
    let tree = &document.syntax;
    let i = match node {
        Some(i) => i,
        None => {
            return Some(items);
        },
    };
    // Find all variables used in the statement around the node and return this to the user
    let mut variables: Vec<String> = Vec::new();
    let mut current = i;
    proof {
        assert(names_of(variables@) =~= Set::<Seq<char>>::empty());
    }
    loop
        invariant_except_break
            tree.wf(),
            *tree == document.syntax,
            i <= current < tree.size(),
            statement_above(*tree, i as int) == statement_above(*tree, current as int),
            variables@.len() == 0,
        ensures
            names_of(variables@) == variables_at(*document, i as int),
            forall|a: int, b: int| 0 <= a < b < variables@.len() ==> variables@[a]@ != variables@[b]@,
        decreases tree.size() - current,
    {
        match tree.parent(current) {
            Some(p) => {
                if tree.nodes[p].kind == NodeKind::Statement {
                    variables = document.semantics.get_statement_semantics_for_node(
                        tree.nodes[p].id,
                    ).vars.to_vec();
                    break ;
                }
                current = p;
            },
            None => {
                proof {
                    assert(names_of(variables@) =~= Set::<Seq<char>>::empty());
                }
                break ;
            },
        }
    }
    let mut v: usize = 0;
    proof {
        assert(items_view(items@) =~= variable_items(variables@, 0));
    }
    while v < variables.len()
        invariant
            v <= variables.len(),
            items_view(items@) == variable_items(variables@, v as int),
        decreases variables.len() - v,
    {
        let item = create_variable_completion_item(variables[v].clone());
        let ghost before = items@;
        items.push(item);
        proof {
            assert(items_view(items@) =~= items_view(before).push(item@));
        }
        v = v + 1;
    }
    // Give a suggestion for each predicate in the document
    let here = document.get_source_for_range(tree.nodes[i].range);
    let keys = predicates_keys(&document.semantics.predicate_semantics.predicates);
    let ghost index = document.semantics.predicate_semantics.index();
    let ghost first = items_view(items@);
    let mut k: usize = 0;
    proof {
        assert(first + predicate_items(index, here@, signatures(keys@), 0) =~= first);
    }
    while k < keys.len()
        invariant
            k <= keys.len(),
            index == document.semantics.predicate_semantics.index(),
            signatures(keys@).to_set() == index.dom(),
            items_view(items@) == first + predicate_items(
                index,
                here@,
                signatures(keys@),
                k as int,
            ),
        decreases keys.len() - k,
    {
        let identifier = &keys[k].0;
        let arity = keys[k].1;
        proof {
            assert(signatures(keys@)[k as int] == (identifier@, arity));
            assert(signatures(keys@).to_set().contains(signatures(keys@)[k as int]));
        }
        let occurences = match predicates_lookup(
            &document.semantics.predicate_semantics.predicates,
            identifier,
            arity,
        ) {
            Some(occurences) => occurences,
            None => Vec::new(),
        };
        // Check if this predicate isn't at the current location of the cursor, if it is we do
        // not suggest this predicate
        if !(occurences.len() == 1 && here == *identifier) {
            let snippet = create_snippet(identifier, arity);
            let item = create_predicate_completion_item(identifier.clone(), arity, snippet);
            let ghost before = items@;
            items.push(item);
            proof {
                assert(items_view(items@) =~= items_view(before).push(item@));
            }
        }
        proof {
            assert(items_view(items@) =~= first + predicate_items(
                index,
                here@,
                signatures(keys@),
                k + 1,
            ));
        }
        k = k + 1;
    }
    proof {
        assert(completes(*document, i as int, items_view(items@))) by {
            let witness_keys = signatures(keys@);
            assert(items_view(items@) == variable_items(variables@, variables@.len() as int)
                + predicate_items(
                document.semantics.predicate_semantics.index(),
                text_at(*document, i as int),
                witness_keys,
                witness_keys.len() as int,
            ));
        }
    }
    Some(items)
}

/// Create a completion item for predicates.
/// identifier: The identifier that is going to be shown in bold with its
/// arity.
/// insert_text_snippet: The snippet used by the client to generate the new
/// text after completion.
pub fn create_predicate_completion_item(
    identifier: String,
    arity: usize,
    insert_text_snippet: String,
) -> (item: CompletionItem)
    ensures
        item@ == predicate_item(identifier@, arity as nat, insert_text_snippet@),
{
    CompletionItem {
        label: identifier.concat("/").concat(decimal_text(arity).as_str()),
        insert_text: Some(insert_text_snippet),
        insert_text_format: Some(InsertTextFormat::Snippet),
        kind: Some(CompletionItemKind::Field),
        documentation: None,
        detail: None,
    }
}

/// Create a completion item for variables.
/// variable: The variable that is going to be shown in bold.
pub fn create_variable_completion_item(variable: String) -> (item: CompletionItem)
    ensures
        item@ == variable_item(variable@),
{
    CompletionItem {
        label: variable,
        insert_text: None,
        insert_text_format: None,
        kind: Some(CompletionItemKind::Variable),
        documentation: None,
        detail: None,
    }
}

} // verus!
