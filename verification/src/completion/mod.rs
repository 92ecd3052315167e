//! Completion of keywords, predicates and variables.

use crate::completion::context_location::{context_of, ContextLocation};
use crate::completion::keyword_competion::{keyword_completion_resolver, keywords_at};
use crate::completion::predicate_completion::{completes, predicate_completion_resolver};
use crate::document::DocumentData;
use crate::goto::definition::find_node;
use crate::protocol::{
    items_view, CompletionContext, CompletionFacts, CompletionItem, CompletionTriggerKind,
    Position,
};
use crate::text::text_eq;
use vstd::prelude::*;

pub mod context_location;
pub mod keyword_competion;
pub mod predicate_completion;

verus! {

/// Whether `items` answer a request for completion at a node: behind a
/// `#` the keywords that can stand there, else, where the user asked for
/// it, the variables and predicates at hand, else nothing.
pub open spec fn answers(
    document: DocumentData,
    trigger_kind: CompletionTriggerKind,
    trigger_character: Seq<char>,
    node: Option<usize>,
    items: Option<Seq<CompletionFacts>>,
) -> bool {
    if trigger_character == "#"@ {
        items == Some(
            keywords_at(
                match node {
                    Some(i) => context_of(document.syntax, i as int),
                    None => ContextLocation::Unknown,
                },
            ),
        )
    } else if trigger_kind == CompletionTriggerKind::Invoked {
        match (node, items) {
            (Some(i), Some(list)) => completes(document, i as int, list),
            (None, Some(list)) => list.len() == 0,
            _ => false,
        }
    } else {
        items is None
    }
}

/// The proposals that a list of completion items stands for, if there is
/// a list.
pub open spec fn answer_view(items: Option<Vec<CompletionItem>>) -> Option<Seq<CompletionFacts>> {
    match items {
        Some(list) => Some(items_view(list@)),
        None => None,
    }
}

/// Upon detecting a completion trigger, check what the trigger was and
/// run the correct completion resolver, for the node that the parser
/// finds in front of the position; at the start of a line there is no
/// such node.
pub fn check_completion(
    document: &DocumentData,
    context: CompletionContext,
    trigger_character: String,
    position: Position,
) -> (items: Option<Vec<CompletionItem>>)
    requires
        document.wf(),
    ensures
        exists|node: Option<usize>|
            (node matches Some(i) ==> i < document.syntax.size()) && #[trigger] answers(
                *document,
                context.trigger_kind,
                trigger_character@,
                node,
                answer_view(items),
            ),
        position.character == 0 ==> answers(
            *document,
            context.trigger_kind,
            trigger_character@,
            None,
            answer_view(items),
        ),
{
    // Client requested completion
    let node = if position.character > 0 {
        find_node(
            document,
            Position { line: position.line, character: position.character - 1 },
        )
    } else {
        None
    };
    if text_eq(trigger_character.as_str(), "#") {
        let items = keyword_completion_resolver(&document.syntax, node);
        proof {
            assert(answers(
                *document,
                context.trigger_kind,
                trigger_character@,
                node,
                answer_view(items),
            ));
        }
        return items;
    } else if context.trigger_kind == CompletionTriggerKind::Invoked {
        let items = predicate_completion_resolver(document, node);
        proof {
            assert(answers(
                *document,
                context.trigger_kind,
                trigger_character@,
                node,
                answer_view(items),
            ));
        }
        return items;
    }
    proof {
        assert(answers(*document, context.trigger_kind, trigger_character@, node, None));
    }
    None
}

} // verus!
