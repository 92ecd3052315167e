use crate::node_kind::NodeKind;
use crate::syntax_tree::SyntaxTree;
use vstd::prelude::*;

verus! {

/// A location in the document.
#[derive(Clone, Copy, Debug, PartialEq, Eq, Structural)]
pub enum ContextLocation {
    Unknown,
    Statement,
    Head,
    Body,
}

/// What node `i` alone says of the location: a node behind a `:-` stands
/// in a body; a node that is the first of its parent says what its kind
/// says.
pub open spec fn location_at(t: SyntaxTree, i: int) -> ContextLocation {
    match t.previous_sibling(i) {
        Some(s) => if t.kind(s as int) == NodeKind::If {
            ContextLocation::Body
        } else {
            ContextLocation::Unknown
        },
        None => match t.kind(i) {
            NodeKind::Head => ContextLocation::Head,
            NodeKind::Bodydot | NodeKind::Bodycomma => ContextLocation::Body,
            NodeKind::SourceFile | NodeKind::Statement => ContextLocation::Statement,
            _ => ContextLocation::Unknown,
        },
    }
}

/// The location of node `i`: what the nearest node says, from node `i`
/// up to the root, that says anything.
pub open spec fn context_of(t: SyntaxTree, i: int) -> ContextLocation
    decreases t.size() - i,
{
    if location_at(t, i) != ContextLocation::Unknown {
        location_at(t, i)
    } else {
        match t.parents@[i] {
            Some(p) => if i < p < t.size() {
                context_of(t, p as int)
            } else {
                ContextLocation::Unknown
            },
            None => ContextLocation::Unknown,
        }
    }
}

/// Based on the context of the node, return the location of it in the
/// document, e.g. in the head or body.
pub fn get_location_from_context(tree: &SyntaxTree, context_node: Option<usize>) -> (location:
    ContextLocation)
    requires
        tree.wf(),
        context_node matches Some(i) ==> i < tree.size(),
    ensures
        location == (match context_node {
            Some(i) => context_of(*tree, i as int),
            None => ContextLocation::Unknown,
        }),
{
    // Keep checking the parent node until we reach a head, body or reach the root of the
    // document, that is our location
    match context_node {
        Some(node) => {
            let mut current = node;
            loop
                invariant
                    tree.wf(),
                    context_node == Some(node),
                    current < tree.size(),
                    context_of(*tree, node as int) == context_of(*tree, current as int),
                decreases tree.size() - current,
            {
                let location = match tree.prev_sibling(current) {
                    Some(prev_sibling) => {
                        if tree.nodes[prev_sibling].kind == NodeKind::If {
                            ContextLocation::Body
                        } else {
                            ContextLocation::Unknown
                        }
                    },
                    None => match tree.nodes[current].kind {
                        NodeKind::Head => ContextLocation::Head,
                        NodeKind::Bodydot | NodeKind::Bodycomma => ContextLocation::Body,
                        NodeKind::SourceFile | NodeKind::Statement => ContextLocation::Statement,
                        _ => ContextLocation::Unknown,
                    },
                };
                if location != ContextLocation::Unknown {
                    return location;
                }
                match tree.parent(current) {
                    Some(p) => {
                        current = p;
                    },
                    None => {
                        return ContextLocation::Unknown;
                    },
                }
            }
        },
        None => ContextLocation::Unknown,
    }
}

} // verus!
