use crate::document::DocumentData;
use crate::goto::{get_occurences_for_predicate, occurences_for};
use crate::parser::node_at_point;
use crate::protocol::{locations_view, Location, Position};
use crate::semantics::predicate_occurence_semantics::PredicateOccurenceLocation;
use vstd::prelude::*;

verus! {

/// The locations at which a predicate is defined.
pub open spec fn defining() -> Seq<PredicateOccurenceLocation> {
    seq![PredicateOccurenceLocation::Head]
}

/// Check and find the definition for a predicate at this position: the
/// occurences in a head of the predicate that stands at or above the node
/// that the parser finds at the position.
pub fn check_goto_definition(document: &DocumentData, position: Position) -> (found: Option<
    Vec<Location>,
>)
    requires
        document.wf(),
    ensures
        found matches Some(ret) && exists|node: Option<usize>|
            (node matches Some(i) ==> i < document.syntax.size()) && locations_view(ret@)
                == #[trigger] occurences_for(*document, node, defining()),
{
    let node = find_node(document, position);
    let mut locations: Vec<PredicateOccurenceLocation> = Vec::new();
    locations.push(PredicateOccurenceLocation::Head);
    proof {
        assert(locations@ =~= defining());
    }
    let ret = get_occurences_for_predicate(document, node, locations);
    Some(ret)
}

/// The node of the document that the parser finds at a position, if the
/// analysis has seen it.
pub fn find_node(document: &DocumentData, position: Position) -> (node: Option<usize>)
    ensures
        node matches Some(i) ==> i < document.syntax.size(),
{
    match node_at_point(&document.tree, DocumentData::convert_position_to_point(position)) {
        Some(id) => document.syntax.index_of(id),
        None => None,
    }
}

} // verus!
