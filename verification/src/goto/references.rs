use crate::document::DocumentData;
use crate::goto::definition::find_node;
use crate::goto::{get_occurences_for_predicate, occurences_for};
use crate::protocol::{locations_view, Location, Position};
use crate::semantics::predicate_occurence_semantics::PredicateOccurenceLocation;
use vstd::prelude::*;

verus! {

/// The locations at which a predicate is used.
pub open spec fn referring() -> Seq<PredicateOccurenceLocation> {
    seq![PredicateOccurenceLocation::Body, PredicateOccurenceLocation::Condition]
}

/// Check and find the references to a predicate at this position: the
/// occurences in a body or a condition of the predicate that stands at or
/// above the node that the parser finds at the position.
pub fn check_goto_references(document: &DocumentData, position: Position) -> (found: Option<
    Vec<Location>,
>)
    requires
        document.wf(),
    ensures
        found matches Some(ret) && exists|node: Option<usize>|
            (node matches Some(i) ==> i < document.syntax.size()) && locations_view(ret@)
                == #[trigger] occurences_for(*document, node, referring()),
{
    let node = find_node(document, position);
    let mut locations: Vec<PredicateOccurenceLocation> = Vec::new();
    locations.push(PredicateOccurenceLocation::Body);
    locations.push(PredicateOccurenceLocation::Condition);
    proof {
        assert(locations@ =~= referring());
    }
    let ret = get_occurences_for_predicate(document, node, locations);
    Some(ret)
}

} // verus!
