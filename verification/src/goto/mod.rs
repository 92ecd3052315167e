//! Where a predicate is defined and where it is used.

use crate::document::DocumentData;
use crate::node_kind::NodeKind;
use crate::protocol::{locations_view, Location, LocationFacts};
use crate::semantics::predicate_occurence_semantics::{
    PredicateOccurenceLocation, PredicateOccurenceSemantics,
};
use crate::semantics::predicate_semantics::{
    is_occurence, lemma_counted_lookup, lemma_separators_bounded, occurences_of, predicates_lookup,
    signature_at,
};
use crate::syntax_tree::SyntaxTree;
use vstd::prelude::*;

pub mod definition;
pub mod references;

verus! {

/// The nearest occurence of a predicate at or above node `i`.
pub open spec fn predicate_above(t: SyntaxTree, i: int) -> Option<int>
    decreases t.size() - i,
{
    if is_occurence(t, i) {
        Some(i)
    } else {
        match t.parents@[i] {
            Some(p) => if i < p < t.size() {
                predicate_above(t, p as int)
            } else {
                None
            },
            None => None,
        }
    }
}

/// The places of those of the first `n` occurences that stand at one of
/// the given locations.
pub open spec fn places(
    uri: Seq<char>,
    occurences: Seq<PredicateOccurenceSemantics>,
    locations: Seq<PredicateOccurenceLocation>,
    n: int,
) -> Seq<LocationFacts>
    decreases n,
{
    if n <= 0 {
        Seq::empty()
    } else {
        let before = places(uri, occurences, locations, n - 1);
        if locations.contains(occurences[n - 1].location) {
            before.push(LocationFacts { uri, range: occurences[n - 1].range })
        } else {
            before
        }
    }
}

/// The places at which the predicate occurs that stands at or above the
/// node, at one of the given locations.
pub open spec fn occurences_for(
    document: DocumentData,
    starting_node: Option<usize>,
    locations: Seq<PredicateOccurenceLocation>,
) -> Seq<LocationFacts> {
    match starting_node {
        Some(i) => match predicate_above(document.syntax, i as int) {
            Some(j) => {
                let occurences = occurences_of(
                    document.semantics.predicate_semantics.index(),
                    signature_at(document.syntax, j),
                );
                places(document.uri@, occurences, locations, occurences.len() as int)
            },
            None => Seq::empty(),
        },
        None => Seq::empty(),
    }
}

/// Whether `location` is one of `locations`.
fn is_wanted(locations: &Vec<PredicateOccurenceLocation>, location: PredicateOccurenceLocation)
    -> (wanted: bool)
    ensures
        wanted == locations@.contains(location),
{
    let mut k: usize = 0;
    while k < locations.len()
        invariant
            k <= locations.len(),
            forall|j: int| 0 <= j < k ==> locations@[j] != location,
        decreases locations.len() - k,
    {
        if locations[k] == location {
            return true;
        }
        k = k + 1;
    }
    false
}

/// Obtain the occurences for the predicate that stands at or above a
/// node.
/// locations: Which location the predicate needs to be at to be counted
/// as an occurence.
pub fn get_occurences_for_predicate(
    document: &DocumentData,
    starting_node: Option<usize>,
    locations: Vec<PredicateOccurenceLocation>,
) -> (ret: Vec<Location>)
    requires
        document.wf(),
        starting_node matches Some(i) ==> i < document.syntax.size(),
    ensures
        locations_view(ret@) == occurences_for(*document, starting_node, locations@),
{
    let tree = &document.syntax;
    let mut ret: Vec<Location> = Vec::new();
    proof {
        assert(locations_view(ret@) =~= Seq::<LocationFacts>::empty());
    }
    let start = match starting_node {
        Some(i) => i,
        None => {
            return ret;
        },
    };
    let mut node = start;
    loop
        invariant
            tree.wf(),
            document.wf(),
            *tree == document.syntax,
            starting_node == Some(start),
            start <= node < tree.size(),
            predicate_above(*tree, start as int) == predicate_above(*tree, node as int),
            ret@.len() == 0,
        decreases tree.size() - node,
    {
        // If we have a predicate with an identifier
        let kind = tree.nodes[node].kind;
        if (kind == NodeKind::Atom || kind == NodeKind::Term) && tree.child_count(node) >= 3
            && tree.child_kind(node, 0) == NodeKind::Identifier {
            let name = tree.child_at(node, 0);
            let arguments = tree.child_at(node, 2);
            let node_identifier = tree.nodes[name].text.clone();
            proof {
                lemma_counted_lookup(*tree, tree.size(), arguments as int);
                lemma_separators_bounded(*tree, arguments as int);
                tree.lemma_size_bounded();
            }
            let node_arity = document.semantics.predicate_semantics.get_predicates_arity_for_node(
                &tree.nodes[arguments].id,
            ) + 1;
            // Find the occurences of this identifier and arity
            let occurences = match predicates_lookup(
                &document.semantics.predicate_semantics.predicates,
                &node_identifier,
                node_arity,
            ) {
                Some(occurences) => occurences,
                None => Vec::new(),
            };
            let ghost all = occurences_of(
                document.semantics.predicate_semantics.index(),
                signature_at(*tree, node as int),
            );
            proof {
                assert(occurences@ =~= all);
                assert(locations_view(ret@) =~= places(document.uri@, all, locations@, 0));
            }
            let mut k: usize = 0;
            while k < occurences.len()
                invariant
                    k <= occurences.len(),
                    occurences@ == all,
                    locations_view(ret@) == places(document.uri@, all, locations@, k as int),
                decreases occurences.len() - k,
            {
                // Return all occurences that are at one of the locations
                if is_wanted(&locations, occurences[k].location) {
                    let place = Location { uri: document.uri.clone(), range: occurences[k].range };
                    let ghost before = ret@;
                    ret.push(place);
                    proof {
                        assert(locations_view(ret@) =~= locations_view(before).push(place@));
                    }
                }
                k = k + 1;
            }
            return ret;
        }
        match tree.parent(node) {
            Some(p) => {
                node = p;
            },
            None => {
                proof {
                    assert(locations_view(ret@) =~= Seq::<LocationFacts>::empty());
                }
                return ret;
            },
        }
    }
}

} // verus!
