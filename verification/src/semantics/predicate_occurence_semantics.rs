use crate::syntax_tree::TextRange;
use vstd::prelude::*;

verus! {

/// Predicate occurence semantics holds where a predicate occured.
#[derive(Clone, Copy, Debug, PartialEq, Eq, Hash, Structural)]
pub struct PredicateOccurenceSemantics {
    /// The identity of the node of the occurence.
    pub node_id: usize,
    /// Where the occurence stands in the document.
    pub range: TextRange,
    /// In which part of its statement the occurence stands.
    pub location: PredicateOccurenceLocation,
}

/// The location of an occurence in the encoding.
#[derive(Clone, Copy, Debug, PartialEq, Eq, Hash, Structural)]
pub enum PredicateOccurenceLocation {
    Head,
    Body,
    Condition,
}

} // verus!
