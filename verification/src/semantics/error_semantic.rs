use crate::syntax_tree::{SyntaxTree, TextRange};
use vstd::prelude::*;

verus! {

/// Contains any semantic information around an error.
#[derive(Debug)]
pub struct ErrorSemantic {
    /// Where the error occured in the source code.
    pub range: TextRange,
    /// What kind of sibling was in front of the error; empty where there
    /// was none.
    pub prev_sibling_type: String,
}

/// What an [`ErrorSemantic`] holds.
pub struct ErrorFacts {
    pub range: TextRange,
    pub prev_sibling_type: Seq<char>,
}

impl View for ErrorSemantic {
    type V = ErrorFacts;

    open spec fn view(&self) -> ErrorFacts {
        ErrorFacts { range: self.range, prev_sibling_type: self.prev_sibling_type@ }
    }
}

impl Clone for ErrorSemantic {
    fn clone(&self) -> (res: Self)
        ensures
            res@ == self@,
    {
        ErrorSemantic { range: self.range, prev_sibling_type: self.prev_sibling_type.clone() }
    }
}

/// The record of an error at node `i`.
pub open spec fn error_at(t: SyntaxTree, i: int) -> ErrorFacts {
    ErrorFacts {
        range: t.nodes@[i].range,
        prev_sibling_type: match t.previous_sibling(i) {
            Some(s) => t.nodes@[s as int].label@,
            None => Seq::empty(),
        },
    }
}

impl ErrorSemantic {
    /// Create a new ErrorSemantic struct based on node `i` of the tree.
    pub fn new(tree: &SyntaxTree, i: usize) -> (error: ErrorSemantic)
        requires
            tree.wf(),
            i < tree.size(),
        ensures
            error@ == error_at(*tree, i as int),
    {
        let prev_sibling_type = match tree.prev_sibling(i) {
            Some(s) => tree.nodes[s].label.clone(),
            None => String::new(),
        };
        ErrorSemantic { range: tree.nodes[i].range, prev_sibling_type }
    }
}

} // verus!
