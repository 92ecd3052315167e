use crate::syntax_tree::TextRange;
use vstd::prelude::*;
use vstd::string::StringExecFns;

verus! {

/// Holds all the information around missing tokens in the syntax tree.
#[derive(Debug)]
pub struct MissingSemantic {
    /// The range of where the missing tokens occurred.
    pub range: TextRange,
    /// What token is missing.
    pub missing: String,
}

/// What a [`MissingSemantic`] holds.
pub struct MissingFacts {
    pub range: TextRange,
    pub missing: Seq<char>,
}

impl View for MissingSemantic {
    type V = MissingFacts;

    open spec fn view(&self) -> MissingFacts {
        MissingFacts { range: self.range, missing: self.missing@ }
    }
}

impl Clone for MissingSemantic {
    fn clone(&self) -> (res: Self)
        ensures
            res@ == self@,
    {
        MissingSemantic { range: self.range, missing: self.missing.clone() }
    }
}

impl MissingSemantic {
    pub fn new(range: TextRange, missing: &str) -> (res: MissingSemantic)
        ensures
            res@ == (MissingFacts { range, missing: missing@ }),
    {
        MissingSemantic { range, missing: String::from_str(missing) }
    }
}

} // verus!
