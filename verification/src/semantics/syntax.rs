use crate::semantics::encoding_semantic::{EncodingSemantics, Semantics};
use crate::semantics::error_semantic::{error_at, ErrorFacts, ErrorSemantic};
use crate::semantics::missing_semantic::{MissingFacts, MissingSemantic};
use crate::syntax_tree::SyntaxTree;
use vstd::prelude::*;

verus! {

/// Syntax searches for any errors in the syntax tree or looks for any
/// missing nodes like brackets that have not been closed.
#[derive(Debug)]
pub struct Syntax {
    errors: Vec<ErrorSemantic>,
    missing: Vec<MissingSemantic>,
}

/// The records that a sequence of error records stands for.
pub open spec fn errors_view(s: Seq<ErrorSemantic>) -> Seq<ErrorFacts> {
    s.map_values(|e: ErrorSemantic| e@)
}

/// The records that a sequence of records of missing tokens stands for.
pub open spec fn missing_view(s: Seq<MissingSemantic>) -> Seq<MissingFacts> {
    s.map_values(|m: MissingSemantic| m@)
}

/// The record of the token missing at node `i`.
pub open spec fn missing_at(t: SyntaxTree, i: int) -> MissingFacts {
    MissingFacts { range: t.nodes@[i].range, missing: t.nodes@[i].label@ }
}

/// The errors among the first `n` nodes of the tree, in the order of the
/// layout.
pub open spec fn errors_in(t: SyntaxTree, n: int) -> Seq<ErrorFacts>
    decreases n,
{
    if n <= 0 {
        Seq::empty()
    } else if t.nodes@[n - 1].is_error {
        errors_in(t, n - 1).push(error_at(t, n - 1))
    } else {
        errors_in(t, n - 1)
    }
}

/// The missing tokens among the first `n` nodes of the tree, in the order
/// of the layout. A node that is an error is not counted as missing.
pub open spec fn missing_in(t: SyntaxTree, n: int) -> Seq<MissingFacts>
    decreases n,
{
    if n <= 0 {
        Seq::empty()
    } else if !t.nodes@[n - 1].is_error && t.nodes@[n - 1].is_missing {
        missing_in(t, n - 1).push(missing_at(t, n - 1))
    } else {
        missing_in(t, n - 1)
    }
}

impl Syntax {
    /// The errors recorded.
    pub closed spec fn errors(&self) -> Seq<ErrorFacts> {
        errors_view(self.errors@)
    }

    /// The missing tokens recorded.
    pub closed spec fn missing(&self) -> Seq<MissingFacts> {
        missing_view(self.missing@)
    }

    pub fn new() -> (syntax: Syntax)
        ensures
            syntax.errors() == Seq::<ErrorFacts>::empty(),
            syntax.missing() == Seq::<MissingFacts>::empty(),
    {
        let syntax = Syntax { errors: Vec::new(), missing: Vec::new() };
        proof {
            assert(syntax.errors() =~= Seq::<ErrorFacts>::empty());
            assert(syntax.missing() =~= Seq::<MissingFacts>::empty());
        }
        syntax
    }

    pub fn get_errors(&self) -> (errors: Vec<ErrorSemantic>)
        ensures
            errors_view(errors@) == self.errors(),
    {
        let mut errors: Vec<ErrorSemantic> = Vec::new();
        let mut i: usize = 0;
        proof {
            assert(errors_view(errors@) =~= errors_view(self.errors@.take(0)));
        }
        while i < self.errors.len()
            invariant
                i <= self.errors.len(),
                errors_view(errors@) == errors_view(self.errors@.take(i as int)),
            decreases self.errors.len() - i,
        {
            let error = self.errors[i].clone();
            let ghost prev = errors@;
            errors.push(error);
            proof {
                assert(self.errors@.take(i + 1) =~= self.errors@.take(i as int).push(
                    self.errors@[i as int],
                ));
                assert(errors_view(errors@) =~= errors_view(prev).push(error@));
                assert(errors_view(self.errors@.take(i + 1)) =~= errors_view(
                    self.errors@.take(i as int),
                ).push(self.errors@[i as int]@));
                assert(errors_view(errors@) =~= errors_view(self.errors@.take(i + 1)));
            }
            i = i + 1;
        }
        proof {
            assert(self.errors@.take(self.errors.len() as int) =~= self.errors@);
        }
        errors
    }

    pub fn get_missing(&self) -> (missing: Vec<MissingSemantic>)
        ensures
            missing_view(missing@) == self.missing(),
    {
        let mut missing: Vec<MissingSemantic> = Vec::new();
        let mut i: usize = 0;
        proof {
            assert(missing_view(missing@) =~= missing_view(self.missing@.take(0)));
        }
        while i < self.missing.len()
            invariant
                i <= self.missing.len(),
                missing_view(missing@) == missing_view(self.missing@.take(i as int)),
            decreases self.missing.len() - i,
        {
            let token = self.missing[i].clone();
            let ghost prev = missing@;
            missing.push(token);
            proof {
                assert(self.missing@.take(i + 1) =~= self.missing@.take(i as int).push(
                    self.missing@[i as int],
                ));
                assert(missing_view(missing@) =~= missing_view(prev).push(token@));
                assert(missing_view(self.missing@.take(i + 1)) =~= missing_view(
                    self.missing@.take(i as int),
                ).push(self.missing@[i as int]@));
                assert(missing_view(missing@) =~= missing_view(self.missing@.take(i + 1)));
            }
            i = i + 1;
        }
        proof {
            assert(self.missing@.take(self.missing.len() as int) =~= self.missing@);
        }
        missing
    }

    /// Records node `i` of the tree if it is an error or a missing token.
    pub fn record(&mut self, tree: &SyntaxTree, i: usize)
        requires
            tree.wf(),
            i < tree.size(),
            old(self).errors() == errors_in(*tree, i as int),
            old(self).missing() == missing_in(*tree, i as int),
        ensures
            final(self).errors() == errors_in(*tree, i + 1),
            final(self).missing() == missing_in(*tree, i + 1),
    {
        if tree.nodes[i].is_error {
            // If the node contains an error we add it to the list of errors
            let error = ErrorSemantic::new(tree, i);
            self.errors.push(error);
            proof {
                assert(self.errors() =~= old(self).errors().push(error@));
            }
        } else if tree.nodes[i].is_missing {
            // Save where something is missing and what is missing
            let token = MissingSemantic::new(tree.nodes[i].range, tree.nodes[i].label.as_str());
            self.missing.push(token);
            proof {
                assert(self.missing() =~= old(self).missing().push(token@));
            }
        }
    }

    /// Forgets what the last pass recorded.
    pub fn clear(&mut self)
        ensures
            final(self).errors() == Seq::<ErrorFacts>::empty(),
            final(self).missing() == Seq::<MissingFacts>::empty(),
    {
        self.errors = Vec::new();
        self.missing = Vec::new();
        proof {
            assert(self.errors() =~= Seq::<ErrorFacts>::empty());
            assert(self.missing() =~= Seq::<MissingFacts>::empty());
        }
    }
}

impl Semantics for Syntax {
    /// The errors and missing tokens among the nodes before node `i` are
    /// recorded.
    open spec fn ready(tree: SyntaxTree, i: int, semantics: EncodingSemantics) -> bool {
        &&& semantics.syntax.errors() == errors_in(tree, i)
        &&& semantics.syntax.missing() == missing_in(tree, i)
    }

    /// Node `i` is recorded too, and nothing else has changed.
    open spec fn visits(
        tree: SyntaxTree,
        i: int,
        before: EncodingSemantics,
        after: EncodingSemantics,
    ) -> bool {
        &&& after.syntax.errors() == errors_in(tree, i + 1)
        &&& after.syntax.missing() == missing_in(tree, i + 1)
        &&& after.predicate_semantics == before.predicate_semantics
        &&& after.statement_semantics == before.statement_semantics
        &&& after.old_node_ids_encountered == before.old_node_ids_encountered
        &&& after.node_ids_encountered == before.node_ids_encountered
    }

    /// Nothing is recorded, and nothing else has changed.
    open spec fn starts(before: EncodingSemantics, after: EncodingSemantics) -> bool {
        &&& after.syntax.errors() == Seq::<ErrorFacts>::empty()
        &&& after.syntax.missing() == Seq::<MissingFacts>::empty()
        &&& after.predicate_semantics == before.predicate_semantics
        &&& after.statement_semantics == before.statement_semantics
        &&& after.old_node_ids_encountered == before.old_node_ids_encountered
        &&& after.node_ids_encountered == before.node_ids_encountered
    }

    fn on_node(tree: &SyntaxTree, i: usize, semantics: &mut EncodingSemantics) {
        semantics.syntax.record(tree, i);
    }

    fn startup(semantics: &mut EncodingSemantics) {
        semantics.syntax.clear();
    }
}

} // verus!
