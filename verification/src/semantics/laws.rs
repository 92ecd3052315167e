//! What holds of every pass of the analysis.

use crate::semantics::pass::{
    all_within_vars, analysed, attributes_in, context_in, declared, lemma_ids_before_next,
    lemma_recomputed_keeps, recomputed, visited, walked, AttributeMap,
};
use crate::semantics::predicate_occurence_semantics::{
    PredicateOccurenceLocation, PredicateOccurenceSemantics,
};
use crate::semantics::predicate_semantics::{
    indexed, is_occurence, location_of, occurence_at, occurences_of, separators,
    separators_in_kids, signature_at, with_occurence, Index, Signature,
};
use crate::semantics::statement_semantic::Attributes;
use crate::syntax_tree::SyntaxTree;
use vstd::prelude::*;

verus! {

/// Whether two maps hold the same attributes for every identity of `ids`.
pub open spec fn agree_on(a: AttributeMap, b: AttributeMap, ids: Set<usize>) -> bool {
    forall|id: usize|
        #[trigger] ids.contains(id) ==> a.dom().contains(id) && b.dom().contains(id) && a[id]
            == b[id]
}

/// Declaring the same variables global in two maps leaves them in
/// agreement wherever they agreed.
proof fn lemma_declared_agree(
    t: SyntaxTree,
    a: AttributeMap,
    b: AttributeMap,
    ctx: Seq<Attributes>,
    i: int,
    n: int,
    ids: Set<usize>,
)
    requires
        agree_on(a, b, ids),
        0 <= n,
    ensures
        agree_on(declared(t, a, ctx, i, n), declared(t, b, ctx, i, n), ids),
    decreases n,
{
    if n > 0 {
        lemma_declared_agree(t, a, b, ctx, i, n - 1, ids);
    }
}

/// After a pass that looks at every node has visited the first `n` nodes,
/// what is stored of them does not depend on what was stored before.
proof fn lemma_walked_agree(t: SyntaxTree, a: AttributeMap, b: AttributeMap, n: int)
    requires
        t.wf(),
        0 <= n <= t.size(),
    ensures
        agree_on(walked(t, a, None, n), walked(t, b, None, n), t.ids_before(n)),
    decreases n,
{
    if n > 0 {
        lemma_walked_agree(t, a, b, n - 1);
        let i = n - 1;
        let a1 = walked(t, a, None, i);
        let b1 = walked(t, b, None, i);
        let ctx_a = context_in(t, a1, i);
        let ctx_b = context_in(t, b1, i);
        assert forall|j: int| 0 <= j < i implies #[trigger] ctx_a[j] == ctx_b[j] by {
            assert(t.ids_before(i).contains(t.id(j)));
        }
        assert(ctx_a =~= ctx_b);
        lemma_declared_agree(t, a1, b1, ctx_a, i, t.arity(i), t.ids_before(i));
        lemma_ids_before_next(t, i);
        let a2 = recomputed(t, a1, i);
        let b2 = recomputed(t, b1, i);
        assert forall|id: usize| #[trigger] t.ids_before(n).contains(id) implies a2.dom().contains(
            id,
        ) && b2.dom().contains(id) && a2[id] == b2[id] by {
            if id != t.id(i) {
                assert(t.ids_before(i).contains(id));
            }
        }
    }
}

/// A pass that looks at every node yields the attributes of an analysis
/// from scratch: what it leaves does not depend on what was stored before
/// it, be that nothing or what any sequence of edits left behind.
pub proof fn lemma_full_pass_is_from_scratch(t: SyntaxTree, stored: AttributeMap)
    requires
        t.wf(),
    ensures
        analysed(t, stored, None) == analysed(t, Map::empty(), None),
{
    let scratch = Map::<usize, Attributes>::empty();
    lemma_walked_agree(t, stored, scratch, t.size());
    assert(t.ids_before(t.size()) =~= t.ids());
    assert(analysed(t, stored, None) =~= analysed(t, scratch, None));
}

/// After the first `n` nodes were visited, something is stored of each
/// of them.
pub proof fn lemma_walked_covers(
    t: SyntaxTree,
    stored: AttributeMap,
    dirty: Option<Set<(usize, usize)>>,
    n: int,
)
    requires
        t.wf(),
        0 <= n <= t.size(),
        all_within_vars(stored),
    ensures
        t.ids_before(n).subset_of(walked(t, stored, dirty, n).dom()),
        all_within_vars(walked(t, stored, dirty, n)),
    decreases n,
{
    if n > 0 {
        lemma_walked_covers(t, stored, dirty, n - 1);
        let before = walked(t, stored, dirty, n - 1);
        lemma_recomputed_keeps(t, before, n - 1);
        lemma_ids_before_next(t, n - 1);
    }
}

/// Every node binds and needs only variables of it: where this holds of
/// what is stored before a pass, it holds of what the pass leaves.
pub proof fn lemma_provide_and_depend_within_vars(
    t: SyntaxTree,
    stored: AttributeMap,
    dirty: Option<Set<(usize, usize)>>,
)
    requires
        t.wf(),
        all_within_vars(stored),
    ensures
        all_within_vars(analysed(t, stored, dirty)),
        forall|i: int|
            0 <= i < t.size() ==> {
                let a = #[trigger] attributes_in(analysed(t, stored, dirty), t.id(i));
                a.provide.subset_of(a.vars) && a.depend.subset_of(a.vars)
            },
{
    lemma_walked_covers(t, stored, dirty, t.size());
    let done = analysed(t, stored, dirty);
    assert forall|id: usize| done.dom().contains(id) implies (#[trigger] done[id]).within_vars() by {
        assert(walked(t, stored, dirty, t.size()).dom().contains(id));
    }
}

/// The identities of the first `n` nodes are as many as the nodes.
pub proof fn lemma_ids_counted(t: SyntaxTree, n: int)
    requires
        t.wf(),
        0 <= n <= t.size(),
    ensures
        t.ids_before(n).finite(),
        t.ids_before(n).len() == n,
    decreases n,
{
    if n == 0 {
        assert(t.ids_before(0) =~= Set::<usize>::empty());
    } else {
        lemma_ids_counted(t, n - 1);
        lemma_ids_before_next(t, n - 1);
        assert(!t.ids_before(n - 1).contains(t.id(n - 1))) by {
            if t.ids_before(n - 1).contains(t.id(n - 1)) {
                let j = choose|j: int| 0 <= j < n - 1 && #[trigger] t.id(j) == t.id(n - 1);
                assert(t.id(j) != t.id(n - 1));
            }
        }
    }
}

/// After a pass, attributes are stored of the nodes of the tree and of
/// nothing else: there are as many entries as the tree has nodes.
pub proof fn lemma_one_entry_for_every_node(
    t: SyntaxTree,
    stored: AttributeMap,
    dirty: Option<Set<(usize, usize)>>,
)
    requires
        t.wf(),
        all_within_vars(stored),
    ensures
        analysed(t, stored, dirty).dom() == t.ids(),
        analysed(t, stored, dirty).dom().finite(),
        analysed(t, stored, dirty).dom().len() == t.size(),
{
    lemma_walked_covers(t, stored, dirty, t.size());
    lemma_ids_counted(t, t.size());
    assert(t.ids_before(t.size()) =~= t.ids());
    assert(analysed(t, stored, dirty).dom() =~= t.ids());
}

/// Whether two trees are the same up to where their nodes stand and how
/// the parser names them: they have the same nodes of the same kinds with
/// the same text, the same children and the same parents.
pub open spec fn same_shape(a: SyntaxTree, b: SyntaxTree) -> bool {
    &&& a.size() == b.size()
    &&& a.parents@ == b.parents@
    &&& forall|i: int|
        0 <= i < a.size() ==> {
            &&& (#[trigger] a.nodes@[i]).kind == b.nodes@[i].kind
            &&& a.nodes@[i].text@ == b.nodes@[i].text@
            &&& a.nodes@[i].children@ == b.nodes@[i].children@
        }
}

/// The locations of the occurences of every predicate.
pub open spec fn locations(index: Index) -> Map<Signature, Seq<PredicateOccurenceLocation>> {
    Map::new(
        |signature: Signature| index.dom().contains(signature),
        |signature: Signature|
            index[signature].map_values(|o: PredicateOccurenceSemantics| o.location),
    )
}

/// Trees of the same shape have the same separators.
proof fn lemma_same_separators_in_kids(a: SyntaxTree, b: SyntaxTree, i: int, n: int)
    requires
        a.wf(),
        same_shape(a, b),
        0 <= i < a.size(),
    ensures
        separators_in_kids(a, i, n) == separators_in_kids(b, i, n),
    decreases i, n,
{
    assert(a.nodes@[i].kind == b.nodes@[i].kind);
    if !(n <= 0 || n > a.arity(i)) {
        lemma_same_separators_in_kids(a, b, i, n - 1);
        let c = a.kid(i, n - 1);
        if 0 <= c < i {
            lemma_same_separators(a, b, c);
        }
    }
}

/// Trees of the same shape have the same separators.
proof fn lemma_same_separators(a: SyntaxTree, b: SyntaxTree, i: int)
    requires
        a.wf(),
        same_shape(a, b),
        0 <= i < a.size(),
    ensures
        separators(a, i) == separators(b, i),
    decreases i, a.arity(i) + 1,
{
    assert(a.nodes@[i].kind == b.nodes@[i].kind);
    lemma_same_separators_in_kids(a, b, i, a.arity(i));
}

/// In trees of the same shape, a node stands in the same part of its
/// statement.
proof fn lemma_same_location(a: SyntaxTree, b: SyntaxTree, i: int)
    requires
        same_shape(a, b),
        0 <= i < a.size(),
    ensures
        location_of(a, i) == location_of(b, i),
    decreases a.size() - i,
{
    match a.parents@[i] {
        Some(p) => {
            if i < p < a.size() {
                assert(a.nodes@[p as int].kind == b.nodes@[p as int].kind);
                lemma_same_location(a, b, p as int);
            }
        },
        None => {},
    }
}

/// One more occurence of a predicate adds its location behind those of
/// the predicate.
proof fn lemma_locations_with_occurence(
    index: Index,
    other: Index,
    signature: Signature,
    o: PredicateOccurenceSemantics,
    p: PredicateOccurenceSemantics,
)
    requires
        locations(index) == locations(other),
        o.location == p.location,
    ensures
        locations(with_occurence(index, signature, o)) == locations(
            with_occurence(other, signature, p),
        ),
{
    let f = |o: PredicateOccurenceSemantics| o.location;
    let a = with_occurence(index, signature, o);
    let b = with_occurence(other, signature, p);
    assert(index.dom() =~= locations(index).dom());
    assert(other.dom() =~= locations(other).dom());
    assert forall|s: Signature| a.dom().contains(s) implies #[trigger] locations(a)[s]
        == locations(b)[s] by {
        if s == signature {
            if index.dom().contains(s) {
                assert(locations(index)[s] == locations(other)[s]);
                assert(index[s].map_values(f) == other[s].map_values(f));
            }
            assert(occurences_of(index, s).map_values(f) =~= occurences_of(other, s).map_values(
                f,
            ));
            assert(occurences_of(index, s).push(o).map_values(f) =~= occurences_of(
                index,
                s,
            ).map_values(f).push(o.location));
            assert(occurences_of(other, s).push(p).map_values(f) =~= occurences_of(
                other,
                s,
            ).map_values(f).push(p.location));
        } else {
            assert(locations(index)[s] == locations(other)[s]);
        }
    }
    assert(locations(a) =~= locations(b));
}

/// Trees of the same shape index the same predicates at the same
/// locations, in the same order.
proof fn lemma_same_index(a: SyntaxTree, b: SyntaxTree, n: int)
    requires
        a.wf(),
        same_shape(a, b),
        0 <= n <= a.size(),
    ensures
        locations(indexed(a, n)) == locations(indexed(b, n)),
    decreases n,
{
    if n > 0 {
        lemma_same_index(a, b, n - 1);
        let i = n - 1;
        assert(a.nodes@[i].kind == b.nodes@[i].kind);
        assert(a.node_wf(i));
        if is_occurence(a, i) {
            let name = a.kid(i, 0);
            let arguments = a.kid(i, 2);
            assert(a.nodes@[i].children@[0] < i);
            assert(a.nodes@[i].children@[2] < i);
            assert(a.nodes@[name].kind == b.nodes@[name].kind);
            assert(a.nodes@[name].text@ == b.nodes@[name].text@);
            lemma_same_separators(a, b, arguments);
            lemma_same_location(a, b, i);
            assert(is_occurence(b, i));
            assert(signature_at(a, i) == signature_at(b, i));
            lemma_locations_with_occurence(
                indexed(a, i),
                indexed(b, i),
                signature_at(a, i),
                occurence_at(a, i),
                occurence_at(b, i),
            );
        } else {
            assert(!is_occurence(b, i)) by {
                if b.arity(i) >= 1 {
                    assert(a.nodes@[i].children@[0] < i);
                    assert(a.nodes@[a.kid(i, 0)].kind == b.nodes@[b.kid(i, 0)].kind);
                }
            }
        }
    }
}

/// The predicate index does not depend on where the nodes of a tree
/// stand: two trees of the same shape, as the trees of a program before
/// and after an edit of its white space are, have the same predicates,
/// each with the same number of occurences at the same locations.
pub proof fn lemma_index_ignores_positions(a: SyntaxTree, b: SyntaxTree)
    requires
        a.wf(),
        same_shape(a, b),
    ensures
        locations(indexed(a, a.size())) == locations(indexed(b, b.size())),
        indexed(a, a.size()).dom() == indexed(b, b.size()).dom(),
{
    lemma_same_index(a, b, a.size());
    assert(indexed(a, a.size()).dom() =~= locations(indexed(a, a.size())).dom());
    assert(indexed(b, b.size()).dom() =~= locations(indexed(b, b.size())).dom());
}

/// Whether every occurence that the index holds is the occurence at one
/// of the first `n` nodes of the tree, under the predicate that stands
/// there: it has the identity and the range of that node.
pub open spec fn made_of_nodes(index: Index, t: SyntaxTree, n: int) -> bool {
    forall|signature: Signature, k: int|
        index.dom().contains(signature) && 0 <= k < index[signature].len() ==> exists|i: int|
            0 <= i < n && is_occurence(t, i) && signature_at(t, i) == signature
                && #[trigger] occurence_at(t, i) == #[trigger] index[signature][k]
}

/// Every occurence in the index of a tree is the occurence at a node of
/// that tree.
pub proof fn lemma_index_made_of_nodes(t: SyntaxTree, n: int)
    requires
        0 <= n <= t.size(),
    ensures
        made_of_nodes(indexed(t, n), t, n),
    decreases n,
{
    if n > 0 {
        lemma_index_made_of_nodes(t, n - 1);
        let before = indexed(t, n - 1);
        let after = indexed(t, n);
        assert forall|signature: Signature, k: int|
            after.dom().contains(signature) && 0 <= k < after[signature].len() implies exists|
            i: int,
        |
            0 <= i < n && is_occurence(t, i) && signature_at(t, i) == signature
                && #[trigger] occurence_at(t, i) == #[trigger] after[signature][k] by {
            if is_occurence(t, n - 1) && signature == signature_at(t, n - 1) && k == occurences_of(
                before,
                signature,
            ).len() {
                assert(occurence_at(t, n - 1) == after[signature][k]);
            } else {
                assert(before.dom().contains(signature));
                assert(before[signature][k] == after[signature][k]);
                let i = choose|i: int|
                    0 <= i < n - 1 && is_occurence(t, i) && signature_at(t, i) == signature
                        && #[trigger] occurence_at(t, i) == before[signature][k];
                assert(occurence_at(t, i) == after[signature][k]);
            }
        }
    }
}

} // verus!
