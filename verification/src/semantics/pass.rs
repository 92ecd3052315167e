//! What a pass over the tree does to the attributes that are stored.
//!
//! The attributes are stored by node identity. A pass visits the nodes in
//! the order of the layout, every node after its descendants. At a node
//! that an edit touched, or of which nothing is stored, it computes the
//! attributes anew from those stored of the nodes below it; other nodes
//! keep what is stored. When all nodes are visited, what is stored of
//! identities that the tree does not hold is dropped.

use crate::dirty_ranges::touches;
use crate::semantics::rules::{
    attributes_of, declares_global, depend_of, kids_union, pick, provide_of, vars_of, Field,
};
use crate::semantics::statement_semantic::Attributes;
use crate::syntax_tree::SyntaxTree;
use vstd::prelude::*;

verus! {

/// The attributes stored, by node identity.
pub type AttributeMap = Map<usize, Attributes>;

/// The attributes that `s` holds for `id`; none where it holds no entry.
pub open spec fn attributes_in(s: AttributeMap, id: usize) -> Attributes {
    if s.dom().contains(id) {
        s[id]
    } else {
        Attributes::empty()
    }
}

/// The attributes that `s` holds of the first `n` nodes of the tree, by
/// index.
pub open spec fn context_in(t: SyntaxTree, s: AttributeMap, n: int) -> Seq<Attributes> {
    Seq::new(n as nat, |j: int| attributes_in(s, t.id(j)))
}

/// Whether every entry binds and needs only variables of its node.
pub open spec fn all_within_vars(s: AttributeMap) -> bool {
    forall|id: usize| s.dom().contains(id) ==> (#[trigger] s[id]).within_vars()
}

/// The attributes of a node whose variables a node above it declares
/// global.
pub open spec fn made_global(a: Attributes) -> Attributes {
    Attributes { global_vars: a.vars, ..a }
}

/// The map in which all variables of those among the first `n` children
/// of node `i` are global that node `i` declares so.
pub open spec fn declared(t: SyntaxTree, s: AttributeMap, ctx: Seq<Attributes>, i: int, n: int)
    -> AttributeMap
    decreases n,
{
    if n <= 0 {
        s
    } else {
        let before = declared(t, s, ctx, i, n - 1);
        if declares_global(t, i, n - 1) {
            let c = t.kid(i, n - 1);
            before.insert(t.id(c), made_global(ctx[c]))
        } else {
            before
        }
    }
}

/// The map after the attributes of node `i` are computed anew.
pub open spec fn recomputed(t: SyntaxTree, s: AttributeMap, i: int) -> AttributeMap {
    let ctx = context_in(t, s, i);
    declared(t, s, ctx, i, t.arity(i)).insert(t.id(i), attributes_of(t, ctx, i))
}

/// Whether a pass computes the attributes of node `i` anew: always where
/// it is told of no dirty ranges, else where a dirty range overlaps the
/// node or nothing is stored of it.
pub open spec fn needs_recompute(
    t: SyntaxTree,
    s: AttributeMap,
    dirty: Option<Set<(usize, usize)>>,
    i: int,
) -> bool {
    match dirty {
        None => true,
        Some(ranges) => touches(ranges, t.nodes@[i].range.start_byte, t.nodes@[i].range.end_byte)
            || !s.dom().contains(t.id(i)),
    }
}

/// The map after the pass has visited node `i`.
pub open spec fn visited(t: SyntaxTree, s: AttributeMap, dirty: Option<Set<(usize, usize)>>, i: int)
    -> AttributeMap {
    if needs_recompute(t, s, dirty, i) {
        recomputed(t, s, i)
    } else {
        s
    }
}

/// The map after the pass has visited the first `n` nodes.
pub open spec fn walked(t: SyntaxTree, s: AttributeMap, dirty: Option<Set<(usize, usize)>>, n: int)
    -> AttributeMap
    decreases n,
{
    if n <= 0 {
        s
    } else {
        visited(t, walked(t, s, dirty, n - 1), dirty, n - 1)
    }
}

/// The map after a whole pass: all nodes are visited, and only the
/// identities of the tree keep their entries.
pub open spec fn analysed(t: SyntaxTree, s: AttributeMap, dirty: Option<Set<(usize, usize)>>)
    -> AttributeMap {
    walked(t, s, dirty, t.size()).restrict(t.ids())
}


/// Declaring variables of children global changes nothing that is stored
/// of other identities.
pub proof fn lemma_declared_elsewhere(
    t: SyntaxTree,
    s: AttributeMap,
    ctx: Seq<Attributes>,
    i: int,
    n: int,
    id: usize,
)
    requires
        0 <= n <= t.arity(i),
        forall|k: int| 0 <= k < n ==> t.id(#[trigger] t.kid(i, k)) != id,
    ensures
        declared(t, s, ctx, i, n).dom().contains(id) == s.dom().contains(id),
        attributes_in(declared(t, s, ctx, i, n), id) == attributes_in(s, id),
    decreases n,
{
    if n > 0 {
        lemma_declared_elsewhere(t, s, ctx, i, n - 1, id);
        assert(t.id(t.kid(i, n - 1)) != id);
    }
}

/// Declaring variables of children global adds entries for children only,
/// and keeps every entry within the variables of its node.
pub proof fn lemma_declared_keeps(t: SyntaxTree, s: AttributeMap, i: int, n: int)
    requires
        t.wf(),
        0 <= i < t.size(),
        0 <= n <= t.arity(i),
        all_within_vars(s),
    ensures
        all_within_vars(declared(t, s, context_in(t, s, i), i, n)),
        s.dom().subset_of(declared(t, s, context_in(t, s, i), i, n).dom()),
        declared(t, s, context_in(t, s, i), i, n).dom().subset_of(s.dom().union(t.ids_before(i))),
    decreases n,
{
    if n > 0 {
        lemma_declared_keeps(t, s, i, n - 1);
        let c = t.kid(i, n - 1);
        assert(t.node_wf(i));
        assert(t.nodes@[i].children@[n - 1] < i);
        assert(t.ids_before(i).contains(t.id(c)));
        assert(context_in(t, s, i)[c] == attributes_in(s, t.id(c)));
    }
}

/// What the first children of a node bind or need are variables of them.
pub proof fn lemma_kids_union_within(
    t: SyntaxTree,
    ctx: Seq<Attributes>,
    i: int,
    n: int,
    field: Field,
)
    requires
        t.wf(),
        0 <= i < t.size(),
        0 <= n <= t.arity(i),
        ctx.len() == i,
        forall|j: int| 0 <= j < i ==> (#[trigger] ctx[j]).within_vars(),
        field == Field::Provide || field == Field::Depend,
    ensures
        kids_union(t, ctx, i, n, field).subset_of(kids_union(t, ctx, i, n, Field::Vars)),
        forall|k: int|
            0 <= k < n ==> #[trigger] pick(field, ctx[t.kid(i, k)]).subset_of(
                kids_union(t, ctx, i, n, Field::Vars),
            ),
    decreases n,
{
    if n > 0 {
        lemma_kids_union_within(t, ctx, i, n - 1, field);
        assert(t.node_wf(i));
        assert(t.nodes@[i].children@[n - 1] < i);
        assert(ctx[t.kid(i, n - 1)].within_vars());
        assert forall|k: int| 0 <= k < n implies #[trigger] pick(
            field,
            ctx[t.kid(i, k)],
        ).subset_of(kids_union(t, ctx, i, n, Field::Vars)) by {
            if k < n - 1 {
                assert(pick(field, ctx[t.kid(i, k)]).subset_of(
                    kids_union(t, ctx, i, n - 1, Field::Vars),
                ));
            }
        }
    }
}

/// What a node binds and what it needs are variables of it, provided that
/// this holds of the nodes before it.
pub proof fn lemma_attributes_within_vars(t: SyntaxTree, ctx: Seq<Attributes>, i: int)
    requires
        t.wf(),
        0 <= i < t.size(),
        ctx.len() == i,
        forall|j: int| 0 <= j < i ==> (#[trigger] ctx[j]).within_vars(),
    ensures
        attributes_of(t, ctx, i).within_vars(),
{
    let n = t.arity(i);
    let vars = vars_of(t, ctx, i);
    let provide = provide_of(t, ctx, i);
    lemma_kids_union_within(t, ctx, i, n, Field::Provide);
    lemma_kids_union_within(t, ctx, i, n, Field::Depend);
    assert(t.node_wf(i));
    if n >= 1 {
        assert(pick(Field::Provide, ctx[t.kid(i, 0)]).subset_of(
            kids_union(t, ctx, i, n, Field::Vars),
        ));
        assert(pick(Field::Depend, ctx[t.kid(i, 0)]).subset_of(
            kids_union(t, ctx, i, n, Field::Vars),
        ));
    }
    if n >= 3 {
        assert(pick(Field::Provide, ctx[t.kid(i, 2)]).subset_of(
            kids_union(t, ctx, i, n, Field::Vars),
        ));
        assert(pick(Field::Depend, ctx[t.kid(i, 2)]).subset_of(
            kids_union(t, ctx, i, n, Field::Vars),
        ));
    }
    assert(provide.subset_of(vars));
    assert(depend_of(t, ctx, i, vars, provide).subset_of(vars));
}

/// Computing the attributes of a node anew keeps every entry within the
/// variables of its node, and adds an entry for the node.
pub proof fn lemma_recomputed_keeps(t: SyntaxTree, s: AttributeMap, i: int)
    requires
        t.wf(),
        0 <= i < t.size(),
        all_within_vars(s),
    ensures
        all_within_vars(recomputed(t, s, i)),
        recomputed(t, s, i).dom().contains(t.id(i)),
        s.dom().subset_of(recomputed(t, s, i).dom()),
        recomputed(t, s, i).dom().subset_of(s.dom().union(t.ids_before(i + 1))),
{
    let ctx = context_in(t, s, i);
    lemma_declared_keeps(t, s, i, t.arity(i));
    lemma_attributes_within_vars(t, ctx, i);
    assert(t.ids_before(i + 1).contains(t.id(i)));
    assert forall|id: usize| t.ids_before(i).contains(id) implies t.ids_before(i + 1).contains(
        id,
    ) by {
        let j = choose|j: int| 0 <= j < i && #[trigger] t.id(j) == id;
        assert(t.id(j) == id);
    }
}

/// The identities of the first `n + 1` nodes are those of the first `n`
/// and that of node `n`.
pub proof fn lemma_ids_before_next(t: SyntaxTree, n: int)
    requires
        0 <= n < t.size(),
    ensures
        t.ids_before(n + 1) == t.ids_before(n).insert(t.id(n)),
{
    assert forall|id: usize| t.ids_before(n + 1).contains(id) <==> t.ids_before(n).insert(
        t.id(n),
    ).contains(id) by {
        if t.ids_before(n + 1).contains(id) {
            let j = choose|j: int| 0 <= j < n + 1 && #[trigger] t.id(j) == id;
            if j < n {
                assert(t.id(j) == id);
            }
        }
        if t.ids_before(n).contains(id) {
            let j = choose|j: int| 0 <= j < n && #[trigger] t.id(j) == id;
            assert(t.id(j) == id);
        }
        if id == t.id(n) {
            assert(t.id(n) == id);
        }
    }
    assert(t.ids_before(n + 1) =~= t.ids_before(n).insert(t.id(n)));
}

/// Declaring variables of children global does not touch what is stored
/// of the node itself.
pub proof fn lemma_declared_commutes(
    t: SyntaxTree,
    s: AttributeMap,
    ctx: Seq<Attributes>,
    i: int,
    n: int,
    own: Attributes,
)
    requires
        t.wf(),
        0 <= i < t.size(),
        0 <= n <= t.arity(i),
    ensures
        declared(t, s.insert(t.id(i), own), ctx, i, n) == declared(t, s, ctx, i, n).insert(
            t.id(i),
            own,
        ),
    decreases n,
{
    if n > 0 {
        lemma_declared_commutes(t, s, ctx, i, n - 1, own);
        if t.arity(i) >= 2 {
            t.lemma_kids_distinct(i, n - 1, if n - 1 == 0 { 1 } else { 0 });
        } else {
            assert(t.node_wf(i));
            assert(t.nodes@[i].children@[n - 1] < i);
            assert(t.id(t.kid(i, n - 1)) != t.id(i));
        }
        let c = t.kid(i, n - 1);
        let before = declared(t, s, ctx, i, n - 1);
        assert(before.insert(t.id(i), own).insert(t.id(c), made_global(ctx[c])) =~= before.insert(
            t.id(c),
            made_global(ctx[c]),
        ).insert(t.id(i), own));
    }
}

/// What is computed anew of a node does not depend on what was stored of
/// the node itself.
pub proof fn lemma_recomputed_ignores_own(t: SyntaxTree, s: AttributeMap, i: int, own: Attributes)
    requires
        t.wf(),
        0 <= i < t.size(),
    ensures
        recomputed(t, s.insert(t.id(i), own), i) == recomputed(t, s, i),
{
    let s1 = s.insert(t.id(i), own);
    let ctx = context_in(t, s, i);
    let ctx1 = context_in(t, s1, i);
    assert forall|j: int| 0 <= j < i implies #[trigger] ctx1[j] == ctx[j] by {
        assert(t.id(j) != t.id(i));
    }
    assert(ctx1 =~= ctx);
    lemma_declared_commutes(t, s, ctx, i, t.arity(i), own);
    let a = attributes_of(t, ctx, i);
    assert(declared(t, s, ctx, i, t.arity(i)).insert(t.id(i), own).insert(t.id(i), a)
        =~= declared(t, s, ctx, i, t.arity(i)).insert(t.id(i), a));
}

} // verus!
