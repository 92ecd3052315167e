//! Why a pass may keep what is stored of the nodes that no edit touched.
//!
//! The attributes of a node are computed from those of the nodes below
//! it. Of what is stored of a child, its parent reads everything as it
//! is, except the global variables of a child of which it declares all
//! variables global: for those it reads the variables. So it makes no
//! difference to the parent whether the child was already told that its
//! variables are global.

use crate::dirty_ranges::touches;
use crate::node_kind::NodeKind;
use crate::semantics::pass::{
    analysed, attributes_in, context_in, declared, made_global, needs_recompute, recomputed,
    visited, walked, AttributeMap,
};
use crate::semantics::rules::{
    aggregate_dependencies, aggregate_globals, attributes_of, bounds_of, declares_global,
    dependencies_of, depend_of, disjunction_condition, global_vars_of, kids_dependencies,
    kids_global, kids_special, kids_union, literal_dependencies, optimize_dependencies,
    provide_of, special_literals_of, statement_dependencies, term_facts_of, vars_of, Field,
};
use crate::semantics::statement_semantic::Attributes;
use crate::syntax_tree::SyntaxTree;
use vstd::prelude::*;

verus! {

/// Whether the parent of node `j` declares all variables of node `j`
/// global.
pub open spec fn declared_by_parent(t: SyntaxTree, j: int) -> bool {
    exists|p: int, k: int|
        0 <= p < t.size() && 0 <= k < t.arity(p) && #[trigger] t.kid(p, k) == j && declares_global(
            t,
            p,
            k,
        )
}

/// Whether two bundles hold the same, but for their global variables.
pub open spec fn same_but_global(a: Attributes, b: Attributes) -> bool {
    a == (Attributes { global_vars: a.global_vars, ..b })
}

/// Whether two bundles of node `j` are the same to the parent of the
/// node: they hold the same, but for the global variables of a node of
/// which its parent declares all variables global.
pub open spec fn same_to_parent(t: SyntaxTree, j: int, a: Attributes, b: Attributes) -> bool {
    same_but_global(a, b) && (a.global_vars == b.global_vars || declared_by_parent(t, j))
}

/// Whether two contexts are the same to the nodes that read them.
pub open spec fn alike(t: SyntaxTree, a: Seq<Attributes>, b: Seq<Attributes>, n: int) -> bool {
    &&& a.len() == n
    &&& b.len() == n
    &&& forall|j: int| 0 <= j < n ==> same_to_parent(t, j, #[trigger] a[j], b[j])
}

/// A node is the child of one node only, at one position.
pub proof fn lemma_one_parent(t: SyntaxTree, p: int, k: int, q: int, m: int)
    requires
        t.wf(),
        0 <= p < t.size(),
        0 <= k < t.arity(p),
        0 <= q < t.size(),
        0 <= m < t.arity(q),
        t.kid(p, k) == t.kid(q, m),
    ensures
        p == q,
        k == m,
{
    assert(t.node_wf(p));
    assert(t.node_wf(q));
    assert(t.nodes@[p].children@[k] < p);
    assert(t.nodes@[q].children@[m] < q);
    assert(t.parent_is(t.kid(p, k), p));
    assert(t.parent_is(t.kid(q, m), q));
    if k < m {
        t.lemma_kids_increasing(p, k, m);
    } else if m < k {
        t.lemma_kids_increasing(p, m, k);
    }
}

/// The child at a position at which its parent declares nothing is not
/// declared by its parent.
pub proof fn lemma_not_declared(t: SyntaxTree, i: int, k: int)
    requires
        t.wf(),
        0 <= i < t.size(),
        0 <= k < t.arity(i),
        !declares_global(t, i, k),
    ensures
        !declared_by_parent(t, t.kid(i, k)),
{
    if declared_by_parent(t, t.kid(i, k)) {
        let (p, m) = choose|p: int, m: int|
            0 <= p < t.size() && 0 <= m < t.arity(p) && #[trigger] t.kid(p, m) == t.kid(i, k)
                && declares_global(t, p, m);
        lemma_one_parent(t, p, m, i, k);
    }
}

/// The children of a node are nodes before it.
pub proof fn lemma_kid_before(t: SyntaxTree, i: int, k: int)
    requires
        t.wf(),
        0 <= i < t.size(),
        0 <= k < t.arity(i),
    ensures
        0 <= t.kid(i, k) < i,
{
    assert(t.node_wf(i));
    assert(t.nodes@[i].children@[k] < i);
}

/// Contexts that are alike give the same union over the children of a
/// node, for the variables, what is provided and what is needed.
pub proof fn lemma_kids_union_alike(
    t: SyntaxTree,
    a: Seq<Attributes>,
    b: Seq<Attributes>,
    i: int,
    n: int,
    field: Field,
)
    requires
        t.wf(),
        0 <= i < t.size(),
        0 <= n <= t.arity(i),
        alike(t, a, b, i),
        field != Field::GlobalVars,
    ensures
        kids_union(t, a, i, n, field) == kids_union(t, b, i, n, field),
    decreases n,
{
    if n > 0 {
        lemma_kids_union_alike(t, a, b, i, n - 1, field);
        lemma_kid_before(t, i, n - 1);
        assert(same_to_parent(t, t.kid(i, n - 1), a[t.kid(i, n - 1)], b[t.kid(i, n - 1)]));
    }
}

/// Contexts that are alike give the same union of the global variables of
/// the children of a node that declares nothing.
pub proof fn lemma_kids_union_global_alike(
    t: SyntaxTree,
    a: Seq<Attributes>,
    b: Seq<Attributes>,
    i: int,
    n: int,
)
    requires
        t.wf(),
        0 <= i < t.size(),
        0 <= n <= t.arity(i),
        alike(t, a, b, i),
        forall|k: int| 0 <= k < n ==> !declares_global(t, i, k),
    ensures
        kids_union(t, a, i, n, Field::GlobalVars) == kids_union(t, b, i, n, Field::GlobalVars),
    decreases n,
{
    if n > 0 {
        lemma_kids_union_global_alike(t, a, b, i, n - 1);
        lemma_kid_before(t, i, n - 1);
        lemma_not_declared(t, i, n - 1);
        assert(same_to_parent(t, t.kid(i, n - 1), a[t.kid(i, n - 1)], b[t.kid(i, n - 1)]));
    }
}

/// Contexts that are alike give the same global variables of the children
/// of a node, as the node counts them.
pub proof fn lemma_kids_global_alike(
    t: SyntaxTree,
    a: Seq<Attributes>,
    b: Seq<Attributes>,
    i: int,
    n: int,
)
    requires
        t.wf(),
        0 <= i < t.size(),
        0 <= n <= t.arity(i),
        alike(t, a, b, i),
    ensures
        kids_global(t, a, i, n) == kids_global(t, b, i, n),
    decreases n,
{
    if n > 0 {
        lemma_kids_global_alike(t, a, b, i, n - 1);
        lemma_kid_before(t, i, n - 1);
        assert(same_to_parent(t, t.kid(i, n - 1), a[t.kid(i, n - 1)], b[t.kid(i, n - 1)]));
        if !declares_global(t, i, n - 1) {
            lemma_not_declared(t, i, n - 1);
        }
    }
}

/// Contexts that are alike give the same dependencies of the children of
/// a node.
pub proof fn lemma_kids_dependencies_alike(
    t: SyntaxTree,
    a: Seq<Attributes>,
    b: Seq<Attributes>,
    i: int,
    n: int,
    body_only: bool,
)
    requires
        t.wf(),
        0 <= i < t.size(),
        0 <= n <= t.arity(i),
        alike(t, a, b, i),
    ensures
        kids_dependencies(t, a, i, n, body_only) == kids_dependencies(t, b, i, n, body_only),
    decreases n,
{
    if n > 0 {
        lemma_kids_dependencies_alike(t, a, b, i, n - 1, body_only);
        lemma_kid_before(t, i, n - 1);
        assert(same_to_parent(t, t.kid(i, n - 1), a[t.kid(i, n - 1)], b[t.kid(i, n - 1)]));
    }
}

/// Contexts that are alike give the same special literals of the children
/// of a node.
pub proof fn lemma_kids_special_alike(
    t: SyntaxTree,
    a: Seq<Attributes>,
    b: Seq<Attributes>,
    i: int,
    n: int,
)
    requires
        t.wf(),
        0 <= i < t.size(),
        0 <= n <= t.arity(i),
        alike(t, a, b, i),
    ensures
        kids_special(t, a, i, n) == kids_special(t, b, i, n),
    decreases n,
{
    if n > 0 {
        lemma_kids_special_alike(t, a, b, i, n - 1);
        lemma_kid_before(t, i, n - 1);
        assert(same_to_parent(t, t.kid(i, n - 1), a[t.kid(i, n - 1)], b[t.kid(i, n - 1)]));
    }
}

/// What two contexts that are alike hold of a node before node `i` is
/// the same, but for its global variables.
pub proof fn lemma_alike_at(t: SyntaxTree, a: Seq<Attributes>, b: Seq<Attributes>, i: int, j: int)
    requires
        alike(t, a, b, i),
        0 <= j < i,
    ensures
        a[j].vars == b[j].vars,
        a[j].provide == b[j].provide,
        a[j].depend == b[j].depend,
        a[j].dependencies == b[j].dependencies,
        a[j].term == b[j].term,
        a[j].special_literals == b[j].special_literals,
{
    assert(same_to_parent(t, j, a[j], b[j]));
}

/// What two contexts that are alike hold of the `k`-th child of node `i`
/// is the same, but for its global variables.
pub proof fn lemma_alike_kid(t: SyntaxTree, a: Seq<Attributes>, b: Seq<Attributes>, i: int, k: int)
    requires
        t.wf(),
        0 <= i < t.size(),
        alike(t, a, b, i),
    ensures
        0 <= k < t.arity(i) ==> {
            let j = t.kid(i, k);
            &&& 0 <= j < i
            &&& a[j].vars == b[j].vars
            &&& a[j].provide == b[j].provide
            &&& a[j].depend == b[j].depend
            &&& a[j].dependencies == b[j].dependencies
            &&& a[j].term == b[j].term
            &&& a[j].special_literals == b[j].special_literals
            &&& !declares_global(t, i, k) ==> a[j].global_vars == b[j].global_vars
        },
{
    if 0 <= k < t.arity(i) {
        lemma_kid_before(t, i, k);
        lemma_alike_at(t, a, b, i, t.kid(i, k));
        assert(same_to_parent(t, t.kid(i, k), a[t.kid(i, k)], b[t.kid(i, k)]));
        if !declares_global(t, i, k) {
            lemma_not_declared(t, i, k);
        }
    }
}

/// What two contexts that are alike hold of the `m`-th child of the
/// `k`-th child of node `i` is the same, but for its global variables.
pub proof fn lemma_alike_grandkid(
    t: SyntaxTree,
    a: Seq<Attributes>,
    b: Seq<Attributes>,
    i: int,
    k: int,
    m: int,
)
    requires
        t.wf(),
        0 <= i < t.size(),
        alike(t, a, b, i),
    ensures
        0 <= k < t.arity(i) && 0 <= m < t.arity(t.kid(i, k)) ==> {
            let j = t.kid(t.kid(i, k), m);
            &&& 0 <= j < i
            &&& a[j].vars == b[j].vars
            &&& a[j].provide == b[j].provide
            &&& a[j].depend == b[j].depend
            &&& a[j].dependencies == b[j].dependencies
            &&& a[j].term == b[j].term
            &&& a[j].special_literals == b[j].special_literals
        },
{
    if 0 <= k < t.arity(i) && 0 <= m < t.arity(t.kid(i, k)) {
        lemma_kid_before(t, i, k);
        lemma_kid_before(t, t.kid(i, k), m);
        lemma_alike_at(t, a, b, i, t.kid(t.kid(i, k), m));
    }
}

/// Contexts that are alike give a node the same variables.
pub proof fn lemma_vars_alike(t: SyntaxTree, a: Seq<Attributes>, b: Seq<Attributes>, i: int)
    requires
        t.wf(),
        0 <= i < t.size(),
        alike(t, a, b, i),
    ensures
        vars_of(t, a, i) == vars_of(t, b, i),
{
    lemma_kids_union_alike(t, a, b, i, t.arity(i), Field::Vars);
}

/// Contexts that are alike make a node the same term.
pub proof fn lemma_term_alike(t: SyntaxTree, a: Seq<Attributes>, b: Seq<Attributes>, i: int)
    requires
        t.wf(),
        0 <= i < t.size(),
        alike(t, a, b, i),
    ensures
        term_facts_of(t, a, i) == term_facts_of(t, b, i),
{
    lemma_alike_kid(t, a, b, i, 0);
    lemma_alike_kid(t, a, b, i, 2);
}

/// Contexts that are alike let a node provide the same.
pub proof fn lemma_provide_alike(t: SyntaxTree, a: Seq<Attributes>, b: Seq<Attributes>, i: int)
    requires
        t.wf(),
        0 <= i < t.size(),
        alike(t, a, b, i),
    ensures
        provide_of(t, a, i) == provide_of(t, b, i),
{
    lemma_kids_union_alike(t, a, b, i, t.arity(i), Field::Provide);
    lemma_alike_kid(t, a, b, i, 0);
    lemma_alike_kid(t, a, b, i, 2);
}

/// Contexts that are alike let a node need the same.
pub proof fn lemma_depend_alike(
    t: SyntaxTree,
    a: Seq<Attributes>,
    b: Seq<Attributes>,
    i: int,
    vars: Set<Seq<char>>,
    provide: Set<Seq<char>>,
)
    requires
        t.wf(),
        0 <= i < t.size(),
        alike(t, a, b, i),
    ensures
        depend_of(t, a, i, vars, provide) == depend_of(t, b, i, vars, provide),
{
    lemma_kids_union_alike(t, a, b, i, t.arity(i), Field::Depend);
    lemma_alike_kid(t, a, b, i, 0);
    lemma_alike_kid(t, a, b, i, 2);
}

/// The terms that bound an aggregate are nodes before it.
pub proof fn lemma_bounds_before(t: SyntaxTree, i: int, n: int)
    requires
        t.wf(),
        0 <= i < t.size(),
        0 <= n <= t.arity(i),
    ensures
        bounds_of(t, i, n).aggregate matches Some(j) ==> 0 <= j < i,
        bounds_of(t, i, n).lower_term matches Some(j) ==> 0 <= j < i,
        bounds_of(t, i, n).upper_term matches Some(j) ==> 0 <= j < i,
    decreases n,
{
    if n > 0 {
        lemma_bounds_before(t, i, n - 1);
        lemma_kid_before(t, i, n - 1);
        let c = t.kid(i, n - 1);
        if t.arity(c) >= 2 {
            lemma_kid_before(t, c, 1);
        }
    }
}

/// Contexts that are alike give an aggregate with bounds the same
/// dependencies and the same global variables.
pub proof fn lemma_aggregate_alike(
    t: SyntaxTree,
    a: Seq<Attributes>,
    b: Seq<Attributes>,
    i: int,
    vars: Set<Seq<char>>,
)
    requires
        t.wf(),
        0 <= i < t.size(),
        alike(t, a, b, i),
    ensures
        aggregate_dependencies(t, a, i, vars) == aggregate_dependencies(t, b, i, vars),
        aggregate_globals(t, a, i) == aggregate_globals(t, b, i),
{
    lemma_bounds_before(t, i, t.arity(i));
    let bounds = bounds_of(t, i, t.arity(i));
    match bounds.aggregate {
        Some(j) => {
            lemma_alike_at(t, a, b, i, j);
        },
        None => {},
    }
    match bounds.lower_term {
        Some(j) => {
            lemma_alike_at(t, a, b, i, j);
        },
        None => {},
    }
    match bounds.upper_term {
        Some(j) => {
            lemma_alike_at(t, a, b, i, j);
        },
        None => {},
    }
}

/// Contexts that are alike give a statement the same dependencies.
pub proof fn lemma_statement_alike(t: SyntaxTree, a: Seq<Attributes>, b: Seq<Attributes>, i: int)
    requires
        t.wf(),
        0 <= i < t.size(),
        alike(t, a, b, i),
    ensures
        statement_dependencies(t, a, i) == statement_dependencies(t, b, i),
{
    lemma_alike_kid(t, a, b, i, 0);
    lemma_alike_kid(t, a, b, i, 1);
    lemma_alike_kid(t, a, b, i, 2);
    lemma_alike_kid(t, a, b, i, 3);
    lemma_alike_kid(t, a, b, i, 4);
}

/// The position of the atom of a literal is the position of a child.
pub proof fn lemma_negations_bounded(t: SyntaxTree, i: int, n: int)
    requires
        0 <= n,
    ensures
        0 <= crate::semantics::rules::negations(t, i, n) <= n,
    decreases n,
{
    if n > 0 {
        lemma_negations_bounded(t, i, n - 1);
    }
}

/// Contexts that are alike give a literal the same dependencies.
pub proof fn lemma_literal_alike(t: SyntaxTree, a: Seq<Attributes>, b: Seq<Attributes>, i: int)
    requires
        t.wf(),
        0 <= i < t.size(),
        alike(t, a, b, i),
    ensures
        literal_dependencies(t, a, i) == literal_dependencies(t, b, i),
{
    let n = t.arity(i);
    lemma_kids_dependencies_alike(t, a, b, i, n, false);
    lemma_negations_bounded(t, i, n);
    if n > 1 {
        let p = crate::semantics::rules::atom_position(t, i);
        lemma_alike_kid(t, a, b, i, p);
        lemma_alike_kid(t, a, b, i, p + 1);
        lemma_alike_grandkid(t, a, b, i, p + 1, 1);
    }
}

/// Contexts that are alike give a list of optimization elements the same
/// dependencies.
pub proof fn lemma_optimize_alike(t: SyntaxTree, a: Seq<Attributes>, b: Seq<Attributes>, i: int)
    requires
        t.wf(),
        0 <= i < t.size(),
        alike(t, a, b, i),
    ensures
        optimize_dependencies(t, a, i) == optimize_dependencies(t, b, i),
{
    lemma_alike_kid(t, a, b, i, 0);
    lemma_alike_kid(t, a, b, i, 1);
    lemma_alike_kid(t, a, b, i, 2);
    lemma_alike_kid(t, a, b, i, 3);
    lemma_alike_kid(t, a, b, i, 4);
}

/// Contexts that are alike give a node the same dependencies.
pub proof fn lemma_dependencies_alike(
    t: SyntaxTree,
    a: Seq<Attributes>,
    b: Seq<Attributes>,
    i: int,
    vars: Set<Seq<char>>,
)
    requires
        t.wf(),
        0 <= i < t.size(),
        alike(t, a, b, i),
    ensures
        dependencies_of(t, a, i, vars) == dependencies_of(t, b, i, vars),
{
    let n = t.arity(i);
    lemma_statement_alike(t, a, b, i);
    lemma_literal_alike(t, a, b, i);
    lemma_aggregate_alike(t, a, b, i, vars);
    lemma_optimize_alike(t, a, b, i);
    lemma_kids_dependencies_alike(t, a, b, i, n, true);
    lemma_kids_dependencies_alike(t, a, b, i, n, false);
    lemma_alike_kid(t, a, b, i, 2);
}

/// Contexts that are alike give a node the same global variables.
pub proof fn lemma_global_vars_alike(
    t: SyntaxTree,
    a: Seq<Attributes>,
    b: Seq<Attributes>,
    i: int,
    vars: Set<Seq<char>>,
)
    requires
        t.wf(),
        0 <= i < t.size(),
        alike(t, a, b, i),
    ensures
        global_vars_of(t, a, i, vars) == global_vars_of(t, b, i, vars),
{
    let n = t.arity(i);
    lemma_kids_global_alike(t, a, b, i, n);
    lemma_aggregate_alike(t, a, b, i, vars);
    lemma_alike_kid(t, a, b, i, 0);
    lemma_alike_kid(t, a, b, i, 1);
    lemma_alike_kid(t, a, b, i, 2);
    lemma_alike_kid(t, a, b, i, 3);
    match t.kind(i) {
        NodeKind::Altheadaggrelemvec => {
            lemma_kids_union_global_alike(t, a, b, i, n);
        },
        NodeKind::Disjunction => {
            if n >= 3 {
                let c = disjunction_condition(t, i);
                lemma_alike_at(t, a, b, i, c);
            }
        },
        _ => {},
    }
}

/// Contexts that are alike give a node the same special literals.
pub proof fn lemma_special_literals_alike(
    t: SyntaxTree,
    a: Seq<Attributes>,
    b: Seq<Attributes>,
    i: int,
)
    requires
        t.wf(),
        0 <= i < t.size(),
        alike(t, a, b, i),
    ensures
        special_literals_of(t, a, i) == special_literals_of(t, b, i),
{
    let n = t.arity(i);
    lemma_kids_special_alike(t, a, b, i, n);
    lemma_alike_kid(t, a, b, i, 0);
    lemma_alike_kid(t, a, b, i, 1);
    lemma_alike_kid(t, a, b, i, 2);
    lemma_alike_kid(t, a, b, i, 3);
    if t.kind(i) == NodeKind::Disjunction && n >= 3 {
        let c = disjunction_condition(t, i);
        lemma_alike_at(t, a, b, i, c);
    }
}

/// The attributes of a node do not depend on whether the nodes below it
/// were told that their variables are global: contexts that are alike
/// give the node the same attributes.
pub proof fn lemma_attributes_alike(t: SyntaxTree, a: Seq<Attributes>, b: Seq<Attributes>, i: int)
    requires
        t.wf(),
        0 <= i < t.size(),
        alike(t, a, b, i),
    ensures
        attributes_of(t, a, i) == attributes_of(t, b, i),
{
    lemma_vars_alike(t, a, b, i);
    lemma_provide_alike(t, a, b, i);
    let vars = vars_of(t, a, i);
    let provide = provide_of(t, a, i);
    lemma_depend_alike(t, a, b, i, vars, provide);
    lemma_dependencies_alike(t, a, b, i, vars);
    lemma_global_vars_alike(t, a, b, i, vars);
    lemma_special_literals_alike(t, a, b, i);
    lemma_term_alike(t, a, b, i);
}

/// Whether node `i` declares all variables global of node `j`, one of its
/// first `n` children.
pub open spec fn declares_node(t: SyntaxTree, i: int, n: int, j: int) -> bool {
    exists|k: int| 0 <= k < n && #[trigger] t.kid(i, k) == j && declares_global(t, i, k)
}

/// Whether one of the first `n` nodes declares all variables of node `j`
/// global.
pub open spec fn declared_before(t: SyntaxTree, n: int, j: int) -> bool {
    exists|p: int| 0 <= p < n && #[trigger] declares_node(t, p, t.arity(p), j)
}

/// What declaring variables of children global leaves of node `j`: its
/// bundle with its variables as its global variables where it is one of
/// the children that are declared, and what was stored of it otherwise.
pub proof fn lemma_declared_value(
    t: SyntaxTree,
    s: AttributeMap,
    ctx: Seq<Attributes>,
    i: int,
    n: int,
    j: int,
)
    requires
        t.wf(),
        0 <= i < t.size(),
        0 <= n <= t.arity(i),
        0 <= j < t.size(),
    ensures
        declares_node(t, i, n, j) ==> declared(t, s, ctx, i, n).dom().contains(t.id(j)) && declared(
            t,
            s,
            ctx,
            i,
            n,
        )[t.id(j)] == made_global(ctx[j]),
        !declares_node(t, i, n, j) ==> declared(t, s, ctx, i, n).dom().contains(t.id(j))
            == s.dom().contains(t.id(j)) && attributes_in(declared(t, s, ctx, i, n), t.id(j))
            == attributes_in(s, t.id(j)),
    decreases n,
{
    if n > 0 {
        lemma_declared_value(t, s, ctx, i, n - 1, j);
        lemma_kid_before(t, i, n - 1);
        let c = t.kid(i, n - 1);
        if c != j {
            assert(t.id(c) != t.id(j));
            if declares_node(t, i, n, j) {
                let k = choose|k: int|
                    0 <= k < n && #[trigger] t.kid(i, k) == j && declares_global(t, i, k);
                assert(declares_node(t, i, n - 1, j));
            }
        } else if !declares_global(t, i, n - 1) {
            if declares_node(t, i, n, j) {
                let k = choose|k: int|
                    0 <= k < n && #[trigger] t.kid(i, k) == j && declares_global(t, i, k);
                lemma_one_parent(t, i, k, i, n - 1);
            }
            if declares_node(t, i, n - 1, j) {
                let k = choose|k: int|
                    0 <= k < n - 1 && #[trigger] t.kid(i, k) == j && declares_global(t, i, k);
                lemma_one_parent(t, i, k, i, n - 1);
            }
        }
    }
}

/// The pass from scratch, after its first `n` nodes.
pub open spec fn scratch(t: SyntaxTree, n: int) -> AttributeMap {
    walked(t, Map::empty(), None, n)
}

/// What a pass from scratch leaves.
pub open spec fn from_scratch(t: SyntaxTree) -> AttributeMap {
    analysed(t, Map::empty(), None)
}

/// The attributes that a pass from scratch computes at node `j`.
pub open spec fn own(t: SyntaxTree, j: int) -> Attributes {
    attributes_of(t, context_in(t, scratch(t, j), j), j)
}

/// A node is declared by a node behind it only.
pub proof fn lemma_declared_later(t: SyntaxTree, n: int, j: int)
    requires
        t.wf(),
        0 <= n <= j + 1,
        0 <= j < t.size(),
        n <= t.size(),
    ensures
        !declared_before(t, n, j),
{
    if declared_before(t, n, j) {
        let p = choose|p: int| 0 <= p < n && #[trigger] declares_node(t, p, t.arity(p), j);
        let k = choose|k: int|
            0 <= k < t.arity(p) && #[trigger] t.kid(p, k) == j && declares_global(t, p, k);
        lemma_kid_before(t, p, k);
    }
}

/// What a pass from scratch has stored of node `j` once it has visited the
/// first `n` nodes: what it computed at the node, with the variables as
/// global variables where the parent of the node, if it was visited, says
/// so.
pub proof fn lemma_scratch_value(t: SyntaxTree, n: int, j: int)
    requires
        t.wf(),
        0 <= j < n <= t.size(),
    ensures
        scratch(t, n).dom().contains(t.id(j)),
        scratch(t, n)[t.id(j)] == (if declared_before(t, n, j) {
            made_global(own(t, j))
        } else {
            own(t, j)
        }),
    decreases n,
{
    let i = n - 1;
    let before = scratch(t, i);
    let ctx = context_in(t, before, i);
    assert(scratch(t, n) == recomputed(t, before, i));
    lemma_declared_value(t, before, ctx, i, t.arity(i), j);
    if j == i {
        lemma_declared_later(t, n, j);
    } else {
        lemma_scratch_value(t, i, j);
        assert(t.id(j) != t.id(i));
        assert(ctx[j] == attributes_in(before, t.id(j)));
        if declares_node(t, i, t.arity(i), j) {
            assert(declared_before(t, n, j));
            // No node before node `i` declares node `j`: node `i` is its parent
            if declared_before(t, i, j) {
                let p = choose|p: int| 0 <= p < i && #[trigger] declares_node(t, p, t.arity(p), j);
                let k = choose|k: int|
                    0 <= k < t.arity(p) && #[trigger] t.kid(p, k) == j && declares_global(t, p, k);
                let m = choose|m: int|
                    0 <= m < t.arity(i) && #[trigger] t.kid(i, m) == j && declares_global(t, i, m);
                lemma_one_parent(t, p, k, i, m);
            }
        } else {
            if declared_before(t, n, j) {
                let p = choose|p: int| 0 <= p < n && #[trigger] declares_node(t, p, t.arity(p), j);
                assert(p < i);
                assert(declared_before(t, i, j));
            }
            if declared_before(t, i, j) {
                let p = choose|p: int| 0 <= p < i && #[trigger] declares_node(t, p, t.arity(p), j);
                assert(declares_node(t, p, t.arity(p), j));
                assert(declared_before(t, n, j));
            }
        }
    }
}

/// What a pass from scratch leaves of node `j`.
pub proof fn lemma_from_scratch_value(t: SyntaxTree, j: int)
    requires
        t.wf(),
        0 <= j < t.size(),
    ensures
        from_scratch(t).dom().contains(t.id(j)),
        from_scratch(t)[t.id(j)] == (if declared_by_parent(t, j) {
            made_global(own(t, j))
        } else {
            own(t, j)
        }),
{
    lemma_scratch_value(t, t.size(), j);
    assert(t.ids().contains(t.id(j)));
    if declared_by_parent(t, j) {
        let (p, k) = choose|p: int, k: int|
            0 <= p < t.size() && 0 <= k < t.arity(p) && #[trigger] t.kid(p, k) == j
                && declares_global(t, p, k);
        assert(declares_node(t, p, t.arity(p), j));
        assert(declared_before(t, t.size(), j));
    }
    if declared_before(t, t.size(), j) {
        let p = choose|p: int| 0 <= p < t.size() && #[trigger] declares_node(t, p, t.arity(p), j);
        let k = choose|k: int|
            0 <= k < t.arity(p) && #[trigger] t.kid(p, k) == j && declares_global(t, p, k);
        assert(t.kid(p, k) == j);
        assert(declared_by_parent(t, j));
    }
}

/// Whether a pass that starts from `stored` and is told of the ranges
/// `dirty` computes the attributes of node `i` anew.
pub open spec fn looked_at(t: SyntaxTree, stored: AttributeMap, dirty: Set<(usize, usize)>, i: int)
    -> bool {
    touches(dirty, t.nodes@[i].range.start_byte, t.nodes@[i].range.end_byte)
        || !stored.dom().contains(t.id(i))
}

/// Whether what is stored of the nodes that the pass does not look at is
/// what a pass from scratch leaves of them.
pub open spec fn cache_is_current(t: SyntaxTree, stored: AttributeMap, dirty: Set<(usize, usize)>)
    -> bool {
    forall|i: int|
        0 <= i < t.size() && !looked_at(t, stored, dirty, i) ==> stored[#[trigger] t.id(i)]
            == from_scratch(t)[t.id(i)]
}

/// Whether the pass looks at the parent of every node that it looks at.
pub open spec fn dirt_rises(t: SyntaxTree, stored: AttributeMap, dirty: Set<(usize, usize)>)
    -> bool {
    forall|p: int, k: int|
        0 <= p < t.size() && 0 <= k < t.arity(p) && looked_at(
            t,
            stored,
            dirty,
            #[trigger] t.kid(p, k),
        ) ==> looked_at(t, stored, dirty, p)
}

/// Whether a pass that starts from `stored` and is told of the ranges
/// `dirty` rests on what is current: what it keeps is what a pass from
/// scratch leaves, and it looks at a node again whenever it looks at one
/// of its children. Whether it does depends on the identities that the
/// parser keeps from one tree to the next.
pub open spec fn rests_on_current(t: SyntaxTree, stored: AttributeMap, dirty: Set<(usize, usize)>)
    -> bool {
    cache_is_current(t, stored, dirty) && dirt_rises(t, stored, dirty)
}

/// What holds of a pass when it has visited the first `n` nodes: of a
/// node it has visited it has stored what the pass from scratch has, if
/// it looked at the node, and else what the pass from scratch leaves of
/// it; of the other nodes it has stored what was stored before.
pub open spec fn in_step(
    t: SyntaxTree,
    stored: AttributeMap,
    dirty: Set<(usize, usize)>,
    n: int,
) -> bool {
    let w = walked(t, stored, Some(dirty), n);
    &&& forall|j: int|
        0 <= j < n ==> w.dom().contains(#[trigger] t.id(j)) && w[t.id(j)] == (if looked_at(
            t,
            stored,
            dirty,
            j,
        ) {
            scratch(t, n)[t.id(j)]
        } else {
            from_scratch(t)[t.id(j)]
        })
    &&& forall|j: int|
        n <= j < t.size() ==> w.dom().contains(#[trigger] t.id(j)) == stored.dom().contains(t.id(j))
            && attributes_in(w, t.id(j)) == attributes_in(stored, t.id(j))
}

/// Telling a node twice that its variables are global is telling it once.
pub proof fn lemma_made_global_twice(a: Attributes)
    ensures
        made_global(made_global(a)) == made_global(a),
{
}

/// What holds of the pass at a node that it has visited.
proof fn lemma_visited_node(
    t: SyntaxTree,
    stored: AttributeMap,
    dirty: Set<(usize, usize)>,
    n: int,
    j: int,
)
    requires
        in_step(t, stored, dirty, n),
        0 <= j < n,
    ensures
        walked(t, stored, Some(dirty), n).dom().contains(t.id(j)),
        looked_at(t, stored, dirty, j) ==> walked(t, stored, Some(dirty), n)[t.id(j)] == scratch(
            t,
            n,
        )[t.id(j)],
        !looked_at(t, stored, dirty, j) ==> walked(t, stored, Some(dirty), n)[t.id(j)]
            == from_scratch(t)[t.id(j)],
{
    let w = walked(t, stored, Some(dirty), n);
    assert(w.dom().contains(t.id(j)));
}

/// What holds of the pass at a node that it has not visited yet.
proof fn lemma_unvisited_node(
    t: SyntaxTree,
    stored: AttributeMap,
    dirty: Set<(usize, usize)>,
    n: int,
    j: int,
)
    requires
        in_step(t, stored, dirty, n),
        n <= j < t.size(),
    ensures
        walked(t, stored, Some(dirty), n).dom().contains(t.id(j)) == stored.dom().contains(t.id(j)),
        attributes_in(walked(t, stored, Some(dirty), n), t.id(j)) == attributes_in(stored, t.id(j)),
{
    let w = walked(t, stored, Some(dirty), n);
    assert(w.dom().contains(t.id(j)) == stored.dom().contains(t.id(j)));
}

/// What the pass from scratch does at node `i` to a node before it.
proof fn lemma_scratch_step(t: SyntaxTree, i: int, j: int)
    requires
        t.wf(),
        0 <= j < i < t.size(),
    ensures
        scratch(t, i).dom().contains(t.id(j)),
        scratch(t, i + 1).dom().contains(t.id(j)),
        scratch(t, i + 1)[t.id(j)] == (if declares_node(t, i, t.arity(i), j) {
            made_global(scratch(t, i)[t.id(j)])
        } else {
            scratch(t, i)[t.id(j)]
        }),
{
    let w0 = scratch(t, i);
    let ctx0 = context_in(t, w0, i);
    assert(scratch(t, i + 1) == recomputed(t, w0, i));
    lemma_scratch_value(t, i, j);
    lemma_declared_value(t, w0, ctx0, i, t.arity(i), j);
    assert(t.id(j) != t.id(i));
    assert(ctx0[j] == attributes_in(w0, t.id(j)));
}

/// What the pass does to a node before node `i` when it looks at node
/// `i`.
proof fn lemma_looked_at_step(
    t: SyntaxTree,
    stored: AttributeMap,
    dirty: Set<(usize, usize)>,
    i: int,
    j: int,
)
    requires
        t.wf(),
        0 <= j < i < t.size(),
        in_step(t, stored, dirty, i),
        walked(t, stored, Some(dirty), i + 1) == recomputed(
            t,
            walked(t, stored, Some(dirty), i),
            i,
        ),
    ensures
        walked(t, stored, Some(dirty), i + 1).dom().contains(t.id(j)),
        walked(t, stored, Some(dirty), i + 1)[t.id(j)] == (if looked_at(t, stored, dirty, j) {
            scratch(t, i + 1)[t.id(j)]
        } else {
            from_scratch(t)[t.id(j)]
        }),
{
    let w = walked(t, stored, Some(dirty), i);
    let ctx = context_in(t, w, i);
    let w1 = walked(t, stored, Some(dirty), i + 1);
    lemma_visited_node(t, stored, dirty, i, j);
    lemma_scratch_step(t, i, j);
    lemma_declared_value(t, w, ctx, i, t.arity(i), j);
    lemma_from_scratch_value(t, j);
    assert(t.id(j) != t.id(i));
    assert(ctx[j] == attributes_in(w, t.id(j)));
    assert(ctx[j] == w[t.id(j)]);
    let d = declared(t, w, ctx, i, t.arity(i));
    assert(w1 == d.insert(t.id(i), attributes_of(t, ctx, i)));
    assert(w1.dom().contains(t.id(j)) == d.dom().contains(t.id(j)));
    assert(d.dom().contains(t.id(j)));
    assert(w1[t.id(j)] == d[t.id(j)]);
    if declares_node(t, i, t.arity(i), j) {
        assert(d[t.id(j)] == made_global(w[t.id(j)]));
        if !looked_at(t, stored, dirty, j) {
            let k = choose|k: int|
                0 <= k < t.arity(i) && #[trigger] t.kid(i, k) == j && declares_global(t, i, k);
            assert(t.kid(i, k) == j);
            assert(declared_by_parent(t, j));
            lemma_made_global_twice(own(t, j));
        }
    } else {
        assert(attributes_in(d, t.id(j)) == attributes_in(w, t.id(j)));
        assert(d[t.id(j)] == w[t.id(j)]);
    }
}

/// The pass reads of the nodes before a node that it looks at what the
/// pass from scratch reads of them, but for global variables that the
/// parent of a node declares.
proof fn lemma_contexts_alike(
    t: SyntaxTree,
    stored: AttributeMap,
    dirty: Set<(usize, usize)>,
    i: int,
)
    requires
        t.wf(),
        0 <= i < t.size(),
        in_step(t, stored, dirty, i),
    ensures
        alike(
            t,
            context_in(t, walked(t, stored, Some(dirty), i), i),
            context_in(t, scratch(t, i), i),
            i,
        ),
{
    let w = walked(t, stored, Some(dirty), i);
    let w0 = scratch(t, i);
    let ctx = context_in(t, w, i);
    let ctx0 = context_in(t, w0, i);
    assert forall|j: int| 0 <= j < i implies same_to_parent(t, j, #[trigger] ctx[j], ctx0[j]) by {
        lemma_visited_node(t, stored, dirty, i, j);
        lemma_scratch_value(t, i, j);
        lemma_from_scratch_value(t, j);
        assert(ctx[j] == attributes_in(w, t.id(j)));
        assert(ctx0[j] == attributes_in(w0, t.id(j)));
        assert(ctx[j] == w[t.id(j)]);
        assert(ctx0[j] == w0[t.id(j)]);
        if !looked_at(t, stored, dirty, j) {
            if !declared_by_parent(t, j) {
                if declared_before(t, i, j) {
                    let p = choose|p: int|
                        0 <= p < i && #[trigger] declares_node(t, p, t.arity(p), j);
                    let k = choose|k: int|
                        0 <= k < t.arity(p) && #[trigger] t.kid(p, k) == j && declares_global(
                            t,
                            p,
                            k,
                        );
                    assert(t.kid(p, k) == j);
                }
            }
        }
    }
}

/// The step of the pass at node `i`.
proof fn lemma_step(t: SyntaxTree, stored: AttributeMap, dirty: Set<(usize, usize)>, i: int)
    requires
        t.wf(),
        0 <= i < t.size(),
        cache_is_current(t, stored, dirty),
        dirt_rises(t, stored, dirty),
        in_step(t, stored, dirty, i),
    ensures
        in_step(t, stored, dirty, i + 1),
{
    let w = walked(t, stored, Some(dirty), i);
    let w0 = scratch(t, i);
    let f = from_scratch(t);
    let w1 = walked(t, stored, Some(dirty), i + 1);
    let w01 = scratch(t, i + 1);
    let ctx0 = context_in(t, w0, i);
    let ctx = context_in(t, w, i);
    assert(w01 == recomputed(t, w0, i));
    lemma_unvisited_node(t, stored, dirty, i, i);
    assert(needs_recompute(t, w, Some(dirty), i) == looked_at(t, stored, dirty, i));
    assert(w1 == visited(t, w, Some(dirty), i));
    lemma_from_scratch_value(t, i);
    if looked_at(t, stored, dirty, i) {
        assert(w1 == recomputed(t, w, i));
        lemma_contexts_alike(t, stored, dirty, i);
        lemma_attributes_alike(t, ctx, ctx0, i);
        assert(w1[t.id(i)] == attributes_of(t, ctx, i));
        assert(w01[t.id(i)] == attributes_of(t, ctx0, i));
        assert forall|j: int| 0 <= j < i + 1 implies w1.dom().contains(#[trigger] t.id(j)) && w1[t.id(
            j,
        )] == (if looked_at(t, stored, dirty, j) {
            w01[t.id(j)]
        } else {
            f[t.id(j)]
        }) by {
            if j < i {
                lemma_looked_at_step(t, stored, dirty, i, j);
            }
        }
        assert forall|j: int| i + 1 <= j < t.size() implies w1.dom().contains(#[trigger] t.id(j))
            == stored.dom().contains(t.id(j)) && attributes_in(w1, t.id(j)) == attributes_in(
            stored,
            t.id(j),
        ) by {
            lemma_unvisited_node(t, stored, dirty, i, j);
            lemma_declared_value(t, w, ctx, i, t.arity(i), j);
            assert(t.id(j) != t.id(i));
            if declares_node(t, i, t.arity(i), j) {
                let k = choose|k: int|
                    0 <= k < t.arity(i) && #[trigger] t.kid(i, k) == j && declares_global(t, i, k);
                lemma_kid_before(t, i, k);
            }
        }
    } else {
        assert(w1 == w);
        assert forall|j: int| 0 <= j < i + 1 implies w1.dom().contains(#[trigger] t.id(j)) && w1[t.id(
            j,
        )] == (if looked_at(t, stored, dirty, j) {
            w01[t.id(j)]
        } else {
            f[t.id(j)]
        }) by {
            if j == i {
                assert(stored.dom().contains(t.id(i)));
                assert(stored[t.id(i)] == f[t.id(i)]);
                assert(attributes_in(w, t.id(i)) == attributes_in(stored, t.id(i)));
            } else {
                lemma_visited_node(t, stored, dirty, i, j);
                lemma_scratch_step(t, i, j);
                if looked_at(t, stored, dirty, j) {
                    // The pass looks at the parent of a node that it looks at
                    if declares_node(t, i, t.arity(i), j) {
                        let k = choose|k: int|
                            0 <= k < t.arity(i) && #[trigger] t.kid(i, k) == j && declares_global(
                                t,
                                i,
                                k,
                            );
                        assert(looked_at(t, stored, dirty, t.kid(i, k)));
                    }
                }
            }
        }
        assert forall|j: int| i + 1 <= j < t.size() implies w1.dom().contains(#[trigger] t.id(j))
            == stored.dom().contains(t.id(j)) && attributes_in(w1, t.id(j)) == attributes_in(
            stored,
            t.id(j),
        ) by {
            lemma_unvisited_node(t, stored, dirty, i, j);
        }
    }
}

/// The pass, step by step.
proof fn lemma_steps(t: SyntaxTree, stored: AttributeMap, dirty: Set<(usize, usize)>, n: int)
    requires
        t.wf(),
        0 <= n <= t.size(),
        cache_is_current(t, stored, dirty),
        dirt_rises(t, stored, dirty),
    ensures
        in_step(t, stored, dirty, n),
    decreases n,
{
    if n > 0 {
        lemma_steps(t, stored, dirty, n - 1);
        lemma_step(t, stored, dirty, n - 1);
    }
}

/// A pass that keeps what is stored of the nodes that no dirty range
/// overlaps leaves what a pass from scratch leaves, provided that what
/// it keeps is what a pass from scratch leaves of those nodes, and that a
/// node is looked at again whenever one of its children is.
pub proof fn lemma_incremental_pass_is_from_scratch(
    t: SyntaxTree,
    stored: AttributeMap,
    dirty: Set<(usize, usize)>,
)
    requires
        t.wf(),
        cache_is_current(t, stored, dirty),
        dirt_rises(t, stored, dirty),
    ensures
        analysed(t, stored, Some(dirty)) == from_scratch(t),
{
    lemma_steps(t, stored, dirty, t.size());
    let w = walked(t, stored, Some(dirty), t.size());
    let f = from_scratch(t);
    assert forall|id: usize| t.ids().contains(id) implies w.dom().contains(id) && f.dom().contains(
        id,
    ) && w[id] == f[id] by {
        let j = choose|j: int| 0 <= j < t.size() && #[trigger] t.id(j) == id;
        lemma_from_scratch_value(t, j);
        lemma_scratch_value(t, t.size(), j);
        assert(w.dom().contains(t.id(j)));
    }
    assert(analysed(t, stored, Some(dirty)) =~= f);
}

/// A pass that is told that nothing has changed leaves what a pass from
/// scratch has left as it is.
pub proof fn lemma_pass_without_changes_keeps_all(t: SyntaxTree)
    requires
        t.wf(),
    ensures
        analysed(t, from_scratch(t), Some(Set::empty())) == from_scratch(t),
{
    let f = from_scratch(t);
    let none = Set::<(usize, usize)>::empty();
    assert forall|i: int| 0 <= i < t.size() implies !looked_at(t, f, none, i) by {
        lemma_from_scratch_value(t, i);
    }
    assert forall|p: int, k: int|
        0 <= p < t.size() && 0 <= k < t.arity(p) && looked_at(
            t,
            f,
            none,
            #[trigger] t.kid(p, k),
        ) implies looked_at(t, f, none, p) by {
        lemma_kid_before(t, p, k);
    }
    lemma_incremental_pass_is_from_scratch(t, f, none);
}

} // verus!
