//! The safety check.
//!
//! A variable of a statement is safe when it is bound by the statement:
//! by a positive literal of the body, or by an equation whose other side
//! is bound. The dependency pairs of a statement say what binds what; the
//! safe variables are the least set that is closed under the pairs.

use crate::dependency::{clone_pairs, pairs_view, push_pair, Dependency, Names};
use crate::diagnostics::diagnostic_codes::DiagnosticsCode;
use crate::diagnostics::diagnostic_run_data::{
    linter_problem, reported, DiagnosticsRunData, RunFacts,
};
use crate::document::DocumentData;
use crate::node_kind::NodeKind;
use crate::protocol::{DiagnosticFacts, DiagnosticSeverity};
use crate::semantics::encoding_semantic::EncodingSemantics;
use crate::semantics::pass::{attributes_in, AttributeMap};
use crate::semantics::special_literal_semantic::SpecialLiteralFacts;
use crate::semantics::statement_semantic::Attributes;
use crate::syntax_tree::SyntaxTree;
use crate::varset::VarSet;
use vstd::prelude::*;
use vstd::string::StringExecFns;

verus! {

/// The variables that the first `n` pairs mention.
pub open spec fn mentioned(deps: Seq<Dependency>, n: int) -> Names
    decreases n,
{
    if n <= 0 {
        Set::empty()
    } else {
        mentioned(deps, n - 1).union(deps[n - 1].0).union(deps[n - 1].1)
    }
}

/// All variables that the pairs mention.
pub open spec fn all_mentioned(deps: Seq<Dependency>) -> Names {
    mentioned(deps, deps.len() as int)
}

/// A pair with only those of its variables that are members of `set`.
pub open spec fn restricted(pair: Dependency, set: Names) -> Dependency {
    (pair.0.intersect(set), pair.1.intersect(set))
}

/// Whether a pair mentions no variable.
pub open spec fn is_void(pair: Dependency) -> bool {
    pair.0 == Set::<Seq<char>>::empty() && pair.1 == Set::<Seq<char>>::empty()
}

/// The first `n` pairs, each with only those of its variables that are
/// members of `set`; a pair that is left with no variable is dropped.
pub open spec fn projected(deps: Seq<Dependency>, set: Names, n: int) -> Seq<Dependency>
    decreases n,
{
    if n <= 0 {
        Seq::empty()
    } else {
        let before = projected(deps, set, n - 1);
        let pair = restricted(deps[n - 1], set);
        if is_void(pair) {
            before
        } else {
            before.push(pair)
        }
    }
}

/// All pairs projected to `set`.
pub open spec fn all_projected(deps: Seq<Dependency>, set: Names) -> Seq<Dependency> {
    projected(deps, set, deps.len() as int)
}

/// Whether `set` is closed under the pairs: it holds what a pair
/// provides whenever it holds all that the pair depends on.
pub open spec fn closed(deps: Seq<Dependency>, set: Names) -> bool {
    forall|i: int|
        0 <= i < deps.len() ==> ((#[trigger] deps[i]).1.subset_of(set) ==> deps[i].0.subset_of(set))
}

/// The safe variables of the pairs: the variables that every set holds
/// that is closed under the pairs.
pub open spec fn safe_set(deps: Seq<Dependency>) -> Names {
    Set::new(|x: Seq<char>| forall|s: Names| #[trigger] closed(deps, s) ==> s.contains(x))
}

/// One more round of the procedure on the first `n` pairs: the set with
/// what every pair provides whose dependencies it holds.
pub open spec fn one_round(deps: Seq<Dependency>, set: Names, n: int) -> Names
    decreases n,
{
    if n <= 0 {
        set
    } else {
        let before = one_round(deps, set, n - 1);
        if deps[n - 1].1.subset_of(set) {
            before.union(deps[n - 1].0)
        } else {
            before
        }
    }
}

/// The pairs that the procedure works on: the pairs themselves for the
/// scope of the statement, and for a scope inside it the pairs projected
/// to the variables that are not global.
pub open spec fn effective(deps: Seq<Dependency>, global_vars: Names, global: bool) -> Seq<
    Dependency,
> {
    if global {
        deps
    } else {
        all_projected(deps, all_mentioned(deps).difference(global_vars))
    }
}

/// The number of flags that are set.
pub open spec fn count_set(flags: Seq<bool>) -> nat
    decreases flags.len(),
{
    if flags.len() == 0 {
        0
    } else {
        count_set(flags.drop_last()) + (if flags.last() {
            1nat
        } else {
            0nat
        })
    }
}

/// No more flags are set than there are.
pub proof fn lemma_count_set_bounded(flags: Seq<bool>)
    ensures
        count_set(flags) <= flags.len(),
    decreases flags.len(),
{
    if flags.len() > 0 {
        lemma_count_set_bounded(flags.drop_last());
    }
}

/// Setting a flag that is not set sets one more flag.
pub proof fn lemma_count_set_update(flags: Seq<bool>, i: int)
    requires
        0 <= i < flags.len(),
        !flags[i],
    ensures
        count_set(flags.update(i, true)) == count_set(flags) + 1,
    decreases flags.len(),
{
    let after = flags.update(i, true);
    if i == flags.len() - 1 {
        assert(after.drop_last() =~= flags.drop_last());
    } else {
        assert(after.drop_last() =~= flags.drop_last().update(i, true));
        lemma_count_set_update(flags.drop_last(), i);
    }
}

/// The safe set is closed under the pairs.
pub proof fn lemma_safe_set_closed(deps: Seq<Dependency>)
    ensures
        closed(deps, safe_set(deps)),
{
    let safe = safe_set(deps);
    assert forall|i: int| 0 <= i < deps.len() && (#[trigger] deps[i]).1.subset_of(
        safe,
    ) implies deps[i].0.subset_of(safe) by {
        assert forall|x: Seq<char>| deps[i].0.contains(x) implies safe.contains(x) by {
            assert forall|s: Names| #[trigger] closed(deps, s) implies s.contains(x) by {
                assert forall|y: Seq<char>| deps[i].1.contains(y) implies s.contains(y) by {
                    assert(safe.contains(y));
                }
                assert(deps[i].1.subset_of(s));
                assert(deps[i].0.subset_of(s));
            }
        }
    }
}

/// A round keeps what the set holds, and adds only what pairs provide
/// whose dependencies the set holds.
pub proof fn lemma_one_round(deps: Seq<Dependency>, set: Names, n: int)
    requires
        0 <= n <= deps.len(),
    ensures
        set.subset_of(one_round(deps, set, n)),
        closed(deps, set) ==> one_round(deps, set, n) == set,
    decreases n,
{
    if n > 0 {
        lemma_one_round(deps, set, n - 1);
        if closed(deps, set) {
            if deps[n - 1].1.subset_of(set) {
                assert(deps[n - 1].0.subset_of(set));
                assert(set.union(deps[n - 1].0) =~= set);
            }
        }
    }
}

/// The safe-variable set is a fixed point: applying one more round of the
/// procedure to it yields the same set.
pub proof fn lemma_safe_set_is_fixed_point(deps: Seq<Dependency>)
    ensures
        one_round(deps, safe_set(deps), deps.len() as int) == safe_set(deps),
{
    lemma_safe_set_closed(deps);
    lemma_one_round(deps, safe_set(deps), deps.len() as int);
}

/// Calculates the safe set for a list of dependencies: the least set of
/// variables that holds what a pair provides whenever it holds all that
/// the pair depends on. For a scope inside a statement (`global` not set)
/// the pairs are first projected to the variables that are not global.
/// Returns the safe set and all variables that the dependencies mention.
pub fn calculate_safe_set(
    dependencies: &Vec<(VarSet, VarSet)>,
    global_vars: &VarSet,
    global: bool,
) -> (res: (VarSet, VarSet))
    ensures
        res.0@ == safe_set(effective(pairs_view(dependencies@), global_vars@, global)),
        res.1@ == all_mentioned(pairs_view(dependencies@)),
        closed(effective(pairs_view(dependencies@), global_vars@, global), res.0@),
{
    let ghost given = pairs_view(dependencies@);
    // First collect all variables contained in the dependencies
    let mut vars_in_dependency = VarSet::new();
    let mut k: usize = 0;
    while k < dependencies.len()
        invariant
            k <= dependencies.len(),
            given == pairs_view(dependencies@),
            vars_in_dependency@ == mentioned(given, k as int),
        decreases dependencies.len() - k,
    {
        vars_in_dependency.extend(&dependencies[k].0);
        vars_in_dependency.extend(&dependencies[k].1);
        k = k + 1;
    }
    // If we are not in a global context, change the dependencies according to vars \ G
    let dep = if !global {
        get_dependencies_only_occuring_in_set(
            dependencies,
            vars_in_dependency.difference(global_vars),
        )
    } else {
        clone_pairs(dependencies)
    };
    let ghost eff = pairs_view(dep@);
    let n = dep.len();
    // A pair that was used is not looked at again
    let mut used: Vec<bool> = Vec::new();
    let mut j: usize = 0;
    while j < n
        invariant
            j <= n,
            used@.len() == j,
            forall|i: int| 0 <= i < j ==> !used@[i],
            count_set(used@) == 0,
        decreases n - j,
    {
        let ghost before = used@;
        used.push(false);
        proof {
            assert(used@.drop_last() =~= before);
        }
        j = j + 1;
    }
    let mut safe_set_found = VarSet::new();
    let mut marked: usize = 0;
    let mut finished = false;
    while !finished
        invariant
            n == dep.len(),
            eff == pairs_view(dep@),
            eff.len() == n,
            used@.len() == n,
            marked == count_set(used@),
            marked <= n,
            forall|i: int| 0 <= i < n && used@[i] ==> (#[trigger] eff[i]).0.subset_of(safe_set_found@),
            forall|s: Names| #[trigger] closed(eff, s) ==> safe_set_found@.subset_of(s),
            finished ==> closed(eff, safe_set_found@),
        decreases (n - marked) + (if finished { 0int } else { 1int }),
    {
        let ghost safe_at_start = safe_set_found@;
        let ghost marked_at_start = marked;
        let mut changed = false;
        let mut i: usize = 0;
        // Go through the dependencies list and find any elements we have all dependencies for
        while i < n
            invariant
                i <= n,
                n == dep.len(),
                eff == pairs_view(dep@),
                eff.len() == n,
                used@.len() == n,
                marked == count_set(used@),
                marked <= n,
                marked >= marked_at_start,
                changed ==> marked > marked_at_start,
                forall|m: int|
                    0 <= m < n && used@[m] ==> (#[trigger] eff[m]).0.subset_of(safe_set_found@),
                forall|s: Names| #[trigger] closed(eff, s) ==> safe_set_found@.subset_of(s),
                !changed ==> safe_set_found@ == safe_at_start,
                !changed ==> forall|m: int|
                    0 <= m < i && !used@[m] ==> !(#[trigger] eff[m]).1.subset_of(safe_set_found@),
            decreases n - i,
        {
            // If all dependencies are in our safe set, then the dependency requirements are met
            if !used[i] && dep[i].1.is_subset(&safe_set_found) {
                let ghost before = safe_set_found@;
                let ghost flags = used@;
                // Everything that is provided is thus also safe
                safe_set_found.extend(&dep[i].0);
                // Do not look at this dependency again
                used.set(i, true);
                proof {
                    lemma_count_set_update(flags, i as int);
                    lemma_count_set_bounded(used@);
                    assert(eff[i as int] == (dep@[i as int].0@, dep@[i as int].1@));
                    assert forall|s: Names| #[trigger] closed(eff, s) implies safe_set_found@.subset_of(
                        s,
                    ) by {
                        assert(before.subset_of(s));
                        assert(eff[i as int].1.subset_of(s));
                        assert(eff[i as int].0.subset_of(s));
                    }
                    assert forall|m: int| 0 <= m < n && used@[m] implies (#[trigger] eff[m]).0.subset_of(
                        safe_set_found@,
                    ) by {
                        if m != i {
                            assert(flags[m]);
                            assert(eff[m].0.subset_of(before));
                        }
                    }
                }
                marked = marked + 1;
                changed = true;
            } else {
                proof {
                    assert(eff[i as int] == (dep@[i as int].0@, dep@[i as int].1@));
                }
            }
            i = i + 1;
        }
        // Stop checking once we cannot find anything that we can use
        if !changed {
            finished = true;
            proof {
                assert forall|m: int|
                    0 <= m < eff.len() && (#[trigger] eff[m]).1.subset_of(
                        safe_set_found@,
                    ) implies eff[m].0.subset_of(safe_set_found@) by {
                    assert(used@[m]);
                }
            }
        }
    }
    proof {
        assert(safe_set_found@ =~= safe_set(eff));
    }
    (safe_set_found, vars_in_dependency)
}

/// The dependencies with only those of their variables that are members of
/// `set`; a dependency that is left with no variable is dropped.
pub fn get_dependencies_only_occuring_in_set(dependencies: &Vec<(VarSet, VarSet)>, set: VarSet)
    -> (new_dependencies: Vec<(VarSet, VarSet)>)
    ensures
        pairs_view(new_dependencies@) == all_projected(pairs_view(dependencies@), set@),
{
    let ghost given = pairs_view(dependencies@);
    let mut new_dependencies: Vec<(VarSet, VarSet)> = Vec::new();
    let mut k: usize = 0;
    proof {
        assert(pairs_view(new_dependencies@) =~= Seq::<Dependency>::empty());
    }
    while k < dependencies.len()
        invariant
            k <= dependencies.len(),
            given == pairs_view(dependencies@),
            pairs_view(new_dependencies@) == projected(given, set@, k as int),
        decreases dependencies.len() - k,
    {
        let pt = dependencies[k].0.intersection(&set);
        let dt = dependencies[k].1.intersection(&set);
        if !pt.is_empty() || !dt.is_empty() {
            push_pair(&mut new_dependencies, pt, dt);
        }
        k = k + 1;
    }
    new_dependencies
}

/// The variables that are unsafe in the scope of a statement with the
/// given attributes: those that its dependencies mention, once these are
/// projected to the global variables, and that are not safe.
pub open spec fn unsafe_global(a: Attributes) -> Names {
    let deps = all_projected(a.dependencies, a.global_vars);
    all_mentioned(deps).difference(safe_set(deps))
}

/// The variables that the dependencies of a statement mention once they
/// are projected to its global variables.
pub open spec fn global_mentioned(a: Attributes) -> Names {
    all_mentioned(all_projected(a.dependencies, a.global_vars))
}

/// The variables that are unsafe in a scope inside a statement and that
/// the dependencies of the statement do not mention.
pub open spec fn unsafe_local(a: Attributes, literal: SpecialLiteralFacts) -> Names {
    let deps = literal.local_dependency;
    all_mentioned(deps).difference(safe_set(effective(deps, a.global_vars, false))).difference(
        global_mentioned(a),
    )
}

/// The variables that are unsafe in one of the first `n` scopes inside a
/// statement.
pub open spec fn unsafe_locals(a: Attributes, n: int) -> Names
    decreases n,
{
    if n <= 0 {
        Set::empty()
    } else {
        unsafe_locals(a, n - 1).union(unsafe_local(a, a.special_literals[n - 1]))
    }
}

/// The unsafe variables of a statement with the given attributes.
pub open spec fn unsafe_vars(a: Attributes) -> Names {
    unsafe_global(a).union(unsafe_locals(a, a.special_literals.len() as int))
}

/// What is said of an unsafe variable.
pub open spec fn unsafe_message(name: Seq<char>) -> Seq<char> {
    "'"@ + name + "' is unsafe"@
}

/// The problem that the variable at node `j` is unsafe.
pub open spec fn unsafe_problem(t: SyntaxTree, j: int) -> DiagnosticFacts {
    linter_problem(
        t.nodes@[j].range,
        DiagnosticSeverity::Error,
        DiagnosticsCode::UnsafeVariable.code(),
        unsafe_message(t.nodes@[j].text@),
    )
}

/// The run after every occurence of one of `names` among the nodes from
/// `from` up to `to` was found, in the order of the document.
pub open spec fn occurences_reported(t: SyntaxTree, names: Names, run: RunFacts, from: int, to: int)
    -> RunFacts
    decreases to - from,
{
    if to <= from {
        run
    } else {
        let before = occurences_reported(t, names, run, from, to - 1);
        if t.kind(to - 1) == NodeKind::Variable && names.contains(t.nodes@[to - 1].text@) {
            reported(before, unsafe_problem(t, to - 1))
        } else {
            before
        }
    }
}

/// The run after the statement at node `i` was checked: every occurence
/// of an unsafe variable in the statement was found.
pub open spec fn statement_checked(t: SyntaxTree, s: AttributeMap, run: RunFacts, i: int)
    -> RunFacts {
    occurences_reported(
        t,
        unsafe_vars(attributes_in(s, t.id(i))),
        run,
        t.nodes@[i].first as int,
        i + 1,
    )
}

/// The run after the statements among the first `n` nodes were checked.
pub open spec fn statements_checked(t: SyntaxTree, s: AttributeMap, run: RunFacts, n: int)
    -> RunFacts
    decreases n,
{
    if n <= 0 {
        run
    } else {
        let before = statements_checked(t, s, run, n - 1);
        if t.kind(n - 1) == NodeKind::Statement {
            statement_checked(t, s, before, n - 1)
        } else {
            before
        }
    }
}

/// Nothing more is reported in a run in which as many problems were
/// reported as may be.
pub proof fn lemma_full_run_reports_nothing(
    t: SyntaxTree,
    names: Names,
    run: RunFacts,
    from: int,
    to: int,
)
    requires
        run.current >= run.maximum,
    ensures
        occurences_reported(t, names, run, from, to) == run,
    decreases to - from,
{
    if to > from {
        lemma_full_run_reports_nothing(t, names, run, from, to - 1);
    }
}

/// No statement is reported on in a run in which as many problems were
/// reported as may be.
pub proof fn lemma_full_run_checks_nothing(
    t: SyntaxTree,
    s: AttributeMap,
    run: RunFacts,
    n: int,
    m: int,
)
    requires
        0 <= n <= m,
        statements_checked(t, s, run, n).current >= statements_checked(t, s, run, n).maximum,
    ensures
        statements_checked(t, s, run, m) == statements_checked(t, s, run, n),
    decreases m - n,
{
    if n < m {
        lemma_full_run_checks_nothing(t, s, run, n, m - 1);
        let before = statements_checked(t, s, run, m - 1);
        lemma_full_run_reports_nothing(
            t,
            unsafe_vars(attributes_in(s, t.id(m - 1))),
            before,
            t.nodes@[m - 1].first as int,
            m,
        );
    }
}

/// The unsafe variables of a statement whose attributes are `bundle`.
fn find_unsafe_vars(bundle: &crate::semantics::statement_semantic::StatementSemantics) -> (res:
    VarSet)
    ensures
        res@ == unsafe_vars(bundle@),
{
    let dep = &bundle.dependencies;
    // Find all global variables
    let global_vars = &bundle.global_vars;
    let global_dep = get_dependencies_only_occuring_in_set(dep, global_vars.clone());
    let (global_safe_set, vars_in_dependency) = calculate_safe_set(&global_dep, global_vars, true);
    let mut unsafe_set = vars_in_dependency.difference(&global_safe_set);
    let ghost global_part = unsafe_set@;
    // Calculate for local contexts, and combine the lists of all unsafe variables in the
    // statement
    let mut l: usize = 0;
    proof {
        assert(global_part.union(unsafe_locals(bundle@, 0)) =~= global_part);
    }
    while l < bundle.special_literals.len()
        invariant
            l <= bundle.special_literals.len(),
            global_vars@ == bundle@.global_vars,
            global_part == unsafe_global(bundle@),
            vars_in_dependency@ == global_mentioned(bundle@),
            unsafe_set@ == global_part.union(unsafe_locals(bundle@, l as int)),
        decreases bundle.special_literals.len() - l,
    {
        let literal = &bundle.special_literals[l];
        let (local_safe_set, local_vars_in_dependency) = calculate_safe_set(
            &literal.local_dependency,
            global_vars,
            false,
        );
        let unsafe_here = local_vars_in_dependency.difference(&local_safe_set).difference(
            &vars_in_dependency,
        );
        proof {
            assert(bundle@.special_literals[l as int] == bundle.special_literals@[l as int]@);
            assert(pairs_view(literal.local_dependency@)
                == bundle@.special_literals[l as int].local_dependency);
            assert(unsafe_here@ =~= unsafe_local(bundle@, bundle@.special_literals[l as int]));
            assert(global_part.union(unsafe_locals(bundle@, l as int)).union(unsafe_here@)
                =~= global_part.union(unsafe_locals(bundle@, l + 1)));
        }
        unsafe_set.extend(&unsafe_here);
        l = l + 1;
    }
    unsafe_set
}

/// Check if the statement at node `i` is safe, and report every occurence
/// of a variable in it that is not.
pub fn check_safety_of_statement(
    tree: &SyntaxTree,
    i: usize,
    semantics: &EncodingSemantics,
    diagnostics: &mut DiagnosticsRunData,
)
    requires
        tree.wf(),
        i < tree.size(),
    ensures
        final(diagnostics)@ == statement_checked(
            *tree,
            semantics.attribute_map(),
            old(diagnostics)@,
            i as int,
        ),
{
    let statement_semantics = semantics.get_statement_semantics_for_node(tree.nodes[i].id);
    let unsafe_vars = find_unsafe_vars(&statement_semantics);
    proof {
        assert(tree.node_wf(i as int));
        tree.lemma_size_bounded();
    }
    // Create a diagnostic for every variable of the statement that is in the unsafe list
    let mut j: usize = tree.nodes[i].first;
    while j <= i
        invariant
            tree.nodes@[i as int].first <= j <= i + 1,
            i < tree.size(),
            tree.size() <= usize::MAX,
            diagnostics@ == occurences_reported(
                *tree,
                unsafe_vars@,
                old(diagnostics)@,
                tree.nodes@[i as int].first as int,
                j as int,
            ),
        decreases i + 1 - j,
    {
        if tree.nodes[j].kind == NodeKind::Variable && unsafe_vars.contains(&tree.nodes[j].text) {
            let message = String::from_str("'").concat(tree.nodes[j].text.as_str()).concat(
                "' is unsafe",
            );
            diagnostics.create_linter_diagnostic(
                tree.nodes[j].range,
                DiagnosticSeverity::Error,
                DiagnosticsCode::UnsafeVariable.into_i32(),
                message,
            );
        }
        j = j + 1;
    }
}

/// Go through the tree and analyze the statements.
pub fn statement_analysis(diagnostic_data: &mut DiagnosticsRunData, document: &DocumentData)
    requires
        document.wf(),
    ensures
        final(diagnostic_data)@ == statements_checked(
            document.syntax,
            document.semantics.attribute_map(),
            old(diagnostic_data)@,
            document.syntax.size(),
        ),
{
    let tree = &document.syntax;
    let n = tree.len();
    let mut i: usize = 0;
    while i < n
        invariant
            tree.wf(),
            *tree == document.syntax,
            n == tree.size(),
            i <= n,
            diagnostic_data@ == statements_checked(
                *tree,
                document.semantics.attribute_map(),
                old(diagnostic_data)@,
                i as int,
            ),
        decreases n - i,
    {
        // If we reached the error limit stop analyzing further
        if diagnostic_data.current_number_of_problems
            >= diagnostic_data.maximum_number_of_problems {
            proof {
                lemma_full_run_checks_nothing(
                    *tree,
                    document.semantics.attribute_map(),
                    old(diagnostic_data)@,
                    i as int,
                    n as int,
                );
            }
            return ;
        }
        if tree.nodes[i].kind == NodeKind::Statement {
            check_safety_of_statement(tree, i, &document.semantics, diagnostic_data);
        }
        i = i + 1;
    }
}

} // verus!
