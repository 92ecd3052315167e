use crate::dirty_ranges::{dirty_intervals, DirtyRanges};
use crate::semantics::error_semantic::ErrorFacts;
use crate::semantics::missing_semantic::MissingFacts;
use crate::semantics::pass::{
    all_within_vars, analysed, attributes_in, context_in, lemma_ids_before_next,
    lemma_recomputed_ignores_own, lemma_recomputed_keeps, needs_recompute, recomputed, visited,
    walked, AttributeMap,
};
use crate::semantics::predicate_occurence_semantics::PredicateOccurenceSemantics;
use crate::semantics::predicate_semantics::{counted, indexed, PredicateSemantics, Signature};
use crate::semantics::statement_semantic::{Attributes, StatementSemantics};
use crate::semantics::syntax::{errors_in, missing_in, Syntax};
use crate::semantics::term_semantic::{is_term_kind, term_of, TermSemantic};
use crate::syntax_tree::SyntaxTree;
use dashmap::{DashMap, DashSet};
use vstd::prelude::*;

verus! {

#[verifier::external_type_specification]
#[verifier::external_body]
#[verifier::reject_recursive_types(K)]
#[verifier::reject_recursive_types(V)]
#[verifier::reject_recursive_types(S)]
pub struct ExDashMap<K, V, S>(DashMap<K, V, S>);

#[verifier::external_type_specification]
#[verifier::external_body]
#[verifier::reject_recursive_types(K)]
#[verifier::reject_recursive_types(S)]
pub struct ExDashSet<K, S>(DashSet<K, S>);

/// The entries of the map from node identity to attribute bundle: for
/// every key the attributes that the bundle stored for it holds.
pub uninterp spec fn store_entries(m: DashMap<usize, StatementSemantics>) -> Map<
    usize,
    Attributes,
>;

/// The members of a set of node identities.
pub uninterp spec fn id_members(s: DashSet<usize>) -> Set<usize>;

/// A map without entries, from `DashMap::new`.
#[verifier::external_body]
pub(crate) fn store_new() -> (store: DashMap<usize, StatementSemantics>)
    ensures
        store_entries(store) =~= Map::empty(),
{
    DashMap::new()
}

/// Whether the map has an entry for `id`, from `DashMap::contains_key`.
#[verifier::external_body]
pub(crate) fn store_contains(store: &DashMap<usize, StatementSemantics>, id: usize) -> (found: bool)
    ensures
        found == store_entries(*store).dom().contains(id),
{
    store.contains_key(&id)
}

/// A copy of the bundle stored for `id`, from `DashMap::view`: the method
/// hands the stored value to the closure where the key has an entry, and
/// returns what the closure returns; the closure copies the bundle.
#[verifier::external_body]
pub(crate) fn store_lookup(store: &DashMap<usize, StatementSemantics>, id: usize) -> (found: Option<
    StatementSemantics,
>)
    ensures
        found.is_some() == store_entries(*store).dom().contains(id),
        found.is_some() ==> found.unwrap()@ == store_entries(*store)[id],
{
    store.view(&id, |_, bundle| bundle.clone())
}

/// Stores `bundle` for `id`, in place of what was stored for it, with
/// `DashMap::insert`.
#[verifier::external_body]
pub(crate) fn store_insert(
    store: &mut DashMap<usize, StatementSemantics>,
    id: usize,
    bundle: StatementSemantics,
)
    ensures
        store_entries(*final(store)) == store_entries(*old(store)).insert(id, bundle@),
{
    store.insert(id, bundle);
}

/// Drops the entry for `id`, if there is one, with `DashMap::remove`.
#[verifier::external_body]
pub(crate) fn store_remove(store: &mut DashMap<usize, StatementSemantics>, id: usize)
    ensures
        store_entries(*final(store)) == store_entries(*old(store)).remove(id),
{
    store.remove(&id);
}

/// The keys of the map, each once, in the order in which `DashMap::iter`
/// walks the entries; that order is not specified.
#[verifier::external_body]
pub(crate) fn store_keys(store: &DashMap<usize, StatementSemantics>) -> (keys: Vec<usize>)
    ensures
        keys@.to_set() == store_entries(*store).dom(),
        keys@.no_duplicates(),
{
    store.iter().map(|entry| *entry.key()).collect()
}

/// A set without members, from `DashSet::new`.
#[verifier::external_body]
pub(crate) fn ids_new() -> (ids: DashSet<usize>)
    ensures
        id_members(ids) =~= Set::empty(),
{
    DashSet::new()
}

/// Adds `id` to the set with `DashSet::insert`.
#[verifier::external_body]
pub(crate) fn ids_insert(ids: &mut DashSet<usize>, id: usize)
    ensures
        id_members(*final(ids)) == id_members(*old(ids)).insert(id),
{
    ids.insert(id);
}

/// Takes `id` out of the set with `DashSet::remove`.
#[verifier::external_body]
pub(crate) fn ids_remove(ids: &mut DashSet<usize>, id: usize)
    ensures
        id_members(*final(ids)) == id_members(*old(ids)).remove(id),
{
    ids.remove(&id);
}

/// The members of the set, each once, in the order in which
/// `DashSet::iter` walks them; that order is not specified.
#[verifier::external_body]
pub(crate) fn ids_items(ids: &DashSet<usize>) -> (items: Vec<usize>)
    ensures
        items@.to_set() == id_members(*ids),
        items@.no_duplicates(),
{
    ids.iter().map(|id| *id).collect()
}

/// The members of a sequence with one more element.
pub proof fn lemma_push_to_set(s: Seq<usize>, x: usize)
    ensures
        s.push(x).to_set() == s.to_set().insert(x),
{
    let t = s.push(x);
    assert forall|v: usize| t.to_set().contains(v) <==> s.to_set().insert(x).contains(v) by {
        if t.to_set().contains(v) {
            let i = choose|i: int| 0 <= i < t.len() && t[i] == v;
            if i < s.len() {
                assert(s[i] == v);
            }
        }
        if s.to_set().contains(v) {
            let i = choose|i: int| 0 <= i < s.len() && s[i] == v;
            assert(t[i] == v);
        }
        if v == x {
            assert(t[s.len() as int] == v);
        }
    }
    assert(t.to_set() =~= s.to_set().insert(x));
}

/// The ranges that a pass is told of: none where it is told to look at
/// every node.
pub open spec fn dirty_view(changed_ranges: Option<DirtyRanges>) -> Option<Set<(usize, usize)>> {
    match changed_ranges {
        Some(ranges) => Some(dirty_intervals(ranges)),
        None => None,
    }
}

/// Each of the semantic analyzers implements what it does on discovering
/// a node, and what it does before a pass starts.
pub trait Semantics {
    /// What the analyzer needs to hold before it visits node `i`.
    spec fn ready(tree: SyntaxTree, i: int, semantics: EncodingSemantics) -> bool;

    /// What the analyzer makes of `before` when it visits node `i`.
    spec fn visits(
        tree: SyntaxTree,
        i: int,
        before: EncodingSemantics,
        after: EncodingSemantics,
    ) -> bool;

    /// What the analyzer makes of `before` when a pass starts.
    spec fn starts(before: EncodingSemantics, after: EncodingSemantics) -> bool;

    /// On discovering a node this function gets called and the analyzer
    /// decides what this means.
    fn on_node(tree: &SyntaxTree, i: usize, semantics: &mut EncodingSemantics)
        requires
            tree.wf(),
            i < tree.size(),
            Self::ready(*tree, i as int, *old(semantics)),
        ensures
            Self::visits(*tree, i as int, *old(semantics), *final(semantics)),
    ;

    /// This can be used if any cleanup of previous iterations needs to be
    /// done and is called just before analysis starts.
    fn startup(semantics: &mut EncodingSemantics)
        ensures
            Self::starts(*old(semantics), *final(semantics)),
    ;
}

/// Encoding semantics are all the information needed about the program
/// that then can be used by the other parts of the language server.
#[derive(Debug)]
pub struct EncodingSemantics {
    /// The syntax problems that the parser marked in the tree.
    pub syntax: Syntax,
    /// The predicates of the program and where they occur.
    pub predicate_semantics: PredicateSemantics,
    /// The attribute bundle of every node, by the identity of the node.
    pub statement_semantics: DashMap<usize, StatementSemantics>,
    /// The identities that had a bundle when the last pass ended.
    pub old_node_ids_encountered: DashSet<usize>,
    /// The identities with a bundle that the running pass has not met yet.
    pub node_ids_encountered: DashSet<usize>,
}

impl EncodingSemantics {
    /// The attributes stored, by node identity.
    pub open spec fn attribute_map(self) -> AttributeMap {
        store_entries(self.statement_semantics)
    }

    /// The attributes known of the node with identity `id`: those stored
    /// for it, or none.
    pub open spec fn attributes(self, id: usize) -> Attributes {
        attributes_in(self.attribute_map(), id)
    }

    /// The attributes known of the first `n` nodes of a tree, by index.
    pub open spec fn context(self, tree: SyntaxTree, n: int) -> Seq<Attributes> {
        context_in(tree, self.attribute_map(), n)
    }

    /// The identities remembered from the last pass.
    pub open spec fn remembered(self) -> Set<usize> {
        id_members(self.old_node_ids_encountered)
    }

    /// The identities remembered from the last pass that the running pass
    /// has not met.
    pub open spec fn pending(self) -> Set<usize> {
        id_members(self.node_ids_encountered)
    }

    /// What holds of the store between passes: the identities remembered
    /// from the last pass are those that have a bundle, and every bundle
    /// binds and needs only variables of its node.
    pub open spec fn inv(self) -> bool {
        &&& self.remembered() == self.attribute_map().dom()
        &&& all_within_vars(self.attribute_map())
    }

    /// What holds while a pass runs, when it has visited the first `i`
    /// nodes of `tree`, having started from the attributes `before`.
    pub open spec fn during(
        self,
        tree: SyntaxTree,
        before: AttributeMap,
        dirty: Option<Set<(usize, usize)>>,
        i: int,
    ) -> bool {
        &&& self.attribute_map() == walked(tree, before, dirty, i)
        &&& all_within_vars(self.attribute_map())
        &&& self.pending() == before.dom().difference(tree.ids_before(i))
        &&& self.syntax.errors() == errors_in(tree, i)
        &&& self.syntax.missing() == missing_in(tree, i)
        &&& self.predicate_semantics.index() == indexed(tree, i)
        &&& self.predicate_semantics.arities() == counted(tree, i)
    }

    pub fn new() -> (semantics: EncodingSemantics)
        ensures
            semantics.inv(),
            semantics.attribute_map() == Map::<usize, Attributes>::empty(),
            semantics.syntax.errors() == Seq::<ErrorFacts>::empty(),
            semantics.syntax.missing() == Seq::<MissingFacts>::empty(),
            semantics.predicate_semantics.index() == Map::<Signature, Seq<PredicateOccurenceSemantics>>::empty(),
            semantics.predicate_semantics.arities() == Map::<usize, usize>::empty(),
    {
        let semantics = EncodingSemantics {
            syntax: Syntax::new(),
            predicate_semantics: PredicateSemantics::new(),
            statement_semantics: store_new(),
            old_node_ids_encountered: ids_new(),
            node_ids_encountered: ids_new(),
        };
        proof {
            assert(semantics.attribute_map() =~= Map::<usize, Attributes>::empty());
            assert(semantics.predicate_semantics.index() =~= Map::<Signature, Seq<PredicateOccurenceSemantics>>::empty());
            assert(semantics.predicate_semantics.arities() =~= Map::<usize, usize>::empty());
        }
        semantics
    }

    /// Get a copy of the statement semantics for a specific node; if none
    /// were found a new StatementSemantics object will be generated.
    pub fn get_statement_semantics_for_node(&self, node_id: usize) -> (bundle: StatementSemantics)
        ensures
            bundle@ == self.attributes(node_id),
    {
        match store_lookup(&self.statement_semantics, node_id) {
            Some(bundle) => bundle,
            None => StatementSemantics::new(),
        }
    }

    /// Stores `bundle` for the node with identity `node_id`, in place of
    /// what was stored for it.
    pub fn set_statement_semantics_for_node(&mut self, node_id: usize, bundle: StatementSemantics)
        ensures
            final(self).attribute_map() == old(self).attribute_map().insert(node_id, bundle@),
            final(self).syntax == old(self).syntax,
            final(self).predicate_semantics == old(self).predicate_semantics,
            final(self).old_node_ids_encountered == old(self).old_node_ids_encountered,
            final(self).node_ids_encountered == old(self).node_ids_encountered,
    {
        store_insert(&mut self.statement_semantics, node_id, bundle);
        proof {
            assert(self.attribute_map() =~= old(self).attribute_map().insert(node_id, bundle@));
        }
    }

    /// This is called just before analysis starts: the identities that
    /// the last pass left are all pending, and what is rebuilt on every
    /// pass is forgotten.
    pub fn startup(&mut self)
        ensures
            final(self).attribute_map() == old(self).attribute_map(),
            final(self).pending() == old(self).remembered(),
            final(self).syntax.errors() == Seq::<ErrorFacts>::empty(),
            final(self).syntax.missing() == Seq::<MissingFacts>::empty(),
            final(self).predicate_semantics.index() =~= Map::<Signature, Seq<PredicateOccurenceSemantics>>::empty(),
            final(self).predicate_semantics.arities() =~= Map::<usize, usize>::empty(),
    {
        let items = ids_items(&self.old_node_ids_encountered);
        let mut pending = ids_new();
        let mut k: usize = 0;
        proof {
            assert(items@.take(0).to_set() =~= Set::<usize>::empty());
        }
        while k < items.len()
            invariant
                k <= items.len(),
                id_members(pending) == items@.take(k as int).to_set(),
            decreases items.len() - k,
        {
            ids_insert(&mut pending, items[k]);
            proof {
                assert(items@.take(k + 1) =~= items@.take(k as int).push(items@[k as int]));
                lemma_push_to_set(items@.take(k as int), items@[k as int]);
            }
            k = k + 1;
        }
        proof {
            assert(items@.take(items.len() as int) =~= items@);
        }
        self.node_ids_encountered = pending;
        self.old_node_ids_encountered = ids_new();
        Syntax::startup(self);
        PredicateSemantics::startup(self);
    }

    /// This will be called any time an area affected by changes has
    /// changed: the attributes of node `i` are computed anew.
    fn checks_on_only_affected_area(&mut self, tree: &SyntaxTree, i: usize)
        requires
            tree.wf(),
            i < tree.size(),
        ensures
            final(self).attribute_map() == recomputed(
                *tree,
                old(self).attribute_map(),
                i as int,
            ),
            final(self).syntax == old(self).syntax,
            final(self).predicate_semantics == old(self).predicate_semantics,
            final(self).old_node_ids_encountered == old(self).old_node_ids_encountered,
            final(self).node_ids_encountered == old(self).node_ids_encountered,
    {
        let ghost s0 = self.attribute_map();
        TermSemantic::on_node(tree, i, self);
        proof {
            if is_term_kind(tree.kind(i as int)) {
                lemma_recomputed_ignores_own(
                    *tree,
                    s0,
                    i as int,
                    Attributes {
                        term: term_of(*tree, context_in(*tree, s0, i as int), i as int),
                        ..attributes_in(s0, tree.id(i as int))
                    },
                );
            }
        }
        StatementSemantics::on_node(tree, i, self);
    }

    /// This will be called every time we check the document for semantics.
    fn checks_that_always_need_to_happen(&mut self, tree: &SyntaxTree, i: usize)
        requires
            tree.wf(),
            i < tree.size(),
            old(self).syntax.errors() == errors_in(*tree, i as int),
            old(self).syntax.missing() == missing_in(*tree, i as int),
            old(self).predicate_semantics.index() == indexed(*tree, i as int),
            old(self).predicate_semantics.arities() == counted(*tree, i as int),
        ensures
            final(self).syntax.errors() == errors_in(*tree, i + 1),
            final(self).syntax.missing() == missing_in(*tree, i + 1),
            final(self).predicate_semantics.index() == indexed(*tree, i + 1),
            final(self).predicate_semantics.arities() == counted(*tree, i + 1),
            final(self).statement_semantics == old(self).statement_semantics,
            final(self).old_node_ids_encountered == old(self).old_node_ids_encountered,
            final(self).node_ids_encountered == old(self).node_ids_encountered,
    {
        PredicateSemantics::on_node(tree, i, self);
        Syntax::on_node(tree, i, self);
    }

    /// On discovering node `i` of the tree this function gets called and
    /// all the analyzers decide what the node means. With `changed_ranges`
    /// the attributes of the node are only computed anew where one of the
    /// ranges overlaps the node or nothing is stored of it.
    pub fn on_node(&mut self, tree: &SyntaxTree, i: usize, changed_ranges: &Option<DirtyRanges>)
        requires
            tree.wf(),
            i < tree.size(),
            all_within_vars(old(self).attribute_map()),
            old(self).syntax.errors() == errors_in(*tree, i as int),
            old(self).syntax.missing() == missing_in(*tree, i as int),
            old(self).predicate_semantics.index() == indexed(*tree, i as int),
            old(self).predicate_semantics.arities() == counted(*tree, i as int),
        ensures
            final(self).attribute_map() == visited(
                *tree,
                old(self).attribute_map(),
                dirty_view(*changed_ranges),
                i as int,
            ),
            all_within_vars(final(self).attribute_map()),
            final(self).pending() == old(self).pending().remove(tree.id(i as int)),
            final(self).remembered() == old(self).remembered(),
            final(self).syntax.errors() == errors_in(*tree, i + 1),
            final(self).syntax.missing() == missing_in(*tree, i + 1),
            final(self).predicate_semantics.index() == indexed(*tree, i + 1),
            final(self).predicate_semantics.arities() == counted(*tree, i + 1),
    {
        let id = tree.nodes[i].id;
        ids_remove(&mut self.node_ids_encountered, id);
        // Check if the node is affected by the changes. We have to check if the key is in
        // use, because a node can be new without standing in a changed range.
        let affected = match changed_ranges {
            Some(ranges) => ranges.any_overlap(
                tree.nodes[i].range.start_byte,
                tree.nodes[i].range.end_byte,
            ) || !store_contains(&self.statement_semantics, id),
            // For the first check we check everything
            None => true,
        };
        proof {
            assert(affected == needs_recompute(
                *tree,
                old(self).attribute_map(),
                dirty_view(*changed_ranges),
                i as int,
            ));
            lemma_recomputed_keeps(*tree, old(self).attribute_map(), i as int);
        }
        if affected {
            self.checks_on_only_affected_area(tree, i);
        }
        // Perform any checks that need to be done regardless of changes
        self.checks_that_always_need_to_happen(tree, i);
    }

    /// Cleanup any node ids that do not exist anymore, and remember those
    /// that have a bundle.
    pub fn cleanup(&mut self)
        ensures
            final(self).attribute_map() == old(self).attribute_map().remove_keys(
                old(self).pending(),
            ),
            final(self).remembered() == final(self).attribute_map().dom(),
            final(self).syntax == old(self).syntax,
            final(self).predicate_semantics == old(self).predicate_semantics,
    {
        let retired = ids_items(&self.node_ids_encountered);
        let mut k: usize = 0;
        proof {
            assert(retired@.take(0).to_set() =~= Set::<usize>::empty());
            assert(self.attribute_map() =~= old(self).attribute_map().remove_keys(
                retired@.take(0).to_set(),
            ));
        }
        while k < retired.len()
            invariant
                k <= retired.len(),
                self.attribute_map() == old(self).attribute_map().remove_keys(
                    retired@.take(k as int).to_set(),
                ),
                self.syntax == old(self).syntax,
                self.predicate_semantics == old(self).predicate_semantics,
            decreases retired.len() - k,
        {
            // If an id has not been met, we can free what is stored for it
            let ghost prev = self.attribute_map();
            store_remove(&mut self.statement_semantics, retired[k]);
            proof {
                assert(self.attribute_map() =~= prev.remove(retired@[k as int]));
                assert(prev.remove(retired@[k as int]) =~= old(self).attribute_map().remove_keys(
                    retired@.take(k as int).to_set().insert(retired@[k as int]),
                ));
                assert(retired@.take(k + 1) =~= retired@.take(k as int).push(retired@[k as int]));
                lemma_push_to_set(retired@.take(k as int), retired@[k as int]);
                assert(self.attribute_map() =~= old(self).attribute_map().remove_keys(
                    retired@.take(k + 1).to_set(),
                ));
            }
            k = k + 1;
        }
        proof {
            assert(retired@.take(retired.len() as int) =~= retired@);
        }
        // Afterwards remember all nodes that have a bundle
        let keys = store_keys(&self.statement_semantics);
        let mut remembered = ids_new();
        let mut j: usize = 0;
        proof {
            assert(keys@.take(0).to_set() =~= Set::<usize>::empty());
        }
        while j < keys.len()
            invariant
                j <= keys.len(),
                id_members(remembered) == keys@.take(j as int).to_set(),
            decreases keys.len() - j,
        {
            ids_insert(&mut remembered, keys[j]);
            proof {
                assert(keys@.take(j + 1) =~= keys@.take(j as int).push(keys@[j as int]));
                lemma_push_to_set(keys@.take(j as int), keys@[j as int]);
            }
            j = j + 1;
        }
        proof {
            assert(keys@.take(keys.len() as int) =~= keys@);
            assert(self.attribute_map().dom() =~= keys@.to_set());
        }
        self.old_node_ids_encountered = remembered;
    }

    /// Goes through the tree in the order of its layout, every node after
    /// its descendants, and brings everything that is known of the program
    /// up to date.
    pub fn analyze(&mut self, tree: &SyntaxTree, changed_ranges: &Option<DirtyRanges>)
        requires
            tree.wf(),
            old(self).inv(),
        ensures
            final(self).inv(),
            final(self).attribute_map() == analysed(
                *tree,
                old(self).attribute_map(),
                dirty_view(*changed_ranges),
            ),
            final(self).attribute_map().dom() == tree.ids(),
            final(self).syntax.errors() == errors_in(*tree, tree.size()),
            final(self).syntax.missing() == missing_in(*tree, tree.size()),
            final(self).predicate_semantics.index() == indexed(*tree, tree.size()),
            final(self).predicate_semantics.arities() == counted(*tree, tree.size()),
    {
        let ghost before = self.attribute_map();
        let ghost dirty = dirty_view(*changed_ranges);
        self.startup();
        let n = tree.len();
        let mut i: usize = 0;
        proof {
            assert(tree.ids_before(0) =~= Set::<usize>::empty());
            assert(before.dom().difference(tree.ids_before(0)) =~= before.dom());
            assert(before.dom().union(tree.ids_before(0)) =~= before.dom());
        }
        while i < n
            invariant
                tree.wf(),
                n == tree.size(),
                i <= n,
                dirty == dirty_view(*changed_ranges),
                self.during(*tree, before, dirty, i as int),
                self.attribute_map().dom() == before.dom().union(tree.ids_before(i as int)),
            decreases n - i,
        {
            let ghost s = self.attribute_map();
            proof {
                lemma_recomputed_keeps(*tree, s, i as int);
                lemma_ids_before_next(*tree, i as int);
            }
            self.on_node(tree, i, changed_ranges);
            proof {
                assert(self.attribute_map().dom() =~= before.dom().union(tree.ids_before(i + 1)));
                assert(self.pending() =~= before.dom().difference(tree.ids_before(i + 1)));
            }
            i = i + 1;
        }
        let ghost done = self.attribute_map();
        self.cleanup();
        proof {
            assert(tree.ids_before(tree.size()) =~= tree.ids());
            assert(self.attribute_map() =~= done.restrict(tree.ids()));
            assert(self.attribute_map().dom() =~= tree.ids());
        }
    }
}

} // verus!
