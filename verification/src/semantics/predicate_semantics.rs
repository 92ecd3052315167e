use crate::node_kind::NodeKind;
use crate::semantics::encoding_semantic::{EncodingSemantics, Semantics};
use crate::semantics::predicate_occurence_semantics::{
    PredicateOccurenceLocation, PredicateOccurenceSemantics,
};
use crate::syntax_tree::SyntaxTree;
use dashmap::DashMap;
use vstd::prelude::*;

verus! {

/// A predicate: its name and its arity.
pub type Signature = (Seq<char>, usize);

/// The index from predicate to its occurences.
pub type Index = Map<Signature, Seq<PredicateOccurenceSemantics>>;

/// The entries of the map from predicate to its occurences.
pub uninterp spec fn predicate_entries(
    m: DashMap<(String, usize), Vec<PredicateOccurenceSemantics>>,
) -> Index;

/// The entries of the map from node identity to the number of separators
/// below the node.
pub uninterp spec fn arity_entries(m: DashMap<usize, usize>) -> Map<usize, usize>;

/// A map without entries, from `DashMap::new`.
#[verifier::external_body]
pub(crate) fn predicates_new() -> (index: DashMap<(String, usize), Vec<PredicateOccurenceSemantics>>)
    ensures
        predicate_entries(index) =~= Map::empty(),
{
    DashMap::new()
}

/// A copy of the occurences stored for a predicate, from `DashMap::view`:
/// the method hands the stored value to the closure where the key has an
/// entry, and returns what the closure returns. Two keys are the same when
/// their names hold the same characters and their arities are equal.
#[verifier::external_body]
pub(crate) fn predicates_lookup(
    index: &DashMap<(String, usize), Vec<PredicateOccurenceSemantics>>,
    identifier: &String,
    arity: usize,
) -> (found: Option<Vec<PredicateOccurenceSemantics>>)
    ensures
        found.is_some() == predicate_entries(*index).dom().contains((identifier@, arity)),
        found.is_some() ==> found.unwrap()@ == predicate_entries(*index)[(identifier@, arity)],
{
    index.view(&(identifier.clone(), arity), |_, occurences| occurences.clone())
}

/// Stores `occurences` for a predicate, in place of what was stored for
/// it, with `DashMap::insert`.
#[verifier::external_body]
pub(crate) fn predicates_insert(
    index: &mut DashMap<(String, usize), Vec<PredicateOccurenceSemantics>>,
    identifier: String,
    arity: usize,
    occurences: Vec<PredicateOccurenceSemantics>,
)
    ensures
        predicate_entries(*final(index)) == predicate_entries(*old(index)).insert(
            (identifier@, arity),
            occurences@,
        ),
{
    index.insert((identifier, arity), occurences);
}

/// The predicates that have an entry, each once, in the order in which
/// `DashMap::iter` walks the entries; that order is not specified.
#[verifier::external_body]
pub(crate) fn predicates_keys(
    index: &DashMap<(String, usize), Vec<PredicateOccurenceSemantics>>,
) -> (keys: Vec<(String, usize)>)
    ensures
        signatures(keys@).to_set() == predicate_entries(*index).dom(),
        signatures(keys@).no_duplicates(),
{
    index.iter().map(|entry| entry.key().clone()).collect()
}

/// A map without entries, from `DashMap::new`.
#[verifier::external_body]
pub(crate) fn arities_new() -> (arities: DashMap<usize, usize>)
    ensures
        arity_entries(arities) =~= Map::empty(),
{
    DashMap::new()
}

/// The number stored for `id`, from `DashMap::get`.
#[verifier::external_body]
pub(crate) fn arities_lookup(arities: &DashMap<usize, usize>, id: usize) -> (found: Option<usize>)
    ensures
        found.is_some() == arity_entries(*arities).dom().contains(id),
        found.is_some() ==> found.unwrap() == arity_entries(*arities)[id],
{
    arities.get(&id).map(|entry| *entry.value())
}

/// Stores `arity` for `id`, in place of what was stored for it, with
/// `DashMap::insert`.
#[verifier::external_body]
pub(crate) fn arities_insert(arities: &mut DashMap<usize, usize>, id: usize, arity: usize)
    ensures
        arity_entries(*final(arities)) == arity_entries(*old(arities)).insert(id, arity),
{
    arities.insert(id, arity);
}

/// The predicates that a sequence of keys stands for.
pub open spec fn signatures(keys: Seq<(String, usize)>) -> Seq<Signature> {
    keys.map_values(|k: (String, usize)| (k.0@, k.1))
}

/// The number of separators among the first `n` children of node `i`.
pub open spec fn separators_in_kids(t: SyntaxTree, i: int, n: int) -> int
    decreases i, n,
{
    if n <= 0 || n > t.arity(i) {
        0
    } else {
        let c = t.kid(i, n - 1);
        separators_in_kids(t, i, n - 1) + (if 0 <= c < i {
            separators(t, c)
        } else {
            0
        })
    }
}

/// The number of separators that the list of terms at node `i` holds: one
/// for every comma in it. A node that is no list of terms holds none.
pub open spec fn separators(t: SyntaxTree, i: int) -> int
    decreases i, t.arity(i) + 1,
{
    match t.kind(i) {
        NodeKind::Comma => 1,
        NodeKind::Termvec | NodeKind::Argvec => separators_in_kids(t, i, t.arity(i)),
        _ => 0,
    }
}

/// Whether a number of separators is stored for nodes of this kind.
pub open spec fn counts_separators(kind: NodeKind) -> bool {
    kind == NodeKind::Comma || kind == NodeKind::Termvec || kind == NodeKind::Argvec
}

/// The part of its statement that node `i` stands in: the condition or
/// the body that the nearest node above it opens, or else the head.
pub open spec fn location_of(t: SyntaxTree, i: int) -> PredicateOccurenceLocation
    decreases t.size() - i,
{
    match t.parents@[i] {
        Some(p) => if i < p < t.size() {
            match t.kind(p as int) {
                NodeKind::Optcondition => PredicateOccurenceLocation::Condition,
                NodeKind::Bodydot | NodeKind::Bodycomma => PredicateOccurenceLocation::Body,
                _ => location_of(t, p as int),
            }
        } else {
            PredicateOccurenceLocation::Head
        },
        None => PredicateOccurenceLocation::Head,
    }
}

/// Whether node `i` is an occurence of a predicate: an atom or a term
/// that starts with an identifier and has arguments.
pub open spec fn is_occurence(t: SyntaxTree, i: int) -> bool {
    (t.kind(i) == NodeKind::Atom || t.kind(i) == NodeKind::Term) && t.arity(i) >= 3 && t.kid_kind(
        i,
        0,
    ) == NodeKind::Identifier
}

/// The predicate that occurs at node `i`.
pub open spec fn signature_at(t: SyntaxTree, i: int) -> Signature {
    (t.nodes@[t.kid(i, 0)].text@, (separators(t, t.kid(i, 2)) + 1) as usize)
}

/// The occurence at node `i`.
pub open spec fn occurence_at(t: SyntaxTree, i: int) -> PredicateOccurenceSemantics {
    PredicateOccurenceSemantics {
        node_id: t.id(i),
        range: t.nodes@[i].range,
        location: location_of(t, i),
    }
}

/// The occurences stored for a predicate; none where it has no entry.
pub open spec fn occurences_of(index: Index, signature: Signature) -> Seq<
    PredicateOccurenceSemantics,
> {
    if index.dom().contains(signature) {
        index[signature]
    } else {
        Seq::empty()
    }
}

/// The index with one more occurence of a predicate.
pub open spec fn with_occurence(
    index: Index,
    signature: Signature,
    occurence: PredicateOccurenceSemantics,
) -> Index {
    index.insert(signature, occurences_of(index, signature).push(occurence))
}

/// The index of the occurences among the first `n` nodes of the tree; the
/// occurences of a predicate are in the order of the layout.
pub open spec fn indexed(t: SyntaxTree, n: int) -> Index
    decreases n,
{
    if n <= 0 {
        Map::empty()
    } else if is_occurence(t, n - 1) {
        with_occurence(indexed(t, n - 1), signature_at(t, n - 1), occurence_at(t, n - 1))
    } else {
        indexed(t, n - 1)
    }
}

/// The numbers of separators stored after the first `n` nodes of the tree
/// were visited.
pub open spec fn counted(t: SyntaxTree, n: int) -> Map<usize, usize>
    decreases n,
{
    if n <= 0 {
        Map::empty()
    } else if counts_separators(t.kind(n - 1)) {
        counted(t, n - 1).insert(t.id(n - 1), separators(t, n - 1) as usize)
    } else {
        counted(t, n - 1)
    }
}

/// The separators among the first `n` children of a node are no more than
/// the nodes that those children and their descendants make up.
pub proof fn lemma_separators_in_kids_bounded(t: SyntaxTree, i: int, n: int)
    requires
        t.wf(),
        0 <= i < t.size(),
        0 <= n <= t.arity(i),
    ensures
        0 <= separators_in_kids(t, i, n),
        n == 0 ==> separators_in_kids(t, i, n) == 0,
        n > 0 ==> separators_in_kids(t, i, n) <= t.kid(i, n - 1) + 1 - t.nodes@[i].first,
    decreases i, n,
{
    assert(t.node_wf(i));
    if n > 0 {
        let c = t.kid(i, n - 1);
        assert(t.nodes@[i].children@[n - 1] < i);
        lemma_separators_in_kids_bounded(t, i, n - 1);
        lemma_separators_bounded(t, c);
        assert(t.node_wf(c));
        if n - 1 > 0 {
            assert(t.nodes@[i].children@[n - 2] < i);
            assert(t.nodes@[c].first == t.kid(i, n - 2) + 1);
        } else {
            assert(t.nodes@[c].first == t.nodes@[i].first);
        }
    }
}

/// The separators at a node are no more than the nodes at and below it.
pub proof fn lemma_separators_bounded(t: SyntaxTree, i: int)
    requires
        t.wf(),
        0 <= i < t.size(),
    ensures
        0 <= separators(t, i) <= i + 1 - t.nodes@[i].first,
    decreases i, t.arity(i) + 1,
{
    assert(t.node_wf(i));
    match t.kind(i) {
        NodeKind::Termvec | NodeKind::Argvec => {
            lemma_separators_in_kids_bounded(t, i, t.arity(i));
            if t.arity(i) > 0 {
                assert(t.kid(i, t.arity(i) - 1) + 1 == i);
            }
        },
        _ => {},
    }
}

/// What is stored of the nodes before node `i` is what `counted` says.
pub proof fn lemma_counted_lookup(t: SyntaxTree, n: int, j: int)
    requires
        t.wf(),
        0 <= j < n <= t.size(),
    ensures
        counts_separators(t.kind(j)) ==> counted(t, n).dom().contains(t.id(j)) && counted(
            t,
            n,
        )[t.id(j)] == separators(t, j),
        !counts_separators(t.kind(j)) ==> !counted(t, n).dom().contains(t.id(j)),
    decreases n,
{
    t.lemma_size_bounded();
    lemma_separators_bounded(t, j);
    lemma_counted_domain(t, n);
    if j < n - 1 {
        lemma_counted_lookup(t, n - 1, j);
        assert(t.id(j) != t.id(n - 1));
    } else {
        lemma_counted_domain(t, n - 1);
        if !counts_separators(t.kind(j)) {
            if counted(t, n).dom().contains(t.id(j)) {
                let k = choose|k: int|
                    0 <= k < n - 1 && counts_separators(t.kind(k)) && t.id(k) == t.id(j);
                assert(t.id(k) != t.id(j));
            }
        }
    }
}

/// Only nodes that were visited have a number stored.
pub proof fn lemma_counted_domain(t: SyntaxTree, n: int)
    requires
        0 <= n <= t.size(),
    ensures
        forall|id: usize|
            counted(t, n).dom().contains(id) ==> exists|k: int|
                0 <= k < n && counts_separators(t.kind(k)) && #[trigger] t.id(k) == id,
    decreases n,
{
    if n > 0 {
        lemma_counted_domain(t, n - 1);
        assert forall|id: usize| counted(t, n).dom().contains(id) implies exists|k: int|
            0 <= k < n && counts_separators(t.kind(k)) && #[trigger] t.id(k) == id by {
            if counted(t, n - 1).dom().contains(id) {
                let k = choose|k: int|
                    0 <= k < n - 1 && counts_separators(t.kind(k)) && #[trigger] t.id(k) == id;
                assert(t.id(k) == id);
            } else {
                assert(t.id(n - 1) == id);
            }
        }
    }
}

/// Predicate Semantics infers information what and where predicates occur
/// in the encoding.
#[derive(Debug)]
pub struct PredicateSemantics {
    /// For every predicate, by name and arity, its occurences.
    pub predicates: DashMap<(String, usize), Vec<PredicateOccurenceSemantics>>,
    /// For every list of terms, by the identity of its node, the number of
    /// separators in it.
    pub predicates_arity: DashMap<usize, usize>,
}

impl PredicateSemantics {
    /// The index from predicate to its occurences.
    pub open spec fn index(self) -> Index {
        predicate_entries(self.predicates)
    }

    /// The numbers of separators, by node identity.
    pub open spec fn arities(self) -> Map<usize, usize> {
        arity_entries(self.predicates_arity)
    }

    /// The number of separators stored for the node with identity `node`;
    /// zero where none is stored.
    pub open spec fn arity_for(self, node: usize) -> usize {
        if self.arities().dom().contains(node) {
            self.arities()[node]
        } else {
            0
        }
    }

    pub fn new() -> (res: PredicateSemantics)
        ensures
            res.index() =~= Map::<Signature, Seq<PredicateOccurenceSemantics>>::empty(),
            res.arities() =~= Map::<usize, usize>::empty(),
    {
        PredicateSemantics { predicates: predicates_new(), predicates_arity: arities_new() }
    }

    /// Add an occurence of a predicate; if the predicate has no entry yet
    /// it gets one.
    pub fn insert_predicate_for_node(
        &mut self,
        identifier: String,
        arity: usize,
        new_value: PredicateOccurenceSemantics,
    )
        ensures
            final(self).index() == with_occurence(old(self).index(), (identifier@, arity), new_value),
            final(self).arities() == old(self).arities(),
    {
        let mut occurences = match predicates_lookup(&self.predicates, &identifier, arity) {
            Some(occurences) => occurences,
            None => Vec::new(),
        };
        proof {
            assert(occurences@ =~= occurences_of(old(self).index(), (identifier@, arity)));
        }
        occurences.push(new_value);
        predicates_insert(&mut self.predicates, identifier, arity, occurences);
    }

    /// Returns the amount of separators in this part of the encoding.
    pub fn get_predicates_arity_for_node(&self, node: &usize) -> (arity: usize)
        ensures
            arity == self.arity_for(*node),
    {
        match arities_lookup(&self.predicates_arity, *node) {
            Some(arity) => arity,
            None => 0,
        }
    }

    /// The part of its statement that node `i` stands in.
    pub fn location(tree: &SyntaxTree, i: usize) -> (location: PredicateOccurenceLocation)
        requires
            tree.wf(),
            i < tree.size(),
        ensures
            location == location_of(*tree, i as int),
    {
        let mut current = i;
        loop
            invariant
                tree.wf(),
                i <= current < tree.size(),
                location_of(*tree, i as int) == location_of(*tree, current as int),
            decreases tree.size() - current,
        {
            match tree.parent(current) {
                Some(p) => {
                    match tree.nodes[p].kind {
                        NodeKind::Optcondition => {
                            return PredicateOccurenceLocation::Condition;
                        },
                        NodeKind::Bodydot | NodeKind::Bodycomma => {
                            return PredicateOccurenceLocation::Body;
                        },
                        _ => {
                            current = p;
                        },
                    }
                },
                None => {
                    return PredicateOccurenceLocation::Head;
                },
            }
        }
    }

    /// The number of separators among the children of node `i`.
    fn count_in_children(&self, tree: &SyntaxTree, i: usize) -> (arity: usize)
        requires
            tree.wf(),
            i < tree.size(),
            self.arities() == counted(*tree, i as int),
        ensures
            arity == separators_in_kids(*tree, i as int, tree.arity(i as int)),
    {
        let n = tree.child_count(i);
        let mut arity: usize = 0;
        let mut k: usize = 0;
        while k < n
            invariant
                tree.wf(),
                i < tree.size(),
                n == tree.arity(i as int),
                k <= n,
                self.arities() == counted(*tree, i as int),
                arity == separators_in_kids(*tree, i as int, k as int),
            decreases n - k,
        {
            let c = tree.child_at(i, k);
            proof {
                lemma_counted_lookup(*tree, i as int, c as int);
                lemma_separators_bounded(*tree, c as int);
                lemma_separators_in_kids_bounded(*tree, i as int, k + 1);
            }
            let below = self.get_predicates_arity_for_node(&tree.nodes[c].id);
            arity = arity + below;
            k = k + 1;
        }
        arity
    }

    /// Records what node `i` of the tree says of predicates: an occurence
    /// of a predicate, or the number of separators in a list of terms.
    pub fn record(&mut self, tree: &SyntaxTree, i: usize)
        requires
            tree.wf(),
            i < tree.size(),
            old(self).index() == indexed(*tree, i as int),
            old(self).arities() == counted(*tree, i as int),
        ensures
            final(self).index() == indexed(*tree, i + 1),
            final(self).arities() == counted(*tree, i + 1),
    {
        // Find all predicates with their arity
        match tree.nodes[i].kind {
            NodeKind::Atom | NodeKind::Term => {
                if tree.child_count(i) >= 3 && tree.child_kind(i, 0) == NodeKind::Identifier {
                    let name = tree.child_at(i, 0);
                    let arguments = tree.child_at(i, 2);
                    let identifier = tree.nodes[name].text.clone();
                    proof {
                        lemma_counted_lookup(*tree, i as int, arguments as int);
                        lemma_separators_bounded(*tree, arguments as int);
                        tree.lemma_size_bounded();
                    }
                    let below = self.get_predicates_arity_for_node(&tree.nodes[arguments].id);
                    let arity = below + 1;
                    let location = Self::location(tree, i);
                    self.insert_predicate_for_node(
                        identifier,
                        arity,
                        PredicateOccurenceSemantics {
                            node_id: tree.nodes[i].id,
                            range: tree.nodes[i].range,
                            location,
                        },
                    );
                }
            },
            NodeKind::Termvec | NodeKind::Argvec => {
                let arity = self.count_in_children(tree, i);
                arities_insert(&mut self.predicates_arity, tree.nodes[i].id, arity);
            },
            NodeKind::Comma => {
                arities_insert(&mut self.predicates_arity, tree.nodes[i].id, 1);
            },
            _ => {},
        }
    }

    /// Forgets what the last pass recorded.
    pub fn clear(&mut self)
        ensures
            final(self).index() =~= Map::<Signature, Seq<PredicateOccurenceSemantics>>::empty(),
            final(self).arities() =~= Map::<usize, usize>::empty(),
    {
        self.predicates = predicates_new();
        self.predicates_arity = arities_new();
    }
}

impl Semantics for PredicateSemantics {
    /// What the nodes before node `i` say of predicates is recorded.
    open spec fn ready(tree: SyntaxTree, i: int, semantics: EncodingSemantics) -> bool {
        &&& semantics.predicate_semantics.index() == indexed(tree, i)
        &&& semantics.predicate_semantics.arities() == counted(tree, i)
    }

    /// What node `i` says is recorded too, and nothing else has changed.
    open spec fn visits(
        tree: SyntaxTree,
        i: int,
        before: EncodingSemantics,
        after: EncodingSemantics,
    ) -> bool {
        &&& after.predicate_semantics.index() == indexed(tree, i + 1)
        &&& after.predicate_semantics.arities() == counted(tree, i + 1)
        &&& after.syntax == before.syntax
        &&& after.statement_semantics == before.statement_semantics
        &&& after.old_node_ids_encountered == before.old_node_ids_encountered
        &&& after.node_ids_encountered == before.node_ids_encountered
    }

    /// Nothing is recorded, and nothing else has changed.
    open spec fn starts(before: EncodingSemantics, after: EncodingSemantics) -> bool {
        &&& after.predicate_semantics.index() == Map::<
            Signature,
            Seq<PredicateOccurenceSemantics>,
        >::empty()
        &&& after.predicate_semantics.arities() == Map::<usize, usize>::empty()
        &&& after.syntax == before.syntax
        &&& after.statement_semantics == before.statement_semantics
        &&& after.old_node_ids_encountered == before.old_node_ids_encountered
        &&& after.node_ids_encountered == before.node_ids_encountered
    }

    fn on_node(tree: &SyntaxTree, i: usize, semantics: &mut EncodingSemantics) {
        semantics.predicate_semantics.record(tree, i);
    }

    fn startup(semantics: &mut EncodingSemantics) {
        semantics.predicate_semantics.clear();
        proof {
            assert(semantics.predicate_semantics.index() =~= Map::<
                Signature,
                Seq<PredicateOccurenceSemantics>,
            >::empty());
            assert(semantics.predicate_semantics.arities() =~= Map::<usize, usize>::empty());
        }
    }
}

} // verus!
