//! The concrete syntax tree as the analysis sees it.
//!
//! The nodes of a tree are laid out in post-order: every node comes after
//! all of its descendants, the descendants of a node are the indices from
//! its `first` up to the node itself, and the root comes last. A node is
//! named by its index in that layout; its `id` is the identity the parser
//! gave it, which is the key of everything that is cached between edits.

use crate::node_kind::{kind_of_label, NodeKind};
use crate::source::slice_between;
use vstd::prelude::*;

verus! {

/// A position in a document: a line and a byte column in it, from zero.
#[derive(Clone, Copy, Debug, PartialEq, Eq, Hash, Structural)]
pub struct Point {
    pub row: usize,
    pub column: usize,
}

/// The part of a document that a node spans.
#[derive(Clone, Copy, Debug, PartialEq, Eq, Hash, Structural)]
pub struct TextRange {
    pub start_byte: usize,
    pub end_byte: usize,
    pub start_point: Point,
    pub end_point: Point,
}

impl TextRange {
    /// The empty range at the start of a document.
    pub open spec fn zero() -> TextRange {
        TextRange {
            start_byte: 0,
            end_byte: 0,
            start_point: Point { row: 0, column: 0 },
            end_point: Point { row: 0, column: 0 },
        }
    }

    /// The empty range at the start of a document.
    pub fn empty() -> (range: TextRange)
        ensures
            range == TextRange::zero(),
    {
        TextRange {
            start_byte: 0,
            end_byte: 0,
            start_point: Point { row: 0, column: 0 },
            end_point: Point { row: 0, column: 0 },
        }
    }
}

/// One node of the syntax tree.
#[derive(Debug)]
pub struct SyntaxNode {
    /// The identity the parser gave the node; stable across edits that
    /// leave the node untouched.
    pub id: usize,
    /// What the node is.
    pub kind: NodeKind,
    /// The parser's label of the node.
    pub label: String,
    /// Where the node stands in the document.
    pub range: TextRange,
    /// Whether the node stands for text the parser could not make sense of.
    pub is_error: bool,
    /// Whether the parser made the node up to recover from an error.
    pub is_missing: bool,
    /// The text of the node, for the kinds whose text is kept.
    pub text: String,
    /// The index of the first descendant in the layout; the node's own
    /// index where it has no child.
    pub first: usize,
    /// The indices of the children, in document order.
    pub children: Vec<usize>,
}

impl SyntaxNode {
    /// Whether the text that the node keeps is the text that it spans in
    /// `text`: a node of a kind whose text is kept holds the text between
    /// the bytes of its range, any other node holds none.
    pub open spec fn keeps_text_of(self, text: Seq<char>) -> bool {
        if self.kind.keeps_text() {
            slice_between(text, self.range.start_byte, self.range.end_byte) == Some(self.text@)
        } else {
            self.text@ == Seq::<char>::empty()
        }
    }
}

/// A syntax tree in post-order layout.
#[derive(Debug)]
pub struct SyntaxTree {
    /// The nodes, every one after its descendants.
    pub nodes: Vec<SyntaxNode>,
    /// For every node the index of its parent.
    pub parents: Vec<Option<usize>>,
}

impl SyntaxTree {
    /// The number of nodes.
    pub open spec fn size(self) -> int {
        self.nodes@.len() as int
    }

    /// The number of children of node `i`.
    pub open spec fn arity(self, i: int) -> int {
        self.nodes@[i].children@.len() as int
    }

    /// The index of the `k`-th child of node `i`.
    pub open spec fn kid(self, i: int, k: int) -> int {
        self.nodes@[i].children@[k] as int
    }

    /// The kind of node `i`.
    pub open spec fn kind(self, i: int) -> NodeKind {
        self.nodes@[i].kind
    }

    /// The kind of the `k`-th child of node `i`; `Other` where there is no
    /// such child.
    pub open spec fn kid_kind(self, i: int, k: int) -> NodeKind {
        if 0 <= k < self.arity(i) {
            self.kind(self.kid(i, k))
        } else {
            NodeKind::Other
        }
    }

    /// Whether node `p` is the parent of node `i`.
    pub open spec fn parent_is(self, i: int, p: int) -> bool {
        self.parents@[i] matches Some(q) && q == p
    }

    /// The identity of node `i`.
    pub open spec fn id(self, i: int) -> usize {
        self.nodes@[i].id
    }

    /// Whether every node keeps the text that it spans in `text`.
    pub open spec fn texts_from(self, text: Seq<char>) -> bool {
        forall|i: int| 0 <= i < self.size() ==> (#[trigger] self.nodes@[i]).keeps_text_of(text)
    }

    /// The identities of all nodes.
    pub open spec fn ids(self) -> Set<usize> {
        Set::new(|id: usize| exists|i: int| 0 <= i < self.size() && #[trigger] self.id(i) == id)
    }

    /// The identities of the first `n` nodes.
    pub open spec fn ids_before(self, n: int) -> Set<usize> {
        Set::new(|id: usize| exists|i: int| 0 <= i < n && #[trigger] self.id(i) == id)
    }

    /// What the layout asks of node `i`: its children are earlier nodes
    /// whose descendants, one after the other, are exactly the nodes from
    /// `first` up to `i`, and its parent is a later node that lists it.
    pub open spec fn node_wf(self, i: int) -> bool {
        let n = self.nodes@[i];
        let c = n.children@;
        &&& n.first <= i
        &&& n.kind == kind_of_label(n.label@)
        &&& c.len() == 0 ==> n.first == i
        &&& c.len() > 0 ==> self.nodes@[c[0] as int].first == n.first && c[c.len() - 1] + 1 == i
        &&& forall|k: int|
            0 <= k < c.len() ==> (#[trigger] c[k]) < i && self.parent_is(c[k] as int, i)
        &&& forall|k: int|
            0 < k < c.len() ==> self.nodes@[(#[trigger] c[k]) as int].first == c[k - 1] + 1
        &&& match self.parents@[i] {
            Some(p) => i < p < self.size() && exists|k: int|
                0 <= k < self.arity(p as int) && #[trigger] self.kid(p as int, k) == i,
            None => true,
        }
    }

    /// Whether the tree is in post-order layout, with one root and no
    /// identity used twice.
    pub open spec fn wf(self) -> bool {
        &&& self.parents@.len() == self.nodes@.len()
        &&& forall|i: int| 0 <= i < self.size() ==> #[trigger] self.node_wf(i)
        &&& forall|i: int, j: int|
            0 <= i < self.size() && 0 <= j < self.size() && i != j ==> #[trigger] self.id(i)
                != #[trigger] self.id(j)
        &&& self.size() > 0 ==> self.nodes@[self.size() - 1].first == 0 && self.parents@[self.size()
            - 1] is None
    }

    /// The node before node `i` among the children of its parent.
    pub open spec fn previous_sibling(self, i: int) -> Option<usize> {
        match self.parents@[i] {
            Some(p) => if self.nodes@[p as int].first < self.nodes@[i].first {
                Some((self.nodes@[i].first - 1) as usize)
            } else {
                None
            },
            None => None,
        }
    }

    /// The tree without nodes.
    pub fn new() -> (tree: SyntaxTree)
        ensures
            tree.wf(),
            tree.size() == 0,
    {
        SyntaxTree { nodes: Vec::new(), parents: Vec::new() }
    }

    /// The number of nodes.
    pub fn len(&self) -> (n: usize)
        ensures
            n == self.size(),
    {
        self.nodes.len()
    }

    /// The number of children of node `i`.
    pub fn child_count(&self, i: usize) -> (n: usize)
        requires
            i < self.size(),
        ensures
            n == self.arity(i as int),
    {
        self.nodes[i].children.len()
    }

    /// The `k`-th child of node `i`.
    pub fn child(&self, i: usize, k: usize) -> (c: Option<usize>)
        requires
            self.wf(),
            i < self.size(),
        ensures
            c == (if k < self.arity(i as int) {
                Some(self.kid(i as int, k as int) as usize)
            } else {
                None
            }),
            c matches Some(j) ==> j < i,
    {
        proof {
            assert(self.node_wf(i as int));
        }
        if k < self.nodes[i].children.len() {
            Some(self.nodes[i].children[k])
        } else {
            None
        }
    }

    /// The `k`-th child of node `i`, which has more than `k` children.
    pub fn child_at(&self, i: usize, k: usize) -> (c: usize)
        requires
            self.wf(),
            i < self.size(),
            k < self.arity(i as int),
        ensures
            c == self.kid(i as int, k as int),
            c < i,
    {
        proof {
            assert(self.node_wf(i as int));
            assert(self.nodes@[i as int].children@[k as int] < i);
        }
        self.nodes[i].children[k]
    }

    /// The kind of the `k`-th child of node `i`; `Other` where node `i` has
    /// no such child.
    pub fn child_kind(&self, i: usize, k: usize) -> (kind: NodeKind)
        requires
            self.wf(),
            i < self.size(),
        ensures
            kind == self.kid_kind(i as int, k as int),
    {
        match self.child(i, k) {
            Some(j) => self.nodes[j].kind,
            None => NodeKind::Other,
        }
    }

    /// The parent of node `i`.
    pub fn parent(&self, i: usize) -> (p: Option<usize>)
        requires
            self.wf(),
            i < self.size(),
        ensures
            p == self.parents@[i as int],
            p matches Some(j) ==> i < j < self.size(),
    {
        proof {
            assert(self.node_wf(i as int));
        }
        self.parents[i]
    }

    /// The node before node `i` among the children of its parent.
    pub fn prev_sibling(&self, i: usize) -> (s: Option<usize>)
        requires
            self.wf(),
            i < self.size(),
        ensures
            s == self.previous_sibling(i as int),
            s matches Some(j) ==> j < i,
    {
        proof {
            assert(self.node_wf(i as int));
        }
        match self.parents[i] {
            Some(p) => {
                if self.nodes[p].first < self.nodes[i].first {
                    Some(self.nodes[i].first - 1)
                } else {
                    None
                }
            },
            None => None,
        }
    }

    /// The index of the node with identity `id`.
    pub fn index_of(&self, id: usize) -> (found: Option<usize>)
        ensures
            match found {
                Some(i) => i < self.size() && self.id(i as int) == id,
                None => !self.ids().contains(id),
            },
    {
        let mut i: usize = 0;
        while i < self.nodes.len()
            invariant
                i <= self.nodes.len(),
                forall|j: int| 0 <= j < i ==> #[trigger] self.id(j) != id,
            decreases self.nodes.len() - i,
        {
            if self.nodes[i].id == id {
                return Some(i);
            }
            i = i + 1;
        }
        None
    }

    /// The children of a node are listed in the order of the layout.
    pub proof fn lemma_kids_increasing(self, p: int, k1: int, k2: int)
        requires
            self.wf(),
            0 <= p < self.size(),
            0 <= k1 < k2 < self.arity(p),
        ensures
            self.kid(p, k1) < self.kid(p, k2),
        decreases k2 - k1,
    {
        assert(self.node_wf(p));
        let c = self.nodes@[p].children@;
        assert(c[k2] < p);
        assert(c[k2 - 1] < p);
        assert(self.node_wf(c[k2] as int));
        assert(self.nodes@[c[k2] as int].first == c[k2 - 1] + 1);
        if k1 < k2 - 1 {
            self.lemma_kids_increasing(p, k1, k2 - 1);
        }
    }

    /// Two children of a node have different identities.
    pub proof fn lemma_kids_distinct(self, p: int, k1: int, k2: int)
        requires
            self.wf(),
            0 <= p < self.size(),
            0 <= k1 < self.arity(p),
            0 <= k2 < self.arity(p),
            k1 != k2,
        ensures
            self.id(self.kid(p, k1)) != self.id(self.kid(p, k2)),
            self.id(self.kid(p, k1)) != self.id(p),
    {
        assert(self.node_wf(p));
        let c = self.nodes@[p].children@;
        assert(c[k1] < p);
        assert(c[k2] < p);
        if k1 < k2 {
            self.lemma_kids_increasing(p, k1, k2);
        } else {
            self.lemma_kids_increasing(p, k2, k1);
        }
    }

    /// The nodes of a tree can be counted in a machine word.
    pub proof fn lemma_size_bounded(self)
        ensures
            self.size() <= usize::MAX,
    {
        assert(self.nodes.len() == self.nodes@.len());
    }

    /// The previous sibling of a node that is not a first child is the last
    /// child before it.
    pub proof fn lemma_previous_sibling(self, p: int, k: int)
        requires
            self.wf(),
            0 <= p < self.size(),
            0 <= k < self.arity(p),
        ensures
            self.previous_sibling(self.kid(p, k)) == (if k == 0 {
                None
            } else {
                Some(self.kid(p, k - 1) as usize)
            }),
    {
        assert(self.node_wf(p));
        let c = self.nodes@[p].children@;
        let i = self.kid(p, k);
        assert(c[k] < p);
        assert(self.parent_is(i, p));
        if k > 0 {
            self.lemma_child_first_after(p, k);
            assert(c[k - 1] < p);
            assert(self.nodes@[i].first == c[k - 1] + 1);
        } else {
            assert(self.nodes@[i].first == self.nodes@[p].first);
        }
    }

    /// The descendants of a later child come after the first descendant of
    /// the node.
    pub proof fn lemma_child_first_after(self, p: int, k: int)
        requires
            self.wf(),
            0 <= p < self.size(),
            0 < k < self.arity(p),
        ensures
            self.nodes@[p].first < self.nodes@[self.kid(p, k)].first,
        decreases k,
    {
        assert(self.node_wf(p));
        let c = self.nodes@[p].children@;
        assert(c[k - 1] < p);
        assert(self.node_wf(c[k - 1] as int));
        assert(self.nodes@[c[k] as int].first == c[k - 1] + 1);
        if k - 1 > 0 {
            self.lemma_child_first_after(p, k - 1);
        }
    }
}

} // verus!
