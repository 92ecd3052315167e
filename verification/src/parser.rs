//! The parser, and the walk that turns its tree into a [`SyntaxTree`].
//!
//! The parser's tree is opaque. A cursor walks it in post-order and every
//! node it meets is written down with what the analysis reads of it, so
//! that the nodes come out in post-order layout. Nothing is taken for
//! granted of where the cursor goes: whatever it does, a tree that comes
//! out is well formed.

use crate::node_kind::{kind_of_label, NodeKind};
use crate::source::{rope_slice, rope_text};
use crate::syntax_tree::{Point, SyntaxNode, SyntaxTree, TextRange};
use ropey::Rope;
use std::collections::HashSet;
use tree_sitter::{InputEdit, Node, Parser, Tree, TreeCursor};
use vstd::prelude::*;

verus! {

broadcast use vstd::std_specs::hash::group_hash_axioms;

#[verifier::external_type_specification]
#[verifier::external_body]
pub struct ExParser(Parser);

#[verifier::external_type_specification]
#[verifier::external_body]
pub struct ExTree(Tree);

#[verifier::external_type_specification]
#[verifier::external_body]
pub struct ExTreeCursor<'a>(TreeCursor<'a>);

#[verifier::external_type_specification]
#[verifier::external_body]
pub struct ExNode<'a>(Node<'a>);

/// Parses a text with `Parser::parse`, with the tree of an earlier
/// version of the text as a hint.
#[verifier::external_body]
pub(crate) fn parser_parse(parser: &mut Parser, text: &Vec<u8>, old_tree: Option<&Tree>) -> Option<
    Tree,
> {
    parser.parse(text, old_tree)
}

/// A copy of a tree, from the `Clone` impl of `Tree`.
#[verifier::external_body]
pub(crate) fn tree_clone(tree: &Tree) -> Tree {
    tree.clone()
}

/// Tells a tree of an edit of its text with `Tree::edit`.
#[verifier::external_body]
pub(crate) fn tree_edit(
    tree: &mut Tree,
    start_byte: usize,
    old_end_byte: usize,
    new_end_byte: usize,
    start_position: Point,
    old_end_position: Point,
    new_end_position: Point,
) {
    let at = |p: Point| tree_sitter::Point { row: p.row, column: p.column };
    let start_position = at(start_position);
    let old_end_position = at(old_end_position);
    let new_end_position = at(new_end_position);
    tree.edit(
        &InputEdit {
            start_byte,
            old_end_byte,
            new_end_byte,
            start_position,
            old_end_position,
            new_end_position,
        },
    )
}

/// A cursor at the root of a tree, from `Tree::walk`.
#[verifier::external_body]
pub(crate) fn tree_walk<'a>(tree: &'a Tree) -> TreeCursor<'a> {
    tree.walk()
}

/// The node that a cursor stands at, from `TreeCursor::node`.
#[verifier::external_body]
pub(crate) fn cursor_node<'a>(cursor: &TreeCursor<'a>) -> Node<'a> {
    cursor.node()
}

/// Moves a cursor to the first child of its node with
/// `TreeCursor::goto_first_child`, and says whether it moved.
#[verifier::external_body]
pub(crate) fn cursor_goto_first_child<'a>(cursor: &mut TreeCursor<'a>) -> bool {
    cursor.goto_first_child()
}

/// Moves a cursor to the next sibling of its node with
/// `TreeCursor::goto_next_sibling`, and says whether it moved.
#[verifier::external_body]
pub(crate) fn cursor_goto_next_sibling<'a>(cursor: &mut TreeCursor<'a>) -> bool {
    cursor.goto_next_sibling()
}

/// Moves a cursor to the parent of its node with
/// `TreeCursor::goto_parent`, and says whether it moved.
#[verifier::external_body]
pub(crate) fn cursor_goto_parent<'a>(cursor: &mut TreeCursor<'a>) -> bool {
    cursor.goto_parent()
}

/// The identity of a node, from `Node::id`.
#[verifier::external_body]
pub(crate) fn node_id<'a>(node: &Node<'a>) -> usize {
    node.id()
}

/// The label of a node, from `Node::kind`.
#[verifier::external_body]
pub(crate) fn node_kind<'a>(node: &Node<'a>) -> String {
    node.kind().to_string()
}

/// Where a node stands, from `Node::range`.
#[verifier::external_body]
pub(crate) fn node_range<'a>(node: &Node<'a>) -> TextRange {
    let range = node.range();
    TextRange {
        start_byte: range.start_byte,
        end_byte: range.end_byte,
        start_point: Point { row: range.start_point.row, column: range.start_point.column },
        end_point: Point { row: range.end_point.row, column: range.end_point.column },
    }
}

/// Whether a node is an error, from `Node::is_error`.
#[verifier::external_body]
pub(crate) fn node_is_error<'a>(node: &Node<'a>) -> bool {
    node.is_error()
}

/// Whether the parser made a node up, from `Node::is_missing`.
#[verifier::external_body]
pub(crate) fn node_is_missing<'a>(node: &Node<'a>) -> bool {
    node.is_missing()
}

/// The number of nodes at and below a node, from
/// `Node::descendant_count`.
#[verifier::external_body]
pub(crate) fn node_descendant_count<'a>(node: &Node<'a>) -> usize {
    node.descendant_count()
}

/// The identity of the smallest node that spans a point of the document,
/// from `Node::descendant_for_point_range` on the root of the tree.
#[verifier::external_body]
pub(crate) fn node_at_point(tree: &Tree, point: Point) -> Option<usize> {
    let at = tree_sitter::Point { row: point.row, column: point.column };
    tree.root_node().descendant_for_point_range(at, at).map(|node| node.id())
}

/// The nodes that were visited below a node whose children are being
/// visited, in document order.
pub struct Frame {
    /// The index that the first node visited below got.
    pub start: usize,
    /// The children visited so far.
    pub kids: Vec<usize>,
}

/// Whether the nodes `kids`, none of which has a parent yet, and their
/// descendants are exactly the nodes from `start` up to `end`.
pub open spec fn tiles(t: SyntaxTree, kids: Seq<usize>, start: int, end: int) -> bool {
    &&& 0 <= start <= end <= t.size()
    &&& kids.len() == 0 ==> start == end
    &&& kids.len() > 0 ==> t.nodes@[kids[0] as int].first == start && kids[kids.len() - 1] + 1
        == end
    &&& forall|k: int|
        0 <= k < kids.len() ==> start <= (#[trigger] kids[k]) < end && t.parents@[kids[k] as int]
            is None
    &&& forall|k: int|
        0 < k < kids.len() ==> t.nodes@[(#[trigger] kids[k]) as int].first == kids[k - 1] + 1
}

/// The index at which the nodes of frame `k` end: where the next frame
/// starts, or at `end`.
pub open spec fn frame_end(frames: Seq<Frame>, k: int, end: int) -> int {
    if k + 1 < frames.len() {
        frames[k + 1].start as int
    } else {
        end
    }
}

/// Whether the frames, from the outermost to the innermost, account for
/// all nodes before `end` that have no parent yet.
pub open spec fn stacked_until(t: SyntaxTree, frames: Seq<Frame>, end: int) -> bool {
    &&& frames.len() == 0 ==> end == 0
    &&& frames.len() > 0 ==> frames[0].start == 0
    &&& forall|k: int|
        0 <= k < frames.len() ==> tiles(
            t,
            (#[trigger] frames[k]).kids@,
            frames[k].start as int,
            frame_end(frames, k, end),
        )
}

/// Whether the frames, from the outermost to the innermost, account for
/// all nodes that have no parent yet.
pub open spec fn stacked(t: SyntaxTree, frames: Seq<Frame>) -> bool {
    frames.len() >= 1 && stacked_until(t, frames, t.size())
}

/// Whether the nodes written down so far are laid out as a tree asks,
/// with no identity used twice.
pub open spec fn grown(t: SyntaxTree) -> bool {
    &&& t.parents@.len() == t.nodes@.len()
    &&& forall|i: int| 0 <= i < t.size() ==> #[trigger] t.node_wf(i)
    &&& forall|i: int, j: int|
        0 <= i < t.size() && 0 <= j < t.size() && i != j ==> #[trigger] t.id(i) != #[trigger] t.id(
            j,
        )
}

/// The parents after the first `k` of `kids` were told that node `idx` is
/// their parent.
pub open spec fn adopted(parents: Seq<Option<usize>>, kids: Seq<usize>, k: int, idx: usize) -> Seq<
    Option<usize>,
>
    decreases k,
{
    if k <= 0 {
        parents
    } else {
        adopted(parents, kids, k - 1, idx).update(kids[k - 1] as int, Some(idx))
    }
}

/// Who the parent of a node is after the first `k` of `kids` were told
/// that node `idx` is theirs.
pub proof fn lemma_adopted(parents: Seq<Option<usize>>, kids: Seq<usize>, k: int, idx: usize)
    requires
        0 <= k <= kids.len(),
        forall|m: int| 0 <= m < kids.len() ==> (#[trigger] kids[m]) < parents.len(),
    ensures
        adopted(parents, kids, k, idx).len() == parents.len(),
        forall|m: int| 0 <= m < k ==> adopted(parents, kids, k, idx)[(#[trigger] kids[m]) as int]
            == Some(idx),
        forall|j: int|
            0 <= j < parents.len() && !(exists|m: int| 0 <= m < k && kids[m] == j)
                ==> #[trigger] adopted(parents, kids, k, idx)[j] == parents[j],
    decreases k,
{
    if k > 0 {
        lemma_adopted(parents, kids, k - 1, idx);
        let before = adopted(parents, kids, k - 1, idx);
        let after = adopted(parents, kids, k, idx);
        assert(kids[k - 1] < parents.len());
        assert forall|m: int| 0 <= m < k implies after[(#[trigger] kids[m]) as int] == Some(
            idx,
        ) by {
            if m < k - 1 {
                assert(before[kids[m] as int] == Some(idx));
            }
        }
        assert forall|j: int|
            0 <= j < parents.len() && !(exists|m: int| 0 <= m < k && kids[m] == j)
                implies #[trigger] after[j] == parents[j] by {
            assert(kids[k - 1] != j);
            if exists|m: int| 0 <= m < k - 1 && kids[m] == j {
                let m = choose|m: int| 0 <= m < k - 1 && kids[m] == j;
                assert(0 <= m < k && kids[m] == j);
            }
            assert(before[j] == parents[j]);
        }
    }
}

/// The tree with one more node, of which its children know.
pub open spec fn extended(t0: SyntaxTree, t2: SyntaxTree, node: SyntaxNode) -> bool {
    &&& t2.nodes@ == t0.nodes@.push(node)
    &&& t2.parents@ == adopted(
        t0.parents@.push(None),
        node.children@,
        node.children@.len() as int,
        t0.size() as usize,
    )
}

/// A node that is written down behind its children, which had no parent,
/// leaves the tree laid out as it was.
pub proof fn lemma_extended_old_nodes(t0: SyntaxTree, t2: SyntaxTree, node: SyntaxNode, j: int)
    requires
        grown(t0),
        extended(t0, t2, node),
        tiles(t0, node.children@, node.first as int, t0.size()),
        0 <= j < t0.size(),
    ensures
        t2.node_wf(j),
{
    let idx = t0.size();
    let kids = node.children@;
    t0.lemma_size_bounded();
    assert forall|m: int| 0 <= m < kids.len() implies (#[trigger] kids[m]) < t0.parents@.push(
        None,
    ).len() by {
        assert(node.first <= kids[m] < idx);
    }
    lemma_adopted(t0.parents@.push(None), kids, kids.len() as int, idx as usize);
    assert(t0.node_wf(j));
    let c = t0.nodes@[j].children@;
    assert(t2.nodes@[j] == t0.nodes@[j]);
    assert forall|m: int| 0 <= m < c.len() implies (#[trigger] c[m]) < j && t2.parent_is(
        c[m] as int,
        j,
    ) by {
        assert(c[m] < j);
        assert(t0.parent_is(c[m] as int, j));
        // A node that has a parent is none of the new children
        if exists|q: int| 0 <= q < kids.len() && kids[q] == c[m] {
            let q = choose|q: int| 0 <= q < kids.len() && kids[q] == c[m];
            assert(t0.parents@[kids[q] as int] is None);
        }
        assert(t2.parents@[c[m] as int] == t0.parents@.push(None)[c[m] as int]);
    }
    assert forall|m: int| 0 < m < c.len() implies t2.nodes@[(#[trigger] c[m]) as int].first == c[m
        - 1] + 1 by {
        assert(c[m] < j);
        assert(t0.nodes@[c[m] as int].first == c[m - 1] + 1);
    }
    if c.len() > 0 {
        assert(c[0] < j);
    }
    if exists|q: int| 0 <= q < kids.len() && kids[q] == j {
        let q = choose|q: int| 0 <= q < kids.len() && kids[q] == j;
        assert(t2.parents@[kids[q] as int] == Some(idx as usize));
        assert(t2.kid(idx, q) == j);
        assert(t2.arity(idx) == kids.len());
    } else {
        assert(t2.parents@[j] == t0.parents@.push(None)[j]);
        match t0.parents@[j] {
            Some(p) => {
                let m = choose|m: int|
                    0 <= m < t0.arity(p as int) && #[trigger] t0.kid(p as int, m) == j;
                assert(t2.kid(p as int, m) == j);
            },
            None => {},
        }
    }
}

/// A node that is written down behind its children, which had no parent,
/// is laid out as a tree asks.
pub proof fn lemma_extended_new_node(t0: SyntaxTree, t2: SyntaxTree, node: SyntaxNode)
    requires
        grown(t0),
        extended(t0, t2, node),
        tiles(t0, node.children@, node.first as int, t0.size()),
        node.kind == kind_of_label(node.label@),
    ensures
        t2.node_wf(t0.size()),
        t2.parents@[t0.size()] is None,
        t2.parents@.len() == t2.nodes@.len(),
        forall|j: int| 0 <= j < node.first ==> #[trigger] t2.parents@[j] == t0.parents@[j],
        forall|j: int|
            0 <= j < t0.size() && t0.parents@[j] is Some ==> #[trigger] t2.parents@[j]
                == t0.parents@[j],
{
    let idx = t0.size();
    let kids = node.children@;
    t0.lemma_size_bounded();
    assert forall|m: int| 0 <= m < kids.len() implies (#[trigger] kids[m]) < t0.parents@.push(
        None,
    ).len() by {
        assert(node.first <= kids[m] < idx);
    }
    lemma_adopted(t0.parents@.push(None), kids, kids.len() as int, idx as usize);
    assert(!(exists|m: int| 0 <= m < kids.len() && kids[m] == idx)) by {
        if exists|m: int| 0 <= m < kids.len() && kids[m] == idx {
            let m = choose|m: int| 0 <= m < kids.len() && kids[m] == idx;
            assert(node.first <= kids[m] < idx);
        }
    }
    assert(t2.parents@[idx] == t0.parents@.push(None)[idx]);
    assert(t2.nodes@[idx] == node);
    assert forall|m: int| 0 <= m < kids.len() implies (#[trigger] kids[m]) < idx && t2.parent_is(
        kids[m] as int,
        idx,
    ) by {
        assert(node.first <= kids[m] < idx);
        assert(t2.parents@[kids[m] as int] == Some(idx as usize));
    }
    assert forall|m: int| 0 < m < kids.len() implies t2.nodes@[(#[trigger] kids[m]) as int].first
        == kids[m - 1] + 1 by {
        assert(node.first <= kids[m] < idx);
        assert(t0.nodes@[kids[m] as int].first == kids[m - 1] + 1);
    }
    if kids.len() > 0 {
        assert(node.first <= kids[0] < idx);
    }
    assert forall|j: int| 0 <= j < node.first implies #[trigger] t2.parents@[j] == t0.parents@[j] by {
        if exists|m: int| 0 <= m < kids.len() && kids[m] == j {
            let m = choose|m: int| 0 <= m < kids.len() && kids[m] == j;
            assert(node.first <= kids[m] < idx);
        }
        assert(t2.parents@[j] == t0.parents@.push(None)[j]);
    }
    assert forall|j: int|
        0 <= j < t0.size() && t0.parents@[j] is Some implies #[trigger] t2.parents@[j]
        == t0.parents@[j] by {
        if exists|m: int| 0 <= m < kids.len() && kids[m] == j {
            let m = choose|m: int| 0 <= m < kids.len() && kids[m] == j;
            assert(t0.parents@[kids[m] as int] is None);
        }
        assert(t2.parents@[j] == t0.parents@.push(None)[j]);
    }
}

/// A node with a new identity that is written down behind its children
/// leaves a tree in which no identity is used twice.
pub proof fn lemma_extended_grown(t0: SyntaxTree, t2: SyntaxTree, node: SyntaxNode)
    requires
        grown(t0),
        extended(t0, t2, node),
        tiles(t0, node.children@, node.first as int, t0.size()),
        node.kind == kind_of_label(node.label@),
        !t0.ids().contains(node.id),
    ensures
        grown(t2),
        t2.ids() == t0.ids().insert(node.id),
        t2.size() == t0.size() + 1,
{
    let idx = t0.size();
    lemma_extended_new_node(t0, t2, node);
    assert forall|j: int| 0 <= j < t2.size() implies #[trigger] t2.node_wf(j) by {
        if j < idx {
            lemma_extended_old_nodes(t0, t2, node, j);
        }
    }
    assert forall|a: int, b: int|
        0 <= a < t2.size() && 0 <= b < t2.size() && a != b implies #[trigger] t2.id(a)
        != #[trigger] t2.id(b) by {
        if a < idx && b < idx {
            assert(t0.id(a) != t0.id(b));
        } else if a == idx {
            assert(t0.id(b) == t2.id(b));
            assert(t0.ids().contains(t0.id(b)));
        } else {
            assert(t0.id(a) == t2.id(a));
            assert(t0.ids().contains(t0.id(a)));
        }
    }
    assert forall|id: usize| t2.ids().contains(id) <==> t0.ids().insert(node.id).contains(id) by {
        if t2.ids().contains(id) {
            let j = choose|j: int| 0 <= j < t2.size() && #[trigger] t2.id(j) == id;
            if j < idx {
                assert(t0.id(j) == id);
            }
        }
        if t0.ids().contains(id) {
            let j = choose|j: int| 0 <= j < t0.size() && #[trigger] t0.id(j) == id;
            assert(t2.id(j) == id);
        }
        if id == node.id {
            assert(t2.id(idx) == id);
        }
    }
    assert(t2.ids() =~= t0.ids().insert(node.id));
}

/// Nodes that tile a range before the children of a new node still do so
/// when that node is written down.
pub proof fn lemma_tiles_kept(
    t0: SyntaxTree,
    t2: SyntaxTree,
    node: SyntaxNode,
    kids: Seq<usize>,
    start: int,
    end: int,
)
    requires
        grown(t0),
        extended(t0, t2, node),
        tiles(t0, node.children@, node.first as int, t0.size()),
        node.kind == kind_of_label(node.label@),
        tiles(t0, kids, start, end),
        end <= node.first,
    ensures
        tiles(t2, kids, start, end),
{
    lemma_extended_new_node(t0, t2, node);
    assert forall|k: int| 0 <= k < kids.len() implies start <= (#[trigger] kids[k]) < end
        && t2.parents@[kids[k] as int] is None by {
        assert(start <= kids[k] < end);
        assert(t2.parents@[kids[k] as int] == t0.parents@[kids[k] as int]);
    }
    assert forall|k: int| 0 < k < kids.len() implies t2.nodes@[(#[trigger] kids[k]) as int].first
        == kids[k - 1] + 1 by {
        assert(start <= kids[k] < end);
        assert(t0.nodes@[kids[k] as int].first == kids[k - 1] + 1);
    }
    if kids.len() > 0 {
        assert(start <= kids[0] < end);
    }
}

/// Nodes that tile the range up to the children of a new node tile the
/// range up to the end of the tree once that node is written down and
/// counted among them.
pub proof fn lemma_tiles_grown(
    t0: SyntaxTree,
    t2: SyntaxTree,
    node: SyntaxNode,
    kids: Seq<usize>,
    start: int,
)
    requires
        grown(t0),
        extended(t0, t2, node),
        tiles(t0, node.children@, node.first as int, t0.size()),
        node.kind == kind_of_label(node.label@),
        tiles(t0, kids, start, node.first as int),
    ensures
        tiles(t2, kids.push(t0.size() as usize), start, t0.size() + 1),
{
    let idx = t0.size();
    t0.lemma_size_bounded();
    lemma_extended_new_node(t0, t2, node);
    lemma_tiles_kept(t0, t2, node, kids, start, node.first as int);
    let ks = kids.push(idx as usize);
    assert(t2.nodes@[idx].first == node.first);
    assert forall|k: int| 0 <= k < ks.len() implies start <= (#[trigger] ks[k]) < idx + 1
        && t2.parents@[ks[k] as int] is None by {
        if k < kids.len() {
            assert(start <= kids[k] < node.first);
            assert(t2.parents@[kids[k] as int] is None);
        }
    }
    assert forall|k: int| 0 < k < ks.len() implies t2.nodes@[(#[trigger] ks[k]) as int].first
        == ks[k - 1] + 1 by {
        if k < kids.len() {
            assert(t2.nodes@[kids[k] as int].first == kids[k - 1] + 1);
        }
    }
    if kids.len() > 0 {
        assert(ks[0] == kids[0]);
        assert(start <= kids[0] < node.first);
    }
}

/// Takes the children of the node that is being written down from the
/// frames: those of the innermost frame where the cursor came up from
/// them, none otherwise.
fn take_children(frames: &mut Vec<Frame>, closing: bool, idx: usize, Ghost(t): Ghost<SyntaxTree>)
    -> (taken: (usize, Vec<usize>))
    requires
        stacked(t, old(frames)@),
        idx == t.size(),
    ensures
        tiles(t, taken.1@, taken.0 as int, t.size()),
        stacked_until(t, final(frames)@, taken.0 as int),
{
    let ghost f0 = frames@;
    if closing {
        match frames.pop() {
            Some(frame) => {
                proof {
                    let top = f0.len() - 1;
                    let f1 = frames@;
                    assert(f1 =~= f0.take(top));
                    assert(f0[top] == frame);
                    assert(tiles(t, f0[top].kids@, f0[top].start as int, t.size()));
                    assert forall|k: int| 0 <= k < f1.len() implies tiles(
                        t,
                        (#[trigger] f1[k]).kids@,
                        f1[k].start as int,
                        frame_end(f1, k, frame.start as int),
                    ) by {
                        assert(f1[k] == f0[k]);
                        assert(tiles(
                            t,
                            f0[k].kids@,
                            f0[k].start as int,
                            frame_end(f0, k, t.size()),
                        ));
                        if k + 1 < f1.len() {
                            assert(f1[k + 1] == f0[k + 1]);
                        }
                    }
                    if f1.len() > 0 {
                        assert(f1[0] == f0[0]);
                    } else {
                        assert(f0[0] == frame);
                    }
                }
                (frame.start, frame.kids)
            },
            None => (idx, Vec::new()),
        }
    } else {
        (idx, Vec::new())
    }
}

/// Writes a node down behind the last node of the tree and tells its
/// children that it is their parent.
fn append_node(out: &mut SyntaxTree, node: SyntaxNode) -> (copy: Ghost<SyntaxNode>)
    requires
        grown(*old(out)),
        tiles(*old(out), node.children@, node.first as int, old(out).size()),
    ensures
        copy@ == node,
        extended(*old(out), *final(out), node),
{
    let idx = out.nodes.len();
    let ghost t0 = *out;
    let ghost kids = node.children@;
    let ghost unclaimed = t0.parents@.push(None);
    let ghost copy = node;
    out.nodes.push(node);
    out.parents.push(None);
    let n = out.nodes[idx].children.len();
    let mut k: usize = 0;
    while k < n
        invariant
            idx == t0.size(),
            out.nodes@ == t0.nodes@.push(copy),
            unclaimed == t0.parents@.push(None),
            t0.parents@.len() == t0.nodes@.len(),
            copy.children@ == kids,
            n == kids.len(),
            k <= n,
            forall|m: int| 0 <= m < kids.len() ==> (#[trigger] kids[m]) < idx,
            out.parents@ == adopted(unclaimed, kids, k as int, idx),
        decreases n - k,
    {
        let child = out.nodes[idx].children[k];
        proof {
            assert(kids[k as int] < idx);
            lemma_adopted(unclaimed, kids, k as int, idx);
        }
        out.parents.set(child, Some(idx));
        k = k + 1;
    }
    Ghost(copy)
}

/// Counts the node that was written down last among those of the
/// innermost frame; where no frame is left, the node is the first of a
/// new outermost frame.
fn count_in_frame(frames: &mut Vec<Frame>, idx: usize, start: usize) -> (shape: Ghost<
    (Seq<Frame>, Frame),
>)
    requires
        old(frames)@.len() == 0 ==> start == 0,
    ensures
        final(frames)@.len() >= 1,
        old(frames)@.len() >= 1 ==> {
            &&& final(frames)@.len() == old(frames)@.len()
            &&& forall|k: int|
                0 <= k < old(frames)@.len() - 1 ==> #[trigger] final(frames)@[k] == old(frames)@[k]
            &&& final(frames)@[old(frames)@.len() - 1].start == old(frames)@[old(frames)@.len()
                - 1].start
            &&& final(frames)@[old(frames)@.len() - 1].kids@ == old(frames)@[old(frames)@.len()
                - 1].kids@.push(idx)
        },
        old(frames)@.len() == 0 ==> {
            &&& final(frames)@.len() == 1
            &&& final(frames)@[0].start == 0
            &&& final(frames)@[0].kids@ == Seq::<usize>::empty().push(idx)
        },
{
    let ghost f0 = frames@;
    let mut top = match frames.pop() {
        Some(frame) => frame,
        None => Frame { start, kids: Vec::new() },
    };
    let ghost below = frames@;
    top.kids.push(idx);
    frames.push(top);
    proof {
        if f0.len() >= 1 {
            assert(below =~= f0.take(f0.len() - 1));
            assert forall|k: int| 0 <= k < f0.len() - 1 implies #[trigger] frames@[k] == f0[k] by {
                assert(frames@[k] == below[k]);
            }
        }
    }
    Ghost((f0, top))
}

/// Writes down the last node visited: it becomes the last node of the
/// tree, the parent of the nodes of the innermost frame where `closing`
/// says that these are its children, and a node of the frame around it.
fn place(out: &mut SyntaxTree, frames: &mut Vec<Frame>, data: SyntaxNode, closing: bool)
    requires
        grown(*old(out)),
        stacked(*old(out), old(frames)@),
        !old(out).ids().contains(data.id),
        data.kind == kind_of_label(data.label@),
    ensures
        grown(*final(out)),
        stacked(*final(out), final(frames)@),
        final(out).ids() == old(out).ids().insert(data.id),
        final(out).size() == old(out).size() + 1,
        forall|j: int| 0 <= j < old(out).size() ==> #[trigger] final(out).nodes@[j] == old(out).nodes@[j],
        final(out).nodes@[old(out).size()].kind == data.kind,
        final(out).nodes@[old(out).size()].range == data.range,
        final(out).nodes@[old(out).size()].text == data.text,
{
    let idx = out.nodes.len();
    let ghost t0 = *out;
    let (start, children) = take_children(frames, closing, idx, Ghost(t0));
    let ghost f1 = frames@;
    let node = SyntaxNode {
        id: data.id,
        kind: data.kind,
        label: data.label,
        range: data.range,
        is_error: data.is_error,
        is_missing: data.is_missing,
        text: data.text,
        first: start,
        children,
    };
    let Ghost(copy) = append_node(out, node);
    let ghost t2 = *out;
    proof {
        lemma_extended_grown(t0, t2, copy);
    }
    let _ = count_in_frame(frames, idx, start);
    proof {
        let f2 = frames@;
        assert forall|k: int| 0 <= k < f2.len() implies tiles(
            t2,
            (#[trigger] f2[k]).kids@,
            f2[k].start as int,
            frame_end(f2, k, t2.size()),
        ) by {
            if f1.len() >= 1 {
                let last = f1.len() - 1;
                assert(tiles(
                    t0,
                    f1[last].kids@,
                    f1[last].start as int,
                    start as int,
                ));
                if k < last {
                    assert(f2[k] == f1[k]);
                    let e = f1[k + 1].start as int;
                    assert(tiles(t0, f1[k].kids@, f1[k].start as int, e));
                    lemma_frames_ordered(t0, f1, start as int, k + 1);
                    lemma_tiles_kept(t0, t2, copy, f1[k].kids@, f1[k].start as int, e);
                    if k + 1 < last {
                        assert(f2[k + 1] == f1[k + 1]);
                    }
                } else {
                    lemma_tiles_grown(t0, t2, copy, f1[last].kids@, f1[last].start as int);
                }
            } else {
                assert(start == 0);
                assert(tiles(t0, Seq::<usize>::empty(), 0, 0));
                lemma_tiles_grown(t0, t2, copy, Seq::<usize>::empty(), 0);
            }
        }
        if f1.len() >= 1 && f1.len() > 1 {
            assert(f2[0] == f1[0]);
        }
    }
}

/// Every frame starts no later than the nodes that the frames account for
/// end.
pub proof fn lemma_frames_ordered(t: SyntaxTree, frames: Seq<Frame>, end: int, k: int)
    requires
        stacked_until(t, frames, end),
        0 <= k < frames.len(),
    ensures
        frames[k].start <= end,
    decreases frames.len() - k,
{
    assert(tiles(t, frames[k].kids@, frames[k].start as int, frame_end(frames, k, end)));
    if k + 1 < frames.len() {
        lemma_frames_ordered(t, frames, end, k + 1);
    }
}

/// Writes down the tree that the parser made of a document, with the text
/// of the nodes whose text the analysis reads. Nothing comes out where the
/// tree disagrees with itself or with the text: where the walk does not
/// end within twice the number of nodes that the root counts, where an
/// identity comes up twice, where the walk does not end at one root, or
/// where a node does not span text of the document.
pub fn snapshot(tree: &Tree, source: &Rope) -> (result: Option<SyntaxTree>)
    ensures
        result matches Some(t) ==> t.wf() && t.size() > 0 && t.texts_from(rope_text(*source)),
{
    let mut cursor = tree_walk(tree);
    let root = cursor_node(&cursor);
    let count = node_descendant_count(&root);
    let mut fuel: usize = if count <= usize::MAX / 2 {
        2 * count
    } else {
        usize::MAX
    };
    let mut out = SyntaxTree::new();
    let mut frames: Vec<Frame> = Vec::new();
    frames.push(Frame { start: 0, kids: Vec::new() });
    let mut seen: HashSet<usize> = HashSet::new();
    let mut closing = false;
    proof {
        assert(out.ids() =~= Set::<usize>::empty());
        assert(frames@[0].kids@.len() == 0);
    }
    while fuel > 0
        invariant
            grown(out),
            stacked(out, frames@),
            seen@ == out.ids(),
            out.texts_from(rope_text(*source)),
        decreases fuel,
    {
        fuel = fuel - 1;
        if !closing && cursor_goto_first_child(&mut cursor) {
            // Go down first: a node is written down after its children
            let ghost f0 = frames@;
            frames.push(Frame { start: out.nodes.len(), kids: Vec::new() });
            proof {
                let f1 = frames@;
                assert forall|k: int| 0 <= k < f1.len() implies tiles(
                    out,
                    (#[trigger] f1[k]).kids@,
                    f1[k].start as int,
                    frame_end(f1, k, out.size()),
                ) by {
                    if k < f0.len() {
                        assert(f1[k] == f0[k]);
                        assert(tiles(out, f0[k].kids@, f0[k].start as int, frame_end(f0, k, out.size())));
                        if k + 1 < f0.len() {
                            assert(f1[k + 1] == f0[k + 1]);
                        }
                    }
                }
            }
        } else {
            let node = cursor_node(&cursor);
            let id = node_id(&node);
            if seen.contains(&id) {
                return None;
            }
            seen.insert(id);
            let label = node_kind(&node);
            let kind = NodeKind::from_label(label.as_str());
            let range = node_range(&node);
            let text = if kind.has_text() {
                match rope_slice(source, range.start_byte, range.end_byte) {
                    Some(text) => text,
                    None => {
                        return None;
                    },
                }
            } else {
                String::new()
            };
            let data = SyntaxNode {
                id,
                kind,
                label,
                range,
                is_error: node_is_error(&node),
                is_missing: node_is_missing(&node),
                text,
                first: 0,
                children: Vec::new(),
            };
            place(&mut out, &mut frames, data, closing);
            if cursor_goto_next_sibling(&mut cursor) {
                closing = false;
            } else if cursor_goto_parent(&mut cursor) {
                closing = true;
            } else {
                // The walk is over: the root was the last node
                if frames.len() == 1 && frames[0].kids.len() == 1 {
                    proof {
                        assert(tiles(out, frames@[0].kids@, 0, frame_end(frames@, 0, out.size())));
                        let r = frames@[0].kids@[0];
                        assert(r + 1 == out.size());
                    }
                    return Some(out);
                }
                return None;
            }
        }
    }
    None
}

} // verus!
