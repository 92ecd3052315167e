//! A document: its text, the tree that the parser made of it, and what
//! the analysis knows of it.

use crate::dirty_ranges::{all_in_order, ordered, touches, DirtyRanges};
use crate::parser::{parser_parse, snapshot, tree_clone, tree_edit};
use crate::protocol::{
    changes_view, ChangeFacts, Position, PositionRange, TextDocumentContentChangeEvent,
};
use crate::semantics::encoding_semantic::EncodingSemantics;
use crate::semantics::incremental::{
    from_scratch, lemma_incremental_pass_is_from_scratch, rests_on_current,
};
use crate::semantics::laws::{
    lemma_index_ignores_positions, lemma_index_made_of_nodes, locations, made_of_nodes, same_shape,
};
use crate::semantics::pass::analysed;
use crate::semantics::predicate_semantics::{counted, indexed};
use crate::semantics::syntax::{errors_in, missing_in};
use crate::source::{
    bytes_before, line_of, line_start, line_start_byte, rope_bytes, rope_char_to_byte,
    rope_char_to_line, rope_clone, rope_insert, rope_line_to_byte, rope_line_to_char, rope_remove,
    rope_slice, rope_text, slice_between, with_inserted, without,
};
use crate::syntax_tree::{Point, SyntaxTree, TextRange};
use ropey::Rope;
use tree_sitter::{Parser, Tree};
use vstd::prelude::*;
use vstd::string::StrSliceExecFns;
use vstd::utf8::encode_utf8;

verus! {

/// Why a document could not be updated.
#[derive(Clone, Copy, Debug, PartialEq, Eq, Structural)]
pub enum UpdateError {
    /// The change with this index names no range, or one that is no
    /// range of the text that the changes before it left.
    InvalidChange(usize),
    /// The parser gave no tree for the new text.
    ParseFailed,
    /// The tree of the parser could not be written down.
    InconsistentTree,
}

/// A document that is open in the editor.
#[derive(Debug)]
pub struct DocumentData {
    /// The address of the document.
    pub uri: String,
    /// The tree that the parser made of the text.
    pub tree: Tree,
    /// The text.
    pub source: Rope,
    /// The version of the text, as the client counts it.
    pub version: i32,
    /// What the analysis knows of the document.
    pub semantics: EncodingSemantics,
    /// The tree as the analysis saw it last.
    pub syntax: SyntaxTree,
}

/// The index of the character at a position in a text; `None` where the
/// text has no such line or the index does not fit a machine word.
pub open spec fn char_index(text: Seq<char>, position: Position) -> Option<usize> {
    match line_start(text, position.line as usize) {
        Some(start) => if start + position.character <= usize::MAX {
            Some((start + position.character) as usize)
        } else {
            None
        },
        None => None,
    }
}

/// What one change does to a text.
pub struct Edit {
    /// The text after the change.
    pub text: Seq<char>,
    /// The byte at which the changed range starts.
    pub start_byte: usize,
    /// The byte at which the changed range ended before the change.
    pub old_end_byte: usize,
    /// The byte at which the new text ends.
    pub new_end_byte: usize,
    /// The line and byte column at which the new text ends.
    pub new_end_position: Point,
}

/// Where the new text of a change ends that put text up to byte
/// `new_end_byte`, which is character `new_end_char`, into what is now
/// `after`.
pub open spec fn end_position(after: Seq<char>, new_end_char: usize, new_end_byte: usize) -> Option<
    Point,
> {
    match line_of(after, new_end_char) {
        Some(line) => match line_start_byte(after, line) {
            Some(line_byte) => if line_byte <= new_end_byte {
                Some(Point { row: line, column: (new_end_byte - line_byte) as usize })
            } else {
                None
            },
            None => None,
        },
        None => None,
    }
}

/// What the change of `range` to `new_text` does to `text`; `None` where
/// the range is no range of the text.
pub open spec fn edit_of(text: Seq<char>, range: PositionRange, new_text: Seq<char>) -> Option<
    Edit,
> {
    match (char_index(text, range.start), char_index(text, range.end)) {
        (Some(start_char), Some(end_char)) => {
            let new_end_char = start_char + new_text.len();
            let new_end_byte = bytes_before(text, start_char as int) + encode_utf8(new_text).len();
            if start_char <= end_char && end_char <= text.len() && new_end_char <= usize::MAX
                && new_end_byte <= usize::MAX {
                let after = with_inserted(
                    without(text, start_char as int, end_char as int),
                    start_char as int,
                    new_text,
                );
                match end_position(after, new_end_char as usize, new_end_byte as usize) {
                    Some(new_end_position) => Some(
                        Edit {
                            text: after,
                            start_byte: bytes_before(text, start_char as int) as usize,
                            old_end_byte: bytes_before(text, end_char as int) as usize,
                            new_end_byte: new_end_byte as usize,
                            new_end_position,
                        },
                    ),
                    None => None,
                }
            } else {
                None
            }
        },
        _ => None,
    }
}

/// A text and the byte ranges that changes to it touched.
pub struct Progress {
    pub text: Seq<char>,
    pub ranges: Seq<(usize, usize)>,
}

/// What the first `n` of `changes` make of `text`, and the byte ranges
/// they touch: for every change its start and the end of its new text.
/// `None` where one of them cannot be applied: it names no range, or one
/// that is no range of the text.
pub open spec fn progress(text: Seq<char>, changes: Seq<ChangeFacts>, n: int) -> Option<Progress>
    decreases n,
{
    if n <= 0 {
        Some(Progress { text, ranges: Seq::empty() })
    } else {
        match progress(text, changes, n - 1) {
            Some(before) => match changes[n - 1].range {
                Some(range) => match edit_of(before.text, range, changes[n - 1].text) {
                    Some(edit) => Some(
                        Progress {
                            text: edit.text,
                            ranges: before.ranges.push((edit.start_byte, edit.new_end_byte)),
                        },
                    ),
                    None => None,
                },
                None => None,
            },
            None => None,
        }
    }
}

/// Whether two byte ranges overlap.
pub open spec fn overlapping(a: (usize, usize), b: (usize, usize)) -> bool {
    a.0 < b.1 && a.1 > b.0
}

/// The smallest range that holds two ranges.
pub open spec fn hull(a: (usize, usize), b: (usize, usize)) -> (usize, usize) {
    (
        if b.0 < a.0 {
            b.0
        } else {
            a.0
        },
        if b.1 > a.1 {
            b.1
        } else {
            a.1
        },
    )
}

/// The first of `ranges`, from index `from` on, that overlaps `range`.
pub open spec fn first_overlap(ranges: Seq<(usize, usize)>, range: (usize, usize), from: int)
    -> Option<int>
    decreases ranges.len() - from,
{
    if from < 0 || from >= ranges.len() {
        None
    } else if overlapping(range, ranges[from]) {
        Some(from)
    } else {
        first_overlap(ranges, range, from + 1)
    }
}

/// The ranges with one more range: it widens the first range that it
/// overlaps, or is added as a range of its own.
pub open spec fn absorbed(ranges: Seq<(usize, usize)>, range: (usize, usize)) -> Seq<
    (usize, usize),
> {
    match first_overlap(ranges, range, 0) {
        Some(i) => ranges.update(i, hull(ranges[i], range)),
        None => ranges.push(range),
    }
}

/// The first `n` of `raw`, with overlapping ranges combined.
pub open spec fn merged(raw: Seq<(usize, usize)>, n: int) -> Seq<(usize, usize)>
    decreases n,
{
    if n <= 0 {
        Seq::empty()
    } else {
        absorbed(merged(raw, n - 1), raw[n - 1])
    }
}

/// The dirty ranges that a pass is told of when it is given
/// `changed_ranges`.
pub open spec fn dirty_set(changed_ranges: Option<Vec<(usize, usize)>>) -> Option<
    Set<(usize, usize)>,
> {
    match changed_ranges {
        Some(ranges) => Some(all_in_order(ranges@).to_set()),
        None => None,
    }
}

/// Combining ranges keeps their ends in order.
pub proof fn lemma_merged_ordered(raw: Seq<(usize, usize)>, n: int)
    requires
        ordered(raw),
        0 <= n <= raw.len(),
    ensures
        ordered(merged(raw, n)),
    decreases n,
{
    if n > 0 {
        lemma_merged_ordered(raw, n - 1);
        let before = merged(raw, n - 1);
        let r = raw[n - 1];
        assert(r.0 <= r.1);
        match first_overlap(before, r, 0) {
            Some(i) => {
                lemma_first_overlap(before, r, 0);
                assert(before[i].0 <= before[i].1);
            },
            None => {},
        }
    }
}

/// The first overlapping range is a range of the sequence.
pub proof fn lemma_first_overlap(ranges: Seq<(usize, usize)>, range: (usize, usize), from: int)
    requires
        0 <= from,
    ensures
        first_overlap(ranges, range, from) matches Some(i) ==> from <= i < ranges.len()
            && overlapping(range, ranges[i]),
    decreases ranges.len() - from,
{
    if from < ranges.len() && !overlapping(range, ranges[from]) {
        lemma_first_overlap(ranges, range, from + 1);
    }
}

/// Whether range `a` lies within range `b`.
pub open spec fn within(a: (usize, usize), b: (usize, usize)) -> bool {
    b.0 <= a.0 && a.1 <= b.1
}

/// Every range lies within one of the combined ranges.
pub proof fn lemma_merged_covers(raw: Seq<(usize, usize)>, n: int, k: int)
    requires
        0 <= k < n <= raw.len(),
    ensures
        exists|j: int| 0 <= j < merged(raw, n).len() && within(raw[k], #[trigger] merged(raw, n)[j]),
    decreases n,
{
    let before = merged(raw, n - 1);
    let after = merged(raw, n);
    let r = raw[n - 1];
    lemma_first_overlap(before, r, 0);
    match first_overlap(before, r, 0) {
        Some(i) => {
            if k < n - 1 {
                lemma_merged_covers(raw, n - 1, k);
                let j = choose|j: int| 0 <= j < before.len() && within(raw[k], #[trigger] before[j]);
                assert(within(raw[k], after[j]));
            } else {
                assert(within(raw[k], after[i]));
            }
        },
        None => {
            if k < n - 1 {
                lemma_merged_covers(raw, n - 1, k);
                let j = choose|j: int| 0 <= j < before.len() && within(raw[k], #[trigger] before[j]);
                assert(within(raw[k], after[j]));
            } else {
                assert(within(raw[k], after[before.len() as int]));
            }
        },
    }
}

/// Combining ranges loses nothing: whatever one of the ranges overlaps,
/// one of the combined ranges overlaps too.
pub proof fn lemma_merged_touches(raw: Seq<(usize, usize)>, start: usize, end: usize)
    requires
        touches(raw.to_set(), start, end),
    ensures
        touches(merged(raw, raw.len() as int).to_set(), start, end),
{
    let r = choose|r: (usize, usize)| #[trigger] raw.to_set().contains(r) && r.0 < end && r.1 > start;
    let k = choose|k: int| 0 <= k < raw.len() && raw[k] == r;
    lemma_merged_covers(raw, raw.len() as int, k);
    let all = merged(raw, raw.len() as int);
    let j = choose|j: int| 0 <= j < all.len() && within(raw[k], #[trigger] all[j]);
    assert(all.to_set().contains(all[j]));
}

/// Combine the ranges that overlap: as only the start and the end of a
/// range count, fewer ranges make the analysis faster.
pub fn merge_ranges(raw: &Vec<(usize, usize)>) -> (changed_ranges: Vec<(usize, usize)>)
    ensures
        changed_ranges@ == merged(raw@, raw@.len() as int),
{
    let mut changed_ranges: Vec<(usize, usize)> = Vec::new();
    let mut n: usize = 0;
    while n < raw.len()
        invariant
            n <= raw.len(),
            changed_ranges@ == merged(raw@, n as int),
        decreases raw.len() - n,
    {
        let (range_start, range_end) = raw[n];
        let mut found = false;
        let mut i: usize = 0;
        let ghost before = changed_ranges@;
        while i < changed_ranges.len() && !found
            invariant
                i <= changed_ranges.len(),
                before == merged(raw@, n as int),
                n < raw.len(),
                raw@[n as int] == (range_start, range_end),
                !found ==> changed_ranges@ == before && first_overlap(
                    before,
                    (range_start, range_end),
                    0,
                ) == first_overlap(before, (range_start, range_end), i as int),
                found ==> changed_ranges@ == absorbed(before, (range_start, range_end)),
            decreases changed_ranges.len() - i + (if found { 0int } else { 1int }),
        {
            // Is this range overlapping the changed range?
            if range_start < changed_ranges[i].1 && range_end > changed_ranges[i].0 {
                // If so we extend the start and the end of the changed range
                let mut start = changed_ranges[i].0;
                let mut end = changed_ranges[i].1;
                if range_start < start {
                    start = range_start;
                }
                if range_end > end {
                    end = range_end;
                }
                changed_ranges.set(i, (start, end));
                found = true;
            } else {
                i = i + 1;
            }
        }
        if !found {
            changed_ranges.push((range_start, range_end));
        }
        n = n + 1;
    }
    changed_ranges
}

impl DocumentData {
    /// The characters of the text.
    pub open spec fn text(self) -> Seq<char> {
        rope_text(self.source)
    }

    /// Whether `syntax` holds the text of the document, and what the
    /// analysis knows is what a pass over `syntax` left.
    pub open spec fn wf(self) -> bool {
        &&& self.syntax.wf()
        &&& self.syntax.texts_from(self.text())
        &&& self.semantics.inv()
        &&& self.semantics.attribute_map().dom() == self.syntax.ids()
        &&& self.semantics.syntax.errors() == errors_in(self.syntax, self.syntax.size())
        &&& self.semantics.syntax.missing() == missing_in(self.syntax, self.syntax.size())
        &&& self.semantics.predicate_semantics.index() == indexed(self.syntax, self.syntax.size())
        &&& self.semantics.predicate_semantics.arities() == counted(
            self.syntax,
            self.syntax.size(),
        )
    }

    /// A document of which nothing is known yet but its text and the tree
    /// that the parser made of it.
    pub fn new(uri: String, tree: Tree, source: Rope, version: i32) -> (document: DocumentData)
        ensures
            document.wf(),
            document.uri == uri,
            document.source == source,
            document.version == version,
            document.syntax.size() == 0,
    {
        let document = DocumentData {
            uri,
            tree,
            source,
            version,
            semantics: EncodingSemantics::new(),
            syntax: SyntaxTree::new(),
        };
        proof {
            assert(document.syntax.ids() =~= Set::<usize>::empty());
            assert(document.semantics.attribute_map().dom() =~= document.syntax.ids());
        }
        document
    }

    /// The text in UTF-8.
    pub fn get_bytes(&self) -> (bytes: Vec<u8>)
        ensures
            bytes@ == encode_utf8(self.text()),
    {
        rope_bytes(&self.source)
    }

    /// The point in the tree that a position of the client stands for.
    pub fn convert_position_to_point(position: Position) -> (point: Point)
        ensures
            point.row == position.line,
            point.column == position.character,
    {
        Point { row: position.line as usize, column: position.character as usize }
    }

    /// The text of a range; nothing where the range is no range of the
    /// text.
    pub fn get_source_for_range(&self, range: TextRange) -> (text: String)
        ensures
            text@ == (match slice_between(self.text(), range.start_byte, range.end_byte) {
                Some(slice) => slice,
                None => Seq::empty(),
            }),
    {
        match rope_slice(&self.source, range.start_byte, range.end_byte) {
            Some(text) => text,
            None => String::new(),
        }
    }

    /// The index of the character at a position.
    fn position_to_char(source: &Rope, position: Position) -> (index: Option<usize>)
        ensures
            index == char_index(rope_text(*source), position),
    {
        match rope_line_to_char(source, position.line as usize) {
            Some(start) => start.checked_add(position.character as usize),
            None => None,
        }
    }

    /// Where the new text of a change ends.
    fn position_of_end(source: &Rope, new_end_char: usize, new_end_byte: usize) -> (point: Option<
        Point,
    >)
        ensures
            point == end_position(rope_text(*source), new_end_char, new_end_byte),
    {
        match rope_char_to_line(source, new_end_char) {
            Some(line) => match rope_line_to_byte(source, line) {
                Some(line_byte) => if line_byte <= new_end_byte {
                    Some(Point { row: line, column: new_end_byte - line_byte })
                } else {
                    None
                },
                None => None,
            },
            None => None,
        }
    }

    /// Applies one change to the text and tells the tree of it. Returns the
    /// byte range that the change touched, or nothing where the range of
    /// the change is no range of the text; the text may then be changed in
    /// part.
    fn apply_change(source: &mut Rope, tree: &mut Tree, range: PositionRange, text: &String) -> (touched:
        Option<(usize, usize)>)
        ensures
            match edit_of(rope_text(*old(source)), range, text@) {
                Some(edit) => touched == Some((edit.start_byte, edit.new_end_byte)) && rope_text(
                    *final(source),
                ) == edit.text && edit.start_byte <= edit.new_end_byte,
                None => touched is None,
            },
    {
        // Figure out where we should replace this rope
        let start_char = match Self::position_to_char(source, range.start) {
            Some(index) => index,
            None => {
                return None;
            },
        };
        let end_char = match Self::position_to_char(source, range.end) {
            Some(index) => index,
            None => {
                return None;
            },
        };
        let start_byte = match rope_char_to_byte(source, start_char) {
            Some(byte) => byte,
            None => {
                return None;
            },
        };
        let old_end_byte = match rope_char_to_byte(source, end_char) {
            Some(byte) => byte,
            None => {
                return None;
            },
        };
        let new_end_char = match start_char.checked_add(text.as_str().unicode_len()) {
            Some(index) => index,
            None => {
                return None;
            },
        };
        let new_end_byte = match start_byte.checked_add(text.as_str().as_bytes().len()) {
            Some(byte) => byte,
            None => {
                return None;
            },
        };
        // First remove the range from the rope
        if !rope_remove(source, start_char, end_char) {
            return None;
        }
        proof {
            let before = rope_text(*old(source));
            assert(rope_text(*source) == without(before, start_char as int, end_char as int));
            assert(without(before, start_char as int, end_char as int).len() == before.len() - (
            end_char - start_char));
        }
        // Then add the new changes to the rope
        if !rope_insert(source, start_char, text.as_str()) {
            return None;
        }
        let new_end_position = match Self::position_of_end(source, new_end_char, new_end_byte) {
            Some(point) => point,
            None => {
                return None;
            },
        };
        // Update the syntax tree
        tree_edit(
            tree,
            start_byte,
            old_end_byte,
            new_end_byte,
            Self::convert_position_to_point(range.start),
            Self::convert_position_to_point(range.end),
            new_end_position,
        );
        Some((start_byte, new_end_byte))
    }

    /// Applies the changes to the text, parses the text anew with the old
    /// tree as a hint, and brings the analysis up to date, looking again
    /// only at what the changes touched. Where that cannot be done, the
    /// document is as it was: an edit is applied as a whole or not at all.
    ///
    /// What is then stored of the nodes is what an analysis of the new
    /// tree from scratch leaves, provided that what the pass keeps is
    /// current and that it looks at a node again whenever it looks at one
    /// of its children; whether that is so depends on the identities that
    /// the parser keeps. The predicate index holds the nodes of the new
    /// tree, and where the new tree has the shape of the old one, as after
    /// a change of white space, it holds the same predicates with the same
    /// number of occurences at the same locations.
    pub fn update_document(
        &mut self,
        changes: Vec<TextDocumentContentChangeEvent>,
        parser: &mut Parser,
    ) -> (result: Result<(), UpdateError>)
        requires
            old(self).wf(),
        ensures
            final(self).wf(),
            result is Err ==> *final(self) == *old(self),
            match result {
                Ok(_) => {
                    let made = progress(
                        old(self).text(),
                        changes_view(changes@),
                        changes@.len() as int,
                    );
                    &&& made is Some
                    &&& final(self).text() == made.unwrap().text
                    &&& final(self).semantics.attribute_map() == analysed(
                        final(self).syntax,
                        old(self).semantics.attribute_map(),
                        Some(
                            merged(
                                made.unwrap().ranges,
                                made.unwrap().ranges.len() as int,
                            ).to_set(),
                        ),
                    )
                    &&& final(self).uri == old(self).uri
                    &&& final(self).version == old(self).version
                    &&& rests_on_current(
                        final(self).syntax,
                        old(self).semantics.attribute_map(),
                        merged(made.unwrap().ranges, made.unwrap().ranges.len() as int).to_set(),
                    ) ==> final(self).semantics.attribute_map() == from_scratch(final(self).syntax)
                    &&& same_shape(old(self).syntax, final(self).syntax) ==> {
                        &&& final(self).semantics.predicate_semantics.index().dom() == old(
                            self,
                        ).semantics.predicate_semantics.index().dom()
                        &&& locations(final(self).semantics.predicate_semantics.index())
                            == locations(old(self).semantics.predicate_semantics.index())
                    }
                    &&& made_of_nodes(
                        final(self).semantics.predicate_semantics.index(),
                        final(self).syntax,
                        final(self).syntax.size() as int,
                    )
                },
                Err(UpdateError::InvalidChange(k)) => {
                    &&& k < changes@.len()
                    &&& progress(old(self).text(), changes_view(changes@), k as int) is Some
                    &&& progress(old(self).text(), changes_view(changes@), k + 1) is None
                },
                Err(_) => progress(
                    old(self).text(),
                    changes_view(changes@),
                    changes@.len() as int,
                ) is Some,
            },
    {
        let mut source = rope_clone(&self.source);
        let mut tree = tree_clone(&self.tree);
        let mut touched: Vec<(usize, usize)> = Vec::new();
        let ghost all = changes_view(changes@);
        // Go over each change in order and apply them to the rope
        let mut n: usize = 0;
        while n < changes.len()
            invariant
                n <= changes.len(),
                all == changes_view(changes@),
                progress(old(self).text(), all, n as int) == Some(
                    Progress { text: rope_text(source), ranges: touched@ },
                ),
                ordered(touched@),
                *self == *old(self),
                old(self).wf(),
            decreases changes.len() - n,
        {
            proof {
                assert(all[n as int] == changes@[n as int]@);
            }
            match changes[n].range {
                Some(range) => {
                    match Self::apply_change(&mut source, &mut tree, range, &changes[n].text) {
                        Some(range) => {
                            touched.push(range);
                        },
                        None => {
                            return Err(UpdateError::InvalidChange(n));
                        },
                    }
                },
                // A change has to say which range it replaces
                None => {
                    return Err(UpdateError::InvalidChange(n));
                },
            }
            n = n + 1;
        }
        let bytes = rope_bytes(&source);
        let tree = match parser_parse(parser, &bytes, Some(&tree)) {
            Some(tree) => tree,
            None => {
                return Err(UpdateError::ParseFailed);
            },
        };
        let syntax = match snapshot(&tree, &source) {
            Some(syntax) => syntax,
            None => {
                return Err(UpdateError::InconsistentTree);
            },
        };
        // As only the start and the end of a range count, we combine overlapping ranges
        let changed_ranges = merge_ranges(&touched);
        proof {
            lemma_merged_ordered(touched@, touched@.len() as int);
        }
        let dirty = Some(DirtyRanges::covering(&changed_ranges));
        proof {
            assert(all_in_order(changed_ranges@) =~= changed_ranges@);
        }
        self.semantics.analyze(&syntax, &dirty);
        proof {
            let stored = old(self).semantics.attribute_map();
            let ranges = changed_ranges@.to_set();
            if rests_on_current(syntax, stored, ranges) {
                lemma_incremental_pass_is_from_scratch(syntax, stored, ranges);
            }
            if same_shape(old(self).syntax, syntax) {
                lemma_index_ignores_positions(old(self).syntax, syntax);
            }
            lemma_index_made_of_nodes(syntax, syntax.size() as int);
        }
        self.tree = tree;
        self.source = source;
        self.syntax = syntax;
        Ok(())
    }

    /// Brings the analysis up to date with the tree. With `changed_ranges`
    /// it looks again only at the nodes that one of the ranges overlaps
    /// and at those of which it knows nothing. Returns whether that was
    /// done; if not, the document is as it was.
    pub fn generate_semantics(&mut self, changed_ranges: Option<Vec<(usize, usize)>>) -> (done: bool)
        requires
            old(self).wf(),
        ensures
            final(self).wf(),
            !done ==> *final(self) == *old(self),
            done ==> {
                &&& final(self).semantics.attribute_map() == analysed(
                    final(self).syntax,
                    old(self).semantics.attribute_map(),
                    dirty_set(changed_ranges),
                )
                &&& final(self).syntax.size() > 0
                &&& final(self).uri == old(self).uri
                &&& final(self).version == old(self).version
                &&& final(self).source == old(self).source
            },
    {
        let dirty = match &changed_ranges {
            Some(ranges) => Some(DirtyRanges::covering(ranges)),
            None => None,
        };
        crate::semantics::analyze_tree(self, &dirty)
    }
}

} // verus!
