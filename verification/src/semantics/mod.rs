//! The semantic model of a program: attributes of every node of the syntax
//! tree, the predicate index and the syntax problems found by the parser.

use crate::dirty_ranges::DirtyRanges;
use crate::document::DocumentData;
use crate::parser::snapshot;
use crate::semantics::encoding_semantic::dirty_view;
use crate::semantics::pass::analysed;
use crate::syntax_tree::SyntaxTree;
use vstd::prelude::*;

pub mod encoding_semantic;
pub mod error_semantic;
pub mod incremental;
pub mod laws;
pub mod missing_semantic;
pub mod pass;
pub mod predicate_occurence_semantics;
pub mod predicate_semantics;
pub mod rules;
pub mod special_literal_semantic;
pub mod statement_semantic;
pub mod syntax;
pub mod term_semantic;

verus! {

/// Goes through the tree of the document in post-order and brings what is
/// known of the document up to date. With `changed_ranges` the attributes
/// of a node are only computed anew where one of the ranges overlaps the
/// node or nothing is stored of it. Returns whether that was done: it is
/// not where the tree of the parser cannot be written down, and the
/// document is then as it was.
pub fn analyze_tree(document: &mut DocumentData, changed_ranges: &Option<DirtyRanges>) -> (done:
    bool)
    requires
        old(document).wf(),
    ensures
        final(document).wf(),
        !done ==> *final(document) == *old(document),
        done ==> {
            &&& final(document).semantics.attribute_map() == analysed(
                final(document).syntax,
                old(document).semantics.attribute_map(),
                dirty_view(*changed_ranges),
            )
            &&& final(document).syntax.size() > 0
            &&& final(document).uri == old(document).uri
            &&& final(document).version == old(document).version
            &&& final(document).source == old(document).source
            &&& final(document).tree == old(document).tree
        },
{
    let syntax = snapshot(&document.tree, &document.source);
    analyze_syntax(document, syntax, changed_ranges)
}

/// Brings what is known of the document up to date with what the walk of
/// the parser's tree gave. With a tree, the analysis goes through it and
/// the document holds it from then on; with none, the document is as it
/// was. Returns whether there was a tree.
pub fn analyze_syntax(
    document: &mut DocumentData,
    syntax: Option<SyntaxTree>,
    changed_ranges: &Option<DirtyRanges>,
) -> (done: bool)
    requires
        old(document).wf(),
        syntax matches Some(tree) ==> tree.wf() && tree.texts_from(old(document).text()),
    ensures
        final(document).wf(),
        done == syntax is Some,
        syntax is None ==> *final(document) == *old(document),
        syntax matches Some(tree) ==> {
            &&& final(document).syntax == tree
            &&& final(document).semantics.attribute_map() == analysed(
                tree,
                old(document).semantics.attribute_map(),
                dirty_view(*changed_ranges),
            )
            &&& final(document).uri == old(document).uri
            &&& final(document).version == old(document).version
            &&& final(document).source == old(document).source
            &&& final(document).tree == old(document).tree
        },
{
    match syntax {
        Some(tree) => {
            document.semantics.analyze(&tree, changed_ranges);
            document.syntax = tree;
            true
        },
        None => false,
    }
}

} // verus!
