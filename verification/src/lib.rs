//! Incremental semantic analysis and safety checking for logic programs
//! written in the Clingo language.
//!
//! A [`document::DocumentData`] holds the text of a program, the tree
//! that the parser made of it, and what the analysis knows of it. The
//! tree of the parser is opaque; [`parser::snapshot`] writes it down as a
//! [`syntax_tree::SyntaxTree`], a tree in post-order layout that the
//! analysis reads.
//!
//! A pass over the tree ([`semantics`]) computes for every node a bundle
//! of attributes: the variables below it, those it binds and those it
//! needs, and the dependency pairs of its literals. Bundles are stored by
//! the identity that the parser gives a node, so that a pass after an edit
//! looks again only at the nodes that the edit touched. The same pass
//! indexes the predicates of the program and collects the syntax problems
//! that the parser marked.
//!
//! The diagnostics ([`diagnostics`]) report those problems and every
//! occurence of a variable that its statement does not bind. Completion
//! ([`completion`]) and navigation ([`goto`]) read what the pass left.
//!
//! Every function of the library is verified with Verus against its
//! contract, but for the calls into the crates that the library builds
//! on: the parser, the rope that holds the text, the interval index of
//! the dirty ranges and the concurrent maps that store the bundles. Each
//! of those calls stands in a small function of its own whose contract
//! says what is taken on trust.

pub mod completion;
pub mod dependency;
pub mod diagnostics;
pub mod dirty_ranges;
pub mod document;
pub mod goto;
pub mod node_kind;
pub mod numset;
pub mod parser;
pub mod protocol;
pub mod semantics;
pub mod source;
pub mod syntax_tree;
pub mod text;
pub mod varset;
