//! The kinds of node that the analysis tells apart.
//!
//! The parser labels every node with a string. The analysis works on a
//! closed set of kinds instead; every label it has no rule for is `Other`.

use crate::text::text_eq;
use vstd::prelude::*;

verus! {

/// The kind of a node of the syntax tree.
#[derive(Clone, Copy, Debug, PartialEq, Eq, Structural)]
pub enum NodeKind {
    /// The root of a program.
    SourceFile,
    /// One statement of the program.
    Statement,
    /// The head of a rule.
    Head,
    /// A predicate atom.
    Atom,
    /// A literal: an atom or a comparison, possibly negated.
    Literal,
    /// A term.
    Term,
    /// A comma-separated list of terms.
    Termvec,
    /// The arguments of an atom or function, possibly a pool.
    Argvec,
    /// The right-hand side of a comparison literal.
    Rellitvec,
    /// A comparison operator.
    Comparison,
    /// A body that ends in a dot.
    Bodydot,
    /// The part of a body before its last element.
    Bodycomma,
    /// A conditional literal in a body.
    Conjunction,
    /// A comma-separated list of literals.
    Litvec,
    /// An optional condition.
    Optcondition,
    /// The literals of an optimization condition.
    Optimizelitvec,
    /// The condition of an optimization element.
    Optimizecond,
    /// The weight and priority of an optimization element.
    Optimizeweight,
    /// The tuple of an optimization element.
    Optimizetuple,
    /// A body aggregate together with its bounds.
    Lubodyaggregate,
    /// A body aggregate.
    Bodyaggregate,
    /// One element of a body aggregate.
    Bodyaggrelem,
    /// The upper bound of an aggregate.
    Upper,
    /// The elements of a choice.
    Altheadaggrelemvec,
    /// A disjunction in a head.
    Disjunction,
    /// The elements of a disjunction before its last.
    Disjunctionsep,
    /// A head aggregate.
    Headaggregate,
    /// A head aggregate together with its bounds.
    Luheadaggregate,
    /// The elements of a minimize statement.
    Minelemlist,
    /// The elements of a maximize statement.
    Maxelemlist,
    /// A variable.
    Variable,
    /// A number.
    Number,
    /// A decimal number.
    Dec,
    /// An identifier.
    Identifier,
    /// `(`
    Lparen,
    /// `)`
    Rparen,
    /// `{`
    Lbrace,
    /// `}`
    Rbrace,
    /// `.`
    Dot,
    /// `,`
    Comma,
    /// `:`
    Colon,
    /// `;`
    Sem,
    /// `+`
    Add,
    /// `-`
    Sub,
    /// `*`
    Mul,
    /// `/`
    Slash,
    /// `..`
    Dots,
    /// `not`
    Not,
    /// `:-`
    If,
    /// `:~`
    Wif,
    /// `#show`
    Show,
    /// `#external`
    External,
    /// `=`
    Eq,
    /// `!=`
    Neq,
    /// `<`
    Lt,
    /// `>`
    Gt,
    /// `<=`
    Leq,
    /// `>=`
    Geq,
    /// Any label the analysis has no rule for.
    Other,
}

/// The kind that a parser label stands for.
pub open spec fn kind_of_label(label: Seq<char>) -> NodeKind {
    if label == "source_file"@ {
        NodeKind::SourceFile
    } else if label == "statement"@ {
        NodeKind::Statement
    } else if label == "head"@ {
        NodeKind::Head
    } else if label == "atom"@ {
        NodeKind::Atom
    } else if label == "literal"@ {
        NodeKind::Literal
    } else if label == "term"@ {
        NodeKind::Term
    } else if label == "termvec"@ {
        NodeKind::Termvec
    } else if label == "argvec"@ {
        NodeKind::Argvec
    } else if label == "rellitvec"@ {
        NodeKind::Rellitvec
    } else if label == "cmp"@ {
        NodeKind::Comparison
    } else if label == "bodydot"@ {
        NodeKind::Bodydot
    } else if label == "bodycomma"@ {
        NodeKind::Bodycomma
    } else if label == "conjunction"@ {
        NodeKind::Conjunction
    } else if label == "litvec"@ {
        NodeKind::Litvec
    } else if label == "optcondition"@ {
        NodeKind::Optcondition
    } else if label == "optimizelitvec"@ {
        NodeKind::Optimizelitvec
    } else if label == "optimizecond"@ {
        NodeKind::Optimizecond
    } else if label == "optimizeweight"@ {
        NodeKind::Optimizeweight
    } else if label == "optimizetuple"@ {
        NodeKind::Optimizetuple
    } else if label == "lubodyaggregate"@ {
        NodeKind::Lubodyaggregate
    } else if label == "bodyaggregate"@ {
        NodeKind::Bodyaggregate
    } else if label == "bodyaggrelem"@ {
        NodeKind::Bodyaggrelem
    } else if label == "upper"@ {
        NodeKind::Upper
    } else if label == "altheadaggrelemvec"@ {
        NodeKind::Altheadaggrelemvec
    } else if label == "disjunction"@ {
        NodeKind::Disjunction
    } else if label == "disjunctionsep"@ {
        NodeKind::Disjunctionsep
    } else if label == "headaggregate"@ {
        NodeKind::Headaggregate
    } else if label == "luheadaggregate"@ {
        NodeKind::Luheadaggregate
    } else if label == "minelemlist"@ {
        NodeKind::Minelemlist
    } else if label == "maxelemlist"@ {
        NodeKind::Maxelemlist
    } else if label == "VARIABLE"@ {
        NodeKind::Variable
    } else if label == "NUMBER"@ {
        NodeKind::Number
    } else if label == "dec"@ {
        NodeKind::Dec
    } else if label == "identifier"@ {
        NodeKind::Identifier
    } else if label == "LPAREN"@ {
        NodeKind::Lparen
    } else if label == "RPAREN"@ {
        NodeKind::Rparen
    } else if label == "LBRACE"@ {
        NodeKind::Lbrace
    } else if label == "RBRACE"@ {
        NodeKind::Rbrace
    } else if label == "DOT"@ {
        NodeKind::Dot
    } else if label == "COMMA"@ {
        NodeKind::Comma
    } else if label == "COLON"@ {
        NodeKind::Colon
    } else if label == "SEM"@ {
        NodeKind::Sem
    } else if label == "ADD"@ {
        NodeKind::Add
    } else if label == "SUB"@ {
        NodeKind::Sub
    } else if label == "MUL"@ {
        NodeKind::Mul
    } else if label == "SLASH"@ {
        NodeKind::Slash
    } else if label == "DOTS"@ {
        NodeKind::Dots
    } else if label == "NOT"@ {
        NodeKind::Not
    } else if label == "IF"@ {
        NodeKind::If
    } else if label == "WIF"@ {
        NodeKind::Wif
    } else if label == "SHOW"@ {
        NodeKind::Show
    } else if label == "EXTERNAL"@ {
        NodeKind::External
    } else if label == "EQ"@ {
        NodeKind::Eq
    } else if label == "NEQ"@ {
        NodeKind::Neq
    } else if label == "LT"@ {
        NodeKind::Lt
    } else if label == "GT"@ {
        NodeKind::Gt
    } else if label == "LEQ"@ {
        NodeKind::Leq
    } else if label == "GEQ"@ {
        NodeKind::Geq
    } else {
        NodeKind::Other
    }
}

impl NodeKind {
    /// Maps the parser's label of a node to its kind.
    pub fn from_label(label: &str) -> (kind: NodeKind)
        ensures
            kind == kind_of_label(label@),
    {
        if text_eq(label, "source_file") {
            NodeKind::SourceFile
        } else if text_eq(label, "statement") {
            NodeKind::Statement
        } else if text_eq(label, "head") {
            NodeKind::Head
        } else if text_eq(label, "atom") {
            NodeKind::Atom
        } else if text_eq(label, "literal") {
            NodeKind::Literal
        } else if text_eq(label, "term") {
            NodeKind::Term
        } else if text_eq(label, "termvec") {
            NodeKind::Termvec
        } else if text_eq(label, "argvec") {
            NodeKind::Argvec
        } else if text_eq(label, "rellitvec") {
            NodeKind::Rellitvec
        } else if text_eq(label, "cmp") {
            NodeKind::Comparison
        } else if text_eq(label, "bodydot") {
            NodeKind::Bodydot
        } else if text_eq(label, "bodycomma") {
            NodeKind::Bodycomma
        } else if text_eq(label, "conjunction") {
            NodeKind::Conjunction
        } else if text_eq(label, "litvec") {
            NodeKind::Litvec
        } else if text_eq(label, "optcondition") {
            NodeKind::Optcondition
        } else if text_eq(label, "optimizelitvec") {
            NodeKind::Optimizelitvec
        } else if text_eq(label, "optimizecond") {
            NodeKind::Optimizecond
        } else if text_eq(label, "optimizeweight") {
            NodeKind::Optimizeweight
        } else if text_eq(label, "optimizetuple") {
            NodeKind::Optimizetuple
        } else if text_eq(label, "lubodyaggregate") {
            NodeKind::Lubodyaggregate
        } else if text_eq(label, "bodyaggregate") {
            NodeKind::Bodyaggregate
        } else if text_eq(label, "bodyaggrelem") {
            NodeKind::Bodyaggrelem
        } else if text_eq(label, "upper") {
            NodeKind::Upper
        } else if text_eq(label, "altheadaggrelemvec") {
            NodeKind::Altheadaggrelemvec
        } else if text_eq(label, "disjunction") {
            NodeKind::Disjunction
        } else if text_eq(label, "disjunctionsep") {
            NodeKind::Disjunctionsep
        } else if text_eq(label, "headaggregate") {
            NodeKind::Headaggregate
        } else if text_eq(label, "luheadaggregate") {
            NodeKind::Luheadaggregate
        } else if text_eq(label, "minelemlist") {
            NodeKind::Minelemlist
        } else if text_eq(label, "maxelemlist") {
            NodeKind::Maxelemlist
        } else if text_eq(label, "VARIABLE") {
            NodeKind::Variable
        } else if text_eq(label, "NUMBER") {
            NodeKind::Number
        } else if text_eq(label, "dec") {
            NodeKind::Dec
        } else if text_eq(label, "identifier") {
            NodeKind::Identifier
        } else if text_eq(label, "LPAREN") {
            NodeKind::Lparen
        } else if text_eq(label, "RPAREN") {
            NodeKind::Rparen
        } else if text_eq(label, "LBRACE") {
            NodeKind::Lbrace
        } else if text_eq(label, "RBRACE") {
            NodeKind::Rbrace
        } else if text_eq(label, "DOT") {
            NodeKind::Dot
        } else if text_eq(label, "COMMA") {
            NodeKind::Comma
        } else if text_eq(label, "COLON") {
            NodeKind::Colon
        } else if text_eq(label, "SEM") {
            NodeKind::Sem
        } else if text_eq(label, "ADD") {
            NodeKind::Add
        } else if text_eq(label, "SUB") {
            NodeKind::Sub
        } else if text_eq(label, "MUL") {
            NodeKind::Mul
        } else if text_eq(label, "SLASH") {
            NodeKind::Slash
        } else if text_eq(label, "DOTS") {
            NodeKind::Dots
        } else if text_eq(label, "NOT") {
            NodeKind::Not
        } else if text_eq(label, "IF") {
            NodeKind::If
        } else if text_eq(label, "WIF") {
            NodeKind::Wif
        } else if text_eq(label, "SHOW") {
            NodeKind::Show
        } else if text_eq(label, "EXTERNAL") {
            NodeKind::External
        } else if text_eq(label, "EQ") {
            NodeKind::Eq
        } else if text_eq(label, "NEQ") {
            NodeKind::Neq
        } else if text_eq(label, "LT") {
            NodeKind::Lt
        } else if text_eq(label, "GT") {
            NodeKind::Gt
        } else if text_eq(label, "LEQ") {
            NodeKind::Leq
        } else if text_eq(label, "GEQ") {
            NodeKind::Geq
        } else {
            NodeKind::Other
        }
    }

    /// The comparison operator that holds exactly when this one does not;
    /// `Other` for a kind that is no comparison operator.
    pub open spec fn negated(self) -> NodeKind {
        match self {
            NodeKind::Neq => NodeKind::Eq,
            NodeKind::Eq => NodeKind::Neq,
            NodeKind::Lt => NodeKind::Geq,
            NodeKind::Gt => NodeKind::Leq,
            NodeKind::Leq => NodeKind::Gt,
            NodeKind::Geq => NodeKind::Lt,
            _ => NodeKind::Other,
        }
    }

    /// Negates a comparison operator.
    pub fn negate(self) -> (kind: NodeKind)
        ensures
            kind == self.negated(),
    {
        match self {
            NodeKind::Neq => NodeKind::Eq,
            NodeKind::Eq => NodeKind::Neq,
            NodeKind::Lt => NodeKind::Geq,
            NodeKind::Gt => NodeKind::Leq,
            NodeKind::Leq => NodeKind::Gt,
            NodeKind::Geq => NodeKind::Lt,
            _ => NodeKind::Other,
        }
    }

    /// Whether the text of a node of this kind is kept in the tree.
    pub open spec fn keeps_text(self) -> bool {
        self == NodeKind::Variable || self == NodeKind::Number || self == NodeKind::Dec || self
            == NodeKind::Identifier
    }

    /// Whether the text of a node of this kind is kept in the tree.
    pub fn has_text(self) -> (keeps: bool)
        ensures
            keeps == self.keeps_text(),
    {
        match self {
            NodeKind::Variable | NodeKind::Number | NodeKind::Dec | NodeKind::Identifier => true,
            _ => false,
        }
    }
}

} // verus!
