use crate::numset::NumSet;
use crate::semantics::encoding_semantic::{EncodingSemantics, Semantics};
use crate::semantics::statement_semantic::StatementSemantics;
use crate::semantics::statement_semantic::Attributes;
use crate::syntax_tree::{SyntaxTree, TextRange};
use crate::node_kind::NodeKind;
use crate::text::{parse_number, parsed_number, text_eq};
use vstd::prelude::*;

verus! {

/// What type of operation a term is.
#[derive(Clone, Copy, Debug, PartialEq, Eq, Structural)]
pub enum TermOperator {
    /// The term is not an application of a binary operator.
    NoOperator,
    Add,
    Sub,
    Mul,
    Div,
    Dots,
}

/// What type of term we have.
#[derive(Clone, Copy, Debug, PartialEq, Eq, Structural)]
pub enum TermType {
    Unknown,
    Identifier,
    Constant,
    Variable,
}

/// For a term in a statement this struct contains the information needed
/// to understand what this term is.
#[derive(Debug)]
pub struct TermSemantic {
    pub operator: TermOperator,
    pub kind: TermType,
    /// The values the term can take; empty unless the term is a constant.
    pub value: NumSet,
    pub range: TextRange,
}

/// What a [`TermSemantic`] holds, with its values as a set.
pub struct TermFacts {
    pub operator: TermOperator,
    pub kind: TermType,
    pub value: Set<int>,
    pub range: TextRange,
}

impl TermFacts {
    /// What is known of a node that is no term.
    pub open spec fn unknown() -> TermFacts {
        TermFacts {
            operator: TermOperator::NoOperator,
            kind: TermType::Unknown,
            value: Set::empty(),
            range: TextRange::zero(),
        }
    }
}

impl View for TermSemantic {
    type V = TermFacts;

    open spec fn view(&self) -> TermFacts {
        TermFacts {
            operator: self.operator,
            kind: self.kind,
            value: self.value@,
            range: self.range,
        }
    }
}

impl Clone for TermSemantic {
    fn clone(&self) -> (res: Self)
        ensures
            res@ == self@,
    {
        TermSemantic {
            operator: self.operator,
            kind: self.kind,
            value: self.value.clone(),
            range: self.range,
        }
    }
}

/// The number of the signed machine word that a whole number stands for:
/// the number itself where it fits the word, and else the number of the
/// word that differs from it by a multiple of the size of the word.
pub open spec fn wrapped(v: int) -> int {
    if i64::MIN <= v <= i64::MAX {
        v
    } else {
        let rest = v % 0x1_0000_0000_0000_0000;
        if rest > i64::MAX {
            rest - 0x1_0000_0000_0000_0000
        } else {
            rest
        }
    }
}

/// The quotient of two whole numbers, rounded towards zero; zero where
/// the divisor is zero.
pub open spec fn quotient(x: int, y: int) -> int {
    if y == 0 || x == 0 {
        0
    } else if x > 0 && y > 0 {
        x / y
    } else if x < 0 && y < 0 {
        (-x) / (-y)
    } else if x < 0 {
        -((-x) / y)
    } else {
        -(x / (-y))
    }
}

/// The result of applying `op` to two numbers, where it has one: their
/// sum, difference or product, or their quotient where the divisor is not
/// zero. A result that does not fit the signed machine word wraps around.
pub open spec fn combined(op: TermOperator, x: int, y: int) -> Option<int> {
    match op {
        TermOperator::Add => Some(wrapped(x + y)),
        TermOperator::Sub => Some(wrapped(x - y)),
        TermOperator::Mul => Some(wrapped(x * y)),
        TermOperator::Div => if y != 0 {
            Some(wrapped(quotient(x, y)))
        } else {
            None
        },
        _ => None,
    }
}

/// Whether `v` is what `op` gives for `x` and `y`.
pub open spec fn gives(op: TermOperator, x: int, y: int, v: int) -> bool {
    combined(op, x, y) == Some(v)
}

/// The values of `a op b`: `op` applied to every pair of a value of `a`
/// and a value of `b`.
pub open spec fn evaluated(a: Set<int>, b: Set<int>, op: TermOperator) -> Set<int> {
    Set::new(
        |v: int|
            exists|x: int, y: int| a.contains(x) && b.contains(y) && #[trigger] gives(op, x, y, v),
    )
}

/// What the machine gives for two numbers of the signed word is what
/// `combined` says.
pub proof fn lemma_combined_in_word(x: i64, y: i64)
    ensures
        x.wrapping_add(y) == wrapped(x + y),
        x.wrapping_sub(y) == wrapped(x - y),
        x.wrapping_mul(y) == wrapped(x * y),
        y != 0 ==> match x.checked_div(y) {
            Some(v) => v == wrapped(quotient(x as int, y as int)),
            None => i64::MIN == wrapped(quotient(x as int, y as int)),
        },
{
    let product = x * y;
    assert(x.wrapping_mul(y) == wrapped(product));
}

/// The label of the comparison operator that holds exactly when the one
/// labelled `operator` does not; empty for any other label.
pub open spec fn negated_label(operator: Seq<char>) -> Seq<char> {
    if operator == "NEQ"@ {
        "EQ"@
    } else if operator == "EQ"@ {
        "NEQ"@
    } else if operator == "LT"@ {
        "GEQ"@
    } else if operator == "GT"@ {
        "LEQ"@
    } else if operator == "LEQ"@ {
        "GT"@
    } else if operator == "GEQ"@ {
        "LT"@
    } else {
        ""@
    }
}

/// The operator that the label of the middle child of a term names.
pub open spec fn operator_of(kind: NodeKind) -> TermOperator {
    match kind {
        NodeKind::Add => TermOperator::Add,
        NodeKind::Sub => TermOperator::Sub,
        NodeKind::Mul => TermOperator::Mul,
        NodeKind::Slash => TermOperator::Div,
        NodeKind::Dots => TermOperator::Dots,
        _ => TermOperator::NoOperator,
    }
}

/// The type of a binary term, from the types of its operands.
pub open spec fn binary_type(left: TermType, right: TermType) -> TermType {
    if left == TermType::Constant && right == TermType::Constant {
        TermType::Constant
    } else if (left == TermType::Variable && right == TermType::Constant) || (left
        == TermType::Constant && right == TermType::Variable) || (left == TermType::Variable
        && right == TermType::Variable) {
        TermType::Variable
    } else {
        TermType::Unknown
    }
}

/// The number a numeric literal stands for; zero where its text is no
/// decimal number that fits a signed machine word.
pub open spec fn literal_value(text: Seq<char>) -> int {
    match parsed_number(text) {
        Some(v) => v as int,
        None => 0,
    }
}

/// Whether nodes of this kind are looked at as terms.
pub open spec fn is_term_kind(kind: NodeKind) -> bool {
    kind == NodeKind::Dec || kind == NodeKind::Number || kind == NodeKind::Term || kind
        == NodeKind::Variable || kind == NodeKind::Identifier
}

/// What node `i` is as a term, given the attributes `ctx` of the nodes
/// before it.
pub open spec fn term_of(t: SyntaxTree, ctx: Seq<Attributes>, i: int) -> TermFacts {
    let range = t.nodes@[i].range;
    let plain = TermFacts {
        operator: TermOperator::NoOperator,
        kind: TermType::Unknown,
        value: Set::empty(),
        range,
    };
    match t.kind(i) {
        NodeKind::Dec | NodeKind::Number => TermFacts {
            kind: TermType::Constant,
            value: Set::empty().insert(literal_value(t.nodes@[i].text@)),
            ..plain
        },
        NodeKind::Variable => TermFacts { kind: TermType::Variable, ..plain },
        NodeKind::Identifier => TermFacts { kind: TermType::Identifier, ..plain },
        NodeKind::Term => {
            if t.arity(i) == 1 {
                let child = ctx[t.kid(i, 0)].term;
                TermFacts { kind: child.kind, value: child.value, ..plain }
            } else if t.arity(i) > 2 {
                if t.kid_kind(i, 1) == NodeKind::Lparen {
                    TermFacts { kind: TermType::Identifier, ..plain }
                } else {
                    let operator = operator_of(t.kid_kind(i, 1));
                    let left = ctx[t.kid(i, 0)].term;
                    let right = ctx[t.kid(i, 2)].term;
                    let kind = binary_type(left.kind, right.kind);
                    TermFacts {
                        operator,
                        kind,
                        value: if kind == TermType::Constant {
                            evaluated(left.value, right.value, operator)
                        } else {
                            Set::empty()
                        },
                        range,
                    }
                }
            } else {
                plain
            }
        },
        _ => plain,
    }
}

impl TermSemantic {
    pub fn new() -> (term: TermSemantic)
        ensures
            term@ == TermFacts::unknown(),
    {
        TermSemantic {
            operator: TermOperator::NoOperator,
            kind: TermType::Unknown,
            value: NumSet::new(),
            range: TextRange::empty(),
        }
    }

    /// What node `i` of the tree is as a term. The terms below it are read
    /// from the attributes that `semantics` holds of its children.
    pub fn from_node(tree: &SyntaxTree, i: usize, semantics: &EncodingSemantics) -> (term:
        TermSemantic)
        requires
            tree.wf(),
            i < tree.size(),
        ensures
            term@ == term_of(*tree, semantics.context(*tree, i as int), i as int),
    {
        let ghost ctx = semantics.context(*tree, i as int);
        let mut kind = TermType::Unknown;
        let mut operator = TermOperator::NoOperator;
        let mut value = NumSet::new();
        let range = tree.nodes[i].range;
        match tree.nodes[i].kind {
            NodeKind::Dec | NodeKind::Number => {
                kind = TermType::Constant;
                let number: i64 = match parse_number(tree.nodes[i].text.as_str()) {
                    Some(v) => v,
                    None => 0,
                };
                value.insert(number);
            },
            NodeKind::Variable => {
                kind = TermType::Variable;
            },
            NodeKind::Identifier => {
                kind = TermType::Identifier;
            },
            NodeKind::Term => {
                // We have a term, find out based on the children what type of term we have
                let n = tree.child_count(i);
                if n == 1 {
                    // If we only have one child we pass on the values of that child
                    let c0 = tree.nodes[i].children[0];
                    proof {
                        assert(tree.node_wf(i as int));
                        assert(tree.nodes@[i as int].children@[0] < i);
                    }
                    let child = semantics.get_statement_semantics_for_node(tree.nodes[c0].id).term;
                    kind = child.kind;
                    value = child.value;
                } else if n > 2 {
                    let c0 = tree.nodes[i].children[0];
                    let c1 = tree.nodes[i].children[1];
                    let c2 = tree.nodes[i].children[2];
                    proof {
                        assert(tree.node_wf(i as int));
                        assert(tree.nodes@[i as int].children@[0] < i);
                        assert(tree.nodes@[i as int].children@[1] < i);
                        assert(tree.nodes@[i as int].children@[2] < i);
                    }
                    match tree.nodes[c1].kind {
                        // If we have more than 2 children and the second child is an operation
                        NodeKind::Add => {
                            operator = TermOperator::Add;
                        },
                        NodeKind::Sub => {
                            operator = TermOperator::Sub;
                        },
                        NodeKind::Mul => {
                            operator = TermOperator::Mul;
                        },
                        NodeKind::Slash => {
                            operator = TermOperator::Div;
                        },
                        NodeKind::Dots => {
                            operator = TermOperator::Dots;
                        },
                        // Or we have an identifier, then the term is a function application
                        NodeKind::Lparen => {
                            return TermSemantic {
                                operator,
                                kind: TermType::Identifier,
                                value,
                                range,
                            };
                        },
                        _ => {},
                    }
                    // We check what the children are
                    let left = semantics.get_statement_semantics_for_node(tree.nodes[c0].id).term;
                    let right = semantics.get_statement_semantics_for_node(tree.nodes[c2].id).term;
                    if left.kind == TermType::Constant && right.kind == TermType::Constant {
                        // If both children are constant the resulting term is constant and we
                        // can evaluate the value of the constant
                        kind = TermType::Constant;
                        value = TermSemantic::evaluate(&left, &right, &operator);
                    } else if (left.kind == TermType::Variable && right.kind == TermType::Constant)
                        || (left.kind == TermType::Constant && right.kind == TermType::Variable)
                        || (left.kind == TermType::Variable && right.kind == TermType::Variable) {
                        kind = TermType::Variable;
                    } else {
                        kind = TermType::Unknown;
                    }
                }
            },
            _ => {},
        }
        TermSemantic { operator, kind, value, range }
    }

    /// The values of `a op b` for two constant terms.
    pub fn evaluate(a: &TermSemantic, b: &TermSemantic, op: &TermOperator) -> (result: NumSet)
        ensures
            result@ == evaluated(a@.value, b@.value, *op),
    {
        let mut result = NumSet::new();
        let an = a.value.len();
        let bn = b.value.len();
        let mut i: usize = 0;
        while i < an
            invariant
                i <= an,
                an == a.value.spec_len(),
                bn == b.value.spec_len(),
                result@ == Set::new(
                    |v: int|
                        exists|p: int, q: int|
                            0 <= p < i && 0 <= q < bn && #[trigger] gives(
                                *op,
                                a.value.spec_index(p) as int,
                                b.value.spec_index(q) as int,
                                v,
                            ),
                ),
            decreases an - i,
        {
            let x = a.value.get(i);
            let mut j: usize = 0;
            let ghost before = result@;
            proof {
                assert(result@ =~= before.union(
                    Set::new(
                        |v: int|
                            exists|q: int|
                                0 <= q < 0 && #[trigger] gives(*op, x as int, b.value.spec_index(q) as int, v),
                    ),
                ));
            }
            while j < bn
                invariant
                    j <= bn,
                    i < an,
                    an == a.value.spec_len(),
                    bn == b.value.spec_len(),
                    x == a.value.spec_index(i as int),
                    result@ == before.union(
                        Set::new(
                            |v: int|
                                exists|q: int|
                                    0 <= q < j && #[trigger] gives(
                                        *op,
                                        x as int,
                                        b.value.spec_index(q) as int,
                                        v,
                                    ),
                        ),
                    ),
                decreases bn - j,
            {
                let y = b.value.get(j);
                let ghost prev = result@;
                proof {
                    lemma_combined_in_word(x, y);
                }
                match op {
                    TermOperator::Add => {
                        result.insert(x.wrapping_add(y));
                    },
                    TermOperator::Sub => {
                        result.insert(x.wrapping_sub(y));
                    },
                    TermOperator::Mul => {
                        result.insert(x.wrapping_mul(y));
                    },
                    TermOperator::Div => {
                        if y != 0 {
                            match x.checked_div(y) {
                                Some(v) => {
                                    result.insert(v);
                                },
                                None => {
                                    result.insert(i64::MIN);
                                },
                            }
                        }
                    },
                    _ => {},
                }
                proof {
                    let next = before.union(
                        Set::new(
                            |v: int|
                                exists|q: int|
                                    0 <= q < j + 1 && #[trigger] gives(
                                        *op,
                                        x as int,
                                        b.value.spec_index(q) as int,
                                        v,
                                    ),
                        ),
                    );
                    assert forall|v: int| result@.contains(v) <==> next.contains(v) by {
                        if result@.contains(v) && !prev.contains(v) {
                            assert(gives(*op, x as int, b.value.spec_index(j as int) as int, v));
                        }
                        if next.contains(v) && !before.contains(v) {
                            let q = choose|q: int|
                                0 <= q < j + 1 && #[trigger] gives(
                                    *op,
                                    x as int,
                                    b.value.spec_index(q) as int,
                                    v,
                                );
                            if q < j {
                                assert(prev.contains(v));
                            }
                        }
                    }
                    assert(result@ =~= next);
                }
                j = j + 1;
            }
            proof {
                let next = Set::new(
                    |v: int|
                        exists|p: int, q: int|
                            0 <= p < i + 1 && 0 <= q < bn && #[trigger] gives(
                                *op,
                                a.value.spec_index(p) as int,
                                b.value.spec_index(q) as int,
                                v,
                            ),
                );
                assert forall|v: int| result@.contains(v) <==> next.contains(v) by {
                    if result@.contains(v) {
                        if before.contains(v) {
                            let (p, q) = choose|p: int, q: int|
                                0 <= p < i && 0 <= q < bn && #[trigger] gives(
                                    *op,
                                    a.value.spec_index(p) as int,
                                    b.value.spec_index(q) as int,
                                    v,
                                );
                            assert(gives(*op, a.value.spec_index(p) as int, b.value.spec_index(q) as int, v));
                        } else {
                            let q = choose|q: int|
                                0 <= q < bn && #[trigger] gives(*op, x as int, b.value.spec_index(q) as int, v);
                            assert(gives(
                                *op,
                                a.value.spec_index(i as int) as int,
                                b.value.spec_index(q) as int,
                                v,
                            ));
                        }
                    }
                    if next.contains(v) {
                        let (p, q) = choose|p: int, q: int|
                            0 <= p < i + 1 && 0 <= q < bn && #[trigger] gives(
                                *op,
                                a.value.spec_index(p) as int,
                                b.value.spec_index(q) as int,
                                v,
                            );
                        if p < i {
                            assert(before.contains(v));
                        } else {
                            assert(gives(*op, x as int, b.value.spec_index(q) as int, v));
                        }
                    }
                }
                assert(result@ =~= next);
            }
            i = i + 1;
        }
        proof {
            a.value.lemma_listed();
            b.value.lemma_listed();
            let want = evaluated(a@.value, b@.value, *op);
            assert forall|v: int| result@.contains(v) <==> want.contains(v) by {
                if result@.contains(v) {
                    let (p, q) = choose|p: int, q: int|
                        0 <= p < an && 0 <= q < bn && #[trigger] gives(
                            *op,
                            a.value.spec_index(p) as int,
                            b.value.spec_index(q) as int,
                            v,
                        );
                    assert(a@.value.contains(a.value.spec_index(p) as int));
                    assert(b@.value.contains(b.value.spec_index(q) as int));
                }
                if want.contains(v) {
                    let (x, y) = choose|x: int, y: int|
                        a@.value.contains(x) && b@.value.contains(y) && #[trigger] gives(
                            *op,
                            x,
                            y,
                            v,
                        );
                    let p = choose|p: int|
                        0 <= p < a.value.spec_len() && #[trigger] a.value.spec_index(p) == x;
                    let q = choose|q: int|
                        0 <= q < b.value.spec_len() && #[trigger] b.value.spec_index(q) == y;
                    assert(gives(*op, a.value.spec_index(p) as int, b.value.spec_index(q) as int, v));
                }
            }
            assert(result@ =~= want);
        }
        result
    }

    /// Negates a comparison operator given by its label and returns the
    /// label of the new operator.
    pub fn negate_comparison_operator(operator: &str) -> (negated: &str)
        ensures
            negated@ == negated_label(operator@),
    {
        if text_eq(operator, "NEQ") {
            "EQ"
        } else if text_eq(operator, "EQ") {
            "NEQ"
        } else if text_eq(operator, "LT") {
            "GEQ"
        } else if text_eq(operator, "GT") {
            "LEQ"
        } else if text_eq(operator, "LEQ") {
            "GT"
        } else if text_eq(operator, "GEQ") {
            "LT"
        } else {
            ""
        }
    }
}

impl Semantics for TermSemantic {
    open spec fn ready(tree: SyntaxTree, i: int, semantics: EncodingSemantics) -> bool {
        true
    }

    /// Where node `i` is looked at as a term, what it is as a term is
    /// stored; nothing else has changed.
    open spec fn visits(
        tree: SyntaxTree,
        i: int,
        before: EncodingSemantics,
        after: EncodingSemantics,
    ) -> bool {
        &&& after.attribute_map() == (if is_term_kind(tree.kind(i)) {
            before.attribute_map().insert(
                tree.id(i),
                Attributes {
                    term: term_of(tree, before.context(tree, i), i),
                    ..before.attributes(tree.id(i))
                },
            )
        } else {
            before.attribute_map()
        })
        &&& after.syntax == before.syntax
        &&& after.predicate_semantics == before.predicate_semantics
        &&& after.old_node_ids_encountered == before.old_node_ids_encountered
        &&& after.node_ids_encountered == before.node_ids_encountered
    }

    open spec fn starts(before: EncodingSemantics, after: EncodingSemantics) -> bool {
        after == before
    }

    fn on_node(tree: &SyntaxTree, i: usize, semantics: &mut EncodingSemantics) {
        match tree.nodes[i].kind {
            NodeKind::Dec | NodeKind::Number | NodeKind::Term | NodeKind::Variable
            | NodeKind::Identifier => {
                let term = TermSemantic::from_node(tree, i, semantics);
                StatementSemantics::update_term_for_node(semantics, tree.nodes[i].id, term);
            },
            _ => {},
        }
    }

    fn startup(semantics: &mut EncodingSemantics) {
    }
}

} // verus!
