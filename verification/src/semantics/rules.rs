//! The attribute equations.
//!
//! For every kind of node these functions say what the attributes of a
//! node are, given the tree and the attributes of the nodes before it in
//! the layout (its descendants among them). `ctx[j]` stands for the
//! attributes of node `j`.

use crate::dependency::{Dependency, Names};
use crate::node_kind::NodeKind;
use crate::semantics::special_literal_semantic::{
    literal_type_of, scope_dependency, special_literal_of, SpecialLiteralFacts,
};
use crate::semantics::statement_semantic::Attributes;
use crate::semantics::term_semantic::{is_term_kind, term_of, TermFacts, TermType};
use crate::syntax_tree::SyntaxTree;
use vstd::prelude::*;

verus! {

/// One of the four variable sets of a bundle.
#[derive(Clone, Copy, Debug, PartialEq, Eq, Structural)]
pub enum Field {
    Vars,
    GlobalVars,
    Provide,
    Depend,
}

/// The variable set of `a` that `field` names.
pub open spec fn pick(field: Field, a: Attributes) -> Names {
    match field {
        Field::Vars => a.vars,
        Field::GlobalVars => a.global_vars,
        Field::Provide => a.provide,
        Field::Depend => a.depend,
    }
}

/// The union of one variable set over the first `n` children of node `i`.
pub open spec fn kids_union(t: SyntaxTree, ctx: Seq<Attributes>, i: int, n: int, field: Field)
    -> Names
    decreases n,
{
    if n <= 0 {
        Set::empty()
    } else {
        kids_union(t, ctx, i, n - 1, field).union(pick(field, ctx[t.kid(i, n - 1)]))
    }
}

/// Whether the dependencies of a child of this kind are part of a body.
pub open spec fn is_body_part(kind: NodeKind) -> bool {
    kind == NodeKind::Literal || kind == NodeKind::Bodycomma || kind == NodeKind::Bodydot || kind
        == NodeKind::Conjunction || kind == NodeKind::Lubodyaggregate
}

/// The dependencies of the first `n` children of node `i`, one after the
/// other; with `body_only`, of those children only that are parts of a
/// body.
pub open spec fn kids_dependencies(
    t: SyntaxTree,
    ctx: Seq<Attributes>,
    i: int,
    n: int,
    body_only: bool,
) -> Seq<Dependency>
    decreases n,
{
    if n <= 0 {
        Seq::empty()
    } else {
        let before = kids_dependencies(t, ctx, i, n - 1, body_only);
        if !body_only || is_body_part(t.kid_kind(i, n - 1)) {
            before + ctx[t.kid(i, n - 1)].dependencies
        } else {
            before
        }
    }
}

/// The special literals of the first `n` children of node `i`, one after
/// the other.
pub open spec fn kids_special(t: SyntaxTree, ctx: Seq<Attributes>, i: int, n: int) -> Seq<
    SpecialLiteralFacts,
>
    decreases n,
{
    if n <= 0 {
        Seq::empty()
    } else {
        kids_special(t, ctx, i, n - 1) + ctx[t.kid(i, n - 1)].special_literals
    }
}

/// Whether node `i` is a list of optimization elements that starts with
/// the list of the elements before its last.
pub open spec fn continues_list(t: SyntaxTree, i: int) -> bool {
    t.kid_kind(i, 0) == NodeKind::Minelemlist || t.kid_kind(i, 0) == NodeKind::Maxelemlist
}

/// The position of the weight of the last element among the children of
/// the list of optimization elements `i`.
pub open spec fn weight_position(t: SyntaxTree, i: int) -> int {
    if continues_list(t, i) {
        2
    } else {
        0
    }
}

/// Whether node `i` declares all variables of its `k`-th child global.
/// This holds of the term of a show or external statement, of the weight
/// and the tuple of a weak constraint, and of the weight and the tuple of
/// an optimization element: none of them is a literal, so nothing else
/// would put their variables in the scope of the statement.
pub open spec fn declares_global(t: SyntaxTree, i: int, k: int) -> bool {
    let n = t.arity(i);
    match t.kind(i) {
        NodeKind::Statement => {
            let head = t.kid_kind(i, 0);
            ||| ((head == NodeKind::Show || head == NodeKind::External) && n >= 2 && k == 1)
            ||| (head == NodeKind::Wif && n >= 4 && k == 3)
            ||| (head == NodeKind::Wif && n >= 5 && k == 4)
        },
        NodeKind::Minelemlist | NodeKind::Maxelemlist => {
            let w = weight_position(t, i);
            ||| (w < n && k == w)
            ||| (w + 1 < n && k == w + 1 && t.kid_kind(i, w + 1) == NodeKind::Optimizetuple)
        },
        _ => false,
    }
}

/// The global variables of the `k`-th child of node `i`, as node `i`
/// counts them.
pub open spec fn effective_global(t: SyntaxTree, ctx: Seq<Attributes>, i: int, k: int) -> Names {
    if declares_global(t, i, k) {
        ctx[t.kid(i, k)].vars
    } else {
        ctx[t.kid(i, k)].global_vars
    }
}

/// The union of the global variables of the first `n` children of node
/// `i`, as node `i` counts them.
pub open spec fn kids_global(t: SyntaxTree, ctx: Seq<Attributes>, i: int, n: int) -> Names
    decreases n,
{
    if n <= 0 {
        Set::empty()
    } else {
        kids_global(t, ctx, i, n - 1).union(effective_global(t, ctx, i, n - 1))
    }
}

/// The variables below node `i`.
pub open spec fn vars_of(t: SyntaxTree, ctx: Seq<Attributes>, i: int) -> Names {
    match t.kind(i) {
        NodeKind::Variable => Set::empty().insert(t.nodes@[i].text@),
        NodeKind::SourceFile => Set::empty(),
        _ => kids_union(t, ctx, i, t.arity(i), Field::Vars),
    }
}

/// Whether the term at node `j` is a constant.
pub open spec fn evaluable(ctx: Seq<Attributes>, j: int) -> bool {
    ctx[j].term.kind == TermType::Constant
}

/// Whether the term at node `j` is a constant that cannot be zero.
pub open spec fn nonzero_constant(ctx: Seq<Attributes>, j: int) -> bool {
    evaluable(ctx, j) && !ctx[j].term.value.contains(0)
}

/// The variables that node `i` binds.
pub open spec fn provide_of(t: SyntaxTree, ctx: Seq<Attributes>, i: int) -> Names {
    let n = t.arity(i);
    match t.kind(i) {
        NodeKind::Variable => Set::empty().insert(t.nodes@[i].text@),
        NodeKind::Term => {
            if n == 1 {
                kids_union(t, ctx, i, n, Field::Provide)
            } else if n >= 3 {
                let left = t.kid(i, 0);
                let right = t.kid(i, 2);
                match t.kid_kind(i, 1) {
                    NodeKind::Lparen => kids_union(t, ctx, i, n, Field::Provide),
                    NodeKind::Add | NodeKind::Sub => {
                        if evaluable(ctx, left) {
                            ctx[right].provide
                        } else if evaluable(ctx, right) {
                            ctx[left].provide
                        } else {
                            Set::empty()
                        }
                    },
                    NodeKind::Mul => {
                        if nonzero_constant(ctx, left) {
                            ctx[right].provide
                        } else if nonzero_constant(ctx, right) {
                            ctx[left].provide
                        } else {
                            Set::empty()
                        }
                    },
                    _ => Set::empty(),
                }
            } else {
                Set::empty()
            }
        },
        NodeKind::Termvec => kids_union(t, ctx, i, n, Field::Provide),
        NodeKind::Argvec => {
            if n == 1 {
                kids_union(t, ctx, i, n, Field::Provide)
            } else if n == 3 && t.kid_kind(i, 1) == NodeKind::Sem {
                ctx[t.kid(i, 0)].provide.intersect(ctx[t.kid(i, 2)].provide)
            } else {
                Set::empty()
            }
        },
        _ => Set::empty(),
    }
}

/// The variables that node `i` needs bound elsewhere, given the variables
/// below it and those it binds.
pub open spec fn depend_of(
    t: SyntaxTree,
    ctx: Seq<Attributes>,
    i: int,
    vars: Names,
    provide: Names,
) -> Names {
    let n = t.arity(i);
    match t.kind(i) {
        NodeKind::Termvec => kids_union(t, ctx, i, n, Field::Depend).difference(provide),
        NodeKind::Argvec => {
            if n == 1 {
                kids_union(t, ctx, i, n, Field::Depend)
            } else if n == 3 && t.kid_kind(i, 1) == NodeKind::Sem {
                ctx[t.kid(i, 0)].depend.union(ctx[t.kid(i, 2)].depend).difference(provide)
            } else {
                Set::empty()
            }
        },
        NodeKind::Term => {
            if n == 1 {
                kids_union(t, ctx, i, n, Field::Depend)
            } else if n >= 3 {
                if t.kid_kind(i, 1) == NodeKind::Lparen {
                    kids_union(t, ctx, i, n, Field::Depend)
                } else {
                    vars.difference(provide)
                }
            } else {
                Set::empty()
            }
        },
        NodeKind::SourceFile | NodeKind::Variable => Set::empty(),
        _ => kids_union(t, ctx, i, n, Field::Depend),
    }
}

/// The number of `not` in front of the literal at node `i`: the position
/// of its first child that is no `not`, among the first `n` children.
pub open spec fn negations(t: SyntaxTree, i: int, n: int) -> int
    decreases n,
{
    if n <= 0 {
        0
    } else {
        let before = negations(t, i, n - 1);
        if before == n - 1 && t.kid_kind(i, n - 1) == NodeKind::Not {
            n
        } else {
            before
        }
    }
}

/// The position of the atom or left term of the literal at node `i`: its
/// first child that is no `not`, or its first child where all are.
pub open spec fn atom_position(t: SyntaxTree, i: int) -> int {
    let nots = negations(t, i, t.arity(i));
    if nots < t.arity(i) {
        nots
    } else {
        0
    }
}

/// The operator of the comparison whose operator node is `c`: the kind of
/// the first child of `c`, or of `c` itself where it has no child.
pub open spec fn operator_kind(t: SyntaxTree, c: int) -> NodeKind {
    if t.arity(c) >= 1 {
        t.kid_kind(c, 0)
    } else {
        t.kind(c)
    }
}

/// The dependencies of the comparison `t1 op t2`, where `eq` says whether
/// `op` is an equality once negations are accounted for.
pub open spec fn comparison_dependencies(ctx: Seq<Attributes>, t1: int, t2: int, eq: bool) -> Seq<
    Dependency,
> {
    if eq {
        seq![
            (ctx[t1].provide, ctx[t2].vars),
            (ctx[t2].provide, ctx[t1].vars),
            (Set::empty(), ctx[t1].depend.union(ctx[t2].depend)),
        ]
    } else {
        seq![(Set::empty(), ctx[t1].vars.union(ctx[t2].vars))]
    }
}

/// The dependencies of the literal at node `i`.
pub open spec fn literal_dependencies(t: SyntaxTree, ctx: Seq<Attributes>, i: int) -> Seq<
    Dependency,
> {
    let n = t.arity(i);
    if n == 1 {
        kids_dependencies(t, ctx, i, n, false)
    } else if n > 1 {
        let a = atom_position(t, i);
        let atom = t.kid(i, a);
        if a + 1 < n && t.kid_kind(i, a + 1) == NodeKind::Rellitvec {
            let rel = t.kid(i, a + 1);
            if t.arity(rel) == 2 && t.kid_kind(rel, 0) == NodeKind::Comparison {
                let op = operator_kind(t, t.kid(rel, 0));
                let op = if a % 2 == 1 {
                    op.negated()
                } else {
                    op
                };
                comparison_dependencies(ctx, atom, t.kid(rel, 1), op == NodeKind::Eq)
            } else {
                seq![(Set::empty(), ctx[atom].vars.union(ctx[rel].vars))]
            }
        } else {
            seq![(Set::empty(), ctx[atom].vars)]
        }
    } else {
        Seq::empty()
    }
}

/// What the children of an aggregate with bounds say of its bounds.
pub struct Bounds {
    /// The aggregate itself.
    pub aggregate: Option<int>,
    /// The term in front of the aggregate.
    pub lower_term: Option<int>,
    /// The operator between that term and the aggregate.
    pub lower_op: Option<NodeKind>,
    /// The term behind the aggregate.
    pub upper_term: Option<int>,
    /// The operator between the aggregate and that term.
    pub upper_op: Option<NodeKind>,
}

/// The bounds that the first `n` children of the aggregate at node `i`
/// give; of two children of one kind the later counts.
pub open spec fn bounds_of(t: SyntaxTree, i: int, n: int) -> Bounds
    decreases n,
{
    if n <= 0 {
        Bounds {
            aggregate: None,
            lower_term: None,
            lower_op: None,
            upper_term: None,
            upper_op: None,
        }
    } else {
        let b = bounds_of(t, i, n - 1);
        let c = t.kid(i, n - 1);
        match t.kind(c) {
            NodeKind::Bodyaggregate => Bounds { aggregate: Some(c), ..b },
            NodeKind::Upper => if t.arity(c) >= 2 {
                Bounds {
                    upper_term: Some(t.kid(c, 1)),
                    upper_op: if t.arity(t.kid(c, 0)) >= 1 {
                        Some(t.kid_kind(t.kid(c, 0), 0))
                    } else {
                        b.upper_op
                    },
                    ..b
                }
            } else {
                b
            },
            NodeKind::Term => Bounds { lower_term: Some(c), ..b },
            NodeKind::Comparison => if t.arity(c) >= 1 {
                Bounds { lower_op: Some(t.kid_kind(c, 0)), ..b }
            } else {
                b
            },
            _ => b,
        }
    }
}

/// Whether the term in front of the aggregate is assigned its value.
pub open spec fn assigns_lower(b: Bounds) -> bool {
    b.lower_op == Some(NodeKind::Eq) && b.lower_term is Some
}

/// Whether the term behind the aggregate is assigned its value.
pub open spec fn assigns_upper(b: Bounds) -> bool {
    b.upper_op == Some(NodeKind::Eq) && b.upper_term is Some
}

/// The variables of the aggregate itself.
pub open spec fn aggregate_vars(ctx: Seq<Attributes>, b: Bounds) -> Names {
    match b.aggregate {
        Some(a) => ctx[a].vars,
        None => Set::empty(),
    }
}

/// The dependencies of an assignment of the aggregate to the term at node
/// `term`: the term is bound once the variables of the aggregate are.
pub open spec fn assignment_dependencies(ctx: Seq<Attributes>, term: int, aggr_vars: Names) -> Seq<
    Dependency,
> {
    seq![(ctx[term].provide, aggr_vars), (Set::empty(), ctx[term].depend)]
}

/// The dependencies of the aggregate with bounds at node `i`, given the
/// variables below it.
pub open spec fn aggregate_dependencies(t: SyntaxTree, ctx: Seq<Attributes>, i: int, vars: Names)
    -> Seq<Dependency> {
    let b = bounds_of(t, i, t.arity(i));
    let aggr_vars = aggregate_vars(ctx, b);
    let lower = if assigns_lower(b) {
        assignment_dependencies(ctx, b.lower_term->0, aggr_vars)
    } else {
        Seq::empty()
    };
    let upper = if assigns_upper(b) {
        assignment_dependencies(ctx, b.upper_term->0, aggr_vars)
    } else {
        Seq::empty()
    };
    let rest = if b.lower_op == Some(NodeKind::Eq) || b.upper_op == Some(NodeKind::Eq) {
        Seq::empty()
    } else {
        seq![(Set::empty(), vars)]
    };
    lower + upper + rest
}

/// The global variables of the aggregate with bounds at node `i`: the
/// variables of the terms that are assigned its value.
pub open spec fn aggregate_globals(t: SyntaxTree, ctx: Seq<Attributes>, i: int) -> Names {
    let b = bounds_of(t, i, t.arity(i));
    let lower = if assigns_lower(b) {
        ctx[b.lower_term->0].vars
    } else {
        Set::empty()
    };
    let upper = if assigns_upper(b) {
        ctx[b.upper_term->0].vars
    } else {
        Set::empty()
    };
    lower.union(upper)
}

/// The dependencies of the statement at node `i`.
pub open spec fn statement_dependencies(t: SyntaxTree, ctx: Seq<Attributes>, i: int) -> Seq<
    Dependency,
> {
    let n = t.arity(i);
    if n >= 1 {
        let head = t.kid_kind(i, 0);
        let first = seq![(Set::empty(), ctx[t.kid(i, 0)].vars)];
        if (head == NodeKind::Show || head == NodeKind::External) && n >= 2 {
            let shown = seq![(Set::empty(), ctx[t.kid(i, 1)].vars)];
            let body = if n >= 4 && t.kid_kind(i, 2) == NodeKind::Colon && t.kid_kind(i, 3)
                == NodeKind::Bodydot {
                ctx[t.kid(i, 3)].dependencies
            } else {
                Seq::empty()
            };
            first + shown + body
        } else if (head == NodeKind::If || head == NodeKind::Wif) && n >= 2 {
            let body = if t.kid_kind(i, 1) == NodeKind::Bodydot {
                ctx[t.kid(i, 1)].dependencies
            } else {
                Seq::empty()
            };
            let weight = if head == NodeKind::Wif && n >= 4 {
                seq![(Set::empty(), ctx[t.kid(i, 3)].vars)]
            } else {
                Seq::empty()
            };
            let tuple = if head == NodeKind::Wif && n >= 5 {
                seq![(Set::empty(), ctx[t.kid(i, 4)].vars)]
            } else {
                Seq::empty()
            };
            first + body + weight + tuple
        } else if n >= 3 {
            let body = t.kid_kind(i, 2);
            if body == NodeKind::Bodydot || body == NodeKind::Maxelemlist || body
                == NodeKind::Minelemlist {
                first + ctx[t.kid(i, 2)].dependencies
            } else {
                first
            }
        } else {
            first
        }
    } else {
        Seq::empty()
    }
}

/// The dependencies of the list of optimization elements at node `i`: those
/// of the elements before the last, then for the last element its tuple and
/// its weight, of which all variables are needed, and its condition.
pub open spec fn optimize_dependencies(t: SyntaxTree, ctx: Seq<Attributes>, i: int) -> Seq<
    Dependency,
> {
    let n = t.arity(i);
    let w = weight_position(t, i);
    let before = if continues_list(t, i) {
        ctx[t.kid(i, 0)].dependencies
    } else {
        Seq::empty()
    };
    if w < n {
        let has_tuple = w + 1 < n && t.kid_kind(i, w + 1) == NodeKind::Optimizetuple;
        let tuple = if has_tuple {
            seq![(Set::empty(), ctx[t.kid(i, w + 1)].vars)]
        } else {
            Seq::empty()
        };
        let c = if has_tuple {
            w + 2
        } else {
            w + 1
        };
        let condition = if c < n && t.kid_kind(i, c) == NodeKind::Optimizecond {
            ctx[t.kid(i, c)].dependencies
        } else {
            Seq::empty()
        };
        before + tuple + seq![(Set::empty(), ctx[t.kid(i, w)].vars)] + condition
    } else {
        before
    }
}

/// The dependencies of node `i`, given the variables below it.
pub open spec fn dependencies_of(t: SyntaxTree, ctx: Seq<Attributes>, i: int, vars: Names) -> Seq<
    Dependency,
> {
    let n = t.arity(i);
    match t.kind(i) {
        NodeKind::Statement => statement_dependencies(t, ctx, i),
        NodeKind::Atom => if n >= 3 {
            seq![
                (ctx[t.kid(i, 2)].provide, Set::empty()),
                (Set::empty(), ctx[t.kid(i, 2)].depend),
            ]
        } else {
            Seq::empty()
        },
        NodeKind::Literal => literal_dependencies(t, ctx, i),
        NodeKind::Conjunction => if n >= 3 {
            seq![(Set::empty(), vars)]
        } else {
            Seq::empty()
        },
        NodeKind::Bodycomma => if n >= 2 {
            kids_dependencies(t, ctx, i, n, true)
        } else {
            Seq::empty()
        },
        NodeKind::Bodydot => kids_dependencies(t, ctx, i, n, true),
        NodeKind::Litvec | NodeKind::Optcondition | NodeKind::Optimizelitvec
        | NodeKind::Optimizecond => kids_dependencies(t, ctx, i, n, false),
        NodeKind::Lubodyaggregate => if n >= 2 {
            aggregate_dependencies(t, ctx, i, vars)
        } else {
            Seq::empty()
        },
        NodeKind::Disjunction => if n >= 1 {
            seq![(Set::empty(), vars)]
        } else {
            Seq::empty()
        },
        NodeKind::Minelemlist | NodeKind::Maxelemlist => optimize_dependencies(t, ctx, i),
        _ => Seq::empty(),
    }
}

/// The position of the literal that the condition of the disjunction at
/// node `i` belongs to: behind the elements before it, if there are any.
pub open spec fn disjunction_offset(t: SyntaxTree, i: int) -> int {
    if t.kid_kind(i, 0) == NodeKind::Disjunctionsep {
        1
    } else {
        0
    }
}

/// The node that holds the condition of the disjunction at node `i`, which
/// has at least three children.
pub open spec fn disjunction_condition(t: SyntaxTree, i: int) -> int {
    let o = disjunction_offset(t, i);
    if t.kid_kind(i, o + 1) == NodeKind::Colon && o + 2 < t.arity(i) {
        t.kid(i, o + 2)
    } else if t.kid_kind(i, o + 1) == NodeKind::Optcondition {
        t.kid(i, o + 1)
    } else {
        t.kid(i, 0)
    }
}

/// The global variables of the disjunction at node `i`: those of the
/// elements before its last, and of the last the variables that its
/// condition does not hold.
pub open spec fn disjunction_globals(t: SyntaxTree, ctx: Seq<Attributes>, i: int) -> Names {
    let n = t.arity(i);
    let o = disjunction_offset(t, i);
    let before = if o == 1 {
        ctx[t.kid(i, 0)].global_vars
    } else {
        Set::empty()
    };
    if n == 2 && o == 1 {
        before.union(ctx[t.kid(i, 1)].global_vars)
    } else if n >= 3 {
        before.union(ctx[t.kid(i, o)].vars.difference(ctx[disjunction_condition(t, i)].vars))
    } else {
        before
    }
}

/// The global variables of the choice elements at node `i`.
pub open spec fn choice_globals(t: SyntaxTree, ctx: Seq<Attributes>, i: int) -> Names {
    let n = t.arity(i);
    if n == 1 {
        kids_union(t, ctx, i, n, Field::GlobalVars)
    } else if n == 2 {
        ctx[t.kid(i, 0)].vars.difference(ctx[t.kid(i, 1)].vars)
    } else if n >= 3 && t.kid_kind(i, 1) == NodeKind::Sem {
        let left = ctx[t.kid(i, 0)].global_vars;
        if n >= 4 {
            left.union(ctx[t.kid(i, 2)].vars.difference(ctx[t.kid(i, 3)].vars))
        } else {
            left.union(ctx[t.kid(i, 2)].vars)
        }
    } else {
        Set::empty()
    }
}

/// The record of a scope that node `i` opens for the element at node `of`
/// with the condition at node `condition`.
pub open spec fn scope_of(t: SyntaxTree, ctx: Seq<Attributes>, i: int, of: int, condition: int)
    -> SpecialLiteralFacts {
    SpecialLiteralFacts {
        id: t.id(i),
        kind: literal_type_of(t.kind(i)),
        local_dependency: scope_dependency(ctx, of, condition),
    }
}

/// The special literals of the choice elements at node `i`.
pub open spec fn choice_special(t: SyntaxTree, ctx: Seq<Attributes>, i: int) -> Seq<
    SpecialLiteralFacts,
> {
    let n = t.arity(i);
    if n == 1 {
        kids_special(t, ctx, i, n)
    } else if n == 2 {
        seq![scope_of(t, ctx, i, t.kid(i, 0), t.kid(i, 1))]
    } else if n >= 3 && t.kid_kind(i, 1) == NodeKind::Sem {
        let left = ctx[t.kid(i, 0)].special_literals;
        if n >= 4 {
            left.push(scope_of(t, ctx, i, t.kid(i, 2), t.kid(i, 3)))
        } else {
            left + ctx[t.kid(i, 2)].special_literals
        }
    } else {
        Seq::empty()
    }
}

/// The global variables of node `i`, given the variables below it.
pub open spec fn global_vars_of(t: SyntaxTree, ctx: Seq<Attributes>, i: int, vars: Names) -> Names {
    let n = t.arity(i);
    match t.kind(i) {
        NodeKind::Literal => vars,
        NodeKind::Conjunction => if n >= 3 {
            ctx[t.kid(i, 0)].vars.difference(ctx[t.kid(i, 2)].vars)
        } else {
            Set::empty()
        },
        NodeKind::Lubodyaggregate => if n >= 2 {
            aggregate_globals(t, ctx, i)
        } else {
            Set::empty()
        },
        NodeKind::Altheadaggrelemvec => choice_globals(t, ctx, i),
        NodeKind::Disjunction => disjunction_globals(t, ctx, i),
        NodeKind::SourceFile => Set::empty(),
        _ => kids_global(t, ctx, i, n),
    }
}

/// The special literals of node `i`.
pub open spec fn special_literals_of(t: SyntaxTree, ctx: Seq<Attributes>, i: int) -> Seq<
    SpecialLiteralFacts,
> {
    let n = t.arity(i);
    match t.kind(i) {
        NodeKind::Conjunction => if n >= 3 {
            seq![special_literal_of(t, ctx, i)]
        } else {
            Seq::empty()
        },
        NodeKind::Altheadaggrelemvec => choice_special(t, ctx, i),
        NodeKind::Disjunction => if n >= 3 {
            seq![scope_of(t, ctx, i, t.kid(i, disjunction_offset(t, i)), disjunction_condition(t, i))]
        } else {
            Seq::empty()
        },
        NodeKind::Bodyaggrelem => seq![special_literal_of(t, ctx, i)],
        NodeKind::SourceFile => Seq::empty(),
        _ => kids_special(t, ctx, i, n),
    }
}

/// What node `i` is as a term; nothing for a node that is no term.
pub open spec fn term_facts_of(t: SyntaxTree, ctx: Seq<Attributes>, i: int) -> TermFacts {
    if is_term_kind(t.kind(i)) {
        term_of(t, ctx, i)
    } else {
        TermFacts::unknown()
    }
}

/// The attributes of node `i`, given the attributes `ctx` of the nodes
/// before it.
pub open spec fn attributes_of(t: SyntaxTree, ctx: Seq<Attributes>, i: int) -> Attributes {
    let vars = vars_of(t, ctx, i);
    let provide = provide_of(t, ctx, i);
    Attributes {
        vars,
        global_vars: global_vars_of(t, ctx, i, vars),
        provide,
        depend: depend_of(t, ctx, i, vars, provide),
        dependencies: dependencies_of(t, ctx, i, vars),
        term: term_facts_of(t, ctx, i),
        special_literals: special_literals_of(t, ctx, i),
    }
}

} // verus!
