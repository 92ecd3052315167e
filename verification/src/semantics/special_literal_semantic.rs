use crate::dependency::{clone_pairs, extend_pairs, pairs_view, push_pair, Dependency};
use crate::node_kind::NodeKind;
use crate::semantics::encoding_semantic::EncodingSemantics;
use crate::semantics::statement_semantic::Attributes;
use crate::syntax_tree::SyntaxTree;
use crate::varset::VarSet;
use vstd::prelude::*;

verus! {

/// What type a literal is.
#[derive(Clone, Copy, Debug, PartialEq, Eq, Structural)]
pub enum LiteralType {
    Normal,
    Conjunction,
    AggregateElement,
    Disjunction,
}

/// Special literal semantics contain all the information needed around a
/// conditional literal or aggregate: a scope of its own, whose safety is
/// checked under the variables that the statement binds.
#[derive(Debug)]
pub struct SpecialLiteralSemantics {
    /// The identity of the node that opens the scope.
    pub id: usize,
    pub kind: LiteralType,
    /// The dependency pairs inside the scope.
    pub local_dependency: Vec<(VarSet, VarSet)>,
}

/// What a [`SpecialLiteralSemantics`] holds, with sets for its variables.
pub struct SpecialLiteralFacts {
    pub id: usize,
    pub kind: LiteralType,
    pub local_dependency: Seq<Dependency>,
}

impl View for SpecialLiteralSemantics {
    type V = SpecialLiteralFacts;

    open spec fn view(&self) -> SpecialLiteralFacts {
        SpecialLiteralFacts {
            id: self.id,
            kind: self.kind,
            local_dependency: pairs_view(self.local_dependency@),
        }
    }
}

impl Clone for SpecialLiteralSemantics {
    fn clone(&self) -> (res: Self)
        ensures
            res@ == self@,
    {
        SpecialLiteralSemantics {
            id: self.id,
            kind: self.kind,
            local_dependency: clone_pairs(&self.local_dependency),
        }
    }
}

/// The records that a sequence of special literals stands for.
pub open spec fn literals_view(s: Seq<SpecialLiteralSemantics>) -> Seq<SpecialLiteralFacts> {
    s.map_values(|l: SpecialLiteralSemantics| l@)
}

/// Appends the record `literal`.
pub fn push_literal(v: &mut Vec<SpecialLiteralSemantics>, literal: SpecialLiteralSemantics)
    ensures
        literals_view(final(v)@) == literals_view(old(v)@).push(literal@),
{
    v.push(literal);
    proof {
        assert(literals_view(v@) =~= literals_view(old(v)@).push(literal@));
    }
}

/// Appends a copy of every record of `more`.
pub fn extend_literals(v: &mut Vec<SpecialLiteralSemantics>, more: &Vec<SpecialLiteralSemantics>)
    ensures
        literals_view(final(v)@) == literals_view(old(v)@) + literals_view(more@),
{
    let mut i: usize = 0;
    proof {
        assert(literals_view(v@) =~= literals_view(old(v)@) + literals_view(more@.take(0)));
    }
    while i < more.len()
        invariant
            i <= more.len(),
            literals_view(v@) == literals_view(old(v)@) + literals_view(more@.take(i as int)),
        decreases more.len() - i,
    {
        let literal = more[i].clone();
        push_literal(v, literal);
        proof {
            assert(more@.take(i + 1) =~= more@.take(i as int).push(more@[i as int]));
            assert(literals_view(more@.take(i + 1)) =~= literals_view(more@.take(i as int)).push(
                more@[i as int]@,
            ));
            assert(literals_view(v@) =~= literals_view(old(v)@) + literals_view(
                more@.take(i + 1),
            ));
        }
        i = i + 1;
    }
    proof {
        assert(more@.take(more.len() as int) =~= more@);
    }
}

/// A copy of the records.
pub fn clone_literals(v: &Vec<SpecialLiteralSemantics>) -> (res: Vec<SpecialLiteralSemantics>)
    ensures
        literals_view(res@) == literals_view(v@),
{
    let mut res: Vec<SpecialLiteralSemantics> = Vec::new();
    proof {
        assert(literals_view(res@) =~= Seq::<SpecialLiteralFacts>::empty());
    }
    extend_literals(&mut res, v);
    proof {
        assert(Seq::<SpecialLiteralFacts>::empty() + literals_view(v@) =~= literals_view(v@));
    }
    res
}

/// The type of scope that a node of the given kind opens.
pub open spec fn literal_type_of(kind: NodeKind) -> LiteralType {
    match kind {
        NodeKind::Conjunction => LiteralType::Conjunction,
        NodeKind::Bodyaggrelem => LiteralType::AggregateElement,
        NodeKind::Altheadaggrelemvec => LiteralType::AggregateElement,
        NodeKind::Disjunction => LiteralType::Disjunction,
        _ => LiteralType::Normal,
    }
}

/// The dependency pairs of a scope whose variables are those of node `of`
/// and whose condition is node `condition`: the scope needs all variables
/// of `of`, and binds what its condition binds.
pub open spec fn scope_dependency(ctx: Seq<Attributes>, of: int, condition: int) -> Seq<
    Dependency,
> {
    seq![(Set::empty(), ctx[of].vars)] + ctx[condition].dependencies
}

/// The dependency pairs inside the scope that node `i` opens, given the
/// attributes `ctx` of the nodes before it.
pub open spec fn local_dependency_of(t: SyntaxTree, ctx: Seq<Attributes>, i: int) -> Seq<
    Dependency,
> {
    match t.kind(i) {
        NodeKind::Conjunction | NodeKind::Disjunction => if t.arity(i) == 3 {
            scope_dependency(ctx, t.kid(i, 0), t.kid(i, 2))
        } else {
            Seq::empty()
        },
        NodeKind::Bodyaggrelem => if t.arity(i) >= 2 {
            scope_dependency(ctx, t.kid(i, 0), t.kid(i, 1))
        } else {
            Seq::empty()
        },
        _ => Seq::empty(),
    }
}

/// The record of the scope that node `i` opens.
pub open spec fn special_literal_of(t: SyntaxTree, ctx: Seq<Attributes>, i: int)
    -> SpecialLiteralFacts {
    SpecialLiteralFacts {
        id: t.id(i),
        kind: literal_type_of(t.kind(i)),
        local_dependency: local_dependency_of(t, ctx, i),
    }
}

impl SpecialLiteralSemantics {
    /// The dependency pairs of a scope: all variables of node `of` are
    /// needed, and the pairs of node `condition` hold.
    pub fn scope_pairs(tree: &SyntaxTree, of: usize, condition: usize, semantics: &EncodingSemantics)
        -> (pairs: Vec<(VarSet, VarSet)>)
        requires
            of < tree.size(),
            condition < tree.size(),
        ensures
            pairs_view(pairs@) == seq![
                (Set::<Seq<char>>::empty(), semantics.attributes(tree.id(of as int)).vars),
            ] + semantics.attributes(tree.id(condition as int)).dependencies,
    {
        let mut pairs: Vec<(VarSet, VarSet)> = Vec::new();
        let of_semantics = semantics.get_statement_semantics_for_node(tree.nodes[of].id);
        let condition_semantics = semantics.get_statement_semantics_for_node(
            tree.nodes[condition].id,
        );
        proof {
            assert(pairs_view(pairs@) =~= Seq::<Dependency>::empty());
        }
        push_pair(&mut pairs, VarSet::new(), of_semantics.vars);
        extend_pairs(&mut pairs, &condition_semantics.dependencies);
        proof {
            assert(Seq::<Dependency>::empty().push(
                (Set::<Seq<char>>::empty(), semantics.attributes(tree.id(of as int)).vars),
            ) =~= seq![(Set::<Seq<char>>::empty(), semantics.attributes(tree.id(of as int)).vars)]);
        }
        pairs
    }

    /// The record of the scope that node `i` of the tree opens.
    pub fn new(tree: &SyntaxTree, i: usize, semantics: &EncodingSemantics) -> (literal:
        SpecialLiteralSemantics)
        requires
            tree.wf(),
            i < tree.size(),
        ensures
            literal@ == special_literal_of(*tree, semantics.context(*tree, i as int), i as int),
    {
        let mut local_dependency: Vec<(VarSet, VarSet)> = Vec::new();
        let n = tree.child_count(i);
        proof {
            assert(tree.node_wf(i as int));
            assert(pairs_view(local_dependency@) =~= Seq::<Dependency>::empty());
        }
        match tree.nodes[i].kind {
            NodeKind::Conjunction | NodeKind::Disjunction => {
                if n == 3 {
                    let l0 = tree.nodes[i].children[0];
                    let condition = tree.nodes[i].children[2];
                    proof {
                        assert(tree.nodes@[i as int].children@[0] < i);
                        assert(tree.nodes@[i as int].children@[2] < i);
                    }
                    local_dependency = Self::scope_pairs(tree, l0, condition, semantics);
                }
            },
            NodeKind::Bodyaggrelem => {
                if n >= 2 {
                    let terms = tree.nodes[i].children[0];
                    let condition = tree.nodes[i].children[1];
                    proof {
                        assert(tree.nodes@[i as int].children@[0] < i);
                        assert(tree.nodes@[i as int].children@[1] < i);
                    }
                    local_dependency = Self::scope_pairs(tree, terms, condition, semantics);
                }
            },
            _ => {},
        }
        Self::new_with_dep(tree, i, local_dependency)
    }

    /// The record of the scope that node `i` of the tree opens, with the
    /// dependency pairs given.
    pub fn new_with_dep(tree: &SyntaxTree, i: usize, local_dependency: Vec<(VarSet, VarSet)>) -> (literal:
        SpecialLiteralSemantics)
        requires
            i < tree.size(),
        ensures
            literal@ == (SpecialLiteralFacts {
                id: tree.id(i as int),
                kind: literal_type_of(tree.kind(i as int)),
                local_dependency: pairs_view(local_dependency@),
            }),
    {
        SpecialLiteralSemantics {
            id: tree.nodes[i].id,
            kind: match tree.nodes[i].kind {
                NodeKind::Conjunction => LiteralType::Conjunction,
                NodeKind::Bodyaggrelem => LiteralType::AggregateElement,
                NodeKind::Altheadaggrelemvec => LiteralType::AggregateElement,
                NodeKind::Disjunction => LiteralType::Disjunction,
                _ => LiteralType::Normal,
            },
            local_dependency,
        }
    }
}

} // verus!
