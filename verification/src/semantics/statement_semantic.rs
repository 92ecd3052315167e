use crate::dependency::{clone_pairs, extend_pairs, pairs_view, push_pair, Dependency, Names};
use crate::node_kind::NodeKind;
use crate::semantics::encoding_semantic::{EncodingSemantics, Semantics};
use crate::semantics::pass::{attributes_in, context_in, declared, lemma_declared_elsewhere, recomputed};
use crate::semantics::rules::{
    aggregate_dependencies,
    aggregate_globals,
    attributes_of,
    bounds_of,
    choice_globals,
    choice_special,
    comparison_dependencies,
    declares_global,
    dependencies_of,
    depend_of,
    disjunction_condition,
    disjunction_globals,
    disjunction_offset,
    global_vars_of,
    is_body_part,
    kids_dependencies,
    kids_global,
    kids_special,
    kids_union,
    literal_dependencies,
    negations,
    operator_kind,
    optimize_dependencies,
    provide_of,
    scope_of,
    special_literals_of,
    statement_dependencies,
    term_facts_of,
    vars_of,
    weight_position,
    Bounds,
    Field,
};
use crate::semantics::special_literal_semantic::{
    clone_literals, extend_literals, literals_view, push_literal, SpecialLiteralFacts,
    SpecialLiteralSemantics,
};
use crate::semantics::term_semantic::{TermFacts, TermSemantic, TermType};
use crate::syntax_tree::SyntaxTree;
use crate::varset::VarSet;
use vstd::prelude::*;

verus! {

/// Statement Semantics infers information from the syntax tree about
/// statements and their parts. Many of these fields are later used in the
/// safety analysis.
#[derive(Debug)]
pub struct StatementSemantics {
    /// Which variables are contained in this part of the encoding.
    pub vars: VarSet,
    /// Which variables are globally defined in this part of the encoding.
    pub global_vars: VarSet,
    /// Which variables are provided by this part of the encoding.
    pub provide: VarSet,
    /// Which variables this part of the encoding depends on.
    pub depend: VarSet,
    /// A list of sets of variables provided and depended upon. This is
    /// later used for checking the safety of a statement.
    pub dependencies: Vec<(VarSet, VarSet)>,
    /// For a term in a statement this holds what the term is.
    pub term: TermSemantic,
    /// A list of special literals that need to have more checks, for
    /// example for safety.
    pub special_literals: Vec<SpecialLiteralSemantics>,
}

/// The attributes of a node: what a [`StatementSemantics`] holds, with
/// sets and sequences for its collections.
pub struct Attributes {
    pub vars: Names,
    pub global_vars: Names,
    pub provide: Names,
    pub depend: Names,
    pub dependencies: Seq<Dependency>,
    pub term: TermFacts,
    pub special_literals: Seq<SpecialLiteralFacts>,
}

impl Attributes {
    /// The attributes of a node of which nothing is known.
    pub open spec fn empty() -> Attributes {
        Attributes {
            vars: Set::empty(),
            global_vars: Set::empty(),
            provide: Set::empty(),
            depend: Set::empty(),
            dependencies: Seq::empty(),
            term: TermFacts::unknown(),
            special_literals: Seq::empty(),
        }
    }

    /// Whether what the node binds and what it needs are variables of it.
    pub open spec fn within_vars(self) -> bool {
        self.provide.subset_of(self.vars) && self.depend.subset_of(self.vars)
    }
}

impl View for StatementSemantics {
    type V = Attributes;

    open spec fn view(&self) -> Attributes {
        Attributes {
            vars: self.vars@,
            global_vars: self.global_vars@,
            provide: self.provide@,
            depend: self.depend@,
            dependencies: pairs_view(self.dependencies@),
            term: self.term@,
            special_literals: literals_view(self.special_literals@),
        }
    }
}

impl Clone for StatementSemantics {
    fn clone(&self) -> (res: Self)
        ensures
            res@ == self@,
    {
        StatementSemantics {
            vars: self.vars.clone(),
            global_vars: self.global_vars.clone(),
            provide: self.provide.clone(),
            depend: self.depend.clone(),
            dependencies: clone_pairs(&self.dependencies),
            term: self.term.clone(),
            special_literals: clone_literals(&self.special_literals),
        }
    }
}

impl StatementSemantics {
    pub fn new() -> (res: StatementSemantics)
        ensures
            res@ == Attributes::empty(),
    {
        let res = StatementSemantics {
            vars: VarSet::new(),
            global_vars: VarSet::new(),
            provide: VarSet::new(),
            depend: VarSet::new(),
            dependencies: Vec::new(),
            term: TermSemantic::new(),
            special_literals: Vec::new(),
        };
        proof {
            assert(pairs_view(res.dependencies@) =~= Seq::<Dependency>::empty());
            assert(literals_view(res.special_literals@) =~= Seq::<SpecialLiteralFacts>::empty());
        }
        res
    }

    /// Set vars set for this statement.
    pub fn with_vars(self, vars: VarSet) -> (res: StatementSemantics)
        ensures
            res@ == (Attributes { vars: vars@, ..self@ }),
    {
        let mut res = self;
        res.vars = vars;
        res
    }

    /// Set global vars set for this statement.
    pub fn with_global_vars(self, vars: VarSet) -> (res: StatementSemantics)
        ensures
            res@ == (Attributes { global_vars: vars@, ..self@ }),
    {
        let mut res = self;
        res.global_vars = vars;
        res
    }

    /// Set provide set for this statement.
    pub fn with_provide(self, provide: VarSet) -> (res: StatementSemantics)
        ensures
            res@ == (Attributes { provide: provide@, ..self@ }),
    {
        let mut res = self;
        res.provide = provide;
        res
    }

    /// Set depend set for this statement.
    pub fn with_depend(self, depend: VarSet) -> (res: StatementSemantics)
        ensures
            res@ == (Attributes { depend: depend@, ..self@ }),
    {
        let mut res = self;
        res.depend = depend;
        res
    }

    /// Set dependencies for this statement.
    pub fn with_dependencies(self, dependencies: Vec<(VarSet, VarSet)>) -> (res:
        StatementSemantics)
        ensures
            res@ == (Attributes { dependencies: pairs_view(dependencies@), ..self@ }),
    {
        let mut res = self;
        res.dependencies = dependencies;
        res
    }

    /// Set special literals for this statement.
    pub fn with_special_literals(self, special_literals: Vec<SpecialLiteralSemantics>) -> (res:
        StatementSemantics)
        ensures
            res@ == (Attributes { special_literals: literals_view(special_literals@), ..self@ }),
    {
        let mut res = self;
        res.special_literals = special_literals;
        res
    }

    /// Set term for this statement.
    pub fn with_term(self, term: TermSemantic) -> (res: StatementSemantics)
        ensures
            res@ == (Attributes { term: term@, ..self@ }),
    {
        let mut res = self;
        res.term = term;
        res
    }
}


/// What the children of an aggregate with bounds say of its bounds, by
/// node index.
pub struct AggregateBounds {
    pub aggregate: Option<usize>,
    pub lower_term: Option<usize>,
    pub lower_op: Option<NodeKind>,
    pub upper_term: Option<usize>,
    pub upper_op: Option<NodeKind>,
}

/// The index that an optional node index stands for in the equations.
pub open spec fn index_view(o: Option<usize>) -> Option<int> {
    match o {
        Some(j) => Some(j as int),
        None => None,
    }
}

impl View for AggregateBounds {
    type V = Bounds;

    open spec fn view(&self) -> Bounds {
        Bounds {
            aggregate: index_view(self.aggregate),
            lower_term: index_view(self.lower_term),
            lower_op: self.lower_op,
            upper_term: index_view(self.upper_term),
            upper_op: self.upper_op,
        }
    }
}

impl StatementSemantics {
    /// The bundle that `semantics` holds of node `j`.
    fn of_node(tree: &SyntaxTree, j: usize, i: Ghost<int>, semantics: &EncodingSemantics) -> (bundle:
        StatementSemantics)
        requires
            j < i@ <= tree.size(),
        ensures
            bundle@ == semantics.context(*tree, i@)[j as int],
    {
        semantics.get_statement_semantics_for_node(tree.nodes[j].id)
    }

    /// The union of one variable set over all children of node `i`.
    fn union_from_children(
        tree: &SyntaxTree,
        i: usize,
        semantics: &EncodingSemantics,
        field: Field,
    ) -> (res: VarSet)
        requires
            tree.wf(),
            i < tree.size(),
        ensures
            res@ == kids_union(
                *tree,
                semantics.context(*tree, i as int),
                i as int,
                tree.arity(i as int),
                field,
            ),
    {
        let mut res = VarSet::new();
        let n = tree.child_count(i);
        let mut k: usize = 0;
        while k < n
            invariant
                tree.wf(),
                i < tree.size(),
                n == tree.arity(i as int),
                k <= n,
                res@ == kids_union(*tree, semantics.context(*tree, i as int), i as int, k as int, field),
            decreases n - k,
        {
            let c = tree.child_at(i, k);
            let bundle = Self::of_node(tree, c, Ghost(i as int), semantics);
            match field {
                Field::Vars => {
                    res.extend(&bundle.vars);
                },
                Field::GlobalVars => {
                    res.extend(&bundle.global_vars);
                },
                Field::Provide => {
                    res.extend(&bundle.provide);
                },
                Field::Depend => {
                    res.extend(&bundle.depend);
                },
            }
            k = k + 1;
        }
        res
    }

    /// Check if a variable occurs in this node, if not we pass on the
    /// variables in our children.
    fn check_for_variables(tree: &SyntaxTree, i: usize, semantics: &EncodingSemantics) -> (vars:
        VarSet)
        requires
            tree.wf(),
            i < tree.size(),
        ensures
            vars@ == vars_of(*tree, semantics.context(*tree, i as int), i as int),
    {
        match tree.nodes[i].kind {
            NodeKind::Variable => VarSet::singleton(tree.nodes[i].text.clone()),
            // Ignore any fields above statements
            NodeKind::SourceFile => VarSet::new(),
            _ => Self::union_from_children(tree, i, semantics, Field::Vars),
        }
    }

    /// Returns true if we could evaluate a value for the term at the node
    /// with identity `node` (only possible if the term is a constant).
    pub fn is_evaluable(node: usize, semantics: &EncodingSemantics) -> (res: bool)
        ensures
            res == (semantics.attributes(node).term.kind == TermType::Constant),
    {
        let semantic = semantics.get_statement_semantics_for_node(node);
        semantic.term.kind == TermType::Constant
    }

    /// Whether the term at the node with identity `node` is a constant that
    /// cannot be zero.
    fn is_nonzero_constant(node: usize, semantics: &EncodingSemantics) -> (res: bool)
        ensures
            res == (semantics.attributes(node).term.kind == TermType::Constant
                && !semantics.attributes(node).term.value.contains(0int)),
    {
        let semantic = semantics.get_statement_semantics_for_node(node);
        semantic.term.kind == TermType::Constant && !semantic.term.value.contains(0)
    }

    /// Whether node `i` declares all variables of its `k`-th child global.
    pub fn declares_child_global(tree: &SyntaxTree, i: usize, k: usize) -> (res: bool)
        requires
            tree.wf(),
            i < tree.size(),
        ensures
            res == declares_global(*tree, i as int, k as int),
    {
        let n = tree.child_count(i);
        match tree.nodes[i].kind {
            NodeKind::Statement => {
                let head = tree.child_kind(i, 0);
                ((head == NodeKind::Show || head == NodeKind::External) && n >= 2 && k == 1) || (
                head == NodeKind::Wif && n >= 4 && k == 3) || (head == NodeKind::Wif && n >= 5 && k
                    == 4)
            },
            NodeKind::Minelemlist | NodeKind::Maxelemlist => {
                let w = Self::weight_index(tree, i);
                (w < n && k == w) || (w + 1 < n && k == w + 1 && tree.child_kind(i, w + 1)
                    == NodeKind::Optimizetuple)
            },
            _ => false,
        }
    }

    /// The position of the weight of the last element among the children
    /// of a list of optimization elements.
    fn weight_index(tree: &SyntaxTree, i: usize) -> (w: usize)
        requires
            tree.wf(),
            i < tree.size(),
        ensures
            w == weight_position(*tree, i as int),
    {
        let first = tree.child_kind(i, 0);
        if first == NodeKind::Minelemlist || first == NodeKind::Maxelemlist {
            2
        } else {
            0
        }
    }

    /// Combine every global vars in the children of node and return this as
    /// the global vars for this node.
    fn pass_on_global_vars_from_children(tree: &SyntaxTree, i: usize, semantics: &EncodingSemantics)
        -> (res: VarSet)
        requires
            tree.wf(),
            i < tree.size(),
        ensures
            res@ == kids_global(
                *tree,
                semantics.context(*tree, i as int),
                i as int,
                tree.arity(i as int),
            ),
    {
        let mut res = VarSet::new();
        let n = tree.child_count(i);
        let mut k: usize = 0;
        while k < n
            invariant
                tree.wf(),
                i < tree.size(),
                n == tree.arity(i as int),
                k <= n,
                res@ == kids_global(*tree, semantics.context(*tree, i as int), i as int, k as int),
            decreases n - k,
        {
            let c = tree.child_at(i, k);
            let bundle = Self::of_node(tree, c, Ghost(i as int), semantics);
            if Self::declares_child_global(tree, i, k) {
                res.extend(&bundle.vars);
            } else {
                res.extend(&bundle.global_vars);
            }
            k = k + 1;
        }
        res
    }

    /// Combine every provide in the children of node and return this as the
    /// provide for this node.
    fn pass_on_provide_from_children(tree: &SyntaxTree, i: usize, semantics: &EncodingSemantics)
        -> (res: VarSet)
        requires
            tree.wf(),
            i < tree.size(),
        ensures
            res@ == kids_union(
                *tree,
                semantics.context(*tree, i as int),
                i as int,
                tree.arity(i as int),
                Field::Provide,
            ),
    {
        Self::union_from_children(tree, i, semantics, Field::Provide)
    }

    /// Combine every depend in the children of node and return this as the
    /// depend for this node. With `remove_provide`, what the node provides
    /// is removed from the depend set which was found.
    fn pass_on_depend_from_children(
        tree: &SyntaxTree,
        i: usize,
        semantics: &EncodingSemantics,
        remove_provide: bool,
        provide: &VarSet,
    ) -> (res: VarSet)
        requires
            tree.wf(),
            i < tree.size(),
        ensures
            res@ == (if remove_provide {
                kids_union(
                    *tree,
                    semantics.context(*tree, i as int),
                    i as int,
                    tree.arity(i as int),
                    Field::Depend,
                ).difference(provide@)
            } else {
                kids_union(
                    *tree,
                    semantics.context(*tree, i as int),
                    i as int,
                    tree.arity(i as int),
                    Field::Depend,
                )
            }),
    {
        let depend_in_children = Self::union_from_children(tree, i, semantics, Field::Depend);
        if remove_provide {
            depend_in_children.difference(provide)
        } else {
            depend_in_children
        }
    }

    /// Whether the dependencies of a child of this kind are part of a body.
    fn is_part_of_body(kind: NodeKind) -> (res: bool)
        ensures
            res == is_body_part(kind),
    {
        match kind {
            NodeKind::Literal | NodeKind::Bodycomma | NodeKind::Bodydot | NodeKind::Conjunction
            | NodeKind::Lubodyaggregate => true,
            _ => false,
        }
    }

    /// Combine every dependencies in the children of node and return this
    /// as the dependencies for this node. With `body_only`, only children
    /// that are parts of a body count.
    fn pass_on_dependencies_from_children(
        tree: &SyntaxTree,
        i: usize,
        semantics: &EncodingSemantics,
        body_only: bool,
    ) -> (res: Vec<(VarSet, VarSet)>)
        requires
            tree.wf(),
            i < tree.size(),
        ensures
            pairs_view(res@) == kids_dependencies(
                *tree,
                semantics.context(*tree, i as int),
                i as int,
                tree.arity(i as int),
                body_only,
            ),
    {
        let mut res: Vec<(VarSet, VarSet)> = Vec::new();
        let n = tree.child_count(i);
        let mut k: usize = 0;
        proof {
            assert(pairs_view(res@) =~= Seq::<Dependency>::empty());
        }
        while k < n
            invariant
                tree.wf(),
                i < tree.size(),
                n == tree.arity(i as int),
                k <= n,
                pairs_view(res@) == kids_dependencies(
                    *tree,
                    semantics.context(*tree, i as int),
                    i as int,
                    k as int,
                    body_only,
                ),
            decreases n - k,
        {
            let c = tree.child_at(i, k);
            if !body_only || Self::is_part_of_body(tree.nodes[c].kind) {
                let bundle = Self::of_node(tree, c, Ghost(i as int), semantics);
                extend_pairs(&mut res, &bundle.dependencies);
            }
            k = k + 1;
        }
        res
    }

    /// Combine every special literal in the children of node and return
    /// this as the special literals for this node.
    fn pass_on_special_literals_from_children(
        tree: &SyntaxTree,
        i: usize,
        semantics: &EncodingSemantics,
    ) -> (res: Vec<SpecialLiteralSemantics>)
        requires
            tree.wf(),
            i < tree.size(),
        ensures
            literals_view(res@) == kids_special(
                *tree,
                semantics.context(*tree, i as int),
                i as int,
                tree.arity(i as int),
            ),
    {
        let mut res: Vec<SpecialLiteralSemantics> = Vec::new();
        let n = tree.child_count(i);
        let mut k: usize = 0;
        proof {
            assert(literals_view(res@) =~= Seq::<SpecialLiteralFacts>::empty());
        }
        while k < n
            invariant
                tree.wf(),
                i < tree.size(),
                n == tree.arity(i as int),
                k <= n,
                literals_view(res@) == kids_special(
                    *tree,
                    semantics.context(*tree, i as int),
                    i as int,
                    k as int,
                ),
            decreases n - k,
        {
            let c = tree.child_at(i, k);
            let bundle = Self::of_node(tree, c, Ghost(i as int), semantics);
            extend_literals(&mut res, &bundle.special_literals);
            k = k + 1;
        }
        res
    }

    /// What the node `from`, a child of node `i`, provides.
    fn pass_on_provide_from_specific_node(
        tree: &SyntaxTree,
        i: Ghost<int>,
        semantics: &EncodingSemantics,
        from: usize,
    ) -> (res: VarSet)
        requires
            from < i@ <= tree.size(),
        ensures
            res@ == semantics.context(*tree, i@)[from as int].provide,
    {
        Self::of_node(tree, from, i, semantics).provide
    }

    /// Check what variables a part of a statement provides.
    fn check_provide(tree: &SyntaxTree, i: usize, semantics: &EncodingSemantics) -> (provide:
        VarSet)
        requires
            tree.wf(),
            i < tree.size(),
        ensures
            provide@ == provide_of(*tree, semantics.context(*tree, i as int), i as int),
    {
        let n = tree.child_count(i);
        let ghost ctx = semantics.context(*tree, i as int);
        match tree.nodes[i].kind {
            NodeKind::Variable => {
                // Return a set containing this variable
                VarSet::singleton(tree.nodes[i].text.clone())
            },
            NodeKind::Term => {
                // If we only have 1 child we pass on the provide for the child
                if n == 1 {
                    Self::pass_on_provide_from_children(tree, i, semantics)
                } else if n >= 3 {
                    let left_child = tree.child_at(i, 0);
                    let right_child = tree.child_at(i, 2);
                    let left_id = tree.nodes[left_child].id;
                    let right_id = tree.nodes[right_child].id;
                    match tree.child_kind(i, 1) {
                        NodeKind::Lparen => {
                            // We have a term of form f(t), pass on the provide value of the
                            // children
                            Self::pass_on_provide_from_children(tree, i, semantics)
                        },
                        NodeKind::Add | NodeKind::Sub => {
                            // We have a term of form a + b
                            if Self::is_evaluable(left_id, semantics) {
                                // If the left term is a constant then we pass on the provide
                                // value of the right child
                                Self::pass_on_provide_from_specific_node(
                                    tree,
                                    Ghost(i as int),
                                    semantics,
                                    right_child,
                                )
                            } else if Self::is_evaluable(right_id, semantics) {
                                // If the right term is a constant then we pass on the provide
                                // value of the left child
                                Self::pass_on_provide_from_specific_node(
                                    tree,
                                    Ghost(i as int),
                                    semantics,
                                    left_child,
                                )
                            } else {
                                VarSet::new()
                            }
                        },
                        NodeKind::Mul => {
                            // We have a term of form a * b: a factor that can be zero binds
                            // nothing
                            if Self::is_nonzero_constant(left_id, semantics) {
                                Self::pass_on_provide_from_specific_node(
                                    tree,
                                    Ghost(i as int),
                                    semantics,
                                    right_child,
                                )
                            } else if Self::is_nonzero_constant(right_id, semantics) {
                                Self::pass_on_provide_from_specific_node(
                                    tree,
                                    Ghost(i as int),
                                    semantics,
                                    left_child,
                                )
                            } else {
                                VarSet::new()
                            }
                        },
                        _ => VarSet::new(),
                    }
                } else {
                    VarSet::new()
                }
            },
            NodeKind::Termvec => Self::pass_on_provide_from_children(tree, i, semantics),
            NodeKind::Argvec => {
                // If we only have 1 child we pass on the provide for the child
                if n == 1 {
                    Self::pass_on_provide_from_children(tree, i, semantics)
                } else if n == 3 && tree.child_kind(i, 1) == NodeKind::Sem {
                    // If we have an argvec with a semicolon we have a pool: it provides what
                    // both of its sides provide
                    let left_child = tree.child_at(i, 0);
                    let right_child = tree.child_at(i, 2);
                    let left_provide = Self::of_node(
                        tree,
                        left_child,
                        Ghost(i as int),
                        semantics,
                    ).provide;
                    let right_provide = Self::of_node(
                        tree,
                        right_child,
                        Ghost(i as int),
                        semantics,
                    ).provide;
                    left_provide.intersection(&right_provide)
                } else {
                    VarSet::new()
                }
            },
            // An empty set for everything else
            _ => VarSet::new(),
        }
    }

    /// Check what variables a part of a statement depends on.
    fn check_depend(
        tree: &SyntaxTree,
        i: usize,
        semantics: &EncodingSemantics,
        vars: &VarSet,
        provide: &VarSet,
    ) -> (depend: VarSet)
        requires
            tree.wf(),
            i < tree.size(),
        ensures
            depend@ == depend_of(
                *tree,
                semantics.context(*tree, i as int),
                i as int,
                vars@,
                provide@,
            ),
    {
        let n = tree.child_count(i);
        match tree.nodes[i].kind {
            NodeKind::Termvec => Self::pass_on_depend_from_children(
                tree,
                i,
                semantics,
                true,
                provide,
            ),
            NodeKind::Argvec => {
                // If we only have 1 child we pass on the depend for the child
                if n == 1 {
                    Self::pass_on_depend_from_children(tree, i, semantics, false, provide)
                } else if n == 3 && tree.child_kind(i, 1) == NodeKind::Sem {
                    // For a pool we take the union between the two depends of the children
                    let left_child = tree.child_at(i, 0);
                    let right_child = tree.child_at(i, 2);
                    let left_depend = Self::of_node(
                        tree,
                        left_child,
                        Ghost(i as int),
                        semantics,
                    ).depend;
                    let right_depend = Self::of_node(
                        tree,
                        right_child,
                        Ghost(i as int),
                        semantics,
                    ).depend;
                    let depend = left_depend.union(&right_depend);
                    // Remove any variables that are provided
                    depend.difference(provide)
                } else {
                    VarSet::new()
                }
            },
            NodeKind::Term => {
                // If we only have 1 child we pass on the depend for the child
                if n == 1 {
                    Self::pass_on_depend_from_children(tree, i, semantics, false, provide)
                } else if n >= 3 {
                    if tree.child_kind(i, 1) == NodeKind::Lparen {
                        // We have a term of form f(t), pass on the depend value of the
                        // children
                        Self::pass_on_depend_from_children(tree, i, semantics, false, provide)
                    } else {
                        // We have a term of form a * b: what it does not provide, it needs
                        vars.difference(provide)
                    }
                } else {
                    VarSet::new()
                }
            },
            // Ignore any fields above statements; a variable needs nothing
            NodeKind::SourceFile | NodeKind::Variable => VarSet::new(),
            _ => Self::pass_on_depend_from_children(tree, i, semantics, false, provide),
        }
    }

    /// The pair that needs all variables of node `j` and provides nothing.
    fn needs_vars_of(tree: &SyntaxTree, j: usize, i: Ghost<int>, semantics: &EncodingSemantics)
        -> (pair: (VarSet, VarSet))
        requires
            j < i@ <= tree.size(),
        ensures
            (pair.0@, pair.1@) == (
                Set::<Seq<char>>::empty(),
                semantics.context(*tree, i@)[j as int].vars,
            ),
    {
        (VarSet::new(), Self::of_node(tree, j, i, semantics).vars)
    }

    /// The dependencies of the statement at node `i`.
    fn statement_pairs(tree: &SyntaxTree, i: usize, semantics: &EncodingSemantics) -> (res: Vec<
        (VarSet, VarSet),
    >)
        requires
            tree.wf(),
            i < tree.size(),
        ensures
            pairs_view(res@) == statement_dependencies(
                *tree,
                semantics.context(*tree, i as int),
                i as int,
            ),
    {
        let n = tree.child_count(i);
        let ghost ctx = semantics.context(*tree, i as int);
        let mut dependencies: Vec<(VarSet, VarSet)> = Vec::new();
        proof {
            assert(pairs_view(dependencies@) =~= Seq::<Dependency>::empty());
        }
        if n >= 1 {
            // If we have one child do the dependency function for a rule: (∅, vars(head))
            let head = tree.child_at(i, 0);
            let head_kind = tree.nodes[head].kind;
            let first = Self::needs_vars_of(tree, head, Ghost(i as int), semantics);
            push_pair(&mut dependencies, first.0, first.1);
            let ghost first_view = seq![(Set::<Seq<char>>::empty(), ctx[head as int].vars)];
            proof {
                assert(pairs_view(dependencies@) =~= first_view);
            }
            if (head_kind == NodeKind::Show || head_kind == NodeKind::External) && n >= 2 {
                // We have a show / external statement: the variables in the term are needed
                let term = tree.child_at(i, 1);
                let shown = Self::needs_vars_of(tree, term, Ghost(i as int), semantics);
                push_pair(&mut dependencies, shown.0, shown.1);
                if n >= 4 && tree.child_kind(i, 2) == NodeKind::Colon && tree.child_kind(i, 3)
                    == NodeKind::Bodydot {
                    // We have a colon and a body after the term
                    let body = tree.child_at(i, 3);
                    let body_semantics = Self::of_node(tree, body, Ghost(i as int), semantics);
                    extend_pairs(&mut dependencies, &body_semantics.dependencies);
                }
                proof {
                    let shown_view = seq![(Set::<Seq<char>>::empty(), ctx[term as int].vars)];
                    assert(first_view.push((Set::<Seq<char>>::empty(), ctx[term as int].vars))
                        =~= first_view + shown_view);
                    assert(first_view + shown_view + Seq::<Dependency>::empty() =~= first_view
                        + shown_view);
                }
            } else if (head_kind == NodeKind::If || head_kind == NodeKind::Wif) && n >= 2 {
                let body = tree.child_at(i, 1);
                let ghost mut body_view = Seq::<Dependency>::empty();
                if tree.nodes[body].kind == NodeKind::Bodydot {
                    let body_semantics = Self::of_node(tree, body, Ghost(i as int), semantics);
                    extend_pairs(&mut dependencies, &body_semantics.dependencies);
                    proof {
                        body_view = ctx[body as int].dependencies;
                    }
                }
                proof {
                    assert(first_view + Seq::<Dependency>::empty() =~= first_view);
                    assert(pairs_view(dependencies@) =~= first_view + body_view);
                }
                // If we have a weak constraint we need to handle the weight and tuple
                let ghost mut weight_view = Seq::<Dependency>::empty();
                let ghost mut tuple_view = Seq::<Dependency>::empty();
                if head_kind == NodeKind::Wif && n >= 4 {
                    let weight = tree.child_at(i, 3);
                    let pair = Self::needs_vars_of(tree, weight, Ghost(i as int), semantics);
                    push_pair(&mut dependencies, pair.0, pair.1);
                    proof {
                        weight_view = seq![(Set::<Seq<char>>::empty(), ctx[weight as int].vars)];
                        assert(pairs_view(dependencies@) =~= first_view + body_view + weight_view);
                    }
                    if n >= 5 {
                        let tuple = tree.child_at(i, 4);
                        let pair = Self::needs_vars_of(tree, tuple, Ghost(i as int), semantics);
                        push_pair(&mut dependencies, pair.0, pair.1);
                        proof {
                            tuple_view = seq![(Set::<Seq<char>>::empty(), ctx[tuple as int].vars)];
                        }
                    }
                }
                proof {
                    assert(pairs_view(dependencies@) =~= first_view + body_view + weight_view
                        + tuple_view);
                }
            } else if n >= 3 {
                let body = tree.child_at(i, 2);
                let body_kind = tree.nodes[body].kind;
                if body_kind == NodeKind::Bodydot || body_kind == NodeKind::Maxelemlist
                    || body_kind == NodeKind::Minelemlist {
                    let body_semantics = Self::of_node(tree, body, Ghost(i as int), semantics);
                    extend_pairs(&mut dependencies, &body_semantics.dependencies);
                }
            }
        }
        dependencies
    }

    /// The number of `not` in front of the literal at node `i`.
    fn count_negations(tree: &SyntaxTree, i: usize) -> (nots: usize)
        requires
            tree.wf(),
            i < tree.size(),
        ensures
            nots == negations(*tree, i as int, tree.arity(i as int)),
            nots <= tree.arity(i as int),
    {
        let n = tree.child_count(i);
        let mut k: usize = 0;
        let mut nots: usize = 0;
        while k < n
            invariant
                tree.wf(),
                i < tree.size(),
                n == tree.arity(i as int),
                k <= n,
                nots <= k,
                nots == negations(*tree, i as int, k as int),
            decreases n - k,
        {
            if nots == k && tree.child_kind(i, k) == NodeKind::Not {
                nots = k + 1;
            }
            k = k + 1;
        }
        nots
    }

    /// The operator of the comparison whose operator node is `c`.
    fn comparison_operator(tree: &SyntaxTree, c: usize) -> (kind: NodeKind)
        requires
            tree.wf(),
            c < tree.size(),
        ensures
            kind == operator_kind(*tree, c as int),
    {
        if tree.child_count(c) >= 1 {
            tree.child_kind(c, 0)
        } else {
            tree.nodes[c].kind
        }
    }

    /// The dependencies of the comparison of the terms at nodes `t1` and
    /// `t2`.
    fn comparison_pairs(
        tree: &SyntaxTree,
        i: Ghost<int>,
        semantics: &EncodingSemantics,
        t1: usize,
        t2: usize,
        eq: bool,
    ) -> (dep: Vec<(VarSet, VarSet)>)
        requires
            t1 < i@ <= tree.size(),
            t2 < i@,
        ensures
            pairs_view(dep@) == comparison_dependencies(
                semantics.context(*tree, i@),
                t1 as int,
                t2 as int,
                eq,
            ),
    {
        let ghost ctx = semantics.context(*tree, i@);
        let mut dep: Vec<(VarSet, VarSet)> = Vec::new();
        let left_semantics = Self::of_node(tree, t1, i, semantics);
        let right_semantics = Self::of_node(tree, t2, i, semantics);
        proof {
            assert(pairs_view(dep@) =~= Seq::<Dependency>::empty());
        }
        // If the comparison is not an assignment
        if !eq {
            let vars = left_semantics.vars.union(&right_semantics.vars);
            push_pair(&mut dep, VarSet::new(), vars);
            proof {
                assert(pairs_view(dep@) =~= comparison_dependencies(ctx, t1 as int, t2 as int, eq));
            }
        } else {
            let depend = left_semantics.depend.union(&right_semantics.depend);
            // (pt(t1), vars(t2))
            push_pair(&mut dep, left_semantics.provide, right_semantics.vars);
            // (pt(t2), vars(t1))
            push_pair(&mut dep, right_semantics.provide, left_semantics.vars);
            // (∅, dt(t1) ∪ dt(t2))
            push_pair(&mut dep, VarSet::new(), depend);
            proof {
                assert(pairs_view(dep@) =~= comparison_dependencies(ctx, t1 as int, t2 as int, eq));
            }
        }
        dep
    }

    /// The dependencies of the literal at node `i`.
    fn literal_pairs(tree: &SyntaxTree, i: usize, semantics: &EncodingSemantics) -> (res: Vec<
        (VarSet, VarSet),
    >)
        requires
            tree.wf(),
            i < tree.size(),
        ensures
            pairs_view(res@) == literal_dependencies(
                *tree,
                semantics.context(*tree, i as int),
                i as int,
            ),
    {
        let n = tree.child_count(i);
        let ghost ctx = semantics.context(*tree, i as int);
        if n == 1 {
            // If we have one child pass on the dependency from the atom
            Self::pass_on_dependencies_from_children(tree, i, semantics, false)
        } else if n > 1 {
            // Find out where the atom starts without NOT
            let nots = Self::count_negations(tree, i);
            let atom_id = if nots < n {
                nots
            } else {
                0
            };
            let atom = tree.child_at(i, atom_id);
            let mut dep: Vec<(VarSet, VarSet)> = Vec::new();
            proof {
                assert(pairs_view(dep@) =~= Seq::<Dependency>::empty());
            }
            if atom_id + 1 < n && tree.child_kind(i, atom_id + 1) == NodeKind::Rellitvec {
                // We have a comparison
                let rel = tree.child_at(i, atom_id + 1);
                if tree.child_count(rel) == 2 && tree.child_kind(rel, 0) == NodeKind::Comparison {
                    let operator = tree.child_at(rel, 0);
                    let right = tree.child_at(rel, 1);
                    let mut comparison = Self::comparison_operator(tree, operator);
                    // An odd number of negations turns the comparison into its opposite
                    if atom_id % 2 == 1 {
                        comparison = comparison.negate();
                    }
                    dep = Self::comparison_pairs(
                        tree,
                        Ghost(i as int),
                        semantics,
                        atom,
                        right,
                        comparison == NodeKind::Eq,
                    );
                } else {
                    // A chain of comparisons binds nothing
                    let left_semantics = Self::of_node(tree, atom, Ghost(i as int), semantics);
                    let rel_semantics = Self::of_node(tree, rel, Ghost(i as int), semantics);
                    push_pair(
                        &mut dep,
                        VarSet::new(),
                        left_semantics.vars.union(&rel_semantics.vars),
                    );
                    proof {
                        assert(pairs_view(dep@) =~= seq![
                            (
                                Set::<Seq<char>>::empty(),
                                ctx[atom as int].vars.union(ctx[rel as int].vars),
                            ),
                        ]);
                    }
                }
            } else {
                let pair = Self::needs_vars_of(tree, atom, Ghost(i as int), semantics);
                push_pair(&mut dep, pair.0, pair.1);
                proof {
                    assert(pairs_view(dep@) =~= seq![
                        (Set::<Seq<char>>::empty(), ctx[atom as int].vars),
                    ]);
                }
            }
            dep
        } else {
            let dep: Vec<(VarSet, VarSet)> = Vec::new();
            proof {
                assert(pairs_view(dep@) =~= Seq::<Dependency>::empty());
            }
            dep
        }
    }

    /// Finds out where the bounds of the aggregate at node `i` are.
    fn find_bounds(tree: &SyntaxTree, i: usize) -> (bounds: AggregateBounds)
        requires
            tree.wf(),
            i < tree.size(),
        ensures
            bounds@ == bounds_of(*tree, i as int, tree.arity(i as int)),
            bounds.aggregate matches Some(j) ==> j < i,
            bounds.lower_term matches Some(j) ==> j < i,
            bounds.upper_term matches Some(j) ==> j < i,
    {
        let n = tree.child_count(i);
        let mut bounds = AggregateBounds {
            aggregate: None,
            lower_term: None,
            lower_op: None,
            upper_term: None,
            upper_op: None,
        };
        let mut k: usize = 0;
        while k < n
            invariant
                tree.wf(),
                i < tree.size(),
                n == tree.arity(i as int),
                k <= n,
                bounds@ == bounds_of(*tree, i as int, k as int),
                bounds.aggregate matches Some(j) ==> j < i,
                bounds.lower_term matches Some(j) ==> j < i,
                bounds.upper_term matches Some(j) ==> j < i,
            decreases n - k,
        {
            let child = tree.child_at(i, k);
            match tree.nodes[child].kind {
                NodeKind::Bodyaggregate => {
                    bounds.aggregate = Some(child);
                },
                NodeKind::Upper => {
                    if tree.child_count(child) >= 2 {
                        let operator = tree.child_at(child, 0);
                        if tree.child_count(operator) >= 1 {
                            bounds.upper_op = Some(tree.child_kind(operator, 0));
                        }
                        bounds.upper_term = Some(tree.child_at(child, 1));
                    }
                },
                NodeKind::Term => {
                    bounds.lower_term = Some(child);
                },
                NodeKind::Comparison => {
                    if tree.child_count(child) >= 1 {
                        bounds.lower_op = Some(tree.child_kind(child, 0));
                    }
                },
                _ => {},
            }
            k = k + 1;
        }
        bounds
    }

    /// Appends the dependencies of an assignment of an aggregate with the
    /// variables `aggr_vars` to the term at node `term`.
    fn push_assignment(
        tree: &SyntaxTree,
        i: Ghost<int>,
        semantics: &EncodingSemantics,
        term: usize,
        aggr_vars: &VarSet,
        dependencies: &mut Vec<(VarSet, VarSet)>,
    )
        requires
            term < i@ <= tree.size(),
        ensures
            pairs_view(final(dependencies)@) == pairs_view(old(dependencies)@) + seq![
                (semantics.context(*tree, i@)[term as int].provide, aggr_vars@),
                (Set::<Seq<char>>::empty(), semantics.context(*tree, i@)[term as int].depend),
            ],
    {
        let term_semantics = Self::of_node(tree, term, i, semantics);
        push_pair(dependencies, term_semantics.provide, aggr_vars.clone());
        push_pair(dependencies, VarSet::new(), term_semantics.depend);
        proof {
            assert(pairs_view(dependencies@) =~= pairs_view(old(dependencies)@) + seq![
                (semantics.context(*tree, i@)[term as int].provide, aggr_vars@),
                (Set::<Seq<char>>::empty(), semantics.context(*tree, i@)[term as int].depend),
            ]);
        }
    }

    /// The dependencies of the aggregate with bounds at node `i`.
    fn aggregate_pairs(tree: &SyntaxTree, i: usize, semantics: &EncodingSemantics, vars: &VarSet)
        -> (res: Vec<(VarSet, VarSet)>)
        requires
            tree.wf(),
            i < tree.size(),
        ensures
            pairs_view(res@) == aggregate_dependencies(
                *tree,
                semantics.context(*tree, i as int),
                i as int,
                vars@,
            ),
    {
        let ghost ctx = semantics.context(*tree, i as int);
        // When we have an aggregate with bounds, we need to check where the bounds are
        let bounds = Self::find_bounds(tree, i);
        let mut dependencies: Vec<(VarSet, VarSet)> = Vec::new();
        proof {
            assert(pairs_view(dependencies@) =~= Seq::<Dependency>::empty());
        }
        // Find out which variables the aggregate has
        let aggr_vars = match bounds.aggregate {
            Some(aggregate) => Self::of_node(tree, aggregate, Ghost(i as int), semantics).vars,
            None => VarSet::new(),
        };
        let lower_assigns = match bounds.lower_op {
            Some(op) => op == NodeKind::Eq,
            None => false,
        };
        let upper_assigns = match bounds.upper_op {
            Some(op) => op == NodeKind::Eq,
            None => false,
        };
        // Depending if certain bounds exist and their types we now set the dependencies
        let ghost mut lower_view = Seq::<Dependency>::empty();
        let ghost mut upper_view = Seq::<Dependency>::empty();
        if lower_assigns {
            match bounds.lower_term {
                Some(term) => {
                    // If there is an assignment the term is bound by the aggregate
                    Self::push_assignment(
                        tree,
                        Ghost(i as int),
                        semantics,
                        term,
                        &aggr_vars,
                        &mut dependencies,
                    );
                    proof {
                        lower_view = seq![
                            (ctx[term as int].provide, aggr_vars@),
                            (Set::<Seq<char>>::empty(), ctx[term as int].depend),
                        ];
                    }
                },
                None => {},
            }
        }
        proof {
            assert(pairs_view(dependencies@) =~= lower_view);
        }
        if upper_assigns {
            match bounds.upper_term {
                Some(term) => {
                    Self::push_assignment(
                        tree,
                        Ghost(i as int),
                        semantics,
                        term,
                        &aggr_vars,
                        &mut dependencies,
                    );
                    proof {
                        upper_view = seq![
                            (ctx[term as int].provide, aggr_vars@),
                            (Set::<Seq<char>>::empty(), ctx[term as int].depend),
                        ];
                    }
                },
                None => {},
            }
        }
        proof {
            assert(pairs_view(dependencies@) =~= lower_view + upper_view);
        }
        if !(lower_assigns || upper_assigns) {
            // If there isn't an assignment then all variables will be the dependency for this
            // aggregate
            push_pair(&mut dependencies, VarSet::new(), vars.clone());
            proof {
                assert(pairs_view(dependencies@) =~= lower_view + upper_view + seq![
                    (Set::<Seq<char>>::empty(), vars@),
                ]);
            }
        } else {
            proof {
                assert(pairs_view(dependencies@) =~= lower_view + upper_view + Seq::<
                    Dependency,
                >::empty());
            }
        }
        dependencies
    }

    /// The dependencies of the list of optimization elements at node `i`.
    fn optimize_pairs(tree: &SyntaxTree, i: usize, semantics: &EncodingSemantics) -> (res: Vec<
        (VarSet, VarSet),
    >)
        requires
            tree.wf(),
            i < tree.size(),
        ensures
            pairs_view(res@) == optimize_dependencies(
                *tree,
                semantics.context(*tree, i as int),
                i as int,
            ),
    {
        let n = tree.child_count(i);
        let ghost ctx = semantics.context(*tree, i as int);
        let w = Self::weight_index(tree, i);
        let mut dependencies: Vec<(VarSet, VarSet)> = Vec::new();
        let ghost mut before = Seq::<Dependency>::empty();
        proof {
            assert(pairs_view(dependencies@) =~= Seq::<Dependency>::empty());
        }
        if w == 2 {
            // The elements before the last one
            let list = tree.child_at(i, 0);
            let list_semantics = Self::of_node(tree, list, Ghost(i as int), semantics);
            extend_pairs(&mut dependencies, &list_semantics.dependencies);
            proof {
                before = ctx[list as int].dependencies;
                assert(Seq::<Dependency>::empty() + before =~= before);
            }
        }
        if w < n {
            let weight = tree.child_at(i, w);
            let has_tuple = w + 1 < n && tree.child_kind(i, w + 1) == NodeKind::Optimizetuple;
            let ghost mut tuple_view = Seq::<Dependency>::empty();
            if has_tuple {
                // Add all variables in the tuple to the dependency list
                let tuple = tree.child_at(i, w + 1);
                let pair = Self::needs_vars_of(tree, tuple, Ghost(i as int), semantics);
                push_pair(&mut dependencies, pair.0, pair.1);
                proof {
                    tuple_view = seq![(Set::<Seq<char>>::empty(), ctx[tuple as int].vars)];
                }
            }
            proof {
                assert(pairs_view(dependencies@) =~= before + tuple_view);
            }
            // Add all variables in the weight to the dependency list
            let pair = Self::needs_vars_of(tree, weight, Ghost(i as int), semantics);
            push_pair(&mut dependencies, pair.0, pair.1);
            let ghost weight_view = seq![(Set::<Seq<char>>::empty(), ctx[weight as int].vars)];
            proof {
                assert(pairs_view(dependencies@) =~= before + tuple_view + weight_view);
            }
            let c = if has_tuple {
                w + 2
            } else {
                w + 1
            };
            if c < n && tree.child_kind(i, c) == NodeKind::Optimizecond {
                // Take all the dependencies from the condition
                let condition = tree.child_at(i, c);
                let condition_semantics = Self::of_node(
                    tree,
                    condition,
                    Ghost(i as int),
                    semantics,
                );
                extend_pairs(&mut dependencies, &condition_semantics.dependencies);
            } else {
                proof {
                    assert(before + tuple_view + weight_view + Seq::<Dependency>::empty()
                        =~= before + tuple_view + weight_view);
                }
            }
        }
        dependencies
    }

    /// Check what each part of the statement depends and provides as a list
    /// of dependency pairs.
    fn check_dependencies(
        tree: &SyntaxTree,
        i: usize,
        semantics: &EncodingSemantics,
        vars: &VarSet,
    ) -> (res: Vec<(VarSet, VarSet)>)
        requires
            tree.wf(),
            i < tree.size(),
        ensures
            pairs_view(res@) == dependencies_of(
                *tree,
                semantics.context(*tree, i as int),
                i as int,
                vars@,
            ),
    {
        let n = tree.child_count(i);
        let ghost ctx = semantics.context(*tree, i as int);
        let mut dep: Vec<(VarSet, VarSet)> = Vec::new();
        proof {
            assert(pairs_view(dep@) =~= Seq::<Dependency>::empty());
        }
        match tree.nodes[i].kind {
            NodeKind::Statement => {
                dep = Self::statement_pairs(tree, i, semantics);
            },
            NodeKind::Atom => {
                if n >= 3 {
                    // If we have three children do the dependency function for an atom:
                    // (pt(t), ∅), (∅, dt(t))
                    let argument = tree.child_at(i, 2);
                    let argument_semantics = Self::of_node(
                        tree,
                        argument,
                        Ghost(i as int),
                        semantics,
                    );
                    push_pair(&mut dep, argument_semantics.provide, VarSet::new());
                    push_pair(&mut dep, VarSet::new(), argument_semantics.depend);
                    proof {
                        assert(pairs_view(dep@) =~= seq![
                            (ctx[argument as int].provide, Set::<Seq<char>>::empty()),
                            (Set::<Seq<char>>::empty(), ctx[argument as int].depend),
                        ]);
                    }
                }
            },
            NodeKind::Literal => {
                dep = Self::literal_pairs(tree, i, semantics);
            },
            NodeKind::Conjunction => {
                // We have a conditional literal
                if n >= 3 {
                    push_pair(&mut dep, VarSet::new(), vars.clone());
                    proof {
                        assert(pairs_view(dep@) =~= seq![(Set::<Seq<char>>::empty(), vars@)]);
                    }
                }
            },
            NodeKind::Bodycomma => {
                // If we have 2 children or more we pass on the dependency of the literals
                // (ignoring the last child, which is a comma)
                if n >= 2 {
                    dep = Self::pass_on_dependencies_from_children(tree, i, semantics, true);
                }
            },
            NodeKind::Bodydot => {
                // Pass on the dependencies from each of the literals
                dep = Self::pass_on_dependencies_from_children(tree, i, semantics, true);
            },
            NodeKind::Litvec | NodeKind::Optcondition | NodeKind::Optimizelitvec
            | NodeKind::Optimizecond => {
                dep = Self::pass_on_dependencies_from_children(tree, i, semantics, false);
            },
            NodeKind::Lubodyaggregate => {
                if n >= 2 {
                    dep = Self::aggregate_pairs(tree, i, semantics, vars);
                }
            },
            NodeKind::Disjunction => {
                // We have a disjunction in the head
                if n >= 1 {
                    push_pair(&mut dep, VarSet::new(), vars.clone());
                    proof {
                        assert(pairs_view(dep@) =~= seq![(Set::<Seq<char>>::empty(), vars@)]);
                    }
                }
            },
            NodeKind::Minelemlist | NodeKind::Maxelemlist => {
                // We have an optimization statement
                dep = Self::optimize_pairs(tree, i, semantics);
            },
            _ => {},
        }
        dep
    }

    /// The position of the literal that the condition of the disjunction
    /// at node `i` belongs to.
    fn disjunction_start(tree: &SyntaxTree, i: usize) -> (offset: usize)
        requires
            tree.wf(),
            i < tree.size(),
        ensures
            offset == disjunction_offset(*tree, i as int),
    {
        if tree.child_kind(i, 0) == NodeKind::Disjunctionsep {
            1
        } else {
            0
        }
    }

    /// Find the node that represents the condition of the disjunction at
    /// node `i`.
    fn condition_of_disjunction(tree: &SyntaxTree, i: usize) -> (condition: usize)
        requires
            tree.wf(),
            i < tree.size(),
            tree.arity(i as int) >= 3,
        ensures
            condition == disjunction_condition(*tree, i as int),
            condition < i,
    {
        let n = tree.child_count(i);
        let offset = Self::disjunction_start(tree, i);
        let separator = tree.child_kind(i, offset + 1);
        if separator == NodeKind::Colon && offset + 2 < n {
            tree.child_at(i, offset + 2)
        } else if separator == NodeKind::Optcondition {
            tree.child_at(i, offset + 1)
        } else {
            tree.child_at(i, 0)
        }
    }

    /// The global variables of the disjunction at node `i`.
    fn global_vars_of_disjunction(tree: &SyntaxTree, i: usize, semantics: &EncodingSemantics)
        -> (res: VarSet)
        requires
            tree.wf(),
            i < tree.size(),
        ensures
            res@ == disjunction_globals(*tree, semantics.context(*tree, i as int), i as int),
    {
        let n = tree.child_count(i);
        let offset = Self::disjunction_start(tree, i);
        let mut global_vars = VarSet::new();
        if offset == 1 {
            // Pass on any global variables from the elements before the last one
            let before = tree.child_at(i, 0);
            global_vars = Self::of_node(tree, before, Ghost(i as int), semantics).global_vars;
        }
        if n == 2 && offset == 1 {
            // There is no condition to this disjunction: the last child is a literal and
            // passes on its global vars
            let last = tree.child_at(i, 1);
            global_vars.extend(&Self::of_node(tree, last, Ghost(i as int), semantics).global_vars);
        } else if n >= 3 {
            // literal -- colon -- litvec
            let local_literal = tree.child_at(i, offset);
            let condition = Self::condition_of_disjunction(tree, i);
            // For the global context we return all variables that are not in the condition
            let local = Self::of_node(tree, local_literal, Ghost(i as int), semantics).vars;
            let hidden = Self::of_node(tree, condition, Ghost(i as int), semantics).vars;
            global_vars.extend(&local.difference(&hidden));
        }
        proof {
            assert(Set::<Seq<char>>::empty().union(
                semantics.context(*tree, i as int)[tree.kid(i as int, 0)].global_vars,
            ) =~= semantics.context(*tree, i as int)[tree.kid(i as int, 0)].global_vars);
        }
        global_vars
    }

    /// The global variables of the choice elements at node `i`.
    fn global_vars_of_choice(tree: &SyntaxTree, i: usize, semantics: &EncodingSemantics) -> (res:
        VarSet)
        requires
            tree.wf(),
            i < tree.size(),
        ensures
            res@ == choice_globals(*tree, semantics.context(*tree, i as int), i as int),
    {
        let n = tree.child_count(i);
        if n == 1 {
            Self::union_from_children(tree, i, semantics, Field::GlobalVars)
        } else if n == 2 {
            // If there is a condition only pass on the variables which are not in the condition
            let terms = tree.child_at(i, 0);
            let condition = tree.child_at(i, 1);
            let terms_vars = Self::of_node(tree, terms, Ghost(i as int), semantics).vars;
            let condition_vars = Self::of_node(tree, condition, Ghost(i as int), semantics).vars;
            terms_vars.difference(&condition_vars)
        } else if n >= 3 && tree.child_kind(i, 1) == NodeKind::Sem {
            let left_child = tree.child_at(i, 0);
            let right_child = tree.child_at(i, 2);
            // Pass on everything from the left child
            let mut global_vars = Self::of_node(
                tree,
                left_child,
                Ghost(i as int),
                semantics,
            ).global_vars;
            let right_vars = Self::of_node(tree, right_child, Ghost(i as int), semantics).vars;
            if n >= 4 {
                // If there is a condition only pass on the variables which are not in the
                // condition
                let condition = tree.child_at(i, 3);
                let condition_vars = Self::of_node(
                    tree,
                    condition,
                    Ghost(i as int),
                    semantics,
                ).vars;
                global_vars.extend(&right_vars.difference(&condition_vars));
            } else {
                // Pass on everything from the right child if there is no condition
                global_vars.extend(&right_vars);
            }
            global_vars
        } else {
            VarSet::new()
        }
    }

    /// The record of the scope that node `i` opens for the element at node
    /// `of` with the condition at node `condition`.
    fn scope_record(
        tree: &SyntaxTree,
        i: usize,
        semantics: &EncodingSemantics,
        of: usize,
        condition: usize,
    ) -> (literal: SpecialLiteralSemantics)
        requires
            i < tree.size(),
            of < i,
            condition < i,
        ensures
            literal@ == scope_of(
                *tree,
                semantics.context(*tree, i as int),
                i as int,
                of as int,
                condition as int,
            ),
    {
        let local_dependency = SpecialLiteralSemantics::scope_pairs(tree, of, condition, semantics);
        SpecialLiteralSemantics::new_with_dep(tree, i, local_dependency)
    }

    /// The special literals of the choice elements at node `i`.
    fn special_literals_of_choice(tree: &SyntaxTree, i: usize, semantics: &EncodingSemantics)
        -> (res: Vec<SpecialLiteralSemantics>)
        requires
            tree.wf(),
            i < tree.size(),
        ensures
            literals_view(res@) == choice_special(
                *tree,
                semantics.context(*tree, i as int),
                i as int,
            ),
    {
        let n = tree.child_count(i);
        let ghost ctx = semantics.context(*tree, i as int);
        let mut special_literals: Vec<SpecialLiteralSemantics> = Vec::new();
        proof {
            assert(literals_view(special_literals@) =~= Seq::<SpecialLiteralFacts>::empty());
        }
        if n == 1 {
            special_literals = Self::pass_on_special_literals_from_children(tree, i, semantics);
        } else if n == 2 {
            let terms = tree.child_at(i, 0);
            let condition = tree.child_at(i, 1);
            let literal = Self::scope_record(tree, i, semantics, terms, condition);
            push_literal(&mut special_literals, literal);
            proof {
                assert(literals_view(special_literals@) =~= seq![
                    scope_of(*tree, ctx, i as int, terms as int, condition as int),
                ]);
            }
        } else if n >= 3 && tree.child_kind(i, 1) == NodeKind::Sem {
            let left_child = tree.child_at(i, 0);
            let right_child = tree.child_at(i, 2);
            // Pass on everything from the left child
            special_literals = Self::of_node(
                tree,
                left_child,
                Ghost(i as int),
                semantics,
            ).special_literals;
            if n >= 4 {
                let condition = tree.child_at(i, 3);
                let literal = Self::scope_record(tree, i, semantics, right_child, condition);
                push_literal(&mut special_literals, literal);
            } else {
                // Pass on everything from the right child if there is no condition
                let right = Self::of_node(tree, right_child, Ghost(i as int), semantics);
                extend_literals(&mut special_literals, &right.special_literals);
            }
        }
        special_literals
    }

    /// The global variables of the aggregate with bounds at node `i`.
    fn global_vars_of_aggregate(tree: &SyntaxTree, i: usize, semantics: &EncodingSemantics) -> (res:
        VarSet)
        requires
            tree.wf(),
            i < tree.size(),
        ensures
            res@ == aggregate_globals(*tree, semantics.context(*tree, i as int), i as int),
    {
        let bounds = Self::find_bounds(tree, i);
        let mut global_vars = VarSet::new();
        let lower_assigns = match bounds.lower_op {
            Some(op) => op == NodeKind::Eq,
            None => false,
        };
        let upper_assigns = match bounds.upper_op {
            Some(op) => op == NodeKind::Eq,
            None => false,
        };
        if lower_assigns {
            match bounds.lower_term {
                Some(term) => {
                    global_vars.extend(&Self::of_node(tree, term, Ghost(i as int), semantics).vars);
                },
                None => {},
            }
        }
        let ghost lower = global_vars@;
        if upper_assigns {
            match bounds.upper_term {
                Some(term) => {
                    global_vars.extend(&Self::of_node(tree, term, Ghost(i as int), semantics).vars);
                },
                None => {},
            }
        }
        proof {
            assert(Set::<Seq<char>>::empty().union(lower) =~= lower);
            assert(lower.union(Set::<Seq<char>>::empty()) =~= lower);
            assert(global_vars@ =~= aggregate_globals(
                *tree,
                semantics.context(*tree, i as int),
                i as int,
            ));
        }
        global_vars
    }

    /// Check which variables of this part of the statement are in the
    /// scope of the statement.
    fn check_global_vars(
        tree: &SyntaxTree,
        i: usize,
        semantics: &EncodingSemantics,
        vars: &VarSet,
    ) -> (res: VarSet)
        requires
            tree.wf(),
            i < tree.size(),
        ensures
            res@ == global_vars_of(*tree, semantics.context(*tree, i as int), i as int, vars@),
    {
        let n = tree.child_count(i);
        match tree.nodes[i].kind {
            // If we have a literal then pass on all variables as global
            NodeKind::Literal => vars.clone(),
            NodeKind::Conjunction => {
                if n >= 3 {
                    // For the global context we return all variables that are not in the
                    // local context
                    let local_literal = tree.child_at(i, 0);
                    let condition = tree.child_at(i, 2);
                    let local = Self::of_node(tree, local_literal, Ghost(i as int), semantics).vars;
                    let hidden = Self::of_node(tree, condition, Ghost(i as int), semantics).vars;
                    local.difference(&hidden)
                } else {
                    VarSet::new()
                }
            },
            NodeKind::Lubodyaggregate => {
                if n >= 2 {
                    Self::global_vars_of_aggregate(tree, i, semantics)
                } else {
                    VarSet::new()
                }
            },
            NodeKind::Altheadaggrelemvec => Self::global_vars_of_choice(tree, i, semantics),
            NodeKind::Disjunction => Self::global_vars_of_disjunction(tree, i, semantics),
            // Ignore any fields above statements
            NodeKind::SourceFile => VarSet::new(),
            _ => Self::pass_on_global_vars_from_children(tree, i, semantics),
        }
    }

    /// Collect the special literals of this part of the statement.
    fn check_special_literals(tree: &SyntaxTree, i: usize, semantics: &EncodingSemantics) -> (res:
        Vec<SpecialLiteralSemantics>)
        requires
            tree.wf(),
            i < tree.size(),
        ensures
            literals_view(res@) == special_literals_of(
                *tree,
                semantics.context(*tree, i as int),
                i as int,
            ),
    {
        let n = tree.child_count(i);
        let ghost ctx = semantics.context(*tree, i as int);
        let mut res: Vec<SpecialLiteralSemantics> = Vec::new();
        proof {
            assert(literals_view(res@) =~= Seq::<SpecialLiteralFacts>::empty());
        }
        match tree.nodes[i].kind {
            NodeKind::Conjunction => {
                if n >= 3 {
                    let literal = SpecialLiteralSemantics::new(tree, i, semantics);
                    push_literal(&mut res, literal);
                    proof {
                        assert(literals_view(res@) =~= seq![literal@]);
                    }
                }
            },
            NodeKind::Altheadaggrelemvec => {
                res = Self::special_literals_of_choice(tree, i, semantics);
            },
            NodeKind::Disjunction => {
                if n >= 3 {
                    let offset = Self::disjunction_start(tree, i);
                    let local_literal = tree.child_at(i, offset);
                    let condition = Self::condition_of_disjunction(tree, i);
                    let literal = Self::scope_record(tree, i, semantics, local_literal, condition);
                    push_literal(&mut res, literal);
                    proof {
                        assert(literals_view(res@) =~= seq![literal@]);
                    }
                }
            },
            NodeKind::Bodyaggrelem => {
                let literal = SpecialLiteralSemantics::new(tree, i, semantics);
                push_literal(&mut res, literal);
                proof {
                    assert(literals_view(res@) =~= seq![literal@]);
                }
            },
            // Ignore any fields above statements
            NodeKind::SourceFile => {},
            _ => {
                res = Self::pass_on_special_literals_from_children(tree, i, semantics);
            },
        }
        res
    }

    /// What node `i` is as a term.
    fn check_term(tree: &SyntaxTree, i: usize, semantics: &EncodingSemantics) -> (term:
        TermSemantic)
        requires
            tree.wf(),
            i < tree.size(),
        ensures
            term@ == term_facts_of(*tree, semantics.context(*tree, i as int), i as int),
    {
        match tree.nodes[i].kind {
            NodeKind::Dec | NodeKind::Number | NodeKind::Term | NodeKind::Variable
            | NodeKind::Identifier => TermSemantic::from_node(tree, i, semantics),
            _ => TermSemantic::new(),
        }
    }

    /// The attributes of node `i`, computed from those that `semantics`
    /// holds of the nodes below it.
    pub fn compute(tree: &SyntaxTree, i: usize, semantics: &EncodingSemantics) -> (bundle:
        StatementSemantics)
        requires
            tree.wf(),
            i < tree.size(),
        ensures
            bundle@ == attributes_of(*tree, semantics.context(*tree, i as int), i as int),
    {
        let term = Self::check_term(tree, i, semantics);
        let vars = Self::check_for_variables(tree, i, semantics);
        let provide = Self::check_provide(tree, i, semantics);
        let depend = Self::check_depend(tree, i, semantics, &vars, &provide);
        let dependencies = Self::check_dependencies(tree, i, semantics, &vars);
        let global_vars = Self::check_global_vars(tree, i, semantics, &vars);
        let special_literals = Self::check_special_literals(tree, i, semantics);
        StatementSemantics {
            vars,
            global_vars,
            provide,
            depend,
            dependencies,
            term,
            special_literals,
        }
    }

    /// Update vars for a node; if there is no statement semantics object for that node
    /// it creates one.
    pub fn update_vars_for_node(
        semantics: &mut EncodingSemantics,
        node_id: usize,
        new_value: VarSet,
    )
        ensures
            final(semantics).attribute_map() == old(semantics).attribute_map().insert(
                node_id,
                (Attributes { vars: new_value@, ..old(semantics).attributes(node_id) }),
            ),
            final(semantics).syntax == old(semantics).syntax,
            final(semantics).predicate_semantics == old(semantics).predicate_semantics,
            final(semantics).old_node_ids_encountered == old(semantics).old_node_ids_encountered,
            final(semantics).node_ids_encountered == old(semantics).node_ids_encountered,
    {
        let mut bundle = semantics.get_statement_semantics_for_node(node_id);
        bundle.vars = new_value;
        semantics.set_statement_semantics_for_node(node_id, bundle);
    }

    /// Update global vars for a node; if there is no statement semantics object for that node
    /// it creates one.
    pub fn update_global_vars_for_node(
        semantics: &mut EncodingSemantics,
        node_id: usize,
        new_value: VarSet,
    )
        ensures
            final(semantics).attribute_map() == old(semantics).attribute_map().insert(
                node_id,
                (Attributes { global_vars: new_value@, ..old(semantics).attributes(node_id) }),
            ),
            final(semantics).syntax == old(semantics).syntax,
            final(semantics).predicate_semantics == old(semantics).predicate_semantics,
            final(semantics).old_node_ids_encountered == old(semantics).old_node_ids_encountered,
            final(semantics).node_ids_encountered == old(semantics).node_ids_encountered,
    {
        let mut bundle = semantics.get_statement_semantics_for_node(node_id);
        bundle.global_vars = new_value;
        semantics.set_statement_semantics_for_node(node_id, bundle);
    }

    /// Update provide for a node; if there is no statement semantics object for that node
    /// it creates one.
    pub fn update_provide_for_node(
        semantics: &mut EncodingSemantics,
        node_id: usize,
        new_value: VarSet,
    )
        ensures
            final(semantics).attribute_map() == old(semantics).attribute_map().insert(
                node_id,
                (Attributes { provide: new_value@, ..old(semantics).attributes(node_id) }),
            ),
            final(semantics).syntax == old(semantics).syntax,
            final(semantics).predicate_semantics == old(semantics).predicate_semantics,
            final(semantics).old_node_ids_encountered == old(semantics).old_node_ids_encountered,
            final(semantics).node_ids_encountered == old(semantics).node_ids_encountered,
    {
        let mut bundle = semantics.get_statement_semantics_for_node(node_id);
        bundle.provide = new_value;
        semantics.set_statement_semantics_for_node(node_id, bundle);
    }

    /// Update depend for a node; if there is no statement semantics object for that node
    /// it creates one.
    pub fn update_depend_for_node(
        semantics: &mut EncodingSemantics,
        node_id: usize,
        new_value: VarSet,
    )
        ensures
            final(semantics).attribute_map() == old(semantics).attribute_map().insert(
                node_id,
                (Attributes { depend: new_value@, ..old(semantics).attributes(node_id) }),
            ),
            final(semantics).syntax == old(semantics).syntax,
            final(semantics).predicate_semantics == old(semantics).predicate_semantics,
            final(semantics).old_node_ids_encountered == old(semantics).old_node_ids_encountered,
            final(semantics).node_ids_encountered == old(semantics).node_ids_encountered,
    {
        let mut bundle = semantics.get_statement_semantics_for_node(node_id);
        bundle.depend = new_value;
        semantics.set_statement_semantics_for_node(node_id, bundle);
    }

    /// Update dependencies for a node; if there is no statement semantics object for that node
    /// it creates one.
    pub fn update_dependencies_for_node(
        semantics: &mut EncodingSemantics,
        node_id: usize,
        new_value: Vec<(VarSet, VarSet)>,
    )
        ensures
            final(semantics).attribute_map() == old(semantics).attribute_map().insert(
                node_id,
                (Attributes { dependencies: pairs_view(new_value@), ..old(semantics).attributes(node_id) }),
            ),
            final(semantics).syntax == old(semantics).syntax,
            final(semantics).predicate_semantics == old(semantics).predicate_semantics,
            final(semantics).old_node_ids_encountered == old(semantics).old_node_ids_encountered,
            final(semantics).node_ids_encountered == old(semantics).node_ids_encountered,
    {
        let mut bundle = semantics.get_statement_semantics_for_node(node_id);
        bundle.dependencies = new_value;
        semantics.set_statement_semantics_for_node(node_id, bundle);
    }

    /// Update special literals for a node; if there is no statement semantics object for that node
    /// it creates one.
    pub fn update_special_literals_for_node(
        semantics: &mut EncodingSemantics,
        node_id: usize,
        new_value: Vec<SpecialLiteralSemantics>,
    )
        ensures
            final(semantics).attribute_map() == old(semantics).attribute_map().insert(
                node_id,
                (Attributes { special_literals: literals_view(new_value@), ..old(semantics).attributes(node_id) }),
            ),
            final(semantics).syntax == old(semantics).syntax,
            final(semantics).predicate_semantics == old(semantics).predicate_semantics,
            final(semantics).old_node_ids_encountered == old(semantics).old_node_ids_encountered,
            final(semantics).node_ids_encountered == old(semantics).node_ids_encountered,
    {
        let mut bundle = semantics.get_statement_semantics_for_node(node_id);
        bundle.special_literals = new_value;
        semantics.set_statement_semantics_for_node(node_id, bundle);
    }

    /// Update term for a node; if there is no statement semantics object for that node
    /// it creates one.
    pub fn update_term_for_node(
        semantics: &mut EncodingSemantics,
        node_id: usize,
        new_value: TermSemantic,
    )
        ensures
            final(semantics).attribute_map() == old(semantics).attribute_map().insert(
                node_id,
                (Attributes { term: new_value@, ..old(semantics).attributes(node_id) }),
            ),
            final(semantics).syntax == old(semantics).syntax,
            final(semantics).predicate_semantics == old(semantics).predicate_semantics,
            final(semantics).old_node_ids_encountered == old(semantics).old_node_ids_encountered,
            final(semantics).node_ids_encountered == old(semantics).node_ids_encountered,
    {
        let mut bundle = semantics.get_statement_semantics_for_node(node_id);
        bundle.term = new_value;
        semantics.set_statement_semantics_for_node(node_id, bundle);
    }
}

impl StatementSemantics {
    /// Declares all variables global of the children of node `i` of which
    /// node `i` says so.
    fn declare_global_vars(tree: &SyntaxTree, i: usize, semantics: &mut EncodingSemantics)
        requires
            tree.wf(),
            i < tree.size(),
        ensures
            final(semantics).attribute_map() == declared(
                *tree,
                old(semantics).attribute_map(),
                old(semantics).context(*tree, i as int),
                i as int,
                tree.arity(i as int),
            ),
            final(semantics).syntax == old(semantics).syntax,
            final(semantics).predicate_semantics == old(semantics).predicate_semantics,
            final(semantics).old_node_ids_encountered == old(semantics).old_node_ids_encountered,
            final(semantics).node_ids_encountered == old(semantics).node_ids_encountered,
    {
        let n = tree.child_count(i);
        let ghost s0 = semantics.attribute_map();
        let ghost ctx = semantics.context(*tree, i as int);
        let mut k: usize = 0;
        while k < n
            invariant
                tree.wf(),
                i < tree.size(),
                n == tree.arity(i as int),
                k <= n,
                s0 == old(semantics).attribute_map(),
                ctx == context_in(*tree, s0, i as int),
                semantics.attribute_map() == declared(*tree, s0, ctx, i as int, k as int),
                semantics.syntax == old(semantics).syntax,
                semantics.predicate_semantics == old(semantics).predicate_semantics,
                semantics.old_node_ids_encountered == old(semantics).old_node_ids_encountered,
                semantics.node_ids_encountered == old(semantics).node_ids_encountered,
            decreases n - k,
        {
            if Self::declares_child_global(tree, i, k) {
                let c = tree.child_at(i, k);
                let id = tree.nodes[c].id;
                proof {
                    assert forall|j: int| 0 <= j < k implies tree.id(#[trigger] tree.kid(i as int, j))
                        != id by {
                        tree.lemma_kids_distinct(i as int, j, k as int);
                    }
                    lemma_declared_elsewhere(*tree, s0, ctx, i as int, k as int, id);
                    assert(ctx[c as int] == attributes_in(s0, id));
                }
                let vars = semantics.get_statement_semantics_for_node(id).vars;
                Self::update_global_vars_for_node(semantics, id, vars);
            }
            k = k + 1;
        }
    }
}

impl Semantics for StatementSemantics {
    open spec fn ready(tree: SyntaxTree, i: int, semantics: EncodingSemantics) -> bool {
        true
    }

    /// The attributes of node `i` are computed anew from those of the
    /// nodes below it; nothing else has changed.
    open spec fn visits(
        tree: SyntaxTree,
        i: int,
        before: EncodingSemantics,
        after: EncodingSemantics,
    ) -> bool {
        &&& after.attribute_map() == recomputed(tree, before.attribute_map(), i)
        &&& after.syntax == before.syntax
        &&& after.predicate_semantics == before.predicate_semantics
        &&& after.old_node_ids_encountered == before.old_node_ids_encountered
        &&& after.node_ids_encountered == before.node_ids_encountered
    }

    open spec fn starts(before: EncodingSemantics, after: EncodingSemantics) -> bool {
        after == before
    }

    fn on_node(tree: &SyntaxTree, i: usize, semantics: &mut EncodingSemantics) {
        let bundle = StatementSemantics::compute(tree, i, semantics);
        StatementSemantics::declare_global_vars(tree, i, semantics);
        semantics.set_statement_semantics_for_node(tree.nodes[i].id, bundle);
    }

    fn startup(semantics: &mut EncodingSemantics) {
    }
}

} // verus!
