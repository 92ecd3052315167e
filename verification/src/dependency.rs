//! Dependency pairs: what a part of a statement binds, and what it needs
//! bound before it can bind anything.

use crate::varset::VarSet;
use vstd::prelude::*;

verus! {

/// A set of variable names.
pub type Names = Set<Seq<char>>;

/// A pair `(provided, depended)`: once every variable of `depended` is
/// bound, the variables of `provided` are bound too.
pub type Dependency = (Names, Names);

/// The dependency pairs that a sequence of pairs of variable sets stands for.
pub open spec fn pairs_view(s: Seq<(VarSet, VarSet)>) -> Seq<Dependency> {
    s.map_values(|p: (VarSet, VarSet)| (p.0@, p.1@))
}

/// Appends the pair `(provide, depend)`.
pub fn push_pair(v: &mut Vec<(VarSet, VarSet)>, provide: VarSet, depend: VarSet)
    ensures
        pairs_view(final(v)@) == pairs_view(old(v)@).push((provide@, depend@)),
{
    v.push((provide, depend));
    proof {
        assert(pairs_view(v@) =~= pairs_view(old(v)@).push((provide@, depend@)));
    }
}

/// Appends a copy of every pair of `more`.
pub fn extend_pairs(v: &mut Vec<(VarSet, VarSet)>, more: &Vec<(VarSet, VarSet)>)
    ensures
        pairs_view(final(v)@) == pairs_view(old(v)@) + pairs_view(more@),
{
    let mut i: usize = 0;
    proof {
        assert(pairs_view(v@) =~= pairs_view(old(v)@) + pairs_view(more@.take(0)));
    }
    while i < more.len()
        invariant
            i <= more.len(),
            pairs_view(v@) == pairs_view(old(v)@) + pairs_view(more@.take(i as int)),
        decreases more.len() - i,
    {
        let provide = more[i].0.clone();
        let depend = more[i].1.clone();
        push_pair(v, provide, depend);
        proof {
            assert(more@.take(i + 1) =~= more@.take(i as int).push(more@[i as int]));
            assert(pairs_view(more@.take(i + 1)) =~= pairs_view(more@.take(i as int)).push(
                (more@[i as int].0@, more@[i as int].1@),
            ));
            assert(pairs_view(v@) =~= pairs_view(old(v)@) + pairs_view(more@.take(i + 1)));
        }
        i = i + 1;
    }
    proof {
        assert(more@.take(more.len() as int) =~= more@);
    }
}

/// A copy of the pairs.
pub fn clone_pairs(v: &Vec<(VarSet, VarSet)>) -> (res: Vec<(VarSet, VarSet)>)
    ensures
        pairs_view(res@) == pairs_view(v@),
{
    let mut res: Vec<(VarSet, VarSet)> = Vec::new();
    proof {
        assert(pairs_view(res@) =~= Seq::<Dependency>::empty());
    }
    extend_pairs(&mut res, v);
    proof {
        assert(Seq::<Dependency>::empty() + pairs_view(v@) =~= pairs_view(v@));
    }
    res
}

} // verus!
