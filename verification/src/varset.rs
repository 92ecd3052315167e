//! Finite sets of variable names.
//!
//! A [`VarSet`] keeps its members in a vector, in the order in which they
//! were first inserted. Every contract speaks of the mathematical set of
//! names the vector holds.

use vstd::prelude::*;

verus! {

/// The set of names that a sequence of strings holds.
pub open spec fn names_of(s: Seq<String>) -> Set<Seq<char>> {
    Set::new(|n: Seq<char>| exists|i: int| 0 <= i < s.len() && (#[trigger] s[i])@ == n)
}

/// Appending a string adds exactly its name.
pub proof fn lemma_names_of_push(s: Seq<String>, x: String)
    ensures
        names_of(s.push(x)) == names_of(s).insert(x@),
{
    let t = s.push(x);
    assert forall|n: Seq<char>| names_of(t).contains(n) <==> names_of(s).insert(x@).contains(
        n,
    ) by {
        if names_of(t).contains(n) {
            let i = choose|i: int| 0 <= i < t.len() && (#[trigger] t[i])@ == n;
            if i < s.len() {
                assert(s[i]@ == n);
            }
        }
        if names_of(s).contains(n) {
            let i = choose|i: int| 0 <= i < s.len() && (#[trigger] s[i])@ == n;
            assert(t[i]@ == n);
        }
        if n == x@ {
            assert(t[s.len() as int]@ == n);
        }
    }
    assert(names_of(t) =~= names_of(s).insert(x@));
}

/// The empty sequence holds no name.
pub proof fn lemma_names_of_empty()
    ensures
        names_of(Seq::<String>::empty()) == Set::<Seq<char>>::empty(),
{
    assert(names_of(Seq::<String>::empty()) =~= Set::<Seq<char>>::empty());
}

/// The names of a prefix that is extended by one element.
pub proof fn lemma_names_of_take_next(s: Seq<String>, i: int)
    requires
        0 <= i < s.len(),
    ensures
        names_of(s.take(i + 1)) == names_of(s.take(i)).insert(s[i]@),
{
    assert(s.take(i + 1) =~= s.take(i).push(s[i]));
    lemma_names_of_push(s.take(i), s[i]);
}

/// A set of variable names.
#[derive(Debug)]
pub struct VarSet {
    names: Vec<String>,
}

impl View for VarSet {
    type V = Set<Seq<char>>;

    closed spec fn view(&self) -> Set<Seq<char>> {
        names_of(self.names@)
    }
}

impl Clone for VarSet {
    fn clone(&self) -> (res: Self)
        ensures
            res@ == self@,
    {
        let mut names: Vec<String> = Vec::new();
        let mut i: usize = 0;
        proof {
            assert(self.names@.take(0) =~= Seq::<String>::empty());
            assert(names@ =~= self.names@.take(0));
        }
        while i < self.names.len()
            invariant
                i <= self.names.len(),
                names@ == self.names@.take(i as int),
            decreases self.names.len() - i,
        {
            let name = self.names[i].clone();
            names.push(name);
            proof {
                assert(names@ =~= self.names@.take(i + 1));
            }
            i = i + 1;
        }
        proof {
            assert(self.names@.take(self.names.len() as int) =~= self.names@);
        }
        VarSet { names }
    }
}

impl VarSet {
    /// The empty set.
    pub fn new() -> (res: VarSet)
        ensures
            res@ == Set::<Seq<char>>::empty(),
    {
        proof {
            lemma_names_of_empty();
        }
        VarSet { names: Vec::new() }
    }

    /// Whether the set has no member.
    pub fn is_empty(&self) -> (res: bool)
        ensures
            res == (self@ == Set::<Seq<char>>::empty()),
    {
        let res = self.names.len() == 0;
        proof {
            if res {
                assert(self.names@ =~= Seq::<String>::empty());
                lemma_names_of_empty();
            } else {
                assert(self@.contains(self.names@[0]@));
            }
        }
        res
    }

    /// Whether `name` is a member.
    pub fn contains(&self, name: &String) -> (res: bool)
        ensures
            res == self@.contains(name@),
    {
        let mut i: usize = 0;
        while i < self.names.len()
            invariant
                i <= self.names.len(),
                forall|j: int| 0 <= j < i ==> (#[trigger] self.names@[j])@ != name@,
            decreases self.names.len() - i,
        {
            if self.names[i] == *name {
                return true;
            }
            i = i + 1;
        }
        false
    }

    /// Adds `name` to the set.
    pub fn insert(&mut self, name: String)
        ensures
            final(self)@ == old(self)@.insert(name@),
    {
        if self.contains(&name) {
            assert(self@.insert(name@) =~= self@);
        } else {
            proof {
                lemma_names_of_push(self.names@, name);
            }
            self.names.push(name);
        }
    }

    /// The set that holds `name` alone.
    pub fn singleton(name: String) -> (res: VarSet)
        ensures
            res@ == Set::<Seq<char>>::empty().insert(name@),
    {
        let mut res = VarSet::new();
        res.insert(name);
        res
    }

    /// Adds every member of `other` to the set.
    pub fn extend(&mut self, other: &VarSet)
        ensures
            final(self)@ == old(self)@.union(other@),
    {
        let mut i: usize = 0;
        proof {
            assert(other.names@.take(0) =~= Seq::<String>::empty());
            lemma_names_of_empty();
            assert(self@ =~= old(self)@.union(names_of(other.names@.take(0))));
        }
        while i < other.names.len()
            invariant
                i <= other.names.len(),
                self@ == old(self)@.union(names_of(other.names@.take(i as int))),
            decreases other.names.len() - i,
        {
            let name = other.names[i].clone();
            proof {
                lemma_names_of_take_next(other.names@, i as int);
                assert(old(self)@.union(names_of(other.names@.take(i as int))).insert(name@)
                    =~= old(self)@.union(names_of(other.names@.take(i + 1))));
            }
            self.insert(name);
            i = i + 1;
        }
        proof {
            assert(other.names@.take(other.names.len() as int) =~= other.names@);
        }
    }

    /// The members of either set.
    pub fn union(&self, other: &VarSet) -> (res: VarSet)
        ensures
            res@ == self@.union(other@),
    {
        let mut res = self.clone();
        res.extend(other);
        res
    }

    /// The members of both sets.
    pub fn intersection(&self, other: &VarSet) -> (res: VarSet)
        ensures
            res@ == self@.intersect(other@),
    {
        let mut res = VarSet::new();
        let mut i: usize = 0;
        proof {
            assert(self.names@.take(0) =~= Seq::<String>::empty());
            lemma_names_of_empty();
            assert(res@ =~= names_of(self.names@.take(0)).intersect(other@));
        }
        while i < self.names.len()
            invariant
                i <= self.names.len(),
                res@ == names_of(self.names@.take(i as int)).intersect(other@),
            decreases self.names.len() - i,
        {
            proof {
                lemma_names_of_take_next(self.names@, i as int);
            }
            if other.contains(&self.names[i]) {
                let name = self.names[i].clone();
                res.insert(name);
            }
            proof {
                assert(res@ =~= names_of(self.names@.take(i + 1)).intersect(other@));
            }
            i = i + 1;
        }
        proof {
            assert(self.names@.take(self.names.len() as int) =~= self.names@);
        }
        res
    }

    /// The members of this set that `other` lacks.
    pub fn difference(&self, other: &VarSet) -> (res: VarSet)
        ensures
            res@ == self@.difference(other@),
    {
        let mut res = VarSet::new();
        let mut i: usize = 0;
        proof {
            assert(self.names@.take(0) =~= Seq::<String>::empty());
            lemma_names_of_empty();
            assert(res@ =~= names_of(self.names@.take(0)).difference(other@));
        }
        while i < self.names.len()
            invariant
                i <= self.names.len(),
                res@ == names_of(self.names@.take(i as int)).difference(other@),
            decreases self.names.len() - i,
        {
            proof {
                lemma_names_of_take_next(self.names@, i as int);
            }
            if !other.contains(&self.names[i]) {
                let name = self.names[i].clone();
                res.insert(name);
            }
            proof {
                assert(res@ =~= names_of(self.names@.take(i + 1)).difference(other@));
            }
            i = i + 1;
        }
        proof {
            assert(self.names@.take(self.names.len() as int) =~= self.names@);
        }
        res
    }

    /// Whether every member of this set is a member of `other`.
    pub fn is_subset(&self, other: &VarSet) -> (res: bool)
        ensures
            res == self@.subset_of(other@),
    {
        let mut i: usize = 0;
        while i < self.names.len()
            invariant
                i <= self.names.len(),
                forall|j: int| 0 <= j < i ==> other@.contains((#[trigger] self.names@[j])@),
            decreases self.names.len() - i,
        {
            if !other.contains(&self.names[i]) {
                proof {
                    assert(self@.contains(self.names@[i as int]@));
                }
                return false;
            }
            i = i + 1;
        }
        true
    }

    /// The members, each once.
    pub fn to_vec(&self) -> (res: Vec<String>)
        ensures
            names_of(res@) == self@,
            forall|i: int, j: int| 0 <= i < j < res@.len() ==> res@[i]@ != res@[j]@,
    {
        let mut res: Vec<String> = Vec::new();
        let mut seen = VarSet::new();
        let mut i: usize = 0;
        proof {
            assert(self.names@.take(0) =~= Seq::<String>::empty());
            lemma_names_of_empty();
        }
        while i < self.names.len()
            invariant
                i <= self.names.len(),
                seen@ == names_of(self.names@.take(i as int)),
                names_of(res@) == seen@,
                forall|a: int, b: int| 0 <= a < b < res@.len() ==> res@[a]@ != res@[b]@,
            decreases self.names.len() - i,
        {
            proof {
                lemma_names_of_take_next(self.names@, i as int);
            }
            if !seen.contains(&self.names[i]) {
                let name = self.names[i].clone();
                let again = self.names[i].clone();
                proof {
                    lemma_names_of_push(res@, name);
                    assert forall|a: int| 0 <= a < res@.len() implies res@[a]@ != name@ by {
                        assert(names_of(res@).contains(res@[a]@));
                    }
                }
                res.push(name);
                seen.insert(again);
            } else {
                assert(seen@.insert(self.names@[i as int]@) =~= seen@);
            }
            i = i + 1;
        }
        proof {
            assert(self.names@.take(self.names.len() as int) =~= self.names@);
        }
        res
    }
}

} // verus!
