//! Finite sets of whole numbers.
//!
//! A [`NumSet`] keeps its members in a vector, in the order in which they
//! were first inserted. Every contract speaks of the mathematical set of
//! numbers the vector holds.

use vstd::prelude::*;

verus! {

/// A set of whole numbers, each of which fits a signed machine word.
#[derive(Debug)]
pub struct NumSet {
    items: Vec<i64>,
}

impl View for NumSet {
    type V = Set<int>;

    closed spec fn view(&self) -> Set<int> {
        Set::new(|v: int| exists|i: int| 0 <= i < self.items@.len() && #[trigger] self.items@[i] == v)
    }
}

impl Clone for NumSet {
    fn clone(&self) -> (res: Self)
        ensures
            res@ == self@,
    {
        let items = self.items.clone();
        assert(items@ =~= self.items@);
        NumSet { items }
    }
}

impl NumSet {
    /// The empty set.
    pub fn new() -> (res: NumSet)
        ensures
            res@ == Set::<int>::empty(),
    {
        let res = NumSet { items: Vec::new() };
        assert(res@ =~= Set::<int>::empty());
        res
    }

    /// The number of members listed; an upper bound of the size of the set.
    pub closed spec fn spec_len(&self) -> nat {
        self.items@.len()
    }

    /// The `i`-th member listed.
    pub closed spec fn spec_index(&self, i: int) -> i64 {
        self.items@[i]
    }

    /// The members listed are the members of the set.
    pub proof fn lemma_listed(self)
        ensures
            forall|i: int|
                0 <= i < self.spec_len() ==> self@.contains(#[trigger] self.spec_index(i) as int),
            forall|v: int|
                self@.contains(v) ==> exists|i: int|
                    0 <= i < self.spec_len() && #[trigger] self.spec_index(i) == v,
    {
        assert forall|i: int| 0 <= i < self.spec_len() implies self@.contains(
            #[trigger] self.spec_index(i) as int,
        ) by {
            assert(self.items@[i] == self.spec_index(i) as int);
        }
        assert forall|v: int| self@.contains(v) implies exists|i: int|
            0 <= i < self.spec_len() && #[trigger] self.spec_index(i) == v by {
            let i = choose|i: int| 0 <= i < self.items@.len() && #[trigger] self.items@[i] == v;
            assert(self.spec_index(i) == v);
        }
    }

    /// The number of members listed.
    pub fn len(&self) -> (n: usize)
        ensures
            n == self.spec_len(),
    {
        self.items.len()
    }

    /// The `i`-th member listed.
    pub fn get(&self, i: usize) -> (v: i64)
        requires
            i < self.spec_len(),
        ensures
            v == self.spec_index(i as int),
            self@.contains(v as int),
    {
        self.items[i]
    }

    /// Whether `v` is a member.
    pub fn contains(&self, v: i64) -> (res: bool)
        ensures
            res == self@.contains(v as int),
    {
        let mut i: usize = 0;
        while i < self.items.len()
            invariant
                i <= self.items.len(),
                forall|j: int| 0 <= j < i ==> self.items@[j] != v,
            decreases self.items.len() - i,
        {
            if self.items[i] == v {
                return true;
            }
            i = i + 1;
        }
        false
    }

    /// Adds `v` to the set.
    pub fn insert(&mut self, v: i64)
        ensures
            final(self)@ == old(self)@.insert(v as int),
    {
        if self.contains(v) {
            assert(self@.insert(v as int) =~= self@);
        } else {
            self.items.push(v);
            proof {
                assert(self.items@ == old(self).items@.push(v));
                assert forall|w: int| self@.contains(w) <==> old(self)@.insert(v as int).contains(
                    w,
                ) by {
                    if old(self)@.contains(w) {
                        let i = choose|i: int|
                            0 <= i < old(self).items@.len() && #[trigger] old(self).items@[i] == w;
                        assert(self.items@[i] == w);
                    }
                    if w == v {
                        assert(self.items@[old(self).items@.len() as int] == v);
                    }
                    if self@.contains(w) {
                        let i = choose|i: int|
                            0 <= i < self.items@.len() && #[trigger] self.items@[i] == w;
                        if i < old(self).items@.len() {
                            assert(old(self).items@[i] == w);
                        }
                    }
                }
                assert(self@ =~= old(self)@.insert(v as int));
            }
        }
    }
}

} // verus!
