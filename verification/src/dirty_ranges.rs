//! The byte ranges of a document that an edit touched.

use rust_lapper::{Interval, Lapper};
use vstd::prelude::*;

verus! {

/// An index of byte ranges that answers whether any of them overlaps a
/// given range.
#[verifier::external_body]
pub struct DirtyRanges {
    index: Lapper<usize, usize>,
}

/// The ranges that the index holds, each as its start and its end.
pub uninterp spec fn dirty_intervals(ranges: DirtyRanges) -> Set<(usize, usize)>;

/// Whether one of `ranges` overlaps the range from `start` to `end`: it
/// starts before `end` and ends after `start`.
pub open spec fn touches(ranges: Set<(usize, usize)>, start: usize, end: usize) -> bool {
    exists|r: (usize, usize)| #[trigger] ranges.contains(r) && r.0 < end && r.1 > start
}

/// Whether every range ends no earlier than it starts.
pub open spec fn ordered(ranges: Seq<(usize, usize)>) -> bool {
    forall|k: int| 0 <= k < ranges.len() ==> (#[trigger] ranges[k]).0 <= ranges[k].1
}

/// A range with its ends in order.
pub open spec fn in_order(range: (usize, usize)) -> (usize, usize) {
    if range.0 <= range.1 {
        range
    } else {
        (range.1, range.0)
    }
}

/// The ranges, each with its ends in order.
pub open spec fn all_in_order(ranges: Seq<(usize, usize)>) -> Seq<(usize, usize)> {
    ranges.map_values(|r: (usize, usize)| in_order(r))
}

/// The ranges, each with its ends in order.
pub fn order_ranges(ranges: &Vec<(usize, usize)>) -> (res: Vec<(usize, usize)>)
    ensures
        res@ == all_in_order(ranges@),
        ordered(res@),
{
    let mut res: Vec<(usize, usize)> = Vec::new();
    let mut i: usize = 0;
    while i < ranges.len()
        invariant
            i <= ranges.len(),
            res@ == all_in_order(ranges@.take(i as int)),
            ordered(res@),
        decreases ranges.len() - i,
    {
        let (a, b) = ranges[i];
        if a <= b {
            res.push((a, b));
        } else {
            res.push((b, a));
        }
        proof {
            assert(ranges@.take(i + 1) =~= ranges@.take(i as int).push(ranges@[i as int]));
            assert(res@ =~= all_in_order(ranges@.take(i + 1)));
        }
        i = i + 1;
    }
    proof {
        assert(ranges@.take(ranges.len() as int) =~= ranges@);
    }
    res
}

impl DirtyRanges {
    /// An index of the given ranges, each with its ends in order.
    pub fn covering(ranges: &Vec<(usize, usize)>) -> (index: DirtyRanges)
        ensures
            dirty_intervals(index) == all_in_order(ranges@).to_set(),
    {
        let in_order = order_ranges(ranges);
        DirtyRanges::new(&in_order)
    }


    /// An index of the given ranges.
    ///
    /// Calls `Lapper::new` with one interval for every range; the index
    /// keeps the intervals it is given, sorted by their start.
    #[verifier::external_body]
    pub(crate) fn new(ranges: &Vec<(usize, usize)>) -> (index: DirtyRanges)
        requires
            ordered(ranges@),
        ensures
            dirty_intervals(index) == ranges@.to_set(),
    {
        DirtyRanges {
            index: Lapper::new(
                ranges.iter().map(|r| Interval { start: r.0, stop: r.1, val: 0 }).collect(),
            ),
        }
    }

    /// Whether a range of the index overlaps the range from `start` to
    /// `end`.
    ///
    /// Calls `Lapper::find` and asks whether it yields anything. `find`
    /// yields the intervals that start before `end` and end after `start`;
    /// it finds all of them where no interval of the index ends before it
    /// starts, which `new` asks of its caller.
    #[verifier::external_body]
    pub(crate) fn any_overlap(&self, start: usize, end: usize) -> (hit: bool)
        ensures
            hit == touches(dirty_intervals(*self), start, end),
    {
        self.index.find(start, end).next().is_some()
    }
}

} // verus!
