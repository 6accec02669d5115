//! The mathematical vocabulary of the sorter: what it means for a sequence to
//! be ascending, and for one sequence to rearrange another inside a window.

use vstd::prelude::*;

verus! {

/// The elements of `s` at positions `lo..hi` are ascending: none of them is
/// greater than a later one.
pub open spec fn ascending_within(s: Seq<i32>, lo: int, hi: int) -> bool {
    forall|i: int, j: int| lo <= i <= j < hi ==> s[i] <= s[j]
}

/// `s` is ascending from its first element to its last.
pub open spec fn ascending(s: Seq<i32>) -> bool {
    ascending_within(s, 0, s.len() as int)
}

/// `after` is `before` with the elements at positions `lo..hi` rearranged
/// among themselves; every position outside that window holds what it held.
pub open spec fn rearranged_within(before: Seq<i32>, after: Seq<i32>, lo: int, hi: int) -> bool {
    &&& after.len() == before.len()
    &&& after.subrange(lo, hi).to_multiset() == before.subrange(lo, hi).to_multiset()
    &&& forall|k: int| 0 <= k < lo || hi <= k < before.len() ==> after[k] == before[k]
}

} // verus!
