//! Facts about rearranged and ascending windows that the sorting procedures
//! rely on.

use vstd::prelude::*;
use vstd::seq_lib::{lemma_multiset_commutative, to_multiset_contains, to_multiset_update};
use crate::model::{ascending_within, rearranged_within};

verus! {

/// A rearrangement inside a window is also one inside any wider window.
pub proof fn lemma_rearranged_widen(
    a: Seq<i32>,
    b: Seq<i32>,
    lo: int,
    hi: int,
    wide_lo: int,
    wide_hi: int,
)
    requires
        rearranged_within(a, b, lo, hi),
        0 <= wide_lo <= lo <= hi <= wide_hi <= a.len(),
    ensures
        rearranged_within(a, b, wide_lo, wide_hi),
{
    let a0 = a.subrange(wide_lo, lo);
    let a1 = a.subrange(lo, hi);
    let a2 = a.subrange(hi, wide_hi);
    let b0 = b.subrange(wide_lo, lo);
    let b1 = b.subrange(lo, hi);
    let b2 = b.subrange(hi, wide_hi);
    assert(a0 =~= b0);
    assert(a2 =~= b2);
    assert(a.subrange(wide_lo, wide_hi) =~= (a0 + a1) + a2);
    assert(b.subrange(wide_lo, wide_hi) =~= (b0 + b1) + b2);
    lemma_multiset_commutative(a0, a1);
    lemma_multiset_commutative(a0 + a1, a2);
    lemma_multiset_commutative(b0, b1);
    lemma_multiset_commutative(b0 + b1, b2);
}

/// Exchanging two elements of a window rearranges that window.
pub proof fn lemma_swap_rearranged(s: Seq<i32>, i: int, j: int, lo: int, hi: int)
    requires
        0 <= lo <= i < hi <= s.len(),
        lo <= j < hi,
    ensures
        rearranged_within(s, s.update(i, s[j]).update(j, s[i]), lo, hi),
{
    broadcast use vstd::multiset::group_multiset_axioms;

    let t = s.update(i, s[j]).update(j, s[i]);
    let w = s.subrange(lo, hi);
    let step = w.update(i - lo, s[j]);
    assert(t.subrange(lo, hi) =~= step.update(j - lo, s[i]));
    to_multiset_update(w, i - lo, s[j]);
    to_multiset_update(step, j - lo, s[i]);
    to_multiset_contains(w, s[i]);
    to_multiset_contains(w, s[j]);
    assert(w[i - lo] == s[i]);
    assert(w[j - lo] == s[j]);
    assert(w.contains(s[i]));
    assert(w.contains(s[j]));
    assert(t.subrange(lo, hi).to_multiset() =~= w.to_multiset());
}

/// A rearrangement inside a window, followed by one inside a part of that
/// window, is a rearrangement inside the window.
pub proof fn lemma_rearranged_then(
    a: Seq<i32>,
    b: Seq<i32>,
    c: Seq<i32>,
    lo: int,
    hi: int,
    part_lo: int,
    part_hi: int,
)
    requires
        rearranged_within(a, b, lo, hi),
        rearranged_within(b, c, part_lo, part_hi),
        0 <= lo <= part_lo <= part_hi <= hi <= a.len(),
    ensures
        rearranged_within(a, c, lo, hi),
{
    lemma_rearranged_widen(b, c, part_lo, part_hi, lo, hi);
}

/// Every element of a rearranged window was an element of the window before.
pub proof fn lemma_rearranged_from(a: Seq<i32>, b: Seq<i32>, lo: int, hi: int, k: int)
    requires
        rearranged_within(a, b, lo, hi),
        0 <= lo <= k < hi <= a.len(),
    ensures
        exists|x: int| lo <= x < hi && #[trigger] a[x] == b[k],
{
    let wa = a.subrange(lo, hi);
    let wb = b.subrange(lo, hi);
    let e = b[k];
    assert(wb[k - lo] == e);
    assert(wb.contains(e));
    to_multiset_contains(wb, e);
    to_multiset_contains(wa, e);
    let x = choose|x: int| 0 <= x < wa.len() && wa[x] == e;
    assert(a[x + lo] == e);
}

/// The element at `at` is in its final place within the window `lo..hi`:
/// no element of the window before it is greater, none behind it smaller.
pub closed spec fn pivot_placed(s: Seq<i32>, lo: int, at: int, hi: int) -> bool {
    &&& forall|k: int| lo <= k < at ==> s[k] <= s[at]
    &&& forall|k: int| at < k < hi ==> s[k] >= s[at]
}

/// A window is ascending where an element is in its final place and the
/// parts before and behind that element are ascending.
pub proof fn lemma_sorted_around_pivot(s: Seq<i32>, lo: int, at: int, hi: int)
    requires
        pivot_placed(s, lo, at, hi),
        ascending_within(s, lo, at),
        ascending_within(s, at + 1, hi),
    ensures
        ascending_within(s, lo, hi),
{
}

/// An element stays in its final place when one side of it is rearranged.
pub proof fn lemma_pivot_stays(
    a: Seq<i32>,
    b: Seq<i32>,
    lo: int,
    at: int,
    hi: int,
    side_lo: int,
    side_hi: int,
)
    requires
        pivot_placed(a, lo, at, hi),
        rearranged_within(a, b, side_lo, side_hi),
        0 <= lo <= at < hi <= a.len(),
        lo <= side_lo <= side_hi <= at || at < side_lo <= side_hi <= hi,
    ensures
        pivot_placed(b, lo, at, hi),
{
    assert forall|k: int| lo <= k < hi && k != at implies (k < at ==> b[k] <= b[at]) && (k > at
        ==> b[k] >= b[at]) by {
        if side_lo <= k < side_hi {
            lemma_rearranged_from(a, b, side_lo, side_hi, k);
        }
    }
}

/// An ascending window stays ascending when positions outside it are
/// rearranged.
pub proof fn lemma_ascending_stays(
    a: Seq<i32>,
    b: Seq<i32>,
    lo: int,
    hi: int,
    other_lo: int,
    other_hi: int,
)
    requires
        ascending_within(a, lo, hi),
        rearranged_within(a, b, other_lo, other_hi),
        0 <= lo,
        hi <= a.len(),
        hi <= other_lo || other_hi <= lo,
    ensures
        ascending_within(b, lo, hi),
{
}

/// Every part of an ascending window is ascending.
pub proof fn lemma_ascending_part(s: Seq<i32>, lo: int, hi: int, part_lo: int, part_hi: int)
    requires
        ascending_within(s, lo, hi),
        lo <= part_lo,
        part_hi <= hi,
    ensures
        ascending_within(s, part_lo, part_hi),
{
}

/// Where everything before an ascending run is smaller than the run's
/// element at `p`, that element is in its final place, with the run's lower
/// part before it.
pub proof fn lemma_pivot_in_run(s: Seq<i32>, start: int, run: int, p: int, end: int)
    requires
        0 <= start <= run <= p <= end < s.len(),
        ascending_within(s, run, end + 1),
        forall|k: int| start <= k < run ==> s[k] < s[p],
    ensures
        pivot_placed(s, start, p, end + 1),
{
}

/// What the rotation between partition and recursion achieves. Before it the
/// window holds, from `start` on, elements smaller than the pivot, then from
/// `m` on elements not smaller, then from `run` on an ascending run with the
/// pivot at `p`. The rotation moves the run's lower part, pivot included, to
/// `m`: the pivot comes to stand at `m + (p - run)` and is in its final place
/// there, with the run's lower part right before it and the run's upper part
/// still at the end of the window.
pub proof fn lemma_rotation_places_pivot(
    parted: Seq<i32>,
    turned: Seq<i32>,
    start: int,
    m: int,
    run: int,
    p: int,
    end: int,
)
    requires
        0 <= start <= m < run <= p <= end < parted.len(),
        turned.len() == parted.len(),
        ascending_within(parted, run, end + 1),
        forall|k: int| start <= k < m ==> parted[k] < parted[p],
        forall|k: int| m <= k < run ==> parted[k] >= parted[p],
        forall|k: int| m <= k < m + (p + 1 - run) ==> turned[k] == parted[k + (run - m)],
        forall|k: int| m + (p + 1 - run) <= k <= p ==> turned[k] == parted[k - (p + 1 - run)],
        forall|k: int| 0 <= k < m || p < k < parted.len() ==> turned[k] == parted[k],
    ensures
        pivot_placed(turned, start, m + (p - run), end + 1),
        ascending_within(turned, m, m + (p - run)),
        ascending_within(turned, p + 1, end + 1),
{
    let shift = run - m;
    let at = m + (p - run);
    assert(turned[at] == parted[p]);
    assert forall|i: int, j: int| m <= i <= j < at implies turned[i] <= turned[j] by {
        assert(parted[i + shift] <= parted[j + shift]);
    }
    assert forall|k: int| start <= k < at implies turned[k] <= turned[at] by {
        if k >= m {
            assert(parted[k + shift] <= parted[p]);
        }
    }
    assert forall|k: int| at < k <= end implies turned[k] >= turned[at] by {
        if k > p {
            assert(parted[p] <= parted[k]);
        }
    }
}

} // verus!
