//! The two cooperating procedures of the sorter, and its entry point.
//!
//! `upwave` sorts a window of which nothing is known: it keeps a sorted
//! suffix and lets `downwave` absorb ever wider windows into it. `downwave`
//! sorts a window whose suffix is already sorted: it partitions the unsorted
//! part around the middle element of the suffix, rotates the pieces into
//! place and goes on with each side.

use vstd::prelude::*;
use crate::insertion::insertion_sort;
use crate::laws::ascending_arrangement_is_unique;
use crate::lemmas::{
    lemma_ascending_part, lemma_ascending_stays, lemma_pivot_in_run, lemma_pivot_stays,
    lemma_rearranged_then, lemma_rotation_places_pivot, lemma_sorted_around_pivot,
};
use crate::model::{ascending, ascending_within, rearranged_within};
use crate::partition::partition;
use crate::rotate::block_swap;

verus! {

/// A slice or a window of at most this many elements is sorted by insertion.
pub const INSERTION_THRESHOLD: usize = 32;

/// Sorts the window at positions `start..=end` by insertion.
fn sort_window(arr: &mut [i32], start: usize, end: usize)
    requires
        start <= end < old(arr).len(),
    ensures
        rearranged_within(old(arr)@, final(arr)@, start as int, end + 1),
        ascending_within(final(arr)@, start as int, end + 1),
{
    let (_, rest) = arr.split_at_mut(start);
    let (window, _) = rest.split_at_mut(end - start + 1);
    insertion_sort(window);
    let ghost sorted = window@;
    proof {
        assert(old(arr)@.subrange(start as int, end + 1) =~= old(arr)@.subrange(
            start as int,
            old(arr)@.len() as int,
        ).subrange(0, end - start + 1));
        assert(arr@.subrange(start as int, end + 1) =~= sorted);
        assert forall|i: int, j: int| start <= i <= j < end + 1 implies arr@[i] <= arr@[j] by {
            assert(arr@[i] == sorted[i - start]);
            assert(arr@[j] == sorted[j - start]);
        }
    }
}

/// Sorts the window at positions `start..=end`, given that its suffix from
/// `sorted_start` on is ascending already.
///
/// The middle element of the sorted suffix serves as pivot for the unsorted
/// part before it. Where the whole unsorted part is smaller than the pivot,
/// the pivot is in its final place already. Otherwise the elements that are
/// not smaller are rotated behind the lower half of the suffix, which brings
/// the pivot to its final place. Either way what is before the pivot and
/// what is behind it are then sorted on their own, each with what is left
/// of the suffix where any is left.
pub fn downwave(arr: &mut [i32], start: usize, sorted_start: usize, end: usize)
    requires
        start <= sorted_start <= end < old(arr).len(),
        ascending_within(old(arr)@, sorted_start as int, end + 1),
    ensures
        rearranged_within(old(arr)@, final(arr)@, start as int, end + 1),
        ascending_within(final(arr)@, start as int, end + 1),
    decreases end - start, 0nat,
{
    if sorted_start == start {
        return ;
    }
    if end - start + 1 <= INSERTION_THRESHOLD {
        sort_window(arr, start, end);
        return ;
    }
    let ghost lo = start as int;
    let ghost hi = end + 1;
    let p: usize = sorted_start + (end - sorted_start) / 2;
    let m: usize = partition(arr, start, sorted_start, p);
    let ghost parted = arr@;
    proof {
        lemma_rearranged_then(old(arr)@, old(arr)@, parted, lo, hi, lo, sorted_start as int);
        lemma_ascending_stays(old(arr)@, parted, sorted_start as int, hi, lo, sorted_start as int);
    }
    if m == sorted_start {
        proof {
            lemma_pivot_in_run(parted, lo, sorted_start as int, p as int, end as int);
            lemma_ascending_part(parted, sorted_start as int, hi, sorted_start as int, p as int);
            lemma_ascending_part(parted, sorted_start as int, hi, p + 1, hi);
        }
        if p == sorted_start {
            if sorted_start > 0 {
                upwave(arr, start, sorted_start - 1);
            }
            proof {
                lemma_rearranged_then(old(arr)@, parted, arr@, lo, hi, lo, p as int);
                lemma_pivot_stays(parted, arr@, lo, p as int, hi, lo, p as int);
                lemma_ascending_stays(parted, arr@, p + 1, hi, lo, p as int);
                lemma_sorted_around_pivot(arr@, lo, p as int, hi);
            }
            return ;
        }
        if p > 0 {
            downwave(arr, start, sorted_start, p - 1);
        }
        proof {
            lemma_rearranged_then(old(arr)@, parted, arr@, lo, hi, lo, p as int);
            lemma_pivot_stays(parted, arr@, lo, p as int, hi, lo, p as int);
            lemma_ascending_stays(parted, arr@, p + 1, hi, lo, p as int);
            lemma_sorted_around_pivot(arr@, lo, p as int, hi);
        }
        return ;
    }
    block_swap(arr, m, sorted_start, p);
    let ghost turned = arr@;
    let ghost at = m + (p - sorted_start);
    proof {
        lemma_rearranged_then(old(arr)@, parted, turned, lo, hi, m as int, p + 1);
        lemma_rotation_places_pivot(
            parted,
            turned,
            lo,
            m as int,
            sorted_start as int,
            p as int,
            end as int,
        );
    }
    if m == start {
        if p == sorted_start {
            upwave(arr, m + 1, end);
            proof {
                lemma_rearranged_then(old(arr)@, turned, arr@, lo, hi, at + 1, hi);
                lemma_pivot_stays(turned, arr@, lo, at, hi, at + 1, hi);
                lemma_ascending_stays(turned, arr@, lo, at, at + 1, hi);
                lemma_sorted_around_pivot(arr@, lo, at, hi);
            }
            return ;
        }
        let p_next: usize = p + 1;
        downwave(arr, m + (p_next - sorted_start), p_next, end);
        proof {
            lemma_rearranged_then(old(arr)@, turned, arr@, lo, hi, at + 1, hi);
            lemma_pivot_stays(turned, arr@, lo, at, hi, at + 1, hi);
            lemma_ascending_stays(turned, arr@, lo, at, at + 1, hi);
            lemma_sorted_around_pivot(arr@, lo, at, hi);
        }
        return ;
    }
    if p == sorted_start {
        if m > 0 {
            upwave(arr, start, m - 1);
        }
        let ghost left_done = arr@;
        proof {
            lemma_rearranged_then(old(arr)@, turned, left_done, lo, hi, lo, at);
            lemma_pivot_stays(turned, left_done, lo, at, hi, lo, at);
        }
        upwave(arr, m + 1, end);
        proof {
            lemma_rearranged_then(old(arr)@, left_done, arr@, lo, hi, at + 1, hi);
            lemma_pivot_stays(left_done, arr@, lo, at, hi, at + 1, hi);
            lemma_ascending_stays(left_done, arr@, lo, at, at + 1, hi);
            lemma_sorted_around_pivot(arr@, lo, at, hi);
        }
        return ;
    }
    let right_part_len: usize = p - sorted_start;
    let split_point: usize = m + right_part_len;
    if split_point > 0 {
        downwave(arr, start, m, split_point - 1);
    }
    let ghost left_done = arr@;
    proof {
        lemma_rearranged_then(old(arr)@, turned, left_done, lo, hi, lo, at);
        lemma_pivot_stays(turned, left_done, lo, at, hi, lo, at);
        lemma_ascending_stays(turned, left_done, p + 1, hi, lo, at);
    }
    downwave(arr, split_point + 1, p + 1, end);
    proof {
        lemma_rearranged_then(old(arr)@, left_done, arr@, lo, hi, at + 1, hi);
        lemma_pivot_stays(left_done, arr@, lo, at, hi, at + 1, hi);
        lemma_ascending_stays(left_done, arr@, lo, at, at + 1, hi);
        lemma_sorted_around_pivot(arr@, lo, at, hi);
    }
}

/// Sorts the window at positions `start..=end`, of which nothing is known.
///
/// The last element alone is a sorted suffix. Each round lets `downwave`
/// absorb a window that reaches further left into it, about doubling the
/// suffix, until the suffix holds more than a quarter of the window; one
/// more call then absorbs whatever still lies before it.
pub fn upwave(arr: &mut [i32], start: usize, end: usize)
    requires
        start <= end < old(arr).len(),
    ensures
        rearranged_within(old(arr)@, final(arr)@, start as int, end + 1),
        ascending_within(final(arr)@, start as int, end + 1),
    decreases end - start, 1nat,
{
    if start == end {
        return ;
    }
    if end - start + 1 <= INSERTION_THRESHOLD {
        sort_window(arr, start, end);
        return ;
    }
    let mut sorted_start: usize = end;
    let mut sorted_len: usize;
    if end == 0 {
        return ;
    }
    let mut left_bound: usize = end - 1;
    let total_len: usize = end - start + 1;
    loop
        invariant_except_break
            start <= left_bound < sorted_start,
        invariant
            start <= sorted_start <= end < arr@.len(),
            arr@.len() == old(arr)@.len(),
            total_len == end - start + 1,
            rearranged_within(old(arr)@, arr@, start as int, end + 1),
            ascending_within(arr@, sorted_start as int, end + 1),
        decreases left_bound,
    {
        let ghost before = arr@;
        downwave(arr, left_bound, sorted_start, end);
        proof {
            lemma_rearranged_then(
                old(arr)@,
                before,
                arr@,
                start as int,
                end + 1,
                left_bound as int,
                end + 1,
            );
        }
        sorted_start = left_bound;
        sorted_len = end - sorted_start + 1;
        // the suffix holds more than a quarter of the window; the
        // comparison is written as a division so that it cannot overflow
        if total_len / 4 < sorted_len {
            assert(total_len < 4 * sorted_len);
            break ;
        }
        assert(4 * sorted_len <= total_len);
        let next_expansion: usize = 2 * sorted_len + 1;
        if end < next_expansion || (end - next_expansion) < start {
            left_bound = start;
        } else {
            left_bound = end - next_expansion;
        }
        if left_bound < start {
            left_bound = start;
        }
        if sorted_start == start {
            break ;
        }
    }
    let ghost widened = arr@;
    downwave(arr, start, sorted_start, end);
    proof {
        lemma_rearranged_then(
            old(arr)@,
            widened,
            arr@,
            start as int,
            end + 1,
            start as int,
            end + 1,
        );
    }
}

/// Sorts `arr` ascending in place. The slice afterwards holds the elements it
/// held before, each as often as before, in ascending order; a slice that is
/// ascending already is left exactly as it is. Every slice is accepted: an
/// empty one and one of a single element need no work.
pub fn sort(arr: &mut [i32])
    ensures
        final(arr)@.len() == old(arr)@.len(),
        final(arr)@.to_multiset() == old(arr)@.to_multiset(),
        ascending(final(arr)@),
        ascending(old(arr)@) ==> final(arr)@ == old(arr)@,
{
    let n: usize = arr.len();
    if n < 2 {
        return ;
    }
    if n <= INSERTION_THRESHOLD {
        insertion_sort(arr);
    } else {
        upwave(arr, 0, n - 1);
        assert(arr@.subrange(0, n as int) =~= arr@);
        assert(old(arr)@.subrange(0, n as int) =~= old(arr)@);
    }
    proof {
        if ascending(old(arr)@) {
            ascending_arrangement_is_unique(arr@, old(arr)@);
        }
    }
}

} // verus!
