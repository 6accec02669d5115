//! What follows from the sorter's contract, for every input.
//!
//! Each statement is about sequences `before` and `after` that stand in the
//! relation that `sort` establishes between its input and its output: equal
//! length, the same elements with the same multiplicities, and `after`
//! ascending.

use vstd::prelude::*;
use vstd::relations::{sorted_by, total_ordering};
use vstd::seq_lib::lemma_sorted_unique;
use crate::model::{ascending, ascending_within};

verus! {

/// Two ascending sequences that hold the same elements, each as often as the
/// other, are equal: the elements decide the result of a sort, whichever
/// procedure produced it.
pub proof fn ascending_arrangement_is_unique(a: Seq<i32>, b: Seq<i32>)
    requires
        ascending(a),
        ascending(b),
        a.to_multiset() == b.to_multiset(),
    ensures
        a == b,
{
    let leq = |x: i32, y: i32| x <= y;
    assert(total_ordering(leq));
    assert forall|i: int, j: int| 0 <= i < j < a.len() implies #[trigger] leq(a[i], a[j]) by {
        assert(a[i] <= a[j]);
    }
    assert forall|i: int, j: int| 0 <= i < j < b.len() implies #[trigger] leq(b[i], b[j]) by {
        assert(b[i] <= b[j]);
    }
    assert(sorted_by(a, leq));
    assert(sorted_by(b, leq));
    lemma_sorted_unique(a, b, leq);
}

/// Sorting an input that is ascending already gives it back unchanged.
pub proof fn sorted_input_stays(before: Seq<i32>, after: Seq<i32>)
    requires
        after.to_multiset() == before.to_multiset(),
        ascending(after),
        ascending(before),
    ensures
        after == before,
{
    ascending_arrangement_is_unique(after, before);
}

/// Sorting the output of a sort once more gives the same output.
pub proof fn sorting_twice_is_sorting_once(input: Seq<i32>, once: Seq<i32>, twice: Seq<i32>)
    requires
        once.to_multiset() == input.to_multiset(),
        ascending(once),
        twice.to_multiset() == once.to_multiset(),
        ascending(twice),
    ensures
        twice == once,
{
    ascending_arrangement_is_unique(twice, once);
}

/// Two sorts of one input agree element for element, so the output of the
/// sorter is that of any other procedure that returns its input's elements
/// in ascending order.
pub proof fn sorts_of_one_input_agree(input: Seq<i32>, first: Seq<i32>, second: Seq<i32>)
    requires
        first.to_multiset() == input.to_multiset(),
        ascending(first),
        second.to_multiset() == input.to_multiset(),
        ascending(second),
    ensures
        first == second,
{
    ascending_arrangement_is_unique(first, second);
}

/// An input without elements, with one element, or with all elements equal
/// comes out of a sort as it went in.
pub proof fn uniform_input_stays(before: Seq<i32>, after: Seq<i32>)
    requires
        after.to_multiset() == before.to_multiset(),
        ascending(after),
        forall|i: int, j: int| 0 <= i < before.len() && 0 <= j < before.len() ==> before[i] == before[j],
    ensures
        after == before,
{
    assert(ascending_within(before, 0, before.len() as int));
    ascending_arrangement_is_unique(after, before);
}

/// In an ascending sequence each element is at most its right neighbour, and
/// a sequence of which that holds is ascending.
pub proof fn ascending_is_neighbourwise(s: Seq<i32>)
    ensures
        ascending(s) <==> forall|i: int| 0 <= i && i + 1 < s.len() ==> s[i] <= #[trigger] s[i + 1],
{
    if forall|i: int| 0 <= i && i + 1 < s.len() ==> s[i] <= #[trigger] s[i + 1] {
        assert forall|i: int, j: int| 0 <= i <= j < s.len() implies s[i] <= s[j] by {
            neighbourwise_reaches(s, i, j);
        }
    }
    if ascending(s) {
        assert forall|i: int| 0 <= i && i + 1 < s.len() implies s[i] <= #[trigger] s[i + 1] by {
            assert(s[i] <= s[i + 1]);
        }
    }
}

/// Where each element is at most its right neighbour, it is at most every
/// later element.
proof fn neighbourwise_reaches(s: Seq<i32>, i: int, j: int)
    requires
        forall|k: int| 0 <= k && k + 1 < s.len() ==> s[k] <= #[trigger] s[k + 1],
        0 <= i <= j < s.len(),
    ensures
        s[i] <= s[j],
    decreases j - i,
{
    if i < j {
        neighbourwise_reaches(s, i, j - 1);
        assert(s[j - 1] <= s[j - 1 + 1]);
    }
}

} // verus!
