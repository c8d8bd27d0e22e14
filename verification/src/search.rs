//! Binary search for the point where a predicate turns false.

use vstd::prelude::*;

verus! {

/// Where the search ends on `left..right`: it halves the interval, and goes
/// right of the middle where the predicate holds there, left of it where it
/// does not.
pub open spec fn bisect(pred: spec_fn(int) -> bool, left: int, right: int) -> int
    decreases right - left,
{
    if left >= right {
        left
    } else {
        let mid = left + (right - left) / 2;
        if pred(mid) {
            bisect(pred, mid + 1, right)
        } else {
            bisect(pred, left, mid)
        }
    }
}

/// Below `len` the predicate holds on a prefix and nowhere else.
pub open spec fn partitioned(pred: spec_fn(int) -> bool, len: int) -> bool {
    forall|i: int, j: int| 0 <= i <= j < len && #[trigger] pred(j) ==> #[trigger] pred(i)
}

/// Every answer that the executable predicate can give below `len` is the
/// one that `model` gives.
pub open spec fn decides<F: Fn(usize) -> bool>(
    pred: F,
    model: spec_fn(int) -> bool,
    len: int,
) -> bool {
    forall|i: usize, b: bool| i < len && #[trigger] call_ensures(pred, (i,), b) ==> b == model(i as int)
}

/// On a partitioned predicate the search finds the partition point: the
/// predicate holds at every index before the result and at none from it on.
pub proof fn lemma_bisect_partition_point(pred: spec_fn(int) -> bool, len: int)
    requires
        0 <= len,
        partitioned(pred, len),
    ensures
        0 <= bisect(pred, 0, len) <= len,
        forall|i: int| 0 <= i < bisect(pred, 0, len) ==> #[trigger] pred(i),
        forall|i: int| bisect(pred, 0, len) <= i < len ==> !#[trigger] pred(i),
{
    lemma_bisect_narrows(pred, 0, len, len);
}

proof fn lemma_bisect_narrows(pred: spec_fn(int) -> bool, left: int, right: int, len: int)
    requires
        0 <= left <= right <= len,
        partitioned(pred, len),
        forall|i: int| 0 <= i < left ==> #[trigger] pred(i),
        forall|i: int| right <= i < len ==> !#[trigger] pred(i),
    ensures
        left <= bisect(pred, left, right) <= right,
        forall|i: int| 0 <= i < bisect(pred, left, right) ==> #[trigger] pred(i),
        forall|i: int| bisect(pred, left, right) <= i < len ==> !#[trigger] pred(i),
    decreases right - left,
{
    if left < right {
        let mid = left + (right - left) / 2;
        if pred(mid) {
            lemma_bisect_narrows(pred, mid + 1, right, len);
        } else {
            assert forall|i: int| mid <= i < len implies !#[trigger] pred(i) by {
                if pred(i) {
                    assert(pred(mid));
                }
            }
            lemma_bisect_narrows(pred, left, mid, len);
        }
    }
}

/// Binary search over `0..len` for the first index at which `pred` fails.
///
/// The result is exact for every predicate: it is where the search ends on
/// the answers that the predicate gives. Where those are partitioned it is
/// the partition point (`lemma_bisect_partition_point`).
pub fn partition_point_range<F: Fn(usize) -> bool>(len: usize, pred: &F) -> (point: usize)
    requires
        forall|i: usize| i < len ==> call_requires(*pred, (i,)),
    ensures
        point <= len,
        forall|model: spec_fn(int) -> bool|
            decides(*pred, model, len as int) ==> point == #[trigger] bisect(model, 0, len as int),
{
    let mut left: usize = 0;
    let mut right: usize = len;
    while left < right
        invariant
            left <= right <= len,
            forall|i: usize| i < len ==> call_requires(*pred, (i,)),
            forall|model: spec_fn(int) -> bool|
                decides(*pred, model, len as int) ==> bisect(model, left as int, right as int)
                    == #[trigger] bisect(model, 0, len as int),
        decreases right - left,
    {
        let mid = left + (right - left) / 2;
        let holds = pred(mid);
        proof {
            assert forall|model: spec_fn(int) -> bool| decides(*pred, model, len as int) implies (
            if holds {
                bisect(model, mid + 1, right as int)
            } else {
                bisect(model, left as int, mid as int)
            }) == #[trigger] bisect(model, 0, len as int) by {
                assert(call_ensures(*pred, (mid,), holds));
                assert(model(mid as int) == holds);
                assert(bisect(model, left as int, right as int) == bisect(model, 0, len as int));
            }
        }
        if holds {
            left = mid + 1;
        } else {
            right = mid;
        }
    }
    left
}

} // verus!
