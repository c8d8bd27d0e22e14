//! Merge sort over any values with a total order.

use vstd::prelude::*;
use vstd::seq_lib::{lemma_multiset_commutative, to_multiset_build};

verus! {

/// Values that can be put in order: any two compare, and the comparison is
/// transitive.
pub trait Sortable: Copy {
    /// `self` comes before `other` or is equal to it in the order.
    spec fn le(self, other: Self) -> bool;

    /// Whether `self` comes before `other` or is equal to it in the order.
    fn le_exec(&self, other: &Self) -> (r: bool)
        ensures
            r == self.le(*other),
    ;

    /// Of any two values one comes before the other, or they are equal in
    /// the order.
    proof fn lemma_le_total(a: Self, b: Self)
        ensures
            a.le(b) || b.le(a),
    ;

    /// The order is transitive.
    proof fn lemma_le_transitive(a: Self, b: Self, c: Self)
        requires
            a.le(b),
            b.le(c),
        ensures
            a.le(c),
    ;
}

/// No value of the sequence comes after a later one.
pub open spec fn ascending<T: Sortable>(s: Seq<T>) -> bool {
    forall|i: int, j: int| 0 <= i < j < s.len() ==> (#[trigger] s[i]).le(#[trigger] s[j])
}

/// Every value of the sequence comes before `bound` or is equal to it.
spec fn all_le<T: Sortable>(s: Seq<T>, bound: T) -> bool {
    forall|k: int| 0 <= k < s.len() ==> (#[trigger] s[k]).le(bound)
}

/// A value behind an ascending sequence whose values all come before it
/// keeps the sequence ascending, and what came before the value comes
/// before whatever the value comes before.
proof fn lemma_push_keeps_order<T: Sortable>(s: Seq<T>, x: T, next: T)
    requires
        ascending(s),
        all_le(s, x),
        x.le(next),
    ensures
        ascending(s.push(x)),
        all_le(s.push(x), next),
{
    let longer = s.push(x);
    assert forall|i: int, j: int| 0 <= i < j < longer.len() implies (#[trigger] longer[i]).le(
        #[trigger] longer[j],
    ) by {
        if j < s.len() {
            assert(s[i].le(s[j]));
        } else {
            assert(s[i].le(x));
        }
    }
    assert forall|k: int| 0 <= k < longer.len() implies (#[trigger] longer[k]).le(next) by {
        if k < s.len() {
            assert(s[k].le(x));
            T::lemma_le_transitive(s[k], x, next);
        }
    }
}

proof fn lemma_push_keeps_ascending<T: Sortable>(s: Seq<T>, x: T)
    requires
        ascending(s),
        all_le(s, x),
    ensures
        ascending(s.push(x)),
{
    let longer = s.push(x);
    assert forall|i: int, j: int| 0 <= i < j < longer.len() implies (#[trigger] longer[i]).le(
        #[trigger] longer[j],
    ) by {
        if j < s.len() {
            assert(s[i].le(s[j]));
        } else {
            assert(s[i].le(x));
        }
    }
}

proof fn lemma_push_keeps_bound<T: Sortable>(s: Seq<T>, x: T, bound: T)
    requires
        all_le(s, bound),
        x.le(bound),
    ensures
        all_le(s.push(x), bound),
{
    let longer = s.push(x);
    assert forall|k: int| 0 <= k < longer.len() implies (#[trigger] longer[k]).le(bound) by {
        if k < s.len() {
            assert(s[k].le(bound));
        }
    }
}

/// Merge two ascending lists into one.
fn merge<T: Sortable>(a: &Vec<T>, b: &Vec<T>) -> (out: Vec<T>)
    requires
        ascending(a@),
        ascending(b@),
    ensures
        ascending(out@),
        out@.to_multiset() == a@.to_multiset().add(b@.to_multiset()),
{
    broadcast use {vstd::seq_lib::group_to_multiset_ensures, vstd::multiset::group_multiset_axioms};

    let mut out: Vec<T> = Vec::new();
    let mut i: usize = 0;
    let mut j: usize = 0;
    assert(a@.subrange(0, 0) =~= Seq::<T>::empty());
    assert(b@.subrange(0, 0) =~= Seq::<T>::empty());
    assert(out@.to_multiset() =~= a@.subrange(0, 0).to_multiset().add(
        b@.subrange(0, 0).to_multiset(),
    ));
    while i < a.len() || j < b.len()
        invariant
            i <= a@.len(),
            j <= b@.len(),
            ascending(a@),
            ascending(b@),
            ascending(out@),
            out@.to_multiset() == a@.subrange(0, i as int).to_multiset().add(
                b@.subrange(0, j as int).to_multiset(),
            ),
            i < a@.len() ==> all_le(out@, a@[i as int]),
            j < b@.len() ==> all_le(out@, b@[j as int]),
        decreases a@.len() - i + b@.len() - j,
    {
        let ghost before = out@;
        let take_left = if i >= a.len() {
            false
        } else if j >= b.len() {
            true
        } else {
            a[i].le_exec(&b[j])
        };
        if take_left {
            let x = a[i];
            out.push(x);
            proof {
                assert(a@.subrange(0, i + 1) =~= a@.subrange(0, i as int).push(x));
                assert(out@ == before.push(x));
                to_multiset_build(before, x);
                to_multiset_build(a@.subrange(0, i as int), x);
                assert(out@.to_multiset() =~= a@.subrange(0, i + 1).to_multiset().add(
                    b@.subrange(0, j as int).to_multiset(),
                ));
                lemma_push_keeps_ascending(before, x);
                if i + 1 < a@.len() {
                    assert(a@[i as int].le(a@[i + 1]));
                    lemma_push_keeps_order(before, x, a@[i + 1]);
                }
                if j < b@.len() {
                    lemma_push_keeps_bound(before, x, b@[j as int]);
                }
            }
            i = i + 1;
        } else {
            let x = b[j];
            out.push(x);
            proof {
                assert(b@.subrange(0, j + 1) =~= b@.subrange(0, j as int).push(x));
                assert(out@ == before.push(x));
                to_multiset_build(before, x);
                to_multiset_build(b@.subrange(0, j as int), x);
                assert(out@.to_multiset() =~= a@.subrange(0, i as int).to_multiset().add(
                    b@.subrange(0, j + 1).to_multiset(),
                ));
                lemma_push_keeps_ascending(before, x);
                if j + 1 < b@.len() {
                    assert(b@[j as int].le(b@[j + 1]));
                    lemma_push_keeps_order(before, x, b@[j + 1]);
                }
                if i < a@.len() {
                    T::lemma_le_total(a@[i as int], x);
                    lemma_push_keeps_bound(before, x, a@[i as int]);
                }
            }
            j = j + 1;
        }
    }
    assert(a@.subrange(0, i as int) =~= a@);
    assert(b@.subrange(0, j as int) =~= b@);
    out
}

/// Sort the values `lo..hi` of a list into a new list.
fn sort_range<T: Sortable>(values: &Vec<T>, lo: usize, hi: usize) -> (out: Vec<T>)
    requires
        lo <= hi <= values@.len(),
    ensures
        ascending(out@),
        out@.to_multiset() == values@.subrange(lo as int, hi as int).to_multiset(),
    decreases hi - lo,
{
    if hi - lo <= 1 {
        let mut out: Vec<T> = Vec::new();
        if lo < hi {
            out.push(values[lo]);
        }
        assert(out@ =~= values@.subrange(lo as int, hi as int));
        return out;
    }
    let mid = lo + (hi - lo) / 2;
    let left = sort_range(values, lo, mid);
    let right = sort_range(values, mid, hi);
    proof {
        let whole = values@.subrange(lo as int, hi as int);
        let first = values@.subrange(lo as int, mid as int);
        let second = values@.subrange(mid as int, hi as int);
        assert(whole =~= first + second);
        lemma_multiset_commutative(first, second);
    }
    merge(&left, &right)
}

/// Sort a list into a new list: the same values, each as often as before,
/// in ascending order.
pub fn merge_sort<T: Sortable>(values: &Vec<T>) -> (sorted: Vec<T>)
    ensures
        ascending(sorted@),
        sorted@.to_multiset() == values@.to_multiset(),
{
    assert(values@.subrange(0, values@.len() as int) =~= values@);
    sort_range(values, 0, values.len())
}

} // verus!
