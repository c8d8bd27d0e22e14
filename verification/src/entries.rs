//! Address entries and their canonical order.

use crate::sorting::{merge_sort, Sortable};
use vstd::prelude::*;
use vstd::relations::{sorted_by, total_ordering};
use vstd::seq_lib::lemma_sorted_unique;

verus! {

/// One address, reduced to what a range is made of.
#[derive(Debug, Clone, Copy, PartialEq, Eq, Structural)]
pub struct EncodedEntry {
    pub postal_code: u32,
    pub house_number: u32,
    pub public_space_index: u32,
    pub locality_index: u16,
}

/// The canonical order: by postal code, then public space, then locality,
/// then house number.
pub open spec fn entry_le(a: EncodedEntry, b: EncodedEntry) -> bool {
    if a.postal_code != b.postal_code {
        a.postal_code < b.postal_code
    } else if a.public_space_index != b.public_space_index {
        a.public_space_index < b.public_space_index
    } else if a.locality_index != b.locality_index {
        a.locality_index < b.locality_index
    } else {
        a.house_number <= b.house_number
    }
}

/// The canonical order as a relation.
pub open spec fn entry_order() -> spec_fn(EncodedEntry, EncodedEntry) -> bool {
    |a: EncodedEntry, b: EncodedEntry| entry_le(a, b)
}

/// The canonical order is a total order.
pub proof fn lemma_entry_order_is_total()
    ensures
        total_ordering(entry_order()),
{
    let leq = entry_order();
    assert forall|x: EncodedEntry, y: EncodedEntry| #[trigger] leq(x, y) && #[trigger] leq(
        y,
        x,
    ) implies x == y by {}
    assert(vstd::relations::reflexive(leq));
    assert(vstd::relations::antisymmetric(leq));
    assert(vstd::relations::transitive(leq));
    assert(vstd::relations::strongly_connected(leq));
}

/// Whether `a` comes before `b` in the canonical order, or is equal to it.
pub fn entry_before(a: &EncodedEntry, b: &EncodedEntry) -> (le: bool)
    ensures
        le == entry_le(*a, *b),
{
    if a.postal_code != b.postal_code {
        a.postal_code < b.postal_code
    } else if a.public_space_index != b.public_space_index {
        a.public_space_index < b.public_space_index
    } else if a.locality_index != b.locality_index {
        a.locality_index < b.locality_index
    } else {
        a.house_number <= b.house_number
    }
}

impl Sortable for EncodedEntry {
    open spec fn le(self, other: Self) -> bool {
        entry_le(self, other)
    }

    fn le_exec(&self, other: &Self) -> (r: bool) {
        entry_before(self, other)
    }

    proof fn lemma_le_total(a: Self, b: Self) {
    }

    proof fn lemma_le_transitive(a: Self, b: Self, c: Self) {
    }
}

/// Sort entries into the canonical order.
pub fn sort_entries(entries: &Vec<EncodedEntry>) -> (sorted: Vec<EncodedEntry>)
    ensures
        sorted@ == entries@.sort_by(entry_order()),
        sorted_by(sorted@, entry_order()),
        sorted@.to_multiset() == entries@.to_multiset(),
{
    let sorted = merge_sort(entries);
    proof {
        assert(sorted_by(sorted@, entry_order())) by {
            let leq = entry_order();
            assert forall|i: int, j: int| 0 <= i < j < sorted@.len() implies leq(
                sorted@[i],
                sorted@[j],
            ) by {
                assert(sorted@[i].le(sorted@[j]));
            }
        }
        lemma_entry_order_is_total();
        entries@.lemma_sort_by_ensures(entry_order());
        lemma_sorted_unique(sorted@, entries@.sort_by(entry_order()), entry_order());
    }
    sorted
}

} // verus!
