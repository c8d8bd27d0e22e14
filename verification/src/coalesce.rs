//! Folding sorted address entries into house-number ranges.
//!
//! A run of consecutive house numbers on one public space of one locality
//! under one postal code becomes one range. A number that is already
//! covered is dropped. A gap, another street, or a range that has reached
//! its greatest length, starts a new range.

use crate::database::NumberRange;
use crate::entries::{entry_le, entry_order, EncodedEntry};
use vstd::prelude::*;
use vstd::relations::sorted_by;

verus! {

/// The range and the entry share postal code, public space and locality.
pub open spec fn same_group(r: NumberRange, e: EncodedEntry) -> bool {
    &&& r.postal_code == e.postal_code
    &&& r.public_space_index == e.public_space_index
    &&& r.locality_index == e.locality_index
}

/// The range of one entry alone.
pub open spec fn single(e: EncodedEntry) -> NumberRange {
    NumberRange {
        postal_code: e.postal_code,
        start: e.house_number,
        length: 0,
        public_space_index: e.public_space_index,
        locality_index: e.locality_index,
    }
}

/// The range made one house number longer.
pub open spec fn grown(r: NumberRange) -> NumberRange {
    NumberRange { length: (r.length + 1) as u16, ..r }
}

/// One step of the fold: what the ranges become when the next entry is
/// taken in.
pub open spec fn absorb(ranges: Seq<NumberRange>, e: EncodedEntry) -> Seq<NumberRange> {
    if ranges.len() == 0 || !same_group(ranges.last(), e) {
        ranges.push(single(e))
    } else {
        let last = ranges.last();
        if e.house_number <= last.start + last.length {
            ranges
        } else if last.length < u16::MAX && e.house_number == last.start + last.length + 1 {
            ranges.update(ranges.len() - 1, grown(last))
        } else {
            ranges.push(single(e))
        }
    }
}

/// The ranges of the first `n` entries.
pub open spec fn coalesce(entries: Seq<EncodedEntry>, n: int) -> Seq<NumberRange>
    decreases n,
{
    if n <= 0 {
        Seq::empty()
    } else {
        absorb(coalesce(entries, n - 1), entries[n - 1])
    }
}

/// The range holds the entry: it is of the entry's group and the entry's
/// house number lies in it.
pub open spec fn holds(r: NumberRange, e: EncodedEntry) -> bool {
    same_group(r, e) && r.start <= e.house_number <= r.start + r.length
}

/// The entry of a range's group with house number `h`.
pub open spec fn entry_of(r: NumberRange, h: int) -> EncodedEntry {
    EncodedEntry {
        postal_code: r.postal_code,
        house_number: h as u32,
        public_space_index: r.public_space_index,
        locality_index: r.locality_index,
    }
}

/// Some range holds the entry.
pub open spec fn served(ranges: Seq<NumberRange>, e: EncodedEntry) -> bool {
    exists|m: int| 0 <= m < ranges.len() && holds(#[trigger] ranges[m], e)
}

/// The entry is one of the first `n`.
pub open spec fn listed(entries: Seq<EncodedEntry>, n: int, e: EncodedEntry) -> bool {
    exists|i: int| 0 <= i < n && #[trigger] entries[i] == e
}

/// Range `a` lies wholly before range `b`: its group comes first in the
/// order of postal code, public space and locality, or the groups are the
/// same and `a` ends before `b` starts.
pub open spec fn lies_before(a: NumberRange, b: NumberRange) -> bool {
    if a.postal_code != b.postal_code {
        a.postal_code < b.postal_code
    } else if a.public_space_index != b.public_space_index {
        a.public_space_index < b.public_space_index
    } else if a.locality_index != b.locality_index {
        a.locality_index < b.locality_index
    } else {
        a.start + a.length < b.start
    }
}

/// Two ranges do not overlap: they are of different groups, or one ends
/// before the other starts.
pub open spec fn apart(a: NumberRange, b: NumberRange) -> bool {
    ||| a.postal_code != b.postal_code
    ||| a.public_space_index != b.public_space_index
    ||| a.locality_index != b.locality_index
    ||| a.start + a.length < b.start
    ||| b.start + b.length < a.start
}

/// Every one of the first `n` entries lies in a range.
pub open spec fn complete(entries: Seq<EncodedEntry>, n: int, ranges: Seq<NumberRange>) -> bool {
    forall|i: int| 0 <= i < n ==> served(ranges, #[trigger] entries[i])
}

/// Every house number of every range is that of one of the first `n`
/// entries, in the range's group.
pub open spec fn sound(entries: Seq<EncodedEntry>, n: int, ranges: Seq<NumberRange>) -> bool {
    forall|m: int, h: int|
        0 <= m < ranges.len() && ranges[m].start <= h <= ranges[m].start + ranges[m].length
            ==> listed(entries, n, #[trigger] entry_of(ranges[m], h))
}

/// The ranges are in order and apart: each lies wholly before every later
/// one.
pub open spec fn ordered(ranges: Seq<NumberRange>) -> bool {
    forall|m: int, k: int|
        0 <= m < k < ranges.len() ==> lies_before(#[trigger] ranges[m], #[trigger] ranges[k])
}

/// No range could have taken in the start of the next: between two
/// neighbours of one group lies a gap, or the first has the greatest
/// length.
pub open spec fn maximal(ranges: Seq<NumberRange>) -> bool {
    forall|m: int, k: int|
        0 <= m && k == m + 1 && k < ranges.len() ==> follows_a_break(
            #[trigger] ranges[m],
            #[trigger] ranges[k],
        )
}

/// Range `b` could not have been joined to range `a` before it: they are
/// of different groups, or there is a gap between them, or `a` has the
/// greatest length.
pub open spec fn follows_a_break(a: NumberRange, b: NumberRange) -> bool {
    ||| a.postal_code != b.postal_code
    ||| a.public_space_index != b.public_space_index
    ||| a.locality_index != b.locality_index
    ||| b.start > a.start + a.length + 1
    ||| a.length == u16::MAX
}

/// No range passes the greatest house number.
pub open spec fn bounded(ranges: Seq<NumberRange>) -> bool {
    forall|m: int|
        0 <= m < ranges.len() ==> (#[trigger] ranges[m]).start + ranges[m].length <= u32::MAX
}

/// After at least one entry the last range ends with the last entry.
pub open spec fn ends_with(ranges: Seq<NumberRange>, e: EncodedEntry) -> bool {
    &&& ranges.len() > 0
    &&& same_group(ranges.last(), e)
    &&& ranges.last().start + ranges.last().length == e.house_number
}

/// All that holds of the ranges of the first `n` sorted entries.
pub open spec fn coalesced(entries: Seq<EncodedEntry>, n: int, ranges: Seq<NumberRange>) -> bool {
    &&& n > 0 ==> ends_with(ranges, entries[n - 1])
    &&& n <= 0 ==> ranges.len() == 0
    &&& bounded(ranges)
    &&& complete(entries, n, ranges)
    &&& sound(entries, n, ranges)
    &&& ordered(ranges)
    &&& maximal(ranges)
}

/// The entry is already inside the last range.
spec fn is_covered(before: Seq<NumberRange>, e: EncodedEntry) -> bool {
    &&& before.len() > 0
    &&& same_group(before.last(), e)
    &&& e.house_number <= before.last().start + before.last().length
}

/// The entry makes the last range one longer.
spec fn is_extension(before: Seq<NumberRange>, e: EncodedEntry) -> bool {
    &&& before.len() > 0
    &&& same_group(before.last(), e)
    &&& before.last().length < u16::MAX
    &&& e.house_number == before.last().start + before.last().length + 1
}

/// What a step may rest on: the entries are sorted, and the ranges so far
/// end with the entry before.
spec fn step_ready(entries: Seq<EncodedEntry>, n: int, before: Seq<NumberRange>) -> bool {
    &&& sorted_by(entries, entry_order())
    &&& 0 <= n < entries.len()
    &&& n > 0 ==> ends_with(before, entries[n - 1])
    &&& n <= 0 ==> before.len() == 0
}

proof fn lemma_step_order(entries: Seq<EncodedEntry>, n: int, before: Seq<NumberRange>)
    requires
        step_ready(entries, n, before),
    ensures
        n > 0 ==> entry_le(entries[n - 1], entries[n]),
        is_covered(before, entries[n]) ==> entries[n].house_number == before.last().start
            + before.last().length,
{
    let leq = entry_order();
    if n > 0 {
        assert(leq(entries[n - 1], entries[n]));
    }
}

proof fn lemma_step_ends(entries: Seq<EncodedEntry>, n: int, before: Seq<NumberRange>)
    requires
        step_ready(entries, n, before),
        bounded(before),
    ensures
        ends_with(absorb(before, entries[n]), entries[n]),
        bounded(absorb(before, entries[n])),
{
    let e = entries[n];
    let after = absorb(before, e);
    lemma_step_order(entries, n, before);
    assert forall|m: int| 0 <= m < after.len() implies (#[trigger] after[m]).start
        + after[m].length <= u32::MAX by {
        if m < before.len() && after[m] == before[m] {
            assert(before[m].start + before[m].length <= u32::MAX);
        }
    }
}

proof fn lemma_step_complete(entries: Seq<EncodedEntry>, n: int, before: Seq<NumberRange>)
    requires
        step_ready(entries, n, before),
        complete(entries, n, before),
    ensures
        complete(entries, n + 1, absorb(before, entries[n])),
{
    let e = entries[n];
    let after = absorb(before, e);
    lemma_step_order(entries, n, before);
    assert(holds(after[after.len() - 1], e));
    assert(served(after, e));
    assert forall|i: int| 0 <= i < n + 1 implies served(after, #[trigger] entries[i]) by {
        if i < n {
            assert(served(before, entries[i]));
            let m = choose|m: int| 0 <= m < before.len() && holds(#[trigger] before[m], entries[i]);
            assert(holds(after[m], entries[i]));
        }
    }
}

proof fn lemma_step_sound(entries: Seq<EncodedEntry>, n: int, before: Seq<NumberRange>)
    requires
        step_ready(entries, n, before),
        sound(entries, n, before),
    ensures
        sound(entries, n + 1, absorb(before, entries[n])),
{
    let e = entries[n];
    let after = absorb(before, e);
    lemma_step_order(entries, n, before);
    assert forall|m: int, h: int|
        0 <= m < after.len() && after[m].start <= h <= after[m].start
            + after[m].length implies listed(entries, n + 1, #[trigger] entry_of(after[m], h)) by {
        if m == after.len() - 1 && h == e.house_number {
            assert(entries[n] == entry_of(after[m], h));
        } else {
            assert(m < before.len());
            assert(entry_of(after[m], h) == entry_of(before[m], h));
            assert(before[m].start <= h <= before[m].start + before[m].length);
            assert(listed(entries, n, entry_of(before[m], h)));
            let i = choose|i: int| 0 <= i < n && #[trigger] entries[i] == entry_of(before[m], h);
            assert(0 <= i < n + 1 && entries[i] == entry_of(after[m], h));
        }
    }
}

proof fn lemma_step_ordered(entries: Seq<EncodedEntry>, n: int, before: Seq<NumberRange>)
    requires
        step_ready(entries, n, before),
        ordered(before),
    ensures
        ordered(absorb(before, entries[n])),
{
    let e = entries[n];
    let after = absorb(before, e);
    lemma_step_order(entries, n, before);
    assert forall|m: int, k: int| 0 <= m < k < after.len() implies lies_before(
        #[trigger] after[m],
        #[trigger] after[k],
    ) by {
        if k < before.len() {
            assert(lies_before(before[m], before[k]));
        } else {
            let last_at = before.len() - 1;
            if m < last_at {
                assert(lies_before(before[m], before[last_at]));
            }
        }
    }
}

proof fn lemma_step_maximal(entries: Seq<EncodedEntry>, n: int, before: Seq<NumberRange>)
    requires
        step_ready(entries, n, before),
        maximal(before),
    ensures
        maximal(absorb(before, entries[n])),
{
    let e = entries[n];
    let after = absorb(before, e);
    lemma_step_order(entries, n, before);
    assert forall|m: int, k: int| 0 <= m && k == m + 1 && k < after.len() implies follows_a_break(
        #[trigger] after[m],
        #[trigger] after[k],
    ) by {
        if k < before.len() {
            assert(follows_a_break(before[m], before[k]));
        }
    }
}

proof fn lemma_step(entries: Seq<EncodedEntry>, n: int, before: Seq<NumberRange>)
    requires
        sorted_by(entries, entry_order()),
        0 <= n < entries.len(),
        coalesced(entries, n, before),
    ensures
        coalesced(entries, n + 1, absorb(before, entries[n])),
{
    lemma_step_ends(entries, n, before);
    lemma_step_complete(entries, n, before);
    lemma_step_sound(entries, n, before);
    lemma_step_ordered(entries, n, before);
    lemma_step_maximal(entries, n, before);
}

/// What the fold makes of the first `n` of a sorted list of entries.
pub proof fn lemma_coalesced(entries: Seq<EncodedEntry>, n: int)
    requires
        sorted_by(entries, entry_order()),
        0 <= n <= entries.len(),
    ensures
        coalesced(entries, n, coalesce(entries, n)),
    decreases n,
{
    if n > 0 {
        lemma_coalesced(entries, n - 1);
        lemma_step(entries, n - 1, coalesce(entries, n - 1));
    }
}

/// Coalescer correctness. Of the ranges folded from sorted entries:
/// every entry lies in exactly one range of its group; ranges of one group
/// do not overlap; the ranges are sorted by postal code, public space,
/// locality and start; every house number of a range is that of an entry;
/// and no range passes `u32::MAX`.
pub proof fn lemma_coalescer_correct(entries: Seq<EncodedEntry>)
    requires
        sorted_by(entries, entry_order()),
    ensures
        ({
            let ranges = coalesce(entries, entries.len() as int);
            &&& forall|i: int|
                0 <= i < entries.len() ==> served(ranges, #[trigger] entries[i])
            &&& forall|i: int, m: int, k: int|
                0 <= i < entries.len() && 0 <= m < ranges.len() && 0 <= k < ranges.len() && holds(
                    #[trigger] ranges[m],
                    #[trigger] entries[i],
                ) && holds(#[trigger] ranges[k], entries[i]) ==> m == k
            &&& forall|m: int, k: int|
                0 <= m < ranges.len() && 0 <= k < ranges.len() && m != k ==> apart(
                    #[trigger] ranges[m],
                    #[trigger] ranges[k],
                )
            &&& ordered(ranges)
            &&& sound(entries, entries.len() as int, ranges)
            &&& maximal(ranges)
            &&& bounded(ranges)
        }),
{
    let ranges = coalesce(entries, entries.len() as int);
    lemma_coalesced(entries, entries.len() as int);
    assert forall|i: int, m: int, k: int|
        0 <= i < entries.len() && 0 <= m < ranges.len() && 0 <= k < ranges.len() && holds(
            #[trigger] ranges[m],
            #[trigger] entries[i],
        ) && holds(#[trigger] ranges[k], entries[i]) implies m == k by {
        if m < k {
            assert(lies_before(ranges[m], ranges[k]));
        }
        if k < m {
            assert(lies_before(ranges[k], ranges[m]));
        }
    }
    assert forall|m: int, k: int|
        0 <= m < ranges.len() && 0 <= k < ranges.len() && m != k implies apart(
        #[trigger] ranges[m],
        #[trigger] ranges[k],
    ) by {
        if m < k {
            assert(lies_before(ranges[m], ranges[k]));
        }
        if k < m {
            assert(lies_before(ranges[k], ranges[m]));
        }
    }
}

/// Fold sorted entries into ranges.
pub fn coalesce_entries(entries: &Vec<EncodedEntry>) -> (ranges: Vec<NumberRange>)
    requires
        sorted_by(entries@, entry_order()),
    ensures
        ranges@ == coalesce(entries@, entries@.len() as int),
{
    let mut ranges: Vec<NumberRange> = Vec::new();
    let mut current: Option<NumberRange> = None;
    let mut i: usize = 0;
    while i < entries.len()
        invariant
            i <= entries@.len(),
            sorted_by(entries@, entry_order()),
            match current {
                Some(range) => coalesce(entries@, i as int) == ranges@.push(range),
                None => i == 0 && ranges@.len() == 0,
            },
        decreases entries@.len() - i,
    {
        let entry = entries[i];
        proof {
            lemma_coalesced(entries@, i as int);
        }
        let ghost before = coalesce(entries@, i as int);
        match current {
            Some(range) if range.postal_code == entry.postal_code && range.public_space_index
                == entry.public_space_index && range.locality_index == entry.locality_index => {
                assert(before.last() == range);
                let range_end = range.start + range.length as u32;
                if entry.house_number <= range_end {
                } else if range.length < u16::MAX && entry.house_number == range_end + 1 {
                    let longer = NumberRange {
                        postal_code: range.postal_code,
                        start: range.start,
                        length: range.length + 1,
                        public_space_index: range.public_space_index,
                        locality_index: range.locality_index,
                    };
                    current = Some(longer);
                    assert(before.update(before.len() - 1, grown(range)) =~= ranges@.push(longer));
                } else {
                    ranges.push(range);
                    current =
                    Some(
                        NumberRange {
                            postal_code: entry.postal_code,
                            start: entry.house_number,
                            length: 0,
                            public_space_index: entry.public_space_index,
                            locality_index: entry.locality_index,
                        },
                    );
                }
            },
            _ => {
                if let Some(finished) = current {
                    assert(before.last() == finished);
                    ranges.push(finished);
                }
                current =
                Some(
                    NumberRange {
                        postal_code: entry.postal_code,
                        start: entry.house_number,
                        length: 0,
                        public_space_index: entry.public_space_index,
                        locality_index: entry.locality_index,
                    },
                );
            },
        }
        i = i + 1;
    }
    if let Some(finished) = current {
        ranges.push(finished);
    }
    ranges
}

} // verus!
