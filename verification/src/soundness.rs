//! The invariants of a database, and that a build establishes them.

use crate::coalesce::{
    bounded, coalesce, entry_of, lemma_coalescer_correct, lies_before, listed, maximal, ordered,
    sound,
};
use crate::database::{DatabaseContent, NumberRange};
use crate::entries::{entry_order, lemma_entry_order_is_total, EncodedEntry};
use crate::lookup::{
    first_cover, group_end, group_start, lemma_first_cover, lemma_group_is_exact, lookup_in,
    names_of, present, sorted_by_code,
};
use crate::names::strictly_ascending;
use crate::postal::{is_postal_code, lookup_key, pc_key, upper_case};
use crate::records::{Address, Locality, PublicSpace};
use crate::transform::{
    entry_for, has_id, has_number, is_locality_map, is_public_space_map, kept_entries,
    last_with_id, last_with_number, lemma_addresses_are_covered, ranges_of,
};
use vstd::prelude::*;
use vstd::utf8::encode_utf8;

verus! {

/// Every range points to a public space and a locality that the database
/// names.
pub open spec fn indices_in_range(c: DatabaseContent) -> bool {
    forall|i: int|
        0 <= i < c.ranges.len() ==> (#[trigger] c.ranges[i]).public_space_index
            < c.public_spaces.len() && c.ranges[i].locality_index < c.localities.len()
}

/// The invariants of a database: at most 65 536 localities; both lists of
/// names sorted and free of duplicates; the ranges sorted by postal code,
/// public space, locality and start, apart from each other, and each as
/// long as it can be; no range past the greatest house number; every index
/// within its list.
pub open spec fn invariants_hold(c: DatabaseContent) -> bool {
    &&& c.localities.len() <= 65536
    &&& strictly_ascending(c.localities)
    &&& strictly_ascending(c.public_spaces)
    &&& ordered(c.ranges)
    &&& maximal(c.ranges)
    &&& bounded(c.ranges)
    &&& indices_in_range(c)
}

/// Ranges that lie one before the other are sorted by postal code.
pub proof fn lemma_ordered_is_sorted_by_code(ranges: Seq<NumberRange>)
    requires
        ordered(ranges),
    ensures
        sorted_by_code(ranges),
{
    assert forall|i: int, j: int| 0 <= i <= j < ranges.len() implies (
    #[trigger] ranges[i]).postal_code <= (#[trigger] ranges[j]).postal_code by {
        if i < j {
            assert(lies_before(ranges[i], ranges[j]));
        }
    }
}

/// Among the localities with a number there is a last one.
proof fn lemma_last_with_number(localities: Seq<Locality>, id: u16, n: int) -> (last: int)
    requires
        0 <= n <= localities.len(),
        exists|i: int| 0 <= i < n && (#[trigger] localities[i]).id == id,
    ensures
        0 <= last < n,
        localities[last].id == id,
        forall|j: int| last < j < n ==> (#[trigger] localities[j]).id != id,
    decreases n,
{
    if localities[n - 1].id == id {
        n - 1
    } else {
        let i = choose|i: int| 0 <= i < n && (#[trigger] localities[i]).id == id;
        assert(0 <= i < n - 1 && localities[i].id == id);
        lemma_last_with_number(localities, id, n - 1)
    }
}

/// Among the public spaces with an identifier there is a last one.
proof fn lemma_last_with_id(public_spaces: Seq<PublicSpace>, id: Seq<char>, n: int) -> (last: int)
    requires
        0 <= n <= public_spaces.len(),
        exists|i: int| 0 <= i < n && (#[trigger] public_spaces[i]).id@ == id,
    ensures
        0 <= last < n,
        public_spaces[last].id@ == id,
        forall|j: int| last < j < n ==> (#[trigger] public_spaces[j]).id@ != id,
    decreases n,
{
    if public_spaces[n - 1].id@ == id {
        n - 1
    } else {
        let i = choose|i: int| 0 <= i < n && (#[trigger] public_spaces[i]).id@ == id;
        assert(0 <= i < n - 1 && public_spaces[i].id@ == id);
        lemma_last_with_id(public_spaces, id, n - 1)
    }
}

/// What the two maps of a build lead to lies within the lists of names.
pub proof fn lemma_targets_in_range(
    map: Map<Seq<char>, (u32, u16)>,
    public_spaces: Seq<PublicSpace>,
    names: Seq<Seq<char>>,
    locality_map: Map<u16, u16>,
    localities: Seq<Locality>,
    locality_names: Seq<Seq<char>>,
    id: Seq<char>,
)
    requires
        is_public_space_map(map, public_spaces, names, locality_map),
        is_locality_map(locality_map, localities, locality_names),
        forall|i: int|
            0 <= i < public_spaces.len() ==> has_number(
                localities,
                (#[trigger] public_spaces[i]).locality_id,
            ),
        map.contains_key(id),
    ensures
        map[id].0 < names.len(),
        map[id].1 < locality_names.len(),
{
    assert(has_id(public_spaces, id));
    let at = lemma_last_with_id(public_spaces, id, public_spaces.len() as int);
    assert(last_with_id(public_spaces, at));
    let number = public_spaces[at].locality_id;
    assert(has_number(localities, number));
    let home = lemma_last_with_number(localities, number, localities.len() as int);
    assert(last_with_number(localities, home));
    assert(locality_map.contains_key(number));
}

/// Every kept entry has the indices that the map gives to some identifier.
proof fn lemma_kept_entries_have_targets(
    addresses: Seq<Address>,
    map: Map<Seq<char>, (u32, u16)>,
    n: int,
    k: int,
) -> (id: Seq<char>)
    requires
        0 <= n <= addresses.len(),
        0 <= k < kept_entries(addresses, map, n).len(),
    ensures
        map.contains_key(id),
        kept_entries(addresses, map, n)[k].public_space_index == map[id].0,
        kept_entries(addresses, map, n)[k].locality_index == map[id].1,
    decreases n,
{
    let rest = kept_entries(addresses, map, n - 1);
    if map.contains_key(addresses[n - 1].public_space_id@) && k == rest.len() {
        addresses[n - 1].public_space_id@
    } else {
        lemma_kept_entries_have_targets(addresses, map, n - 1, k)
    }
}

/// Every range of a build has the indices that the map gives to some
/// identifier.
proof fn lemma_ranges_have_targets(
    addresses: Seq<Address>,
    map: Map<Seq<char>, (u32, u16)>,
    m: int,
) -> (id: Seq<char>)
    requires
        0 <= m < ranges_of(addresses, map).len(),
    ensures
        map.contains_key(id),
        ranges_of(addresses, map)[m].public_space_index == map[id].0,
        ranges_of(addresses, map)[m].locality_index == map[id].1,
{
    broadcast use vstd::seq_lib::group_to_multiset_ensures;

    let kept = kept_entries(addresses, map, addresses.len() as int);
    let sorted = kept.sort_by(entry_order());
    let ranges = ranges_of(addresses, map);
    lemma_entry_order_is_total();
    kept.lemma_sort_by_ensures(entry_order());
    lemma_coalescer_correct(sorted);
    let range = ranges[m];
    let e = entry_of(range, range.start as int);
    assert(listed(sorted, sorted.len() as int, e));
    let i = choose|i: int| 0 <= i < sorted.len() && #[trigger] sorted[i] == e;
    assert(sorted.contains(sorted[i]));
    assert(sorted.to_multiset().count(e) > 0);
    assert(kept.to_multiset().count(e) > 0);
    assert(kept.contains(e));
    let k = choose|k: int| 0 <= k < kept.len() && kept[k] == e;
    lemma_kept_entries_have_targets(addresses, map, addresses.len() as int, k)
}

/// A build establishes the invariants: names indexed from the records and
/// ranges folded from the addresses make a database in which every
/// invariant holds.
pub proof fn lemma_build_is_sound(
    c: DatabaseContent,
    addresses: Seq<Address>,
    public_spaces: Seq<PublicSpace>,
    localities: Seq<Locality>,
    map: Map<Seq<char>, (u32, u16)>,
    locality_map: Map<u16, u16>,
)
    requires
        c.localities.len() <= 65536,
        strictly_ascending(c.localities),
        strictly_ascending(c.public_spaces),
        is_locality_map(locality_map, localities, c.localities),
        is_public_space_map(map, public_spaces, c.public_spaces, locality_map),
        forall|i: int|
            0 <= i < public_spaces.len() ==> has_number(
                localities,
                (#[trigger] public_spaces[i]).locality_id,
            ),
        c.ranges == ranges_of(addresses, map),
    ensures
        invariants_hold(c),
        sorted_by_code(c.ranges),
{
    let kept = kept_entries(addresses, map, addresses.len() as int);
    let sorted = kept.sort_by(entry_order());
    lemma_entry_order_is_total();
    kept.lemma_sort_by_ensures(entry_order());
    lemma_coalescer_correct(sorted);
    lemma_ordered_is_sorted_by_code(c.ranges);
    assert forall|i: int| 0 <= i < c.ranges.len() implies (#[trigger] c.ranges[i]).public_space_index
        < c.public_spaces.len() && c.ranges[i].locality_index < c.localities.len() by {
        let id = lemma_ranges_have_targets(addresses, map, i);
        lemma_targets_in_range(
            map,
            public_spaces,
            c.public_spaces,
            locality_map,
            localities,
            c.localities,
            id,
        );
    }
}

/// No address is lost: in a database that holds the invariants and the
/// ranges of a list of addresses, a lookup of the postal code and the house
/// number of any address whose public space is known has an answer, and
/// the answer names a range of that postal code that holds the number.
pub proof fn lemma_built_addresses_are_found(
    c: DatabaseContent,
    addresses: Seq<Address>,
    map: Map<Seq<char>, (u32, u16)>,
    i: int,
)
    requires
        invariants_hold(c),
        c.ranges == ranges_of(addresses, map),
        0 <= i < addresses.len(),
        map.contains_key(addresses[i].public_space_id@),
        is_postal_code(encode_utf8(addresses[i].postal_code@)),
    ensures
        exists|k: int|
            0 <= k < c.ranges.len() && (#[trigger] c.ranges[k]).postal_code == pc_key(
                encode_utf8(addresses[i].postal_code@),
            ) && c.ranges[k].covers(addresses[i].house_number) && lookup_in(
                c.ranges,
                present(c.public_spaces),
                present(c.localities),
                encode_utf8(addresses[i].postal_code@),
                addresses[i].house_number,
            ) == names_of(c.ranges[k], present(c.public_spaces), present(c.localities))
                && names_of(c.ranges[k], present(c.public_spaces), present(c.localities))
                is Some,
{
    let typed = encode_utf8(addresses[i].postal_code@);
    let number = addresses[i].house_number;
    assert(upper_case(typed) =~= typed);
    let key = pc_key(typed);
    assert(lookup_key(typed) == Some(key));
    lemma_addresses_are_covered(addresses, map, i);
    lemma_ordered_is_sorted_by_code(c.ranges);
    lemma_group_is_exact(c.ranges, key);
    let e = entry_for(addresses[i], map);
    let m = choose|m: int| 0 <= m < c.ranges.len() && crate::coalesce::holds(#[trigger] c.ranges[m], e);
    assert(c.ranges[m].postal_code == key);
    assert(c.ranges[m].start + c.ranges[m].length <= u32::MAX);
    assert(c.ranges[m].covers(number));
    let s = group_start(c.ranges, key);
    let t = group_end(c.ranges, key);
    lemma_first_cover(c.ranges, number, s, t);
    let k = first_cover(c.ranges, number, s, t)->0;
    assert(first_cover(c.ranges, number, s, t) is Some);
    assert(c.ranges[k].postal_code == key);
    assert(c.ranges[k].public_space_index < c.public_spaces.len());
    assert(c.ranges[k].locality_index < c.localities.len());
}

} // verus!
