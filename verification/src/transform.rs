//! From the records of the source register to the indexed names and the
//! house-number ranges of a database.

use crate::coalesce::{coalesce, coalesce_entries, holds, lemma_coalescer_correct, served};
use crate::database::{texts, NumberRange};
use crate::entries::{entry_order, lemma_entry_order_is_total, sort_entries, EncodedEntry};
use crate::error::BuildError;
use crate::names::{is_index_of, lemma_ascending_is_unique, position, sorted_unique};
use crate::postal::{encode_pc, is_postal_code, pc_key};
use crate::public_space_map::PublicSpaceMap;
use crate::records::{Address, Locality, PublicSpace};
use std::collections::HashMap;
use vstd::prelude::*;
use vstd::utf8::encode_utf8;

verus! {

broadcast use vstd::std_specs::hash::group_hash_axioms;

/// The most names that 16-bit indices can tell apart.
pub const MAX_LOCALITIES: usize = 65536;

/// The sorted locality names, and for each source number the index of its
/// name.
pub struct LocalityMap {
    pub locality_names: Vec<String>,
    pub locality_map: HashMap<u16, u16>,
}

/// The names of a list of localities, in the order of the list.
pub open spec fn locality_names_of(localities: Seq<Locality>) -> Seq<Seq<char>> {
    Seq::new(localities.len(), |i: int| localities[i].name@)
}

/// No later locality of the list has the number of locality `i`.
pub open spec fn last_with_number(localities: Seq<Locality>, i: int) -> bool {
    forall|j: int| i < j < localities.len() ==> (#[trigger] localities[j]).id != localities[i].id
}

/// The names of a list of public spaces, in the order of the list.
pub open spec fn public_space_names_of(public_spaces: Seq<PublicSpace>) -> Seq<Seq<char>> {
    Seq::new(public_spaces.len(), |i: int| public_spaces[i].name@)
}

/// No later public space of the list has the identifier of public space
/// `i`.
pub open spec fn last_with_id(public_spaces: Seq<PublicSpace>, i: int) -> bool {
    forall|j: int|
        i < j < public_spaces.len() ==> (#[trigger] public_spaces[j]).id@ != public_spaces[i].id@
}

/// Some locality of the list has the number.
pub open spec fn has_number(localities: Seq<Locality>, id: u16) -> bool {
    exists|i: int| 0 <= i < localities.len() && (#[trigger] localities[i]).id == id
}

/// Some public space of the list has the identifier.
pub open spec fn has_id(public_spaces: Seq<PublicSpace>, id: Seq<char>) -> bool {
    exists|i: int| 0 <= i < public_spaces.len() && (#[trigger] public_spaces[i]).id@ == id
}

/// The map leads from every source number to the index of the name that
/// the last locality with that number has, and holds nothing else.
pub open spec fn is_locality_map(
    map: Map<u16, u16>,
    localities: Seq<Locality>,
    names: Seq<Seq<char>>,
) -> bool {
    &&& forall|id: u16| #[trigger] map.contains_key(id) <==> has_number(localities, id)
    &&& forall|i: int|
        0 <= i < localities.len() && last_with_number(localities, i) ==> {
            let at = map[(#[trigger] localities[i]).id];
            &&& at < names.len()
            &&& names[at as int] == localities[i].name@
        }
}

/// The map leads from every identifier to the index of the name and the
/// index of the locality that the last public space with that identifier
/// has, and holds nothing else.
pub open spec fn is_public_space_map(
    map: Map<Seq<char>, (u32, u16)>,
    public_spaces: Seq<PublicSpace>,
    names: Seq<Seq<char>>,
    locality_map: Map<u16, u16>,
) -> bool {
    &&& forall|id: Seq<char>| #[trigger] map.contains_key(id) <==> has_id(public_spaces, id)
    &&& forall|i: int|
        0 <= i < public_spaces.len() && last_with_id(public_spaces, i) ==> {
            let target = map[(#[trigger] public_spaces[i]).id@];
            &&& target.0 < names.len()
            &&& names[target.0 as int] == public_spaces[i].name@
            &&& target.1 == locality_map[public_spaces[i].locality_id]
        }
}

/// A sorted index of names is as long as there are different names.
pub proof fn lemma_index_len(names: Seq<Seq<char>>, given: Seq<Seq<char>>)
    requires
        is_index_of(names, given),
    ensures
        names.len() == given.to_set().len(),
        names.no_duplicates(),
{
    assert forall|i: int, j: int| 0 <= i < names.len() && 0 <= j < names.len() && i
        != j implies names[i] != names[j] by {
        if names[i] == names[j] {
            lemma_ascending_is_unique(names, i, j);
        }
    }
    names.unique_seq_to_set();
    assert(names.to_set() =~= given.to_set());
}

/// The names of the localities, in the order of the list.
fn names_of_localities(localities: &Vec<Locality>) -> (names: Vec<String>)
    ensures
        texts(names@) == locality_names_of(localities@),
{
    let mut names: Vec<String> = Vec::new();
    let mut i: usize = 0;
    while i < localities.len()
        invariant
            i <= localities@.len(),
            names@.len() == i,
            forall|k: int| 0 <= k < i ==> (#[trigger] names@[k])@ == localities@[k].name@,
        decreases localities@.len() - i,
    {
        names.push(localities[i].name.clone());
        i = i + 1;
    }
    assert(texts(names@) =~= locality_names_of(localities@));
    names
}

/// The names of the public spaces, in the order of the list.
fn names_of_public_spaces(public_spaces: &Vec<PublicSpace>) -> (names: Vec<String>)
    ensures
        texts(names@) == public_space_names_of(public_spaces@),
{
    let mut names: Vec<String> = Vec::new();
    let mut i: usize = 0;
    while i < public_spaces.len()
        invariant
            i <= public_spaces@.len(),
            names@.len() == i,
            forall|k: int| 0 <= k < i ==> (#[trigger] names@[k])@ == public_spaces@[k].name@,
        decreases public_spaces@.len() - i,
    {
        names.push(public_spaces[i].name.clone());
        i = i + 1;
    }
    assert(texts(names@) =~= public_space_names_of(public_spaces@));
    names
}

/// Index the localities: sort their names, drop the duplicates, and map
/// each source number to the index of its name.
///
/// Two numbers with one name get one index. Where a number occurs more than
/// once, its last record counts. More than 65 536 different names are
/// refused.
pub fn index_localities(localities: Vec<Locality>) -> (r: Result<LocalityMap, BuildError>)
    ensures
        match r {
            Ok(index) => {
                &&& is_index_of(texts(index.locality_names@), locality_names_of(localities@))
                &&& index.locality_names@.len() <= 65536
                &&& locality_names_of(localities@).to_set().len() <= 65536
                &&& is_locality_map(
                    index.locality_map@,
                    localities@,
                    texts(index.locality_names@),
                )
            },
            Err(e) => e == BuildError::TooManyLocalities && locality_names_of(
                localities@,
            ).to_set().len() > 65536,
        },
{
    let given_names = names_of_localities(&localities);
    let locality_names = sorted_unique(&given_names);
    proof {
        lemma_index_len(texts(locality_names@), locality_names_of(localities@));
    }
    if locality_names.len() > MAX_LOCALITIES {
        return Err(BuildError::TooManyLocalities);
    }
    let mut locality_map: HashMap<u16, u16> = HashMap::new();
    let mut i: usize = 0;
    while i < localities.len()
        invariant
            i <= localities@.len(),
            is_index_of(texts(locality_names@), locality_names_of(localities@)),
            locality_names@.len() <= 65536,
            forall|id: u16|
                locality_map@.contains_key(id) <==> exists|j: int|
                    0 <= j < i && (#[trigger] localities@[j]).id == id,
            forall|j: int|
                0 <= j < i && (forall|k: int|
                    j < k < i ==> (#[trigger] localities@[k]).id != localities@[j].id) ==> {
                    let at = locality_map@[(#[trigger] localities@[j]).id];
                    &&& at < locality_names@.len()
                    &&& locality_names@[at as int]@ == localities@[j].name@
                },
        decreases localities@.len() - i,
    {
        let locality = &localities[i];
        let ghost given = locality_names_of(localities@);
        assert(given[i as int] == locality.name@);
        assert(given.contains(locality.name@));
        let (at, found) = position(&locality_names, locality.name.as_str());
        let ghost before = locality_map@;
        locality_map.insert(locality.id, at as u16);
        proof {
            assert forall|id: u16|
                locality_map@.contains_key(id) <==> exists|j: int|
                    0 <= j < i + 1 && (#[trigger] localities@[j]).id == id by {
                if before.contains_key(id) {
                    let j = choose|j: int| 0 <= j < i && (#[trigger] localities@[j]).id == id;
                    assert(0 <= j < i + 1 && localities@[j].id == id);
                }
                if id == locality.id {
                    assert(localities@[i as int].id == id);
                }
                if exists|j: int| 0 <= j < i + 1 && (#[trigger] localities@[j]).id == id {
                    let j = choose|j: int| 0 <= j < i + 1 && (#[trigger] localities@[j]).id == id;
                    if j < i {
                        assert(before.contains_key(id));
                    }
                }
            }
            assert forall|j: int|
                0 <= j < i + 1 && (forall|k: int|
                    j < k < i + 1 ==> (#[trigger] localities@[k]).id != localities@[j].id) implies {
                let at = locality_map@[(#[trigger] localities@[j]).id];
                &&& at < locality_names@.len()
                &&& locality_names@[at as int]@ == localities@[j].name@
            } by {
                if j < i {
                    assert(localities@[i as int].id != localities@[j].id);
                    assert forall|k: int| j < k < i implies (#[trigger] localities@[k]).id
                        != localities@[j].id by {}
                }
            }
        }
        i = i + 1;
    }
    Ok(LocalityMap { locality_names, locality_map })
}

/// Why the public spaces cannot be indexed, if they cannot: there are more
/// different names than 32-bit indices, or one of them lies in a locality
/// that the map does not know.
pub open spec fn public_spaces_error(
    public_spaces: Seq<PublicSpace>,
    locality_map: Map<u16, u16>,
) -> Option<BuildError> {
    if public_space_names_of(public_spaces).to_set().len() > 0x1_0000_0000 {
        Some(BuildError::CountOverflow)
    } else if exists|i: int|
        0 <= i < public_spaces.len() && !locality_map.contains_key(
            (#[trigger] public_spaces[i]).locality_id,
        ) {
        Some(BuildError::UnknownLocality)
    } else {
        None
    }
}

/// Index the public spaces: sort their names, drop the duplicates, and map
/// each identifier to the index of its name and the index of its locality.
///
/// Where an identifier occurs more than once, its last record counts. A
/// public space whose locality the map does not know is an error.
pub fn index_public_spaces(public_spaces: Vec<PublicSpace>, locality_map: HashMap<u16, u16>) -> (r:
    Result<(Vec<String>, PublicSpaceMap), BuildError>)
    ensures
        match r {
            Ok((names, map)) => {
                &&& public_spaces_error(public_spaces@, locality_map@) is None
                &&& is_index_of(texts(names@), public_space_names_of(public_spaces@))
                &&& map.well_formed()
                &&& is_public_space_map(
                    map@,
                    public_spaces@,
                    texts(names@),
                    locality_map@,
                )
            },
            Err(e) => public_spaces_error(public_spaces@, locality_map@) == Some(e),
        },
{
    let given_names = names_of_public_spaces(&public_spaces);
    let names = sorted_unique(&given_names);
    proof {
        lemma_index_len(texts(names@), public_space_names_of(public_spaces@));
    }
    if names.len() as u64 > 0x1_0000_0000u64 {
        return Err(BuildError::CountOverflow);
    }
    let mut map = PublicSpaceMap::new();
    let mut i: usize = 0;
    while i < public_spaces.len()
        invariant
            i <= public_spaces@.len(),
            is_index_of(texts(names@), public_space_names_of(public_spaces@)),
            names@.len() <= 0x1_0000_0000,
            public_space_names_of(public_spaces@).to_set().len() <= 0x1_0000_0000,
            map.well_formed(),
            forall|j: int|
                0 <= j < i ==> locality_map@.contains_key((#[trigger] public_spaces@[j]).locality_id),
            forall|id: Seq<char>|
                map@.contains_key(id) <==> exists|j: int|
                    0 <= j < i && (#[trigger] public_spaces@[j]).id@ == id,
            forall|j: int|
                0 <= j < i && (forall|k: int|
                    j < k < i ==> (#[trigger] public_spaces@[k]).id@ != public_spaces@[j].id@) ==> {
                    let target = map@[(#[trigger] public_spaces@[j]).id@];
                    &&& target.0 < names@.len()
                    &&& names@[target.0 as int]@ == public_spaces@[j].name@
                    &&& target.1 == locality_map@[public_spaces@[j].locality_id]
                },
        decreases public_spaces@.len() - i,
    {
        let public_space = &public_spaces[i];
        let ghost given = public_space_names_of(public_spaces@);
        assert(given[i as int] == public_space.name@);
        assert(given.contains(public_space.name@));
        let (at, found) = position(&names, public_space.name.as_str());
        let locality_index = match locality_map.get(&public_space.locality_id) {
            Some(index) => *index,
            None => {
                assert(!locality_map@.contains_key(public_spaces@[i as int].locality_id));
                return Err(BuildError::UnknownLocality);
            },
        };
        let ghost before = map@;
        map.insert(public_space.id.clone(), (at as u32, locality_index));
        proof {
            let id_now = public_space.id@;
            assert forall|id: Seq<char>|
                map@.contains_key(id) <==> exists|j: int|
                    0 <= j < i + 1 && (#[trigger] public_spaces@[j]).id@ == id by {
                if before.contains_key(id) {
                    let j = choose|j: int| 0 <= j < i && (#[trigger] public_spaces@[j]).id@ == id;
                    assert(0 <= j < i + 1 && public_spaces@[j].id@ == id);
                }
                if id == id_now {
                    assert(public_spaces@[i as int].id@ == id);
                }
                if exists|j: int| 0 <= j < i + 1 && (#[trigger] public_spaces@[j]).id@ == id {
                    let j = choose|j: int|
                        0 <= j < i + 1 && (#[trigger] public_spaces@[j]).id@ == id;
                    if j < i {
                        assert(before.contains_key(id));
                    }
                }
            }
            assert forall|j: int|
                0 <= j < i + 1 && (forall|k: int|
                    j < k < i + 1 ==> (#[trigger] public_spaces@[k]).id@
                        != public_spaces@[j].id@) implies {
                let target = map@[(#[trigger] public_spaces@[j]).id@];
                &&& target.0 < names@.len()
                &&& names@[target.0 as int]@ == public_spaces@[j].name@
                &&& target.1 == locality_map@[public_spaces@[j].locality_id]
            } by {
                if j < i {
                    assert(public_spaces@[i as int].id@ != public_spaces@[j].id@);
                    assert forall|k: int| j < k < i implies (#[trigger] public_spaces@[k]).id@
                        != public_spaces@[j].id@ by {}
                }
            }
        }
        i = i + 1;
    }
    Ok((names, map))
}

/// The entry that an address becomes, given what its public space is mapped
/// to.
pub open spec fn entry_for(address: Address, map: Map<Seq<char>, (u32, u16)>) -> EncodedEntry {
    EncodedEntry {
        postal_code: pc_key(encode_utf8(address.postal_code@)),
        house_number: address.house_number,
        public_space_index: map[address.public_space_id@].0,
        locality_index: map[address.public_space_id@].1,
    }
}

/// The entries of the first `n` addresses, without those whose public space
/// the map does not hold.
pub open spec fn kept_entries(
    addresses: Seq<Address>,
    map: Map<Seq<char>, (u32, u16)>,
    n: int,
) -> Seq<EncodedEntry>
    decreases n,
{
    if n <= 0 {
        Seq::empty()
    } else if map.contains_key(addresses[n - 1].public_space_id@) {
        kept_entries(addresses, map, n - 1).push(entry_for(addresses[n - 1], map))
    } else {
        kept_entries(addresses, map, n - 1)
    }
}

/// The ranges of a list of addresses: their entries, sorted into the
/// canonical order and folded.
pub open spec fn ranges_of(addresses: Seq<Address>, map: Map<Seq<char>, (u32, u16)>) -> Seq<
    NumberRange,
> {
    let sorted = kept_entries(addresses, map, addresses.len() as int).sort_by(entry_order());
    coalesce(sorted, sorted.len() as int)
}

/// Every address whose public space the map holds has a postal code in
/// canonical form.
pub open spec fn postal_codes_are_canonical(
    addresses: Seq<Address>,
    map: Map<Seq<char>, (u32, u16)>,
) -> bool {
    forall|i: int|
        0 <= i < addresses.len() && map.contains_key((#[trigger] addresses[i]).public_space_id@)
            ==> is_postal_code(encode_utf8(addresses[i].postal_code@))
}

/// An entry of the kept entries comes from an address that was kept.
pub proof fn lemma_kept_entry(
    addresses: Seq<Address>,
    map: Map<Seq<char>, (u32, u16)>,
    n: int,
    i: int,
)
    requires
        0 <= i < n <= addresses.len(),
        map.contains_key(addresses[i].public_space_id@),
    ensures
        kept_entries(addresses, map, n).contains(entry_for(addresses[i], map)),
    decreases n,
{
    let rest = kept_entries(addresses, map, n - 1);
    if i == n - 1 {
        let all = rest.push(entry_for(addresses[i], map));
        assert(all[rest.len() as int] == entry_for(addresses[i], map));
    } else {
        lemma_kept_entry(addresses, map, n - 1, i);
        let k = choose|k: int| 0 <= k < rest.len() && rest[k] == entry_for(addresses[i], map);
        if map.contains_key(addresses[n - 1].public_space_id@) {
            assert(rest.push(entry_for(addresses[n - 1], map))[k] == entry_for(addresses[i], map));
        }
    }
}

/// Every address whose public space is known lies in exactly one range of
/// its group: one range, and no other, has its postal code, public space
/// and locality and holds its house number.
pub proof fn lemma_addresses_are_covered(
    addresses: Seq<Address>,
    map: Map<Seq<char>, (u32, u16)>,
    i: int,
)
    requires
        0 <= i < addresses.len(),
        map.contains_key(addresses[i].public_space_id@),
    ensures
        served(ranges_of(addresses, map), entry_for(addresses[i], map)),
        forall|m: int, k: int|
            0 <= m < ranges_of(addresses, map).len() && 0 <= k < ranges_of(addresses, map).len()
                && holds(#[trigger] ranges_of(addresses, map)[m], entry_for(addresses[i], map))
                && holds(#[trigger] ranges_of(addresses, map)[k], entry_for(addresses[i], map))
                ==> m == k,
{
    broadcast use vstd::seq_lib::group_to_multiset_ensures;

    let kept = kept_entries(addresses, map, addresses.len() as int);
    let sorted = kept.sort_by(entry_order());
    let e = entry_for(addresses[i], map);
    lemma_kept_entry(addresses, map, addresses.len() as int, i);
    lemma_entry_order_is_total();
    kept.lemma_sort_by_ensures(entry_order());
    assert(kept.to_multiset().count(e) > 0);
    assert(sorted.to_multiset().count(e) > 0);
    assert(sorted.contains(e));
    let at = choose|at: int| 0 <= at < sorted.len() && sorted[at] == e;
    lemma_coalescer_correct(sorted);
    let ranges = ranges_of(addresses, map);
    assert forall|m: int, k: int|
        0 <= m < ranges.len() && 0 <= k < ranges.len() && holds(#[trigger] ranges[m], e) && holds(
            #[trigger] ranges[k],
            e,
        ) implies m == k by {
        assert(holds(ranges[m], sorted[at]) && holds(ranges[k], sorted[at]));
    }
}

/// Encode addresses into sorted, contiguous house-number ranges.
///
/// An address whose public space the map does not hold is dropped. The
/// others are sorted by postal code, public space, locality and house
/// number, and folded into ranges.
pub fn encode_addresses(addresses: Vec<Address>, public_spaces_map: &PublicSpaceMap) -> (ranges:
    Vec<NumberRange>)
    requires
        public_spaces_map.well_formed(),
        postal_codes_are_canonical(addresses@, public_spaces_map@),
    ensures
        ranges@ == ranges_of(addresses@, public_spaces_map@),
{
    let mut entries: Vec<EncodedEntry> = Vec::new();
    let mut i: usize = 0;
    while i < addresses.len()
        invariant
            i <= addresses@.len(),
            public_spaces_map.well_formed(),
            postal_codes_are_canonical(addresses@, public_spaces_map@),
            entries@ == kept_entries(addresses@, public_spaces_map@, i as int),
        decreases addresses@.len() - i,
    {
        let address = &addresses[i];
        match public_spaces_map.get(address.public_space_id.as_str()) {
            Some((public_space_index, locality_index)) => {
                let postal_code = encode_pc(address.postal_code.as_str().as_bytes());
                entries.push(
                    EncodedEntry {
                        postal_code,
                        house_number: address.house_number,
                        public_space_index,
                        locality_index,
                    },
                );
            },
            None => {},
        }
        i = i + 1;
    }
    let sorted = sort_entries(&entries);
    coalesce_entries(&sorted)
}

} // verus!
