//! Looking an address up: two binary searches for the ranges of the postal
//! code, then a scan of those ranges for the house number.

use crate::database::{Database, NumberRange};
use crate::postal::{encode_pc, is_canonical, lookup_key, normalize_bytes};
use crate::search::{
    bisect, lemma_bisect_partition_point, partition_point_range, partitioned,
};
use crate::view::{
    file_localities, file_public_spaces, file_ranges, name_at_index, DatabaseView,
};
use vstd::prelude::*;
use vstd::string::StringSliceAdditionalSpecFns;

verus! {

/// The predicate of the first search: the range's key is below `key`.
pub open spec fn code_below(ranges: Seq<NumberRange>, key: u32) -> spec_fn(int) -> bool {
    |i: int| ranges[i].postal_code < key
}

/// The predicate of the second search: the range's key is at most `key`.
pub open spec fn code_up_to(ranges: Seq<NumberRange>, key: u32) -> spec_fn(int) -> bool {
    |i: int| ranges[i].postal_code <= key
}

/// Where the ranges of `key` start, as the first search finds it.
pub open spec fn group_start(ranges: Seq<NumberRange>, key: u32) -> int {
    bisect(code_below(ranges, key), 0, ranges.len() as int)
}

/// Where the ranges of `key` end, as the second search finds it.
pub open spec fn group_end(ranges: Seq<NumberRange>, key: u32) -> int {
    bisect(code_up_to(ranges, key), 0, ranges.len() as int)
}

/// The first index in `from..to` whose range holds the house number.
pub open spec fn first_cover(ranges: Seq<NumberRange>, house_number: u32, from: int, to: int)
    -> Option<int>
    decreases to - from,
{
    if from >= to {
        None
    } else if ranges[from].covers(house_number) {
        Some(from)
    } else {
        first_cover(ranges, house_number, from + 1, to)
    }
}

/// The names of a range, where both of its indices lead to a name.
pub open spec fn names_of(
    range: NumberRange,
    public_spaces: Seq<Option<Seq<char>>>,
    localities: Seq<Option<Seq<char>>>,
) -> Option<(Seq<char>, Seq<char>)> {
    match (
        name_at_index(public_spaces, range.public_space_index as int),
        name_at_index(localities, range.locality_index as int),
    ) {
        (Some(public_space), Some(locality)) => Some((public_space, locality)),
        _ => None,
    }
}

/// What a lookup answers: the names of the first range between the two
/// search results that holds the house number. There is no answer where the
/// postal code is malformed, where no such range exists, or where that range
/// points to a name that is missing.
pub open spec fn lookup_in(
    ranges: Seq<NumberRange>,
    public_spaces: Seq<Option<Seq<char>>>,
    localities: Seq<Option<Seq<char>>>,
    typed: Seq<u8>,
    house_number: u32,
) -> Option<(Seq<char>, Seq<char>)> {
    match lookup_key(typed) {
        None => None,
        Some(key) => match first_cover(
            ranges,
            house_number,
            group_start(ranges, key),
            group_end(ranges, key),
        ) {
            None => None,
            Some(i) => names_of(ranges[i], public_spaces, localities),
        },
    }
}

/// Names that are all present.
pub open spec fn present(names: Seq<Seq<char>>) -> Seq<Option<Seq<char>>> {
    Seq::new(names.len(), |i: int| Some(names[i]))
}

/// The ranges are in the order of their postal-code keys.
pub open spec fn sorted_by_code(ranges: Seq<NumberRange>) -> bool {
    forall|i: int, j: int|
        0 <= i <= j < ranges.len() ==> (#[trigger] ranges[i]).postal_code <= (
        #[trigger] ranges[j]).postal_code
}

/// What `first_cover` finds: an index in the interval whose range holds the
/// house number, with no such range before it; or nothing, where no range
/// of the interval holds the number.
pub proof fn lemma_first_cover(ranges: Seq<NumberRange>, house_number: u32, from: int, to: int)
    ensures
        match first_cover(ranges, house_number, from, to) {
            Some(i) => {
                &&& from <= i < to
                &&& ranges[i].covers(house_number)
                &&& forall|j: int| from <= j < i ==> !(#[trigger] ranges[j]).covers(house_number)
            },
            None => forall|j: int| from <= j < to ==> !(#[trigger] ranges[j]).covers(house_number),
        },
    decreases to - from,
{
    if from < to && !ranges[from].covers(house_number) {
        lemma_first_cover(ranges, house_number, from + 1, to);
    }
}

/// Where the ranges are sorted by postal code, the two searches enclose
/// exactly the ranges of the key.
pub proof fn lemma_group_is_exact(ranges: Seq<NumberRange>, key: u32)
    requires
        sorted_by_code(ranges),
    ensures
        0 <= group_start(ranges, key) <= group_end(ranges, key) <= ranges.len(),
        forall|i: int|
            0 <= i < ranges.len() ==> ((#[trigger] ranges[i]).postal_code == key <==> group_start(
                ranges,
                key,
            ) <= i < group_end(ranges, key)),
{
    let below = code_below(ranges, key);
    let up_to = code_up_to(ranges, key);
    let n = ranges.len() as int;
    assert(partitioned(below, n)) by {
        assert forall|i: int, j: int| 0 <= i <= j < n && #[trigger] below(j) implies #[trigger] below(
            i,
        ) by {
            assert(ranges[i].postal_code <= ranges[j].postal_code);
        }
    }
    assert(partitioned(up_to, n)) by {
        assert forall|i: int, j: int| 0 <= i <= j < n && #[trigger] up_to(j) implies #[trigger] up_to(
            i,
        ) by {
            assert(ranges[i].postal_code <= ranges[j].postal_code);
        }
    }
    lemma_bisect_partition_point(below, n);
    lemma_bisect_partition_point(up_to, n);
    let s = group_start(ranges, key);
    let e = group_end(ranges, key);
    if e < s {
        assert(below(e));
        assert(!up_to(e));
    }
    assert forall|i: int| 0 <= i < n implies ((#[trigger] ranges[i]).postal_code == key <==> s <= i
        < e) by {
        if i < s {
            assert(below(i));
        } else {
            assert(!below(i));
        }
        if i < e {
            assert(up_to(i));
        } else {
            assert(!up_to(i));
        }
    }
}

/// On a database sorted by postal code a lookup answers with the first
/// range, in the order of the file, that has the postal code and holds the
/// house number.
pub proof fn lemma_lookup_finds_first_match(
    ranges: Seq<NumberRange>,
    public_spaces: Seq<Option<Seq<char>>>,
    localities: Seq<Option<Seq<char>>>,
    typed: Seq<u8>,
    house_number: u32,
    i: int,
)
    requires
        sorted_by_code(ranges),
        lookup_key(typed) is Some,
        0 <= i < ranges.len(),
        ranges[i].postal_code == lookup_key(typed)->0,
        ranges[i].covers(house_number),
        forall|j: int|
            0 <= j < i ==> !((#[trigger] ranges[j]).postal_code == lookup_key(typed)->0
                && ranges[j].covers(house_number)),
    ensures
        lookup_in(ranges, public_spaces, localities, typed, house_number) == names_of(
            ranges[i],
            public_spaces,
            localities,
        ),
{
    let key = lookup_key(typed)->0;
    lemma_group_is_exact(ranges, key);
    let s = group_start(ranges, key);
    let e = group_end(ranges, key);
    lemma_first_cover(ranges, house_number, s, e);
    match first_cover(ranges, house_number, s, e) {
        Some(k) => {
            assert(ranges[k].postal_code == key);
            if k < i {
                assert(!(ranges[k].postal_code == key && ranges[k].covers(house_number)));
            }
        },
        None => {
            assert(!ranges[i].covers(house_number));
        },
    }
}

/// On a database sorted by postal code a lookup has no answer where no
/// range has the postal code and holds the house number.
pub proof fn lemma_lookup_misses_without_match(
    ranges: Seq<NumberRange>,
    public_spaces: Seq<Option<Seq<char>>>,
    localities: Seq<Option<Seq<char>>>,
    typed: Seq<u8>,
    house_number: u32,
)
    requires
        sorted_by_code(ranges),
        lookup_key(typed) matches Some(key) ==> forall|j: int|
            0 <= j < ranges.len() ==> !((#[trigger] ranges[j]).postal_code == key
                && ranges[j].covers(house_number)),
    ensures
        lookup_in(ranges, public_spaces, localities, typed, house_number) is None,
{
    if let Some(key) = lookup_key(typed) {
        lemma_group_is_exact(ranges, key);
        let s = group_start(ranges, key);
        let e = group_end(ranges, key);
        lemma_first_cover(ranges, house_number, s, e);
        if let Some(k) = first_cover(ranges, house_number, s, e) {
            assert(ranges[k].postal_code == key);
        }
    }
}

/// The key to search for, where the typed postal code is well-formed.
fn search_key(postalcode: &[u8]) -> (key: Option<u32>)
    ensures
        key == lookup_key(postalcode@),
{
    let normalized = match normalize_bytes(postalcode) {
        Some(normalized) => normalized,
        None => { return None; },
    };
    if !is_canonical(normalized.as_slice()) {
        return None;
    }
    Some(encode_pc(normalized.as_slice()))
}

impl Database {
    /// Look an address up by postal code and house number.
    pub fn lookup(&self, postalcode: &str, house_number: u32) -> (found: Option<(&str, &str)>)
        ensures
            match found {
                Some((public_space, locality)) => lookup_in(
                    self@.ranges,
                    present(self@.public_spaces),
                    present(self@.localities),
                    postalcode.spec_bytes(),
                    house_number,
                ) == Some((public_space@, locality@)),
                None => lookup_in(
                    self@.ranges,
                    present(self@.public_spaces),
                    present(self@.localities),
                    postalcode.spec_bytes(),
                    house_number,
                ) is None,
            },
    {
        self.lookup_bytes(postalcode.as_bytes(), house_number)
    }

    /// Look an address up by the bytes of a postal code and a house
    /// number.
    pub fn lookup_bytes(&self, postalcode: &[u8], house_number: u32) -> (found: Option<
        (&str, &str),
    >)
        ensures
            match found {
                Some((public_space, locality)) => lookup_in(
                    self@.ranges,
                    present(self@.public_spaces),
                    present(self@.localities),
                    postalcode@,
                    house_number,
                ) == Some((public_space@, locality@)),
                None => lookup_in(
                    self@.ranges,
                    present(self@.public_spaces),
                    present(self@.localities),
                    postalcode@,
                    house_number,
                ) is None,
            },
    {
        let key = match search_key(postalcode) {
            Some(key) => key,
            None => { return None; },
        };
        let ranges = &self.ranges;
        let count = ranges.len();
        let below = |idx: usize| -> (b: bool)
            requires
                idx < ranges@.len(),
            ensures
                b == (ranges@[idx as int].postal_code < key),
            { ranges[idx].postal_code < key };
        let up_to = |idx: usize| -> (b: bool)
            requires
                idx < ranges@.len(),
            ensures
                b == (ranges@[idx as int].postal_code <= key),
            { ranges[idx].postal_code <= key };
        let start = partition_point_range(count, &below);
        let end = partition_point_range(count, &up_to);
        assert(start == group_start(ranges@, key) && end == group_end(ranges@, key)) by {
            assert(crate::search::decides(below, code_below(ranges@, key), count as int));
            assert(crate::search::decides(up_to, code_up_to(ranges@, key), count as int));
        }
        let mut index = start;
        while index < end
            invariant
                end <= count == ranges@.len(),
                ranges == &self.ranges,
                lookup_key(postalcode@) == Some(key),
                start == group_start(ranges@, key),
                end == group_end(ranges@, key),
                first_cover(ranges@, house_number, index as int, end as int) == first_cover(
                    ranges@,
                    house_number,
                    start as int,
                    end as int,
                ),
            decreases end - index,
        {
            let range = &ranges[index];
            let range_end = range.start.saturating_add(range.length as u32);
            if house_number >= range.start && house_number <= range_end {
                let public_space = self.public_space_name(range.public_space_index);
                let locality = self.locality_name(range.locality_index);
                return match (public_space, locality) {
                    (Some(public_space), Some(locality)) => Some((public_space, locality)),
                    _ => None,
                };
            }
            index = index + 1;
        }
        None
    }
}

impl<'a> DatabaseView<'a> {
    /// Look an address up by postal code and house number.
    pub fn lookup(&self, postalcode: &str, house_number: u32) -> (found: Option<(&'a str, &'a str)>)
        ensures
            match found {
                Some((public_space, locality)) => lookup_in(
                    file_ranges(self@),
                    file_public_spaces(self@),
                    file_localities(self@),
                    postalcode.spec_bytes(),
                    house_number,
                ) == Some((public_space@, locality@)),
                None => lookup_in(
                    file_ranges(self@),
                    file_public_spaces(self@),
                    file_localities(self@),
                    postalcode.spec_bytes(),
                    house_number,
                ) is None,
            },
    {
        self.lookup_bytes(postalcode.as_bytes(), house_number)
    }

    /// Look an address up by the bytes of a postal code and a house
    /// number.
    pub fn lookup_bytes(&self, postalcode: &[u8], house_number: u32) -> (found: Option<
        (&'a str, &'a str),
    >)
        ensures
            match found {
                Some((public_space, locality)) => lookup_in(
                    file_ranges(self@),
                    file_public_spaces(self@),
                    file_localities(self@),
                    postalcode@,
                    house_number,
                ) == Some((public_space@, locality@)),
                None => lookup_in(
                    file_ranges(self@),
                    file_public_spaces(self@),
                    file_localities(self@),
                    postalcode@,
                    house_number,
                ) is None,
            },
    {
        let key = match search_key(postalcode) {
            Some(key) => key,
            None => { return None; },
        };
        let count = self.range_count() as usize;
        let below = |idx: usize| -> (b: bool)
            requires
                idx < file_ranges(self@).len(),
            ensures
                b == (file_ranges(self@)[idx as int].postal_code < key),
            {
                match self.range_postal_code(idx) {
                    Some(code) => code < key,
                    None => true,
                }
            };
        let up_to = |idx: usize| -> (b: bool)
            requires
                idx < file_ranges(self@).len(),
            ensures
                b == (file_ranges(self@)[idx as int].postal_code <= key),
            {
                match self.range_postal_code(idx) {
                    Some(code) => code <= key,
                    None => true,
                }
            };
        let start = partition_point_range(count, &below);
        let end = partition_point_range(count, &up_to);
        let ghost ranges = file_ranges(self@);
        assert(start == group_start(ranges, key) && end == group_end(ranges, key)) by {
            assert(crate::search::decides(below, code_below(ranges, key), count as int));
            assert(crate::search::decides(up_to, code_up_to(ranges, key), count as int));
        }
        let mut index = start;
        while index < end
            invariant
                end <= count == ranges.len(),
                ranges == file_ranges(self@),
                lookup_key(postalcode@) == Some(key),
                start == group_start(ranges, key),
                end == group_end(ranges, key),
                first_cover(ranges, house_number, index as int, end as int) == first_cover(
                    ranges,
                    house_number,
                    start as int,
                    end as int,
                ),
            decreases end - index,
        {
            let range = match self.range_at(index) {
                Some(range) => range,
                None => { return None; },
            };
            let range_end = range.start.saturating_add(range.length as u32);
            if house_number >= range.start && house_number <= range_end {
                let public_space = self.public_space_name(range.public_space_index);
                let locality = self.locality_name(range.locality_index);
                return match (public_space, locality) {
                    (Some(public_space), Some(locality)) => Some((public_space, locality)),
                    _ => None,
                };
            }
            index = index + 1;
        }
        None
    }
}

} // verus!
