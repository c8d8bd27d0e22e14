use bag_address_lookup::{
    encode_addresses, encode_pc, index_localities, index_public_spaces, Address, BuildError,
    Locality, LocalityMap, NumberRange, PublicSpace, PublicSpaceMap,
};
use std::collections::HashMap;

fn locality_map_fixture() -> LocalityMap {
    let localities = vec![
        Locality { id: 10, name: "Beta".to_string() },
        Locality { id: 11, name: "Alpha".to_string() },
        Locality { id: 12, name: "Alpha".to_string() },
    ];

    index_localities(localities).expect("locality map fixture")
}

fn address(id: &str, house_number: u32, postal_code: &str, public_space_id: &str) -> Address {
    Address {
        id: id.to_string(),
        house_number,
        house_letter: None,
        house_number_addition: None,
        postal_code: postal_code.to_string(),
        public_space_id: public_space_id.to_string(),
    }
}

#[test]
fn index_localities_sorts_and_dedups() {
    let result = locality_map_fixture();

    assert_eq!(result.locality_names, vec!["Alpha", "Beta"]);
    assert_eq!(result.locality_map.get(&10), Some(&1));
    assert_eq!(result.locality_map.get(&11), Some(&0));
    assert_eq!(result.locality_map.get(&12), Some(&0));
}

#[test]
fn index_localities_rejects_overflow() {
    let localities = (0..=65536u32)
        .map(|id| Locality { id: (id % 65536) as u16, name: format!("L{id}") })
        .collect();

    let result = index_localities(localities);

    assert!(result.is_err());
}

#[test]
fn index_localities_accepts_a_full_index() {
    let localities = (0..=u16::MAX).map(|id| Locality { id, name: format!("L{id}") }).collect();

    let result = index_localities(localities).expect("65 536 names have 16-bit indices");

    assert_eq!(result.locality_names.len(), 65536);
    assert_eq!(result.locality_names[0], "L0");
    assert_eq!(result.locality_names[65535], "L9999");
    assert_eq!(result.locality_map.get(&9999), Some(&65535));
}

#[test]
fn index_localities_last_record_of_a_number_counts() {
    let localities = vec![
        Locality { id: 1, name: "Old".to_string() },
        Locality { id: 1, name: "New".to_string() },
    ];

    let result = index_localities(localities).expect("two names");

    assert_eq!(result.locality_names, vec!["New", "Old"]);
    assert_eq!(result.locality_map.get(&1), Some(&0));
    assert_eq!(result.locality_map.len(), 1);
}

#[test]
fn index_localities_sorts_by_bytes() {
    let localities = vec![
        Locality { id: 1, name: "b".to_string() },
        Locality { id: 2, name: "B".to_string() },
        Locality { id: 3, name: "ab".to_string() },
        Locality { id: 4, name: "a".to_string() },
        Locality { id: 5, name: "\u{e9}".to_string() },
    ];

    let result = index_localities(localities).expect("five names");

    assert_eq!(result.locality_names, vec!["B", "a", "ab", "b", "\u{e9}"]);
    assert_eq!(result.locality_map.get(&5), Some(&4));
}

#[test]
fn index_public_spaces_indexes_names_and_localities() {
    let LocalityMap { locality_map, .. } = locality_map_fixture();
    let public_spaces = vec![
        PublicSpace { id: "ps-2".to_string(), name: "Spoorstraat".to_string(), locality_id: 10 },
        PublicSpace { id: "ps-1".to_string(), name: "Hoofdweg".to_string(), locality_id: 11 },
        PublicSpace { id: "ps-3".to_string(), name: "Spoorstraat".to_string(), locality_id: 12 },
    ];

    let (names, map) =
        index_public_spaces(public_spaces, locality_map).expect("every locality is known");

    assert_eq!(names, vec!["Hoofdweg", "Spoorstraat"]);
    assert_eq!(map.get("ps-1"), Some((0, 0)));
    assert_eq!(map.get("ps-2"), Some((1, 1)));
    assert_eq!(map.get("ps-3"), Some((1, 0)));
}

#[test]
fn index_public_spaces_refuses_an_unknown_locality() {
    let locality_map: HashMap<u16, u16> = HashMap::new();
    let public_spaces =
        vec![PublicSpace { id: "ps-1".to_string(), name: "Hoofdweg".to_string(), locality_id: 7 }];

    let result = index_public_spaces(public_spaces, locality_map);

    assert!(matches!(result, Err(BuildError::UnknownLocality)));
}

#[test]
fn public_space_map_overrides_and_finds() {
    let mut map = PublicSpaceMap::new();
    assert_eq!(map.len(), 0);
    map.insert("b".to_string(), (2, 2));
    map.insert("a".to_string(), (1, 1));
    map.insert("c".to_string(), (3, 3));
    map.insert("b".to_string(), (9, 9));
    assert_eq!(map.len(), 3);
    assert_eq!(map.get("a"), Some((1, 1)));
    assert_eq!(map.get("b"), Some((9, 9)));
    assert_eq!(map.get("c"), Some((3, 3)));
    assert_eq!(map.get("d"), None);
    assert_eq!(map.get(""), None);
}

#[test]
fn encode_addresses_groups_and_sorts_ranges() {
    let mut public_spaces_map = PublicSpaceMap::new();
    public_spaces_map.insert("ps-1".to_string(), (0, 0));
    public_spaces_map.insert("ps-2".to_string(), (1, 0));

    let addresses = vec![
        address("a-1", 2, "1234AB", "ps-1"),
        address("a-2", 1, "1234AB", "ps-1"),
        address("a-3", 2, "1234AB", "ps-1"),
        address("a-4", 4, "1234AB", "ps-1"),
        address("a-5", 1, "1234AB", "ps-2"),
        address("a-6", 3, "1234AC", "ps-1"),
        address("a-7", 9, "1234AB", "missing"),
    ];

    let ranges = encode_addresses(addresses, &public_spaces_map);

    let pc_ab = encode_pc(b"1234AB");
    let pc_ac = encode_pc(b"1234AC");
    let expected = [
        NumberRange {
            postal_code: pc_ab,
            start: 1,
            length: 1,
            public_space_index: 0,
            locality_index: 0,
        },
        NumberRange {
            postal_code: pc_ab,
            start: 4,
            length: 0,
            public_space_index: 0,
            locality_index: 0,
        },
        NumberRange {
            postal_code: pc_ab,
            start: 1,
            length: 0,
            public_space_index: 1,
            locality_index: 0,
        },
        NumberRange {
            postal_code: pc_ac,
            start: 3,
            length: 0,
            public_space_index: 0,
            locality_index: 0,
        },
    ];

    assert_eq!(ranges.len(), expected.len());
    for (actual, expected) in ranges.iter().zip(expected.iter()) {
        assert_eq!(actual.postal_code, expected.postal_code);
        assert_eq!(actual.start, expected.start);
        assert_eq!(actual.length, expected.length);
        assert_eq!(actual.public_space_index, expected.public_space_index);
        assert_eq!(actual.locality_index, expected.locality_index);
    }
}

#[test]
fn encode_addresses_of_nothing_is_nothing() {
    let map = PublicSpaceMap::new();
    assert!(encode_addresses(Vec::new(), &map).is_empty());
}

#[test]
fn encode_addresses_starts_a_new_range_at_the_greatest_length() {
    let mut map = PublicSpaceMap::new();
    map.insert("ps".to_string(), (0, 0));
    let addresses: Vec<Address> =
        (0..=65537u32).rev().map(|n| address("a", n, "1234AB", "ps")).collect();

    let ranges = encode_addresses(addresses, &map);

    assert_eq!(ranges.len(), 2);
    assert_eq!((ranges[0].start, ranges[0].length), (0, 65535));
    assert_eq!((ranges[1].start, ranges[1].length), (65536, 1));
}

#[test]
fn encode_addresses_reaches_the_greatest_house_number() {
    let mut map = PublicSpaceMap::new();
    map.insert("ps".to_string(), (3, 2));
    let addresses = vec![
        address("a", u32::MAX, "9999ZZ", "ps"),
        address("b", u32::MAX - 1, "9999ZZ", "ps"),
        address("c", u32::MAX, "9999ZZ", "ps"),
        address("d", u32::MAX - 3, "9999ZZ", "ps"),
    ];

    let ranges = encode_addresses(addresses, &map);

    assert_eq!(ranges.len(), 2);
    assert_eq!((ranges[0].start, ranges[0].length), (u32::MAX - 3, 0));
    assert_eq!((ranges[1].start, ranges[1].length), (u32::MAX - 1, 1));
    assert_eq!(ranges[1].public_space_index, 3);
    assert_eq!(ranges[1].locality_index, 2);
}

#[test]
fn every_address_lies_in_exactly_one_range_of_its_group() {
    let mut map = PublicSpaceMap::new();
    map.insert("x".to_string(), (0, 0));
    map.insert("y".to_string(), (1, 0));
    let numbers = [7u32, 3, 4, 5, 9, 10, 3, 20, 1, 2, 8];
    let mut addresses = Vec::new();
    for (i, n) in numbers.iter().enumerate() {
        let public_space = if i % 2 == 0 { "x" } else { "y" };
        let code = if i % 3 == 0 { "1000AA" } else { "1000AB" };
        addresses.push(address("a", *n, code, public_space));
    }
    let probes: Vec<(u32, u32, u32)> = numbers
        .iter()
        .enumerate()
        .map(|(i, n)| {
            let code: &[u8] = if i % 3 == 0 { b"1000AA" } else { b"1000AB" };
            (encode_pc(code), if i % 2 == 0 { 0 } else { 1 }, *n)
        })
        .collect();

    let ranges = encode_addresses(addresses, &map);

    for (code, public_space, number) in probes {
        let holding = ranges
            .iter()
            .filter(|r| {
                r.postal_code == code
                    && r.public_space_index == public_space
                    && r.start <= number
                    && number <= r.start + r.length as u32
            })
            .count();
        assert_eq!(holding, 1);
    }
    for pair in ranges.windows(2) {
        let a = (pair[0].postal_code, pair[0].public_space_index, pair[0].locality_index);
        let b = (pair[1].postal_code, pair[1].public_space_index, pair[1].locality_index);
        assert!(a < b || (a == b && pair[0].start + pair[0].length as u32 + 1 < pair[1].start));
    }
}
