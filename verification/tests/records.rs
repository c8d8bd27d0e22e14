use bag_address_lookup::order::{bytes_eq, bytes_lt};
use bag_address_lookup::search::partition_point_range;
use bag_address_lookup::wire::{read_u16_bytes, read_u32_bytes};
use bag_address_lookup::{
    Address, BuildError, Database, DatabaseView, Locality, ParsedData, PublicSpace,
};

fn address(house_number: u32, postal_code: &str, public_space_id: &str) -> Address {
    Address {
        id: "a".to_string(),
        house_number,
        house_letter: None,
        house_number_addition: None,
        postal_code: postal_code.to_string(),
        public_space_id: public_space_id.to_string(),
    }
}

fn seed_records() -> ParsedData {
    ParsedData {
        addresses: vec![
            address(56, "1234AB", "ps-1"),
            address(1, "1234AB", "ps-2"),
            address(3, "1234AB", "nowhere"),
        ],
        public_spaces: vec![
            PublicSpace {
                id: "ps-1".to_string(),
                name: "Abel Eppensstraat".to_string(),
                locality_id: 1,
            },
            PublicSpace { id: "ps-2".to_string(), name: "Adamistraat".to_string(), locality_id: 2 },
        ],
        localities: vec![
            Locality { id: 2, name: "Huijbergen".to_string() },
            Locality { id: 1, name: "Hoogerheide".to_string() },
        ],
    }
}

#[test]
fn records_become_a_database_that_answers() {
    let db = Database::from_parsed_data(seed_records()).expect("the records are consistent");
    assert_eq!(db.localities, vec!["Hoogerheide", "Huijbergen"]);
    assert_eq!(db.public_spaces, vec!["Abel Eppensstraat", "Adamistraat"]);
    assert_eq!(db.ranges.len(), 2);
    assert_eq!(db.lookup("1234AB", 56), Some(("Abel Eppensstraat", "Hoogerheide")));
    assert_eq!(db.lookup("1234AB", 1), Some(("Adamistraat", "Huijbergen")));
    assert_eq!(db.lookup("1234AB", 3), None);
    let file = db.encode().expect("a small database fits");
    let view = DatabaseView::from_bytes(&file).expect("the file is sound");
    assert_eq!(view.lookup("1234ab", 56), Some(("Abel Eppensstraat", "Hoogerheide")));
}

#[test]
fn records_with_an_unknown_locality_are_refused() {
    let mut data = seed_records();
    data.public_spaces[1].locality_id = 9;
    assert!(matches!(Database::from_parsed_data(data), Err(BuildError::UnknownLocality)));
}

#[test]
fn no_records_make_an_empty_database() {
    let db = Database::from_parsed_data(ParsedData::new()).expect("nothing to refuse");
    assert!(db.is_empty());
    assert!(db.localities.is_empty());
    assert!(db.public_spaces.is_empty());
}

#[test]
fn build_errors_have_their_messages() {
    assert_eq!(BuildError::TooManyLocalities.message(), "too many localities for u16 index");
    assert_eq!(BuildError::UnknownLocality.message(), "locality of a public space not found");
    assert_eq!(BuildError::CountOverflow.message(), "count overflow");
    assert_eq!(BuildError::OffsetOverflow.message(), "offset overflow");
    assert_eq!(BuildError::CompressionFailed.message(), "compression failed");
}

#[test]
fn the_partition_point_is_where_the_predicate_turns() {
    let values = [1u32, 3, 3, 5, 8, 8, 8, 13];
    for key in 0..15u32 {
        let below = partition_point_range(values.len(), &|i: usize| values[i] < key);
        let up_to = partition_point_range(values.len(), &|i: usize| values[i] <= key);
        assert_eq!(below, values.iter().filter(|v| **v < key).count());
        assert_eq!(up_to, values.iter().filter(|v| **v <= key).count());
    }
    assert_eq!(partition_point_range(0, &|_i: usize| true), 0);
    assert_eq!(partition_point_range(5, &|_i: usize| true), 5);
    assert_eq!(partition_point_range(5, &|_i: usize| false), 0);
}

#[test]
fn bytes_are_ordered_as_in_a_dictionary() {
    assert!(bytes_lt(b"", b"a"));
    assert!(bytes_lt(b"a", b"ab"));
    assert!(bytes_lt(b"ab", b"b"));
    assert!(bytes_lt(b"B", b"a"));
    assert!(!bytes_lt(b"a", b"a"));
    assert!(!bytes_lt(b"b", b"ab"));
    assert!(!bytes_lt(b"", b""));
    assert!(bytes_eq(b"abc", b"abc"));
    assert!(!bytes_eq(b"abc", b"abd"));
    assert!(!bytes_eq(b"abc", b"ab"));
}

#[test]
fn integers_are_read_little_endian() {
    let bytes = [0x78u8, 0x56, 0x34, 0x12, 0xff];
    assert_eq!(read_u32_bytes(&bytes, 0), Some(0x1234_5678));
    assert_eq!(read_u32_bytes(&bytes, 1), Some(0xff12_3456));
    assert_eq!(read_u32_bytes(&bytes, 2), None);
    assert_eq!(read_u32_bytes(&bytes, usize::MAX), None);
    assert_eq!(read_u16_bytes(&bytes, 3), Some(0xff12));
    assert_eq!(read_u16_bytes(&bytes, 4), None);
}

#[test]
fn addresses_are_checked_before_a_build() {
    assert!(seed_records().check_addresses());
    assert!(ParsedData::new().check_addresses());

    let mut lower = seed_records();
    lower.addresses[0].postal_code = "1234ab".to_string();
    assert!(!lower.check_addresses());

    let mut short = seed_records();
    short.addresses[1].postal_code = "1234".to_string();
    assert!(!short.check_addresses());

    let mut dropped = seed_records();
    dropped.addresses[2].postal_code = "nonsense".to_string();
    assert!(dropped.check_addresses());
    let db = Database::from_parsed_data(dropped).expect("the records are consistent");
    assert_eq!(db.ranges.len(), 2);
}
