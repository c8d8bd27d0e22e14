use bag_address_lookup::layout::Header;
use bag_address_lookup::{
    encode_pc, BuildError, Database, DatabaseError, DatabaseHandle, DatabaseView, NumberRange,
};

fn seed_database() -> Database {
    Database {
        localities: vec!["Hoogerheide".to_string(), "Huijbergen".to_string()],
        public_spaces: vec!["Abel Eppensstraat".to_string(), "Adamistraat".to_string()],
        ranges: vec![
            NumberRange {
                postal_code: encode_pc(b"1234AB"),
                start: 56,
                length: 0,
                public_space_index: 0,
                locality_index: 0,
            },
            NumberRange {
                postal_code: encode_pc(b"1234AB"),
                start: 1,
                length: 0,
                public_space_index: 1,
                locality_index: 1,
            },
        ],
    }
}

fn seed_file() -> Vec<u8> {
    seed_database().encode().expect("a small database fits")
}

fn names_of(handle: &DatabaseHandle) -> Vec<String> {
    let mut walk = handle.localities();
    let mut names = Vec::new();
    while let Some(name) = walk.next() {
        names.push(name.to_string());
    }
    assert_eq!(walk.next(), None);
    names
}

fn put(bytes: &mut [u8], at: usize, value: u32) {
    bytes[at..at + 4].copy_from_slice(&value.to_le_bytes());
}

fn view_error(bytes: &[u8]) -> DatabaseError {
    match DatabaseView::from_bytes(bytes) {
        Ok(_) => panic!("the file was accepted"),
        Err(e) => e,
    }
}

fn owned_error(bytes: &[u8]) -> DatabaseError {
    match Database::from_reader(bytes) {
        Ok(_) => panic!("the file was accepted"),
        Err(e) => e,
    }
}

#[test]
fn owned_lookup_answers_the_seed_scenarios() {
    let db = seed_database();
    assert_eq!(db.lookup("1234AB", 56), Some(("Abel Eppensstraat", "Hoogerheide")));
    assert_eq!(db.lookup("1234AB", 1), Some(("Adamistraat", "Huijbergen")));
    assert_eq!(db.lookup("9999ZZ", 1), None);
    assert_eq!(db.lookup("1234ab", 56), Some(("Abel Eppensstraat", "Hoogerheide")));
    assert_eq!(db.lookup("12345", 1), None);
    assert_eq!(db.lookup("1234AB", 2), None);
}

#[test]
fn view_lookup_answers_the_seed_scenarios() {
    let file = seed_file();
    let view = DatabaseView::from_bytes(&file).expect("the file is sound");
    assert_eq!(view.lookup("1234AB", 56), Some(("Abel Eppensstraat", "Hoogerheide")));
    assert_eq!(view.lookup("1234AB", 1), Some(("Adamistraat", "Huijbergen")));
    assert_eq!(view.lookup("9999ZZ", 1), None);
    assert_eq!(view.lookup("1234ab", 56), Some(("Abel Eppensstraat", "Hoogerheide")));
    assert_eq!(view.lookup("12345", 1), None);
    assert!(!view.is_empty());
    assert_eq!(view.range_count(), 2);
    assert_eq!(view.locality_count(), 2);
}

#[test]
fn lookup_refuses_malformed_postal_codes() {
    let db = seed_database();
    for typed in ["", "1234A", "1234ABC", " 234AB", "12A4AB", "123456", "1234A1", "1234\u{e9}"] {
        assert_eq!(db.lookup(typed, 56), None);
    }
}

#[test]
fn both_readers_answer_alike() {
    let file = seed_file();
    let view = DatabaseView::from_bytes(&file).expect("the file is sound");
    let db = Database::from_reader(&file).expect("the file is sound");
    for typed in ["1234AB", "1234ab", "1234AC", "0000AA", "9999ZZ", "bad", "1234Ab"] {
        for number in [0u32, 1, 2, 55, 56, 57, u32::MAX] {
            assert_eq!(view.lookup(typed, number), db.lookup(typed, number));
        }
    }
}

#[test]
fn a_database_survives_the_round_trip() {
    let db = seed_database();
    let back = Database::from_reader(&seed_file()).expect("the file is sound");
    assert_eq!(back.localities, db.localities);
    assert_eq!(back.public_spaces, db.public_spaces);
    assert_eq!(back.ranges, db.ranges);
}

#[test]
fn an_empty_database_survives_the_round_trip() {
    let db = Database { localities: vec![], public_spaces: vec![], ranges: vec![] };
    let file = db.encode().expect("an empty database fits");
    assert_eq!(file.len(), 44);
    let back = Database::from_reader(&file).expect("the file is sound");
    assert!(back.is_empty());
    assert!(back.localities.is_empty());
    assert!(DatabaseView::from_bytes(&file).expect("the file is sound").is_empty());
}

#[test]
fn the_file_has_the_documented_layout() {
    let db = Database {
        localities: vec!["Ab".to_string(), "C".to_string()],
        public_spaces: vec!["\u{e9}".to_string()],
        ranges: vec![NumberRange {
            postal_code: 0x0102_0304,
            start: 7,
            length: 0x0a0b,
            public_space_index: 0,
            locality_index: 1,
        }],
    };
    let file = db.encode().expect("a small database fits");
    let mut expected: Vec<u8> = Vec::new();
    expected.extend_from_slice(b"BAG1");
    for field in [2u32, 1, 1, 36, 48, 51, 59, 61] {
        expected.extend_from_slice(&field.to_le_bytes());
    }
    for offset in [0u32, 2, 3] {
        expected.extend_from_slice(&offset.to_le_bytes());
    }
    expected.extend_from_slice(b"AbC");
    for offset in [0u32, 2] {
        expected.extend_from_slice(&offset.to_le_bytes());
    }
    expected.extend_from_slice(&[0xc3, 0xa9]);
    expected.extend_from_slice(&[4, 3, 2, 1, 7, 0, 0, 0, 0x0b, 0x0a, 0, 0, 0, 0, 1, 0]);
    assert_eq!(file, expected);
    assert_eq!(file.len(), 61 + 16);
}

#[test]
fn write_database_appends_to_what_is_there() {
    let db = seed_database();
    let mut out = vec![9u8, 9];
    db.write_database(&mut out, 2, 2, 2).expect("a small database fits");
    assert_eq!(&out[..2], &[9, 9]);
    assert_eq!(&out[2..], &seed_file()[..]);
}

#[test]
fn the_header_is_read_field_by_field() {
    let file = seed_file();
    let header = match Header::from_bytes(&file) {
        Ok(header) => header,
        Err(_) => panic!("the header is sound"),
    };
    assert_eq!(header.locality_count, 2);
    assert_eq!(header.public_space_count, 2);
    assert_eq!(header.range_count, 2);
    assert_eq!(header.locality_offsets_offset, 36);
    assert_eq!(header.locality_data_offset, 48);
    assert_eq!(header.public_space_offsets_offset, 48 + 21);
    assert_eq!(header.public_space_data_offset, 48 + 21 + 12);
    assert_eq!(header.ranges_offset, 48 + 21 + 12 + 28);
    assert_eq!(header.ranges_offset + 32, file.len());
    assert_eq!(header.locality_offsets_len().ok(), Some(12));
    assert_eq!(header.expected_locality_data_offset().ok(), Some(48));
    assert_eq!(header.expected_public_space_offsets_offset(21).ok(), Some(69));
    assert_eq!(header.expected_public_space_data_offset().ok(), Some(81));
    assert_eq!(header.expected_ranges_offset(28).ok(), Some(109));
}

#[test]
fn a_short_file_is_too_short() {
    let file = seed_file();
    assert_eq!(view_error(&file[..35]), DatabaseError::TooShort);
    assert_eq!(owned_error(&file[..35]), DatabaseError::TooShort);
    assert_eq!(view_error(&[]), DatabaseError::TooShort);
    assert_eq!(owned_error(b"BAG1"), DatabaseError::TooShort);
}

#[test]
fn a_wrong_magic_is_refused() {
    let mut file = seed_file();
    file[3] = b'2';
    assert_eq!(view_error(&file), DatabaseError::InvalidMagic);
    assert_eq!(owned_error(&file), DatabaseError::InvalidMagic);
}

#[test]
fn the_first_table_must_follow_the_header() {
    let mut file = seed_file();
    put(&mut file, 16, 40);
    assert_eq!(view_error(&file), DatabaseError::InvalidLayout);
    assert_eq!(owned_error(&file), DatabaseError::InvalidLayout);
}

#[test]
fn every_section_offset_is_checked() {
    for at in [20usize, 24, 28, 32] {
        let mut file = seed_file();
        let value = u32::from_le_bytes([file[at], file[at + 1], file[at + 2], file[at + 3]]);
        put(&mut file, at, value + 1);
        assert_eq!(view_error(&file), DatabaseError::InvalidLayout);
        assert_eq!(owned_error(&file), DatabaseError::InvalidLayout);
    }
}

#[test]
fn an_offsets_table_must_start_at_zero_and_not_decrease() {
    let mut file = seed_file();
    put(&mut file, 36, 1);
    assert_eq!(view_error(&file), DatabaseError::InvalidLayout);
    assert_eq!(owned_error(&file), DatabaseError::InvalidLayout);

    let mut file = seed_file();
    put(&mut file, 40, 30);
    assert_eq!(view_error(&file), DatabaseError::InvalidLayout);
    assert_eq!(owned_error(&file), DatabaseError::InvalidLayout);
}

#[test]
fn a_cut_file_is_a_layout_error_in_place_and_too_short_when_decoded() {
    let file = seed_file();
    let cut = &file[..file.len() - 1];
    assert_eq!(view_error(cut), DatabaseError::InvalidLayout);
    assert_eq!(owned_error(cut), DatabaseError::TooShort);
    let cut = &file[..40];
    assert_eq!(view_error(cut), DatabaseError::InvalidLayout);
    assert_eq!(owned_error(cut), DatabaseError::TooShort);
}

#[test]
fn bytes_behind_the_ranges_are_ignored() {
    let mut file = seed_file();
    file.extend_from_slice(&[1, 2, 3]);
    let view = DatabaseView::from_bytes(&file).expect("the file is sound");
    assert_eq!(view.lookup("1234AB", 1), Some(("Adamistraat", "Huijbergen")));
    assert_eq!(view.range_postal_code(1), Some(encode_pc(b"1234AB")));
    assert_eq!(view.range_postal_code(2), None);
    assert!(view.range_at(2).is_none());
    assert!(Database::from_reader(&file).is_ok());
}

#[test]
fn names_without_bytes_are_refused() {
    let db = Database { localities: vec!["".to_string()], public_spaces: vec![], ranges: vec![] };
    let file = db.encode().expect("a small database fits");
    assert_eq!(view_error(&file), DatabaseError::InvalidLayout);
    assert_eq!(owned_error(&file), DatabaseError::InvalidLayout);
}

#[test]
fn a_name_that_is_no_text_fails_the_decoder_and_hides_from_the_view() {
    let mut file = seed_file();
    file[48] = 0xff;
    assert_eq!(owned_error(&file), DatabaseError::InvalidLayout);
    let view = DatabaseView::from_bytes(&file).expect("the layout is sound");
    assert_eq!(view.locality_name(0), None);
    assert_eq!(view.locality_name(1), Some("Huijbergen"));
    assert_eq!(view.lookup("1234AB", 56), None);
    assert_eq!(view.lookup("1234AB", 1), Some(("Adamistraat", "Huijbergen")));
    let handle = DatabaseHandle::View(view);
    assert_eq!(names_of(&handle), vec!["Huijbergen"]);
}

#[test]
fn an_index_without_a_name_gives_no_answer() {
    let mut db = seed_database();
    db.ranges[0].public_space_index = 2;
    db.ranges[1].locality_index = 2;
    assert_eq!(db.lookup("1234AB", 56), None);
    assert_eq!(db.lookup("1234AB", 1), None);
    let file = db.encode().expect("a small database fits");
    let view = DatabaseView::from_bytes(&file).expect("the layout is sound");
    assert_eq!(view.lookup("1234AB", 56), None);
    assert_eq!(view.lookup("1234AB", 1), None);
    assert_eq!(view.public_space_name(2), None);
    assert_eq!(view.public_space_name(1), Some("Adamistraat"));
    assert_eq!(db.locality_name(2), None);
    assert_eq!(db.public_space_name(0), Some("Abel Eppensstraat"));
}

#[test]
fn the_first_range_that_holds_the_number_answers() {
    let code = encode_pc(b"2000AA");
    let range = |start: u32, length: u16, public_space_index: u32| NumberRange {
        postal_code: code,
        start,
        length,
        public_space_index,
        locality_index: 0,
    };
    let db = Database {
        localities: vec!["L".to_string()],
        public_spaces: vec!["A".to_string(), "B".to_string(), "C".to_string()],
        ranges: vec![
            NumberRange {
                postal_code: encode_pc(b"1999ZZ"),
                start: 0,
                length: 100,
                public_space_index: 2,
                locality_index: 0,
            },
            range(10, 5, 0),
            range(12, 10, 1),
            NumberRange {
                postal_code: encode_pc(b"2000AB"),
                start: 0,
                length: 100,
                public_space_index: 2,
                locality_index: 0,
            },
        ],
    };
    assert_eq!(db.lookup("2000AA", 9), None);
    assert_eq!(db.lookup("2000AA", 10), Some(("A", "L")));
    assert_eq!(db.lookup("2000AA", 15), Some(("A", "L")));
    assert_eq!(db.lookup("2000AA", 16), Some(("B", "L")));
    assert_eq!(db.lookup("2000AA", 22), Some(("B", "L")));
    assert_eq!(db.lookup("2000AA", 23), None);
    assert_eq!(db.lookup("1999ZZ", 50), Some(("C", "L")));
    assert_eq!(db.lookup("2000AB", 100), Some(("C", "L")));
}

#[test]
fn a_range_stops_at_the_greatest_house_number() {
    let db = Database {
        localities: vec!["L".to_string()],
        public_spaces: vec!["A".to_string()],
        ranges: vec![NumberRange {
            postal_code: encode_pc(b"2000AA"),
            start: u32::MAX - 1,
            length: 5,
            public_space_index: 0,
            locality_index: 0,
        }],
    };
    assert_eq!(db.lookup("2000AA", u32::MAX), Some(("A", "L")));
    assert_eq!(db.lookup("2000AA", u32::MAX - 2), None);
    let file = db.encode().expect("a small database fits");
    let view = DatabaseView::from_bytes(&file).expect("the file is sound");
    assert_eq!(view.lookup("2000AA", u32::MAX), Some(("A", "L")));
    assert_eq!(view.lookup("2000AA", u32::MAX - 1), Some(("A", "L")));
}

#[test]
fn the_handle_serves_both_readers() {
    let file = seed_file();
    let in_place = match DatabaseHandle::load(&file) {
        Ok(handle) => handle,
        Err(_) => panic!("the file is sound"),
    };
    let owned = DatabaseHandle::Decoded(seed_database());
    for handle in [&in_place, &owned] {
        assert!(!handle.is_empty());
        assert_eq!(names_of(handle), vec!["Hoogerheide", "Huijbergen"]);
        assert_eq!(handle.lookup("1234ab", 56), Some(("Abel Eppensstraat", "Hoogerheide")));
        assert_eq!(handle.lookup("9999ZZ", 1), None);
    }
    assert!(matches!(DatabaseHandle::load(&file[..10]), Err(DatabaseError::TooShort)));
    let empty = DatabaseHandle::Decoded(Database {
        localities: vec![],
        public_spaces: vec![],
        ranges: vec![],
    });
    assert!(empty.is_empty());
    assert!(names_of(&empty).is_empty());
}

#[test]
fn the_compressed_file_is_read_back() {
    let db = seed_database();
    let compressed = db.encode_compressed().expect("a small database fits");
    assert_eq!(&compressed[..2], &[0x1f, 0x8b]);
    assert_ne!(compressed, seed_file());
    let back = Database::from_compressed(&compressed).expect("the stream is sound");
    assert_eq!(back.localities, db.localities);
    assert_eq!(back.public_spaces, db.public_spaces);
    assert_eq!(back.ranges, db.ranges);
    let handle = match DatabaseHandle::load_compressed(&compressed) {
        Ok(handle) => handle,
        Err(_) => panic!("the stream is sound"),
    };
    assert_eq!(handle.lookup("1234AB", 1), Some(("Adamistraat", "Huijbergen")));
}

#[test]
fn a_broken_stream_fails_decompression() {
    let plain = seed_file();
    assert!(matches!(Database::from_compressed(&plain), Err(DatabaseError::DecompressionFailed)));
    let compressed = seed_database().encode_compressed().expect("a small database fits");
    let cut = &compressed[..compressed.len() / 2];
    assert!(matches!(Database::from_compressed(cut), Err(DatabaseError::DecompressionFailed)));
    assert!(matches!(Database::from_decompressed(None), Err(DatabaseError::DecompressionFailed)));
    assert!(matches!(
        Database::from_decompressed(Some(plain[..20].to_vec())),
        Err(DatabaseError::TooShort)
    ));
    assert!(Database::from_decompressed(Some(plain)).is_ok());
    assert_eq!(Database::from_compression(Some(vec![1, 2, 3])), Ok(vec![1, 2, 3]));
    assert_eq!(Database::from_compression(None), Err(BuildError::CompressionFailed));
}

#[test]
fn errors_have_their_messages() {
    assert_eq!(DatabaseError::NotFound.message(), "database file not found");
    assert_eq!(DatabaseError::TooShort.message(), "database file too short");
    assert_eq!(DatabaseError::InvalidMagic.message(), "database file has invalid magic");
    assert_eq!(DatabaseError::InvalidLayout.message(), "database file layout invalid");
    assert_eq!(
        DatabaseError::DecompressionFailed.message(),
        "database file decompression failed"
    );
}

#[test]
fn any_bytes_are_accepted_or_refused_with_an_error() {
    let mut state: u64 = 0x2545_f491_4f6c_dd1d;
    let mut next = move || {
        state ^= state << 13;
        state ^= state >> 7;
        state ^= state << 17;
        state
    };
    for round in 0..2000usize {
        let len = (next() % 200) as usize;
        let mut bytes: Vec<u8> = (0..len).map(|_| next() as u8).collect();
        if round % 2 == 0 && len >= 4 {
            bytes[..4].copy_from_slice(b"BAG1");
        }
        if round % 4 == 0 && len >= 36 {
            for at in (4..36).step_by(4) {
                let small = (next() % 50) as u32;
                bytes[at..at + 4].copy_from_slice(&small.to_le_bytes());
            }
        }
        let in_place = DatabaseView::from_bytes(&bytes);
        let owned = Database::from_reader(&bytes);
        if owned.is_ok() {
            assert!(in_place.is_ok());
        }
        if let Ok(view) = in_place {
            let _ = view.lookup("1234AB", 1);
            let _ = view.locality_name(0);
            let _ = view.public_space_name(u32::MAX);
            let _ = view.range_at(usize::MAX);
        }
    }
}

#[test]
fn every_damaged_file_is_handled_alike_by_both_readers() {
    let file = seed_file();
    for at in 0..file.len() {
        for flip in [0x01u8, 0x80, 0xff] {
            let mut damaged = file.clone();
            damaged[at] ^= flip;
            let in_place = DatabaseView::from_bytes(&damaged);
            let owned = Database::from_reader(&damaged);
            match (&in_place, &owned) {
                (Ok(view), Ok(db)) => {
                    for typed in ["1234AB", "1234ab", "0000AA"] {
                        for number in [0u32, 1, 56, 57, 255, u32::MAX] {
                            assert_eq!(view.lookup(typed, number), db.lookup(typed, number));
                        }
                    }
                }
                (Err(_), Ok(_)) => panic!("the decoder accepted what the view refused"),
                (Ok(view), Err(e)) => {
                    assert_eq!(*e, DatabaseError::InvalidLayout);
                    let unreadable = (0..2u16).any(|i| view.locality_name(i).is_none())
                        || (0..2u32).any(|i| view.public_space_name(i).is_none());
                    assert!(unreadable);
                }
                (Err(_), Err(_)) => {}
            }
        }
    }
}
