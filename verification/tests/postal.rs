use bag_address_lookup::encode_pc;
use bag_address_lookup::postal::{is_canonical, normalize_postalcode};

#[test]
fn encode_pc_basic() {
    let encoded = encode_pc(b"1234AB");
    let digits = 1234u32 << 18;
    let letters = 1u32 << 8;
    assert_eq!(encoded, digits | letters);
}

#[test]
fn encode_pc_max_letters() {
    let encoded = encode_pc(b"0000ZZ");
    let letters = (25u32 << 13) | (25u32 << 8);
    assert_eq!(encoded, letters);
}

#[test]
fn encode_pc_mixed() {
    let encoded = encode_pc(b"9876QX");
    let digits = 9876u32 << 18;
    let letters = (16u32 << 13) | (23u32 << 8);
    assert_eq!(encoded, digits | letters);
}

#[test]
fn encode_pc_low_byte_is_zero() {
    assert_eq!(encode_pc(b"9999ZZ") & 0xff, 0);
    assert_eq!(encode_pc(b"0000AA"), 0);
    assert_eq!(encode_pc(b"9999ZZ"), (9999u32 << 18) | (25u32 << 13) | (25u32 << 8));
}

#[test]
fn encode_pc_sorts_as_the_codes_do() {
    let codes: [&[u8; 6]; 7] =
        [b"0000AA", b"0000AB", b"0000BA", b"0001AA", b"1234AB", b"1234AC", b"9999ZZ"];
    for i in 0..codes.len() {
        for j in 0..codes.len() {
            let by_key = encode_pc(codes[i]) < encode_pc(codes[j]);
            let by_bytes = codes[i] < codes[j];
            assert_eq!(by_key, by_bytes);
        }
    }
}

#[test]
fn normalize_upper_cases_six_bytes() {
    assert_eq!(normalize_postalcode("1234ab"), Some(*b"1234AB"));
    assert_eq!(normalize_postalcode("1234AB"), Some(*b"1234AB"));
    assert_eq!(normalize_postalcode("ab12cd"), Some(*b"AB12CD"));
}

#[test]
fn normalize_refuses_other_lengths_and_keeps_spaces() {
    assert_eq!(normalize_postalcode("12345"), None);
    assert_eq!(normalize_postalcode("1234 AB"), None);
    assert_eq!(normalize_postalcode(""), None);
    assert_eq!(normalize_postalcode(" 234ab"), Some(*b" 234AB"));
}

#[test]
fn canonical_form_is_four_digits_two_capitals() {
    assert!(is_canonical(b"1234AB"));
    assert!(!is_canonical(b"1234ab"));
    assert!(!is_canonical(b"12345A"));
    assert!(!is_canonical(b"A234AB"));
    assert!(!is_canonical(b"1234A"));
    assert!(!is_canonical(b"1234AB "));
}
