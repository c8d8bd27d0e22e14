//! The sortable 32-bit key of a postal code, and the normalisation of
//! postal codes as users type them.

use crate::order::{lex_lt, lex_lt_from};
use vstd::prelude::*;
use vstd::string::StringSliceAdditionalSpecFns;

verus! {

/// ASCII `0`.
pub const DIGIT_ZERO: u8 = 0x30;

/// ASCII `A`.
pub const UPPER_A: u8 = 0x41;

/// A postal code in canonical form: four ASCII digits, then two upper-case
/// ASCII letters.
pub open spec fn is_postal_code(s: Seq<u8>) -> bool {
    &&& s.len() == 6
    &&& forall|i: int| 0 <= i < 4 ==> 0x30 <= #[trigger] s[i] <= 0x39
    &&& forall|i: int| 4 <= i < 6 ==> 0x41 <= #[trigger] s[i] <= 0x5a
}

/// The number that the four digits of a postal code spell, `0..=9999`.
pub open spec fn pc_digits(s: Seq<u8>) -> int {
    (s[0] - 0x30) * 1000 + (s[1] - 0x30) * 100 + (s[2] - 0x30) * 10 + (s[3] - 0x30)
}

/// The position in the alphabet of letter `i` of a postal code, `0..=25`.
pub open spec fn pc_letter(s: Seq<u8>, i: int) -> int {
    s[i] - 0x41
}

/// The key of a postal code: digits in bits 18 and up, first letter in bits
/// 13 to 17, second letter in bits 8 to 12, the low byte zero.
pub open spec fn pc_key(s: Seq<u8>) -> u32 {
    ((pc_digits(s) as u32) << 18) | ((pc_letter(s, 4) as u32) << 13) | ((pc_letter(s, 5) as u32)
        << 8)
}

/// The key as a sum: the three fields do not overlap, so `|` adds them.
pub proof fn lemma_pc_key_is_sum(s: Seq<u8>)
    requires
        is_postal_code(s),
    ensures
        pc_key(s) == pc_digits(s) * 262144 + pc_letter(s, 4) * 8192 + pc_letter(s, 5) * 256,
{
    let d = pc_digits(s) as u32;
    let a = pc_letter(s, 4) as u32;
    let b = pc_letter(s, 5) as u32;
    assert(((d << 18) | (a << 13) | (b << 8)) == d * 262144 + a * 8192 + b * 256) by (bit_vector)
        requires
            d < 10000,
            a < 26,
            b < 26,
    ;
}

/// Encode a canonical postal code into its sortable key.
pub fn encode_pc(s: &[u8]) -> (key: u32)
    requires
        is_postal_code(s@),
    ensures
        key == pc_key(s@),
{
    let digits: u32 = (s[0] - DIGIT_ZERO) as u32 * 1000 + (s[1] - DIGIT_ZERO) as u32 * 100 + (s[2]
        - DIGIT_ZERO) as u32 * 10 + (s[3] - DIGIT_ZERO) as u32;
    let l0: u32 = (s[4] - UPPER_A) as u32;
    let l1: u32 = (s[5] - UPPER_A) as u32;
    assert(digits == pc_digits(s@));
    (digits << 18) | (l0 << 13) | (l1 << 8)
}

/// The upper-case form of an ASCII letter; any other byte as it is.
pub open spec fn ascii_upper(b: u8) -> u8 {
    if 0x61 <= b <= 0x7a {
        (b - 0x20) as u8
    } else {
        b
    }
}

/// The bytes of a text, each in upper case.
pub open spec fn upper_case(s: Seq<u8>) -> Seq<u8> {
    Seq::new(s.len(), |i: int| ascii_upper(s[i]))
}

/// The key under which a postal code as the user typed it is looked up:
/// the key of its upper-case form, where that is a canonical postal code.
pub open spec fn lookup_key(typed: Seq<u8>) -> Option<u32> {
    if is_postal_code(upper_case(typed)) {
        Some(pc_key(upper_case(typed)))
    } else {
        None
    }
}

/// Bring a postal code as the user typed it into upper case. Only a text of
/// exactly six bytes is accepted; white space is not trimmed.
pub fn normalize_postalcode(postalcode: &str) -> (normalized: Option<[u8; 6]>)
    ensures
        normalized is Some <==> postalcode.spec_bytes().len() == 6,
        normalized matches Some(code) ==> code@ == upper_case(postalcode.spec_bytes()),
{
    normalize_bytes(postalcode.as_bytes())
}

/// Bring the bytes of a postal code into upper case, where there are
/// exactly six of them.
pub fn normalize_bytes(bytes: &[u8]) -> (normalized: Option<[u8; 6]>)
    ensures
        normalized is Some <==> bytes@.len() == 6,
        normalized matches Some(code) ==> code@ == upper_case(bytes@),
{
    if bytes.len() != 6 {
        return None;
    }
    let mut normalized: [u8; 6] = [0u8;6];
    let mut i: usize = 0;
    while i < 6
        invariant
            i <= 6,
            bytes@.len() == 6,
            forall|k: int| 0 <= k < i ==> normalized@[k] == ascii_upper(bytes@[k]),
        decreases 6 - i,
    {
        let b = bytes[i];
        let upper: u8 = if 0x61 <= b && b <= 0x7a {
            b - 0x20
        } else {
            b
        };
        normalized[i] = upper;
        i = i + 1;
    }
    assert(normalized@ =~= upper_case(bytes@));
    Some(normalized)
}

/// Whether the bytes are a canonical postal code.
pub fn is_canonical(code: &[u8]) -> (canonical: bool)
    ensures
        canonical == is_postal_code(code@),
{
    if code.len() != 6 {
        return false;
    }
    let digits = is_digit(code[0]) && is_digit(code[1]) && is_digit(code[2]) && is_digit(code[3]);
    let letters = is_upper(code[4]) && is_upper(code[5]);
    digits && letters
}

fn is_digit(b: u8) -> (r: bool)
    ensures
        r == (0x30 <= b <= 0x39),
{
    0x30 <= b && b <= 0x39
}

fn is_upper(b: u8) -> (r: bool)
    ensures
        r == (0x41 <= b <= 0x5a),
{
    0x41 <= b && b <= 0x5a
}

/// Which of two texts of six bytes comes first, told at the first byte in
/// which they differ.
spec fn first_difference(a: Seq<u8>, b: Seq<u8>) -> bool {
    if a[0] != b[0] {
        a[0] < b[0]
    } else if a[1] != b[1] {
        a[1] < b[1]
    } else if a[2] != b[2] {
        a[2] < b[2]
    } else if a[3] != b[3] {
        a[3] < b[3]
    } else if a[4] != b[4] {
        a[4] < b[4]
    } else {
        a[5] < b[5]
    }
}

proof fn lemma_first_difference_is_byte_order(a: Seq<u8>, b: Seq<u8>)
    requires
        a.len() == 6,
        b.len() == 6,
    ensures
        lex_lt(a, b) == first_difference(a, b),
{
    reveal_with_fuel(lex_lt_from, 7);
}

proof fn lemma_first_difference_is_key_order(a: Seq<u8>, b: Seq<u8>)
    requires
        is_postal_code(a),
        is_postal_code(b),
    ensures
        (pc_digits(a) * 262144 + pc_letter(a, 4) * 8192 + pc_letter(a, 5) * 256 < pc_digits(b)
            * 262144 + pc_letter(b, 4) * 8192 + pc_letter(b, 5) * 256) == first_difference(a, b),
{
    let (a0, a1, a2, a3, a4, a5) = (
        a[0] as int,
        a[1] as int,
        a[2] as int,
        a[3] as int,
        a[4] as int,
        a[5] as int,
    );
    let (b0, b1, b2, b3, b4, b5) = (
        b[0] as int,
        b[1] as int,
        b[2] as int,
        b[3] as int,
        b[4] as int,
        b[5] as int,
    );
    assert(0x30 <= a0 <= 0x39 && 0x30 <= a1 <= 0x39 && 0x30 <= a2 <= 0x39 && 0x30 <= a3 <= 0x39);
    assert(0x30 <= b0 <= 0x39 && 0x30 <= b1 <= 0x39 && 0x30 <= b2 <= 0x39 && 0x30 <= b3 <= 0x39);
    assert(0x41 <= a4 <= 0x5a && 0x41 <= a5 <= 0x5a && 0x41 <= b4 <= 0x5a && 0x41 <= b5 <= 0x5a);
    let low_a = (a4 - 0x41) * 8192 + (a5 - 0x41) * 256;
    let low_b = (b4 - 0x41) * 8192 + (b5 - 0x41) * 256;
    assert(0 <= low_a < 262144 && 0 <= low_b < 262144);
    assert(pc_digits(a) == (a0 - 0x30) * 1000 + (a1 - 0x30) * 100 + (a2 - 0x30) * 10 + (a3 - 0x30));
    assert(pc_digits(b) == (b0 - 0x30) * 1000 + (b1 - 0x30) * 100 + (b2 - 0x30) * 10 + (b3 - 0x30));
    if pc_digits(a) < pc_digits(b) {
        assert(pc_digits(a) * 262144 + low_a < pc_digits(b) * 262144 + low_b);
    } else if pc_digits(a) > pc_digits(b) {
        assert(pc_digits(a) * 262144 + low_a > pc_digits(b) * 262144 + low_b);
    }
}

/// Keys sort as postal codes do: of two canonical postal codes, the one with
/// the smaller key is the one that comes first byte by byte.
pub proof fn lemma_key_order_is_byte_order(a: Seq<u8>, b: Seq<u8>)
    requires
        is_postal_code(a),
        is_postal_code(b),
    ensures
        pc_key(a) < pc_key(b) <==> lex_lt(a, b),
        pc_key(a) == pc_key(b) <==> a == b,
{
    lemma_pc_key_is_sum(a);
    lemma_pc_key_is_sum(b);
    lemma_first_difference_is_byte_order(a, b);
    lemma_first_difference_is_key_order(a, b);
    lemma_first_difference_is_byte_order(b, a);
    lemma_first_difference_is_key_order(b, a);
    if pc_key(a) == pc_key(b) {
        assert(a =~= b);
    }
}

/// Key sort equivalence on postal codes as they are typed: where both are
/// well-formed, the smaller key belongs to the code that comes first byte
/// by byte once both are in upper case.
pub proof fn lemma_lookup_key_order(a: Seq<u8>, b: Seq<u8>)
    requires
        lookup_key(a) is Some,
        lookup_key(b) is Some,
    ensures
        lookup_key(a)->0 < lookup_key(b)->0 <==> lex_lt(upper_case(a), upper_case(b)),
        lookup_key(a) == lookup_key(b) <==> upper_case(a) == upper_case(b),
{
    lemma_key_order_is_byte_order(upper_case(a), upper_case(b));
}

} // verus!
