//! Little-endian integers at byte offsets.

use vstd::bytes::{
    spec_u16_from_le_bytes, spec_u32_from_le_bytes, u16_from_le_bytes, u32_from_le_bytes,
};
use vstd::prelude::*;
use vstd::slice::slice_subrange;

verus! {

/// The little-endian `u32` that the four bytes from `at` on spell.
pub open spec fn u32_at(bytes: Seq<u8>, at: int) -> u32 {
    spec_u32_from_le_bytes(bytes.subrange(at, at + 4))
}

/// The little-endian `u16` that the two bytes from `at` on spell.
pub open spec fn u16_at(bytes: Seq<u8>, at: int) -> u16 {
    spec_u16_from_le_bytes(bytes.subrange(at, at + 2))
}

/// The length of a slice fits in `usize`.
pub proof fn lemma_len_fits(bytes: &[u8])
    ensures
        bytes@.len() <= usize::MAX,
{
    broadcast use vstd::slice::group_slice_axioms;

    let len = vstd::slice::spec_slice_len(bytes);
}

/// Read a little-endian `u32` at `offset`, or `None` where fewer than four
/// bytes follow it.
pub fn read_u32_bytes(bytes: &[u8], offset: usize) -> (value: Option<u32>)
    ensures
        value == (if offset + 4 <= bytes@.len() {
            Some(u32_at(bytes@, offset as int))
        } else {
            None
        }),
{
    if bytes.len() < 4 || offset > bytes.len() - 4 {
        return None;
    }
    Some(u32_from_le_bytes(slice_subrange(bytes, offset, offset + 4)))
}

/// Read a little-endian `u16` at `offset`, or `None` where fewer than two
/// bytes follow it.
pub fn read_u16_bytes(bytes: &[u8], offset: usize) -> (value: Option<u16>)
    ensures
        value == (if offset + 2 <= bytes@.len() {
            Some(u16_at(bytes@, offset as int))
        } else {
            None
        }),
{
    if bytes.len() < 2 || offset > bytes.len() - 2 {
        return None;
    }
    Some(u16_from_le_bytes(slice_subrange(bytes, offset, offset + 2)))
}

} // verus!
