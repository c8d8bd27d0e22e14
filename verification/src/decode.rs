//! The owned reader: a database file decoded front to back into owned
//! names and ranges.

use crate::database::{range_record, texts, Database, DatabaseContent, NumberRange};
use crate::error::DatabaseError;
use crate::layout::{
    header_error, header_of, table_data_len, table_entry, table_ok, validate_offsets, Header,
};
use crate::text::str_from_utf8;
use crate::view::{file_ranges, name_bytes, view_error};
use crate::wire::{lemma_len_fits, read_u16_bytes, read_u32_bytes};
use vstd::prelude::*;
use vstd::slice::slice_subrange;
use vstd::utf8::{decode_utf8, encode_utf8_decode_utf8, valid_utf8};

verus! {

/// Every one of the `count` names of a block is well-formed UTF-8.
pub open spec fn names_are_text(bytes: Seq<u8>, table: int, data: int, count: int) -> bool {
    forall|i: int| 0 <= i < count ==> valid_utf8(#[trigger] name_bytes(bytes, table, data, i))
}

/// The `count` names of a block as texts.
pub open spec fn decoded_names(bytes: Seq<u8>, table: int, data: int, count: int) -> Seq<
    Seq<char>,
> {
    Seq::new(count as nat, |i: int| decode_utf8(name_bytes(bytes, table, data, i)))
}

/// What a sound file holds.
pub open spec fn file_content(bytes: Seq<u8>) -> DatabaseContent {
    let h = header_of(bytes);
    DatabaseContent {
        localities: decoded_names(
            bytes,
            36,
            h.locality_data_offset as int,
            h.locality_count as int,
        ),
        public_spaces: decoded_names(
            bytes,
            h.public_space_offsets_offset as int,
            h.public_space_data_offset as int,
            h.public_space_count as int,
        ),
        ranges: file_ranges(bytes),
    }
}

/// Why a file is refused by the owned reader, if it is.
///
/// The reader goes through the file front to back and stops at the first
/// fault. A section that the file is too short for is `TooShort`; a header
/// field or an offsets table that contradicts the format, and a name that
/// is not UTF-8, are `InvalidLayout`.
pub open spec fn decode_error(bytes: Seq<u8>) -> Option<DatabaseError> {
    let h = header_of(bytes);
    let loc_table_end = 36 + 4 * (h.locality_count + 1);
    let loc_len = table_data_len(bytes, 36, h.locality_count as int);
    let loc_end = loc_table_end + loc_len;
    let ps_table_end = loc_end + 4 * (h.public_space_count + 1);
    let ps_len = table_data_len(bytes, loc_end, h.public_space_count as int);
    let ps_end = ps_table_end + ps_len;
    if header_error(bytes) is Some {
        header_error(bytes)
    } else if loc_table_end > bytes.len() {
        Some(DatabaseError::TooShort)
    } else if !table_ok(bytes, 36, h.locality_count as int) || h.locality_data_offset
        != loc_table_end || (h.locality_count != 0 && loc_len == 0) {
        Some(DatabaseError::InvalidLayout)
    } else if loc_end > bytes.len() {
        Some(DatabaseError::TooShort)
    } else if !names_are_text(bytes, 36, loc_table_end, h.locality_count as int)
        || h.public_space_offsets_offset != loc_end {
        Some(DatabaseError::InvalidLayout)
    } else if ps_table_end > bytes.len() {
        Some(DatabaseError::TooShort)
    } else if !table_ok(bytes, loc_end, h.public_space_count as int) || h.public_space_data_offset
        != ps_table_end || (h.public_space_count != 0 && ps_len == 0) {
        Some(DatabaseError::InvalidLayout)
    } else if ps_end > bytes.len() {
        Some(DatabaseError::TooShort)
    } else if !names_are_text(bytes, loc_end, ps_table_end, h.public_space_count as int)
        || h.ranges_offset != ps_end {
        Some(DatabaseError::InvalidLayout)
    } else if ps_end + 16 * h.range_count > bytes.len() {
        Some(DatabaseError::TooShort)
    } else {
        None
    }
}

/// Every name of a file is well-formed UTF-8.
pub open spec fn file_names_are_text(bytes: Seq<u8>) -> bool {
    let h = header_of(bytes);
    &&& names_are_text(bytes, 36, h.locality_data_offset as int, h.locality_count as int)
    &&& names_are_text(
        bytes,
        h.public_space_offsets_offset as int,
        h.public_space_data_offset as int,
        h.public_space_count as int,
    )
}

/// The two readers accept the same files, but for the names: the owned
/// reader accepts a file exactly where the zero-copy reader accepts it and
/// every name in it is well-formed UTF-8.
pub proof fn lemma_readers_accept_alike(bytes: Seq<u8>)
    ensures
        decode_error(bytes) is None <==> view_error(bytes) is None && file_names_are_text(bytes),
{
}

/// The end of a section of `len` bytes that starts at `start`, where the
/// file holds all of it.
fn section_end(start: usize, len: usize, total: usize) -> (end: Option<usize>)
    ensures
        end == (if start + len <= total {
            Some((start + len) as usize)
        } else {
            None
        }),
{
    match start.checked_add(len) {
        Some(end) => if end <= total {
            Some(end)
        } else {
            None
        },
        None => None,
    }
}

/// Decode the `count` names of the block at `data` whose checked offsets
/// table starts at `table`.
pub fn decode_names(bytes: &[u8], table: usize, data: usize, count: u32) -> (r: Result<
    Vec<String>,
    DatabaseError,
>)
    requires
        table + 4 * (count + 1) <= bytes@.len(),
        table_ok(bytes@, table as int, count as int),
        data + table_entry(bytes@, table as int, count as int) <= bytes@.len(),
    ensures
        match r {
            Ok(names) => names_are_text(bytes@, table as int, data as int, count as int) && texts(
                names@,
            ) == decoded_names(bytes@, table as int, data as int, count as int),
            Err(e) => e == DatabaseError::InvalidLayout && !names_are_text(
                bytes@,
                table as int,
                data as int,
                count as int,
            ),
        },
{
    proof {
        lemma_len_fits(bytes);
    }
    let mut names: Vec<String> = Vec::new();
    let mut index: u32 = 0;
    while index < count
        invariant
            index <= count,
            bytes@.len() <= usize::MAX,
            table + 4 * (count + 1) <= bytes@.len(),
            table_ok(bytes@, table as int, count as int),
            data + table_entry(bytes@, table as int, count as int) <= bytes@.len(),
            names@.len() == index,
            names_are_text(bytes@, table as int, data as int, index as int),
            forall|i: int|
                0 <= i < index ==> (#[trigger] names@[i])@ == decode_utf8(
                    name_bytes(bytes@, table as int, data as int, i),
                ),
        decreases count - index,
    {
        let start = match read_u32_bytes(bytes, table + 4 * (index as usize)) {
            Some(start) => start as usize,
            None => { return Err(DatabaseError::InvalidLayout); },
        };
        let end = match read_u32_bytes(bytes, table + 4 * (index as usize + 1)) {
            Some(end) => end as usize,
            None => { return Err(DatabaseError::InvalidLayout); },
        };
        assert(table_entry(bytes@, table as int, index as int) <= table_entry(
            bytes@,
            table as int,
            index + 1,
        ));
        assert(table_entry(bytes@, table as int, index + 1) <= table_entry(
            bytes@,
            table as int,
            count as int,
        ));
        let name = match str_from_utf8(slice_subrange(bytes, data + start, data + end)) {
            Some(name) => name,
            None => {
                assert(!valid_utf8(name_bytes(bytes@, table as int, data as int, index as int)));
                return Err(DatabaseError::InvalidLayout);
            },
        };
        proof {
            encode_utf8_decode_utf8(name@);
        }
        names.push(name.to_owned());
        index = index + 1;
    }
    assert(texts(names@) =~= decoded_names(bytes@, table as int, data as int, count as int));
    Ok(names)
}

/// Read the `count` range records that start at `base`.
fn read_ranges(bytes: &[u8], base: usize, count: u32) -> (ranges: Vec<NumberRange>)
    requires
        base + 16 * count <= bytes@.len(),
    ensures
        ranges@ == Seq::new(count as nat, |i: int| range_record(bytes@, base + 16 * i)),
{
    proof {
        lemma_len_fits(bytes);
    }
    let mut ranges: Vec<NumberRange> = Vec::new();
    let mut index: u32 = 0;
    while index < count
        invariant
            index <= count,
            bytes@.len() <= usize::MAX,
            base + 16 * count <= bytes@.len(),
            ranges@.len() == index,
            forall|i: int|
                0 <= i < index ==> #[trigger] ranges@[i] == range_record(bytes@, base + 16 * i),
        decreases count - index,
    {
        let at = base + 16 * (index as usize);
        let postal_code = read_u32_bytes(bytes, at);
        let start = read_u32_bytes(bytes, at + 4);
        let length = read_u16_bytes(bytes, at + 8);
        let public_space_index = read_u32_bytes(bytes, at + 10);
        let locality_index = read_u16_bytes(bytes, at + 14);
        match (postal_code, start, length, public_space_index, locality_index) {
            (
                Some(postal_code),
                Some(start),
                Some(length),
                Some(public_space_index),
                Some(locality_index),
            ) => {
                ranges.push(
                    NumberRange { postal_code, start, length, public_space_index, locality_index },
                );
            },
            _ => {
                assert(false);
            },
        }
        index = index + 1;
    }
    assert(ranges@ =~= Seq::new(count as nat, |i: int| range_record(bytes@, base + 16 * i)));
    ranges
}

impl Database {
    /// Decode a database from the bytes of a file.
    pub fn from_reader(bytes: &[u8]) -> (r: Result<Database, DatabaseError>)
        ensures
            match r {
                Ok(db) => decode_error(bytes@) is None && db@ == file_content(bytes@),
                Err(e) => decode_error(bytes@) == Some(e),
            },
    {
        let header = Header::from_bytes(bytes)?;
        let total = bytes.len();

        let locality_table_end = match header.locality_offsets_len() {
            Ok(len) => section_end(36, len, total),
            Err(_) => None,
        };
        let locality_table_end = match locality_table_end {
            Some(end) => end,
            None => { return Err(DatabaseError::TooShort); },
        };
        let locality_data_len = validate_offsets(bytes, 36, header.locality_count)? as usize;
        if header.locality_data_offset != locality_table_end || (header.locality_count != 0
            && locality_data_len == 0) {
            return Err(DatabaseError::InvalidLayout);
        }
        let locality_end = match section_end(locality_table_end, locality_data_len, total) {
            Some(end) => end,
            None => { return Err(DatabaseError::TooShort); },
        };
        let localities = decode_names(bytes, 36, locality_table_end, header.locality_count)?;
        if header.public_space_offsets_offset != locality_end {
            return Err(DatabaseError::InvalidLayout);
        }
        let public_space_table_end = match header.public_space_offsets_len() {
            Ok(len) => section_end(locality_end, len, total),
            Err(_) => None,
        };
        let public_space_table_end = match public_space_table_end {
            Some(end) => end,
            None => { return Err(DatabaseError::TooShort); },
        };
        let public_space_data_len = validate_offsets(
            bytes,
            locality_end,
            header.public_space_count,
        )? as usize;
        if header.public_space_data_offset != public_space_table_end || (header.public_space_count
            != 0 && public_space_data_len == 0) {
            return Err(DatabaseError::InvalidLayout);
        }
        let public_space_end = match section_end(
            public_space_table_end,
            public_space_data_len,
            total,
        ) {
            Some(end) => end,
            None => { return Err(DatabaseError::TooShort); },
        };
        let public_spaces = decode_names(
            bytes,
            locality_end,
            public_space_table_end,
            header.public_space_count,
        )?;
        if header.ranges_offset != public_space_end {
            return Err(DatabaseError::InvalidLayout);
        }
        let ranges_len = match (header.range_count as usize).checked_mul(16) {
            Some(len) => section_end(public_space_end, len, total),
            None => None,
        };
        if ranges_len.is_none() {
            return Err(DatabaseError::TooShort);
        }
        let ranges = read_ranges(bytes, public_space_end, header.range_count);
        let db = Database { localities, public_spaces, ranges };
        proof {
            assert(db@.ranges =~= file_ranges(bytes@));
        }
        Ok(db)
    }
}

} // verus!
