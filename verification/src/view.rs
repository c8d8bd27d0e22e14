//! The zero-copy reader: a checked window on the bytes of a database file.

use crate::database::{range_record, NumberRange};
use crate::error::DatabaseError;
use crate::layout::{
    header_error, header_of, layout_ok, table_entry, validate_offsets, Header, RANGE_RECORD_SIZE,
};
use crate::wire::{lemma_len_fits, read_u16_bytes, read_u32_bytes};
use vstd::prelude::*;
use vstd::slice::slice_subrange;
use vstd::string::StringSliceAdditionalSpecFns;
use crate::text::{str_from_utf8, text_of};
use vstd::utf8::encode_utf8_decode_utf8;

verus! {

/// Why a file is refused by the zero-copy reader, if it is. Behind a sound
/// header every fault is a layout error, a section that passes the end of
/// the file too.
pub open spec fn view_error(bytes: Seq<u8>) -> Option<DatabaseError> {
    if header_error(bytes) is Some {
        header_error(bytes)
    } else if !layout_ok(bytes) {
        Some(DatabaseError::InvalidLayout)
    } else {
        None
    }
}

/// The bytes of name `i` of the block at `data` whose offsets table starts
/// at `table`.
pub open spec fn name_bytes(bytes: Seq<u8>, table: int, data: int, i: int) -> Seq<u8> {
    bytes.subrange(
        data + table_entry(bytes, table, i),
        data + table_entry(bytes, table, i + 1),
    )
}

/// The bytes of locality name `i` of a file.
pub open spec fn file_locality_bytes(bytes: Seq<u8>, i: int) -> Seq<u8> {
    name_bytes(bytes, 36, header_of(bytes).locality_data_offset as int, i)
}

/// The bytes of public-space name `i` of a file.
pub open spec fn file_public_space_bytes(bytes: Seq<u8>, i: int) -> Seq<u8> {
    name_bytes(
        bytes,
        header_of(bytes).public_space_offsets_offset as int,
        header_of(bytes).public_space_data_offset as int,
        i,
    )
}

/// Range record `i` of a file.
pub open spec fn file_range(bytes: Seq<u8>, i: int) -> NumberRange {
    range_record(bytes, header_of(bytes).ranges_offset + 16 * i)
}

/// The locality names of a file, each `None` where its bytes are no text.
pub open spec fn file_localities(bytes: Seq<u8>) -> Seq<Option<Seq<char>>> {
    Seq::new(
        header_of(bytes).locality_count as nat,
        |i: int| text_of(file_locality_bytes(bytes, i)),
    )
}

/// The public-space names of a file, each `None` where its bytes are no
/// text.
pub open spec fn file_public_spaces(bytes: Seq<u8>) -> Seq<Option<Seq<char>>> {
    Seq::new(
        header_of(bytes).public_space_count as nat,
        |i: int| text_of(file_public_space_bytes(bytes, i)),
    )
}

/// The range records of a file.
pub open spec fn file_ranges(bytes: Seq<u8>) -> Seq<NumberRange> {
    Seq::new(header_of(bytes).range_count as nat, |i: int| file_range(bytes, i))
}

/// Entry `index` of a list of names that may be missing.
pub open spec fn name_at_index(names: Seq<Option<Seq<char>>>, index: int) -> Option<Seq<char>> {
    if 0 <= index < names.len() {
        names[index]
    } else {
        None
    }
}

/// The fields of a range record that a lookup reads once the postal code
/// has matched.
pub struct RangeRef {
    pub start: u32,
    pub length: u16,
    pub public_space_index: u32,
    pub locality_index: u16,
}

/// A database file, checked once and then read in place.
pub struct DatabaseView<'a> {
    bytes: &'a [u8],
    locality_count: u32,
    public_space_count: u32,
    range_count: u32,
    locality_offsets_offset: usize,
    locality_data_offset: usize,
    locality_data_end: usize,
    public_space_offsets_offset: usize,
    public_space_data_offset: usize,
    public_space_data_end: usize,
    ranges_offset: usize,
}

impl<'a> View for DatabaseView<'a> {
    type V = Seq<u8>;

    /// The bytes of the file.
    closed spec fn view(&self) -> Seq<u8> {
        self.bytes@
    }
}

impl<'a> DatabaseView<'a> {
    #[verifier::type_invariant]
    spec fn well_formed(self) -> bool {
        let h = header_of(self.bytes@);
        &&& view_error(self.bytes@) is None
        &&& self.locality_count == h.locality_count
        &&& self.public_space_count == h.public_space_count
        &&& self.range_count == h.range_count
        &&& self.locality_offsets_offset == h.locality_offsets_offset
        &&& self.locality_data_offset == h.locality_data_offset
        &&& self.locality_data_end == h.public_space_offsets_offset
        &&& self.public_space_offsets_offset == h.public_space_offsets_offset
        &&& self.public_space_data_offset == h.public_space_data_offset
        &&& self.public_space_data_end == h.ranges_offset
        &&& self.ranges_offset == h.ranges_offset
    }

    /// Check a file and wrap it. Nothing is copied.
    pub fn from_bytes(bytes: &'a [u8]) -> (r: Result<DatabaseView<'a>, DatabaseError>)
        ensures
            match r {
                Ok(view) => view_error(bytes@) is None && view@ == bytes@,
                Err(e) => view_error(bytes@) == Some(e),
            },
    {
        let header = Header::from_bytes(bytes)?;
        let total = bytes.len();

        let locality_offsets_len = header.locality_offsets_len()?;
        let locality_offsets_end = match header.locality_offsets_offset.checked_add(
            locality_offsets_len,
        ) {
            Some(end) => end,
            None => { return Err(DatabaseError::InvalidLayout); },
        };
        let expected_locality_data_offset = header.expected_locality_data_offset()?;
        if locality_offsets_end > total || header.locality_data_offset
            != expected_locality_data_offset {
            return Err(DatabaseError::InvalidLayout);
        }
        let locality_data_len = validate_offsets(
            bytes,
            header.locality_offsets_offset,
            header.locality_count,
        )? as usize;
        if locality_data_len == 0 && header.locality_count != 0 {
            return Err(DatabaseError::InvalidLayout);
        }
        let public_space_offsets_expected = header.expected_public_space_offsets_offset(
            locality_data_len,
        )?;
        if header.public_space_offsets_offset != public_space_offsets_expected {
            return Err(DatabaseError::InvalidLayout);
        }
        let public_space_offsets_len = header.public_space_offsets_len()?;
        let public_space_offsets_end = match header.public_space_offsets_offset.checked_add(
            public_space_offsets_len,
        ) {
            Some(end) => end,
            None => { return Err(DatabaseError::InvalidLayout); },
        };
        let expected_public_space_data_offset = header.expected_public_space_data_offset()?;
        if public_space_offsets_end > total || header.public_space_data_offset
            != expected_public_space_data_offset {
            return Err(DatabaseError::InvalidLayout);
        }
        let public_space_data_len = validate_offsets(
            bytes,
            header.public_space_offsets_offset,
            header.public_space_count,
        )? as usize;
        if public_space_data_len == 0 && header.public_space_count != 0 {
            return Err(DatabaseError::InvalidLayout);
        }
        let ranges_expected = header.expected_ranges_offset(public_space_data_len)?;
        if header.ranges_offset != ranges_expected {
            return Err(DatabaseError::InvalidLayout);
        }
        let ranges_len = match (header.range_count as usize).checked_mul(RANGE_RECORD_SIZE) {
            Some(len) => len,
            None => { return Err(DatabaseError::InvalidLayout); },
        };
        let ranges_end = match header.ranges_offset.checked_add(ranges_len) {
            Some(end) => end,
            None => { return Err(DatabaseError::InvalidLayout); },
        };
        if ranges_end > total {
            return Err(DatabaseError::InvalidLayout);
        }
        Ok(
            DatabaseView {
                bytes,
                locality_count: header.locality_count,
                public_space_count: header.public_space_count,
                range_count: header.range_count,
                locality_offsets_offset: header.locality_offsets_offset,
                locality_data_offset: header.locality_data_offset,
                locality_data_end: header.public_space_offsets_offset,
                public_space_offsets_offset: header.public_space_offsets_offset,
                public_space_data_offset: header.public_space_data_offset,
                public_space_data_end: header.ranges_offset,
                ranges_offset: header.ranges_offset,
            },
        )
    }

    /// True when the file holds no range.
    pub fn is_empty(&self) -> (empty: bool)
        ensures
            empty <==> file_ranges(self@).len() == 0,
    {
        proof {
            use_type_invariant(self);
        }
        self.range_count == 0
    }

    /// How many localities the file names.
    pub fn locality_count(&self) -> (count: u32)
        ensures
            count == file_localities(self@).len(),
            view_error(self@) is None,
    {
        proof {
            use_type_invariant(self);
        }
        self.locality_count
    }

    /// How many range records the file holds.
    pub fn range_count(&self) -> (count: u32)
        ensures
            count == file_ranges(self@).len(),
            view_error(self@) is None,
    {
        proof {
            use_type_invariant(self);
        }
        self.range_count
    }

    /// The postal-code key of range `index`, if the file holds that range.
    pub fn range_postal_code(&self, index: usize) -> (code: Option<u32>)
        ensures
            code == (if index < file_ranges(self@).len() {
                Some(file_ranges(self@)[index as int].postal_code)
            } else {
                None
            }),
    {
        proof {
            use_type_invariant(self);
            lemma_len_fits(self.bytes);
        }
        match self.range_offset(index) {
            Some(base) => read_u32_bytes(self.bytes, base),
            None => None,
        }
    }

    /// Range `index` without its postal code, if the file holds that range.
    pub fn range_at(&self, index: usize) -> (range: Option<RangeRef>)
        ensures
            range is Some <==> index < file_ranges(self@).len(),
            range matches Some(r) ==> {
                let full = file_ranges(self@)[index as int];
                &&& r.start == full.start
                &&& r.length == full.length
                &&& r.public_space_index == full.public_space_index
                &&& r.locality_index == full.locality_index
            },
    {
        proof {
            use_type_invariant(self);
            lemma_len_fits(self.bytes);
        }
        let base = match self.range_offset(index) {
            Some(base) => base,
            None => { return None; },
        };
        let start = read_u32_bytes(self.bytes, base + 4);
        let length = read_u16_bytes(self.bytes, base + 8);
        let public_space_index = read_u32_bytes(self.bytes, base + 10);
        let locality_index = read_u16_bytes(self.bytes, base + 14);
        match (start, length, public_space_index, locality_index) {
            (Some(start), Some(length), Some(public_space_index), Some(locality_index)) => Some(
                RangeRef { start, length, public_space_index, locality_index },
            ),
            _ => None,
        }
    }

    /// Where range `index` starts in the file, if the file holds that range.
    fn range_offset(&self, index: usize) -> (base: Option<usize>)
        ensures
            base == (if index < header_of(self.bytes@).range_count {
                Some((header_of(self.bytes@).ranges_offset + 16 * index) as usize)
            } else {
                None
            }),
            base matches Some(b) ==> b + 16 <= self.bytes@.len(),
    {
        proof {
            use_type_invariant(self);
            lemma_len_fits(self.bytes);
        }
        if index < self.range_count as usize {
            Some(self.ranges_offset + index * RANGE_RECORD_SIZE)
        } else {
            None
        }
    }

    /// The name of the locality at `index`: `None` where the file has no
    /// such locality or its bytes are no text.
    pub fn locality_name(&self, index: u16) -> (name: Option<&'a str>)
        ensures
            match name {
                Some(s) => name_at_index(file_localities(self@), index as int) == Some(s@),
                None => name_at_index(file_localities(self@), index as int) is None,
            },
    {
        proof {
            use_type_invariant(self);
        }
        self.name_at(
            self.locality_offsets_offset,
            self.locality_data_offset,
            self.locality_data_end,
            index as u32,
            self.locality_count,
        )
    }

    /// The name of the public space at `index`: `None` where the file has
    /// no such public space or its bytes are no text.
    pub fn public_space_name(&self, index: u32) -> (name: Option<&'a str>)
        ensures
            match name {
                Some(s) => name_at_index(file_public_spaces(self@), index as int) == Some(s@),
                None => name_at_index(file_public_spaces(self@), index as int) is None,
            },
    {
        proof {
            use_type_invariant(self);
        }
        self.name_at(
            self.public_space_offsets_offset,
            self.public_space_data_offset,
            self.public_space_data_end,
            index,
            self.public_space_count,
        )
    }

    /// Name `index` of the block `data_offset..data_end` whose offsets table
    /// starts at `offsets_offset`.
    fn name_at(
        &self,
        offsets_offset: usize,
        data_offset: usize,
        data_end: usize,
        index: u32,
        count: u32,
    ) -> (name: Option<&'a str>)
        requires
            offsets_offset + 4 * (count + 1) <= self.bytes@.len(),
            crate::layout::table_ok(self.bytes@, offsets_offset as int, count as int),
            data_offset + table_entry(self.bytes@, offsets_offset as int, count as int)
                == data_end,
            data_end <= self.bytes@.len(),
        ensures
            match name {
                Some(s) => index < count && text_of(
                    name_bytes(self.bytes@, offsets_offset as int, data_offset as int, index as int),
                ) == Some(s@),
                None => index >= count || text_of(
                    name_bytes(self.bytes@, offsets_offset as int, data_offset as int, index as int),
                ) is None,
            },
    {
        if index >= count {
            return None;
        }
        proof {
            lemma_len_fits(self.bytes);
        }
        let start = match read_u32_bytes(self.bytes, offsets_offset + index as usize * 4) {
            Some(start) => start as usize,
            None => { return None; },
        };
        let end = match read_u32_bytes(self.bytes, offsets_offset + (index as usize + 1) * 4) {
            Some(end) => end as usize,
            None => { return None; },
        };
        assert(table_entry(self.bytes@, offsets_offset as int, index as int) <= table_entry(
            self.bytes@,
            offsets_offset as int,
            index + 1,
        ));
        assert(table_entry(self.bytes@, offsets_offset as int, index + 1) <= table_entry(
            self.bytes@,
            offsets_offset as int,
            count as int,
        ));
        let text = str_from_utf8(slice_subrange(self.bytes, data_offset + start, data_offset + end));
        proof {
            if let Some(s) = text {
                encode_utf8_decode_utf8(s@);
            }
        }
        text
    }
}

} // verus!
