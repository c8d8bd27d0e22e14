//! The header of a database file and the rules that tie its sections
//! together.
//!
//! A file is a 36-byte header, an offsets table and a data block for the
//! locality names, the same pair for the public-space names, and the range
//! records, in that order and without gaps. All integers are little-endian.

use crate::error::DatabaseError;
use crate::wire::{lemma_len_fits, read_u32_bytes, u32_at};
use vstd::prelude::*;

verus! {

/// The size of the header in bytes.
pub const DATABASE_HEADER_SIZE: usize = 36;

/// The size of one range record in bytes.
pub const RANGE_RECORD_SIZE: usize = 16;

/// The four bytes `BAG1` that open every database file.
pub open spec fn has_magic(bytes: Seq<u8>) -> bool {
    &&& bytes.len() >= 4
    &&& bytes[0] == 0x42
    &&& bytes[1] == 0x41
    &&& bytes[2] == 0x47
    &&& bytes[3] == 0x31
}

/// The eight integers that follow the magic.
pub struct Header {
    pub locality_count: u32,
    pub public_space_count: u32,
    pub range_count: u32,
    pub locality_offsets_offset: usize,
    pub locality_data_offset: usize,
    pub public_space_offsets_offset: usize,
    pub public_space_data_offset: usize,
    pub ranges_offset: usize,
}

/// Entry `i` of the offsets table that starts at `table`.
pub open spec fn table_entry(bytes: Seq<u8>, table: int, i: int) -> u32 {
    u32_at(bytes, table + 4 * i)
}

/// An offsets table for `count` names has `count + 1` entries, starts with 0
/// and never decreases.
pub open spec fn table_ok(bytes: Seq<u8>, table: int, count: int) -> bool {
    &&& table_entry(bytes, table, 0) == 0
    &&& forall|i: int, j: int|
        0 <= i <= j <= count ==> #[trigger] table_entry(bytes, table, i) <= #[trigger] table_entry(
            bytes,
            table,
            j,
        )
}

/// The length of the data block that an offsets table describes: its last
/// entry.
pub open spec fn table_data_len(bytes: Seq<u8>, table: int, count: int) -> int {
    table_entry(bytes, table, count) as int
}

/// What the header of a file of at least 36 bytes says.
pub open spec fn header_of(bytes: Seq<u8>) -> Header {
    Header {
        locality_count: u32_at(bytes, 4),
        public_space_count: u32_at(bytes, 8),
        range_count: u32_at(bytes, 12),
        locality_offsets_offset: u32_at(bytes, 16) as usize,
        locality_data_offset: u32_at(bytes, 20) as usize,
        public_space_offsets_offset: u32_at(bytes, 24) as usize,
        public_space_data_offset: u32_at(bytes, 28) as usize,
        ranges_offset: u32_at(bytes, 32) as usize,
    }
}

/// The sections of the file lie where the header says, one after the other,
/// inside the file, and both offsets tables are sound.
pub open spec fn layout_ok(bytes: Seq<u8>) -> bool {
    let h = header_of(bytes);
    let loc_len = table_data_len(bytes, 36, h.locality_count as int);
    let ps_len = table_data_len(
        bytes,
        h.public_space_offsets_offset as int,
        h.public_space_count as int,
    );
    &&& h.locality_offsets_offset == 36
    &&& h.locality_data_offset == 36 + 4 * (h.locality_count + 1)
    &&& h.locality_data_offset <= bytes.len()
    &&& table_ok(bytes, 36, h.locality_count as int)
    &&& (h.locality_count != 0 ==> loc_len != 0)
    &&& h.public_space_offsets_offset == h.locality_data_offset + loc_len
    &&& h.public_space_data_offset == h.public_space_offsets_offset + 4 * (h.public_space_count
        + 1)
    &&& h.public_space_data_offset <= bytes.len()
    &&& table_ok(bytes, h.public_space_offsets_offset as int, h.public_space_count as int)
    &&& (h.public_space_count != 0 ==> ps_len != 0)
    &&& h.ranges_offset == h.public_space_data_offset + ps_len
    &&& h.ranges_offset + 16 * h.range_count <= bytes.len()
}

/// Why a header is refused, if it is: the file is shorter than a header,
/// does not start with the magic, or puts the first offsets table elsewhere
/// than right behind the header.
pub open spec fn header_error(bytes: Seq<u8>) -> Option<DatabaseError> {
    if bytes.len() < 36 {
        Some(DatabaseError::TooShort)
    } else if !has_magic(bytes) {
        Some(DatabaseError::InvalidMagic)
    } else if header_of(bytes).locality_offsets_offset != 36 {
        Some(DatabaseError::InvalidLayout)
    } else {
        None
    }
}

impl Header {
    /// The locality offsets table starts right behind the header.
    pub fn validate_base(&self) -> (r: Result<(), DatabaseError>)
        ensures
            r == (if self.locality_offsets_offset == 36 {
                Ok::<(), DatabaseError>(())
            } else {
                Err(DatabaseError::InvalidLayout)
            }),
    {
        if self.locality_offsets_offset != DATABASE_HEADER_SIZE {
            return Err(DatabaseError::InvalidLayout);
        }
        Ok(())
    }

    /// The size in bytes of the locality offsets table.
    pub fn locality_offsets_len(&self) -> (r: Result<usize, DatabaseError>)
        ensures
            r == (if 4 * (self.locality_count + 1) <= usize::MAX {
                Ok::<usize, DatabaseError>((4 * (self.locality_count + 1)) as usize)
            } else {
                Err(DatabaseError::InvalidLayout)
            }),
    {
        table_len(self.locality_count)
    }

    /// The size in bytes of the public-space offsets table.
    pub fn public_space_offsets_len(&self) -> (r: Result<usize, DatabaseError>)
        ensures
            r == (if 4 * (self.public_space_count + 1) <= usize::MAX {
                Ok::<usize, DatabaseError>((4 * (self.public_space_count + 1)) as usize)
            } else {
                Err(DatabaseError::InvalidLayout)
            }),
    {
        table_len(self.public_space_count)
    }

    /// Where the locality data must start: right behind its offsets table.
    pub fn expected_locality_data_offset(&self) -> (r: Result<usize, DatabaseError>)
        ensures
            r == checked_end(
                self.locality_offsets_offset as int,
                4 * (self.locality_count + 1),
            ),
    {
        let offsets_len = self.locality_offsets_len()?;
        end_of(self.locality_offsets_offset, offsets_len)
    }

    /// Where the public-space offsets table must start: right behind the
    /// locality data.
    pub fn expected_public_space_offsets_offset(&self, locality_data_len: usize) -> (r: Result<
        usize,
        DatabaseError,
    >)
        ensures
            r == checked_end(self.locality_data_offset as int, locality_data_len as int),
    {
        end_of(self.locality_data_offset, locality_data_len)
    }

    /// Where the public-space data must start: right behind its offsets
    /// table.
    pub fn expected_public_space_data_offset(&self) -> (r: Result<usize, DatabaseError>)
        ensures
            r == checked_end(
                self.public_space_offsets_offset as int,
                4 * (self.public_space_count + 1),
            ),
    {
        let offsets_len = self.public_space_offsets_len()?;
        end_of(self.public_space_offsets_offset, offsets_len)
    }

    /// Where the range records must start: right behind the public-space
    /// data.
    pub fn expected_ranges_offset(&self, public_space_data_len: usize) -> (r: Result<
        usize,
        DatabaseError,
    >)
        ensures
            r == checked_end(self.public_space_data_offset as int, public_space_data_len as int),
    {
        end_of(self.public_space_data_offset, public_space_data_len)
    }

    /// Read and check the header of a file.
    pub fn from_bytes(bytes: &[u8]) -> (r: Result<Header, DatabaseError>)
        ensures
            match r {
                Ok(h) => header_error(bytes@) is None && h == header_of(bytes@),
                Err(e) => header_error(bytes@) == Some(e),
            },
    {
        if bytes.len() < DATABASE_HEADER_SIZE {
            return Err(DatabaseError::TooShort);
        }
        if bytes[0] != 0x42 || bytes[1] != 0x41 || bytes[2] != 0x47 || bytes[3] != 0x31 {
            return Err(DatabaseError::InvalidMagic);
        }
        let header = Header {
            locality_count: field(bytes, 4),
            public_space_count: field(bytes, 8),
            range_count: field(bytes, 12),
            locality_offsets_offset: field(bytes, 16) as usize,
            locality_data_offset: field(bytes, 20) as usize,
            public_space_offsets_offset: field(bytes, 24) as usize,
            public_space_data_offset: field(bytes, 28) as usize,
            ranges_offset: field(bytes, 32) as usize,
        };
        header.validate_base()?;
        Ok(header)
    }
}

/// `start + len` where that fits in `usize`, else a layout error.
pub open spec fn checked_end(start: int, len: int) -> Result<usize, DatabaseError> {
    if start + len <= usize::MAX {
        Ok((start + len) as usize)
    } else {
        Err(DatabaseError::InvalidLayout)
    }
}

/// The end of a section that starts at `start` and is `len` bytes long.
fn end_of(start: usize, len: usize) -> (r: Result<usize, DatabaseError>)
    ensures
        r == checked_end(start as int, len as int),
{
    match start.checked_add(len) {
        Some(end) => Ok(end),
        None => Err(DatabaseError::InvalidLayout),
    }
}

/// The size in bytes of an offsets table for `count` names.
fn table_len(count: u32) -> (r: Result<usize, DatabaseError>)
    ensures
        r == (if 4 * (count + 1) <= usize::MAX {
            Ok::<usize, DatabaseError>((4 * (count + 1)) as usize)
        } else {
            Err(DatabaseError::InvalidLayout)
        }),
{
    match (count as usize).checked_add(1) {
        Some(entries) => match entries.checked_mul(4) {
            Some(len) => Ok(len),
            None => Err(DatabaseError::InvalidLayout),
        },
        None => Err(DatabaseError::InvalidLayout),
    }
}

/// One header field of a file that holds a whole header.
fn field(bytes: &[u8], at: usize) -> (value: u32)
    requires
        bytes@.len() >= 36,
        at <= 32,
    ensures
        value == u32_at(bytes@, at as int),
{
    match read_u32_bytes(bytes, at) {
        Some(value) => value,
        None => 0,
    }
}

/// Check the offsets table of `count` names that starts at `base`, and
/// return the length of the data block that it describes.
pub fn validate_offsets(bytes: &[u8], base: usize, count: u32) -> (r: Result<u32, DatabaseError>)
    requires
        base + 4 * (count + 1) <= bytes@.len(),
    ensures
        r == (if table_ok(bytes@, base as int, count as int) {
            Ok::<u32, DatabaseError>(table_entry(bytes@, base as int, count as int))
        } else {
            Err(DatabaseError::InvalidLayout)
        }),
{
    let first = match read_u32_bytes(bytes, base) {
        Some(value) => value,
        None => { return Err(DatabaseError::InvalidLayout); },
    };
    if first != 0 {
        return Err(DatabaseError::InvalidLayout);
    }
    proof {
        lemma_len_fits(bytes);
    }
    let mut prev: u32 = first;
    let mut index: u32 = 0;
    while index < count
        invariant
            base + 4 * (count + 1) <= bytes@.len() <= usize::MAX,
            index <= count,
            prev == table_entry(bytes@, base as int, index as int),
            table_ok(bytes@, base as int, index as int),
        decreases count - index,
    {
        let value = match read_u32_bytes(bytes, base + 4 * (index as usize + 1)) {
            Some(value) => value,
            None => { return Err(DatabaseError::InvalidLayout); },
        };
        if value < prev {
            assert(!table_ok(bytes@, base as int, count as int)) by {
                if table_ok(bytes@, base as int, count as int) {
                    assert(table_entry(bytes@, base as int, index as int) <= table_entry(
                        bytes@,
                        base as int,
                        index + 1,
                    ));
                }
            }
            return Err(DatabaseError::InvalidLayout);
        }
        prev = value;
        index = index + 1;
    }
    Ok(prev)
}

} // verus!
