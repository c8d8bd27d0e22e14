//! Writing a database as the bytes of a file.

use crate::database::{Database, DatabaseContent, NumberRange};
use crate::error::BuildError;
use vstd::bytes::{
    lemma_auto_spec_u32_to_from_le_bytes, spec_u16_to_le_bytes, spec_u32_to_le_bytes,
    u16_to_le_bytes, u32_to_le_bytes,
};
use vstd::prelude::*;
use vstd::utf8::encode_utf8;

verus! {

/// The bytes of each name of a list.
pub open spec fn utf8_of(names: Seq<Seq<char>>) -> Seq<Seq<u8>> {
    Seq::new(names.len(), |i: int| encode_utf8(names[i]))
}

/// The length in bytes of the first `n` names together.
pub open spec fn total_len(names: Seq<Seq<u8>>, n: int) -> int
    decreases n,
{
    if n <= 0 {
        0
    } else {
        total_len(names, n - 1) + names[n - 1].len()
    }
}

/// The offsets table of the first `n` names: where each starts in the data
/// block, and, as the last entry, where the block ends.
pub open spec fn table_bytes(names: Seq<Seq<u8>>, n: int) -> Seq<u8>
    decreases n,
{
    if n <= 0 {
        spec_u32_to_le_bytes(0)
    } else {
        table_bytes(names, n - 1) + spec_u32_to_le_bytes(total_len(names, n) as u32)
    }
}

/// The data block of the first `n` names: their bytes, without separators.
pub open spec fn data_bytes(names: Seq<Seq<u8>>, n: int) -> Seq<u8>
    decreases n,
{
    if n <= 0 {
        Seq::empty()
    } else {
        data_bytes(names, n - 1) + names[n - 1]
    }
}

/// One range as a record of 16 bytes.
pub open spec fn record_bytes(r: NumberRange) -> Seq<u8> {
    spec_u32_to_le_bytes(r.postal_code) + spec_u32_to_le_bytes(r.start) + spec_u16_to_le_bytes(
        r.length,
    ) + spec_u32_to_le_bytes(r.public_space_index) + spec_u16_to_le_bytes(r.locality_index)
}

/// The records of the first `n` ranges.
pub open spec fn records_bytes(ranges: Seq<NumberRange>, n: int) -> Seq<u8>
    decreases n,
{
    if n <= 0 {
        Seq::empty()
    } else {
        records_bytes(ranges, n - 1) + record_bytes(ranges[n - 1])
    }
}

/// Where the locality data starts in the file of a database.
pub open spec fn locality_data_start(c: DatabaseContent) -> int {
    36 + 4 * (c.localities.len() as int + 1)
}

/// Where the public-space offsets table starts.
pub open spec fn public_space_table_start(c: DatabaseContent) -> int {
    locality_data_start(c) + total_len(utf8_of(c.localities), c.localities.len() as int)
}

/// Where the public-space data starts.
pub open spec fn public_space_data_start(c: DatabaseContent) -> int {
    public_space_table_start(c) + 4 * (c.public_spaces.len() as int + 1)
}

/// Where the range records start.
pub open spec fn ranges_start(c: DatabaseContent) -> int {
    public_space_data_start(c) + total_len(utf8_of(c.public_spaces), c.public_spaces.len() as int)
}

/// Why a database cannot be written, if it cannot: a count or an offset
/// does not fit in 32 bits.
pub open spec fn encode_error(c: DatabaseContent) -> Option<BuildError> {
    if c.localities.len() > u32::MAX || c.public_spaces.len() > u32::MAX || c.ranges.len()
        > u32::MAX {
        Some(BuildError::CountOverflow)
    } else if ranges_start(c) > u32::MAX {
        Some(BuildError::OffsetOverflow)
    } else {
        None
    }
}

/// The header of the file of a database.
pub open spec fn header_bytes(c: DatabaseContent) -> Seq<u8> {
    seq![0x42u8, 0x41u8, 0x47u8, 0x31u8] + spec_u32_to_le_bytes(c.localities.len() as u32)
        + spec_u32_to_le_bytes(c.public_spaces.len() as u32) + spec_u32_to_le_bytes(
        c.ranges.len() as u32,
    ) + spec_u32_to_le_bytes(36) + spec_u32_to_le_bytes(locality_data_start(c) as u32)
        + spec_u32_to_le_bytes(public_space_table_start(c) as u32) + spec_u32_to_le_bytes(
        public_space_data_start(c) as u32,
    ) + spec_u32_to_le_bytes(ranges_start(c) as u32)
}

/// The file of a database: the header, the two pairs of offsets table and
/// data block, and the range records.
pub open spec fn encoded(c: DatabaseContent) -> Seq<u8> {
    header_bytes(c) + table_bytes(utf8_of(c.localities), c.localities.len() as int) + data_bytes(
        utf8_of(c.localities),
        c.localities.len() as int,
    ) + table_bytes(utf8_of(c.public_spaces), c.public_spaces.len() as int) + data_bytes(
        utf8_of(c.public_spaces),
        c.public_spaces.len() as int,
    ) + records_bytes(c.ranges, c.ranges.len() as int)
}

/// The length of more names is at least that of fewer.
pub proof fn lemma_total_len_grows(names: Seq<Seq<u8>>, m: int, n: int)
    requires
        0 <= m <= n,
    ensures
        0 <= total_len(names, m) <= total_len(names, n),
    decreases n,
{
    if n > 0 {
        if m < n {
            lemma_total_len_grows(names, m, n - 1);
        } else {
            lemma_total_len_grows(names, m - 1, n - 1);
        }
    }
}

fn put_u32(out: &mut Vec<u8>, value: u32)
    ensures
        final(out)@ == old(out)@ + spec_u32_to_le_bytes(value),
{
    let mut bytes = u32_to_le_bytes(value);
    out.append(&mut bytes);
}

fn put_u16(out: &mut Vec<u8>, value: u16)
    ensures
        final(out)@ == old(out)@ + spec_u16_to_le_bytes(value),
{
    let mut bytes = u16_to_le_bytes(value);
    out.append(&mut bytes);
}

fn put_bytes(out: &mut Vec<u8>, bytes: &[u8])
    ensures
        final(out)@ == old(out)@ + bytes@,
{
    out.extend_from_slice(bytes);
    assert(out@ =~= old(out)@ + bytes@);
}

/// The length of the data block of a list of names, where it fits in 32
/// bits.
fn names_len(names: &Vec<String>) -> (len: Option<u32>)
    ensures
        len == (if total_len(utf8_of(crate::database::texts(names@)), names@.len() as int)
            <= u32::MAX {
            Some(
                total_len(utf8_of(crate::database::texts(names@)), names@.len() as int) as u32,
            )
        } else {
            None
        }),
{
    let ghost all = utf8_of(crate::database::texts(names@));
    let mut sum: u32 = 0;
    let mut i: usize = 0;
    while i < names.len()
        invariant
            i <= names@.len(),
            all == utf8_of(crate::database::texts(names@)),
            sum == total_len(all, i as int),
        decreases names@.len() - i,
    {
        let len = names[i].as_str().as_bytes().len();
        assert(len == all[i as int].len());
        if len > (u32::MAX - sum) as usize {
            proof {
                lemma_total_len_grows(all, i + 1, names@.len() as int);
            }
            return None;
        }
        sum = sum + len as u32;
        i = i + 1;
    }
    Some(sum)
}

/// Append the offsets table of a list of names.
fn write_table(out: &mut Vec<u8>, names: &Vec<String>)
    requires
        total_len(utf8_of(crate::database::texts(names@)), names@.len() as int) <= u32::MAX,
    ensures
        final(out)@ == old(out)@ + table_bytes(
            utf8_of(crate::database::texts(names@)),
            names@.len() as int,
        ),
{
    let ghost all = utf8_of(crate::database::texts(names@));
    let mut offset: u32 = 0;
    put_u32(out, offset);
    let mut i: usize = 0;
    while i < names.len()
        invariant
            i <= names@.len(),
            all == utf8_of(crate::database::texts(names@)),
            total_len(all, names@.len() as int) <= u32::MAX,
            offset == total_len(all, i as int),
            out@ == old(out)@ + table_bytes(all, i as int),
        decreases names@.len() - i,
    {
        let len = names[i].as_str().as_bytes().len();
        proof {
            assert(len == all[i as int].len());
            lemma_total_len_grows(all, i + 1, names@.len() as int);
        }
        offset = offset + len as u32;
        let ghost before = out@;
        put_u32(out, offset);
        assert(out@ =~= old(out)@ + table_bytes(all, i + 1));
        i = i + 1;
    }
}

/// Append the data block of a list of names.
fn write_data(out: &mut Vec<u8>, names: &Vec<String>)
    ensures
        final(out)@ == old(out)@ + data_bytes(
            utf8_of(crate::database::texts(names@)),
            names@.len() as int,
        ),
{
    let ghost all = utf8_of(crate::database::texts(names@));
    let mut i: usize = 0;
    assert(out@ =~= old(out)@ + data_bytes(all, 0));
    while i < names.len()
        invariant
            i <= names@.len(),
            all == utf8_of(crate::database::texts(names@)),
            out@ == old(out)@ + data_bytes(all, i as int),
        decreases names@.len() - i,
    {
        put_bytes(out, names[i].as_str().as_bytes());
        assert(out@ =~= old(out)@ + data_bytes(all, i + 1));
        i = i + 1;
    }
}

/// Append the records of a list of ranges.
fn write_ranges(out: &mut Vec<u8>, ranges: &Vec<NumberRange>)
    ensures
        final(out)@ == old(out)@ + records_bytes(ranges@, ranges@.len() as int),
{
    let mut i: usize = 0;
    assert(out@ =~= old(out)@ + records_bytes(ranges@, 0));
    while i < ranges.len()
        invariant
            i <= ranges@.len(),
            out@ == old(out)@ + records_bytes(ranges@, i as int),
        decreases ranges@.len() - i,
    {
        let range = &ranges[i];
        put_u32(out, range.postal_code);
        put_u32(out, range.start);
        put_u16(out, range.length);
        put_u32(out, range.public_space_index);
        put_u16(out, range.locality_index);
        assert(out@ =~= old(out)@ + records_bytes(ranges@, i + 1));
        i = i + 1;
    }
}

impl Database {
    /// Write the database as the bytes of a file.
    ///
    /// Every section offset is computed before the first byte is written. A
    /// database whose counts or offsets do not fit in 32 bits is refused.
    pub fn encode(&self) -> (r: Result<Vec<u8>, BuildError>)
        ensures
            match r {
                Ok(bytes) => encode_error(self@) is None && bytes@ == encoded(self@),
                Err(e) => encode_error(self@) == Some(e),
            },
    {
        if self.localities.len() > u32::MAX as usize || self.public_spaces.len()
            > u32::MAX as usize || self.ranges.len() > u32::MAX as usize {
            return Err(BuildError::CountOverflow);
        }
        let mut out: Vec<u8> = Vec::new();
        match self.write_database(
            &mut out,
            self.localities.len() as u32,
            self.public_spaces.len() as u32,
            self.ranges.len() as u32,
        ) {
            Ok(()) => Ok(out),
            Err(e) => Err(e),
        }
    }

    /// Append the file of the database to `out`. Nothing is written where
    /// an offset does not fit in 32 bits.
    pub fn write_database(
        &self,
        out: &mut Vec<u8>,
        locality_count: u32,
        public_space_count: u32,
        range_count: u32,
    ) -> (r: Result<(), BuildError>)
        requires
            locality_count == self@.localities.len(),
            public_space_count == self@.public_spaces.len(),
            range_count == self@.ranges.len(),
        ensures
            match r {
                Ok(()) => encode_error(self@) is None && final(out)@ == old(out)@ + encoded(self@),
                Err(e) => encode_error(self@) == Some(e) && final(out)@ == old(out)@,
            },
    {
        let ghost c = self@;
        proof {
            lemma_total_len_grows(utf8_of(c.localities), 0, c.localities.len() as int);
            lemma_total_len_grows(utf8_of(c.public_spaces), 0, c.public_spaces.len() as int);
            lemma_auto_spec_u32_to_from_le_bytes();
        }
        let locality_data_len = names_len(&self.localities);
        let public_space_data_len = names_len(&self.public_spaces);
        let (locality_data_len, public_space_data_len) = match (
            locality_data_len,
            public_space_data_len,
        ) {
            (Some(a), Some(b)) => (a as u64, b as u64),
            _ => { return Err(BuildError::OffsetOverflow); },
        };
        let locality_data_offset: u64 = 36 + (locality_count as u64 + 1) * 4;
        let public_space_offsets_offset: u64 = locality_data_offset + locality_data_len;
        let public_space_data_offset: u64 = public_space_offsets_offset + (public_space_count as u64
            + 1) * 4;
        let ranges_offset: u64 = public_space_data_offset + public_space_data_len;
        if ranges_offset > u32::MAX as u64 {
            return Err(BuildError::OffsetOverflow);
        }
        out.push(0x42);
        out.push(0x41);
        out.push(0x47);
        out.push(0x31);
        put_u32(out, locality_count);
        put_u32(out, public_space_count);
        put_u32(out, range_count);
        put_u32(out, 36);
        put_u32(out, locality_data_offset as u32);
        put_u32(out, public_space_offsets_offset as u32);
        put_u32(out, public_space_data_offset as u32);
        put_u32(out, ranges_offset as u32);
        assert(out@ =~= old(out)@ + header_bytes(c));
        write_table(out, &self.localities);
        write_data(out, &self.localities);
        write_table(out, &self.public_spaces);
        write_data(out, &self.public_spaces);
        write_ranges(out, &self.ranges);
        assert(out@ =~= old(out)@ + encoded(c));
        Ok(())
    }
}

} // verus!
