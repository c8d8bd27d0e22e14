//! What the encoder and the two readers owe each other.

use crate::database::{range_record, DatabaseContent, NumberRange};
use crate::decode::{decode_error, decoded_names, file_content, names_are_text};
use crate::encode::{
    data_bytes, encode_error, encoded, header_bytes, lemma_total_len_grows,
    locality_data_start, public_space_data_start, public_space_table_start, ranges_start,
    record_bytes, records_bytes, table_bytes, total_len, utf8_of,
};
use crate::layout::{has_magic, header_error, header_of, table_entry, table_ok};
use crate::lookup::{lookup_in, present};
use crate::view::{
    file_localities, file_public_spaces, file_range, file_ranges, name_bytes, view_error,
};
use crate::wire::{u16_at, u32_at};
use vstd::bytes::{
    lemma_auto_spec_u16_to_from_le_bytes, lemma_auto_spec_u32_to_from_le_bytes,
    spec_u16_to_le_bytes, spec_u32_to_le_bytes,
};
use vstd::prelude::*;
use vstd::utf8::{
    decode_utf8, encode_utf8, encode_utf8_decode_utf8, encode_utf8_valid_utf8, valid_utf8,
};

verus! {

/// A piece of a sequence that lies inside its middle part is a piece of
/// that part.
proof fn lemma_window(pre: Seq<u8>, mid: Seq<u8>, post: Seq<u8>, i: int, j: int)
    requires
        0 <= i <= j <= mid.len(),
    ensures
        (pre + mid + post).subrange(pre.len() + i, pre.len() + j) == mid.subrange(i, j),
{
    assert((pre + mid + post).subrange(pre.len() + i, pre.len() + j) =~= mid.subrange(i, j));
}

proof fn lemma_u32_window(pre: Seq<u8>, mid: Seq<u8>, post: Seq<u8>, i: int)
    requires
        0 <= i,
        i + 4 <= mid.len(),
    ensures
        u32_at(pre + mid + post, pre.len() + i) == u32_at(mid, i),
{
    lemma_window(pre, mid, post, i, i + 4);
}

proof fn lemma_u16_window(pre: Seq<u8>, mid: Seq<u8>, post: Seq<u8>, i: int)
    requires
        0 <= i,
        i + 2 <= mid.len(),
    ensures
        u16_at(pre + mid + post, pre.len() + i) == u16_at(mid, i),
{
    lemma_window(pre, mid, post, i, i + 2);
}

/// The integer written between two pieces is read back from there.
proof fn lemma_u32_written(pre: Seq<u8>, value: u32, post: Seq<u8>)
    ensures
        u32_at(pre + spec_u32_to_le_bytes(value) + post, pre.len() as int) == value,
{
    lemma_auto_spec_u32_to_from_le_bytes();
    let mid = spec_u32_to_le_bytes(value);
    lemma_window(pre, mid, post, 0, 4);
    assert(mid.subrange(0, 4) =~= mid);
}

proof fn lemma_u16_written(pre: Seq<u8>, value: u16, post: Seq<u8>)
    ensures
        u16_at(pre + spec_u16_to_le_bytes(value) + post, pre.len() as int) == value,
{
    lemma_auto_spec_u16_to_from_le_bytes();
    let mid = spec_u16_to_le_bytes(value);
    lemma_window(pre, mid, post, 0, 2);
    assert(mid.subrange(0, 2) =~= mid);
}

proof fn lemma_table_len(names: Seq<Seq<u8>>, n: int)
    requires
        0 <= n,
    ensures
        table_bytes(names, n).len() == 4 * (n + 1),
    decreases n,
{
    lemma_auto_spec_u32_to_from_le_bytes();
    if n > 0 {
        lemma_table_len(names, n - 1);
    }
}

/// Entry `k` of the offsets table is the length of the first `k` names.
proof fn lemma_table_entry(names: Seq<Seq<u8>>, n: int, k: int)
    requires
        0 <= k <= n,
        total_len(names, n) <= u32::MAX,
    ensures
        u32_at(table_bytes(names, n), 4 * k) == total_len(names, k),
    decreases n,
{
    lemma_auto_spec_u32_to_from_le_bytes();
    lemma_total_len_grows(names, k, n);
    if n == 0 {
        let t = spec_u32_to_le_bytes(0);
        assert(t.subrange(0, 4) =~= t);
    } else {
        lemma_table_len(names, n - 1);
        lemma_total_len_grows(names, n - 1, n);
        let head = table_bytes(names, n - 1);
        let last = spec_u32_to_le_bytes(total_len(names, n) as u32);
        if k == n {
            assert((head + last).subrange(4 * k, 4 * k + 4) =~= last);
        } else {
            lemma_table_entry(names, n - 1, k);
            assert((head + last).subrange(4 * k, 4 * k + 4) =~= head.subrange(4 * k, 4 * k + 4));
        }
    }
}

proof fn lemma_data_len(names: Seq<Seq<u8>>, n: int)
    requires
        0 <= n,
    ensures
        data_bytes(names, n).len() == total_len(names, n),
    decreases n,
{
    if n > 0 {
        lemma_data_len(names, n - 1);
    }
}

/// Name `k` lies in the data block between the offsets `k` and `k + 1`.
proof fn lemma_data_name(names: Seq<Seq<u8>>, n: int, k: int)
    requires
        0 <= k < n,
    ensures
        data_bytes(names, n).subrange(total_len(names, k), total_len(names, k + 1)) == names[k],
    decreases n,
{
    lemma_data_len(names, n - 1);
    lemma_total_len_grows(names, k, n - 1);
    lemma_total_len_grows(names, 0, k);
    let head = data_bytes(names, n - 1);
    if k == n - 1 {
        assert((head + names[k]).subrange(total_len(names, k), total_len(names, k + 1))
            =~= names[k]);
    } else {
        lemma_data_name(names, n - 1, k);
        lemma_total_len_grows(names, k + 1, n - 1);
        assert((head + names[n - 1]).subrange(total_len(names, k), total_len(names, k + 1))
            =~= head.subrange(total_len(names, k), total_len(names, k + 1)));
    }
}

proof fn lemma_record_len(r: NumberRange)
    ensures
        record_bytes(r).len() == 16,
{
    lemma_auto_spec_u32_to_from_le_bytes();
    lemma_auto_spec_u16_to_from_le_bytes();
}

/// A record is read back field by field.
proof fn lemma_record_read(r: NumberRange)
    ensures
        range_record(record_bytes(r), 0) == r,
{
    lemma_auto_spec_u32_to_from_le_bytes();
    lemma_auto_spec_u16_to_from_le_bytes();
    let a = spec_u32_to_le_bytes(r.postal_code);
    let b = spec_u32_to_le_bytes(r.start);
    let c = spec_u16_to_le_bytes(r.length);
    let d = spec_u32_to_le_bytes(r.public_space_index);
    let e = spec_u16_to_le_bytes(r.locality_index);
    let all = record_bytes(r);
    let empty = Seq::<u8>::empty();
    assert(all =~= empty + a + (b + c + d + e));
    lemma_u32_written(empty, r.postal_code, b + c + d + e);
    assert(all =~= a + b + (c + d + e));
    lemma_u32_written(a, r.start, c + d + e);
    assert(all =~= (a + b) + c + (d + e));
    lemma_u16_written(a + b, r.length, d + e);
    assert(all =~= (a + b + c) + d + e);
    lemma_u32_written(a + b + c, r.public_space_index, e);
    assert(all =~= (a + b + c + d) + e + empty);
    lemma_u16_written(a + b + c + d, r.locality_index, empty);
}

proof fn lemma_records_len(ranges: Seq<NumberRange>, n: int)
    requires
        0 <= n,
    ensures
        records_bytes(ranges, n).len() == 16 * n,
    decreases n,
{
    if n > 0 {
        lemma_records_len(ranges, n - 1);
        lemma_record_len(ranges[n - 1]);
    }
}

/// A record read inside a middle part is the record of that part.
proof fn lemma_record_window(pre: Seq<u8>, mid: Seq<u8>, post: Seq<u8>, i: int)
    requires
        0 <= i,
        i + 16 <= mid.len(),
    ensures
        range_record(pre + mid + post, pre.len() + i) == range_record(mid, i),
{
    lemma_u32_window(pre, mid, post, i);
    lemma_u32_window(pre, mid, post, i + 4);
    lemma_u16_window(pre, mid, post, i + 8);
    lemma_u32_window(pre, mid, post, i + 10);
    lemma_u16_window(pre, mid, post, i + 14);
}

/// Record `k` of the range block is range `k`.
proof fn lemma_record_at(ranges: Seq<NumberRange>, n: int, k: int)
    requires
        0 <= k < n,
    ensures
        range_record(records_bytes(ranges, n), 16 * k) == ranges[k],
    decreases n,
{
    lemma_records_len(ranges, n - 1);
    lemma_record_len(ranges[n - 1]);
    let head = records_bytes(ranges, n - 1);
    let last = record_bytes(ranges[n - 1]);
    let empty = Seq::<u8>::empty();
    if k == n - 1 {
        assert(head + last =~= head + last + empty);
        lemma_record_window(head, last, empty, 0);
        lemma_record_read(ranges[k]);
    } else {
        lemma_record_at(ranges, n - 1, k);
        assert(head + last =~= empty + head + last);
        lemma_record_window(empty, head, last, 16 * k);
    }
}

/// The parts of the file of a database, with what lies before and behind
/// each.
spec fn part(c: DatabaseContent, k: int) -> Seq<u8> {
    if k == 0 {
        header_bytes(c)
    } else if k == 1 {
        table_bytes(utf8_of(c.localities), c.localities.len() as int)
    } else if k == 2 {
        data_bytes(utf8_of(c.localities), c.localities.len() as int)
    } else if k == 3 {
        table_bytes(utf8_of(c.public_spaces), c.public_spaces.len() as int)
    } else if k == 4 {
        data_bytes(utf8_of(c.public_spaces), c.public_spaces.len() as int)
    } else {
        records_bytes(c.ranges, c.ranges.len() as int)
    }
}

spec fn before(c: DatabaseContent, k: int) -> Seq<u8>
    decreases k,
{
    if k <= 0 {
        Seq::empty()
    } else {
        before(c, k - 1) + part(c, k - 1)
    }
}

spec fn behind(c: DatabaseContent, k: int) -> Seq<u8>
    decreases 5 - k,
{
    if k >= 5 {
        Seq::empty()
    } else {
        part(c, k + 1) + behind(c, k + 1)
    }
}

proof fn lemma_header_len(c: DatabaseContent)
    ensures
        header_bytes(c).len() == 36,
{
    lemma_auto_spec_u32_to_from_le_bytes();
}

/// The lengths of the parts, and each part in its place in the file.
proof fn lemma_parts(c: DatabaseContent)
    requires
        encode_error(c) is None,
    ensures
        before(c, 0).len() == 0,
        before(c, 1).len() == 36,
        before(c, 2).len() == locality_data_start(c),
        before(c, 3).len() == public_space_table_start(c),
        before(c, 4).len() == public_space_data_start(c),
        before(c, 5).len() == ranges_start(c),
        encoded(c).len() == ranges_start(c) + 16 * c.ranges.len(),
        forall|k: int| 0 <= k <= 5 ==> encoded(c) == #[trigger] before(c, k) + part(c, k) + behind(c, k),
        total_len(utf8_of(c.localities), c.localities.len() as int) >= 0,
        total_len(utf8_of(c.public_spaces), c.public_spaces.len() as int) >= 0,
{
    reveal_with_fuel(before, 7);
    reveal_with_fuel(behind, 7);
    lemma_header_len(c);
    let loc = utf8_of(c.localities);
    let ps = utf8_of(c.public_spaces);
    lemma_table_len(loc, c.localities.len() as int);
    lemma_data_len(loc, c.localities.len() as int);
    lemma_table_len(ps, c.public_spaces.len() as int);
    lemma_data_len(ps, c.public_spaces.len() as int);
    lemma_records_len(c.ranges, c.ranges.len() as int);
    lemma_total_len_grows(loc, 0, c.localities.len() as int);
    lemma_total_len_grows(ps, 0, c.public_spaces.len() as int);
    assert forall|k: int| 0 <= k <= 5 implies encoded(c) == #[trigger] before(c, k) + part(c, k)
        + behind(c, k) by {
        assert(encoded(c) =~= before(c, k) + part(c, k) + behind(c, k));
    }
}

/// The header of the file of a database says what the encoder computed.
proof fn lemma_header_read(c: DatabaseContent)
    requires
        encode_error(c) is None,
    ensures
        encoded(c).len() >= 36,
        has_magic(encoded(c)),
        header_of(encoded(c)).locality_count == c.localities.len(),
        header_of(encoded(c)).public_space_count == c.public_spaces.len(),
        header_of(encoded(c)).range_count == c.ranges.len(),
        header_of(encoded(c)).locality_offsets_offset == 36,
        header_of(encoded(c)).locality_data_offset == locality_data_start(c),
        header_of(encoded(c)).public_space_offsets_offset == public_space_table_start(c),
        header_of(encoded(c)).public_space_data_offset == public_space_data_start(c),
        header_of(encoded(c)).ranges_offset == ranges_start(c),
{
    lemma_parts(c);
    lemma_auto_spec_u32_to_from_le_bytes();
    let h = header_bytes(c);
    let b = encoded(c);
    let empty = Seq::<u8>::empty();
    assert(b == before(c, 0) + part(c, 0) + behind(c, 0));
    assert(before(c, 0) =~= empty);
    assert forall|i: int| 0 <= i && i + 4 <= 36 implies u32_at(b, i) == u32_at(h, i) by {
        lemma_u32_window(empty, h, behind(c, 0), i);
    }
    assert(b[0] == h[0] && b[1] == h[1] && b[2] == h[2] && b[3] == h[3]);
    let magic = seq![0x42u8, 0x41u8, 0x47u8, 0x31u8];
    let f1 = spec_u32_to_le_bytes(c.localities.len() as u32);
    let f2 = spec_u32_to_le_bytes(c.public_spaces.len() as u32);
    let f3 = spec_u32_to_le_bytes(c.ranges.len() as u32);
    let f4 = spec_u32_to_le_bytes(36);
    let f5 = spec_u32_to_le_bytes(locality_data_start(c) as u32);
    let f6 = spec_u32_to_le_bytes(public_space_table_start(c) as u32);
    let f7 = spec_u32_to_le_bytes(public_space_data_start(c) as u32);
    let f8 = spec_u32_to_le_bytes(ranges_start(c) as u32);
    assert(h =~= magic + f1 + (f2 + f3 + f4 + f5 + f6 + f7 + f8));
    lemma_u32_written(magic, c.localities.len() as u32, f2 + f3 + f4 + f5 + f6 + f7 + f8);
    assert(h =~= (magic + f1) + f2 + (f3 + f4 + f5 + f6 + f7 + f8));
    lemma_u32_written(magic + f1, c.public_spaces.len() as u32, f3 + f4 + f5 + f6 + f7 + f8);
    assert(h =~= (magic + f1 + f2) + f3 + (f4 + f5 + f6 + f7 + f8));
    lemma_u32_written(magic + f1 + f2, c.ranges.len() as u32, f4 + f5 + f6 + f7 + f8);
    assert(h =~= (magic + f1 + f2 + f3) + f4 + (f5 + f6 + f7 + f8));
    lemma_u32_written(magic + f1 + f2 + f3, 36, f5 + f6 + f7 + f8);
    assert(h =~= (magic + f1 + f2 + f3 + f4) + f5 + (f6 + f7 + f8));
    lemma_u32_written(
        magic + f1 + f2 + f3 + f4,
        locality_data_start(c) as u32,
        f6 + f7 + f8,
    );
    assert(h =~= (magic + f1 + f2 + f3 + f4 + f5) + f6 + (f7 + f8));
    lemma_u32_written(
        magic + f1 + f2 + f3 + f4 + f5,
        public_space_table_start(c) as u32,
        f7 + f8,
    );
    assert(h =~= (magic + f1 + f2 + f3 + f4 + f5 + f6) + f7 + f8);
    lemma_u32_written(
        magic + f1 + f2 + f3 + f4 + f5 + f6,
        public_space_data_start(c) as u32,
        f8,
    );
    assert(h =~= (magic + f1 + f2 + f3 + f4 + f5 + f6 + f7) + f8 + empty);
    lemma_u32_written(
        magic + f1 + f2 + f3 + f4 + f5 + f6 + f7,
        ranges_start(c) as u32,
        empty,
    );
}

/// The offsets table and the data block of one list of names are read back
/// from where the encoder put them.
proof fn lemma_names_read(
    bytes: Seq<u8>,
    pre: Seq<u8>,
    names: Seq<Seq<char>>,
    post: Seq<u8>,
)
    requires
        total_len(utf8_of(names), names.len() as int) <= u32::MAX,
        bytes == pre + table_bytes(utf8_of(names), names.len() as int) + (data_bytes(
            utf8_of(names),
            names.len() as int,
        ) + post),
    ensures
        table_ok(bytes, pre.len() as int, names.len() as int),
        table_entry(bytes, pre.len() as int, names.len() as int) == total_len(
            utf8_of(names),
            names.len() as int,
        ),
        names_are_text(
            bytes,
            pre.len() as int,
            pre.len() as int + 4 * (names.len() as int + 1),
            names.len() as int,
        ),
        decoded_names(
            bytes,
            pre.len() as int,
            pre.len() as int + 4 * (names.len() as int + 1),
            names.len() as int,
        ) == names,
{
    let all = utf8_of(names);
    let n = names.len() as int;
    let table = table_bytes(all, n);
    let data = data_bytes(all, n);
    let at = pre.len() as int;
    let data_at = at + 4 * (n + 1);
    lemma_table_len(all, n);
    lemma_data_len(all, n);
    assert forall|k: int| 0 <= k <= n implies #[trigger] table_entry(bytes, at, k) == total_len(
        all,
        k,
    ) by {
        lemma_table_entry(all, n, k);
        lemma_u32_window(pre, table, data + post, 4 * k);
    }
    assert forall|i: int, j: int| 0 <= i <= j <= n implies #[trigger] table_entry(bytes, at, i)
        <= #[trigger] table_entry(bytes, at, j) by {
        lemma_total_len_grows(all, i, j);
    }
    assert(bytes =~= (pre + table) + data + post);
    assert forall|k: int| 0 <= k < n implies #[trigger] name_bytes(bytes, at, data_at, k)
        == encode_utf8(names[k]) by {
        lemma_total_len_grows(all, 0, k);
        lemma_total_len_grows(all, k, k + 1);
        lemma_total_len_grows(all, k + 1, n);
        lemma_window(pre + table, data, post, total_len(all, k), total_len(all, k + 1));
        lemma_data_name(all, n, k);
        assert(table_entry(bytes, at, k) == total_len(all, k));
        assert(table_entry(bytes, at, k + 1) == total_len(all, k + 1));
    }
    assert forall|k: int| 0 <= k < n implies valid_utf8(
        #[trigger] name_bytes(bytes, at, data_at, k),
    ) && decode_utf8(name_bytes(bytes, at, data_at, k)) == names[k] by {
        encode_utf8_valid_utf8(names[k]);
        encode_utf8_decode_utf8(names[k]);
    }
    assert(decoded_names(bytes, at, data_at, n) =~= names);
}

/// The data block of a list of names is empty only where every name is.
pub open spec fn has_name_bytes(names: Seq<Seq<char>>) -> bool {
    names.len() != 0 ==> total_len(utf8_of(names), names.len() as int) != 0
}

/// Round trip: a database that the encoder accepts, and that has a byte of
/// name data in each list that is not empty, is read back from its file as
/// it was: the same names and the same ranges.
pub proof fn lemma_round_trip(c: DatabaseContent)
    requires
        encode_error(c) is None,
        has_name_bytes(c.localities),
        has_name_bytes(c.public_spaces),
    ensures
        decode_error(encoded(c)) is None,
        view_error(encoded(c)) is None,
        file_content(encoded(c)) == c,
{
    let b = encoded(c);
    lemma_parts(c);
    lemma_header_read(c);
    let h = header_of(b);
    assert(header_error(b) is None);
    assert(b == before(c, 1) + part(c, 1) + behind(c, 1));
    assert(behind(c, 1) == part(c, 2) + behind(c, 2)) by {
        reveal_with_fuel(behind, 2);
    }
    lemma_names_read(b, before(c, 1), c.localities, behind(c, 2));
    assert(b == before(c, 3) + part(c, 3) + behind(c, 3));
    assert(behind(c, 3) == part(c, 4) + behind(c, 4)) by {
        reveal_with_fuel(behind, 2);
    }
    lemma_names_read(b, before(c, 3), c.public_spaces, behind(c, 4));
    assert(b == before(c, 5) + part(c, 5) + behind(c, 5));
    lemma_records_len(c.ranges, c.ranges.len() as int);
    assert forall|i: int| 0 <= i < c.ranges.len() implies #[trigger] file_range(b, i)
        == c.ranges[i] by {
        lemma_record_window(before(c, 5), part(c, 5), behind(c, 5), 16 * i);
        lemma_record_at(c.ranges, c.ranges.len() as int, i);
    }
    assert(file_ranges(b) =~= c.ranges);
    crate::decode::lemma_readers_accept_alike(b);
}

/// Lookup agreement: on a file that the owned reader accepts, a lookup in
/// the decoded database and a lookup in the file in place give the same
/// answer, whatever is asked.
pub proof fn lemma_readers_answer_alike(bytes: Seq<u8>, typed: Seq<u8>, house_number: u32)
    requires
        decode_error(bytes) is None,
    ensures
        view_error(bytes) is None,
        lookup_in(
            file_ranges(bytes),
            file_public_spaces(bytes),
            file_localities(bytes),
            typed,
            house_number,
        ) == lookup_in(
            file_content(bytes).ranges,
            present(file_content(bytes).public_spaces),
            present(file_content(bytes).localities),
            typed,
            house_number,
        ),
{
    crate::decode::lemma_readers_accept_alike(bytes);
    let h = header_of(bytes);
    assert(file_localities(bytes) =~= present(file_content(bytes).localities)) by {
        assert forall|i: int| 0 <= i < h.locality_count implies file_localities(bytes)[i] == Some(
            file_content(bytes).localities[i],
        ) by {
            assert(valid_utf8(name_bytes(bytes, 36, h.locality_data_offset as int, i)));
        }
    }
    assert(file_public_spaces(bytes) =~= present(file_content(bytes).public_spaces)) by {
        assert forall|i: int| 0 <= i < h.public_space_count implies file_public_spaces(bytes)[i]
            == Some(file_content(bytes).public_spaces[i]) by {
            assert(valid_utf8(
                name_bytes(
                    bytes,
                    h.public_space_offsets_offset as int,
                    h.public_space_data_offset as int,
                    i,
                ),
            ));
        }
    }
}

} // verus!
