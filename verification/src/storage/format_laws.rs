//! The files of a table, byte by byte.

use vstd::prelude::*;
use vstd::utf8::encode_utf8;

use crate::bytes::{bit_set, bytes_for_bits, le32, le64, le_bytes, lemma_le32, lemma_le64};
use crate::catalog::schema::ColumnType;
use crate::catalog::tables::path_join;
use crate::error::ErrorV;
use crate::storage::column_file::{
    blob, distinct, encoded_column, end_offsets, header_image, header_of, int_data, int_or_zero,
    lemma_present_len, live_int, live_range, magic, no_range, nulls_in, present_bits, raw_text,
};
use crate::storage::column_laws::{
    lemma_blob_piece, lemma_end_offsets, lemma_int_data, lemma_nulls, lemma_present_bits,
};
use crate::storage::delete_bitmap::{count_set, file_image, load_of, marked};
use crate::storage::model::{bitmap_path, col_file, column_path, group_path};
use crate::storage::ValueV;
use crate::text::zero_padded;

verus! {

// ---- numbers and bits ----

/// A 32-bit number is stored in four bytes, the lowest first.
pub proof fn law_four_bytes(n: u32)
    ensures
        le32(n as int) == seq![
            (n % 256) as u8,
            ((n / 256) % 256) as u8,
            ((n / 65536) % 256) as u8,
            ((n / 16777216) % 256) as u8,
        ],
{
    reveal_with_fuel(le_bytes, 5);
    let m = n as nat;
    assert(m / 256 / 256 == m / 65536);
    assert(m / 256 / 256 / 256 == m / 16777216);
    assert(le32(n as int) =~= seq![
        (n % 256) as u8,
        ((n / 256) % 256) as u8,
        ((n / 65536) % 256) as u8,
        ((n / 16777216) % 256) as u8,
    ]);
}

/// An integer is stored in eight bytes, the lowest first; a negative one as the
/// number that is larger by 2 to the power of 64.
pub proof fn law_eight_bytes(n: i64)
    ensures
        ({
            let m = if n < 0 {
                n + 0x1_0000_0000_0000_0000
            } else {
                n as int
            };
            le64(n as int) == seq![
                (m % 256) as u8,
                ((m / 0x100) % 256) as u8,
                ((m / 0x1_0000) % 256) as u8,
                ((m / 0x100_0000) % 256) as u8,
                ((m / 0x1_0000_0000) % 256) as u8,
                ((m / 0x100_0000_0000) % 256) as u8,
                ((m / 0x1_0000_0000_0000) % 256) as u8,
                ((m / 0x100_0000_0000_0000) % 256) as u8,
            ]
        }),
{
    reveal_with_fuel(le_bytes, 9);
    let i = if n < 0 {
        n + 0x1_0000_0000_0000_0000
    } else {
        n as int
    };
    let m = i as nat;
    assert(m / 256 / 256 == m / 0x1_0000);
    assert(m / 256 / 256 / 256 == m / 0x100_0000);
    assert(m / 256 / 256 / 256 / 256 == m / 0x1_0000_0000);
    assert(m / 256 / 256 / 256 / 256 / 256 == m / 0x100_0000_0000);
    assert(m / 256 / 256 / 256 / 256 / 256 / 256 == m / 0x1_0000_0000_0000);
    assert(m / 256 / 256 / 256 / 256 / 256 / 256 / 256 == m / 0x100_0000_0000_0000);
    assert(le64(n as int) =~= seq![
        (i % 256) as u8,
        ((i / 0x100) % 256) as u8,
        ((i / 0x1_0000) % 256) as u8,
        ((i / 0x100_0000) % 256) as u8,
        ((i / 0x1_0000_0000) % 256) as u8,
        ((i / 0x100_0000_0000) % 256) as u8,
        ((i / 0x1_0000_0000_0000) % 256) as u8,
        ((i / 0x100_0000_0000_0000) % 256) as u8,
    ]);
}

/// The bits of a byte, as a number.
proof fn lemma_bit_values(b: u8)
    by (bit_vector)
    ensures
        (b & (1u8 << 0u8) != 0) == ((b / 1) % 2 == 1),
        (b & (1u8 << 1u8) != 0) == ((b / 2) % 2 == 1),
        (b & (1u8 << 2u8) != 0) == ((b / 4) % 2 == 1),
        (b & (1u8 << 3u8) != 0) == ((b / 8) % 2 == 1),
        (b & (1u8 << 4u8) != 0) == ((b / 16) % 2 == 1),
        (b & (1u8 << 5u8) != 0) == ((b / 32) % 2 == 1),
        (b & (1u8 << 6u8) != 0) == ((b / 64) % 2 == 1),
        (b & (1u8 << 7u8) != 0) == ((b / 128) % 2 == 1),
{
}

/// Bit `i` of a bitmap is in its byte number `i / 8`, and there the one that
/// counts for 2 to the power of `i % 8`; behind the last byte no bit is set.
pub proof fn law_bits(bitmap: Seq<u8>, i: int)
    requires
        0 <= i,
    ensures
        bit_set(bitmap, i) <==> i / 8 < bitmap.len() && (bitmap[i / 8] as int / seq![
            1int, 2, 4, 8, 16, 32, 64, 128,
        ][i % 8]) % 2 == 1,
{
    if i / 8 < bitmap.len() {
        lemma_bit_values(bitmap[i / 8]);
    }
}

/// A bitmap takes as many bytes as its bits fill, begun ones included.
pub proof fn law_bitmap_sizes(n: int)
    requires
        0 <= n,
    ensures
        n <= 8 * bytes_for_bits(n) < n + 8,
{
}

// ---- column files ----

/// A column file starts with 56 bytes: the letters BALIKCOL, the version 1, the
/// type (0 for INT, 1 for TEXT), the layout, the flags, a zero, the number of
/// rows, the number of NULLs, and two slots of 16 bytes that hold the smallest
/// and the largest live value of an INT column and zeros for a TEXT column.
pub proof fn law_column_header_layout(
    ty: ColumnType,
    layout: u8,
    flags: u8,
    rows: u32,
    nulls: u32,
    min: i64,
    max: i64,
)
    ensures
        ({
            let h = header_image(
                ty,
                layout,
                flags,
                rows as int,
                nulls as int,
                (min as int, max as int),
            );
            &&& h.len() == 56
            &&& h.subrange(0, 8) == seq![66u8, 65, 76, 73, 75, 67, 79, 76]
            &&& h.subrange(8, 12) == seq![1u8, 0, 0, 0]
            &&& ty == ColumnType::Int ==> h[12] == 0
            &&& ty == ColumnType::Text ==> h[12] == 1
            &&& h[13] == layout
            &&& h[14] == flags
            &&& h[15] == 0
            &&& h.subrange(16, 20) == le32(rows as int)
            &&& h.subrange(20, 24) == le32(nulls as int)
            &&& ty == ColumnType::Int ==> h.subrange(24, 32) == le64(min as int) && h.subrange(
                40,
                48,
            ) == le64(max as int)
            &&& forall|i: int|
                32 <= i < 40 || 48 <= i < 56 || (ty == ColumnType::Text && 24 <= i < 56)
                    ==> #[trigger] h[i] == 0
        }),
{
    let h = header_image(ty, layout, flags, rows as int, nulls as int, (min as int, max as int));
    lemma_le32(1);
    lemma_le32(rows as int);
    lemma_le32(nulls as int);
    lemma_le64(min as int);
    lemma_le64(max as int);
    law_four_bytes(1);
    assert(h.subrange(0, 8) =~= seq![66u8, 65, 76, 73, 75, 67, 79, 76]);
    assert(h.subrange(8, 12) =~= le32(1));
    assert(le32(1) =~= seq![1u8, 0, 0, 0]);
    assert(h.subrange(16, 20) =~= le32(rows as int));
    assert(h.subrange(20, 24) =~= le32(nulls as int));
    if ty == ColumnType::Int {
        assert(h.subrange(24, 32) =~= le64(min as int));
        assert(h.subrange(40, 48) =~= le64(max as int));
    }
}

/// The live range of no live value is empty, from the largest integer to the
/// smallest.
pub proof fn law_empty_range()
    ensures
        no_range().0 == 0x7fff_ffff_ffff_ffff,
        no_range().1 == -0x8000_0000_0000_0000,
{
}

/// A live value is an integer of a row that is not deleted.
pub proof fn law_live_values(values: Seq<ValueV>, deleted: Seq<u8>, i: int)
    requires
        0 <= i < values.len(),
    ensures
        live_int(values, deleted, i) <==> (values[i] matches ValueV::Int(n)) && !bit_set(
            deleted,
            i,
        ),
{
}

/// An INT column is its header, then, where there are NULLs, one bit for each
/// row that says whether it is there, then eight bytes for each row: the
/// integer, or zero for NULL. The header counts the rows and the NULLs and says
/// by its flag whether there are NULLs.
pub proof fn law_int_column_layout(values: Seq<ValueV>, deleted: Seq<u8>, i: int)
    requires
        encoded_column(ColumnType::Int, values, deleted) is Ok,
        0 <= i < values.len(),
    ensures
        ({
            let bytes = encoded_column(ColumnType::Int, values, deleted)->Ok_0;
            let n = values.len() as int;
            let some_null = exists|k: int| 0 <= k < n && #[trigger] values[k] is Null;
            let map = bytes_for_bits(n);
            let start = if some_null {
                56 + map
            } else {
                56
            };
            let v = match values[i] {
                ValueV::Int(x) => x as int,
                _ => 0,
            };
            &&& bytes.len() == start + 8 * n
            &&& bytes.subrange(start + 8 * i, start + 8 * i + 8) == le64(v)
            &&& bytes[13] == 0
            &&& bytes[14] == if some_null {
                1u8
            } else {
                0u8
            }
            &&& bytes.subrange(16, 20) == le32(n)
            &&& some_null ==> (bit_set(bytes.subrange(56, 56 + map), i) <==> !(values[i] is Null))
        }),
{
    let bytes = encoded_column(ColumnType::Int, values, deleted)->Ok_0;
    let n = values.len() as int;
    let nulls = nulls_in(values);
    let range = live_range(values, deleted, n);
    let map = bytes_for_bits(n);
    let none = Seq::<u8>::empty();
    crate::storage::column_laws::lemma_range_bounds(values, deleted, n);
    lemma_nulls(values);
    lemma_int_data(values, none);
    lemma_present_bits(values, n);
    lemma_present_len(values, n);
    let data = int_data(values);
    assert(data + none =~= data);
    assert(data.subrange(i * 8, i * 8 + 8) == le64(int_or_zero(values[i])));
    if nulls > 0 {
        let head = header_image(ColumnType::Int, 0, 1, n, nulls, range);
        law_column_header_layout(
            ColumnType::Int,
            0,
            1,
            n as u32,
            nulls as u32,
            range.0 as i64,
            range.1 as i64,
        );
        assert(bytes == head + present_bits(values, n) + data);
        assert(bytes.subrange(56 + map + 8 * i, 56 + map + 8 * i + 8) =~= data.subrange(
            i * 8,
            i * 8 + 8,
        ));
        assert(bytes.subrange(16, 20) =~= head.subrange(16, 20));
        assert(bytes.subrange(56, 56 + map) =~= present_bits(values, n));
        assert(bytes[13] == head[13] && bytes[14] == head[14]);
    } else {
        let head = header_image(ColumnType::Int, 0, 0, n, 0, range);
        law_column_header_layout(
            ColumnType::Int,
            0,
            0,
            n as u32,
            0,
            range.0 as i64,
            range.1 as i64,
        );
        assert(bytes == head + data);
        assert(bytes.subrange(56 + 8 * i, 56 + 8 * i + 8) =~= data.subrange(i * 8, i * 8 + 8));
        assert(bytes.subrange(16, 20) =~= head.subrange(16, 20));
        assert(bytes[13] == head[13] && bytes[14] == head[14]);
    }
}

/// The raw layout of texts: for each row four bytes that say where it ends, then
/// the texts in UTF-8, one behind the other; NULL takes no bytes.
pub proof fn law_raw_text_layout(values: Seq<ValueV>, i: int)
    requires
        blob(values).len() <= u32::MAX,
        0 <= i < values.len(),
    ensures
        ({
            let data = raw_text(values);
            let n = values.len() as int;
            let start = blob(values.take(i)).len() as int;
            let end = blob(values.take(i + 1)).len() as int;
            &&& blob(values.take(0)).len() == 0
            &&& data.len() == 4 * n + blob(values).len()
            &&& crate::bytes::u32_at(data, 4 * i) == end
            &&& end == start + match values[i] {
                ValueV::Text(s) => encode_utf8(s).len() as int,
                _ => 0,
            }
            &&& values[i] matches ValueV::Text(s) ==> data.subrange(4 * n + start, 4 * n + end)
                == encode_utf8(s)
        }),
{
    let data = raw_text(values);
    let n = values.len() as int;
    lemma_end_offsets(values, blob(values));
    lemma_blob_piece(values, i);
    assert(values.take(i + 1).drop_last() =~= values.take(i));
    let start = blob(values.take(i)).len() as int;
    let end = blob(values.take(i + 1)).len() as int;
    assert(crate::storage::column_file::end_at(end_offsets(values) + blob(values), i) == end);
    assert(data.subrange(4 * n + start, 4 * n + end) =~= blob(values).subrange(start, end));
}

/// The dictionary of texts holds each text of the column once, and nothing else.
pub proof fn law_dictionary(values: Seq<ValueV>, v: ValueV)
    ensures
        distinct(values).no_duplicates(),
        distinct(values).contains(v) <==> v is Text && values.contains(v),
    decreases values.len(),
{
    if values.len() > 0 {
        let front = values.drop_last();
        let last = values.last();
        law_dictionary(front, v);
        law_dictionary(front, last);
        assert(values.contains(v) <==> front.contains(v) || v == last) by {
            if front.contains(v) {
                let i = front.index_of(v);
                assert(values[i] == v);
            }
            if values.contains(v) && v != last {
                let i = values.index_of(v);
                assert(front[i] == v);
            }
            assert(values[values.len() - 1] == last);
        }
        let before = distinct(front);
        let after = distinct(values);
        if last is Text && !before.contains(last) {
            assert(after == before.push(last));
            assert(after.contains(v) <==> before.contains(v) || v == last) by {
                if before.contains(v) {
                    let i = before.index_of(v);
                    assert(after[i] == v);
                }
                if after.contains(v) && v != last {
                    let i = after.index_of(v);
                    assert(before[i] == v);
                }
                assert(after[after.len() - 1] == last);
            }
        }
    }
}

/// Values of another type are refused, and so are more rows than 32 bits count;
/// INT values are never refused otherwise.
pub proof fn law_columns_refuse_other_types(
    ty: ColumnType,
    values: Seq<ValueV>,
    deleted: Seq<u8>,
    i: int,
)
    requires
        0 <= i < values.len(),
    ensures
        ty == ColumnType::Int && values[i] is Text ==> encoded_column(ty, values, deleted) is Err,
        ty == ColumnType::Text && values[i] is Int ==> encoded_column(ty, values, deleted) is Err,
        values.len() > u32::MAX ==> encoded_column(ty, values, deleted) is Err,
        ty == ColumnType::Int && values.len() <= u32::MAX && (forall|k: int|
            0 <= k < values.len() ==> !((#[trigger] values[k]) is Text)) ==> encoded_column(
            ty,
            values,
            deleted,
        ) is Ok,
{
    if values[i] is Text || values[i] is Int {
        assert(values[i] == values[i]);
    }
}

/// A file is read as a column only where it has a whole header, starts with the
/// letters, is of no version above 1 and has a type that there is.
pub proof fn law_column_headers_are_checked(bytes: Seq<u8>, path: Seq<char>)
    ensures
        header_of(bytes, path) is Ok <==> bytes.len() >= 56 && bytes.take(8) == seq![
            66u8, 65, 76, 73, 75, 67, 79, 76,
        ] && crate::bytes::u32_at(bytes, 8) <= 1 && (bytes[12] == 0 || bytes[12] == 1),
        header_of(bytes, path) matches Err(e) ==> e is Corrupt,
{
    if bytes.len() >= 56 {
        assert(bytes.take(8).len() == 8);
        if magic().is_prefix_of(bytes) {
            assert(bytes.take(8) =~= magic());
        }
        if bytes.take(8) == magic() {
            assert(magic().is_prefix_of(bytes));
        }
    }
}

// ---- files of deleted rows ----

/// A file of deleted rows is the letters BALIKDEL, the version 1, the number of
/// deleted rows, eight zeros, and the bitmap.
pub proof fn law_delete_file_layout(count: u32, bits: Seq<u8>)
    ensures
        ({
            let f = file_image(count as int, bits);
            &&& f.len() == 24 + bits.len()
            &&& f.subrange(0, 8) == seq![66u8, 65, 76, 73, 75, 68, 69, 76]
            &&& f.subrange(8, 12) == seq![1u8, 0, 0, 0]
            &&& f.subrange(12, 16) == le32(count as int)
            &&& forall|i: int| 16 <= i < 24 ==> #[trigger] f[i] == 0
            &&& f.skip(24) == bits
        }),
{
    let f = file_image(count as int, bits);
    lemma_le32(1);
    lemma_le32(count as int);
    law_four_bytes(1);
    assert(f.subrange(0, 8) =~= seq![66u8, 65, 76, 73, 75, 68, 69, 76]);
    assert(f.subrange(8, 12) =~= le32(1));
    assert(le32(1) =~= seq![1u8, 0, 0, 0]);
    assert(f.subrange(12, 16) =~= le32(count as int));
    assert(f.skip(24) =~= bits);
}

/// Counting bits: one more for each bit that is set.
pub proof fn law_counting_bits(bits: Seq<u8>, n: int)
    requires
        0 <= n,
    ensures
        count_set(bits, 0) == 0,
        bit_set(bits, n) ==> count_set(bits, n + 1) - count_set(bits, n) == 1,
        !bit_set(bits, n) ==> count_set(bits, n + 1) - count_set(bits, n) == 0,
{
}

// ---- names of files ----

/// The files of a row group are in the directory of the table, under
/// `row_groups` and the number of the group in six digits or more: a file for
/// each column, by its name, and the file of deleted rows.
pub proof fn law_file_names(dir: Seq<char>, group: u32, column: Seq<char>)
    requires
        dir.len() > 0,
        dir.last() != '/',
        column.len() > 0,
        column[0] != '/',
    ensures
        group_path(dir, group) == dir + "/row_groups/"@ + zero_padded(group as nat, 6),
        column_path(dir, group, column) == group_path(dir, group) + "/"@ + column + ".col"@,
        bitmap_path(dir, group) == group_path(dir, group) + "/deletes.bm"@,
{
    reveal_strlit("/");
    reveal_strlit("row_groups");
    reveal_strlit("/row_groups/");
    reveal_strlit(".col");
    reveal_strlit("deletes.bm");
    reveal_strlit("/deletes.bm");
    let number = zero_padded(group as nat, 6);
    crate::text_laws::law_zero_padded_numerals(group as nat, 6);
    lemma_digits_are_digits(group as nat);
    let shown = crate::text::digits(group as nat);
    assert forall|i: int| 0 <= i < number.len() implies '0' <= #[trigger] number[i] <= '9' by {
        if i >= number.len() - shown.len() {
            assert(number[i] == shown[i - (number.len() - shown.len())]);
        }
    }
    assert(number.len() >= 6);
    assert(number[0] != '/');
    assert(number.last() == number[number.len() - 1]);
    let base = dir + "/"@ + "row_groups"@;
    assert(path_join(dir, "row_groups"@) == base);
    assert(base.last() == 's');
    assert(group_path(dir, group) == base + "/"@ + number);
    assert(group_path(dir, group) =~= dir + "/row_groups/"@ + number);
    let g = group_path(dir, group);
    assert(g.last() == number.last());
    assert(col_file(column)[0] == column[0]);
    assert(column_path(dir, group, column) =~= g + "/"@ + column + ".col"@);
    assert("deletes.bm"@[0] == 'd');
    assert(bitmap_path(dir, group) =~= g + "/deletes.bm"@);
}

/// Numerals are made of digits.
proof fn lemma_digits_are_digits(n: nat)
    ensures
        crate::text::digits(n).len() > 0,
        forall|i: int|
            0 <= i < crate::text::digits(n).len() ==> '0' <= #[trigger] crate::text::digits(n)[i]
                <= '9',
    decreases n,
{
    if n >= 10 {
        lemma_digits_are_digits(n / 10);
    }
}

/// A file of deleted rows is read only where it has a whole header, starts with
/// the letters and is of no version above 1; its bitmap is what follows.
pub proof fn law_delete_headers_are_checked(bytes: Seq<u8>, path: Seq<char>)
    ensures
        load_of(Some(bytes), path) is Ok <==> bytes.len() >= 24 && bytes.take(8) == seq![
            66u8, 65, 76, 73, 75, 68, 69, 76,
        ] && crate::bytes::u32_at(bytes, 8) <= 1,
        load_of(Some(bytes), path) matches Ok((header, bits)) ==> bits == bytes.skip(24)
            && header.deleted_count == crate::bytes::u32_at(bytes, 12),
        load_of(Some(bytes), path) matches Err(e) ==> e is Corrupt,
        load_of(None, path) matches Err(e) && e is Io,
{
    let letters = seq![66u8, 65, 76, 73, 75, 68, 69, 76];
    if bytes.len() >= 24 {
        if letters.is_prefix_of(bytes) {
            assert(bytes.take(8) =~= letters);
        }
        if bytes.take(8) == letters {
            assert(letters.is_prefix_of(bytes));
        }
        crate::bytes::lemma_u32_range(bytes.subrange(12, 16));
        crate::bytes::lemma_u32_range(bytes.subrange(8, 12));
    }
}

/// Marking a row that is marked already changes nothing, and a row that the file
/// has no bit for is refused.
pub proof fn law_marking_twice(bytes: Seq<u8>, path: Seq<char>, offset: int)
    requires
        load_of(Some(bytes), path) is Ok,
        0 <= offset,
    ensures
        ({
            let bits = bytes.skip(24);
            &&& offset / 8 >= bits.len() ==> marked(Some(bytes), path, offset) is Err
            &&& bit_set(bits, offset) ==> marked(Some(bytes), path, offset) == Ok::<
                Seq<u8>,
                ErrorV,
            >(bytes)
        }),
{
}

} // verus!
