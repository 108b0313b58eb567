//! What reading a column file gives back of what was written to it.

use vstd::prelude::*;
use vstd::utf8::*;

use crate::bytes::{
    bit_set, bytes_for_bits, i64_at, le32, le64, lemma_le32, lemma_le64, lemma_u32_range,
    lemma_with_bit, lemma_zero_bits, u32_at,
};
use crate::catalog::schema::ColumnType;
use crate::error::ErrorV;
use crate::steps::{collect, lemma_collect_all, lemma_collected};
use crate::storage::column_file::{
    blob, code_of, codes, column_of, corrupt_at, decoded_dict_text, decoded_ints, decoded_raw_text,
    dict_entry, dict_row, dict_size, dict_text, distinct, encoded_column, encoded_values, end_at,
    end_offsets, has_other_type, header_image, header_of, header_of_file, int_data, int_or_zero,
    lemma_blob_grows, lemma_distinct, lemma_present_len, live_int, live_range, magic, no_range,
    nulls_in, present_at, present_bits, raw_size, raw_text, raw_text_row, start_at, stats_slots,
    text_at, text_bytes, truncated, type_byte, HeaderV, FLAG_HAS_NULLS, FORMAT_VERSION, HEADER_SIZE,
    PHYSICAL_DICT, PHYSICAL_RAW,
};
use crate::storage::table_laws::law_texts_within_the_limit_are_encoded;
use crate::storage::ValueV;

verus! {

/// The header that a column of `values` gets.
pub open spec fn expected_header(ty: ColumnType, values: Seq<ValueV>, deleted: Seq<u8>) -> HeaderV {
    let range = live_range(values, deleted, values.len() as int);
    HeaderV {
        format_version: FORMAT_VERSION as int,
        logical_type: ty,
        physical_encoding: encoded_values(ty, values)->Ok_0.0,
        flags: if nulls_in(values) > 0 {
            FLAG_HAS_NULLS
        } else {
            0
        },
        row_count: values.len() as int,
        null_count: nulls_in(values),
        min: stats_slots(ty, range).take(16),
        max: stats_slots(ty, range).skip(16),
    }
}

/// The bounds of a live range are 64-bit integers.
pub proof fn lemma_range_bounds(values: Seq<ValueV>, deleted: Seq<u8>, n: int)
    ensures
        i64::MIN <= live_range(values, deleted, n).0 <= i64::MAX,
        i64::MIN <= live_range(values, deleted, n).1 <= i64::MAX,
    decreases n,
{
    if n > 0 {
        lemma_range_bounds(values, deleted, n - 1);
    }
}

/// A count of NULLs is between zero and the number of values, and zero exactly
/// when none is NULL.
pub proof fn lemma_nulls(values: Seq<ValueV>)
    ensures
        0 <= nulls_in(values) <= values.len(),
        nulls_in(values) == 0 <==> forall|i: int|
            0 <= i < values.len() ==> !(#[trigger] values[i] is Null),
    decreases values.len(),
{
    if values.len() > 0 {
        lemma_nulls(values.drop_last());
        if nulls_in(values) == 0 {
            assert forall|i: int| 0 <= i < values.len() implies !(#[trigger] values[i] is Null) by {
                if i < values.len() - 1 {
                    assert(values.drop_last()[i] == values[i]);
                }
            }
        } else if nulls_in(values.drop_last()) > 0 {
            let i = choose|i: int|
                0 <= i < values.drop_last().len() && #[trigger] values.drop_last()[i] is Null;
            assert(values[i] is Null);
        } else {
            assert(values[values.len() - 1] is Null);
        }
    }
}

/// The bytes of a statistics slot.
proof fn lemma_slots(ty: ColumnType, range: (int, int))
    requires
        i64::MIN <= range.0 <= i64::MAX,
        i64::MIN <= range.1 <= i64::MAX,
    ensures
        stats_slots(ty, range).len() == 32,
        ty == ColumnType::Int ==> i64_at(stats_slots(ty, range).take(16), 0) == range.0,
        ty == ColumnType::Int ==> i64_at(stats_slots(ty, range).skip(16), 0) == range.1,
{
    lemma_le64(range.0);
    lemma_le64(range.1);
    if ty == ColumnType::Int {
        let slots = stats_slots(ty, range);
        assert(slots.take(16).subrange(0, 8) =~= le64(range.0));
        assert(slots.skip(16).subrange(0, 8) =~= le64(range.1));
    }
}

/// A header reads back as what it was made of.
proof fn lemma_header_reads_back(
    ty: ColumnType,
    encoding: u8,
    flags: u8,
    rows: int,
    nulls: int,
    range: (int, int),
    body: Seq<u8>,
    path: Seq<char>,
)
    requires
        0 <= rows <= u32::MAX,
        0 <= nulls <= u32::MAX,
        i64::MIN <= range.0 <= i64::MAX,
        i64::MIN <= range.1 <= i64::MAX,
    ensures
        header_image(ty, encoding, flags, rows, nulls, range).len() == HEADER_SIZE,
        header_of(header_image(ty, encoding, flags, rows, nulls, range) + body, path) == Ok::<
            HeaderV,
            ErrorV,
        >(
            HeaderV {
                format_version: FORMAT_VERSION as int,
                logical_type: ty,
                physical_encoding: encoding,
                flags,
                row_count: rows,
                null_count: nulls,
                min: stats_slots(ty, range).take(16),
                max: stats_slots(ty, range).skip(16),
            },
        ),
        (header_image(ty, encoding, flags, rows, nulls, range) + body).skip(HEADER_SIZE as int)
            == body,
{
    let head = header_image(ty, encoding, flags, rows, nulls, range);
    let file = head + body;
    lemma_le32(FORMAT_VERSION as int);
    lemma_le32(rows);
    lemma_le32(nulls);
    lemma_slots(ty, range);
    assert(file.subrange(0, magic().len() as int) =~= magic());
    assert(file.subrange(8, 12) =~= le32(FORMAT_VERSION as int));
    assert(file.subrange(16, 20) =~= le32(rows));
    assert(file.subrange(20, 24) =~= le32(nulls));
    assert(file.subrange(24, 40) =~= stats_slots(ty, range).take(16));
    assert(file.subrange(40, 56) =~= stats_slots(ty, range).skip(16));
    assert(file.skip(56) =~= body);
    assert(file[12] == type_byte(ty));
    assert(file[13] == encoding);
    assert(file[14] == flags);
}

/// The presence bitmap says of every row whether it is NULL.
pub proof fn lemma_present_bits(values: Seq<ValueV>, n: int)
    requires
        0 <= n <= values.len(),
    ensures
        forall|i: int|
            0 <= i < values.len() ==> #[trigger] bit_set(present_bits(values, n), i) == (i < n && !(
            values[i] is Null)),
    decreases n,
{
    if n == 0 {
        lemma_zero_bits(bytes_for_bits(values.len() as int));
    } else {
        lemma_present_bits(values, n - 1);
        lemma_present_len(values, n - 1);
        if !(values[n - 1] is Null) {
            lemma_with_bit(present_bits(values, n - 1), n - 1);
        }
    }
}

/// Whether `present` says of every row whether it is NULL.
pub open spec fn tells_nulls(present: Option<Seq<u8>>, values: Seq<ValueV>) -> bool {
    forall|i: int|
        0 <= i < values.len() ==> #[trigger] present_at(present, i) == !(values[i] is Null)
}

/// Integer `i` of a raw INT data area.
pub proof fn lemma_int_data(values: Seq<ValueV>, rest: Seq<u8>)
    ensures
        int_data(values).len() == values.len() * 8,
        forall|i: int|
            0 <= i < values.len() ==> #[trigger] (int_data(values) + rest).subrange(
                i * 8,
                i * 8 + 8,
            ) == le64(int_or_zero(values[i])),
    decreases values.len(),
{
    if values.len() > 0 {
        let front = values.drop_last();
        let last = le64(int_or_zero(values.last()));
        lemma_le64(int_or_zero(values.last()));
        lemma_int_data(front, last + rest);
        assert(int_data(values) + rest =~= int_data(front) + (last + rest));
        assert forall|i: int| 0 <= i < values.len() implies #[trigger] (int_data(values)
            + rest).subrange(i * 8, i * 8 + 8) == le64(int_or_zero(values[i])) by {
            if i < front.len() {
                assert(front[i] == values[i]);
            } else {
                assert((int_data(values) + rest).subrange(i * 8, i * 8 + 8) =~= last);
            }
        }
    }
}

/// An INT data area reads back.
proof fn lemma_ints_read_back(values: Seq<ValueV>, present: Option<Seq<u8>>, path: Seq<char>)
    requires
        !has_other_type(ColumnType::Int, values),
        tells_nulls(present, values),
    ensures
        decoded_ints(int_data(values), values.len() as int, present, path) == Ok::<_, ErrorV>(
            values,
        ),
{
    let data = int_data(values);
    lemma_int_data(values, Seq::empty());
    assert(data + Seq::<u8>::empty() =~= data);
    let read = decoded_ints(data, values.len() as int, present, path)->Ok_0;
    assert forall|i: int| 0 <= i < values.len() implies read[i] == values[i] by {
        assert(data.subrange(i * 8, i * 8 + 8) == le64(int_or_zero(values[i])));
        lemma_le64(int_or_zero(values[i]));
        assert(present_at(present, i) == !(values[i] is Null));
        assert(!(values[i] is Text));
    }
    assert(read =~= values);
}

/// End offset `i` of TEXT values is the length of the first `i + 1` texts.
pub proof fn lemma_end_offsets(values: Seq<ValueV>, rest: Seq<u8>)
    requires
        blob(values).len() <= u32::MAX,
    ensures
        end_offsets(values).len() == values.len() * 4,
        forall|i: int|
            0 <= i < values.len() ==> #[trigger] end_at(end_offsets(values) + rest, i) == blob(
                values.take(i + 1),
            ).len(),
    decreases values.len(),
{
    if values.len() > 0 {
        let front = values.drop_last();
        let last = le32(blob(values).len() as int);
        lemma_le32(blob(values).len() as int);
        lemma_end_offsets(front, last + rest);
        assert(end_offsets(values) + rest =~= end_offsets(front) + (last + rest));
        assert forall|i: int| 0 <= i < values.len() implies #[trigger] end_at(
            end_offsets(values) + rest,
            i,
        ) == blob(values.take(i + 1)).len() by {
            if i < front.len() {
                assert(front.take(i + 1) =~= values.take(i + 1));
            } else {
                assert(values.take(i + 1) =~= values);
                assert((end_offsets(values) + rest).subrange(i * 4, i * 4 + 4) =~= last);
            }
        }
    }
}

/// Text `i` lies in the blob between the end of the text before and its own.
pub proof fn lemma_blob_piece(values: Seq<ValueV>, i: int)
    requires
        0 <= i < values.len(),
    ensures
        blob(values.take(i)).len() <= blob(values.take(i + 1)).len() <= blob(values).len(),
        blob(values).subrange(
            blob(values.take(i)).len() as int,
            blob(values.take(i + 1)).len() as int,
        ) == text_bytes(values[i]),
    decreases values.len(),
{
    let front = values.drop_last();
    lemma_blob_grows(values, i + 1);
    assert(values.take(i + 1).drop_last() =~= values.take(i));
    if i == values.len() - 1 {
        assert(values.take(i) =~= front);
        assert(values.take(i + 1) =~= values);
        assert(blob(values).subrange(blob(front).len() as int, blob(values).len() as int)
            =~= text_bytes(values.last()));
    } else {
        lemma_blob_piece(front, i);
        assert(front.take(i) =~= values.take(i));
        assert(front.take(i + 1) =~= values.take(i + 1));
        let from = blob(values.take(i)).len() as int;
        let to = blob(values.take(i + 1)).len() as int;
        assert(blob(values).subrange(from, to) =~= blob(front).subrange(from, to));
    }
}

/// Text `i` reads back from the end offsets and the blob.
proof fn lemma_text_reads_back(
    values: Seq<ValueV>,
    rest: Seq<u8>,
    i: int,
    out_of_range: ErrorV,
    not_utf8: ErrorV,
)
    requires
        blob(values).len() <= u32::MAX,
        0 <= i < values.len(),
    ensures
        ({
            let offsets = end_offsets(values) + rest;
            let start = start_at(offsets, i);
            let end = end_at(offsets, i);
            &&& 0 <= start <= end <= blob(values).len()
            &&& values[i] matches ValueV::Text(s) ==> text_at(
                offsets,
                blob(values),
                i,
                out_of_range,
                not_utf8,
            ) == Ok::<_, ErrorV>(s)
        }),
{
    let offsets = end_offsets(values) + rest;
    lemma_end_offsets(values, rest);
    lemma_blob_piece(values, i);
    assert(end_at(offsets, i) == blob(values.take(i + 1)).len());
    if i > 0 {
        assert(end_at(offsets, i - 1) == blob(values.take(i - 1 + 1)).len());
    } else {
        assert(values.take(0) =~= Seq::<ValueV>::empty());
    }
    if let ValueV::Text(s) = values[i] {
        encode_utf8_valid_utf8(s);
        encode_utf8_decode_utf8(s);
    }
}

/// A raw TEXT data area reads back.
proof fn lemma_raw_text_reads_back(values: Seq<ValueV>, present: Option<Seq<u8>>, path: Seq<char>)
    requires
        !has_other_type(ColumnType::Text, values),
        blob(values).len() <= u32::MAX,
        tells_nulls(present, values),
    ensures
        decoded_raw_text(raw_text(values), values.len() as int, present, path) == Ok::<_, ErrorV>(
            values,
        ),
{
    let n = values.len() as int;
    let data = raw_text(values);
    lemma_end_offsets(values, blob(values));
    assert(data.skip(n * 4) =~= blob(values));
    let row = raw_text_row(data, data.skip(n * 4), present, path);
    assert forall|i: int| 0 <= i < n implies #[trigger] row(i) == Ok::<ValueV, ErrorV>(
        values[i],
    ) by {
        lemma_text_reads_back(
            values,
            blob(values),
            i,
            corrupt_at(path, "' has an out-of-range TEXT offset"@),
            corrupt_at(path, "' has invalid UTF-8"@),
        );
        assert(present_at(present, i) == !(values[i] is Null));
        assert(!(values[i] is Int));
    }
    lemma_collect_all(n, row, values);
}

/// Code `i` of a dictionary-encoded column.
proof fn lemma_codes(dict: Seq<ValueV>, values: Seq<ValueV>)
    requires
        forall|i: int|
            0 <= i < values.len() ==> 0 <= #[trigger] code_of(dict, values[i]) <= u32::MAX,
    ensures
        codes(dict, values).len() == values.len() * 4,
        forall|i: int|
            0 <= i < values.len() ==> #[trigger] u32_at(codes(dict, values), i * 4) == code_of(
                dict,
                values[i],
            ),
    decreases values.len(),
{
    if values.len() > 0 {
        let front = values.drop_last();
        let last = le32(code_of(dict, values.last()));
        assert forall|i: int| 0 <= i < front.len() implies 0 <= #[trigger] code_of(dict, front[i])
            <= u32::MAX by {
            assert(front[i] == values[i]);
        }
        assert(values.last() == values[values.len() - 1]);
        lemma_le32(code_of(dict, values.last()));
        lemma_codes(dict, front);
        assert forall|i: int| 0 <= i < values.len() implies #[trigger] u32_at(
            codes(dict, values),
            i * 4,
        ) == code_of(dict, values[i]) by {
            if i < front.len() {
                assert(front[i] == values[i]);
                assert(codes(dict, values).subrange(i * 4, i * 4 + 4) =~= codes(
                    dict,
                    front,
                ).subrange(i * 4, i * 4 + 4));
                assert(u32_at(codes(dict, front), i * 4) == code_of(dict, front[i]));
            } else {
                assert(codes(dict, values).subrange(i * 4, i * 4 + 4) =~= last);
            }
        }
    }
}

/// A dictionary-encoded TEXT data area reads back.
proof fn lemma_dict_text_reads_back(values: Seq<ValueV>, present: Option<Seq<u8>>, path: Seq<char>)
    requires
        values.len() <= u32::MAX,
        !has_other_type(ColumnType::Text, values),
        blob(distinct(values)).len() <= u32::MAX,
        tells_nulls(present, values),
    ensures
        decoded_dict_text(dict_text(values), values.len() as int, present, path) == Ok::<_, ErrorV>(
            values,
        ),
{
    let n = values.len() as int;
    let dict = distinct(values);
    let d = dict.len() as int;
    let data = dict_text(values);
    if n == 0 {
        assert(values =~= Seq::<ValueV>::empty());
        return ;
    }
    lemma_distinct(values);
    lemma_le32(d);
    let behind = blob(dict) + codes(dict, values);
    lemma_end_offsets(dict, behind);
    assert(data.skip(4) =~= end_offsets(dict) + behind);
    assert(data.subrange(0, 4) =~= le32(d));
    let ends_end = 4 + d * 4;
    let blob_len = blob(dict).len() as int;
    if d > 0 {
        assert(end_at(data.skip(4), d - 1) == blob(dict.take(d - 1 + 1)).len());
        assert(dict.take(d) =~= dict);
    } else {
        assert(dict =~= Seq::<ValueV>::empty());
    }
    let blob_end = ends_end + blob_len;
    assert(data.subrange(ends_end, blob_end) =~= blob(dict));
    let entry = dict_entry(data.skip(4), blob(dict), path);
    let strings = Seq::new(dict.len(), |k: int| dict[k]->Text_0);
    assert forall|k: int| 0 <= k < d implies #[trigger] entry(k) == Ok::<Seq<char>, ErrorV>(
        strings[k],
    ) by {
        lemma_text_reads_back(
            dict,
            behind,
            k,
            corrupt_at(path, "' has an out-of-range dictionary offset"@),
            corrupt_at(path, "' has invalid UTF-8 in the dictionary"@),
        );
        assert(dict[k] is Text);
    }
    lemma_collect_all(d, entry, strings);
    assert(data.skip(blob_end) =~= codes(dict, values));
    assert forall|i: int| 0 <= i < n implies 0 <= #[trigger] code_of(dict, values[i])
        <= u32::MAX by {
        if values[i] is Text {
            assert(dict.contains(values[i]));
        }
    }
    lemma_codes(dict, values);
    let row = dict_row(codes(dict, values), strings, present, path);
    assert forall|i: int| 0 <= i < n implies #[trigger] row(i) == Ok::<ValueV, ErrorV>(
        values[i],
    ) by {
        assert(present_at(present, i) == !(values[i] is Null));
        assert(!(values[i] is Int));
        assert(u32_at(codes(dict, values), i * 4) == code_of(dict, values[i]));
        if values[i] is Text {
            assert(dict.contains(values[i]));
            let code = dict.index_of(values[i]);
            assert(dict[code] == values[i]);
            assert(strings[code] == values[i]->Text_0);
        }
    }
    lemma_collect_all(n, row, values);
}

/// A written column reads back: whatever values were encoded, reading the file
/// gives exactly those values in order, with a header that counts them, counts
/// the NULLs, and carries the live range.
pub proof fn law_column_round_trip(
    ty: ColumnType,
    values: Seq<ValueV>,
    deleted: Seq<u8>,
    path: Seq<char>,
)
    ensures
        encoded_column(ty, values, deleted) matches Ok(bytes) ==> column_of(Some(bytes), path)
            == Ok::<_, ErrorV>((expected_header(ty, values, deleted), values)),
{
    if let Ok(bytes) = encoded_column(ty, values, deleted) {
        let n = values.len() as int;
        let (encoding, data) = encoded_values(ty, values)->Ok_0;
        let nulls = nulls_in(values);
        let range = live_range(values, deleted, n);
        lemma_nulls(values);
        lemma_range_bounds(values, deleted, n);
        let flags = if nulls > 0 {
            FLAG_HAS_NULLS
        } else {
            0u8
        };
        let bits = present_bits(values, n);
        let body = if nulls > 0 {
            bits + data
        } else {
            data
        };
        let present = if nulls > 0 {
            Some(bits)
        } else {
            None
        };
        lemma_header_reads_back(ty, encoding, flags, n, nulls, range, body, path);
        assert(bytes =~= header_image(ty, encoding, flags, n, nulls, range) + body);
        assert(1u8 & 1u8 != 0 && 0u8 & 1u8 == 0) by (bit_vector);
        lemma_present_len(values, n);
        lemma_present_bits(values, n);
        assert(tells_nulls(present, values));
        if nulls > 0 {
            assert(body.take(bytes_for_bits(n)) =~= bits);
            assert(body.skip(bytes_for_bits(n)) =~= data);
        }
        if ty == ColumnType::Int {
            lemma_ints_read_back(values, present, path);
        } else if encoding == PHYSICAL_RAW {
            lemma_raw_text_reads_back(values, present, path);
        } else {
            lemma_dict_text_reads_back(values, present, path);
        }
    }
}

/// The range of the first `n` values holds every live one among them, and its
/// ends are live values; it is the empty range exactly when none is live.
proof fn lemma_live_range(values: Seq<ValueV>, deleted: Seq<u8>, n: int)
    requires
        0 <= n <= values.len(),
    ensures
        ({
            let (min, max) = live_range(values, deleted, n);
            &&& forall|i: int|
                0 <= i < n && #[trigger] live_int(values, deleted, i) ==> min
                    <= values[i]->Int_0 as int <= max
            &&& (forall|i: int| 0 <= i < n ==> !#[trigger] live_int(values, deleted, i)) ==> (
            min, max) == no_range()
            &&& (exists|i: int| 0 <= i < n && #[trigger] live_int(values, deleted, i)) ==> {
                &&& exists|i: int|
                    0 <= i < n && #[trigger] live_int(values, deleted, i) && values[i]->Int_0
                        == min
                &&& exists|i: int|
                    0 <= i < n && #[trigger] live_int(values, deleted, i) && values[i]->Int_0
                        == max
            }
        }),
    decreases n,
{
    if n > 0 {
        lemma_live_range(values, deleted, n - 1);
        lemma_range_bounds(values, deleted, n - 1);
        let (min, max) = live_range(values, deleted, n - 1);
        let before = exists|i: int| 0 <= i < n - 1 && #[trigger] live_int(values, deleted, i);
        if live_int(values, deleted, n - 1) {
            let v = values[n - 1]->Int_0 as int;
            if before {
                let a = choose|i: int|
                    0 <= i < n - 1 && #[trigger] live_int(values, deleted, i) && values[i]->Int_0
                        == min;
                let b = choose|i: int|
                    0 <= i < n - 1 && #[trigger] live_int(values, deleted, i) && values[i]->Int_0
                        == max;
                assert(live_int(values, deleted, if v < min {
                    n - 1
                } else {
                    a
                }));
                assert(live_int(values, deleted, if v > max {
                    n - 1
                } else {
                    b
                }));
            } else {
                assert(forall|i: int| 0 <= i < n - 1 ==> !live_int(values, deleted, i));
                assert((min, max) == no_range());
                assert(live_range(values, deleted, n) == (v, v)) by {
                    assert(i64::MIN <= v <= i64::MAX);
                }
                assert(live_int(values, deleted, n - 1));
            }
        } else if before {
            let a = choose|i: int|
                0 <= i < n - 1 && #[trigger] live_int(values, deleted, i) && values[i]->Int_0
                    == min;
            let b = choose|i: int|
                0 <= i < n - 1 && #[trigger] live_int(values, deleted, i) && values[i]->Int_0
                    == max;
            assert(live_int(values, deleted, a));
            assert(live_int(values, deleted, b));
        }
    }
}

/// The zone map of a written INT column is tight: the header has a range
/// exactly when some value is live, every live value lies in it, and both ends
/// are live values.
pub proof fn law_zone_map_is_tight(values: Seq<ValueV>, deleted: Seq<u8>)
    ensures
        ({
            let h = expected_header(ColumnType::Int, values, deleted);
            match h.int_range() {
                None => forall|i: int|
                    0 <= i < values.len() ==> !#[trigger] live_int(values, deleted, i),
                Some((min, max)) => {
                    &&& forall|i: int|
                        0 <= i < values.len() && #[trigger] live_int(values, deleted, i) ==> min
                            <= values[i]->Int_0 as int <= max
                    &&& exists|i: int|
                        0 <= i < values.len() && #[trigger] live_int(values, deleted, i)
                            && values[i]->Int_0 == min
                    &&& exists|i: int|
                        0 <= i < values.len() && #[trigger] live_int(values, deleted, i)
                            && values[i]->Int_0 == max
                },
            }
        }),
{
    let n = values.len() as int;
    lemma_live_range(values, deleted, n);
    lemma_range_bounds(values, deleted, n);
    lemma_slots(ColumnType::Int, live_range(values, deleted, n));
    let h = expected_header(ColumnType::Int, values, deleted);
    if exists|i: int| 0 <= i < n && #[trigger] live_int(values, deleted, i) {
        let i = choose|i: int| 0 <= i < n && #[trigger] live_int(values, deleted, i);
        assert(live_int(values, deleted, i));
        assert(h.int_range() is Some);
    } else {
        assert(forall|i: int| 0 <= i < n ==> !#[trigger] live_int(values, deleted, i));
    }
}

/// TEXT values are stored in the smaller of the two layouts, raw on a tie, and
/// take exactly its size.
pub proof fn law_text_takes_the_smaller_layout(values: Seq<ValueV>)
    requires
        values.len() <= u32::MAX,
    ensures
        encoded_values(ColumnType::Text, values) matches Ok((encoding, data)) ==> {
            &&& encoding == PHYSICAL_DICT <==> dict_size(values) < raw_size(values)
            &&& encoding == PHYSICAL_RAW <==> raw_size(values) <= dict_size(values)
            &&& data.len() == if dict_size(values) < raw_size(values) {
                dict_size(values)
            } else {
                raw_size(values)
            }
        },
{
    if let Ok((encoding, data)) = encoded_values(ColumnType::Text, values) {
        if encoding == PHYSICAL_DICT {
            let dict = distinct(values);
            lemma_distinct(values);
            lemma_le32(dict.len() as int);
            lemma_end_offsets(dict, Seq::empty());
            assert forall|i: int| 0 <= i < values.len() implies 0 <= #[trigger] code_of(
                dict,
                values[i],
            ) <= u32::MAX by {
                if values[i] is Text {
                    assert(dict.contains(values[i]));
                }
            }
            lemma_codes(dict, values);
        } else {
            lemma_end_offsets(values, Seq::empty());
        }
    }
}

/// A new column file is the file of no values.
pub proof fn law_empty_file_is_the_column_of_no_values(ty: ColumnType, deleted: Seq<u8>)
    ensures
        encoded_column(ty, Seq::empty(), deleted) == Ok::<Seq<u8>, ErrorV>(
            header_image(ty, PHYSICAL_RAW, 0, 0, 0, no_range()),
        ),
{
    let none = Seq::<ValueV>::empty();
    let head = header_image(ty, PHYSICAL_RAW, 0, 0, 0, no_range());
    assert(head + Seq::<u8>::empty() =~= head);
    assert(raw_text(none) =~= Seq::<u8>::empty());
}

/// Truncating any file that reads as a column, whoever wrote it, gives the file
/// of its first rows, and that reads back as them.
pub proof fn law_truncate(
    bytes: Seq<u8>,
    path: Seq<char>,
    ty: ColumnType,
    deleted: Seq<u8>,
    len: int,
)
    requires
        column_of(Some(bytes), path) is Ok,
        0 <= len <= column_of(Some(bytes), path)->Ok_0.1.len(),
    ensures
        ({
            let first = column_of(Some(bytes), path)->Ok_0.1.take(len);
            let short = truncated(Some(bytes), path, ty, len, deleted);
            &&& short == encoded_column(ty, first, deleted)
            &&& short matches Ok(image) ==> column_of(Some(image), path) == Ok::<_, ErrorV>(
                (expected_header(ty, first, deleted), first),
            )
        }),
{
    let first = column_of(Some(bytes), path)->Ok_0.1.take(len);
    law_column_round_trip(ty, first, deleted, path);
}

/// Truncating a written column gives the file of its first rows.
pub proof fn law_truncate_keeps_the_first_rows(
    ty: ColumnType,
    values: Seq<ValueV>,
    deleted: Seq<u8>,
    later: Seq<u8>,
    len: int,
    path: Seq<char>,
)
    requires
        0 <= len <= values.len(),
    ensures
        encoded_column(ty, values, deleted) matches Ok(bytes) ==> truncated(
            Some(bytes),
            path,
            ty,
            len,
            later,
        ) == encoded_column(ty, values.take(len), later),
{
    law_column_round_trip(ty, values, deleted, path);
    if let Ok(bytes) = encoded_column(ty, values, deleted) {
        law_truncate(bytes, path, ty, later, len);
    }
}

/// A file that reads as a column has as many values as its header says.
pub proof fn lemma_row_count(bytes: Seq<u8>, path: Seq<char>)
    ensures
        column_of(Some(bytes), path) matches Ok((h, values)) ==> {
            &&& h.row_count == values.len()
            &&& header_of_file(Some(bytes), path) == Ok::<HeaderV, ErrorV>(h)
        },
{
    if let Ok((h, values)) = column_of(Some(bytes), path) {
        let body = bytes.skip(HEADER_SIZE as int);
        let present = if h.has_nulls() {
            Some(body.take(bytes_for_bits(h.row_count)))
        } else {
            None
        };
        let data = if h.has_nulls() {
            body.skip(bytes_for_bits(h.row_count))
        } else {
            body
        };
        lemma_collected(h.row_count, raw_text_row(data, data.skip(h.row_count * 4), present, path));
        let count = u32_at(data, 0);
        let ends_end = 4 + count * 4;
        let blob_len = if count == 0 {
            0
        } else {
            end_at(data.skip(4), count - 1)
        };
        let entry = dict_entry(
            data.skip(4),
            data.subrange(ends_end, ends_end + blob_len),
            path,
        );
        if let Ok(dict) = collect(count, entry) {
            lemma_collected(
                h.row_count,
                dict_row(data.skip(ends_end + blob_len), dict, present, path),
            );
        }
    }
}

/// What a readable file holds is of its column's type, and no more than a row
/// group can number.
proof fn lemma_read_types(bytes: Seq<u8>, path: Seq<char>)
    ensures
        column_of(Some(bytes), path) matches Ok((h, values)) ==> {
            &&& !has_other_type(h.logical_type, values)
            &&& values.len() <= u32::MAX
        },
{
    if let Ok((h, values)) = column_of(Some(bytes), path) {
        let body = bytes.skip(HEADER_SIZE as int);
        let present = if h.has_nulls() {
            Some(body.take(bytes_for_bits(h.row_count)))
        } else {
            None
        };
        let data = if h.has_nulls() {
            body.skip(bytes_for_bits(h.row_count))
        } else {
            body
        };
        lemma_row_count(bytes, path);
        lemma_u32_range(bytes.subrange(16, 20));
        let raw = raw_text_row(data, data.skip(h.row_count * 4), present, path);
        lemma_collected(h.row_count, raw);
        let count = u32_at(data, 0);
        let ends_end = 4 + count * 4;
        let blob_len = if count == 0 {
            0
        } else {
            end_at(data.skip(4), count - 1)
        };
        let entry = dict_entry(
            data.skip(4),
            data.subrange(ends_end, ends_end + blob_len),
            path,
        );
        if h.logical_type == ColumnType::Text {
            if h.physical_encoding == PHYSICAL_RAW {
                assert forall|i: int| 0 <= i < values.len() implies !(values[i] is Int) by {
                    assert(raw(i) == Ok::<ValueV, ErrorV>(values[i]));
                }
            } else if let Ok(dict) = collect(count, entry) {
                let row = dict_row(data.skip(ends_end + blob_len), dict, present, path);
                lemma_collected(h.row_count, row);
                assert forall|i: int| 0 <= i < values.len() implies !(values[i] is Int) by {
                    assert(row(i) == Ok::<ValueV, ErrorV>(values[i]));
                }
            }
        }
    }
}

/// Truncating a readable file of the column's type succeeds, always for INT and
/// for TEXT where its values take no more than 4 GiB. Beyond that it may not:
/// the first rows may repeat too little for a dictionary.
pub proof fn law_truncate_succeeds(
    bytes: Seq<u8>,
    path: Seq<char>,
    ty: ColumnType,
    deleted: Seq<u8>,
    len: int,
)
    requires
        column_of(Some(bytes), path) matches Ok((h, values)) && h.logical_type == ty && 0 <= len
            <= values.len() && (ty == ColumnType::Text ==> blob(values).len() <= u32::MAX),
    ensures
        truncated(Some(bytes), path, ty, len, deleted) is Ok,
{
    let values = column_of(Some(bytes), path)->Ok_0.1;
    let first = values.take(len);
    lemma_read_types(bytes, path);
    lemma_blob_grows(values, len);
    assert(!has_other_type(ty, first)) by {
        assert forall|i: int| 0 <= i < first.len() implies first[i] == values[i] by {}
    }
    law_truncate(bytes, path, ty, deleted, len);
    law_texts_within_the_limit_are_encoded(ty, first, deleted);
}

// ---- files that end too early ----

/// Raw INT values that end too early do not read.
proof fn lemma_short_ints(
    values: Seq<ValueV>,
    m: int,
    present: Option<Seq<u8>>,
    path: Seq<char>,
)
    requires
        0 <= m < int_data(values).len(),
    ensures
        decoded_ints(int_data(values).take(m), values.len() as int, present, path) is Err,
{
    lemma_int_data(values, Seq::empty());
}

/// Raw TEXT values that end too early do not read.
proof fn lemma_short_raw_text(
    values: Seq<ValueV>,
    m: int,
    present: Option<Seq<u8>>,
    path: Seq<char>,
)
    requires
        blob(values).len() <= u32::MAX,
        0 <= m < raw_text(values).len(),
    ensures
        decoded_raw_text(raw_text(values).take(m), values.len() as int, present, path) is Err,
{
    let n = values.len() as int;
    let data = raw_text(values).take(m);
    lemma_end_offsets(values, blob(values));
    if m >= n * 4 {
        assert(n > 0) by {
            if n == 0 {
                assert(blob(values).len() == 0);
            }
        }
        let rest = data.skip(n * 4);
        assert(data =~= end_offsets(values) + rest);
        lemma_end_offsets(values, rest);
        assert(values.take(n - 1 + 1) =~= values);
        assert(end_at(data, n - 1) == blob(values).len());
        let row = raw_text_row(data, rest, present, path);
        assert(row(n - 1) is Err);
        lemma_collected(n, row);
    }
}

/// Dictionary-encoded TEXT values that end too early do not read.
proof fn lemma_short_dict_text(
    values: Seq<ValueV>,
    m: int,
    present: Option<Seq<u8>>,
    path: Seq<char>,
)
    requires
        0 < values.len() <= u32::MAX,
        blob(distinct(values)).len() <= u32::MAX,
        0 <= m < dict_text(values).len(),
    ensures
        decoded_dict_text(dict_text(values).take(m), values.len() as int, present, path) is Err,
{
    let n = values.len() as int;
    let dict = distinct(values);
    let d = dict.len() as int;
    let whole = dict_text(values);
    let data = whole.take(m);
    lemma_distinct(values);
    lemma_le32(d);
    let behind = blob(dict) + codes(dict, values);
    lemma_end_offsets(dict, behind);
    assert forall|i: int| 0 <= i < n implies 0 <= #[trigger] code_of(dict, values[i])
        <= u32::MAX by {
        if values[i] is Text {
            assert(dict.contains(values[i]));
        }
    }
    lemma_codes(dict, values);
    let ends_end = 4 + d * 4;
    let blob_end = ends_end + blob(dict).len();
    assert(whole.len() == blob_end + n * 4);
    if m >= 4 {
        assert(data.subrange(0, 4) =~= le32(d));
        if m >= ends_end {
            let rest = data.skip(ends_end);
            assert(data.skip(4) =~= end_offsets(dict) + rest);
            lemma_end_offsets(dict, rest);
            if d > 0 {
                assert(end_at(data.skip(4), d - 1) == blob(dict.take(d - 1 + 1)).len());
                assert(dict.take(d) =~= dict);
            } else {
                assert(dict =~= Seq::<ValueV>::empty());
            }
        }
    }
}

/// A written column file that ends too early does not read: none of its proper
/// prefixes does.
pub proof fn law_no_prefix_reads(
    ty: ColumnType,
    values: Seq<ValueV>,
    deleted: Seq<u8>,
    path: Seq<char>,
    len: int,
)
    ensures
        encoded_column(ty, values, deleted) matches Ok(bytes) ==> (0 <= len < bytes.len()
            ==> column_of(Some(bytes.take(len)), path) is Err),
{
    if let Ok(bytes) = encoded_column(ty, values, deleted) {
        if HEADER_SIZE <= len < bytes.len() {
            let n = values.len() as int;
            let (encoding, data) = encoded_values(ty, values)->Ok_0;
            let nulls = nulls_in(values);
            let range = live_range(values, deleted, n);
            lemma_nulls(values);
            lemma_range_bounds(values, deleted, n);
            let flags = if nulls > 0 {
                FLAG_HAS_NULLS
            } else {
                0u8
            };
            let bits = present_bits(values, n);
            let body = if nulls > 0 {
                bits + data
            } else {
                data
            };
            let m = len - HEADER_SIZE;
            let head = header_image(ty, encoding, flags, n, nulls, range);
            lemma_header_reads_back(ty, encoding, flags, n, nulls, range, body.take(m), path);
            assert(bytes =~= head + body);
            assert(bytes.take(len) =~= head + body.take(m));
            assert(bytes.take(len).skip(HEADER_SIZE as int) =~= body.take(m));
            assert(1u8 & 1u8 != 0 && 0u8 & 1u8 == 0) by (bit_vector);
            lemma_present_len(values, n);
            let at = if nulls > 0 {
                bytes_for_bits(n)
            } else {
                0
            };
            if m >= at {
                let present = if nulls > 0 {
                    Some(body.take(m).take(at))
                } else {
                    None
                };
                if nulls > 0 {
                    assert(body.take(m).skip(at) =~= data.take(m - at));
                }
                if ty == ColumnType::Int {
                    lemma_short_ints(values, m - at, present, path);
                } else if encoding == PHYSICAL_RAW {
                    lemma_short_raw_text(values, m - at, present, path);
                } else {
                    assert(n > 0);
                    lemma_short_dict_text(values, m - at, present, path);
                }
            }
        }
    }
}

/// Reading only the header of a written column gives the header that reading
/// the whole file gives.
pub proof fn law_header_reads_alone(
    ty: ColumnType,
    values: Seq<ValueV>,
    deleted: Seq<u8>,
    path: Seq<char>,
)
    ensures
        encoded_column(ty, values, deleted) matches Ok(bytes) ==> header_of_file(Some(bytes), path)
            == Ok::<HeaderV, ErrorV>(expected_header(ty, values, deleted)),
{
    law_column_round_trip(ty, values, deleted, path);
    if let Ok(bytes) = encoded_column(ty, values, deleted) {
        assert(column_of(Some(bytes), path) is Ok);
        assert(header_of(bytes, path) is Ok);
    }
}

} // verus!
