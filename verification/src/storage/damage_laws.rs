//! What reading and opening say of a table that is damaged, and of a column that
//! a scan asks for and that is not there.

use vstd::prelude::*;
use vstd::utf8::valid_utf8;

use crate::bytes::{bit_set, bytes_for_bits, u32_at};
use crate::catalog::schema::ColumnType;
use crate::catalog::tables::DescriptorV;
use crate::disk::DiskV;
use crate::error::ErrorV;
use crate::steps::{
    collect, law_all_results_are_there, law_first_error_counts, law_first_failure_counts,
    lemma_no_failure,
};
use crate::storage::column_file::{
    column_of, decoded_dict_text, decoded_ints, decoded_raw_text, decoded_values, dict_entry,
    dict_row, encoded_column, header_of, header_of_file, magic, raw_text_row, truncated, HeaderV,
};
use crate::storage::delete_bitmap;
use crate::storage::delete_bitmap::{load_of, marked};
use crate::storage::model::{
    batch_scan_of, bulk_record_error, bulk_steps, column_at, column_header_at, column_names, deletes_at, group_batch, group_path,
    loaded_group, projection_error, raw_column, reconcile_step, record_error, uneven_from, BatchScanV, HandleV,
    RowScanV, StoreV,
};
use crate::storage::{BatchV, ScanPredicateV, ValueV};
use crate::text::decimal;

verus! {

/// A scan that asks for a column that the table does not have is refused, with
/// the column and the table: the first such column counts.
pub proof fn law_unknown_scan_columns(
    store: StoreV,
    h: HandleV,
    names: Seq<Seq<char>>,
    prune: Seq<ScanPredicateV>,
    k: int,
)
    requires
        0 <= k < names.len(),
        forall|c: int| 0 <= c < h.schema.len() ==> (#[trigger] h.schema[c]).name != names[k],
        forall|j: int|
            0 <= j < k ==> exists|c: int|
                0 <= c < h.schema.len() && (#[trigger] h.schema[c]).name == #[trigger] names[j],
    ensures
        batch_scan_of(store, h, Some(names), prune) == Err::<BatchScanV, ErrorV>(
            ErrorV::Other(
                "scan projection references unknown column '"@ + names[k] + "' in table '"@ + h.name
                    + "'"@,
            ),
        ),
{
    let f = projection_error(h, names);
    assert forall|j: int| 0 <= j < k implies (#[trigger] f(j)) is None by {
        let name = names[j];
        let c = choose|c: int| 0 <= c < h.schema.len() && (#[trigger] h.schema[c]).name == name;
        assert(h.schema[c].name == names[j]);
    }
    law_first_failure_counts(0, names.len() as int, f, k);
}

/// The first column that has another number of rows is found.
proof fn lemma_uneven(columns: Seq<Seq<ValueV>>, rows: int, i: int, bad: int)
    requires
        0 <= i <= bad < columns.len(),
        columns[bad].len() != rows,
        forall|j: int| i <= j < bad ==> (#[trigger] columns[j]).len() == rows,
    ensures
        uneven_from(columns, rows, i) == Some(bad),
    decreases bad - i,
{
    if i < bad {
        assert(columns[i].len() == rows);
        lemma_uneven(columns, rows, i + 1, bad);
    }
}

/// The columns of a row group that can all be read, as they are collected.
proof fn lemma_raw_columns(
    disk: DiskV,
    dir: Seq<char>,
    group: u32,
    names: Seq<Seq<char>>,
    columns: Seq<Seq<ValueV>>,
)
    requires
        columns.len() == names.len(),
        forall|j: int|
            0 <= j < names.len() ==> (#[trigger] column_at(disk, dir, group, names[j])) is Ok
                && column_at(disk, dir, group, names[j])->Ok_0.1 == columns[j],
    ensures
        collect(names.len() as int, raw_column(disk, dir, group, names)) == Ok::<
            Seq<Seq<ValueV>>,
            ErrorV,
        >(columns),
{
    let f = raw_column(disk, dir, group, names);
    let n = names.len() as int;
    assert forall|j: int| 0 <= j < n implies (#[trigger] f(j)) == Ok::<Seq<ValueV>, ErrorV>(
        columns[j],
    ) by {
        assert(column_at(disk, dir, group, names[j]) is Ok);
    }
    law_all_results_are_there(n, f);
    assert forall|j: int| 0 <= j < n implies collect(n, f)->Ok_0[j] == columns[j] by {
        assert(f(j) is Ok);
    }
    assert(collect(n, f)->Ok_0 =~= columns);
}

/// A row group whose columns differ in length is refused: the error names the
/// first column that has another number of rows than the first column, and both
/// numbers.
pub proof fn law_uneven_groups_are_refused(
    disk: DiskV,
    dir: Seq<char>,
    group: u32,
    names: Seq<Seq<char>>,
    columns: Seq<Seq<ValueV>>,
    limit: int,
    bad: int,
)
    requires
        columns.len() == names.len(),
        forall|j: int|
            0 <= j < names.len() ==> (#[trigger] column_at(disk, dir, group, names[j])) is Ok
                && column_at(disk, dir, group, names[j])->Ok_0.1 == columns[j],
        0 <= bad < names.len(),
        columns[bad].len() != columns[0].len(),
        forall|j: int| 0 <= j < bad ==> (#[trigger] columns[j]).len() == columns[0].len(),
    ensures
        group_batch(disk, dir, group, names, limit) == Err::<Option<BatchV>, ErrorV>(
            ErrorV::Corrupt(
                "row group at '"@ + group_path(dir, group) + "': column '"@ + names[bad] + "' has "@
                    + decimal(columns[bad].len() as int) + " rows but '"@ + names[0] + "' has "@
                    + decimal(columns[0].len() as int),
            ),
        ),
{
    lemma_raw_columns(disk, dir, group, names, columns);
    lemma_uneven(columns, columns[0].len() as int, 0, bad);
}

/// The same of a scan by rows, which names the row group by its number.
pub proof fn law_uneven_rows_are_refused(
    s: RowScanV,
    group: int,
    columns: Seq<Seq<ValueV>>,
    bad: int,
)
    requires
        columns.len() == s.columns.len(),
        forall|j: int|
            0 <= j < s.columns.len() ==> (#[trigger] column_at(
                s.disk,
                s.dir,
                group as u32,
                s.columns[j].name,
            )) is Ok && column_at(s.disk, s.dir, group as u32, s.columns[j].name)->Ok_0.1
                == columns[j],
        deletes_at(s.disk, s.dir, group as u32) is Ok,
        0 <= bad < s.columns.len(),
        columns[bad].len() != columns[0].len(),
        forall|j: int| 0 <= j < bad ==> (#[trigger] columns[j]).len() == columns[0].len(),
    ensures
        loaded_group(s, group) == Err::<(Seq<Seq<ValueV>>, Seq<u8>), ErrorV>(
            ErrorV::Corrupt(
                "row group "@ + decimal(group) + " of '"@ + s.dir + "': column '"@
                    + s.columns[bad].name + "' has "@ + decimal(columns[bad].len() as int)
                    + " rows but '"@ + s.columns[0].name + "' has "@ + decimal(
                    columns[0].len() as int,
                ),
            ),
        ),
{
    let names = column_names(s.columns);
    assert forall|j: int| 0 <= j < names.len() implies (#[trigger] column_at(
        s.disk,
        s.dir,
        group as u32,
        names[j],
    )) is Ok && column_at(s.disk, s.dir, group as u32, names[j])->Ok_0.1 == columns[j] by {
        assert(names[j] == s.columns[j].name);
        assert(column_at(s.disk, s.dir, group as u32, s.columns[j].name) is Ok);
    }
    lemma_raw_columns(s.disk, s.dir, group as u32, names, columns);
    lemma_uneven(columns, columns[0].len() as int, 0, bad);
}

/// A row group with a column that cannot be read fails with that column's error,
/// the first of several.
pub proof fn law_unreadable_columns_are_refused(
    disk: DiskV,
    dir: Seq<char>,
    group: u32,
    names: Seq<Seq<char>>,
    limit: int,
    e: ErrorV,
    k: int,
)
    requires
        0 <= k < names.len(),
        column_at(disk, dir, group, names[k]) matches Err(found) && found == e,
        forall|j: int|
            0 <= j < k ==> (#[trigger] column_at(disk, dir, group, names[j])) is Ok,
    ensures
        group_batch(disk, dir, group, names, limit) == Err::<Option<BatchV>, ErrorV>(e),
{
    let f = raw_column(disk, dir, group, names);
    assert forall|j: int| 0 <= j < k implies (#[trigger] f(j)) is Ok by {
        assert(column_at(disk, dir, group, names[j]) is Ok);
    }
    law_first_error_counts(names.len() as int, f, k);
}

/// A column that has as many rows as were committed is left alone when a table
/// is opened; one that has fewer is refused, with its name, its place and both
/// numbers; one whose header cannot be read is refused with that error.
pub proof fn law_committed_rows_must_be_there(
    disk: DiskV,
    h: HandleV,
    group: u32,
    expected: int,
    bits: Seq<u8>,
    i: int,
)
    ensures
        ({
            let name = h.schema[i].name;
            let found = column_header_at(disk, h.dir, group, name);
            let step = reconcile_step(h, group, expected, bits)(disk, i);
            &&& found is Err ==> step.0 == Some(found->Err_0) && step.1.len() == 0
            &&& found is Ok && found->Ok_0.row_count == expected ==> step.0 is None && step.1.len()
                == 0
            &&& found is Ok && found->Ok_0.row_count < expected ==> step.1.len() == 0 && step.0
                == Some(
                ErrorV::Corrupt(
                    "column '"@ + name + "' in row group "@ + decimal(group as int)
                        + " of table '"@ + h.name + "' holds "@ + decimal(found->Ok_0.row_count)
                        + " rows but the catalog committed "@ + decimal(expected),
                ),
            )
        }),
{
}

// ---- column files ----

/// A column file that is missing, too short, of another sort or of a later
/// version is refused, each with what is wrong.
pub proof fn law_damaged_column_headers(bytes: Seq<u8>, path: Seq<char>)
    ensures
        column_of(None, path) == Err::<(HeaderV, Seq<ValueV>), ErrorV>(
            ErrorV::Io("read column file"@),
        ),
        header_of_file(None, path) == Err::<HeaderV, ErrorV>(ErrorV::Io("open column file"@)),
        bytes.len() < 56 ==> header_of_file(Some(bytes), path) == Err::<HeaderV, ErrorV>(
            ErrorV::Io("read column header"@),
        ),
        bytes.len() < 56 ==> column_of(Some(bytes), path) == Err::<(HeaderV, Seq<ValueV>), ErrorV>(
            ErrorV::Corrupt("column file '"@ + path + "' shorter than 56-byte header"@),
        ),
        bytes.len() >= 56 && !magic().is_prefix_of(bytes) ==> header_of(bytes, path) == Err::<
            HeaderV,
            ErrorV,
        >(ErrorV::Corrupt("column file '"@ + path + "' has bad magic"@)),
        bytes.len() >= 56 && magic().is_prefix_of(bytes) && u32_at(bytes, 8) > 1 ==> header_of(
            bytes,
            path,
        ) == Err::<HeaderV, ErrorV>(
            ErrorV::Corrupt(
                "column file '"@ + path + "' uses format_version "@ + decimal(u32_at(bytes, 8))
                    + ", this binary supports 1"@,
            ),
        ),
        bytes.len() >= 56 && magic().is_prefix_of(bytes) && u32_at(bytes, 8) <= 1 && bytes[12] > 1
            ==> header_of(bytes, path) == Err::<HeaderV, ErrorV>(
            ErrorV::Corrupt("unknown logical type tag "@ + decimal(bytes[12] as int)),
        ),
        header_of(bytes, path) is Err && bytes.len() >= 56 ==> header_of_file(Some(bytes), path)
            == header_of(bytes, path) && column_of(Some(bytes), path) == Err::<
            (HeaderV, Seq<ValueV>),
            ErrorV,
        >(header_of(bytes, path)->Err_0),
{
}

/// A column file whose body ends early is refused, with the part that ends.
pub proof fn law_truncated_columns(
    data: Seq<u8>,
    rows: int,
    present: Option<Seq<u8>>,
    path: Seq<char>,
)
    requires
        0 <= rows,
    ensures
        data.len() < rows * 8 ==> decoded_ints(data, rows, present, path) == Err::<
            Seq<ValueV>,
            ErrorV,
        >(ErrorV::Corrupt("column file '"@ + path + "' INT data is truncated"@)),
        data.len() < rows * 4 ==> decoded_raw_text(data, rows, present, path) == Err::<
            Seq<ValueV>,
            ErrorV,
        >(ErrorV::Corrupt("column file '"@ + path + "' TEXT offsets are truncated"@)),
        rows > 0 && data.len() < 4 ==> decoded_dict_text(data, rows, present, path) == Err::<
            Seq<ValueV>,
            ErrorV,
        >(ErrorV::Corrupt("column file '"@ + path + "' dictionary header is truncated"@)),
        rows > 0 && 4 <= data.len() < 4 + u32_at(data, 0) * 4 ==> decoded_dict_text(
            data,
            rows,
            present,
            path,
        ) == Err::<Seq<ValueV>, ErrorV>(
            ErrorV::Corrupt("column file '"@ + path + "' dictionary offsets are truncated"@),
        ),
{
}

/// A column whose bitmap of present values ends early, or whose layout its type
/// does not have, is refused.
pub proof fn law_unknown_layouts(h: HeaderV, body: Seq<u8>, path: Seq<char>)
    ensures
        h.has_nulls() && body.len() < bytes_for_bits(h.row_count) ==> decoded_values(h, body, path)
            == Err::<Seq<ValueV>, ErrorV>(
            ErrorV::Corrupt("column file '"@ + path + "' presence bitmap is truncated"@),
        ),
        !h.has_nulls() && h.logical_type == ColumnType::Int && h.physical_encoding != 0
            ==> decoded_values(h, body, path) == Err::<Seq<ValueV>, ErrorV>(
            ErrorV::Corrupt(
                "column file '"@ + path + "' has "@ + "INT"@
                    + " column with unsupported physical encoding "@ + decimal(
                    h.physical_encoding as int,
                ),
            ),
        ),
        !h.has_nulls() && h.logical_type == ColumnType::Text && h.physical_encoding > 1
            ==> decoded_values(h, body, path) == Err::<Seq<ValueV>, ErrorV>(
            ErrorV::Corrupt(
                "column file '"@ + path + "' has "@ + "TEXT"@
                    + " column with unsupported physical encoding "@ + decimal(
                    h.physical_encoding as int,
                ),
            ),
        ),
{
}

/// A row of a dictionary column whose code is behind the last entry is refused,
/// with the code and the number of entries; NULL needs no code.
pub proof fn law_codes_out_of_range(
    codes: Seq<u8>,
    dict: Seq<Seq<char>>,
    present: Option<Seq<u8>>,
    path: Seq<char>,
    i: int,
)
    ensures
        ({
            let code = u32_at(codes, i * 4);
            let there = present is None || bit_set(present->0, i);
            let row = dict_row(codes, dict, present, path)(i);
            &&& !there ==> row == Ok::<ValueV, ErrorV>(ValueV::Null)
            &&& there && 0 <= code < dict.len() ==> row == Ok::<ValueV, ErrorV>(
                ValueV::Text(dict[code]),
            )
            &&& there && code >= dict.len() ==> row == Err::<ValueV, ErrorV>(
                ErrorV::Corrupt(
                    "column file '"@ + path + "' has dictionary code "@ + decimal(code)
                        + " out of range (dict has "@ + decimal(dict.len() as int) + " entries)"@,
                ),
            )
        }),
{
}

/// A text whose end lies before its start or behind the data is refused, and so
/// is one that is not UTF-8.
pub proof fn law_texts_out_of_range(
    offsets: Seq<u8>,
    data: Seq<u8>,
    present: Option<Seq<u8>>,
    path: Seq<char>,
    i: int,
)
    requires
        i >= 0,
    ensures
        ({
            let end = u32_at(offsets, i * 4);
            let start = if i == 0 {
                0
            } else {
                u32_at(offsets, (i - 1) * 4)
            };
            let there = present is None || bit_set(present->0, i);
            let row = raw_text_row(offsets, data, present, path)(i);
            let entry = dict_entry(offsets, data, path)(i);
            &&& end < start || end > data.len() ==> row == Err::<ValueV, ErrorV>(
                ErrorV::Corrupt("column file '"@ + path + "' has an out-of-range TEXT offset"@),
            ) && entry == Err::<Seq<char>, ErrorV>(
                ErrorV::Corrupt(
                    "column file '"@ + path + "' has an out-of-range dictionary offset"@,
                ),
            )
            &&& start <= end <= data.len() && !there ==> row == Ok::<ValueV, ErrorV>(ValueV::Null)
            &&& start <= end <= data.len() && there && !valid_utf8(data.subrange(start, end)) ==> row
                == Err::<ValueV, ErrorV>(
                ErrorV::Corrupt("column file '"@ + path + "' has invalid UTF-8"@),
            )
            &&& start <= end <= data.len() && !valid_utf8(data.subrange(start, end)) ==> entry
                == Err::<Seq<char>, ErrorV>(
                ErrorV::Corrupt(
                    "column file '"@ + path + "' has invalid UTF-8 in the dictionary"@,
                ),
            )
        }),
{
}

/// A column is not cut back to more rows than it holds, and one that cannot be
/// read is not cut back at all.
pub proof fn law_cutting_back_needs_the_rows(
    file: Option<Seq<u8>>,
    path: Seq<char>,
    ty: ColumnType,
    len: int,
    deleted: Seq<u8>,
)
    ensures
        column_of(file, path) matches Err(e) ==> truncated(file, path, ty, len, deleted) == Err::<
            Seq<u8>,
            ErrorV,
        >(e),
        column_of(file, path) matches Ok(found) ==> found.1.len() < len ==> truncated(
            file,
            path,
            ty,
            len,
            deleted,
        ) == Err::<Seq<u8>, ErrorV>(
            ErrorV::Corrupt(
                "column file '"@ + path + "' holds "@ + decimal(found.1.len() as int)
                    + " rows, cannot truncate to "@ + decimal(len),
            ),
        ),
{
}

/// Values of the other type, and more rows than a file can count, are not
/// written.
pub proof fn law_columns_that_are_not_written(values: Seq<ValueV>, deleted: Seq<u8>, i: int)
    requires
        0 <= i < values.len(),
    ensures
        values.len() > u32::MAX ==> encoded_column(ColumnType::Int, values, deleted) == Err::<
            Seq<u8>,
            ErrorV,
        >(ErrorV::InvalidValue("row group exceeds the u32 row-count limit"@)),
        values.len() <= u32::MAX && values[i] is Text ==> encoded_column(
            ColumnType::Int,
            values,
            deleted,
        ) == Err::<Seq<u8>, ErrorV>(ErrorV::InvalidValue("INT column received a TEXT value"@)),
        values.len() <= u32::MAX && values[i] is Int ==> encoded_column(
            ColumnType::Text,
            values,
            deleted,
        ) == Err::<Seq<u8>, ErrorV>(ErrorV::InvalidValue("TEXT column received an INT value"@)),
{
}

// ---- delete bitmaps ----

/// A delete bitmap that is missing, too short, of another sort or of a later
/// version is refused, each with what is wrong.
pub proof fn law_damaged_delete_bitmaps(bytes: Seq<u8>, path: Seq<char>)
    ensures
        ({
            let no = |file: Option<Seq<u8>>, e: ErrorV|
                load_of(file, path) == Err::<(delete_bitmap::Header, Seq<u8>), ErrorV>(e);
            let sort = delete_bitmap::magic().is_prefix_of(bytes);
            &&& no(None, ErrorV::Io("read delete bitmap"@))
            &&& bytes.len() < 24 ==> no(
                Some(bytes),
                ErrorV::Corrupt("delete bitmap '"@ + path + "' shorter than 24-byte header"@),
            )
            &&& bytes.len() >= 24 && !sort ==> no(
                Some(bytes),
                ErrorV::Corrupt("delete bitmap '"@ + path + "' has bad magic"@),
            )
            &&& bytes.len() >= 24 && sort && u32_at(bytes, 8) > 1 ==> no(
                Some(bytes),
                ErrorV::Corrupt(
                    "delete bitmap '"@ + path + "' uses format_version "@ + decimal(
                        u32_at(bytes, 8),
                    ) + ", this binary supports 1"@,
                ),
            )
            &&& bytes.len() >= 24 && sort && u32_at(bytes, 8) <= 1 ==> load_of(Some(bytes), path)
                is Ok && load_of(Some(bytes), path)->Ok_0.1 == bytes.skip(24)
        }),
{
}

/// A row that the bitmap has no bit for is not marked.
pub proof fn law_marking_needs_a_bit(file: Option<Seq<u8>>, path: Seq<char>, offset: int)
    ensures
        load_of(file, path) matches Err(e) ==> marked(file, path, offset) == Err::<
            Seq<u8>,
            ErrorV,
        >(e),
        load_of(file, path) matches Ok(found) ==> offset / 8 >= found.1.len() ==> marked(
            file,
            path,
            offset,
        ) == Err::<Seq<u8>, ErrorV>(
            ErrorV::Corrupt(
                "delete bitmap '"@ + path + "' has no bit for row offset "@ + decimal(offset),
            ),
        ),
{
}

// ---- bulk loads ----

/// A bulk load that would begin within a row group is refused, with the record
/// identifier that it would begin at, and writes nothing.
pub proof fn law_bulk_loads_begin_a_row_group(
    store: StoreV,
    h: HandleV,
    records: Seq<Seq<ValueV>>,
    d: DescriptorV,
)
    requires
        h.row_group_size > 0,
        store.described(h.name) == Ok::<DescriptorV, ErrorV>(d),
        d.next_rid % h.row_group_size as u64 != 0,
        forall|i: int|
            0 <= i < records.len() ==> record_error(h.schema, #[trigger] records[i]) is None,
    ensures
        bulk_steps(store, h, records).0 == Some(
            ErrorV::Other(
                "bulk_load must start on a row-group boundary, but next_rid is "@ + decimal(
                    d.next_rid as int,
                ),
            ),
        ),
        bulk_steps(store, h, records).1.len() == 0,
{
    let f = bulk_record_error(h.schema, records);
    assert forall|i: int| 0 <= i < records.len() implies (#[trigger] f(i)) is None by {
        assert(record_error(h.schema, records[i]) is None);
    }
    lemma_no_failure(0, records.len() as int, f);
}

/// A bulk load with a record that does not fit is refused with that record's
/// error, the first of several, and writes nothing.
pub proof fn law_bulk_loads_check_every_record(
    store: StoreV,
    h: HandleV,
    records: Seq<Seq<ValueV>>,
    k: int,
)
    requires
        0 <= k < records.len(),
        record_error(h.schema, records[k]) is Some,
        forall|i: int| 0 <= i < k ==> record_error(h.schema, #[trigger] records[i]) is None,
    ensures
        bulk_steps(store, h, records).0 == record_error(h.schema, records[k]),
        bulk_steps(store, h, records).1.len() == 0,
{
    let f = bulk_record_error(h.schema, records);
    assert forall|i: int| 0 <= i < k implies (#[trigger] f(i)) is None by {
        assert(record_error(h.schema, records[i]) is None);
    }
    law_first_failure_counts(0, records.len() as int, f, k);
}

} // verus!
