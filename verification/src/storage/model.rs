//! What the storage operations do to the files of a database, and what they
//! return, stated over views.

use vstd::prelude::*;

use crate::bytes::{bit_set, bytes_for_bits, zero_bytes};
use crate::catalog::files::ManifestImageV;
use crate::catalog::schema::{type_text, ColumnType, ColumnV};
use crate::catalog::tables::{path_join, CatalogV, DescriptorV, TableOptions};
use crate::catalog::tables::chosen_size;
use crate::disk::{DiskV, EffectV};
use crate::error::ErrorV;
use crate::steps::{collect, first_failure};
use crate::storage::column_file::{
    column_of, encoded_column, header_image, header_of_file, no_range, truncated, HeaderV,
    PHYSICAL_RAW,
};
use crate::storage::delete_bitmap::{file_image, load_of, marked, Header, FILE_NAME};
use crate::storage::{BatchV, ScanCompare, ScanPredicateV, ValueV};
use crate::text::{decimal, zero_padded};

verus! {

/// The view of a table handle.
pub struct HandleV {
    pub id: u64,
    pub name: Seq<char>,
    pub schema: Seq<ColumnV>,
    pub dir: Seq<char>,
    pub row_group_size: u32,
}

/// The view of a store: the table index in memory, the files, and the effects
/// on the files that were logged.
pub struct StoreV {
    pub catalog: CatalogV,
    pub disk: DiskV,
    pub log: Seq<EffectV>,
}

impl StoreV {
    /// The store after a run of effects on its files.
    pub open spec fn after(self, effects: Seq<EffectV>) -> StoreV {
        StoreV {
            catalog: self.catalog,
            disk: self.disk.after_all(effects),
            log: self.log + effects,
        }
    }

    /// Every manifest names a row-group size above zero.
    pub open spec fn sized(self) -> bool {
        sized(self.disk)
    }

    /// All that is known of the table `name`.
    pub open spec fn described(self, name: Seq<char>) -> Result<DescriptorV, ErrorV> {
        self.catalog.described(self.disk, name)
    }

    /// The handle of the table `name`.
    pub open spec fn opened(self, name: Seq<char>) -> Result<HandleV, ErrorV> {
        match self.described(name) {
            Err(e) => Err(e),
            Ok(d) => Ok(
                HandleV {
                    id: d.id,
                    name: d.name,
                    schema: d.schema,
                    dir: d.dir,
                    row_group_size: d.row_group_size,
                },
            ),
        }
    }
}

/// Every manifest names a row-group size above zero.
pub open spec fn sized(disk: DiskV) -> bool {
    forall|dir: Seq<char>|
        #![trigger disk.manifest(dir)]
        disk.manifest(dir) matches ManifestImageV::Loaded(m) ==> m.row_group_size > 0
}

// ---- places ----

/// The directory of a row group.
pub open spec fn group_path(dir: Seq<char>, group: u32) -> Seq<char> {
    path_join(path_join(dir, "row_groups"@), zero_padded(group as nat, 6))
}

/// The name of a column's file.
pub open spec fn col_file(column: Seq<char>) -> Seq<char> {
    column + ".col"@
}

/// The path of a column's file.
pub open spec fn column_path(dir: Seq<char>, group: u32, column: Seq<char>) -> Seq<char> {
    path_join(group_path(dir, group), col_file(column))
}

/// The path of a row group's delete bitmap.
pub open spec fn bitmap_path(dir: Seq<char>, group: u32) -> Seq<char> {
    path_join(group_path(dir, group), FILE_NAME@)
}

/// What reading a column of a row group gives.
pub open spec fn column_at(disk: DiskV, dir: Seq<char>, group: u32, column: Seq<char>) -> Result<
    (HeaderV, Seq<ValueV>),
    ErrorV,
> {
    column_of(disk.file(dir, group, col_file(column)), column_path(dir, group, column))
}

/// What reading the header of a column of a row group gives.
pub open spec fn column_header_at(
    disk: DiskV,
    dir: Seq<char>,
    group: u32,
    column: Seq<char>,
) -> Result<HeaderV, ErrorV> {
    header_of_file(disk.file(dir, group, col_file(column)), column_path(dir, group, column))
}

/// What loading the delete bitmap of a row group gives.
pub open spec fn deletes_at(disk: DiskV, dir: Seq<char>, group: u32) -> Result<
    (Header, Seq<u8>),
    ErrorV,
> {
    load_of(disk.file(dir, group, FILE_NAME@), bitmap_path(dir, group))
}

/// The row group of a record.
pub open spec fn group_of(rid: u64, row_group_size: u32) -> u32 {
    (rid / row_group_size as u64) as u32
}

/// The place of a record in its row group.
pub open spec fn offset_of(rid: u64, row_group_size: u32) -> int {
    rid as int % row_group_size as int
}

// ---- what an operation does: the error it ends with, and its effects ----

/// The error that an operation ends with, if any, and its effects on the files
/// up to there.
pub type StepsV = (Option<ErrorV>, Seq<EffectV>);

/// Nothing was done, and `e` came of it.
pub open spec fn failed(e: ErrorV) -> StepsV {
    (Some(e), Seq::empty())
}

/// `effects` were carried out.
pub open spec fn done(effects: Seq<EffectV>) -> StepsV {
    (None, effects)
}

/// `first`, and unless it failed, `next` on the files that it left.
pub open spec fn chain(disk: DiskV, first: StepsV, next: spec_fn(DiskV) -> StepsV) -> StepsV {
    if first.0 is Some {
        first
    } else {
        let rest = next(disk.after_all(first.1));
        (rest.0, first.1 + rest.1)
    }
}

/// The steps `i` to `n - 1` one after the other, each on the files that the
/// steps before it left, up to the first that fails.
pub open spec fn run_steps(
    disk: DiskV,
    i: int,
    n: int,
    step: spec_fn(DiskV, int) -> StepsV,
) -> StepsV
    decreases n - i,
{
    if i >= n {
        done(Seq::empty())
    } else {
        let first = step(disk, i);
        if first.0 is Some {
            first
        } else {
            let rest = run_steps(disk.after_all(first.1), i + 1, n, step);
            (rest.0, first.1 + rest.1)
        }
    }
}

// ---- records ----

/// What is wrong with value `i` of a record.
pub open spec fn value_error(schema: Seq<ColumnV>, record: Seq<ValueV>) -> spec_fn(int) -> Option<
    ErrorV,
> {
    |i: int|
        match (record[i], schema[i].ty) {
            (ValueV::Null, _) => if schema[i].nullable {
                None
            } else {
                Some(
                    ErrorV::InvalidValue(
                        "column '"@ + schema[i].name + "' is NOT NULL but received NULL"@,
                    ),
                )
            },
            (ValueV::Int(_), ColumnType::Int) => None,
            (ValueV::Text(_), ColumnType::Text) => None,
            _ => Some(
                ErrorV::InvalidValue(
                    "value for column '"@ + schema[i].name + "' does not match type "@ + type_text(
                        schema[i].ty,
                    ),
                ),
            ),
        }
}

/// What is wrong with a record for a table, if anything: its arity first, then
/// the first value that does not fit its column.
pub open spec fn record_error(schema: Seq<ColumnV>, record: Seq<ValueV>) -> Option<ErrorV> {
    if record.len() != schema.len() {
        Some(
            ErrorV::InvalidValue(
                "record has "@ + decimal(record.len() as int)
                    + " value(s) but the table has "@ + decimal(schema.len() as int)
                    + " column(s)"@,
            ),
        )
    } else {
        first_failure(0, schema.len() as int, value_error(schema, record))
    }
}

// ---- row groups ----

/// The write of a column's file.
pub open spec fn column_write(
    dir: Seq<char>,
    group: u32,
    column: Seq<char>,
    bytes: Seq<u8>,
) -> EffectV {
    EffectV::WriteFile { dir, group, file: col_file(column), bytes }
}

/// The write of a row group's delete bitmap.
pub open spec fn bitmap_write(dir: Seq<char>, group: u32, bytes: Seq<u8>) -> EffectV {
    EffectV::WriteFile { dir, group, file: FILE_NAME@, bytes }
}

/// Creating a row group: its directory, one empty file per column, and an empty
/// delete bitmap.
pub open spec fn materialize_effects(
    dir: Seq<char>,
    group: u32,
    schema: Seq<ColumnV>,
    row_group_size: u32,
) -> Seq<EffectV> {
    seq![EffectV::CreateGroup { dir, group }] + Seq::new(
        schema.len(),
        |i: int|
            column_write(
                dir,
                group,
                schema[i].name,
                header_image(schema[i].ty, PHYSICAL_RAW, 0, 0, 0, no_range()),
            ),
    ) + seq![
        bitmap_write(
            dir,
            group,
            file_image(0, zero_bytes(bytes_for_bits(row_group_size as int))),
        ),
    ]
}

/// Rewriting column `i` with the values that `change` makes of the old ones.
pub open spec fn rewrite_step(
    h: HandleV,
    group: u32,
    bits: Seq<u8>,
    i: int,
    disk: DiskV,
    change: spec_fn(Seq<ValueV>) -> Seq<ValueV>,
) -> StepsV {
    match column_at(disk, h.dir, group, h.schema[i].name) {
        Err(e) => failed(e),
        Ok((_, values)) => match encoded_column(h.schema[i].ty, change(values), bits) {
            Err(e) => failed(e),
            Ok(bytes) => done(seq![column_write(h.dir, group, h.schema[i].name, bytes)]),
        },
    }
}

/// Appending a record's value to each column.
pub open spec fn append_step(
    h: HandleV,
    group: u32,
    bits: Seq<u8>,
    record: Seq<ValueV>,
) -> spec_fn(DiskV, int) -> StepsV {
    |disk: DiskV, i: int|
        rewrite_step(h, group, bits, i, disk, |values: Seq<ValueV>| values.push(record[i]))
}

/// Rewriting each INT column so that its statistics leave out deleted rows.
pub open spec fn restat_step(h: HandleV, group: u32, bits: Seq<u8>) -> spec_fn(
    DiskV,
    int,
) -> StepsV {
    |disk: DiskV, i: int|
        if h.schema[i].ty == ColumnType::Int {
            rewrite_step(h, group, bits, i, disk, |values: Seq<ValueV>| values)
        } else {
            done(Seq::empty())
        }
}

// ---- operations on rows ----

/// Inserting a record: its row group is created when the record is the first of
/// it, every column file is rewritten with the value behind, and then the next
/// record identifier is recorded, which commits the row.
pub open spec fn insert_steps(store: StoreV, h: HandleV, record: Seq<ValueV>) -> StepsV {
    match record_error(h.schema, record) {
        Some(e) => failed(e),
        None => match store.described(h.name) {
            Err(e) => failed(e),
            Ok(d) => {
                let rid = d.next_rid;
                let group = group_of(rid, h.row_group_size);
                let opened = if offset_of(rid, h.row_group_size) == 0 && group > 0 {
                    materialize_effects(h.dir, group, h.schema, h.row_group_size)
                } else {
                    Seq::empty()
                };
                chain(
                    store.disk,
                    done(opened),
                    |disk: DiskV| append_and_commit(store.catalog, disk, h, group, record, rid),
                )
            },
        },
    }
}

/// The rewrite of the columns and the commit of an insert.
pub open spec fn append_and_commit(
    catalog: CatalogV,
    disk: DiskV,
    h: HandleV,
    group: u32,
    record: Seq<ValueV>,
    rid: u64,
) -> StepsV {
    match deletes_at(disk, h.dir, group) {
        Err(e) => failed(e),
        Ok((_, bits)) => chain(
            disk,
            run_steps(disk, 0, h.schema.len() as int, append_step(h, group, bits, record)),
            |after: DiskV| commit_steps(catalog, after, h.name, (rid + 1) as u64),
        ),
    }
}

/// Recording the next record identifier of a table.
pub open spec fn commit_steps(
    catalog: CatalogV,
    disk: DiskV,
    name: Seq<char>,
    next_rid: u64,
) -> StepsV {
    match catalog.manifest_of(disk, name) {
        Err(e) => failed(e),
        Ok(m) => done(catalog.rid_effects(disk, name, next_rid)),
    }
}

/// The error for a record that is not there.
pub open spec fn no_such_record(h: HandleV, rid: u64) -> ErrorV {
    ErrorV::InvalidValue(
        "no such record: rid "@ + decimal(rid as int) + " in table '"@ + h.name + "'"@,
    )
}

/// Deleting a record: its bit is set in the delete bitmap, and the INT columns
/// of its row group get statistics that leave it out.
pub open spec fn delete_steps(store: StoreV, h: HandleV, rid: u64) -> StepsV {
    let group = group_of(rid, h.row_group_size);
    let offset = offset_of(rid, h.row_group_size);
    match store.described(h.name) {
        Err(e) => failed(e),
        Ok(d) => if rid >= d.next_rid {
            failed(no_such_record(h, rid))
        } else {
            match deletes_at(store.disk, h.dir, group) {
                Err(e) => failed(e),
                Ok((_, bits)) => if bit_set(bits, offset) {
                    failed(no_such_record(h, rid))
                } else {
                    match marked(
                        store.disk.file(h.dir, group, FILE_NAME@),
                        bitmap_path(h.dir, group),
                        offset,
                    ) {
                        Err(e) => failed(e),
                        Ok(bytes) => chain(
                            store.disk,
                            done(seq![bitmap_write(h.dir, group, bytes)]),
                            |disk: DiskV| refresh_stats(disk, h, group),
                        ),
                    }
                },
            }
        },
    }
}

/// Giving the INT columns of a row group statistics that leave out its deleted
/// rows.
pub open spec fn refresh_stats(disk: DiskV, h: HandleV, group: u32) -> StepsV {
    match deletes_at(disk, h.dir, group) {
        Err(e) => failed(e),
        Ok((_, bits)) => run_steps(
            disk,
            0,
            h.schema.len() as int,
            restat_step(h, group, bits),
        ),
    }
}

/// Updating a record: the new record is checked, the old one deleted, and the
/// new one inserted under a new identifier.
pub open spec fn update_steps(store: StoreV, h: HandleV, rid: u64, record: Seq<ValueV>) -> StepsV {
    match record_error(h.schema, record) {
        Some(e) => failed(e),
        None => chain(
            store.disk,
            delete_steps(store, h, rid),
            |disk: DiskV|
                insert_steps(
                    StoreV { catalog: store.catalog, disk, log: store.log },
                    h,
                    record,
                ),
        ),
    }
}

/// The identifier that the next inserted record gets.
pub open spec fn next_rid(store: StoreV, h: HandleV) -> u64 {
    store.described(h.name)->Ok_0.next_rid
}

/// The values at `offset` of the columns from `i` on, behind those in `found`;
/// nothing when some column is too short.
pub open spec fn row_from(
    disk: DiskV,
    h: HandleV,
    group: u32,
    offset: int,
    i: int,
    found: Seq<ValueV>,
) -> Result<Option<Seq<ValueV>>, ErrorV>
    decreases h.schema.len() - i,
{
    if i >= h.schema.len() {
        Ok(Some(found))
    } else {
        match column_at(disk, h.dir, group, h.schema[i].name) {
            Err(e) => Err(e),
            Ok((_, values)) => if offset < values.len() {
                row_from(disk, h, group, offset, i + 1, found.push(values[offset]))
            } else {
                Ok(None)
            },
        }
    }
}

/// What reading a record gives: nothing when its row group is not there, when
/// it is deleted, or when the group has no such row.
pub open spec fn get_of(disk: DiskV, h: HandleV, rid: u64) -> Result<Option<Seq<ValueV>>, ErrorV> {
    let group = group_of(rid, h.row_group_size);
    let offset = offset_of(rid, h.row_group_size);
    if !disk.has_group(h.dir, group) {
        Ok(None)
    } else {
        match deletes_at(disk, h.dir, group) {
            Err(e) => Err(e),
            Ok((_, bits)) => if bit_set(bits, offset) {
                Ok(None)
            } else {
                row_from(disk, h, group, offset, 0, Seq::empty())
            },
        }
    }
}

// ---- recovery ----

/// Cutting column `i` of the open row group back to the committed rows.
pub open spec fn reconcile_step(
    h: HandleV,
    group: u32,
    expected: int,
    bits: Seq<u8>,
) -> spec_fn(DiskV, int) -> StepsV {
    |disk: DiskV, i: int|
        {
            let column = h.schema[i];
            match column_header_at(disk, h.dir, group, column.name) {
                Err(e) => failed(e),
                Ok(header) => if header.row_count == expected {
                    done(Seq::empty())
                } else if header.row_count < expected {
                    failed(
                        ErrorV::Corrupt(
                            "column '"@ + column.name + "' in row group "@ + decimal(group as int)
                                + " of table '"@ + h.name + "' holds "@ + decimal(
                                header.row_count,
                            ) + " rows but the catalog committed "@ + decimal(expected),
                        ),
                    )
                } else {
                    match truncated(
                        disk.file(h.dir, group, col_file(column.name)),
                        column_path(h.dir, group, column.name),
                        column.ty,
                        expected,
                        bits,
                    ) {
                        Err(e) => failed(e),
                        Ok(bytes) => done(
                            seq![column_write(h.dir, group, column.name, bytes)],
                        ),
                    }
                },
            }
        }
}

/// Reconciling a table's open row group with the committed `next_rid`: columns
/// that carry rows of an uncommitted insert are cut back.
pub open spec fn reconcile_steps(catalog: CatalogV, disk: DiskV, h: HandleV) -> StepsV {
    match catalog.described(disk, h.name) {
        Err(e) => failed(e),
        Ok(d) => {
            let group = group_of(d.next_rid, h.row_group_size);
            let expected = offset_of(d.next_rid, h.row_group_size);
            if !disk.has_group(h.dir, group) {
                done(Seq::empty())
            } else {
                match deletes_at(disk, h.dir, group) {
                    Err(e) => failed(e),
                    Ok((_, bits)) => run_steps(
                        disk,
                        0,
                        h.schema.len() as int,
                        reconcile_step(h, group, expected, bits),
                    ),
                }
            }
        },
    }
}

/// Recovering table `i` of the index: one whose manifest cannot be read is
/// passed over.
pub open spec fn recover_step(catalog: CatalogV) -> spec_fn(DiskV, int) -> StepsV {
    |disk: DiskV, i: int|
        {
            let store = StoreV { catalog, disk, log: Seq::empty() };
            match store.opened(catalog.tables[i].name) {
                Err(_) => done(Seq::empty()),
                Ok(h) => reconcile_steps(catalog, disk, h),
            }
        }
}

/// Recovering every table.
pub open spec fn recover_steps(catalog: CatalogV, disk: DiskV) -> StepsV {
    run_steps(disk, 0, catalog.tables.len() as int, recover_step(catalog))
}

// ---- bulk loading ----

/// The first record of a bulk load that does not fit the table.
pub open spec fn bulk_record_error(schema: Seq<ColumnV>, records: Seq<Seq<ValueV>>) -> spec_fn(
    int,
) -> Option<ErrorV> {
    |i: int| record_error(schema, records[i])
}

/// Column `c` of the records `from` to `to - 1`.
pub open spec fn column_slice(records: Seq<Seq<ValueV>>, from: int, to: int, c: int) -> Seq<
    ValueV,
> {
    Seq::new((to - from) as nat, |j: int| records[from + j][c])
}

/// Writing column `i` of one chunk of a bulk load.
pub open spec fn chunk_column_step(
    h: HandleV,
    group: u32,
    bits: Seq<u8>,
    records: Seq<Seq<ValueV>>,
    from: int,
    to: int,
) -> spec_fn(DiskV, int) -> StepsV {
    |disk: DiskV, i: int|
        match encoded_column(h.schema[i].ty, column_slice(records, from, to, i), bits) {
            Err(e) => failed(e),
            Ok(bytes) => done(seq![column_write(h.dir, group, h.schema[i].name, bytes)]),
        }
}

/// Writing the columns of one chunk of a bulk load.
pub open spec fn chunk_columns(
    disk: DiskV,
    h: HandleV,
    group: u32,
    records: Seq<Seq<ValueV>>,
    from: int,
    to: int,
) -> StepsV {
    match deletes_at(disk, h.dir, group) {
        Err(e) => failed(e),
        Ok((_, bits)) => run_steps(
            disk,
            0,
            h.schema.len() as int,
            chunk_column_step(h, group, bits, records, from, to),
        ),
    }
}

/// The end of the chunk of `size` records that starts at `from`.
pub open spec fn chunk_end(n: int, from: int, size: int) -> int {
    if from + size < n {
        from + size
    } else {
        n
    }
}

/// Loading chunk `k`: each chunk fills a row group of its own.
pub open spec fn chunk_step(
    h: HandleV,
    start_group: int,
    records: Seq<Seq<ValueV>>,
) -> spec_fn(DiskV, int) -> StepsV {
    |disk: DiskV, k: int|
        {
            let size = h.row_group_size as int;
            let group = (start_group + k) as u32;
            let from = k * size;
            let to = chunk_end(records.len() as int, from, size);
            let opened = if group > 0 {
                materialize_effects(h.dir, group, h.schema, h.row_group_size)
            } else {
                Seq::empty()
            };
            chain(
                disk,
                done(opened),
                |after: DiskV| chunk_columns(after, h, group, records, from, to),
            )
        }
}

/// The number of chunks of a bulk load.
pub open spec fn chunk_count(n: int, size: int) -> int {
    (n + size - 1) / size
}

/// Loading records in bulk: all are checked first, the load must start at a row
/// group's first row, each row group is written once, and then the next record
/// identifier is recorded.
pub open spec fn bulk_steps(store: StoreV, h: HandleV, records: Seq<Seq<ValueV>>) -> StepsV {
    match first_failure(0, records.len() as int, bulk_record_error(h.schema, records)) {
        Some(e) => failed(e),
        None => match store.described(h.name) {
            Err(e) => failed(e),
            Ok(d) => if offset_of(d.next_rid, h.row_group_size) != 0 {
                failed(
                    ErrorV::Other(
                        "bulk_load must start on a row-group boundary, but next_rid is "@
                            + decimal(d.next_rid as int),
                    ),
                )
            } else {
                let size = h.row_group_size as int;
                let start_group = group_of(d.next_rid, h.row_group_size) as int;
                chain(
                    store.disk,
                    run_steps(
                        store.disk,
                        0,
                        chunk_count(records.len() as int, size),
                        chunk_step(h, start_group, records),
                    ),
                    |after: DiskV|
                        commit_steps(
                            store.catalog,
                            after,
                            h.name,
                            (d.next_rid + records.len()) as u64,
                        ),
                )
            },
        },
    }
}

// ---- tables ----

/// Creating a table: the catalog's effects, then its first row group.
pub open spec fn create_effects(
    store: StoreV,
    name: Seq<char>,
    schema: Seq<ColumnV>,
    options: TableOptions,
) -> Seq<EffectV> {
    store.catalog.create_effects(name, schema, options) + materialize_effects(
        path_join(store.catalog.root, store.catalog.new_entry(name).dir),
        0,
        schema,
        chosen_size(options),
    )
}

// ---- scans ----

/// Whether a row group whose live INT range is `min` to `max` could hold a row
/// with `col <op> value`.
pub open spec fn can_match(op: ScanCompare, value: int, min: int, max: int) -> bool {
    match op {
        ScanCompare::Eq => min <= value && value <= max,
        ScanCompare::NotEq => !(min == value && max == value),
        ScanCompare::Lt => min < value,
        ScanCompare::LtEq => min <= value,
        ScanCompare::Gt => max > value,
        ScanCompare::GtEq => max >= value,
    }
}

/// Whether the zone maps prove that no live row of a group can satisfy all of
/// the predicates from `i` on.
pub open spec fn pruned_from(
    disk: DiskV,
    dir: Seq<char>,
    group: u32,
    prune: Seq<ScanPredicateV>,
    i: int,
) -> Result<bool, ErrorV>
    decreases prune.len() - i,
{
    if i >= prune.len() {
        Ok(false)
    } else {
        match column_header_at(disk, dir, group, prune[i].column) {
            Err(e) => Err(e),
            Ok(header) => match header.int_range() {
                None => Ok(true),
                Some((min, max)) => if can_match(prune[i].op, prune[i].value as int, min, max) {
                    pruned_from(disk, dir, group, prune, i + 1)
                } else {
                    Ok(true)
                },
            },
        }
    }
}

/// The values of a column of a row group, without the header.
pub open spec fn raw_column(
    disk: DiskV,
    dir: Seq<char>,
    group: u32,
    projected: Seq<Seq<char>>,
) -> spec_fn(int) -> Result<Seq<ValueV>, ErrorV> {
    |i: int|
        match column_at(disk, dir, group, projected[i]) {
            Err(e) => Err(e),
            Ok((_, values)) => Ok(values),
        }
}

/// The live ones among the first `n` values.
pub open spec fn live_values(values: Seq<ValueV>, bits: Seq<u8>, n: int) -> Seq<ValueV>
    decreases n,
{
    if n <= 0 {
        Seq::empty()
    } else if bit_set(bits, n - 1) {
        live_values(values, bits, n - 1)
    } else {
        live_values(values, bits, n - 1).push(values[n - 1])
    }
}

/// The first column from `i` on whose length is not `rows`.
pub open spec fn uneven_from(columns: Seq<Seq<ValueV>>, rows: int, i: int) -> Option<int>
    decreases columns.len() - i,
{
    if i >= columns.len() {
        None
    } else if columns[i].len() != rows {
        Some(i)
    } else {
        uneven_from(columns, rows, i + 1)
    }
}

/// The smaller of two numbers.
pub open spec fn min_of(a: int, b: int) -> int {
    if a < b {
        a
    } else {
        b
    }
}

/// The rows that the first column of a group holds.
pub open spec fn stored_rows(columns: Seq<Seq<ValueV>>) -> int {
    if columns.len() == 0 {
        0
    } else {
        columns[0].len() as int
    }
}

/// The batch of a row group: its live rows up to `limit`, with only the
/// projected columns; nothing when no row is live.
pub open spec fn group_batch(
    disk: DiskV,
    dir: Seq<char>,
    group: u32,
    projected: Seq<Seq<char>>,
    limit: int,
) -> Result<Option<BatchV>, ErrorV> {
    match collect(projected.len() as int, raw_column(disk, dir, group, projected)) {
        Err(e) => Err(e),
        Ok(raw) => {
            let stored = stored_rows(raw);
            match uneven_from(raw, stored, 0) {
                Some(bad) => Err(
                    ErrorV::Corrupt(
                        "row group at '"@ + group_path(dir, group) + "': column '"@
                            + projected[bad] + "' has "@ + decimal(raw[bad].len() as int)
                            + " rows but '"@ + projected[0] + "' has "@ + decimal(stored),
                    ),
                ),
                None => match deletes_at(disk, dir, group) {
                    Err(e) => Err(e),
                    Ok((_, bits)) => {
                        let rows = min_of(stored, limit);
                        let columns = Seq::new(
                            raw.len(),
                            |c: int| live_values(raw[c], bits, rows),
                        );
                        if columns.len() > 0 && columns[0].len() == 0 {
                            Ok(None)
                        } else {
                            Ok(Some(BatchV { names: projected, columns }))
                        }
                    },
                },
            }
        },
    }
}

/// The view of a batch scan.
pub struct BatchScanV {
    pub disk: DiskV,
    pub dir: Seq<char>,
    pub projected: Seq<Seq<char>>,
    pub prune: Seq<ScanPredicateV>,
    pub row_group_size: u32,
    pub total_rows: u64,
}

/// What a scan yields for one row group: a batch, nothing, or an error.
pub open spec fn group_item(s: BatchScanV, group: int) -> Result<Option<BatchV>, ErrorV> {
    match pruned_from(s.disk, s.dir, group as u32, s.prune, 0) {
        Err(e) => Err(e),
        Ok(true) => Ok(None),
        Ok(false) => group_batch(
            s.disk,
            s.dir,
            group as u32,
            s.projected,
            s.total_rows - group * s.row_group_size,
        ),
    }
}

/// The items that a scan yields from `group` on: the batches of the row groups
/// in order, up to the committed rows; an error ends it.
pub open spec fn scan_items(s: BatchScanV, group: int) -> Seq<Result<BatchV, ErrorV>>
    decreases u32::MAX + 1 - group,
{
    if group > u32::MAX || group * s.row_group_size >= s.total_rows {
        Seq::empty()
    } else {
        match group_item(s, group) {
            Err(e) => seq![Err(e)],
            Ok(None) => scan_items(s, group + 1),
            Ok(Some(batch)) => seq![Ok::<BatchV, ErrorV>(batch)] + scan_items(s, group + 1),
        }
    }
}

/// Whether a schema has a column of this name.
pub open spec fn has_column(schema: Seq<ColumnV>, name: Seq<char>) -> bool {
    exists|i: int| 0 <= i < schema.len() && (#[trigger] schema[i]).name == name
}

/// Whether a schema has an INT column of this name.
pub open spec fn has_int_column(schema: Seq<ColumnV>, name: Seq<char>) -> bool {
    exists|i: int|
        0 <= i < schema.len() && (#[trigger] schema[i]).name == name && schema[i].ty
            == ColumnType::Int
}

/// What is wrong with projected column `i` of a scan.
pub open spec fn projection_error(h: HandleV, names: Seq<Seq<char>>) -> spec_fn(int) -> Option<
    ErrorV,
> {
    |i: int|
        if has_column(h.schema, names[i]) {
            None
        } else {
            Some(
                ErrorV::Other(
                    "scan projection references unknown column '"@ + names[i] + "' in table '"@
                        + h.name + "'"@,
                ),
            )
        }
}

/// The names of a schema's columns.
pub open spec fn column_names(schema: Seq<ColumnV>) -> Seq<Seq<char>> {
    Seq::new(schema.len(), |i: int| schema[i].name)
}

/// The predicates that the zone maps can serve: those on INT columns of the
/// table.
pub open spec fn usable_predicates(
    schema: Seq<ColumnV>,
    prune: Seq<ScanPredicateV>,
) -> Seq<ScanPredicateV>
    decreases prune.len(),
{
    if prune.len() == 0 {
        Seq::empty()
    } else {
        let before = usable_predicates(schema, prune.drop_last());
        if has_int_column(schema, prune.last().column) {
            before.push(prune.last())
        } else {
            before
        }
    }
}

/// What starting a batch scan gives.
pub open spec fn batch_scan_of(
    store: StoreV,
    h: HandleV,
    projection: Option<Seq<Seq<char>>>,
    prune: Seq<ScanPredicateV>,
) -> Result<BatchScanV, ErrorV> {
    let projected = match projection {
        None => column_names(h.schema),
        Some(names) => names,
    };
    let unknown = match projection {
        None => None,
        Some(names) => first_failure(0, names.len() as int, projection_error(h, names)),
    };
    match unknown {
        Some(e) => Err(e),
        None => match store.described(h.name) {
            Err(e) => Err(e),
            Ok(d) => Ok(
                BatchScanV {
                    disk: store.disk,
                    dir: h.dir,
                    projected,
                    prune: usable_predicates(h.schema, prune),
                    row_group_size: h.row_group_size,
                    total_rows: d.next_rid,
                },
            ),
        },
    }
}

/// The view of a row scan.
pub struct RowScanV {
    pub disk: DiskV,
    pub dir: Seq<char>,
    pub columns: Seq<ColumnV>,
    pub row_group_size: u32,
    pub total_rows: u64,
}

/// The columns and the delete bitmap of a row group, for a row scan.
pub open spec fn loaded_group(s: RowScanV, group: int) -> Result<
    (Seq<Seq<ValueV>>, Seq<u8>),
    ErrorV,
> {
    let names = column_names(s.columns);
    match collect(names.len() as int, raw_column(s.disk, s.dir, group as u32, names)) {
        Err(e) => Err(e),
        Ok(raw) => match deletes_at(s.disk, s.dir, group as u32) {
            Err(e) => Err(e),
            Ok((_, bits)) => {
                let rows = stored_rows(raw);
                match uneven_from(raw, rows, 0) {
                    Some(bad) => Err(
                        ErrorV::Corrupt(
                            "row group "@ + decimal(group) + " of '"@ + s.dir + "': column '"@
                                + names[bad] + "' has "@ + decimal(raw[bad].len() as int)
                                + " rows but '"@ + names[0] + "' has "@ + decimal(rows),
                        ),
                    ),
                    None => Ok((raw, bits)),
                }
            },
        },
    }
}

/// Row `offset` of a group's columns.
pub open spec fn row_at(columns: Seq<Seq<ValueV>>, offset: int) -> Seq<ValueV> {
    Seq::new(columns.len(), |c: int| columns[c][offset])
}

/// The live rows of a loaded group from `offset` on, with their identifiers, up
/// to the committed rows.
pub open spec fn group_rows(
    columns: Seq<Seq<ValueV>>,
    bits: Seq<u8>,
    first_rid: int,
    total: int,
    offset: int,
) -> Seq<Result<(u64, Seq<ValueV>), ErrorV>>
    decreases stored_rows(columns) - offset,
{
    if offset >= stored_rows(columns) || first_rid + offset >= total {
        Seq::empty()
    } else {
        let rest = group_rows(columns, bits, first_rid, total, offset + 1);
        if bit_set(bits, offset) {
            rest
        } else {
            seq![Ok::<(u64, Seq<ValueV>), ErrorV>(((first_rid + offset) as u64, row_at(columns, offset)))]
                + rest
        }
    }
}

/// The items that a row scan yields from `group` on: every live row with its
/// identifier, in order of identifiers; an error ends it.
pub open spec fn row_items(s: RowScanV, group: int) -> Seq<Result<(u64, Seq<ValueV>), ErrorV>>
    decreases u32::MAX + 1 - group,
{
    if group > u32::MAX || group * s.row_group_size >= s.total_rows {
        Seq::empty()
    } else {
        match loaded_group(s, group) {
            Err(e) => seq![Err(e)],
            Ok((columns, bits)) => {
                let first = group * s.row_group_size;
                let here = group_rows(columns, bits, first, s.total_rows as int, 0);
                if first + stored_rows(columns) > s.total_rows {
                    here
                } else {
                    here + row_items(s, group + 1)
                }
            },
        }
    }
}

/// What starting a row scan gives.
pub open spec fn row_scan_of(store: StoreV, h: HandleV) -> Result<RowScanV, ErrorV> {
    match store.described(h.name) {
        Err(e) => Err(e),
        Ok(d) => Ok(
            RowScanV {
                disk: store.disk,
                dir: h.dir,
                columns: h.schema,
                row_group_size: h.row_group_size,
                total_rows: d.next_rid,
            },
        ),
    }
}

} // verus!
