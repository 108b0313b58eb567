//! Column-store implementation of the storage interface.
//!
//! A table is laid out as row groups of per-column `.col` files: a row is
//! appended by rewriting every column file of the open row group, a point read
//! decodes the same offset out of each, scans walk the groups in order over
//! live rows, `delete` sets the tombstone bit, and `update` is `delete` then
//! `insert`, which gives the row a new identifier.

use vstd::prelude::*;
use vstd::string::*;

use crate::catalog::files::TableId;
use crate::catalog::metadata::{Status, StatusV};
use crate::catalog::schema::{checked, columns_view, Column, ColumnType, Schema};
use crate::catalog::tables::{
    join_path, loaded, performed, Catalog, TableDescriptor, TableOptions, DEFAULT_ROW_GROUP_SIZE,
};
use crate::disk::{lemma_after_all_concat, Disk, DiskV, EffectV};
use crate::error::{Error, ErrorV};
use crate::steps::first_failure;
use crate::storage::column_file::{
    encoded_column, read_column, read_header, truncate_column, write_column, write_empty, Header,
    HeaderV,
};
use crate::storage::delete_bitmap::{self, empty_file, is_deleted, load, mark_deleted};
use crate::storage::model::{
    append_and_commit, append_step, bitmap_write, bulk_record_error, bulk_steps, chunk_column_step,
    chunk_columns, chunk_count, chunk_end, chunk_step, col_file, column_at, column_header_at,
    column_names, column_slice, column_write, commit_steps, create_effects, delete_steps,
    deletes_at, done, failed, get_of, group_path, has_column, insert_steps, materialize_effects,
    min_of, next_rid, no_such_record, projection_error, reconcile_step, reconcile_steps,
    record_error, recover_step, recover_steps, refresh_stats, restat_step, row_from, run_steps,
    sized, update_steps, usable_predicates, value_error, HandleV, StepsV, StoreV,
};
use crate::storage::model_lemmas::{
    lemma_data_only_keeps_manifests, lemma_delete_keeps_descriptions, lemma_recover_step_data_only,
};
use crate::storage::scan::{BatchScan, RowScan};
use crate::storage::{
    predicates_view, projection_view, values_view, Record, Rid, ScanPredicate, ScanPredicateV,
    Storage, TableHandle, Value, ValueV,
};
use crate::text::{clone_texts, 
    decimal, join2, join3, join4, join5, same, texts, u32_text, u64_text, usize_text,
    zero_padded_text,
};

verus! {

/// An operation on the files ended with `r`, as `steps` says, and had the
/// effects that `steps` says.
pub open spec fn went(before: Disk, after: Disk, r: Result<(), Error>, steps: StepsV) -> bool {
    &&& checked(r) == steps.0
    &&& performed(before, after, steps.1)
}

/// Path of a row group directory within a table dir.
pub fn row_group_dir(table_dir: &str, group_id: u32) -> (r: String)
    ensures
        r@ == group_path(table_dir@, group_id),
{
    let groups = join_path(table_dir, "row_groups");
    let digits = zero_padded_text(group_id as u64, 6);
    join_path(groups.as_str(), digits.as_str())
}

/// Path of a column's `.col` file within a row-group directory.
pub fn col_path(rg_dir: &str, col_name: &str) -> (r: String)
    ensures
        r@ == crate::catalog::tables::path_join(rg_dir@, col_file(col_name@)),
{
    let file = join2(col_name, ".col");
    join_path(rg_dir, file.as_str())
}

/// Read a column of a row group.
pub(crate) fn read_at(disk: &Disk, dir: &str, group: u32, column: &str) -> (r: Result<
    (Header, Vec<Value>),
    Error,
>)
    ensures
        match r {
            Ok((h, values)) => column_at(disk@, dir@, group, column@) == Ok::<_, ErrorV>(
                (h@, values_view(values@)),
            ),
            Err(e) => column_at(disk@, dir@, group, column@) == Err::<
                (HeaderV, Seq<ValueV>),
                ErrorV,
            >(e@),
        },
{
    let rg_dir = row_group_dir(dir, group);
    let path = col_path(rg_dir.as_str(), column);
    let file = join2(column, ".col");
    read_column(disk.file(dir, group, file.as_str()), path.as_str())
}

/// Read the header of a column of a row group.
pub(crate) fn header_at(disk: &Disk, dir: &str, group: u32, column: &str) -> (r: Result<Header, Error>)
    ensures
        match r {
            Ok(h) => column_header_at(disk@, dir@, group, column@) == Ok::<_, ErrorV>(h@),
            Err(e) => column_header_at(disk@, dir@, group, column@) == Err::<HeaderV, ErrorV>(e@),
        },
{
    let rg_dir = row_group_dir(dir, group);
    let path = col_path(rg_dir.as_str(), column);
    let file = join2(column, ".col");
    read_header(disk.file(dir, group, file.as_str()), path.as_str())
}

/// Load the delete bitmap of a row group.
pub(crate) fn load_at(disk: &Disk, dir: &str, group: u32) -> (r: Result<Vec<u8>, Error>)
    ensures
        match r {
            Ok(bits) => deletes_at(disk@, dir@, group) matches Ok(loaded) && loaded.1 == bits@,
            Err(e) => deletes_at(disk@, dir@, group) == Err::<
                (delete_bitmap::Header, Seq<u8>),
                ErrorV,
            >(e@),
        },
{
    let rg_dir = row_group_dir(dir, group);
    let path = join_path(rg_dir.as_str(), delete_bitmap::FILE_NAME);
    match load(disk.file(dir, group, delete_bitmap::FILE_NAME), path.as_str()) {
        Err(e) => Err(e),
        Ok((_, bits)) => Ok(bits),
    }
}

/// Write a column's file.
fn write_at(disk: &mut Disk, dir: &str, group: u32, column: &str, bytes: Vec<u8>)
    ensures
        performed(*old(disk), *final(disk), seq![column_write(dir@, group, column@, bytes@)]),
{
    let ghost before = *disk;
    let file = join2(column, ".col");
    disk.write_file(dir, group, file.as_str(), bytes);
    proof {
        lemma_one_effect(before, *disk, column_write(dir@, group, column@, bytes@));
    }
}

/// A single effect is a run of one.
proof fn lemma_one_effect(before: Disk, after: Disk, effect: EffectV)
    requires
        after@ == before@.after(effect),
        after.log_view() == before.log_view().push(effect),
    ensures
        performed(before, after, seq![effect]),
{
    assert(seq![effect].drop_last() =~= Seq::<EffectV>::empty());
    reveal_with_fuel(DiskV::after_all, 2);
    assert(after.log_view() =~= before.log_view() + seq![effect]);
}

/// Nothing done is a run of none.
proof fn lemma_no_effect(disk: Disk)
    ensures
        performed(disk, disk, Seq::empty()),
{
    assert(disk.log_view() + Seq::<EffectV>::empty() =~= disk.log_view());
}

/// Runs one after the other are the joined run.
proof fn lemma_performed(a: Disk, b: Disk, c: Disk, first: Seq<EffectV>, then_run: Seq<EffectV>)
    requires
        performed(a, b, first),
        performed(b, c, then_run),
    ensures
        performed(a, c, first + then_run),
{
    lemma_after_all_concat(a@, first, then_run);
    assert(a.log_view() + first + then_run =~= a.log_view() + (first + then_run));
}

/// Where a loop over steps stands: `so_far` is done, and the steps from `i` on
/// are still to come.
spec fn underway(
    start: Disk,
    now: Disk,
    so_far: Seq<EffectV>,
    i: int,
    n: int,
    step: spec_fn(DiskV, int) -> StepsV,
) -> bool {
    let rest = run_steps(now@, i, n, step);
    &&& performed(start, now, so_far)
    &&& run_steps(start@, 0, n, step) == (rest.0, so_far + rest.1)
}

proof fn lemma_underway_start(
    start: Disk,
    n: int,
    step: spec_fn(DiskV, int) -> StepsV,
)
    ensures
        underway(start, start, Seq::empty(), 0, n, step),
{
    lemma_no_effect(start);
    let all = run_steps(start@, 0, n, step);
    assert(Seq::<EffectV>::empty() + all.1 =~= all.1);
}

/// One more step succeeded.
proof fn lemma_underway_next(
    start: Disk,
    now: Disk,
    next: Disk,
    so_far: Seq<EffectV>,
    effects: Seq<EffectV>,
    i: int,
    n: int,
    step: spec_fn(DiskV, int) -> StepsV,
)
    requires
        underway(start, now, so_far, i, n, step),
        i < n,
        step(now@, i) == done(effects),
        performed(now, next, effects),
    ensures
        underway(start, next, so_far + effects, i + 1, n, step),
{
    lemma_performed(start, now, next, so_far, effects);
    let rest = run_steps(next@, i + 1, n, step);
    assert(so_far + (effects + rest.1) =~= so_far + effects + rest.1);
}

/// A step failed: the run ends with its error.
proof fn lemma_underway_fail(
    start: Disk,
    now: Disk,
    next: Disk,
    so_far: Seq<EffectV>,
    i: int,
    n: int,
    step: spec_fn(DiskV, int) -> StepsV,
)
    requires
        underway(start, now, so_far, i, n, step),
        i < n,
        step(now@, i).0 is Some,
        performed(now, next, step(now@, i).1),
    ensures
        run_steps(start@, 0, n, step).0 == step(now@, i).0,
        performed(start, next, run_steps(start@, 0, n, step).1),
{
    lemma_performed(start, now, next, so_far, step(now@, i).1);
}

/// All steps succeeded.
proof fn lemma_underway_end(
    start: Disk,
    now: Disk,
    so_far: Seq<EffectV>,
    n: int,
    step: spec_fn(DiskV, int) -> StepsV,
    i: int,
)
    requires
        underway(start, now, so_far, i, n, step),
        i >= n,
    ensures
        run_steps(start@, 0, n, step) == done(so_far),
        performed(start, now, so_far),
{
    assert(so_far + Seq::<EffectV>::empty() =~= so_far);
}

/// Create a row group: its directory, one empty `.col` file per column, and the
/// delete bitmap, sized for `row_group_size` rows.
#[verifier::loop_isolation(false)]
pub fn materialize_row_group(
    disk: &mut Disk,
    dir: &str,
    group: u32,
    columns: &Vec<Column>,
    row_group_size: u32,
)
    ensures
        performed(
            *old(disk),
            *final(disk),
            materialize_effects(dir@, group, columns_view(columns@), row_group_size),
        ),
{
    let ghost start = *disk;
    let ghost all = materialize_effects(dir@, group, columns_view(columns@), row_group_size);
    disk.create_group(dir, group);
    proof {
        lemma_one_effect(start, *disk, all[0]);
        assert(all.take(1) =~= seq![all[0]]);
    }
    let mut i: usize = 0;
    while i < columns.len()
        invariant
            i <= columns@.len(),
            performed(start, *disk, all.take(i + 1)),
        decreases columns.len() - i,
    {
        let ghost now = *disk;
        write_at(disk, dir, group, columns[i].name.as_str(), write_empty(columns[i].ty));
        proof {
            assert(columns_view(columns@)[i as int] == columns@[i as int]@);
            lemma_performed(start, now, *disk, all.take(i + 1), seq![all[i + 1]]);
            assert(all.take(i + 1) + seq![all[i + 1]] =~= all.take(i + 2));
        }
        i = i + 1;
    }
    let ghost now = *disk;
    disk.write_file(dir, group, delete_bitmap::FILE_NAME, empty_file(row_group_size));
    proof {
        lemma_one_effect(now, *disk, all[i + 1]);
        lemma_performed(start, now, *disk, all.take(i + 1), seq![all[i + 1]]);
        assert(all.take(i + 1) + seq![all[i + 1]] =~= all);
    }
}

/// Check a record's arity and per-value types against the schema before any
/// bytes are written, so a malformed row never reaches the column files.
#[verifier::loop_isolation(false)]
pub fn validate_record(schema: &Schema, record: &Record) -> (r: Result<(), Error>)
    ensures
        checked(r) == record_error(schema@, record@),
{
    if record.values.len() != schema.columns.len() {
        let have = usize_text(record.values.len());
        let want = usize_text(schema.columns.len());
        let message = join5(
            "record has ",
            have.as_str(),
            " value(s) but the table has ",
            want.as_str(),
            " column(s)",
        );
        return Err(Error::invalid_value(message.as_str()));
    }
    let ghost rule = value_error(schema@, record@);
    let ghost n = schema@.len() as int;
    let mut i: usize = 0;
    while i < schema.columns.len()
        invariant
            i <= schema.columns@.len(),
            first_failure(0, n, rule) == first_failure(i as int, n, rule),
        decreases schema.columns.len() - i,
    {
        let col = &schema.columns[i];
        assert(schema@[i as int] == col@);
        assert(record@[i as int] == record.values@[i as int]@);
        let fits = match &record.values[i] {
            Value::Null => {
                if !col.nullable {
                    let message = join3(
                        "column '",
                        col.name.as_str(),
                        "' is NOT NULL but received NULL",
                    );
                    return Err(Error::invalid_value(message.as_str()));
                }
                true
            },
            Value::Int(_) => col.ty == ColumnType::Int,
            Value::Text(_) => col.ty == ColumnType::Text,
        };
        if !fits {
            let message = join4(
                "value for column '",
                col.name.as_str(),
                "' does not match type ",
                col.ty.as_str(),
            );
            return Err(Error::invalid_value(message.as_str()));
        }
        i = i + 1;
    }
    Ok(())
}

/// Record a table's next identifier.
fn commit(catalog: &Catalog, disk: &mut Disk, name: &str, next: u64) -> (r: Result<(), Error>)
    ensures
        went(*old(disk), *final(disk), r, commit_steps(catalog@, old(disk)@, name@, next)),
{
    let ghost before = *disk;
    proof {
        lemma_no_effect(before);
    }
    catalog.set_next_rid(disk, name, next)
}

/// Encode `values` as column `i` and write its file.
fn write_values(
    disk: &mut Disk,
    table: &TableHandle,
    group: u32,
    i: usize,
    values: &Vec<Value>,
    bits: &Vec<u8>,
) -> (r: Result<(), Error>)
    requires
        i < table.schema.columns@.len(),
    ensures
        ({
            let column = table@.schema[i as int];
            went(
                *old(disk),
                *final(disk),
                r,
                match encoded_column(column.ty, values_view(values@), bits@) {
                    Err(e) => failed(e),
                    Ok(bytes) => done(
                        seq![column_write(table@.dir, group, column.name, bytes)],
                    ),
                },
            )
        }),
{
    proof {
        lemma_no_effect(*disk);
    }
    let col = &table.schema.columns[i];
    assert(table@.schema[i as int] == col@);
    match write_column(col.ty, values.as_slice(), bits.as_slice()) {
        Err(e) => Err(e),
        Ok(bytes) => {
            write_at(disk, table.dir.as_str(), group, col.name.as_str(), bytes);
            Ok(())
        },
    }
}

/// Append a record's values to the columns of a row group.
#[verifier::loop_isolation(false)]
fn append_columns(
    disk: &mut Disk,
    table: &TableHandle,
    group: u32,
    bits: &Vec<u8>,
    record: &Record,
) -> (r: Result<(), Error>)
    requires
        record@.len() == table@.schema.len(),
    ensures
        went(
            *old(disk),
            *final(disk),
            r,
            run_steps(
                old(disk)@,
                0,
                table@.schema.len() as int,
                append_step(table@, group, bits@, record@),
            ),
        ),
{
    let ghost start = *disk;
    let ghost step = append_step(table@, group, bits@, record@);
    let ghost n = table@.schema.len() as int;
    let ghost mut so_far = Seq::<EffectV>::empty();
    proof {
        lemma_underway_start(start, n, step);
    }
    let mut i: usize = 0;
    while i < table.schema.columns.len()
        invariant
            i <= table.schema.columns@.len(),
            underway(start, *disk, so_far, i as int, n, step),
        decreases table.schema.columns.len() - i,
    {
        let ghost now = *disk;
        let col = &table.schema.columns[i];
        assert(table@.schema[i as int] == col@);
        let mut values = match read_at(disk, table.dir.as_str(), group, col.name.as_str()) {
            Err(e) => {
                proof {
                    lemma_no_effect(now);
                    lemma_underway_fail(start, now, now, so_far, i as int, n, step);
                }
                return Err(e);
            },
            Ok((_, values)) => values,
        };
        let ghost old_values = values@;
        values.push(record.values[i].clone());
        assert(values_view(values@) =~= values_view(old_values).push(record@[i as int]));
        match write_values(disk, table, group, i, &values, bits) {
            Err(e) => {
                proof {
                    lemma_underway_fail(start, now, *disk, so_far, i as int, n, step);
                }
                return Err(e);
            },
            Ok(_) => {},
        }
        proof {
            let effects = step(now@, i as int).1;
            lemma_underway_next(start, now, *disk, so_far, effects, i as int, n, step);
            so_far = so_far + effects;
        }
        i = i + 1;
    }
    proof {
        lemma_underway_end(start, *disk, so_far, n, step, i as int);
    }
    Ok(())
}

/// Insert a record at the end of a table and return its identifier.
pub fn insert_record(
    catalog: &Catalog,
    disk: &mut Disk,
    table: &TableHandle,
    record: &Record,
) -> (r: Result<Rid, Error>)
    requires
        table.row_group_size > 0,
        catalog@.described(old(disk)@, table@.name) matches Ok(d) ==> d.next_rid < u64::MAX,
    ensures
        ({
            let store = StoreV { catalog: catalog@, disk: old(disk)@, log: old(disk).log_view() };
            let steps = insert_steps(store, table@, record@);
            &&& performed(*old(disk), *final(disk), steps.1)
            &&& match r {
                Ok(rid) => steps.0 is None && rid.0 == next_rid(store, table@),
                Err(e) => steps.0 == Some(e@),
            }
        }),
{
    let ghost start = *disk;
    proof {
        lemma_no_effect(start);
    }
    match validate_record(&table.schema, record) {
        Err(e) => {
            return Err(e);
        },
        Ok(_) => {},
    }
    let rid: u64 = match catalog.describe_table(disk, table.name.as_str()) {
        Err(e) => {
            return Err(e);
        },
        Ok(d) => d.next_rid,
    };
    let rgs: u64 = table.row_group_size as u64;
    let group: u32 = (rid / rgs) as u32;
    let offset: u64 = rid % rgs;
    // Group 0 exists from the start; every later group opens when its first
    // row arrives.
    let ghost opened = if offset == 0 && group > 0 {
        materialize_effects(table@.dir, group, table@.schema, table.row_group_size)
    } else {
        Seq::<EffectV>::empty()
    };
    if offset == 0 && group > 0 {
        materialize_row_group(
            disk,
            table.dir.as_str(),
            group,
            &table.schema.columns,
            table.row_group_size,
        );
    }
    let ghost ready = *disk;
    assert(performed(start, ready, opened));
    let ghost steps = append_and_commit(catalog@, ready@, table@, group, record@, rid);
    // The bitmap keeps tombstoned offsets out of the min/max stats. It never
    // changes during an insert.
    let bits = match load_at(disk, table.dir.as_str(), group) {
        Err(e) => {
            proof {
                lemma_no_effect(ready);
                lemma_performed(start, ready, ready, opened, Seq::empty());
            }
            return Err(e);
        },
        Ok(bits) => bits,
    };
    match append_columns(disk, table, group, &bits, record) {
        Err(e) => {
            proof {
                lemma_performed(start, ready, *disk, opened, steps.1);
            }
            return Err(e);
        },
        Ok(_) => {},
    }
    let ghost appended = *disk;
    // The identifier is advanced only after every column is in place. This
    // commits the row.
    match commit(catalog, disk, table.name.as_str(), rid + 1) {
        Err(e) => {
            proof {
                let first = run_steps(
                    ready@,
                    0,
                    table@.schema.len() as int,
                    append_step(table@, group, bits@, record@),
                );
                let last = commit_steps(catalog@, appended@, table@.name, (rid + 1) as u64);
                lemma_performed(ready, appended, *disk, first.1, last.1);
                lemma_performed(start, ready, *disk, opened, steps.1);
            }
            Err(e)
        },
        Ok(_) => {
            proof {
                let first = run_steps(
                    ready@,
                    0,
                    table@.schema.len() as int,
                    append_step(table@, group, bits@, record@),
                );
                let last = commit_steps(catalog@, appended@, table@.name, (rid + 1) as u64);
                lemma_performed(ready, appended, *disk, first.1, last.1);
                lemma_performed(start, ready, *disk, opened, steps.1);
            }
            Ok(Rid(rid))
        },
    }
}

/// Read a record.
#[verifier::loop_isolation(false)]
pub fn get_record(disk: &Disk, table: &TableHandle, rid: Rid) -> (r: Result<Option<Record>, Error>)
    requires
        table.row_group_size > 0,
    ensures
        match r {
            Ok(None) => get_of(disk@, table@, rid.0) == Ok::<Option<Seq<ValueV>>, ErrorV>(None),
            Ok(Some(record)) => get_of(disk@, table@, rid.0) == Ok::<_, ErrorV>(Some(record@)),
            Err(e) => get_of(disk@, table@, rid.0) == Err::<Option<Seq<ValueV>>, ErrorV>(e@),
        },
{
    let rgs: u64 = table.row_group_size as u64;
    let group: u32 = (rid.0 / rgs) as u32;
    let offset: usize = (rid.0 % rgs) as usize;
    let dir = table.dir.as_str();
    if !disk.has_group(dir, group) {
        return Ok(None);
    }
    let bits = match load_at(disk, dir, group) {
        Err(e) => {
            return Err(e);
        },
        Ok(bits) => bits,
    };
    if is_deleted(bits.as_slice(), offset) {
        return Ok(None);
    }
    let mut values: Vec<Value> = Vec::new();
    let mut i: usize = 0;
    assert(values_view(values@) =~= Seq::<ValueV>::empty());
    while i < table.schema.columns.len()
        invariant
            i <= table.schema.columns@.len(),
            row_from(disk@, table@, group, offset as int, 0, Seq::empty()) == row_from(
                disk@,
                table@,
                group,
                offset as int,
                i as int,
                values_view(values@),
            ),
        decreases table.schema.columns.len() - i,
    {
        let col = &table.schema.columns[i];
        assert(table@.schema[i as int] == col@);
        match read_at(disk, dir, group, col.name.as_str()) {
            Err(e) => {
                return Err(e);
            },
            Ok((_, column)) => {
                if offset >= column.len() {
                    return Ok(None);
                }
                let ghost before = values@;
                values.push(column[offset].clone());
                assert(values_view(values@) =~= values_view(before).push(
                    values_view(column@)[offset as int],
                ));
            },
        }
        i = i + 1;
    }
    Ok(Some(Record { values }))
}

/// Give the INT columns of a row group statistics that leave out its deleted
/// rows.
#[verifier::loop_isolation(false)]
fn refresh_columns(disk: &mut Disk, table: &TableHandle, group: u32) -> (r: Result<(), Error>)
    ensures
        went(*old(disk), *final(disk), r, refresh_stats(old(disk)@, table@, group)),
{
    let ghost start = *disk;
    proof {
        lemma_no_effect(start);
    }
    let bits = match load_at(disk, table.dir.as_str(), group) {
        Err(e) => {
            return Err(e);
        },
        Ok(bits) => bits,
    };
    let ghost step = restat_step(table@, group, bits@);
    let ghost n = table@.schema.len() as int;
    let ghost mut so_far = Seq::<EffectV>::empty();
    proof {
        lemma_underway_start(start, n, step);
    }
    let mut i: usize = 0;
    while i < table.schema.columns.len()
        invariant
            i <= table.schema.columns@.len(),
            underway(start, *disk, so_far, i as int, n, step),
        decreases table.schema.columns.len() - i,
    {
        let ghost now = *disk;
        let col = &table.schema.columns[i];
        assert(table@.schema[i as int] == col@);
        proof {
            lemma_no_effect(now);
        }
        if col.ty == ColumnType::Int {
            let values = match read_at(disk, table.dir.as_str(), group, col.name.as_str()) {
                Err(e) => {
                    proof {
                        lemma_underway_fail(start, now, now, so_far, i as int, n, step);
                    }
                    return Err(e);
                },
                Ok((_, values)) => values,
            };
            match write_values(disk, table, group, i, &values, &bits) {
                Err(e) => {
                    proof {
                        lemma_underway_fail(start, now, *disk, so_far, i as int, n, step);
                    }
                    return Err(e);
                },
                Ok(_) => {},
            }
        }
        proof {
            let effects = step(now@, i as int).1;
            lemma_underway_next(start, now, *disk, so_far, effects, i as int, n, step);
            so_far = so_far + effects;
        }
        i = i + 1;
    }
    proof {
        lemma_underway_end(start, *disk, so_far, n, step, i as int);
    }
    Ok(())
}

/// The error for a record that is not there.
fn missing_record(table: &TableHandle, rid: Rid) -> (e: Error)
    ensures
        e@ == no_such_record(table@, rid.0),
{
    let shown = u64_text(rid.0);
    let message = join5(
        "no such record: rid ",
        shown.as_str(),
        " in table '",
        table.name.as_str(),
        "'",
    );
    Error::invalid_value(message.as_str())
}

/// Delete a record.
pub fn delete_record(
    catalog: &Catalog,
    disk: &mut Disk,
    table: &TableHandle,
    rid: Rid,
) -> (r: Result<(), Error>)
    requires
        table.row_group_size > 0,
    ensures
        ({
            let store = StoreV { catalog: catalog@, disk: old(disk)@, log: old(disk).log_view() };
            went(*old(disk), *final(disk), r, delete_steps(store, table@, rid.0))
        }),
{
    let ghost start = *disk;
    proof {
        lemma_no_effect(start);
    }
    let next: u64 = match catalog.describe_table(disk, table.name.as_str()) {
        Err(e) => {
            return Err(e);
        },
        Ok(d) => d.next_rid,
    };
    if rid.0 >= next {
        return Err(missing_record(table, rid));
    }
    let rgs: u64 = table.row_group_size as u64;
    let group: u32 = (rid.0 / rgs) as u32;
    let offset: usize = (rid.0 % rgs) as usize;
    let dir = table.dir.as_str();
    let bits = match load_at(disk, dir, group) {
        Err(e) => {
            return Err(e);
        },
        Ok(bits) => bits,
    };
    if is_deleted(bits.as_slice(), offset) {
        return Err(missing_record(table, rid));
    }
    let rg_dir = row_group_dir(dir, group);
    let path = join_path(rg_dir.as_str(), delete_bitmap::FILE_NAME);
    let bytes = match mark_deleted(
        disk.file(dir, group, delete_bitmap::FILE_NAME),
        path.as_str(),
        offset,
    ) {
        Err(e) => {
            return Err(e);
        },
        Ok(bytes) => bytes,
    };
    let ghost write = bitmap_write(dir@, group, bytes@);
    disk.write_file(dir, group, delete_bitmap::FILE_NAME, bytes);
    let ghost marked_disk = *disk;
    proof {
        lemma_one_effect(start, marked_disk, write);
    }
    let r = refresh_columns(disk, table, group);
    proof {
        let steps = refresh_stats(marked_disk@, table@, group);
        lemma_performed(start, marked_disk, *disk, seq![write], steps.1);
    }
    r
}

/// Replace a record: the new one is checked before anything changes, so a bad
/// payload can't leave the old row tombstoned with no replacement.
pub fn update_record(
    catalog: &Catalog,
    disk: &mut Disk,
    table: &TableHandle,
    rid: Rid,
    record: &Record,
) -> (r: Result<Rid, Error>)
    requires
        table.row_group_size > 0,
        catalog@.described(old(disk)@, table@.name) matches Ok(d) ==> d.next_rid < u64::MAX,
    ensures
        ({
            let store = StoreV { catalog: catalog@, disk: old(disk)@, log: old(disk).log_view() };
            let steps = update_steps(store, table@, rid.0, record@);
            &&& performed(*old(disk), *final(disk), steps.1)
            &&& match r {
                Ok(new_rid) => steps.0 is None && new_rid.0 == next_rid(store, table@),
                Err(e) => steps.0 == Some(e@),
            }
        }),
{
    let ghost start = *disk;
    let ghost store = StoreV { catalog: catalog@, disk: start@, log: start.log_view() };
    proof {
        lemma_no_effect(start);
    }
    match validate_record(&table.schema, record) {
        Err(e) => {
            return Err(e);
        },
        Ok(_) => {},
    }
    match delete_record(catalog, disk, table, rid) {
        Err(e) => {
            return Err(e);
        },
        Ok(_) => {},
    }
    let ghost deleted = *disk;
    proof {
        lemma_delete_keeps_descriptions(store, table@, rid.0, table@.name);
    }
    let r = insert_record(catalog, disk, table, record);
    proof {
        let first = delete_steps(store, table@, rid.0);
        let then_store = StoreV { catalog: catalog@, disk: deleted@, log: deleted.log_view() };
        let other_store = StoreV { catalog: catalog@, disk: deleted@, log: start.log_view() };
        assert(insert_steps(then_store, table@, record@) == insert_steps(
            other_store,
            table@,
            record@,
        )) by {
            lemma_insert_ignores_log(then_store, other_store, table@, record@);
        }
        let second = insert_steps(then_store, table@, record@);
        lemma_performed(start, deleted, *disk, first.1, second.1);
    }
    r
}

/// What an insert does depends on the index and the files alone.
proof fn lemma_insert_ignores_log(a: StoreV, b: StoreV, h: HandleV, record: Seq<ValueV>)
    requires
        a.catalog == b.catalog,
        a.disk == b.disk,
    ensures
        insert_steps(a, h, record) == insert_steps(b, h, record),
{
    assert(a.described(h.name) == b.described(h.name));
}

// ---- recovery ----

/// Cut column `i` of the open row group back to the committed rows.
fn reconcile_column(
    disk: &mut Disk,
    table: &TableHandle,
    group: u32,
    expected: usize,
    bits: &Vec<u8>,
    i: usize,
) -> (r: Result<(), Error>)
    requires
        i < table.schema.columns@.len(),
    ensures
        went(
            *old(disk),
            *final(disk),
            r,
            reconcile_step(table@, group, expected as int, bits@)(old(disk)@, i as int),
        ),
{
    proof {
        lemma_no_effect(*disk);
    }
    let col = &table.schema.columns[i];
    assert(table@.schema[i as int] == col@);
    let dir = table.dir.as_str();
    let have: usize = match header_at(disk, dir, group, col.name.as_str()) {
        Err(e) => {
            return Err(e);
        },
        Ok(h) => h.row_count as usize,
    };
    if have == expected {
        return Ok(());
    }
    if have < expected {
        let group_shown = u32_text(group);
        let have_shown = usize_text(have);
        let expected_shown = usize_text(expected);
        let mut message = join5(
            "column '",
            col.name.as_str(),
            "' in row group ",
            group_shown.as_str(),
            " of table '",
        );
        message.append(table.name.as_str());
        message.append("' holds ");
        message.append(have_shown.as_str());
        message.append(" rows but the catalog committed ");
        message.append(expected_shown.as_str());
        return Err(Error::corrupt(message.as_str()));
    }
    let rg_dir = row_group_dir(dir, group);
    let path = col_path(rg_dir.as_str(), col.name.as_str());
    let file = join2(col.name.as_str(), ".col");
    match truncate_column(
        disk.file(dir, group, file.as_str()),
        path.as_str(),
        col.ty,
        expected,
        bits.as_slice(),
    ) {
        Err(e) => Err(e),
        Ok(bytes) => {
            write_at(disk, dir, group, col.name.as_str(), bytes);
            Ok(())
        },
    }
}

/// Reconcile a table's open (last) row group with the committed `next_rid`.
///
/// `insert` replaces the column files one by one and advances `next_rid` only
/// after all of them. A crash partway leaves some columns with one extra,
/// uncommitted row. Truncating every column back to the committed length drops
/// the half-written row and makes all columns agree again.
#[verifier::loop_isolation(false)]
pub fn reconcile_open_group(catalog: &Catalog, disk: &mut Disk, table: &TableHandle) -> (r: Result<
    (),
    Error,
>)
    requires
        table.row_group_size > 0,
    ensures
        went(*old(disk), *final(disk), r, reconcile_steps(catalog@, old(disk)@, table@)),
{
    let ghost start = *disk;
    proof {
        lemma_no_effect(start);
    }
    let next: u64 = match catalog.describe_table(disk, table.name.as_str()) {
        Err(e) => {
            return Err(e);
        },
        Ok(d) => d.next_rid,
    };
    let rgs: u64 = table.row_group_size as u64;
    let group: u32 = (next / rgs) as u32;
    // The open group may not exist yet: an empty table, or a `next_rid` exactly
    // on a group boundary. Nothing to reconcile then.
    if !disk.has_group(table.dir.as_str(), group) {
        return Ok(());
    }
    let expected: usize = (next % rgs) as usize;
    let bits = match load_at(disk, table.dir.as_str(), group) {
        Err(e) => {
            return Err(e);
        },
        Ok(bits) => bits,
    };
    let ghost step = reconcile_step(table@, group, expected as int, bits@);
    let ghost n = table@.schema.len() as int;
    let ghost mut so_far = Seq::<EffectV>::empty();
    proof {
        lemma_underway_start(start, n, step);
    }
    let mut i: usize = 0;
    while i < table.schema.columns.len()
        invariant
            i <= table.schema.columns@.len(),
            underway(start, *disk, so_far, i as int, n, step),
        decreases table.schema.columns.len() - i,
    {
        let ghost now = *disk;
        match reconcile_column(disk, table, group, expected, &bits, i) {
            Err(e) => {
                proof {
                    lemma_underway_fail(start, now, *disk, so_far, i as int, n, step);
                }
                return Err(e);
            },
            Ok(_) => {},
        }
        proof {
            let effects = step(now@, i as int).1;
            lemma_underway_next(start, now, *disk, so_far, effects, i as int, n, step);
            so_far = so_far + effects;
        }
        i = i + 1;
    }
    proof {
        lemma_underway_end(start, *disk, so_far, n, step, i as int);
    }
    Ok(())
}

/// The handle of a described table.
fn handle_of(d: TableDescriptor) -> (h: TableHandle)
    ensures
        h@ == (HandleV {
            id: d@.id,
            name: d@.name,
            schema: d@.schema,
            dir: d@.dir,
            row_group_size: d@.row_group_size,
        }),
{
    TableHandle {
        id: d.id,
        name: d.name,
        schema: d.schema,
        dir: d.dir,
        row_group_size: d.row_group_size,
    }
}

/// Repair any row group left half-written by a crash mid-insert. Done once when
/// a store is opened, before any other operation. A table whose manifest can't
/// be read is passed over, so one broken table doesn't fail the whole database.
#[verifier::loop_isolation(false)]
pub fn recover(catalog: &Catalog, disk: &mut Disk) -> (r: Result<(), Error>)
    requires
        sized(old(disk)@),
    ensures
        went(*old(disk), *final(disk), r, recover_steps(catalog@, old(disk)@)),
{
    let ghost start = *disk;
    let names = catalog.list_tables();
    let ghost step = recover_step(catalog@);
    let ghost n = catalog@.tables.len() as int;
    let ghost mut so_far = Seq::<EffectV>::empty();
    proof {
        lemma_underway_start(start, n, step);
        assert(texts(names@).len() == n);
    }
    let mut i: usize = 0;
    while i < names.len()
        invariant
            i <= names@.len(),
            sized(disk@),
            underway(start, *disk, so_far, i as int, n, step),
        decreases names.len() - i,
    {
        let ghost now = *disk;
        assert(texts(names@)[i as int] == names@[i as int]@);
        proof {
            lemma_no_effect(now);
        }
        match catalog.open_table(disk, names[i].as_str()) {
            Err(_) => {},
            Ok(d) => {
                let table = handle_of(d);
                proof {
                    let dir = catalog@.dir_of(names@[i as int]@)->Ok_0;
                    assert(now@.manifest(dir) is Loaded);
                }
                match reconcile_open_group(catalog, disk, &table) {
                    Err(e) => {
                        proof {
                            lemma_underway_fail(start, now, *disk, so_far, i as int, n, step);
                        }
                        return Err(e);
                    },
                    Ok(_) => {},
                }
            },
        }
        proof {
            let effects = step(now@, i as int).1;
            lemma_underway_next(start, now, *disk, so_far, effects, i as int, n, step);
            so_far = so_far + effects;
            lemma_recover_step_data_only(catalog@, now@, i as int);
            lemma_data_only_keeps_manifests(now@, effects);
            assert forall|dir: Seq<char>|
                #![trigger disk@.manifest(dir)]
                disk@.manifest(dir) is Loaded implies disk@.manifest(
                    dir,
                )->Loaded_0.row_group_size > 0 by {
                assert(now@.after_all(effects).manifest(dir) == now@.manifest(dir));
            }
        }
        i = i + 1;
    }
    proof {
        lemma_underway_end(start, *disk, so_far, n, step, i as int);
    }
    Ok(())
}

// ---- bulk loading ----

/// The views of a run of records.
pub open spec fn records_view(records: Seq<Record>) -> Seq<Seq<ValueV>> {
    Seq::new(records.len(), |i: int| records[i]@)
}

/// Write the columns of one chunk of a bulk load.
#[verifier::loop_isolation(false)]
fn load_chunk_columns(
    disk: &mut Disk,
    table: &TableHandle,
    group: u32,
    records: &Vec<Record>,
    from: usize,
    to: usize,
) -> (r: Result<(), Error>)
    requires
        from <= to <= records@.len(),
        forall|j: int|
            0 <= j < records@.len() ==> (#[trigger] records@[j])@.len() == table@.schema.len(),
    ensures
        went(
            *old(disk),
            *final(disk),
            r,
            chunk_columns(
                old(disk)@,
                table@,
                group,
                records_view(records@),
                from as int,
                to as int,
            ),
        ),
{
    let ghost start = *disk;
    let ghost all = records_view(records@);
    proof {
        lemma_no_effect(start);
    }
    // A freshly loaded group has no tombstones, but the encoder still takes the
    // bitmap to derive min/max over live rows only.
    let bits = match load_at(disk, table.dir.as_str(), group) {
        Err(e) => {
            return Err(e);
        },
        Ok(bits) => bits,
    };
    let ghost step = chunk_column_step(table@, group, bits@, all, from as int, to as int);
    let ghost n = table@.schema.len() as int;
    let ghost mut so_far = Seq::<EffectV>::empty();
    proof {
        lemma_underway_start(start, n, step);
    }
    let mut i: usize = 0;
    while i < table.schema.columns.len()
        invariant
            i <= table.schema.columns@.len(),
            underway(start, *disk, so_far, i as int, n, step),
        decreases table.schema.columns.len() - i,
    {
        let ghost now = *disk;
        let mut values: Vec<Value> = Vec::new();
        let mut j: usize = from;
        while j < to
            invariant
                from <= j <= to,
                values@.len() == j - from,
                forall|k: int|
                    0 <= k < j - from ==> (#[trigger] values@[k])@ == all[from + k][i as int],
            decreases to - j,
        {
            assert(records@[j as int]@.len() == table@.schema.len());
            values.push(records[j].values[i].clone());
            j = j + 1;
        }
        assert(values_view(values@) =~= column_slice(all, from as int, to as int, i as int));
        match write_values(disk, table, group, i, &values, &bits) {
            Err(e) => {
                proof {
                    lemma_underway_fail(start, now, *disk, so_far, i as int, n, step);
                }
                return Err(e);
            },
            Ok(_) => {},
        }
        proof {
            let effects = step(now@, i as int).1;
            lemma_underway_next(start, now, *disk, so_far, effects, i as int, n, step);
            so_far = so_far + effects;
        }
        i = i + 1;
    }
    proof {
        lemma_underway_end(start, *disk, so_far, n, step, i as int);
    }
    Ok(())
}

/// Load one chunk of a bulk load into a row group of its own.
fn load_chunk(
    disk: &mut Disk,
    table: &TableHandle,
    group: u32,
    records: &Vec<Record>,
    from: usize,
    to: usize,
    Ghost(start_group): Ghost<int>,
    Ghost(k): Ghost<int>,
) -> (r: Result<(), Error>)
    requires
        from <= to <= records@.len(),
        group == (start_group + k) as u32,
        from == k * table.row_group_size,
        to == chunk_end(records@.len() as int, from as int, table.row_group_size as int),
        forall|j: int|
            0 <= j < records@.len() ==> (#[trigger] records@[j])@.len() == table@.schema.len(),
    ensures
        went(
            *old(disk),
            *final(disk),
            r,
            chunk_step(table@, start_group, records_view(records@))(old(disk)@, k),
        ),
{
    let ghost start = *disk;
    let ghost opened = if group > 0 {
        materialize_effects(table@.dir, group, table@.schema, table.row_group_size)
    } else {
        Seq::<EffectV>::empty()
    };
    proof {
        lemma_no_effect(start);
    }
    // Group 0 exists from the start; later groups open here.
    if group > 0 {
        materialize_row_group(
            disk,
            table.dir.as_str(),
            group,
            &table.schema.columns,
            table.row_group_size,
        );
    }
    let ghost ready = *disk;
    let r = load_chunk_columns(disk, table, group, records, from, to);
    proof {
        let rest = chunk_columns(
            ready@,
            table@,
            group,
            records_view(records@),
            from as int,
            to as int,
        );
        lemma_performed(start, ready, *disk, opened, rest.1);
    }
    r
}

/// Append records to a table, writing each column file once per row group
/// rather than once per row.
///
/// The load starts from the table's current `next_rid`, which must sit on a
/// row-group boundary, so a large load can be streamed as a sequence of
/// row-group-sized calls. It is a bulk loader, not a general write path: it
/// ignores deletes and is not atomic across groups.
#[verifier::loop_isolation(false)]
pub fn bulk_load_records(
    catalog: &Catalog,
    disk: &mut Disk,
    table: &TableHandle,
    records: &Vec<Record>,
) -> (r: Result<(), Error>)
    requires
        table.row_group_size > 0,
        catalog@.described(old(disk)@, table@.name) matches Ok(d) ==> d.next_rid + records@.len()
            <= u32::MAX * table.row_group_size,
    ensures
        ({
            let store = StoreV { catalog: catalog@, disk: old(disk)@, log: old(disk).log_view() };
            went(*old(disk), *final(disk), r, bulk_steps(store, table@, records_view(records@)))
        }),
{
    let ghost start = *disk;
    let ghost all = records_view(records@);
    proof {
        lemma_no_effect(start);
    }
    let ghost rule = bulk_record_error(table@.schema, all);
    let mut i: usize = 0;
    while i < records.len()
        invariant
            i <= records@.len(),
            first_failure(0, all.len() as int, rule) == first_failure(
                i as int,
                all.len() as int,
                rule,
            ),
            forall|j: int| 0 <= j < i ==> (#[trigger] records@[j])@.len() == table@.schema.len(),
        decreases records.len() - i,
    {
        assert(all[i as int] == records@[i as int]@);
        match validate_record(&table.schema, &records[i]) {
            Err(e) => {
                return Err(e);
            },
            Ok(_) => {},
        }
        i = i + 1;
    }
    let start_rid: u64 = match catalog.describe_table(disk, table.name.as_str()) {
        Err(e) => {
            return Err(e);
        },
        Ok(d) => d.next_rid,
    };
    let rgs: u64 = table.row_group_size as u64;
    if start_rid % rgs != 0 {
        let shown = u64_text(start_rid);
        let message = join2(
            "bulk_load must start on a row-group boundary, but next_rid is ",
            shown.as_str(),
        );
        return Err(Error::other(message.as_str()));
    }
    let start_group: u32 = (start_rid / rgs) as u32;
    let size: usize = table.row_group_size as usize;
    let ghost step = chunk_step(table@, start_group as int, all);
    let ghost n = chunk_count(all.len() as int, size as int);
    let ghost mut so_far = Seq::<EffectV>::empty();
    proof {
        lemma_underway_start(start, n, step);
        lemma_chunk_bounds(start_rid as int, all.len() as int, size as int);
    }
    let mut k: u32 = 0;
    let mut from: usize = 0;
    while from < records.len()
        invariant
            0 <= k <= n,
            from == min_of(k * size, all.len() as int),
            from < all.len() ==> from == k * size,
            from < all.len() ==> k < n,
            from >= all.len() ==> k >= n,
            underway(start, *disk, so_far, k as int, n, step),
        decreases records.len() - from,
    {
        let ghost now = *disk;
        let to: usize = if records.len() - from > size {
            from + size
        } else {
            records.len()
        };
        match load_chunk(
            disk,
            table,
            start_group + k,
            records,
            from,
            to,
            Ghost(start_group as int),
            Ghost(k as int),
        ) {
            Err(e) => {
                proof {
                    lemma_underway_fail(start, now, *disk, so_far, k as int, n, step);
                }
                return Err(e);
            },
            Ok(_) => {},
        }
        proof {
            let effects = step(now@, k as int).1;
            lemma_underway_next(start, now, *disk, so_far, effects, k as int, n, step);
            so_far = so_far + effects;
            lemma_next_chunk(all.len() as int, size as int, k as int);
        }
        from = to;
        k = k + 1;
    }
    proof {
        lemma_underway_end(start, *disk, so_far, n, step, k as int);
    }
    let ghost loaded_disk = *disk;
    let r = commit(catalog, disk, table.name.as_str(), start_rid + records.len() as u64);
    proof {
        let last = commit_steps(
            catalog@,
            loaded_disk@,
            table@.name,
            (start_rid + records@.len()) as u64,
        );
        lemma_performed(start, loaded_disk, *disk, so_far, last.1);
    }
    r
}

/// The row groups of a bulk load fit the range of group numbers.
proof fn lemma_chunk_bounds(start_rid: int, len: int, size: int)
    requires
        0 < size <= u32::MAX,
        0 <= start_rid,
        0 <= len,
        start_rid % size == 0,
        start_rid + len <= u32::MAX * size,
    ensures
        start_rid / size + chunk_count(len, size) <= u32::MAX,
        0 <= chunk_count(len, size),
        len == 0 ==> chunk_count(len, size) == 0,
        len > 0 ==> chunk_count(len, size) > 0,
        start_rid / size <= u32::MAX,
        start_rid + len <= u64::MAX,
{
    let n = chunk_count(len, size);
    let g = start_rid / size;
    assert(u32::MAX * size <= u64::MAX) by (nonlinear_arith)
        requires
            0 < size <= u32::MAX,
    ;
    assert(start_rid == g * size) by (nonlinear_arith)
        requires
            start_rid % size == 0,
            g == start_rid / size,
            size > 0,
    ;
    assert(n * size <= len + size - 1) by (nonlinear_arith)
        requires
            n == (len + size - 1) / size,
            size > 0,
            len >= 0,
    ;
    assert((g + n) * size < (u32::MAX + 1) * size) by (nonlinear_arith)
        requires
            g * size + len <= u32::MAX * size,
            n * size <= len + size - 1,
            size > 0,
    ;
    assert(g + n < u32::MAX + 1) by (nonlinear_arith)
        requires
            (g + n) * size < (u32::MAX + 1) * size,
            size > 0,
    ;
    assert(n >= 0) by (nonlinear_arith)
        requires
            n == (len + size - 1) / size,
            size > 0,
            len >= 0,
    ;
    if len == 0 {
        assert((size - 1) / size == 0) by (nonlinear_arith)
            requires
                size > 0,
        ;
    } else {
        assert(n > 0) by (nonlinear_arith)
            requires
                n == (len + size - 1) / size,
                size > 0,
                len >= 1,
        ;
    }
}

/// Where the chunk behind chunk `k` starts, and whether there is one.
proof fn lemma_next_chunk(len: int, size: int, k: int)
    requires
        0 < size,
        0 <= k < chunk_count(len, size),
        k * size < len,
    ensures
        chunk_end(len, k * size, size) == min_of((k + 1) * size, len),
        (k + 1) * size < len ==> k + 1 < chunk_count(len, size),
        (k + 1) * size >= len ==> k + 1 >= chunk_count(len, size),
{
    let n = chunk_count(len, size);
    assert((k + 1) * size == k * size + size) by (nonlinear_arith);
    assert(n * size <= len + size - 1 && len + size - 1 < (n + 1) * size) by (nonlinear_arith)
        requires
            n == (len + size - 1) / size,
            size > 0,
    ;
    assert((n + 1) * size == n * size + size) by (nonlinear_arith);
    if (k + 1) * size < len {
        if k + 1 >= n {
            assert((k + 1) * size >= n * size) by (nonlinear_arith)
                requires
                    k + 1 >= n,
                    size > 0,
            ;
            assert(false);
        }
    } else {
        if k + 1 < n {
            assert((k + 1) * size <= (n - 1) * size) by (nonlinear_arith)
                requires
                    k + 1 <= n - 1,
                    size > 0,
            ;
            assert((n - 1) * size == n * size - size) by (nonlinear_arith);
            assert(false);
        }
    }
}

// ---- the store ----

/// A database: the index of its tables and the image of its files.
#[derive(Debug)]
pub struct ColumnStore {
    catalog: Catalog,
    disk: Disk,
}

/// Why a directory with this status cannot be opened, if so.
pub open spec fn open_error(db_root: Seq<char>, status: StatusV) -> Option<ErrorV> {
    match status {
        StatusV::Ready { .. } => None,
        StatusV::Missing => Some(
            ErrorV::Other(
                "'"@ + db_root + "' is not an initialized balik database — run `init` first"@,
            ),
        ),
        StatusV::Unreadable => Some(
            ErrorV::Corrupt("balik.meta at '"@ + db_root + "' is corrupt or unreadable"@),
        ),
        StatusV::WrongMagic => Some(
            ErrorV::Other("'"@ + db_root + "' is not a balik database"@),
        ),
        StatusV::TooNew { found, supported } => Some(
            ErrorV::Corrupt(
                "database at '"@ + db_root + "' uses format version "@ + decimal(found as int)
                    + ", this binary supports "@ + decimal(supported as int),
            ),
        ),
    }
}

/// What opening a store gives: the status of the directory is checked, the
/// index loaded, and every table recovered.
pub open spec fn opened_store(
    db_root: Seq<char>,
    status: StatusV,
    disk: DiskV,
    log: Seq<EffectV>,
) -> Result<StoreV, ErrorV> {
    match open_error(db_root, status) {
        Some(e) => Err(e),
        None => match loaded(db_root, disk.catalog) {
            Err(e) => Err(e),
            Ok(catalog) => {
                let steps = recover_steps(catalog, disk);
                match steps.0 {
                    Some(e) => Err(e),
                    None => Ok(StoreV { catalog, disk, log }.after(steps.1)),
                }
            },
        },
    }
}

impl ColumnStore {
    /// Open the database whose files are in `disk`. `status` is what the marker
    /// file of the directory says.
    pub fn open(db_root: &str, status: &Status, disk: Disk) -> (r: Result<Self, Error>)
        requires
            sized(disk@),
        ensures
            match r {
                Ok(s) => opened_store(db_root@, status@, disk@, disk.log_view()) == Ok::<_, ErrorV>(
                    s.store(),
                ),
                Err(e) => opened_store(db_root@, status@, disk@, disk.log_view()) == Err::<
                    StoreV,
                    ErrorV,
                >(e@),
            },
    {
        match status {
            Status::Ready { .. } => {},
            Status::Missing => {
                let message = join3(
                    "'",
                    db_root,
                    "' is not an initialized balik database — run `init` first",
                );
                return Err(Error::other(message.as_str()));
            },
            Status::Unreadable => {
                let message = join3("balik.meta at '", db_root, "' is corrupt or unreadable");
                return Err(Error::corrupt(message.as_str()));
            },
            Status::WrongMagic => {
                let message = join3("'", db_root, "' is not a balik database");
                return Err(Error::other(message.as_str()));
            },
            Status::TooNew { found, supported } => {
                let have = u32_text(*found);
                let want = u32_text(*supported);
                let mut message = join5(
                    "database at '",
                    db_root,
                    "' uses format version ",
                    have.as_str(),
                    ", this binary supports ",
                );
                message.append(want.as_str());
                return Err(Error::corrupt(message.as_str()));
            },
        }
        let catalog = match Catalog::load(db_root, disk.catalog()) {
            Err(e) => {
                return Err(e);
            },
            Ok(catalog) => catalog,
        };
        let mut disk = disk;
        match recover(&catalog, &mut disk) {
            Err(e) => Err(e),
            Ok(_) => Ok(ColumnStore { catalog, disk }),
        }
    }

    /// The identifier that the next new table gets.
    pub fn next_table_id(&self) -> (r: u64)
        ensures
            r == self.store().catalog.next_table_id,
    {
        self.catalog.next_table_id()
    }

    /// Take the effects on the files that were not carried out yet.
    pub fn take_log(&mut self) -> (r: Vec<crate::disk::Effect>)
        ensures
            crate::disk::effects_view(r@) == old(self).store().log,
            final(self).store() == (StoreV { log: Seq::empty(), ..old(self).store() }),
    {
        self.disk.take_log()
    }

    /// Append records to a table, writing each column file once per row group.
    /// See [`bulk_load_records`].
    pub fn bulk_load(&mut self, table: &TableHandle, records: &Vec<Record>) -> (r: Result<
        (),
        Error,
    >)
        requires
            table.row_group_size > 0,
            old(self).store().described(table@.name) matches Ok(d) ==> d.next_rid + records@.len()
                <= u32::MAX * table.row_group_size,
        ensures
            ({
                let before = old(self).store();
                let steps = bulk_steps(before, table@, records_view(records@));
                &&& final(self).store() == before.after(steps.1)
                &&& checked(r) == steps.0
            }),
    {
        bulk_load_records(&self.catalog, &mut self.disk, table, records)
    }
}

/// The predicates that the zone maps can serve.
#[verifier::loop_isolation(false)]
fn keep_usable(schema: &Schema, prune: &Vec<ScanPredicate>) -> (r: Vec<ScanPredicate>)
    ensures
        predicates_view(r@) == usable_predicates(schema@, predicates_view(prune@)),
{
    let ghost all = predicates_view(prune@);
    let mut r: Vec<ScanPredicate> = Vec::new();
    let mut i: usize = 0;
    assert(all.take(0) =~= Seq::<ScanPredicateV>::empty());
    assert(predicates_view(r@) =~= Seq::<ScanPredicateV>::empty());
    while i < prune.len()
        invariant
            i <= prune@.len(),
            predicates_view(r@) == usable_predicates(schema@, all.take(i as int)),
        decreases prune.len() - i,
    {
        assert(all.take(i + 1).drop_last() =~= all.take(i as int));
        assert(all.take(i + 1).last() == prune@[i as int]@);
        let mut usable = false;
        let mut c: usize = 0;
        while c < schema.columns.len()
            invariant
                c <= schema.columns@.len(),
                usable == exists|k: int|
                    0 <= k < c && (#[trigger] schema@[k]).name == prune@[i as int].column@
                        && schema@[k].ty == ColumnType::Int,
            decreases schema.columns.len() - c,
        {
            assert(schema@[c as int] == schema.columns@[c as int]@);
            if schema.columns[c].ty == ColumnType::Int && same(
                schema.columns[c].name.as_str(),
                prune[i].column.as_str(),
            ) {
                usable = true;
            }
            c = c + 1;
        }
        if usable {
            let ghost before = r@;
            r.push(prune[i].clone());
            assert(predicates_view(r@) =~= predicates_view(before).push(prune@[i as int]@));
        }
        i = i + 1;
    }
    assert(all.take(i as int) =~= all);
    r
}

/// Whether a schema has a column of this name.
fn knows_column(schema: &Schema, name: &str) -> (r: bool)
    ensures
        r == has_column(schema@, name@),
{
    let mut c: usize = 0;
    while c < schema.columns.len()
        invariant
            c <= schema.columns@.len(),
            forall|k: int| 0 <= k < c ==> (#[trigger] schema@[k]).name != name@,
        decreases schema.columns.len() - c,
    {
        assert(schema@[c as int] == schema.columns@[c as int]@);
        if same(schema.columns[c].name.as_str(), name) {
            return true;
        }
        c = c + 1;
    }
    false
}

/// The columns that a scan decodes, in the requested order; all of them, in
/// schema order, when none are requested.
#[verifier::loop_isolation(false)]
fn resolve_projection(table: &TableHandle, projection: Option<&Vec<String>>) -> (r: Result<
    Vec<String>,
    Error,
>)
    ensures
        match projection_view(projection) {
            None => r matches Ok(names) && texts(names@) == column_names(table@.schema),
            Some(wanted) => match r {
                Ok(names) => {
                    &&& first_failure(
                        0,
                        wanted.len() as int,
                        projection_error(table@, wanted),
                    ) is None
                    &&& texts(names@) == wanted
                },
                Err(e) => first_failure(0, wanted.len() as int, projection_error(table@, wanted))
                    == Some(e@),
            },
        },
{
    match projection {
        None => {
            let mut names: Vec<String> = Vec::new();
            let mut c: usize = 0;
            while c < table.schema.columns.len()
                invariant
                    c <= table.schema.columns@.len(),
                    names@.len() == c,
                    forall|k: int| 0 <= k < c ==> (#[trigger] names@[k])@ == table@.schema[k].name,
                decreases table.schema.columns.len() - c,
            {
                names.push(table.schema.columns[c].name.clone());
                c = c + 1;
            }
            assert(texts(names@) =~= column_names(table@.schema));
            Ok(names)
        },
        Some(wanted) => {
            let ghost rule = projection_error(table@, texts(wanted@));
            let ghost n = wanted@.len() as int;
            let mut i: usize = 0;
            while i < wanted.len()
                invariant
                    i <= wanted@.len(),
                    first_failure(0, n, rule) == first_failure(i as int, n, rule),
                decreases wanted.len() - i,
            {
                assert(texts(wanted@)[i as int] == wanted@[i as int]@);
                if !knows_column(&table.schema, wanted[i].as_str()) {
                    let message = join5(
                        "scan projection references unknown column '",
                        wanted[i].as_str(),
                        "' in table '",
                        table.name.as_str(),
                        "'",
                    );
                    return Err(Error::other(message.as_str()));
                }
                i = i + 1;
            }
            Ok(clone_texts(wanted))
        },
    }
}

impl Storage for ColumnStore {
    closed spec fn store(&self) -> StoreV {
        StoreV { catalog: self.catalog@, disk: self.disk@, log: self.disk.log_view() }
    }

    fn create_table(&mut self, name: &str, schema: Schema, options: TableOptions) -> (r: Result<
        TableId,
        Error,
    >) {
        let ghost before = self.store();
        let ghost start = self.disk;
        let row_group_size: u32 = match options.row_group_size {
            Some(n) => n,
            None => DEFAULT_ROW_GROUP_SIZE,
        };
        let dir = self.catalog.next_dir();
        let id = match self.catalog.create_table(&mut self.disk, name, &schema, options) {
            Err(e) => {
                return Err(e);
            },
            Ok(id) => id,
        };
        let ghost created = self.disk;
        materialize_row_group(&mut self.disk, dir.as_str(), 0, &schema.columns, row_group_size);
        proof {
            let first = before.catalog.create_effects(name@, schema@, options);
            let second = materialize_effects(dir@, 0, schema@, row_group_size);
            lemma_performed(start, created, self.disk, first, second);
        }
        Ok(id)
    }

    fn open_table(&self, name: &str) -> (r: Result<TableHandle, Error>) {
        match self.catalog.open_table(&self.disk, name) {
            Err(e) => Err(e),
            Ok(d) => Ok(handle_of(d)),
        }
    }

    fn list_tables(&self) -> (r: Result<Vec<String>, Error>) {
        Ok(self.catalog.list_tables())
    }

    fn describe_table(&self, name: &str) -> (r: Result<TableDescriptor, Error>) {
        self.catalog.describe_table(&self.disk, name)
    }

    fn drop_table(&mut self, name: &str) -> (r: Result<(), Error>) {
        let ghost before = self.store();
        let r = self.catalog.drop_table(&mut self.disk, name);
        proof {
            if r is Err {
                assert(before.log + Seq::<EffectV>::empty() =~= before.log);
            }
        }
        r
    }

    fn insert(&mut self, table: &TableHandle, record: Record) -> (r: Result<Rid, Error>) {
        insert_record(&self.catalog, &mut self.disk, table, &record)
    }

    fn get(&self, table: &TableHandle, rid: Rid) -> (r: Result<Option<Record>, Error>) {
        get_record(&self.disk, table, rid)
    }

    fn update(&mut self, table: &TableHandle, rid: Rid, record: Record) -> (r: Result<Rid, Error>) {
        update_record(&self.catalog, &mut self.disk, table, rid, &record)
    }

    fn delete(&mut self, table: &TableHandle, rid: Rid) -> (r: Result<(), Error>) {
        delete_record(&self.catalog, &mut self.disk, table, rid)
    }

    fn scan<'a>(&'a self, table: &TableHandle) -> (r: Result<RowScan<'a>, Error>) {
        match self.catalog.describe_table(&self.disk, table.name.as_str()) {
            Err(e) => Err(e),
            Ok(d) => {
                let schema = table.schema.clone();
                Ok(
                    RowScan::new(
                        &self.disk,
                        table.dir.clone(),
                        schema.columns,
                        table.row_group_size,
                        d.next_rid,
                    ),
                )
            },
        }
    }

    fn scan_batches<'a>(
        &'a self,
        table: &TableHandle,
        projection: Option<&Vec<String>>,
        prune: &Vec<ScanPredicate>,
    ) -> (r: Result<BatchScan<'a>, Error>) {
        let projected = match resolve_projection(table, projection) {
            Err(e) => {
                return Err(e);
            },
            Ok(names) => names,
        };
        // Only predicates on INT columns have zone-map stats behind them.
        let usable = keep_usable(&table.schema, prune);
        match self.catalog.describe_table(&self.disk, table.name.as_str()) {
            Err(e) => Err(e),
            Ok(d) => Ok(
                BatchScan::new(
                    &self.disk,
                    table.dir.clone(),
                    projected,
                    usable,
                    table.row_group_size,
                    d.next_rid,
                ),
            ),
        }
    }
}

} // verus!
