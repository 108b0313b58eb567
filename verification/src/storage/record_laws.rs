//! What reading gives back of writing, record by record, and which records a
//! table takes.

use vstd::prelude::*;

use crate::catalog::files::ManifestImageV;
use crate::catalog::metadata::StatusV;
use crate::catalog::schema::{ColumnType, ColumnV};
use crate::catalog::tables::DescriptorV;
use crate::disk::{DiskV, EffectV};
use crate::error::ErrorV;
use crate::steps::lemma_no_failure;
use crate::storage::column_store::{open_error, opened_store};
use crate::storage::model::{
    can_match, delete_steps, get_of, group_of, insert_steps, next_rid, offset_of,
    record_error, row_items, row_scan_of, update_steps, value_error, HandleV, StoreV,
};
use crate::storage::scan_laws::{law_row_scan, live_rows};
use crate::storage::table_laws::{
    law_delete, law_delete_of_no_record, law_get, law_insert, law_update,
};
use crate::storage::table_model::{can_take, represents, TableV};
use crate::storage::{ScanCompare, ValueV};
use crate::text::decimal;

verus! {

// ---- which records fit ----

/// A record fits a table exactly where it has one value for each column, in
/// order: an integer where the column is INT, a text where it is TEXT, and NULL
/// only where the column takes it.
pub proof fn law_records_that_fit(schema: Seq<ColumnV>, record: Seq<ValueV>)
    ensures
        record_error(schema, record) is None <==> record.len() == schema.len() && forall|i: int|
            0 <= i < schema.len() ==> match #[trigger] record[i] {
                ValueV::Null => schema[i].nullable,
                ValueV::Int(_) => schema[i].ty == ColumnType::Int,
                ValueV::Text(_) => schema[i].ty == ColumnType::Text,
            },
{
    let rule = value_error(schema, record);
    lemma_no_failure(0, schema.len() as int, rule);
    if record.len() == schema.len() && record_error(schema, record) is None {
        assert forall|i: int| 0 <= i < schema.len() implies match #[trigger] record[i] {
            ValueV::Null => schema[i].nullable,
            ValueV::Int(_) => schema[i].ty == ColumnType::Int,
            ValueV::Text(_) => schema[i].ty == ColumnType::Text,
        } by {
            assert(rule(i) is None);
        }
    }
    if record.len() == schema.len() && forall|i: int|
        0 <= i < schema.len() ==> match #[trigger] record[i] {
            ValueV::Null => schema[i].nullable,
            ValueV::Int(_) => schema[i].ty == ColumnType::Int,
            ValueV::Text(_) => schema[i].ty == ColumnType::Text,
        } {
        assert forall|i: int| 0 <= i < schema.len() implies #[trigger] rule(i) is None by {
            let v = record[i];
        }
    }
}

/// What is said of a value that does not fit: that the column is NOT NULL, or
/// which type it has.
pub proof fn law_misfit_messages(schema: Seq<ColumnV>, record: Seq<ValueV>, i: int)
    requires
        0 <= i < schema.len(),
    ensures
        record[i] is Null && !schema[i].nullable ==> value_error(schema, record)(i) == Some(
            ErrorV::InvalidValue(
                "column '"@ + schema[i].name + "' is NOT NULL but received NULL"@,
            ),
        ),
        record[i] is Text && schema[i].ty == ColumnType::Int ==> value_error(schema, record)(i)
            == Some(
            ErrorV::InvalidValue(
                "value for column '"@ + schema[i].name + "' does not match type "@ + "INT"@,
            ),
        ),
        record[i] is Int && schema[i].ty == ColumnType::Text ==> value_error(schema, record)(i)
            == Some(
            ErrorV::InvalidValue(
                "value for column '"@ + schema[i].name + "' does not match type "@ + "TEXT"@,
            ),
        ),
{
}

// ---- reading what was written ----

/// A record that was inserted is read back under the identifier that it was
/// given, which was free before; every other identifier reads as before.
pub proof fn law_insert_then_get(
    store: StoreV,
    h: HandleV,
    t: TableV,
    row: Seq<ValueV>,
    other: u64,
)
    requires
        represents(store, h, t),
        can_take(t, row),
        other < (u32::MAX + 1) * t.row_group_size,
        other != next_rid(store, h),
    ensures
        ({
            let steps = insert_steps(store, h, row);
            let after = store.after(steps.1);
            let rid = next_rid(store, h);
            &&& steps.0 is None
            &&& get_of(store.disk, h, rid) == Ok::<Option<Seq<ValueV>>, ErrorV>(None)
            &&& get_of(after.disk, h, rid) == Ok::<Option<Seq<ValueV>>, ErrorV>(Some(row))
            &&& get_of(after.disk, h, other) == get_of(store.disk, h, other)
            &&& next_rid(after, h) == rid + 1
        }),
{
    let after = store.after(insert_steps(store, h, row).1);
    let rid = next_rid(store, h);
    let t2 = t.insert(row);
    law_insert(store, h, t, row);
    assert(rid < (u32::MAX + 1) * t.row_group_size) by (nonlinear_arith)
        requires
            rid < u32::MAX * t.row_group_size,
            t.row_group_size >= 0,
    ;
    law_get(store, h, t, rid);
    law_get(after, h, t2, rid);
    law_get(store, h, t, other);
    law_get(after, h, t2, other);
    if (other as int) < t.rows.len() {
        assert(t2.rows[other as int] == t.rows[other as int]);
        assert(t2.deleted[other as int] == t.deleted[other as int]);
    }
}

/// A record that was deleted is not read any more, and cannot be deleted again;
/// every other identifier reads as before. No identifier becomes free by it.
pub proof fn law_delete_then_get(
    store: StoreV,
    h: HandleV,
    t: TableV,
    rid: u64,
    other: u64,
)
    requires
        represents(store, h, t),
        rid < (u32::MAX + 1) * t.row_group_size,
        get_of(store.disk, h, rid) matches Ok(Some(row)),
        other < (u32::MAX + 1) * t.row_group_size,
        other != rid,
    ensures
        ({
            let steps = delete_steps(store, h, rid);
            let after = store.after(steps.1);
            &&& steps.0 is None
            &&& get_of(after.disk, h, rid) == Ok::<Option<Seq<ValueV>>, ErrorV>(None)
            &&& get_of(after.disk, h, other) == get_of(store.disk, h, other)
            &&& next_rid(after, h) == next_rid(store, h)
            &&& delete_steps(after, h, rid).0 is Some
        }),
{
    law_get(store, h, t, rid);
    law_get(store, h, t, other);
    law_delete(store, h, t, rid);
    let after = store.after(delete_steps(store, h, rid).1);
    let t2 = t.delete(rid as int);
    law_get(after, h, t2, rid);
    law_get(after, h, t2, other);
    law_delete_of_no_record(after, h, t2, rid);
}

/// Deleting where there is no record fails, says so, and changes nothing.
pub proof fn law_delete_needs_a_record(store: StoreV, h: HandleV, t: TableV, rid: u64)
    requires
        represents(store, h, t),
        rid < (u32::MAX + 1) * t.row_group_size,
        get_of(store.disk, h, rid) == Ok::<Option<Seq<ValueV>>, ErrorV>(None),
    ensures
        delete_steps(store, h, rid).0 == Some(
            ErrorV::InvalidValue(
                "no such record: rid "@ + decimal(rid as int) + " in table '"@ + h.name + "'"@,
            ),
        ),
        delete_steps(store, h, rid).1.len() == 0,
{
    law_get(store, h, t, rid);
    law_delete_of_no_record(store, h, t, rid);
}

/// A record that was updated is not read under its old identifier any more, but
/// as its new version under the next one; every other identifier reads as
/// before.
pub proof fn law_update_then_get(
    store: StoreV,
    h: HandleV,
    t: TableV,
    rid: u64,
    row: Seq<ValueV>,
    other: u64,
)
    requires
        represents(store, h, t),
        rid < (u32::MAX + 1) * t.row_group_size,
        get_of(store.disk, h, rid) matches Ok(Some(old_row)),
        can_take(t, row),
        other < (u32::MAX + 1) * t.row_group_size,
        other != rid,
        other != next_rid(store, h),
    ensures
        ({
            let steps = update_steps(store, h, rid, row);
            let after = store.after(steps.1);
            let new = next_rid(store, h);
            &&& steps.0 is None
            &&& new != rid
            &&& get_of(after.disk, h, rid) == Ok::<Option<Seq<ValueV>>, ErrorV>(None)
            &&& get_of(after.disk, h, new) == Ok::<Option<Seq<ValueV>>, ErrorV>(Some(row))
            &&& get_of(after.disk, h, other) == get_of(store.disk, h, other)
        }),
{
    law_get(store, h, t, rid);
    law_get(store, h, t, other);
    law_update(store, h, t, rid, row);
    let after = store.after(update_steps(store, h, rid, row).1);
    let t2 = t.delete(rid as int).insert(row);
    let new = next_rid(store, h);
    assert(new < (u32::MAX + 1) * t.row_group_size) by (nonlinear_arith)
        requires
            new < u32::MAX * t.row_group_size,
            t.row_group_size >= 0,
    ;
    law_get(after, h, t2, rid);
    law_get(after, h, t2, new);
    law_get(after, h, t2, other);
    if (other as int) < t.rows.len() {
        assert(t2.rows[other as int] == t.rows[other as int]);
        assert(t2.deleted[other as int] == t.deleted[other as int]);
    }
}

/// The live rows from `from` on, and their identifiers.
proof fn lemma_live_rows(t: TableV, from: int)
    requires
        0 <= from <= t.rows.len() <= u64::MAX,
    ensures
        ({
            let items = live_rows(t, from);
            &&& forall|i: int|
                0 <= i < items.len() ==> (#[trigger] items[i]) is Ok && from <= items[i]->Ok_0.0
                    && t.live(items[i]->Ok_0.0 as int) && items[i]->Ok_0.1
                    == t.rows[items[i]->Ok_0.0 as int]
            &&& forall|i: int, j: int|
                0 <= i < j < items.len() ==> (#[trigger] items[i])->Ok_0.0 < (
                #[trigger] items[j])->Ok_0.0
            &&& forall|r: int|
                from <= r < t.rows.len() && #[trigger] t.live(r) ==> items.contains(
                    Ok::<(u64, Seq<ValueV>), ErrorV>((r as u64, t.rows[r])),
                )
        }),
    decreases t.rows.len() - from,
{
    if from < t.rows.len() {
        lemma_live_rows(t, from + 1);
        let rest = live_rows(t, from + 1);
        let items = live_rows(t, from);
        if t.live(from) {
            let first = Ok::<(u64, Seq<ValueV>), ErrorV>((from as u64, t.rows[from]));
            assert(items == seq![first] + rest);
            assert forall|i: int| 0 <= i < items.len() implies (#[trigger] items[i]) is Ok && from
                <= items[i]->Ok_0.0 && t.live(items[i]->Ok_0.0 as int) && items[i]->Ok_0.1
                == t.rows[items[i]->Ok_0.0 as int] by {
                if i > 0 {
                    assert(rest[i - 1] == items[i]);
                }
            }
            assert forall|i: int, j: int| 0 <= i < j < items.len() implies (
            #[trigger] items[i])->Ok_0.0 < (#[trigger] items[j])->Ok_0.0 by {
                assert(rest[j - 1] == items[j]);
                if i > 0 {
                    assert(rest[i - 1] == items[i]);
                }
            }
            assert forall|r: int|
                from <= r < t.rows.len() && #[trigger] t.live(r) implies items.contains(
                Ok::<(u64, Seq<ValueV>), ErrorV>((r as u64, t.rows[r])),
            ) by {
                if r == from {
                    assert(items[0] == first);
                } else {
                    let item = Ok::<(u64, Seq<ValueV>), ErrorV>((r as u64, t.rows[r]));
                    assert(rest.contains(item));
                    let k = rest.index_of(item);
                    assert(items[k + 1] == item);
                }
            }
        }
    }
}

/// A scan lists exactly the records that can be read, each with its identifier,
/// in the order of the identifiers.
pub proof fn law_scan_lists_what_can_be_read(store: StoreV, h: HandleV, t: TableV, rid: u64)
    requires
        represents(store, h, t),
        rid < (u32::MAX + 1) * t.row_group_size,
    ensures
        row_scan_of(store, h) is Ok,
        ({
            let items = row_items(row_scan_of(store, h)->Ok_0, 0);
            &&& forall|i: int, j: int|
                0 <= i < j < items.len() ==> (#[trigger] items[i])->Ok_0.0 < (
                #[trigger] items[j])->Ok_0.0
            &&& forall|i: int| 0 <= i < items.len() ==> (#[trigger] items[i]) is Ok
            &&& forall|row: Seq<ValueV>|
                #[trigger] items.contains(Ok::<(u64, Seq<ValueV>), ErrorV>((rid, row)))
                    <==> get_of(store.disk, h, rid) == Ok::<Option<Seq<ValueV>>, ErrorV>(Some(row))
        }),
{
    law_row_scan(store, h, t);
    law_get(store, h, t, rid);
    assert(t.rows.len() <= u64::MAX) by (nonlinear_arith)
        requires
            t.rows.len() <= u32::MAX * t.row_group_size,
    ;
    lemma_live_rows(t, 0);
    let items = live_rows(t, 0);
    assert forall|row: Seq<ValueV>|
        #[trigger] items.contains(Ok::<(u64, Seq<ValueV>), ErrorV>((rid, row))) implies get_of(
        store.disk,
        h,
        rid,
    ) == Ok::<Option<Seq<ValueV>>, ErrorV>(Some(row)) by {
        let item = Ok::<(u64, Seq<ValueV>), ErrorV>((rid, row));
        let k = items.index_of(item);
        assert(items[k] == item);
    }
    assert forall|row: Seq<ValueV>|
        get_of(store.disk, h, rid) == Ok::<Option<Seq<ValueV>>, ErrorV>(
            Some(row),
        ) implies #[trigger] items.contains(Ok::<(u64, Seq<ValueV>), ErrorV>((rid, row))) by {
        assert(t.live(rid as int));
    }
}

// ---- places ----

/// A record stands in the row group that its identifier, divided by the size of
/// row groups, gives, at the offset that is the remainder.
pub proof fn law_record_places(rid: u64, size: u32)
    requires
        size > 0,
        rid < (u32::MAX + 1) * size,
    ensures
        0 <= offset_of(rid, size) < size,
        group_of(rid, size) * size + offset_of(rid, size) == rid,
{
    let q = rid as int / size as int;
    assert(q <= u32::MAX && q >= 0 && q * size + rid as int % size as int == rid)
        by (nonlinear_arith)
        requires
            size > 0,
            0 <= rid < (u32::MAX + 1) * size,
            q == rid as int / size as int,
    ;
    let rest = (rid as int) % (size as int);
    assert(0 <= rest < size) by (nonlinear_arith)
        requires
            size > 0,
            rest == (rid as int) % (size as int),
    ;
}

// ---- pruning ----

/// Whether `x` lies between two bounds.
pub open spec fn lies_between(x: int, min: int, max: int) -> bool {
    min <= x && x <= max
}

/// A row group may be skipped exactly where no integer between its smallest and
/// its largest value can satisfy the comparison.
pub proof fn law_pruning_is_exact(op: ScanCompare, value: int, min: int, max: int)
    requires
        min <= max,
    ensures
        can_match(op, value, min, max) <==> exists|x: int|
            #[trigger]
            lies_between(x, min, max) && match op {
                ScanCompare::Eq => x - value == 0,
                ScanCompare::NotEq => x - value != 0,
                ScanCompare::Lt => x - value < 0,
                ScanCompare::LtEq => x - value <= 0,
                ScanCompare::Gt => x - value > 0,
                ScanCompare::GtEq => x - value >= 0,
            },
{
    assert(lies_between(min, min, max));
    assert(lies_between(max, min, max));
    if op == ScanCompare::Eq && can_match(op, value, min, max) {
        assert(lies_between(value, min, max));
    }
}

// ---- opening ----

/// A database is opened only where it is ready; otherwise the error says what is
/// wrong with it.
pub proof fn law_open_needs_a_ready_database(
    root: Seq<char>,
    status: StatusV,
    disk: DiskV,
    log: Seq<EffectV>,
)
    ensures
        open_error(root, status) is None <==> status is Ready,
        opened_store(root, status, disk, log) is Ok ==> status is Ready,
        status is Missing ==> opened_store(root, status, disk, log) == Err::<StoreV, ErrorV>(
            ErrorV::Other(
                "'"@ + root + "' is not an initialized balik database — run `init` first"@,
            ),
        ),
        status is WrongMagic ==> opened_store(root, status, disk, log) == Err::<StoreV, ErrorV>(
            ErrorV::Other("'"@ + root + "' is not a balik database"@),
        ),
        status is Unreadable || status is TooNew ==> (opened_store(
            root,
            status,
            disk,
            log,
        ) matches Err(e) && e is Corrupt),
{
}

/// Updating where there is no record fails, says so, and changes nothing.
pub proof fn law_update_needs_a_record(
    store: StoreV,
    h: HandleV,
    t: TableV,
    rid: u64,
    row: Seq<ValueV>,
)
    requires
        represents(store, h, t),
        rid < (u32::MAX + 1) * t.row_group_size,
        get_of(store.disk, h, rid) == Ok::<Option<Seq<ValueV>>, ErrorV>(None),
        record_error(t.schema, row) is None,
    ensures
        update_steps(store, h, rid, row).0 == Some(
            ErrorV::InvalidValue(
                "no such record: rid "@ + decimal(rid as int) + " in table '"@ + h.name + "'"@,
            ),
        ),
        update_steps(store, h, rid, row).1.len() == 0,
{
    law_delete_needs_a_record(store, h, t, rid);
}

/// A table is described by its manifest; one that is not listed is not found, and
/// a manifest that is missing or bad is an error.
pub proof fn law_descriptions(store: StoreV, name: Seq<char>)
    ensures
        store.catalog.dir_of(name) is Err ==> store.described(name) == Err::<DescriptorV, ErrorV>(
            ErrorV::TableNotFound(name),
        ) && store.opened(name) == Err::<HandleV, ErrorV>(ErrorV::TableNotFound(name)),
        store.catalog.dir_of(name) matches Ok(dir) ==> match store.disk.manifest(dir) {
            ManifestImageV::Loaded(m) => {
                &&& store.described(name) matches Ok(d) && d.id == m.table_id && d.name == m.name
                    && d.schema == m.schema() && d.row_group_size == m.row_group_size
                    && d.storage_track == m.storage_track && d.dir == dir && d.next_rid
                    == m.next_rid
                &&& store.opened(name) matches Ok(h) && h.id == m.table_id && h.name == m.name
                    && h.schema == m.schema() && h.row_group_size == m.row_group_size && h.dir
                    == dir
            },
            ManifestImageV::Invalid(m) => store.described(name) == Err::<DescriptorV, ErrorV>(
                ErrorV::InvalidSchema(m),
            ),
            _ => store.described(name) matches Err(e) && e is Io,
        },
{
}

/// What is said of a record with too many or too few values, and of a database
/// that cannot be read.
pub proof fn law_refusal_messages(
    schema: Seq<ColumnV>,
    record: Seq<ValueV>,
    root: Seq<char>,
    found: u32,
    supported: u32,
)
    ensures
        record.len() != schema.len() ==> record_error(schema, record) == Some(
            ErrorV::InvalidValue(
                "record has "@ + decimal(record.len() as int) + " value(s) but the table has "@
                    + decimal(schema.len() as int) + " column(s)"@,
            ),
        ),
        open_error(root, StatusV::Unreadable) == Some(
            ErrorV::Corrupt("balik.meta at '"@ + root + "' is corrupt or unreadable"@),
        ),
        open_error(root, StatusV::TooNew { found, supported }) == Some(
            ErrorV::Corrupt(
                "database at '"@ + root + "' uses format version "@ + decimal(found as int)
                    + ", this binary supports "@ + decimal(supported as int),
            ),
        ),
{
}

} // verus!
