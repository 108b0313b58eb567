//! What the storage operations mean for the tables that they work on.

use vstd::prelude::*;

use crate::bytes::{bit_set, bytes_for_bits, lemma_with_bit, lemma_zero_bits, with_bit, zero_bytes};
use crate::catalog::files::{ManifestImageV, ManifestV};
use crate::catalog::schema::{ColumnType, ColumnV};
use crate::disk::{lemma_after_all_concat, DiskV, EffectV};
use crate::error::ErrorV;
use crate::steps::lemma_no_failure;
use crate::storage::column_file::{
    blob, distinct, encoded_column, encoded_values, has_other_type, header_image, no_range,
    PHYSICAL_RAW,
};
use crate::storage::column_laws::{
    expected_header, law_column_round_trip, law_empty_file_is_the_column_of_no_values,
};
use crate::storage::delete_bitmap::{
    count_set, deleted_rows, file_image, law_mark_deleted, lemma_file_image_loads, FILE_NAME,
};
use crate::storage::model::{
    append_and_commit, append_step, bitmap_path, bitmap_write, col_file, column_at, column_path,
    column_write, commit_steps, delete_steps, deletes_at, done, failed, get_of, group_of,
    insert_steps, materialize_effects, next_rid, no_such_record, offset_of, record_error,
    restat_step, row_from, update_steps, value_error, HandleV, StoreV,
};
use crate::storage::model_lemmas::lemma_delete_keeps_descriptions;
use crate::storage::table_model::{
    bits_match, can_take, confined, dir_holds, group_holds, group_ok, holds, lemma_after_create,
    lemma_after_manifest, lemma_after_write, lemma_file_names, lemma_run_is_writes, lemma_writes,
    one_write, represents, writes_from, TableV,
};
use crate::storage::ValueV;

verus! {

// ---- arithmetic of row groups ----

/// Where a row number falls: its group and its offset in it.
pub proof fn lemma_place(rid: int, size: int)
    requires
        0 <= rid,
        0 < size,
    ensures
        rid == rid / size * size + rid % size,
        0 <= rid % size < size,
        0 <= rid / size,
{
    assert(rid == rid / size * size + rid % size && 0 <= rid % size < size && 0 <= rid / size)
        by (nonlinear_arith)
        requires
            0 <= rid,
            0 < size,
    ;
}

/// Groups behind one another start a whole group apart.
pub proof fn lemma_groups_apart(a: int, b: int, size: int)
    requires
        0 < size,
        a < b,
    ensures
        a * size + size <= b * size,
{
    assert(a * size + size <= b * size) by (nonlinear_arith)
        requires
            0 < size,
            a < b,
    ;
}

/// A row number below the limit has a group number below the limit.
pub proof fn lemma_group_bound(rid: int, size: int, limit: int)
    requires
        0 <= rid < limit * size,
        0 < size,
    ensures
        rid / size < limit,
{
    assert(rid / size < limit) by (nonlinear_arith)
        requires
            0 <= rid < limit * size,
            0 < size,
    ;
}

/// The group and the offset of a record, without the limits of machine words.
pub proof fn lemma_group_of(rid: u64, size: u32)
    requires
        0 < size,
        rid < (u32::MAX + 1) * size,
    ensures
        group_of(rid, size) == rid as int / size as int,
        offset_of(rid, size) == rid as int % size as int,
{
    lemma_group_bound(rid as int, size as int, u32::MAX + 1);
    lemma_place(rid as int, size as int);
}

// ---- reading a group that holds its rows ----

/// No more bits are set than there are rows.
pub proof fn lemma_count_bound(bits: Seq<u8>, n: int, limit: int)
    requires
        0 <= n,
        0 <= limit,
        forall|i: int| #[trigger] bit_set(bits, i) ==> i < limit,
    ensures
        0 <= count_set(bits, n) <= n,
        count_set(bits, n) <= limit,
    decreases n,
{
    if n > 0 {
        lemma_count_bound(bits, n - 1, limit);
        if bit_set(bits, n - 1) {
            assert(n - 1 < limit);
        }
    }
}

/// A bit that is clear below the limit leaves room in the count.
proof fn lemma_count_room(bits: Seq<u8>, n: int, limit: int, clear: int)
    requires
        0 <= n,
        0 <= clear < limit,
        !bit_set(bits, clear),
        forall|i: int| #[trigger] bit_set(bits, i) ==> i < limit,
    ensures
        count_set(bits, n) < limit,
    decreases n,
{
    if n > 0 {
        lemma_count_room(bits, n - 1, limit, clear);
        if bit_set(bits, n - 1) {
            assert(n - 1 < limit);
            lemma_count_below(bits, n - 1, clear);
            if n - 1 < clear {
                lemma_count_bound(bits, n, limit);
            }
        }
    }
}

/// Past a clear bit the count stays below the number of bits.
proof fn lemma_count_below(bits: Seq<u8>, n: int, clear: int)
    requires
        0 <= n,
        0 <= clear,
        !bit_set(bits, clear),
    ensures
        0 <= count_set(bits, n) <= n,
        clear < n ==> count_set(bits, n) < n,
    decreases n,
{
    if n > 0 {
        lemma_count_below(bits, n - 1, clear);
    }
}

/// What a group that holds its rows reads as: its bitmap and its columns.
pub proof fn lemma_group_reads(disk: DiskV, dir: Seq<char>, t: TableV, group: u32, bits: Seq<u8>)
    requires
        t.wf(),
        group_holds(disk, dir, t, group, bits),
    ensures
        deletes_at(disk, dir, group) matches Ok(loaded) && loaded.1 == bits,
        0 <= deleted_rows(bits) <= t.group_len(group as int),
        forall|c: int|
            0 <= c < t.schema.len() ==> column_at(
                disk,
                dir,
                group,
                (#[trigger] t.schema[c]).name,
            ) == Ok::<_, ErrorV>(
                (
                    expected_header(t.schema[c].ty, t.column(group as int, c), bits),
                    t.column(group as int, c),
                ),
            ),
{
    let n = t.group_len(group as int);
    lemma_count_bound(bits, 8 * bits.len() as int, n);
    lemma_file_image_loads(deleted_rows(bits), bits, bitmap_path(dir, group));
    assert forall|c: int| 0 <= c < t.schema.len() implies column_at(
        disk,
        dir,
        group,
        (#[trigger] t.schema[c]).name,
    ) == Ok::<_, ErrorV>(
        (
            expected_header(t.schema[c].ty, t.column(group as int, c), bits),
            t.column(group as int, c),
        ),
    ) by {
        law_column_round_trip(
            t.schema[c].ty,
            t.column(group as int, c),
            bits,
            column_path(dir, group, t.schema[c].name),
        );
    }
}

/// The values of a row, collected column by column.
proof fn lemma_row_from(
    disk: DiskV,
    h: HandleV,
    t: TableV,
    group: u32,
    bits: Seq<u8>,
    offset: int,
    i: int,
)
    requires
        t.wf(),
        h.schema == t.schema,
        group_holds(disk, h.dir, t, group, bits),
        0 <= offset < t.group_len(group as int),
        0 <= i <= t.schema.len(),
    ensures
        ({
            let row = t.rows[t.first(group as int) + offset];
            row_from(disk, h, group, offset, i, row.take(i)) == Ok::<_, ErrorV>(Some(row))
        }),
    decreases t.schema.len() - i,
{
    let rid = t.first(group as int) + offset;
    let row = t.rows[rid];
    lemma_row_shape(t, rid);
    if i < t.schema.len() {
        lemma_group_reads(disk, h.dir, t, group, bits);
        assert(t.column(group as int, i)[offset] == row[i]);
        assert(row.take(i).push(row[i]) =~= row.take(i + 1));
        lemma_row_from(disk, h, t, group, bits, offset, i + 1);
    } else {
        assert(row.take(i) =~= row);
    }
}

/// A row of a table has one value per column, each fitting it.
pub proof fn lemma_row_shape(t: TableV, rid: int)
    requires
        t.wf(),
        0 <= rid < t.rows.len(),
    ensures
        t.rows[rid].len() == t.schema.len(),
        forall|c: int|
            0 <= c < t.schema.len() ==> (#[trigger] value_error(t.schema, t.rows[rid])(
                c,
            )) is None,
{
    assert(record_error(t.schema, t.rows[rid]) is None);
    lemma_no_failure(0, t.schema.len() as int, value_error(t.schema, t.rows[rid]));
}

/// Reading a record gives the live row with that identifier, and nothing when
/// it was deleted or never inserted.
pub proof fn law_get(store: StoreV, h: HandleV, t: TableV, rid: u64)
    requires
        represents(store, h, t),
        rid < (u32::MAX + 1) * t.row_group_size,
    ensures
        get_of(store.disk, h, rid) == Ok::<_, ErrorV>(t.get(rid as int)),
{
    let size = t.row_group_size as int;
    lemma_group_of(rid, t.row_group_size);
    lemma_place(rid as int, size);
    let group = group_of(rid, t.row_group_size);
    let offset = offset_of(rid, t.row_group_size);
    assert(t.first(group as int) + offset == rid);
    assert(group_ok(store.disk, h.dir, t, group));
    if store.disk.has_group(h.dir, group) {
        assert(t.first(group as int) <= t.rows.len());
        assert(holds(store.disk, h.dir, t, group));
        let bits = choose|bits: Seq<u8>| group_holds(store.disk, h.dir, t, group, bits);
        lemma_group_reads(store.disk, h.dir, t, group, bits);
        if offset < t.group_len(group as int) {
            lemma_row_from(store.disk, h, t, group, bits, offset, 0);
            assert(t.rows[rid as int].take(0) =~= Seq::<ValueV>::empty());
        } else {
            assert(rid >= t.rows.len());
            assert(t.column(group as int, 0).len() == t.group_len(group as int));
            assert(t.schema[0] == t.schema[0]);
            assert(row_from(store.disk, h, group, offset, 0, Seq::empty()) == Ok::<
                Option<Seq<ValueV>>,
                ErrorV,
            >(None));
        }
    } else {
        assert(t.first(group as int) >= t.rows.len());
    }
}

// ---- encoding what fits ----

/// The distinct values take no more text than all values.
proof fn lemma_distinct_blob(values: Seq<ValueV>)
    ensures
        blob(distinct(values)).len() <= blob(values).len(),
    decreases values.len(),
{
    if values.len() > 0 {
        let before = distinct(values.drop_last());
        lemma_distinct_blob(values.drop_last());
        if values.last() is Text && !before.contains(values.last()) {
            assert(before.push(values.last()).drop_last() =~= before);
        }
    }
}

/// Values of the column's type whose TEXT is within 4 GiB can be encoded. More
/// TEXT can be too, where values repeat.
pub proof fn law_texts_within_the_limit_are_encoded(
    ty: ColumnType,
    values: Seq<ValueV>,
    bits: Seq<u8>,
)
    requires
        values.len() <= u32::MAX,
        !has_other_type(ty, values),
        ty == ColumnType::Text ==> blob(values).len() <= u32::MAX,
    ensures
        encoded_column(ty, values, bits) is Ok,
{
    lemma_distinct_blob(values);
}

/// Whether values can be encoded does not depend on which rows are deleted, and
/// for TEXT neither does the image.
pub proof fn lemma_encoding_ignores_deletes(
    ty: ColumnType,
    values: Seq<ValueV>,
    bits: Seq<u8>,
    other: Seq<u8>,
)
    ensures
        encoded_column(ty, values, bits) is Ok == encoded_column(ty, values, other) is Ok,
        ty == ColumnType::Text ==> encoded_column(ty, values, bits) == encoded_column(
            ty,
            values,
            other,
        ),
{
}

/// The values of a column are of its type.
pub proof fn lemma_column_types(t: TableV, group: int, c: int)
    requires
        t.wf(),
        0 <= group,
        0 <= c < t.schema.len(),
    ensures
        !has_other_type(t.schema[c].ty, t.column(group, c)),
        t.column(group, c).len() == t.group_len(group),
{
    let values = t.column(group, c);
    assert(t.first(group) >= 0) by (nonlinear_arith)
        requires
            t.first(group) == group * t.row_group_size,
            group >= 0,
            t.row_group_size >= 0,
    ;
    assert forall|i: int| 0 <= i < values.len() implies match t.schema[c].ty {
        ColumnType::Int => !(#[trigger] values[i] is Text),
        ColumnType::Text => !(values[i] is Int),
    } by {
        let rid = t.first(group) + i;
        lemma_row_shape(t, rid);
        assert(value_error(t.schema, t.rows[rid])(c) is None);
        assert(values[i] == t.rows[rid][c]);
    }
}

// ---- creating a group ----

/// The images of a new group's columns.
spec fn empty_images(schema: Seq<ColumnV>) -> Seq<Option<Seq<u8>>> {
    Seq::new(
        schema.len(),
        |c: int| Some(header_image(schema[c].ty, PHYSICAL_RAW, 0, 0, 0, no_range())),
    )
}

/// The write of a new group's column file.
spec fn empty_write(dir: Seq<char>, group: u32, column: ColumnV) -> EffectV {
    column_write(
        dir,
        group,
        column.name,
        header_image(column.ty, PHYSICAL_RAW, 0, 0, 0, no_range()),
    )
}

/// The column writes of a new group, as a run of writes.
proof fn lemma_empty_writes(dir: Seq<char>, group: u32, schema: Seq<ColumnV>, i: int)
    requires
        0 <= i <= schema.len(),
    ensures
        ({
            let writes = writes_from(dir, group, schema, empty_images(schema), i);
            &&& writes.len() == schema.len() - i
            &&& forall|k: int|
                0 <= k < writes.len() ==> #[trigger] writes[k] == empty_write(
                    dir,
                    group,
                    schema[i + k],
                )
        }),
    decreases schema.len() - i,
{
    if i < schema.len() {
        lemma_empty_writes(dir, group, schema, i + 1);
        let tail = writes_from(dir, group, schema, empty_images(schema), i + 1);
        let writes = writes_from(dir, group, schema, empty_images(schema), i);
        assert(writes =~= seq![empty_write(dir, group, schema[i])] + tail);
        assert forall|k: int| 0 <= k < writes.len() implies #[trigger] writes[k] == empty_write(
            dir,
            group,
            schema[i + k],
        ) by {
            if k > 0 {
                assert(writes[k] == tail[k - 1]);
                assert(i + 1 + (k - 1) == i + k);
            }
        }
    }
}

/// A group that was just created holds no rows, and nothing outside it changed.
pub proof fn lemma_materialized(disk: DiskV, dir: Seq<char>, t: TableV, group: u32)
    requires
        t.wf(),
        t.group_len(group as int) == 0,
    ensures
        ({
            let after = disk.after_all(
                materialize_effects(dir, group, t.schema, t.row_group_size),
            );
            let bits = zero_bytes(bytes_for_bits(t.row_group_size as int));
            &&& group_holds(after, dir, t, group, bits)
            &&& after.catalog == disk.catalog
            &&& forall|d: Seq<char>| #[trigger] after.manifest(d) == disk.manifest(d)
            &&& forall|d: Seq<char>, g: u32| #[trigger]
                after.has_group(d, g) == (disk.has_group(d, g) || (d == dir && g == group))
            &&& forall|d: Seq<char>, g: u32, f: Seq<char>|
                d != dir || g != group ==> #[trigger] after.file(d, g, f) == disk.file(d, g, f)
            &&& forall|d: Seq<char>| d != dir ==> #[trigger] after.dir(d) == disk.dir(d)
        }),
{
    let bits = zero_bytes(bytes_for_bits(t.row_group_size as int));
    let create = EffectV::CreateGroup { dir, group };
    let images = empty_images(t.schema);
    let columns = writes_from(dir, group, t.schema, images, 0);
    let last = bitmap_write(dir, group, file_image(0, bits));
    let all = materialize_effects(dir, group, t.schema, t.row_group_size);
    lemma_empty_writes(dir, group, t.schema, 0);
    assert(all =~= seq![create] + columns + seq![last]);
    let d1 = disk.after(create);
    lemma_after_create(disk, dir, group);
    assert(seq![create].drop_last() =~= Seq::<EffectV>::empty());
    assert(disk.after_all(seq![create]) == d1) by {
        reveal_with_fuel(DiskV::after_all, 2);
    }
    let d2 = d1.after_all(columns);
    lemma_writes(d1, dir, group, t.schema, images, 0);
    lemma_after_all_concat(disk, seq![create], columns);
    let after = d2.after(last);
    lemma_after_write(d2, dir, group, FILE_NAME@, file_image(0, bits));
    assert(all.drop_last() =~= seq![create] + columns);
    assert(disk.after_all(all) == after);
    lemma_zero_bits(bytes_for_bits(t.row_group_size as int));
    lemma_no_bits(bits, 8 * bits.len() as int);
    assert forall|c: int|
        #![trigger t.schema[c]]
        0 <= c < t.schema.len() implies {
        let image = encoded_column(t.schema[c].ty, t.column(group as int, c), bits);
        image is Ok && after.file(dir, group, col_file(t.schema[c].name)) == Some(image->Ok_0)
    } by {
        assert(t.column(group as int, c) =~= Seq::<ValueV>::empty());
        law_empty_file_is_the_column_of_no_values(t.schema[c].ty, bits);
        lemma_file_names(t.schema[c].name, t.schema[c].name);
    }
    assert(bits_match(t, group as int, bits));
    assert(group_holds(after, dir, t, group, bits));
    assert forall|d: Seq<char>, g: u32, f: Seq<char>|
        d != dir || g != group implies #[trigger] after.file(d, g, f) == disk.file(d, g, f) by {
        assert(d2.file(d, g, f) == d1.file(d, g, f));
    }
    assert forall|d: Seq<char>, g: u32| #[trigger]
        after.has_group(d, g) == (disk.has_group(d, g) || (d == dir && g == group)) by {
        assert(d2.has_group(d, g) == d1.has_group(d, g));
    }
    assert forall|d: Seq<char>| #[trigger] after.manifest(d) == disk.manifest(d) by {
        assert(d2.manifest(d) == d1.manifest(d));
    }
    assert forall|d: Seq<char>| d != dir implies #[trigger] after.dir(d) == disk.dir(d) by {
        assert(d2.dir(d) == d1.dir(d));
    }
}

proof fn lemma_no_bits(bits: Seq<u8>, n: int)
    requires
        forall|i: int| !#[trigger] bit_set(bits, i),
    ensures
        count_set(bits, n) == 0,
    decreases n,
{
    if n > 0 {
        lemma_no_bits(bits, n - 1);
    }
}

// ---- inserting ----

/// The group that the next row goes to.
pub open spec fn open_group(t: TableV) -> u32 {
    (t.rows.len() as int / t.row_group_size as int) as u32
}

/// The effects that create the group of the next row, where it is the first of
/// its group.
pub open spec fn opening_effects(h: HandleV, t: TableV) -> Seq<EffectV> {
    if t.rows.len() as int % t.row_group_size as int == 0 && open_group(t) > 0 {
        materialize_effects(h.dir, open_group(t), t.schema, t.row_group_size)
    } else {
        Seq::empty()
    }
}

/// The files once the group of the next row is there.
pub open spec fn opened_disk(store: StoreV, h: HandleV, t: TableV) -> DiskV {
    store.disk.after_all(opening_effects(h, t))
}

/// The delete bitmap of the group of the next row.
pub open spec fn open_bits(store: StoreV, h: HandleV, t: TableV) -> Seq<u8> {
    deletes_at(opened_disk(store, h, t), h.dir, open_group(t))->Ok_0.1
}

/// The new images of the columns once the next row is appended.
pub open spec fn appended_images(t: TableV, bits: Seq<u8>, row: Seq<ValueV>) -> Seq<
    Option<Seq<u8>>,
> {
    Seq::new(
        t.schema.len(),
        |c: int|
            Some(
                encoded_column(
                    t.schema[c].ty,
                    t.column(open_group(t) as int, c).push(row[c]),
                    bits,
                )->Ok_0,
            ),
    )
}

/// The column writes of an insert.
pub open spec fn append_writes(store: StoreV, h: HandleV, t: TableV, row: Seq<ValueV>) -> Seq<
    EffectV,
> {
    writes_from(
        h.dir,
        open_group(t),
        t.schema,
        appended_images(t, open_bits(store, h, t), row),
        0,
    )
}

/// The write that commits an insert.
pub open spec fn commit_write(store: StoreV, h: HandleV, t: TableV) -> EffectV {
    EffectV::WriteManifest {
        dir: h.dir,
        manifest: ManifestV {
            next_rid: (t.rows.len() + 1) as u64,
            ..store.catalog.manifest_of(store.disk, h.name)->Ok_0
        },
    }
}

/// The place of the next row.
pub proof fn lemma_open_group(t: TableV)
    requires
        t.wf(),
        t.rows.len() < u32::MAX * t.row_group_size,
    ensures
        open_group(t) == t.rows.len() as int / t.row_group_size as int,
        open_group(t) < u32::MAX,
        t.rows.len() == t.first(open_group(t) as int) + t.rows.len() as int
            % t.row_group_size as int,
        t.group_len(open_group(t) as int) == t.rows.len() as int % t.row_group_size as int,
        t.group_len(open_group(t) as int) < t.row_group_size,
        0 <= t.first(open_group(t) as int),
        t.rows.len() < u64::MAX,
        group_of(t.rows.len() as u64, t.row_group_size) == open_group(t),
        offset_of(t.rows.len() as u64, t.row_group_size) == t.rows.len() as int
            % t.row_group_size as int,
{
    let size = t.row_group_size as int;
    let n = t.rows.len() as int;
    lemma_place(n, size);
    lemma_group_bound(n, size, u32::MAX as int);
    assert(u32::MAX * size <= u64::MAX - 1) by (nonlinear_arith)
        requires
            0 < size <= u32::MAX,
    ;
    assert(n / size * size >= 0) by (nonlinear_arith)
        requires
            n / size >= 0,
            size > 0,
    ;
}

/// The group that the next row goes to holds what it should once it is there,
/// and opening it changed nothing else.
pub proof fn lemma_opened(store: StoreV, h: HandleV, t: TableV)
    requires
        represents(store, h, t),
        t.rows.len() < u32::MAX * t.row_group_size,
    ensures
        ({
            let disk = opened_disk(store, h, t);
            let group = open_group(t);
            &&& group_holds(disk, h.dir, t, group, open_bits(store, h, t))
            &&& disk.catalog == store.disk.catalog
            &&& forall|d: Seq<char>| #[trigger] disk.manifest(d) == store.disk.manifest(d)
            &&& forall|d: Seq<char>, g: u32| #[trigger]
                disk.has_group(d, g) == (store.disk.has_group(d, g) || (d == h.dir && g == group))
            &&& forall|d: Seq<char>, g: u32, f: Seq<char>|
                d != h.dir || g != group ==> #[trigger] disk.file(d, g, f) == store.disk.file(
                    d,
                    g,
                    f,
                )
            &&& forall|d: Seq<char>| d != h.dir ==> #[trigger] disk.dir(d) == store.disk.dir(d)
        }),
{
    let group = open_group(t);
    let disk = opened_disk(store, h, t);
    lemma_open_group(t);
    if t.rows.len() as int % t.row_group_size as int == 0 && group > 0 {
        lemma_materialized(store.disk, h.dir, t, group);
        let bits = zero_bytes(bytes_for_bits(t.row_group_size as int));
        lemma_group_reads(disk, h.dir, t, group, bits);
    } else {
        assert(group_ok(store.disk, h.dir, t, group));
        assert(holds(store.disk, h.dir, t, group));
        let bits = choose|bits: Seq<u8>| group_holds(store.disk, h.dir, t, group, bits);
        lemma_group_reads(store.disk, h.dir, t, group, bits);
    }
}

/// The column of the next row's group, with the row's value behind, can be
/// encoded.
pub proof fn lemma_appended_encodable(t: TableV, row: Seq<ValueV>, bits: Seq<u8>, c: int)
    requires
        t.wf(),
        can_take(t, row),
        0 <= c < t.schema.len(),
    ensures
        encoded_column(t.schema[c].ty, t.column(open_group(t) as int, c).push(row[c]), bits) is Ok,
{
    lemma_open_group(t);
    let group = open_group(t) as int;
    let values = t.column(group, c).push(row[c]);
    assert(encoded_values(t.schema[c].ty, values) is Ok);
}

/// What an insert into a table that the store holds does, write by write.
pub proof fn lemma_insert_shape(store: StoreV, h: HandleV, t: TableV, row: Seq<ValueV>)
    requires
        represents(store, h, t),
        can_take(t, row),
    ensures
        insert_steps(store, h, row) == done(
            opening_effects(h, t) + (append_writes(store, h, t, row) + seq![
                commit_write(store, h, t),
            ]),
        ),
{
    lemma_open_group(t);
    lemma_opened(store, h, t);
    let group = open_group(t);
    let disk = opened_disk(store, h, t);
    let bits = open_bits(store, h, t);
    let images = appended_images(t, bits, row);
    lemma_group_reads(disk, h.dir, t, group, bits);
    let step = append_step(h, group, bits, row);
    assert forall|d: DiskV, c: int|
        0 <= c < t.schema.len() && d.has_group(h.dir, group) && d.file(
            h.dir,
            group,
            col_file(t.schema[c].name),
        ) == disk.file(h.dir, group, col_file(t.schema[c].name)) implies #[trigger] step(d, c)
        == done(one_write(h.dir, group, t.schema, images, c)) by {
        assert(column_at(d, h.dir, group, t.schema[c].name) == column_at(
            disk,
            h.dir,
            group,
            t.schema[c].name,
        ));
        lemma_appended_encodable(t, row, bits, c);
    }
    lemma_run_is_writes(disk, disk, h.dir, group, t.schema, images, 0, step);
    let writes = append_writes(store, h, t, row);
    lemma_writes(disk, h.dir, group, t.schema, images, 0);
    let written = disk.after_all(writes);
    assert(written.manifest(h.dir) == disk.manifest(h.dir));
    assert(disk.manifest(h.dir) == store.disk.manifest(h.dir));
    assert(commit_steps(store.catalog, written, h.name, (t.rows.len() + 1) as u64) == done(
        seq![commit_write(store, h, t)],
    ));
    assert(append_and_commit(store.catalog, disk, h, group, row, t.rows.len() as u64) == done(
        writes + seq![commit_write(store, h, t)],
    ));
}

/// The columns of a group are the same in a table with one more row, but for
/// the group of that row.
proof fn lemma_insert_groups(t: TableV, row: Seq<ValueV>, group: int)
    requires
        t.wf(),
        t.rows.len() < u32::MAX * t.row_group_size,
        0 <= group,
    ensures
        group < open_group(t) ==> t.insert(row).group_len(group) == t.group_len(group)
            && t.group_len(group) == t.row_group_size,
        group == open_group(t) ==> t.insert(row).group_len(group) == t.group_len(group) + 1,
        group > open_group(t) ==> t.insert(row).group_len(group) == 0 && t.first(group)
            > t.rows.len(),
        forall|c: int|
            group < open_group(t) ==> #[trigger] t.insert(row).column(group, c) == t.column(
                group,
                c,
            ),
        forall|c: int|
            group == open_group(t) ==> #[trigger] t.insert(row).column(group, c) == t.column(
                group,
                c,
            ).push(row[c]),
        t.first(group) >= 0,
{
    let size = t.row_group_size as int;
    let open = open_group(t) as int;
    lemma_open_group(t);
    assert(group * size >= 0) by (nonlinear_arith)
        requires
            group >= 0,
            size > 0,
    ;
    if group < open {
        lemma_groups_apart(group, open, size);
        assert forall|c: int| #[trigger] t.insert(row).column(group, c) == t.column(group, c) by {
            assert(t.insert(row).column(group, c) =~= t.column(group, c));
        }
    } else if group > open {
        lemma_groups_apart(open, group, size);
    } else {
        assert forall|c: int| #[trigger] t.insert(row).column(group, c) == t.column(group, c).push(
            row[c],
        ) by {
            assert(t.insert(row).column(group, c) =~= t.column(group, c).push(row[c]));
        }
    }
}

/// The bitmap of a group says the same of a table with one more row.
proof fn lemma_insert_bits(t: TableV, row: Seq<ValueV>, group: int, bits: Seq<u8>)
    requires
        t.wf(),
        t.rows.len() < u32::MAX * t.row_group_size,
        0 <= group <= open_group(t),
        bits_match(t, group, bits),
    ensures
        bits_match(t.insert(row), group, bits),
{
    lemma_open_group(t);
    lemma_insert_groups(t, row, group);
    assert forall|i: int| #[trigger]
        bit_set(bits, i) == (0 <= i < t.insert(row).group_len(group) && t.insert(row).deleted[
            t.first(group) + i
        ]) by {
        assert(bit_set(bits, i) == (0 <= i < t.group_len(group) && t.deleted[t.first(group) + i]));
    }
}

/// The files after an insert.
pub open spec fn inserted_disk(store: StoreV, h: HandleV, t: TableV, row: Seq<ValueV>) -> DiskV {
    opened_disk(store, h, t).after_all(append_writes(store, h, t, row)).after(
        commit_write(store, h, t),
    )
}

/// The files after an insert, file by file.
proof fn lemma_inserted_disk(store: StoreV, h: HandleV, t: TableV, row: Seq<ValueV>)
    requires
        represents(store, h, t),
        can_take(t, row),
    ensures
        ({
            let end = inserted_disk(store, h, t, row);
            let group = open_group(t);
            let bits = open_bits(store, h, t);
            &&& insert_steps(store, h, row).0 is None
            &&& store.disk.after_all(insert_steps(store, h, row).1) == end
            &&& end.catalog == store.disk.catalog
            &&& end.manifest(h.dir) == ManifestImageV::Loaded(commit_write(store, h, t)->manifest)
            &&& forall|d: Seq<char>| d != h.dir ==> #[trigger] end.dir(d) == store.disk.dir(d)
            &&& forall|g: u32| #[trigger]
                end.has_group(h.dir, g) == (store.disk.has_group(h.dir, g) || g == group)
            &&& forall|g: u32, f: Seq<char>|
                g != group ==> #[trigger] end.file(h.dir, g, f) == store.disk.file(h.dir, g, f)
            &&& group_holds(opened_disk(store, h, t), h.dir, t, group, bits)
            &&& end.file(h.dir, group, FILE_NAME@) == Some(file_image(deleted_rows(bits), bits))
            &&& forall|c: int|
                0 <= c < t.schema.len() ==> end.file(
                    h.dir,
                    group,
                    col_file((#[trigger] t.schema[c]).name),
                ) == Some(
                    encoded_column(
                        t.schema[c].ty,
                        t.column(group as int, c).push(row[c]),
                        bits,
                    )->Ok_0,
                )
        }),
{
    lemma_insert_shape(store, h, t, row);
    lemma_opened(store, h, t);
    let group = open_group(t);
    let disk = opened_disk(store, h, t);
    let bits = open_bits(store, h, t);
    let images = appended_images(t, bits, row);
    let writes = append_writes(store, h, t, row);
    let commit = commit_write(store, h, t);
    lemma_writes(disk, h.dir, group, t.schema, images, 0);
    let written = disk.after_all(writes);
    lemma_after_all_concat(store.disk, opening_effects(h, t), writes + seq![commit]);
    lemma_after_all_concat(disk, writes, seq![commit]);
    assert(seq![commit].drop_last() =~= Seq::<EffectV>::empty());
    assert(written.after_all(seq![commit]) == written.after(commit)) by {
        reveal_with_fuel(DiskV::after_all, 2);
    }
    let end = written.after(commit);
    lemma_after_manifest(written, h.dir, commit->manifest);
    assert forall|d: Seq<char>| d != h.dir implies #[trigger] end.dir(d) == store.disk.dir(d) by {
        assert(written.dir(d) == disk.dir(d));
    }
    assert forall|g: u32| #[trigger]
        end.has_group(h.dir, g) == (store.disk.has_group(h.dir, g) || g == group) by {
        assert(written.has_group(h.dir, g) == disk.has_group(h.dir, g));
    }
    assert forall|g: u32, f: Seq<char>| g != group implies #[trigger] end.file(h.dir, g, f)
        == store.disk.file(h.dir, g, f) by {
        assert(written.file(h.dir, g, f) == disk.file(h.dir, g, f));
    }
    assert forall|c: int| 0 <= c < t.schema.len() implies end.file(
        h.dir,
        group,
        col_file((#[trigger] t.schema[c]).name),
    ) == Some(
        encoded_column(t.schema[c].ty, t.column(group as int, c).push(row[c]), bits)->Ok_0,
    ) by {
        assert(images[c] is Some);
        assert(written.file(h.dir, group, col_file(t.schema[c].name)) == images[c]);
    }
}

/// After an insert every group is as it should be for the table with the row.
proof fn lemma_insert_group(store: StoreV, h: HandleV, t: TableV, row: Seq<ValueV>, g: u32)
    requires
        represents(store, h, t),
        can_take(t, row),
    ensures
        group_ok(inserted_disk(store, h, t, row), h.dir, t.insert(row), g),
{
    let end = inserted_disk(store, h, t, row);
    let u = t.insert(row);
    let group = open_group(t);
    let bits = open_bits(store, h, t);
    lemma_open_group(t);
    lemma_inserted_disk(store, h, t, row);
    lemma_insert_groups(t, row, g as int);
    assert(group_ok(store.disk, h.dir, t, g));
    assert(end.has_group(h.dir, g) == (store.disk.has_group(h.dir, g) || g == group));
    if g == group {
        lemma_insert_bits(t, row, g as int, bits);
        assert forall|c: int|
            #![trigger u.schema[c]]
            0 <= c < u.schema.len() implies {
            let image = encoded_column(u.schema[c].ty, u.column(g as int, c), bits);
            image is Ok && end.file(h.dir, g, col_file(u.schema[c].name)) == Some(image->Ok_0)
        } by {
            lemma_appended_encodable(t, row, bits, c);
            assert(t.schema[c] == u.schema[c]);
            assert(u.column(g as int, c) == t.column(g as int, c).push(row[c]));
        }
        assert(group_holds(end, h.dir, u, g, bits));
    } else if g < group {
        lemma_groups_apart(g as int, group as int, t.row_group_size as int);
        assert(t.first(g as int) < t.rows.len());
        assert(holds(store.disk, h.dir, t, g));
        let old_bits = choose|b: Seq<u8>| group_holds(store.disk, h.dir, t, g, b);
        lemma_insert_bits(t, row, g as int, old_bits);
        assert forall|c: int|
            #![trigger u.schema[c]]
            0 <= c < u.schema.len() implies {
            let image = encoded_column(u.schema[c].ty, u.column(g as int, c), old_bits);
            image is Ok && end.file(h.dir, g, col_file(u.schema[c].name)) == Some(image->Ok_0)
        } by {
            assert(t.schema[c] == u.schema[c]);
            assert(u.column(g as int, c) == t.column(g as int, c));
        }
        assert(group_holds(end, h.dir, u, g, old_bits));
    } else {
        assert(!store.disk.has_group(h.dir, g));
    }
}

/// A table with a fitting row more follows its own rules.
proof fn lemma_insert_wf(t: TableV, row: Seq<ValueV>)
    requires
        t.wf(),
        can_take(t, row),
    ensures
        t.insert(row).wf(),
{
    let u = t.insert(row);
    assert forall|r: int| 0 <= r < u.rows.len() implies record_error(
        u.schema,
        #[trigger] u.rows[r],
    ) is None by {
        if r < t.rows.len() {
            assert(u.rows[r] == t.rows[r]);
        }
    }
}

/// Inserting a record that fits succeeds with the next identifier, and the
/// store then holds the table with that row behind the others. No other table's
/// directory changes, nor does the index.
pub proof fn law_insert(store: StoreV, h: HandleV, t: TableV, row: Seq<ValueV>)
    requires
        represents(store, h, t),
        can_take(t, row),
    ensures
        ({
            let steps = insert_steps(store, h, row);
            let after = store.after(steps.1);
            &&& steps.0 is None
            &&& next_rid(store, h) == t.rows.len()
            &&& represents(after, h, t.insert(row))
            &&& confined(store, after, h.dir)
        }),
{
    reveal(confined);
    let end = inserted_disk(store, h, t, row);
    let after = store.after(insert_steps(store, h, row).1);
    lemma_inserted_disk(store, h, t, row);
    assert(after.disk == end);
    assert(dir_holds(end, h.dir, t.insert(row))) by {
        lemma_insert_dir(store, h, t, row);
    }
    assert(t.rows.len() < u64::MAX) by {
        lemma_open_group(t);
    }
    lemma_described_after(store, after, h);
}

/// After an insert the files hold the table with the row.
proof fn lemma_insert_dir(store: StoreV, h: HandleV, t: TableV, row: Seq<ValueV>)
    requires
        represents(store, h, t),
        can_take(t, row),
    ensures
        dir_holds(inserted_disk(store, h, t, row), h.dir, t.insert(row)),
{
    let end = inserted_disk(store, h, t, row);
    let u = t.insert(row);
    lemma_insert_wf(t, row);
    assert forall|g: u32| #[trigger] group_ok(end, h.dir, u, g) by {
        lemma_insert_group(store, h, t, row, g);
    }
}

/// The handle stays current when only `next_rid` of the manifest moves.
pub proof fn lemma_described_after(store: StoreV, after: StoreV, h: HandleV)
    requires
        store.opened(h.name) == Ok::<HandleV, ErrorV>(h),
        after.catalog == store.catalog,
        after.disk.manifest(h.dir) matches ManifestImageV::Loaded(m) && m == (ManifestV {
            next_rid: m.next_rid,
            ..store.catalog.manifest_of(store.disk, h.name)->Ok_0
        }),
    ensures
        after.opened(h.name) == Ok::<HandleV, ErrorV>(h),
        after.described(h.name)->Ok_0.next_rid == after.disk.manifest(h.dir)->Loaded_0.next_rid,
{
    let a = store.described(h.name)->Ok_0;
    let b = after.described(h.name)->Ok_0;
    assert(a.schema =~= b.schema);
}

// ---- deleting ----

/// A table with a row deleted follows its own rules.
proof fn lemma_delete_wf(t: TableV, rid: int)
    requires
        t.wf(),
        0 <= rid < t.rows.len(),
    ensures
        t.delete(rid).wf(),
{
    let u = t.delete(rid);
    assert forall|r: int| 0 <= r < u.rows.len() implies record_error(
        u.schema,
        #[trigger] u.rows[r],
    ) is None by {
        assert(u.rows[r] == t.rows[r]);
    }
}

/// The new images of the columns of a group once a row of it is deleted: INT
/// columns get new statistics.
spec fn restat_images(t: TableV, group: u32, bits: Seq<u8>) -> Seq<Option<Seq<u8>>> {
    Seq::new(
        t.schema.len(),
        |c: int|
            if t.schema[c].ty == ColumnType::Int {
                Some(encoded_column(t.schema[c].ty, t.column(group as int, c), bits)->Ok_0)
            } else {
                None
            },
    )
}

/// What a delete does, write by write, and the files after it.
proof fn lemma_delete_shape(store: StoreV, h: HandleV, t: TableV, rid: u64, bits: Seq<u8>)
    requires
        represents(store, h, t),
        t.live(rid as int),
        group_holds(store.disk, h.dir, t, group_of(rid, t.row_group_size), bits),
    ensures
        ({
            let group = group_of(rid, t.row_group_size);
            let offset = offset_of(rid, t.row_group_size);
            let marked_bits = with_bit(bits, offset);
            let write = bitmap_write(
                h.dir,
                group,
                file_image(deleted_rows(marked_bits), marked_bits),
            );
            let images = restat_images(t, group, marked_bits);
            &&& delete_steps(store, h, rid) == done(
                seq![write] + writes_from(h.dir, group, t.schema, images, 0),
            )
            &&& bits_match(t.delete(rid as int), group as int, marked_bits)
        }),
{
    let size = t.row_group_size;
    let group = group_of(rid, size);
    let offset = offset_of(rid, size);
    assert(rid < (u32::MAX + 1) * size) by (nonlinear_arith)
        requires
            rid < t.rows.len(),
            t.rows.len() <= u32::MAX * size,
            size > 0,
    ;
    lemma_group_of(rid, size);
    lemma_place(rid as int, size as int);
    assert(t.first(group as int) + offset == rid);
    assert(offset < t.group_len(group as int));
    lemma_group_reads(store.disk, h.dir, t, group, bits);
    assert(!bit_set(bits, offset));
    lemma_count_room(bits, 8 * bits.len() as int, t.group_len(group as int), offset);
    assert(offset / 8 < bits.len());
    law_mark_deleted(bits, offset, bitmap_path(h.dir, group));
    let marked_bits = with_bit(bits, offset);
    lemma_with_bit(bits, offset);
    let file = file_image(deleted_rows(marked_bits), marked_bits);
    let write = bitmap_write(h.dir, group, file);
    let disk = store.disk.after(write);
    lemma_after_write(store.disk, h.dir, group, FILE_NAME@, file);
    assert(seq![write].drop_last() =~= Seq::<EffectV>::empty());
    assert(store.disk.after_all(seq![write]) == disk) by {
        reveal_with_fuel(DiskV::after_all, 2);
    }
    lemma_file_image_loads(deleted_rows(marked_bits), marked_bits, bitmap_path(h.dir, group));
    assert(deletes_at(disk, h.dir, group)->Ok_0.1 == marked_bits);
    let images = restat_images(t, group, marked_bits);
    let step = restat_step(h, group, marked_bits);
    assert forall|d: DiskV, c: int|
        0 <= c < t.schema.len() && d.has_group(h.dir, group) && d.file(
            h.dir,
            group,
            col_file(t.schema[c].name),
        ) == disk.file(h.dir, group, col_file(t.schema[c].name)) implies #[trigger] step(d, c)
        == done(one_write(h.dir, group, t.schema, images, c)) by {
        lemma_file_names(t.schema[c].name, t.schema[c].name);
        assert(disk.file(h.dir, group, col_file(t.schema[c].name)) == store.disk.file(
            h.dir,
            group,
            col_file(t.schema[c].name),
        ));
        assert(column_at(d, h.dir, group, t.schema[c].name) == column_at(
            store.disk,
            h.dir,
            group,
            t.schema[c].name,
        ));
        lemma_encoding_ignores_deletes(
            t.schema[c].ty,
            t.column(group as int, c),
            bits,
            marked_bits,
        );
    }
    assert(disk.has_group(h.dir, group));
    lemma_run_is_writes(disk, disk, h.dir, group, t.schema, images, 0, step);
    let u = t.delete(rid as int);
    assert forall|i: int| #[trigger]
        bit_set(marked_bits, i) == (0 <= i < u.group_len(group as int) && u.deleted[
            u.first(group as int) + i
        ]) by {
        assert(bit_set(bits, i) == (0 <= i < t.group_len(group as int) && t.deleted[
            t.first(group as int) + i
        ]));
    }
}

/// After a delete every group is as it should be for the table without the row.
proof fn lemma_delete_group(
    store: StoreV,
    h: HandleV,
    t: TableV,
    rid: u64,
    bits: Seq<u8>,
    g: u32,
)
    requires
        represents(store, h, t),
        t.live(rid as int),
        group_holds(store.disk, h.dir, t, group_of(rid, t.row_group_size), bits),
    ensures
        group_ok(
            store.disk.after_all(delete_steps(store, h, rid).1),
            h.dir,
            t.delete(rid as int),
            g,
        ),
{
    let size = t.row_group_size;
    let group = group_of(rid, size);
    let offset = offset_of(rid, size);
    assert(rid < (u32::MAX + 1) * size) by (nonlinear_arith)
        requires
            rid < t.rows.len(),
            t.rows.len() <= u32::MAX * size,
            size > 0,
    ;
    lemma_group_of(rid, size);
    lemma_place(rid as int, size as int);
    lemma_delete_shape(store, h, t, rid, bits);
    let marked_bits = with_bit(bits, offset);
    let file = file_image(deleted_rows(marked_bits), marked_bits);
    let write = bitmap_write(h.dir, group, file);
    let images = restat_images(t, group, marked_bits);
    let writes = writes_from(h.dir, group, t.schema, images, 0);
    let disk = store.disk.after(write);
    lemma_after_write(store.disk, h.dir, group, FILE_NAME@, file);
    assert(seq![write].drop_last() =~= Seq::<EffectV>::empty());
    assert(store.disk.after_all(seq![write]) == disk) by {
        reveal_with_fuel(DiskV::after_all, 2);
    }
    lemma_after_all_concat(store.disk, seq![write], writes);
    lemma_writes(disk, h.dir, group, t.schema, images, 0);
    let end = disk.after_all(writes);
    let u = t.delete(rid as int);
    assert(group_ok(store.disk, h.dir, t, g));
    assert(end.has_group(h.dir, g) == disk.has_group(h.dir, g));
    if g == group {
        assert forall|c: int|
            #![trigger u.schema[c]]
            0 <= c < u.schema.len() implies {
            let image = encoded_column(u.schema[c].ty, u.column(g as int, c), marked_bits);
            image is Ok && end.file(h.dir, g, col_file(u.schema[c].name)) == Some(image->Ok_0)
        } by {
            assert(t.schema[c] == u.schema[c]);
            assert(u.column(g as int, c) =~= t.column(g as int, c));
            lemma_encoding_ignores_deletes(
                t.schema[c].ty,
                t.column(g as int, c),
                bits,
                marked_bits,
            );
            lemma_file_names(t.schema[c].name, t.schema[c].name);
        }
        assert(end.file(h.dir, g, FILE_NAME@) == disk.file(h.dir, g, FILE_NAME@));
        assert(group_holds(end, h.dir, u, g, marked_bits));
    } else if store.disk.has_group(h.dir, g) {
        assert(holds(store.disk, h.dir, t, g));
        let old_bits = choose|b: Seq<u8>| group_holds(store.disk, h.dir, t, g, b);
        assert forall|i: int| #[trigger]
            bit_set(old_bits, i) == (0 <= i < u.group_len(g as int) && u.deleted[
                u.first(g as int) + i
            ]) by {
            assert(bit_set(old_bits, i) == (0 <= i < t.group_len(g as int) && t.deleted[
                t.first(g as int) + i
            ]));
            if 0 <= i < t.group_len(g as int) {
                if g < group {
                    lemma_groups_apart(g as int, group as int, size as int);
                } else {
                    lemma_groups_apart(group as int, g as int, size as int);
                }
            }
        }
        assert forall|c: int|
            #![trigger u.schema[c]]
            0 <= c < u.schema.len() implies {
            let image = encoded_column(u.schema[c].ty, u.column(g as int, c), old_bits);
            image is Ok && end.file(h.dir, g, col_file(u.schema[c].name)) == Some(image->Ok_0)
        } by {
            assert(t.schema[c] == u.schema[c]);
            assert(u.column(g as int, c) =~= t.column(g as int, c));
            assert(end.file(h.dir, g, col_file(t.schema[c].name)) == disk.file(
                h.dir,
                g,
                col_file(t.schema[c].name),
            ));
        }
        assert(end.file(h.dir, g, FILE_NAME@) == disk.file(h.dir, g, FILE_NAME@));
        assert(group_holds(end, h.dir, u, g, old_bits));
    }
}

/// The group of a row that is there holds what it should.
proof fn lemma_group_of_row(store: StoreV, h: HandleV, t: TableV, rid: u64)
    requires
        represents(store, h, t),
        rid < t.rows.len(),
    ensures
        holds(store.disk, h.dir, t, group_of(rid, t.row_group_size)),
        rid < (u32::MAX + 1) * t.row_group_size,
{
    let size = t.row_group_size;
    assert(rid < (u32::MAX + 1) * size) by (nonlinear_arith)
        requires
            rid < t.rows.len(),
            t.rows.len() <= u32::MAX * size,
            size > 0,
    ;
    lemma_group_of(rid, size);
    lemma_place(rid as int, size as int);
    assert(group_ok(store.disk, h.dir, t, group_of(rid, size)));
}

/// Deleting a live record succeeds, and the store then holds the table with
/// that row deleted and every other row as it was. No other table's directory
/// changes, nor does the index.
pub proof fn law_delete(store: StoreV, h: HandleV, t: TableV, rid: u64)
    requires
        represents(store, h, t),
        t.live(rid as int),
    ensures
        ({
            let steps = delete_steps(store, h, rid);
            let after = store.after(steps.1);
            &&& steps.0 is None
            &&& represents(after, h, t.delete(rid as int))
            &&& confined(store, after, h.dir)
        }),
{
    reveal(confined);
    let u = t.delete(rid as int);
    lemma_group_of_row(store, h, t, rid);
    let group = group_of(rid, t.row_group_size);
    let bits = choose|b: Seq<u8>| group_holds(store.disk, h.dir, t, group, b);
    lemma_delete_shape(store, h, t, rid, bits);
    let after = store.after(delete_steps(store, h, rid).1);
    lemma_delete_wf(t, rid as int);
    assert forall|g: u32| #[trigger] group_ok(after.disk, h.dir, u, g) by {
        lemma_delete_group(store, h, t, rid, bits, g);
    }
    lemma_delete_frame(store, h, t, rid, bits);
    lemma_delete_keeps_descriptions(store, h, rid, h.name);
    assert(after.opened(h.name) == store.opened(h.name));
}

/// A delete leaves the index file and the other directories alone.
proof fn lemma_delete_frame(store: StoreV, h: HandleV, t: TableV, rid: u64, bits: Seq<u8>)
    requires
        represents(store, h, t),
        t.live(rid as int),
        group_holds(store.disk, h.dir, t, group_of(rid, t.row_group_size), bits),
    ensures
        ({
            let end = store.disk.after_all(delete_steps(store, h, rid).1);
            &&& end.catalog == store.disk.catalog
            &&& forall|d: Seq<char>| d != h.dir ==> #[trigger] end.dir(d) == store.disk.dir(d)
        }),
{
    let group = group_of(rid, t.row_group_size);
    lemma_delete_shape(store, h, t, rid, bits);
    let marked_bits = with_bit(bits, offset_of(rid, t.row_group_size));
    let file = file_image(deleted_rows(marked_bits), marked_bits);
    let write = bitmap_write(h.dir, group, file);
    let images = restat_images(t, group, marked_bits);
    let writes = writes_from(h.dir, group, t.schema, images, 0);
    let disk = store.disk.after(write);
    lemma_after_write(store.disk, h.dir, group, FILE_NAME@, file);
    assert(seq![write].drop_last() =~= Seq::<EffectV>::empty());
    assert(store.disk.after_all(seq![write]) == disk) by {
        reveal_with_fuel(DiskV::after_all, 2);
    }
    lemma_after_all_concat(store.disk, seq![write], writes);
    lemma_writes(disk, h.dir, group, t.schema, images, 0);
    let end = disk.after_all(writes);
    assert forall|d: Seq<char>| d != h.dir implies #[trigger] end.dir(d) == store.disk.dir(d) by {
        assert(disk.dir(d) == store.disk.dir(d));
    }
}

/// Deleting a record that was never inserted, or that is deleted already, is
/// refused and changes nothing.
pub proof fn law_delete_of_no_record(store: StoreV, h: HandleV, t: TableV, rid: u64)
    requires
        represents(store, h, t),
        !t.live(rid as int),
    ensures
        delete_steps(store, h, rid) == failed(no_such_record(h, rid)),
{
    if rid < t.rows.len() {
        lemma_group_of_row(store, h, t, rid);
        let size = t.row_group_size;
        let group = group_of(rid, size);
        let bits = choose|b: Seq<u8>| group_holds(store.disk, h.dir, t, group, b);
        lemma_group_reads(store.disk, h.dir, t, group, bits);
        lemma_group_of(rid, size);
        lemma_place(rid as int, size as int);
        let offset = offset_of(rid, size);
        assert(t.first(group as int) + offset == rid);
        assert(bit_set(bits, offset) == (0 <= offset < t.group_len(group as int) && t.deleted[
            t.first(group as int) + offset
        ]));
    }
}

/// Updating a live record with one that fits deletes the old row and puts the
/// new one behind all others, under the next identifier. No other table's
/// directory changes, nor does the index.
pub proof fn law_update(store: StoreV, h: HandleV, t: TableV, rid: u64, row: Seq<ValueV>)
    requires
        represents(store, h, t),
        t.live(rid as int),
        can_take(t, row),
    ensures
        ({
            let steps = update_steps(store, h, rid, row);
            let after = store.after(steps.1);
            &&& steps.0 is None
            &&& next_rid(store, h) == t.rows.len()
            &&& represents(after, h, t.delete(rid as int).insert(row))
            &&& confined(store, after, h.dir)
        }),
{
    reveal(confined);
    law_delete(store, h, t, rid);
    let first = delete_steps(store, h, rid);
    let mid = store.after(first.1);
    let u = t.delete(rid as int);
    assert(can_take(u, row)) by {
        let group = t.rows.len() as int / t.row_group_size as int;
        assert forall|c: int| 0 <= c < u.schema.len() implies encoded_values(
            u.schema[c].ty,
            #[trigger] u.column(group, c).push(row[c]),
        ) is Ok by {
            assert(u.column(group, c) =~= t.column(group, c));
        }
    }
    law_insert(mid, h, u, row);
    let plain = StoreV { catalog: store.catalog, disk: mid.disk, log: store.log };
    assert(insert_steps(plain, h, row) == insert_steps(mid, h, row)) by {
        assert(plain.described(h.name) == mid.described(h.name));
    }
    let second = insert_steps(mid, h, row);
    lemma_after_all_concat(store.disk, first.1, second.1);
    let after = store.after(first.1 + second.1);
    assert(after.disk == mid.after(second.1).disk);
    assert(after.log =~= mid.after(second.1).log);
    assert forall|d: Seq<char>| d != h.dir implies #[trigger] after.disk.dir(d) == store.disk.dir(
        d,
    ) by {
        assert(mid.disk.dir(d) == store.disk.dir(d));
        assert(mid.after(second.1).disk.dir(d) == mid.disk.dir(d));
    }
}

/// Updating a record with one that does not fit is refused before anything
/// changes: the old row stays.
pub proof fn law_update_refuses_misfits(store: StoreV, h: HandleV, rid: u64, row: Seq<ValueV>)
    requires
        record_error(h.schema, row) is Some,
    ensures
        update_steps(store, h, rid, row) == failed(record_error(h.schema, row)->0),
{
}

/// Inserting a record that does not fit is refused before anything changes.
pub proof fn law_insert_refuses_misfits(store: StoreV, h: HandleV, row: Seq<ValueV>)
    requires
        record_error(h.schema, row) is Some,
    ensures
        insert_steps(store, h, row) == failed(record_error(h.schema, row)->0),
{
}

} // verus!
