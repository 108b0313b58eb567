//! What is left of a table after a crash in the middle of an insert, and what
//! opening a database again gives.

use vstd::prelude::*;

use crate::catalog::laws::{
    lemma_dirs_apart, lemma_entry_place, lemma_listed_entry, lemma_names_apart, numbered,
};
use crate::catalog::metadata::StatusV;
use crate::catalog::schema::ColumnV;
use crate::catalog::tables::{loaded, CatalogV};
use crate::disk::{lemma_after_all_concat, DiskV, EffectV};
use crate::error::ErrorV;
use crate::storage::column_file::{column_of, encoded_column};
use crate::storage::column_laws::{
    law_header_reads_alone, law_truncate, law_truncate_keeps_the_first_rows, lemma_row_count,
};
use crate::storage::column_store::opened_store;
use crate::storage::definition_laws::lemma_holds_elsewhere;
use crate::storage::delete_bitmap::{deleted_rows, file_image, lemma_file_image_loads, FILE_NAME};
use crate::storage::model::{
    bitmap_path, col_file, column_at, column_path, column_write, deletes_at, done, group_of,
    insert_steps, next_rid, offset_of, reconcile_step, reconcile_steps, recover_step, recover_steps,
    run_steps, HandleV, StepsV, StoreV,
};
use crate::storage::table_laws::{
    append_writes, appended_images, commit_write, lemma_appended_encodable, lemma_column_types,
    lemma_count_bound, lemma_group_of, lemma_group_reads, lemma_insert_shape, lemma_open_group,
    lemma_opened, lemma_place, open_bits, open_group, opened_disk, opening_effects,
};
use crate::storage::table_model::{
    agrees_from, bits_match, can_take, distinct_names, group_holds, group_ok, holds,
    lemma_after_write, lemma_file_names, lemma_run_is_writes, lemma_writes, one_write, represents,
    writes_from, TableV,
};
use crate::storage::ValueV;

verus! {

/// The first `j` images, with the rest left out.
spec fn first_images(images: Seq<Option<Seq<u8>>>, j: int) -> Seq<Option<Seq<u8>>> {
    Seq::new(
        images.len(),
        |c: int|
            if c < j {
                images[c]
            } else {
                None
            },
    )
}

/// Where every column has an image, a run of writes has one write per column,
/// and cutting it short cuts columns off.
proof fn lemma_writes_cut(
    dir: Seq<char>,
    group: u32,
    schema: Seq<ColumnV>,
    images: Seq<Option<Seq<u8>>>,
    i: int,
    j: int,
)
    requires
        0 <= i <= j <= schema.len(),
        images.len() == schema.len(),
        forall|c: int| 0 <= c < images.len() ==> (#[trigger] images[c]) is Some,
    ensures
        writes_from(dir, group, schema, images, i).len() == schema.len() - i,
        writes_from(dir, group, schema, images, i).take(j - i) == writes_from(
            dir,
            group,
            schema,
            first_images(images, j),
            i,
        ),
    decreases schema.len() - i,
{
    let all = writes_from(dir, group, schema, images, i);
    if i < schema.len() {
        let tail = writes_from(dir, group, schema, images, i + 1);
        let first = one_write(dir, group, schema, images, i);
        assert(images[i] is Some);
        assert(all =~= first + tail);
        if i < j {
            lemma_writes_cut(dir, group, schema, images, i + 1, j);
            assert(all.take(j - i) =~= first + tail.take(j - (i + 1)));
        } else {
            lemma_writes_cut(dir, group, schema, images, i + 1, i + 1);
            lemma_no_writes(dir, group, schema, first_images(images, j), i);
            assert(all.take(0) =~= Seq::<EffectV>::empty());
        }
    } else {
        assert(all.take(0) =~= Seq::<EffectV>::empty());
    }
}

/// No image, no write.
proof fn lemma_no_writes(
    dir: Seq<char>,
    group: u32,
    schema: Seq<ColumnV>,
    images: Seq<Option<Seq<u8>>>,
    i: int,
)
    requires
        0 <= i,
        forall|c: int| i <= c < schema.len() ==> (#[trigger] images[c]) is None,
    ensures
        writes_from(dir, group, schema, images, i) == Seq::<EffectV>::empty(),
    decreases schema.len() - i,
{
    if i < schema.len() {
        lemma_no_writes(dir, group, schema, images, i + 1);
        assert(images[i] is None);
        assert(writes_from(dir, group, schema, images, i) =~= Seq::<EffectV>::empty());
    }
}

/// The column files that an interrupted insert left longer than they should be,
/// with the images that they should have.
spec fn repair_images(t: TableV, bits: Seq<u8>, j: int) -> Seq<Option<Seq<u8>>> {
    Seq::new(
        t.schema.len(),
        |c: int|
            if c < j {
                Some(
                    encoded_column(
                        t.schema[c].ty,
                        t.column(open_group(t) as int, c),
                        bits,
                    )->Ok_0,
                )
            } else {
                None
            },
    )
}

/// The files in the middle of an insert: the group of the row is there, and the
/// first `j` columns were rewritten.
spec fn torn_disk(store: StoreV, h: HandleV, t: TableV, row: Seq<ValueV>, j: int) -> DiskV {
    opened_disk(store, h, t).after_all(append_writes(store, h, t, row).take(j))
}

/// The files in the middle of an insert, file by file.
proof fn lemma_torn_disk(store: StoreV, h: HandleV, t: TableV, row: Seq<ValueV>, j: int)
    requires
        represents(store, h, t),
        can_take(t, row),
        0 <= j <= t.schema.len(),
    ensures
        ({
            let torn = torn_disk(store, h, t, row, j);
            let base = opened_disk(store, h, t);
            let group = open_group(t);
            let images = appended_images(t, open_bits(store, h, t), row);
            &&& append_writes(store, h, t, row).len() == t.schema.len()
            &&& torn.catalog == base.catalog
            &&& forall|d: Seq<char>| #[trigger] torn.manifest(d) == base.manifest(d)
            &&& forall|d: Seq<char>, g: u32| #[trigger]
                torn.has_group(d, g) == base.has_group(d, g)
            &&& forall|d: Seq<char>| d != h.dir ==> #[trigger] torn.dir(d) == base.dir(d)
            &&& forall|d: Seq<char>, g: u32, f: Seq<char>|
                d != h.dir || g != group || f == FILE_NAME@ ==> #[trigger] torn.file(d, g, f)
                    == base.file(d, g, f)
            &&& forall|c: int|
                0 <= c < t.schema.len() ==> torn.file(
                    h.dir,
                    group,
                    col_file((#[trigger] t.schema[c]).name),
                ) == if c < j {
                    images[c]
                } else {
                    base.file(h.dir, group, col_file(t.schema[c].name))
                }
        }),
{
    let base = opened_disk(store, h, t);
    let group = open_group(t);
    let images = appended_images(t, open_bits(store, h, t), row);
    lemma_opened(store, h, t);
    lemma_writes_cut(h.dir, group, t.schema, images, 0, j);
    lemma_writes(base, h.dir, group, t.schema, first_images(images, j), 0);
}

/// Reconciling the files that an interrupted insert left is the run of writes
/// that gives the rewritten columns their old images back.
proof fn lemma_reconcile_torn(store: StoreV, h: HandleV, t: TableV, row: Seq<ValueV>, j: int)
    requires
        represents(store, h, t),
        can_take(t, row),
        0 <= j <= t.schema.len(),
    ensures
        reconcile_steps(store.catalog, torn_disk(store, h, t, row, j), h) == done(
            writes_from(
                h.dir,
                open_group(t),
                t.schema,
                repair_images(t, open_bits(store, h, t), j),
                0,
            ),
        ),
{
    let torn = torn_disk(store, h, t, row, j);
    let base = opened_disk(store, h, t);
    let group = open_group(t);
    let bits = open_bits(store, h, t);
    let images = appended_images(t, bits, row);
    let repairs = repair_images(t, bits, j);
    let n = t.group_len(group as int);
    lemma_open_group(t);
    lemma_opened(store, h, t);
    lemma_torn_disk(store, h, t, row, j);
    lemma_group_reads(base, h.dir, t, group, bits);
    assert(torn.manifest(h.dir) == base.manifest(h.dir));
    assert(base.manifest(h.dir) == store.disk.manifest(h.dir));
    assert(store.catalog.described(torn, h.name) == store.described(h.name));
    assert(torn.has_group(h.dir, group) == base.has_group(h.dir, group));
    assert(torn.file(h.dir, group, FILE_NAME@) == base.file(h.dir, group, FILE_NAME@));
    assert(deletes_at(torn, h.dir, group) == deletes_at(base, h.dir, group));
    let step = reconcile_step(h, group, n, bits);
    assert forall|d: DiskV, c: int|
        0 <= c < t.schema.len() && d.has_group(h.dir, group) && d.file(
            h.dir,
            group,
            col_file(t.schema[c].name),
        ) == torn.file(h.dir, group, col_file(t.schema[c].name)) implies #[trigger] step(d, c)
        == done(one_write(h.dir, group, t.schema, repairs, c)) by {
        let ty = t.schema[c].ty;
        let values = t.column(group as int, c);
        let path = column_path(h.dir, group, t.schema[c].name);
        lemma_column_types(t, group as int, c);
        if c < j {
            let longer = values.push(row[c]);
            lemma_appended_encodable(t, row, bits, c);
            law_header_reads_alone(ty, longer, bits, path);
            law_truncate_keeps_the_first_rows(ty, longer, bits, bits, n, path);
            assert(longer.take(n) =~= values);
            assert(d.file(h.dir, group, col_file(t.schema[c].name)) == images[c]);
        } else {
            law_header_reads_alone(ty, values, bits, path);
            assert(d.file(h.dir, group, col_file(t.schema[c].name)) == base.file(
                h.dir,
                group,
                col_file(t.schema[c].name),
            ));
        }
    }
    lemma_run_is_writes(torn, torn, h.dir, group, t.schema, repairs, 0, step);
}

/// How far an insert may have got for its table to open again: nothing was done,
/// or the new row's group was created in full or needed no creation, and the
/// row was not committed. In between a group stands there without its bitmap,
/// and the table does not open.
pub open spec fn torn_at(store: StoreV, h: HandleV, t: TableV, row: Seq<ValueV>, k: int) -> bool {
    k == 0 || opening_effects(h, t).len() <= k < insert_steps(store, h, row).1.len()
}

/// The files after the first `k` effects of an insert.
pub open spec fn crashed_disk(store: StoreV, h: HandleV, row: Seq<ValueV>, k: int) -> DiskV {
    store.disk.after_all(insert_steps(store, h, row).1.take(k))
}

/// A crash in the middle of an insert loses only that row. Whatever part of the
/// column rewrites was carried out, as long as the new row's group was created
/// in full or needed no creation, opening the table again succeeds and leaves
/// exactly the table from before the insert. No other directory is touched, nor
/// is the index.
pub proof fn law_torn_insert_is_undone(
    store: StoreV,
    h: HandleV,
    t: TableV,
    row: Seq<ValueV>,
    k: int,
)
    requires
        represents(store, h, t),
        can_take(t, row),
        torn_at(store, h, t, row, k),
    ensures
        ({
            let crashed = crashed_disk(store, h, row, k);
            let repair = reconcile_steps(store.catalog, crashed, h);
            let end = crashed.after_all(repair.1);
            &&& repair.0 is None
            &&& represents(
                StoreV { catalog: store.catalog, disk: crashed, log: store.log }.after(repair.1),
                h,
                t,
            )
            &&& crashed.catalog == store.disk.catalog
            &&& end.catalog == store.disk.catalog
            &&& crashed.manifest(h.dir) == store.disk.manifest(h.dir)
            &&& forall|d: Seq<char>|
                d != h.dir ==> #[trigger] crashed.dir(d) == store.disk.dir(d)
            &&& forall|d: Seq<char>| d != h.dir ==> #[trigger] end.dir(d) == store.disk.dir(d)
        }),
{
    let effects = insert_steps(store, h, row).1;
    if k == 0 {
        assert(effects.take(k) =~= Seq::<EffectV>::empty());
        law_recovery_leaves_sound_tables_alone(store, h, t);
        let same = StoreV { catalog: store.catalog, disk: store.disk, log: store.log };
        assert(same.after(Seq::empty()).disk == store.disk);
        assert(represents(same.after(Seq::empty()), h, t));
    } else {
        lemma_torn_insert(store, h, t, row, k);
    }
}

/// The same, where something was done.
proof fn lemma_torn_insert(store: StoreV, h: HandleV, t: TableV, row: Seq<ValueV>, k: int)
    requires
        represents(store, h, t),
        can_take(t, row),
        opening_effects(h, t).len() <= k < insert_steps(store, h, row).1.len(),
    ensures
        ({
            let crashed = crashed_disk(store, h, row, k);
            let repair = reconcile_steps(store.catalog, crashed, h);
            let end = crashed.after_all(repair.1);
            &&& repair.0 is None
            &&& represents(
                StoreV { catalog: store.catalog, disk: crashed, log: store.log }.after(repair.1),
                h,
                t,
            )
            &&& crashed.catalog == store.disk.catalog
            &&& end.catalog == store.disk.catalog
            &&& crashed.manifest(h.dir) == store.disk.manifest(h.dir)
            &&& forall|d: Seq<char>|
                d != h.dir ==> #[trigger] crashed.dir(d) == store.disk.dir(d)
            &&& forall|d: Seq<char>| d != h.dir ==> #[trigger] end.dir(d) == store.disk.dir(d)
        }),
{
    let opening = opening_effects(h, t);
    let writes = append_writes(store, h, t, row);
    let commit = commit_write(store, h, t);
    let effects = insert_steps(store, h, row).1;
    lemma_insert_shape(store, h, t, row);
    let j = k - opening.len();
    lemma_torn_disk(store, h, t, row, 0);
    assert(effects.take(k) =~= opening + writes.take(j));
    lemma_after_all_concat(store.disk, opening, writes.take(j));
    let torn = torn_disk(store, h, t, row, j);
    let crashed = store.disk.after_all(effects.take(k));
    assert(crashed == torn);
    lemma_torn_disk(store, h, t, row, j);
    lemma_reconcile_torn(store, h, t, row, j);
    lemma_opened(store, h, t);
    lemma_open_group(t);
    let base = opened_disk(store, h, t);
    let group = open_group(t);
    let bits = open_bits(store, h, t);
    let repairs = repair_images(t, bits, j);
    let repair = writes_from(h.dir, group, t.schema, repairs, 0);
    assert(torn.has_group(h.dir, group) == base.has_group(h.dir, group));
    lemma_writes(torn, h.dir, group, t.schema, repairs, 0);
    let end = torn.after_all(repair);
    let after = StoreV { catalog: store.catalog, disk: torn, log: store.log }.after(repair);
    assert forall|g: u32| #[trigger] group_ok(end, h.dir, t, g) by {
        lemma_repaired_group(store, h, t, row, j, g);
    }
    assert(end.manifest(h.dir) == store.disk.manifest(h.dir)) by {
        assert(end.manifest(h.dir) == torn.manifest(h.dir));
        assert(torn.manifest(h.dir) == base.manifest(h.dir));
    }
    assert(after.described(h.name) == store.described(h.name));
    assert forall|d: Seq<char>| d != h.dir implies #[trigger] crashed.dir(d) == store.disk.dir(
        d,
    ) by {
        assert(torn.dir(d) == base.dir(d));
    }
    assert forall|d: Seq<char>| d != h.dir implies #[trigger] end.dir(d) == store.disk.dir(d) by {
        assert(crashed.dir(d) == store.disk.dir(d));
    }
}

/// After the repair every group is as it was before the insert, but that the
/// group of the row may be there.
proof fn lemma_repaired_group(
    store: StoreV,
    h: HandleV,
    t: TableV,
    row: Seq<ValueV>,
    j: int,
    g: u32,
)
    requires
        represents(store, h, t),
        can_take(t, row),
        0 <= j <= t.schema.len(),
    ensures
        group_ok(
            torn_disk(store, h, t, row, j).after_all(
                writes_from(
                    h.dir,
                    open_group(t),
                    t.schema,
                    repair_images(t, open_bits(store, h, t), j),
                    0,
                ),
            ),
            h.dir,
            t,
            g,
        ),
{
    let torn = torn_disk(store, h, t, row, j);
    let base = opened_disk(store, h, t);
    let group = open_group(t);
    let bits = open_bits(store, h, t);
    let repairs = repair_images(t, bits, j);
    let repair = writes_from(h.dir, group, t.schema, repairs, 0);
    lemma_open_group(t);
    lemma_opened(store, h, t);
    lemma_torn_disk(store, h, t, row, j);
    assert(torn.has_group(h.dir, group) == base.has_group(h.dir, group));
    lemma_writes(torn, h.dir, group, t.schema, repairs, 0);
    let end = torn.after_all(repair);
    assert(group_ok(store.disk, h.dir, t, g));
    assert(end.has_group(h.dir, g) == torn.has_group(h.dir, g));
    assert(torn.has_group(h.dir, g) == base.has_group(h.dir, g));
    if g == group {
        assert forall|c: int|
            #![trigger t.schema[c]]
            0 <= c < t.schema.len() implies {
            let image = encoded_column(t.schema[c].ty, t.column(g as int, c), bits);
            image is Ok && end.file(h.dir, g, col_file(t.schema[c].name)) == Some(image->Ok_0)
        } by {
            assert(base.file(h.dir, g, col_file(t.schema[c].name)) is Some);
        }
        assert(end.file(h.dir, g, FILE_NAME@) == torn.file(h.dir, g, FILE_NAME@));
        assert(torn.file(h.dir, g, FILE_NAME@) == base.file(h.dir, g, FILE_NAME@));
        assert(group_holds(end, h.dir, t, g, bits));
        assert(t.first(g as int) <= t.rows.len());
    } else if store.disk.has_group(h.dir, g) {
        assert(holds(store.disk, h.dir, t, g));
        let old_bits = choose|b: Seq<u8>| group_holds(store.disk, h.dir, t, g, b);
        assert forall|c: int|
            #![trigger t.schema[c]]
            0 <= c < t.schema.len() implies {
            let image = encoded_column(t.schema[c].ty, t.column(g as int, c), old_bits);
            image is Ok && end.file(h.dir, g, col_file(t.schema[c].name)) == Some(image->Ok_0)
        } by {
            let f = col_file(t.schema[c].name);
            assert(end.file(h.dir, g, f) == torn.file(h.dir, g, f));
            assert(torn.file(h.dir, g, f) == base.file(h.dir, g, f));
        }
        assert(end.file(h.dir, g, FILE_NAME@) == torn.file(h.dir, g, FILE_NAME@));
        assert(torn.file(h.dir, g, FILE_NAME@) == base.file(h.dir, g, FILE_NAME@));
        assert(group_holds(end, h.dir, t, g, old_bits));
    }
}

/// Steps that do nothing add up to nothing.
proof fn lemma_run_nothing(disk: DiskV, i: int, n: int, step: spec_fn(DiskV, int) -> StepsV)
    requires
        forall|c: int| i <= c < n ==> #[trigger] step(disk, c) == done(Seq::empty()),
    ensures
        run_steps(disk, i, n, step) == done(Seq::empty()),
    decreases n - i,
{
    if i < n {
        lemma_run_nothing(disk, i + 1, n, step);
        assert(step(disk, i) == done(Seq::empty()));
        assert(Seq::<EffectV>::empty() + Seq::<EffectV>::empty() =~= Seq::<EffectV>::empty());
    }
}

/// Recovery leaves a table alone that the files hold in full.
pub proof fn law_recovery_leaves_sound_tables_alone(store: StoreV, h: HandleV, t: TableV)
    requires
        represents(store, h, t),
    ensures
        reconcile_steps(store.catalog, store.disk, h) == done(Seq::empty()),
{
    let size = t.row_group_size;
    let rid = t.rows.len() as u64;
    assert(t.rows.len() <= u64::MAX && t.rows.len() < (u32::MAX + 1) * size) by (nonlinear_arith)
        requires
            t.rows.len() <= u32::MAX * size,
            0 < size <= u32::MAX,
    ;
    lemma_group_of(rid, size);
    lemma_place(rid as int, size as int);
    let group = group_of(rid, size);
    let expected = offset_of(rid, size);
    assert(t.first(group as int) + expected == t.rows.len());
    assert(group_ok(store.disk, h.dir, t, group));
    if store.disk.has_group(h.dir, group) {
        assert(holds(store.disk, h.dir, t, group));
        let bits = choose|b: Seq<u8>| group_holds(store.disk, h.dir, t, group, b);
        lemma_group_reads(store.disk, h.dir, t, group, bits);
        assert(t.group_len(group as int) == expected);
        let step = reconcile_step(h, group, expected, bits);
        assert forall|c: int| 0 <= c < t.schema.len() implies #[trigger] step(store.disk, c)
            == done(Seq::empty()) by {
            let ty = t.schema[c].ty;
            let values = t.column(group as int, c);
            lemma_column_types(t, group as int, c);
            law_header_reads_alone(
                ty,
                values,
                bits,
                column_path(h.dir, group, t.schema[c].name),
            );
        }
        lemma_run_nothing(store.disk, 0, h.schema.len() as int, step);
    }
}

/// A table of the index is in order: it cannot be read at all, or the files
/// hold it.
pub open spec fn table_in_order(store: StoreV, name: Seq<char>) -> bool {
    match store.opened(name) {
        Err(_) => true,
        Ok(h) => h.name == name && exists|t: TableV| #[trigger] represents(store, h, t),
    }
}

/// Opening a database again whose tables are all in order changes nothing.
pub proof fn law_recovery_changes_nothing(store: StoreV)
    requires
        forall|i: int|
            0 <= i < store.catalog.tables.len() ==> table_in_order(
                store,
                (#[trigger] store.catalog.tables[i]).name,
            ),
    ensures
        recover_steps(store.catalog, store.disk) == done(Seq::empty()),
{
    let step = recover_step(store.catalog);
    assert forall|i: int| 0 <= i < store.catalog.tables.len() implies #[trigger] step(store.disk, i)
        == done(Seq::empty()) by {
        let name = store.catalog.tables[i].name;
        assert(table_in_order(store, name));
        let plain = StoreV { catalog: store.catalog, disk: store.disk, log: Seq::empty() };
        assert(plain.opened(name) == store.opened(name));
        if let Ok(h) = store.opened(name) {
            let t = choose|t: TableV| #[trigger] represents(store, h, t);
            law_recovery_leaves_sound_tables_alone(store, h, t);
        }
    }
    lemma_run_nothing(store.disk, 0, store.catalog.tables.len() as int, step);
}

/// What was written is there again: opening a database whose index file records
/// the store's index, and whose tables are all in order, gives the store back
/// and changes no file.
pub proof fn law_reopening_gives_the_store_back(store: StoreV, status: StatusV)
    requires
        status is Ready,
        loaded(store.catalog.root, store.disk.catalog) == Ok::<CatalogV, ErrorV>(store.catalog),
        forall|i: int|
            0 <= i < store.catalog.tables.len() ==> table_in_order(
                store,
                (#[trigger] store.catalog.tables[i]).name,
            ),
    ensures
        opened_store(store.catalog.root, status, store.disk, store.log) == Ok::<StoreV, ErrorV>(
            store,
        ),
{
    law_recovery_changes_nothing(store);
    assert(store.log + Seq::<EffectV>::empty() =~= store.log);
}

/// A run in which one step does something, and the others nothing before and
/// after it, does that.
proof fn lemma_run_one(
    disk: DiskV,
    i: int,
    p: int,
    n: int,
    step: spec_fn(DiskV, int) -> StepsV,
    effects: Seq<EffectV>,
)
    requires
        i <= p < n,
        step(disk, p) == done(effects),
        forall|c: int| i <= c < p ==> #[trigger] step(disk, c) == done(Seq::empty()),
        forall|c: int|
            p < c < n ==> #[trigger] step(disk.after_all(effects), c) == done(Seq::empty()),
    ensures
        run_steps(disk, i, n, step) == done(effects),
    decreases p - i,
{
    if i < p {
        assert(step(disk, i) == done(Seq::empty()));
        lemma_run_one(disk, i + 1, p, n, step, effects);
        assert(Seq::<EffectV>::empty() + effects =~= effects);
    } else {
        lemma_run_nothing(disk.after_all(effects), p + 1, n, step);
        assert(effects + Seq::<EffectV>::empty() =~= effects);
    }
}

/// Recovery passes over a table that is in order, on files on which its
/// directory is as it was.
proof fn lemma_passed_over(store: StoreV, disk: DiskV, i: int, h: HandleV)
    requires
        numbered(store.catalog),
        store.opened(h.name) == Ok::<HandleV, ErrorV>(h),
        0 <= i < store.catalog.tables.len(),
        store.catalog.tables[i].name != h.name,
        table_in_order(store, store.catalog.tables[i].name),
        forall|d: Seq<char>| d != h.dir ==> #[trigger] disk.dir(d) == store.disk.dir(d),
    ensures
        recover_step(store.catalog)(disk, i) == done(Seq::empty()),
{
    let name = store.catalog.tables[i].name;
    let now = StoreV { catalog: store.catalog, disk, log: Seq::empty() };
    lemma_listed_entry(store.catalog, i);
    lemma_dirs_apart(store.catalog, name, h.name);
    let dir = store.catalog.dir_of(name)->Ok_0;
    assert(disk.dir(dir) == store.disk.dir(dir));
    assert(now.opened(name) == store.opened(name));
    if let Ok(other) = store.opened(name) {
        let t = choose|t: TableV| #[trigger] represents(store, other, t);
        lemma_holds_elsewhere(store, now, other, t);
        law_recovery_leaves_sound_tables_alone(now, other, t);
    }
}

/// Opening a database after a crash in the middle of an insert, with all other
/// tables in order, gives the database from before the insert: the same index,
/// the table without the row, and every other table as it was.
pub proof fn law_opening_undoes_a_torn_insert(
    store: StoreV,
    status: StatusV,
    h: HandleV,
    t: TableV,
    row: Seq<ValueV>,
    k: int,
)
    requires
        status is Ready,
        numbered(store.catalog),
        loaded(store.catalog.root, store.disk.catalog) == Ok::<CatalogV, ErrorV>(store.catalog),
        represents(store, h, t),
        can_take(t, row),
        torn_at(store, h, t, row, k),
        forall|i: int|
            0 <= i < store.catalog.tables.len() ==> table_in_order(
                store,
                (#[trigger] store.catalog.tables[i]).name,
            ),
    ensures
        ({
            let crashed = crashed_disk(store, h, row, k);
            let opened = opened_store(store.catalog.root, status, crashed, store.log);
            &&& opened is Ok
            &&& opened->Ok_0.catalog == store.catalog
            &&& represents(opened->Ok_0, h, t)
            &&& forall|other: HandleV, u: TableV|
                other.name != h.name && represents(store, other, u) ==> #[trigger] represents(
                    opened->Ok_0,
                    other,
                    u,
                )
        }),
{
    let c = store.catalog;
    let crashed = crashed_disk(store, h, row, k);
    law_torn_insert_is_undone(store, h, t, row, k);
    let repair = reconcile_steps(c, crashed, h);
    let end = crashed.after_all(repair.1);
    assert(repair == done(repair.1));
    let step = recover_step(c);
    let p = lemma_entry_place(c, h.name);
    let now = StoreV { catalog: c, disk: crashed, log: Seq::empty() };
    assert(now.opened(h.name) == store.opened(h.name));
    assert(step(crashed, p) == repair);
    assert forall|i: int| 0 <= i < p implies #[trigger] step(crashed, i) == done(Seq::empty()) by {
        lemma_names_apart(c, i, p);
        lemma_passed_over(store, crashed, i, h);
    }
    assert forall|i: int| p < i < c.tables.len() implies #[trigger] step(end, i) == done(
        Seq::empty(),
    ) by {
        lemma_names_apart(c, p, i);
        lemma_passed_over(store, end, i, h);
    }
    lemma_run_one(crashed, 0, p, c.tables.len() as int, step, repair.1);
    let opened = opened_store(c.root, status, crashed, store.log)->Ok_0;
    assert(opened.disk == end);
    assert forall|other: HandleV, u: TableV|
        other.name != h.name && represents(store, other, u) implies #[trigger] represents(
        opened,
        other,
        u,
    ) by {
        lemma_dirs_apart(c, other.name, h.name);
        assert(opened.disk.dir(other.dir) == store.disk.dir(other.dir));
        lemma_holds_elsewhere(store, opened, other, u);
    }
}

// ---- column files with more rows than were committed ----

/// The files of the open row group hold at least its committed rows: a delete
/// bitmap with its count, and for every column a file that reads as its values
/// and maybe more behind them. A file with no more is the one that was written.
pub open spec fn overfull(
    disk: DiskV,
    dir: Seq<char>,
    t: TableV,
    group: u32,
    bits: Seq<u8>,
) -> bool {
    &&& disk.has_group(dir, group)
    &&& bits_match(t, group as int, bits)
    &&& disk.file(dir, group, FILE_NAME@) == Some(file_image(deleted_rows(bits), bits))
    &&& forall|c: int|
        #![trigger t.schema[c]]
        0 <= c < t.schema.len() ==> {
            let values = t.column(group as int, c);
            let image = encoded_column(t.schema[c].ty, values, bits);
            let file = disk.file(dir, group, col_file(t.schema[c].name));
            let read = column_of(file, column_path(dir, group, t.schema[c].name));
            &&& image is Ok
            &&& file == Some(image->Ok_0) || (read is Ok && read->Ok_0.1.len() > values.len()
                && read->Ok_0.1.take(values.len() as int) == values)
        }
}

/// The store holds the table `t` under the handle `h`, but that the columns of
/// its open row group may have rows that were not committed.
pub open spec fn nearly_represents(store: StoreV, h: HandleV, t: TableV, bits: Seq<u8>) -> bool {
    &&& store.opened(h.name) == Ok::<HandleV, ErrorV>(h)
    &&& store.described(h.name)->Ok_0.next_rid == t.rows.len()
    &&& h.schema == t.schema
    &&& h.row_group_size == t.row_group_size
    &&& t.wf()
    &&& overfull(store.disk, h.dir, t, open_group(t), bits)
    &&& forall|g: u32| g != open_group(t) ==> #[trigger] group_ok(store.disk, h.dir, t, g)
}

/// The images that recovery writes: the committed rows, where a column has more.
spec fn cut_images(disk: DiskV, dir: Seq<char>, t: TableV, bits: Seq<u8>) -> Seq<Option<Seq<u8>>> {
    let group = open_group(t);
    Seq::new(
        t.schema.len(),
        |c: int|
            {
                let image = encoded_column(t.schema[c].ty, t.column(group as int, c), bits)->Ok_0;
                if disk.file(dir, group, col_file(t.schema[c].name)) == Some(image) {
                    None
                } else {
                    Some(image)
                }
            },
    )
}

/// Where the open row group is and how many rows it holds.
proof fn lemma_open_place(t: TableV)
    requires
        t.wf(),
    ensures
        t.rows.len() <= u64::MAX,
        group_of(t.rows.len() as u64, t.row_group_size) == open_group(t),
        offset_of(t.rows.len() as u64, t.row_group_size) == t.group_len(open_group(t) as int),
        t.first(open_group(t) as int) <= t.rows.len(),
{
    let size = t.row_group_size;
    let rid = t.rows.len() as u64;
    assert(t.rows.len() <= u64::MAX && t.rows.len() < (u32::MAX + 1) * size) by (nonlinear_arith)
        requires
            t.rows.len() <= u32::MAX * size,
            0 < size <= u32::MAX,
    ;
    lemma_group_of(rid, size);
    lemma_place(rid as int, size as int);
}

/// Recovery cuts every column of the open row group back to the committed rows,
/// whatever stands behind them and however the file came to be, and leaves the
/// table with exactly those rows. The index and the other directories are not
/// touched.
pub proof fn law_recovery_cuts_back_uncommitted_rows(
    store: StoreV,
    h: HandleV,
    t: TableV,
    bits: Seq<u8>,
)
    requires
        nearly_represents(store, h, t, bits),
    ensures
        ({
            let repair = reconcile_steps(store.catalog, store.disk, h);
            let end = store.disk.after_all(repair.1);
            &&& repair.0 is None
            &&& represents(store.after(repair.1), h, t)
            &&& end.has_group(h.dir, open_group(t))
            &&& end.catalog == store.disk.catalog
            &&& forall|d: Seq<char>| d != h.dir ==> #[trigger] end.dir(d) == store.disk.dir(d)
        }),
{
    let disk = store.disk;
    let group = open_group(t);
    let n = t.group_len(group as int);
    let images = cut_images(disk, h.dir, t, bits);
    lemma_open_place(t);
    lemma_count_bound(bits, 8 * bits.len() as int, n);
    lemma_file_image_loads(deleted_rows(bits), bits, bitmap_path(h.dir, group));
    let step = reconcile_step(h, group, n, bits);
    assert forall|d: DiskV, c: int|
        0 <= c < t.schema.len() && d.has_group(h.dir, group) && d.file(
            h.dir,
            group,
            col_file(t.schema[c].name),
        ) == disk.file(h.dir, group, col_file(t.schema[c].name)) implies #[trigger] step(d, c)
        == done(one_write(h.dir, group, t.schema, images, c)) by {
        let ty = t.schema[c].ty;
        let values = t.column(group as int, c);
        let path = column_path(h.dir, group, t.schema[c].name);
        let bytes = disk.file(h.dir, group, col_file(t.schema[c].name))->0;
        let image = encoded_column(ty, values, bits)->Ok_0;
        if bytes == image {
            law_header_reads_alone(ty, values, bits, path);
        } else {
            lemma_row_count(bytes, path);
            law_truncate(bytes, path, ty, bits, n);
        }
    }
    lemma_run_is_writes(disk, disk, h.dir, group, t.schema, images, 0, step);
    lemma_writes(disk, h.dir, group, t.schema, images, 0);
    let repair = writes_from(h.dir, group, t.schema, images, 0);
    let end = disk.after_all(repair);
    let after = store.after(repair);
    assert(end.manifest(h.dir) == disk.manifest(h.dir));
    assert(after.described(h.name) == store.described(h.name));
    assert forall|g: u32| #[trigger] group_ok(end, h.dir, t, g) by {
        assert(end.has_group(h.dir, g) == disk.has_group(h.dir, g));
        if g == group {
            assert forall|c: int|
                #![trigger t.schema[c]]
                0 <= c < t.schema.len() implies {
                let image = encoded_column(t.schema[c].ty, t.column(g as int, c), bits);
                image is Ok && end.file(h.dir, g, col_file(t.schema[c].name)) == Some(image->Ok_0)
            } by {}
            assert(end.file(h.dir, g, FILE_NAME@) == disk.file(h.dir, g, FILE_NAME@));
            assert(group_holds(end, h.dir, t, g, bits));
        } else {
            assert(group_ok(disk, h.dir, t, g));
            if holds(disk, h.dir, t, g) {
                let old = choose|b: Seq<u8>| group_holds(disk, h.dir, t, g, b);
                assert forall|c: int|
                    #![trigger t.schema[c]]
                    0 <= c < t.schema.len() implies {
                    let image = encoded_column(t.schema[c].ty, t.column(g as int, c), old);
                    image is Ok && end.file(h.dir, g, col_file(t.schema[c].name)) == Some(
                        image->Ok_0,
                    )
                } by {
                    let f = col_file(t.schema[c].name);
                    assert(end.file(h.dir, g, f) == disk.file(h.dir, g, f));
                }
                assert(end.file(h.dir, g, FILE_NAME@) == disk.file(h.dir, g, FILE_NAME@));
                assert(group_holds(end, h.dir, t, g, old));
            }
        }
    }
}

/// Opening a database in which one table's open row group has rows that were not
/// committed, with all other tables in order, cuts them off: the same index, the
/// table with its committed rows, column files with exactly these, and every
/// other table as it was. The next row gets the number behind the committed ones.
pub proof fn law_opening_cuts_back_uncommitted_rows(
    store: StoreV,
    status: StatusV,
    h: HandleV,
    t: TableV,
    bits: Seq<u8>,
)
    requires
        status is Ready,
        numbered(store.catalog),
        loaded(store.catalog.root, store.disk.catalog) == Ok::<CatalogV, ErrorV>(store.catalog),
        nearly_represents(store, h, t, bits),
        forall|i: int|
            0 <= i < store.catalog.tables.len() && (#[trigger] store.catalog.tables[i]).name
                != h.name ==> table_in_order(store, store.catalog.tables[i].name),
    ensures
        ({
            let opened = opened_store(store.catalog.root, status, store.disk, store.log);
            let group = open_group(t);
            &&& opened is Ok
            &&& opened->Ok_0.catalog == store.catalog
            &&& represents(opened->Ok_0, h, t)
            &&& next_rid(opened->Ok_0, h) == t.rows.len()
            &&& forall|c: int|
                0 <= c < t.schema.len() ==> (column_at(
                    opened->Ok_0.disk,
                    h.dir,
                    group,
                    (#[trigger] t.schema[c]).name,
                ) matches Ok((_, values)) && values == t.column(group as int, c))
            &&& forall|other: HandleV, u: TableV|
                other.name != h.name && represents(store, other, u) ==> #[trigger] represents(
                    opened->Ok_0,
                    other,
                    u,
                )
        }),
{
    let c = store.catalog;
    law_recovery_cuts_back_uncommitted_rows(store, h, t, bits);
    let repair = reconcile_steps(c, store.disk, h);
    let end = store.disk.after_all(repair.1);
    assert(repair == done(repair.1));
    let step = recover_step(c);
    let p = lemma_entry_place(c, h.name);
    let now = StoreV { catalog: c, disk: store.disk, log: Seq::empty() };
    assert(now.opened(h.name) == store.opened(h.name));
    assert(step(store.disk, p) == repair);
    assert forall|i: int| 0 <= i < p implies #[trigger] step(store.disk, i) == done(
        Seq::empty(),
    ) by {
        lemma_names_apart(c, i, p);
        lemma_passed_over(store, store.disk, i, h);
    }
    assert forall|i: int| p < i < c.tables.len() implies #[trigger] step(end, i) == done(
        Seq::empty(),
    ) by {
        lemma_names_apart(c, p, i);
        lemma_passed_over(store, end, i, h);
    }
    lemma_run_one(store.disk, 0, p, c.tables.len() as int, step, repair.1);
    let opened = opened_store(c.root, status, store.disk, store.log)->Ok_0;
    assert(opened.disk == end);
    assert(represents(opened, h, t)) by {
        lemma_holds_elsewhere(store.after(repair.1), opened, h, t);
    }
    lemma_open_place(t);
    assert(group_ok(opened.disk, h.dir, t, open_group(t)));
    let found = choose|b: Seq<u8>| group_holds(opened.disk, h.dir, t, open_group(t), b);
    lemma_group_reads(opened.disk, h.dir, t, open_group(t), found);
    assert forall|other: HandleV, u: TableV|
        other.name != h.name && represents(store, other, u) implies #[trigger] represents(
        opened,
        other,
        u,
    ) by {
        lemma_dirs_apart(c, other.name, h.name);
        assert(opened.disk.dir(other.dir) == store.disk.dir(other.dir));
        lemma_holds_elsewhere(store, opened, other, u);
    }
}

// ---- column files with fewer rows than were committed ----

/// Column `c` of a row group reads, and where it has more than `expected` rows
/// its first ones can be encoded again.
pub open spec fn can_be_cut(
    disk: DiskV,
    h: HandleV,
    group: u32,
    expected: int,
    bits: Seq<u8>,
    c: int,
) -> bool {
    let read = column_at(disk, h.dir, group, h.schema[c].name);
    &&& read is Ok
    &&& read->Ok_0.1.len() > expected ==> encoded_column(
        h.schema[c].ty,
        read->Ok_0.1.take(expected),
        bits,
    ) is Ok
}

/// Column `c` of a row group has fewer than `expected` rows.
pub open spec fn falls_short(disk: DiskV, h: HandleV, group: u32, expected: int, c: int) -> bool {
    column_at(disk, h.dir, group, h.schema[c].name) matches Ok((_, values)) && values.len()
        < expected
}

/// Reconciling columns from `i` on fails where one of them falls short.
proof fn lemma_short_run(
    disk: DiskV,
    now: DiskV,
    h: HandleV,
    group: u32,
    expected: int,
    bits: Seq<u8>,
    i: int,
    c: int,
)
    requires
        0 <= i <= c < h.schema.len(),
        distinct_names(h.schema),
        agrees_from(now, disk, h.dir, group, h.schema, i),
        now.has_group(h.dir, group),
        0 <= expected,
        forall|k: int|
            0 <= k < h.schema.len() ==> #[trigger] can_be_cut(disk, h, group, expected, bits, k),
        falls_short(disk, h, group, expected, c),
    ensures
        run_steps(
            now,
            i,
            h.schema.len() as int,
            reconcile_step(h, group, expected, bits),
        ).0 matches Some(ErrorV::Corrupt(_)),
    decreases c - i,
{
    let step = reconcile_step(h, group, expected, bits);
    let column = h.schema[i];
    let path = column_path(h.dir, group, column.name);
    let bytes = disk.file(h.dir, group, col_file(column.name))->0;
    assert(can_be_cut(disk, h, group, expected, bits, i));
    assert(now.file(h.dir, group, col_file(h.schema[i].name)) == Some(bytes));
    lemma_row_count(bytes, path);
    let values = column_of(Some(bytes), path)->Ok_0.1;
    if values.len() >= expected {
        let first = step(now, i);
        let mid = now.after_all(first.1);
        if values.len() == expected {
            assert(first == done(Seq::empty()));
            assert(mid == now);
        } else {
            law_truncate(bytes, path, column.ty, bits, expected);
            let image = encoded_column(column.ty, values.take(expected), bits)->Ok_0;
            assert(first == done(
                seq![column_write(h.dir, group, column.name, image)],
            ));
            assert(first.1.drop_last() =~= Seq::<EffectV>::empty());
            reveal_with_fuel(DiskV::after_all, 2);
            lemma_after_write(now, h.dir, group, col_file(column.name), image);
            lemma_file_names(column.name, column.name);
        }
        assert forall|k: int| i + 1 <= k < h.schema.len() implies mid.file(
            h.dir,
            group,
            col_file((#[trigger] h.schema[k]).name),
        ) == disk.file(h.dir, group, col_file(h.schema[k].name)) by {
            lemma_file_names(h.schema[k].name, column.name);
            assert(h.schema[k].name != h.schema[i].name);
        }
        lemma_short_run(disk, mid, h, group, expected, bits, i + 1, c);
    }
}

/// A database in which some column of a table's open row group has fewer rows
/// than were committed does not open: the error says that it is corrupt. The
/// other columns may have more rows than that, and all other tables are in order.
pub proof fn law_opening_refuses_short_columns(
    store: StoreV,
    status: StatusV,
    h: HandleV,
    bits: Seq<u8>,
    c: int,
)
    requires
        status is Ready,
        numbered(store.catalog),
        loaded(store.catalog.root, store.disk.catalog) == Ok::<CatalogV, ErrorV>(store.catalog),
        store.opened(h.name) == Ok::<HandleV, ErrorV>(h),
        h.row_group_size > 0,
        distinct_names(h.schema),
        ({
            let rid = store.described(h.name)->Ok_0.next_rid;
            let group = group_of(rid, h.row_group_size);
            let expected = offset_of(rid, h.row_group_size);
            &&& store.disk.has_group(h.dir, group)
            &&& deletes_at(store.disk, h.dir, group) matches Ok(found) && found.1 == bits
            &&& forall|k: int|
                0 <= k < h.schema.len() ==> #[trigger] can_be_cut(
                    store.disk,
                    h,
                    group,
                    expected,
                    bits,
                    k,
                )
            &&& 0 <= c < h.schema.len()
            &&& falls_short(store.disk, h, group, expected, c)
        }),
        forall|i: int|
            0 <= i < store.catalog.tables.len() && (#[trigger] store.catalog.tables[i]).name
                != h.name ==> table_in_order(store, store.catalog.tables[i].name),
    ensures
        opened_store(store.catalog.root, status, store.disk, store.log) matches Err(
            ErrorV::Corrupt(_),
        ),
{
    let catalog = store.catalog;
    let rid = store.described(h.name)->Ok_0.next_rid;
    let group = group_of(rid, h.row_group_size);
    let expected = offset_of(rid, h.row_group_size);
    assert(expected >= 0) by (nonlinear_arith)
        requires
            expected == (rid as int) % (h.row_group_size as int),
            h.row_group_size > 0,
    ;
    lemma_short_run(store.disk, store.disk, h, group, expected, bits, 0, c);
    let step = recover_step(catalog);
    let p = lemma_entry_place(catalog, h.name);
    let now = StoreV { catalog, disk: store.disk, log: Seq::empty() };
    assert(now.opened(h.name) == store.opened(h.name));
    assert(step(store.disk, p) == reconcile_steps(catalog, store.disk, h));
    assert forall|i: int| 0 <= i < p implies #[trigger] step(store.disk, i) == done(
        Seq::empty(),
    ) by {
        lemma_names_apart(catalog, i, p);
        lemma_passed_over(store, store.disk, i, h);
    }
    lemma_run_to_failure(store.disk, 0, p, catalog.tables.len() as int, step);
}

/// A run in which one step fails, and the others before it do nothing, fails as
/// it does.
proof fn lemma_run_to_failure(
    disk: DiskV,
    i: int,
    p: int,
    n: int,
    step: spec_fn(DiskV, int) -> StepsV,
)
    requires
        i <= p < n,
        step(disk, p).0 is Some,
        forall|c: int| i <= c < p ==> #[trigger] step(disk, c) == done(Seq::empty()),
    ensures
        run_steps(disk, i, n, step).0 == step(disk, p).0,
    decreases p - i,
{
    if i < p {
        assert(step(disk, i) == done(Seq::empty()));
        lemma_run_to_failure(disk, i + 1, p, n, step);
    }
}

} // verus!
