//! What creating and dropping a table means for it and for the other tables.

use vstd::prelude::*;

use crate::catalog::files::{ManifestImageV, ManifestV};
use crate::catalog::laws::{
    law_created_table_is_listed, law_directories_differ, law_dropped_table_is_gone,
    law_written_catalog_opens_again, lemma_dirs_apart, lemma_left_after_drop, lemma_put, numbered,
};
use crate::catalog::schema::{column_error, repeats_earlier, schema_error, ColumnV};
use crate::catalog::tables::{
    chosen_size, find_entry, loaded, path_join, CatalogV, DescriptorV, TableOptions, STORAGE_TRACK,
};
use crate::disk::{lemma_after_all_concat, DiskV, EffectV};
use crate::error::ErrorV;
use crate::steps::lemma_no_failure;
use crate::storage::model::{create_effects, materialize_effects, HandleV, StoreV};
use crate::storage::table_laws::lemma_materialized;
use crate::storage::table_model::{
    confined, distinct_names, group_holds, group_ok, holds, lemma_after_manifest, represents,
    TableV,
};
use crate::text::lower_text;

verus! {

/// A table without rows.
pub open spec fn empty_table(schema: Seq<ColumnV>, row_group_size: u32) -> TableV {
    TableV { schema, row_group_size, rows: Seq::empty(), deleted: Seq::empty() }
}

/// The handle of a table that is about to be created.
pub open spec fn new_handle(
    store: StoreV,
    name: Seq<char>,
    schema: Seq<ColumnV>,
    row_group_size: u32,
) -> HandleV {
    HandleV {
        id: store.catalog.next_table_id,
        name,
        schema,
        dir: path_join(store.catalog.root, store.catalog.new_entry(name).dir),
        row_group_size,
    }
}

/// The store after a table was created.
pub open spec fn created_store(
    store: StoreV,
    name: Seq<char>,
    schema: Seq<ColumnV>,
    options: TableOptions,
) -> StoreV {
    StoreV {
        catalog: store.catalog.with_table(name),
        ..store.after(create_effects(store, name, schema, options))
    }
}

/// The store after a table was dropped.
pub open spec fn dropped_store(store: StoreV, name: Seq<char>) -> StoreV {
    StoreV {
        catalog: store.catalog.without_table(name),
        ..store.after(store.catalog.drop_effects(name))
    }
}

/// A definition without errors has a column, and no name twice.
pub proof fn lemma_sound_schema(name: Seq<char>, schema: Seq<ColumnV>)
    requires
        schema_error(name, schema) is None,
    ensures
        schema.len() > 0,
        distinct_names(schema),
{
    lemma_no_failure(0, schema.len() as int, column_error(schema));
    assert forall|i: int, j: int|
        0 <= i < schema.len() && 0 <= j < schema.len() && i != j implies (#[trigger] schema[i]).name
        != (#[trigger] schema[j]).name by {
        let (a, b) = if i < j {
            (i, j)
        } else {
            (j, i)
        };
        assert(column_error(schema)(b) is None);
        assert(!repeats_earlier(schema, b));
        assert(lower_text(schema[a].name) != lower_text(schema[b].name));
    }
}

/// The files after a table was created.
pub proof fn lemma_created_disk(
    store: StoreV,
    name: Seq<char>,
    schema: Seq<ColumnV>,
    options: TableOptions,
)
    requires
        schema_error(name, schema) is None,
        chosen_size(options) > 0,
    ensures
        ({
            let after = created_store(store, name, schema, options).disk;
            let dir = new_handle(store, name, schema, chosen_size(options)).dir;
            let t = empty_table(schema, chosen_size(options));
            &&& t.wf()
            &&& holds(after, dir, t, 0)
            &&& after.catalog == Some(store.catalog.with_table(name).file())
            &&& after.manifest(dir) == ManifestImageV::Loaded(
                store.catalog.new_manifest(name, schema, chosen_size(options)),
            )
            &&& forall|g: u32| #[trigger]
                after.has_group(dir, g) == (store.disk.has_group(dir, g) || g == 0)
            &&& forall|d: Seq<char>| d != dir ==> #[trigger] after.dir(d) == store.disk.dir(d)
        }),
{
    let size = chosen_size(options);
    let dir = new_handle(store, name, schema, size).dir;
    let t = empty_table(schema, size);
    lemma_sound_schema(name, schema);
    let manifest = store.catalog.new_manifest(name, schema, size);
    let first = EffectV::WriteManifest { dir, manifest };
    let second = EffectV::WriteCatalog(store.catalog.with_table(name).file());
    let tail = materialize_effects(dir, 0, schema, size);
    let d1 = store.disk.after(first);
    lemma_after_manifest(store.disk, dir, manifest);
    let d2 = d1.after(second);
    assert(store.disk.after_all(seq![first, second]) == d2) by {
        reveal_with_fuel(DiskV::after_all, 3);
        assert(seq![first, second].drop_last() =~= seq![first]);
        assert(seq![first].drop_last() =~= Seq::<EffectV>::empty());
    }
    lemma_after_all_concat(store.disk, seq![first, second], tail);
    lemma_materialized(d2, dir, t, 0);
    let after = d2.after_all(tail);
    assert forall|d: Seq<char>| d != dir implies #[trigger] after.dir(d) == store.disk.dir(d) by {
        assert(d1.dir(d) == store.disk.dir(d));
        assert(d2.dir(d) == d1.dir(d));
    }
    assert forall|g: u32| #[trigger]
        after.has_group(dir, g) == (store.disk.has_group(dir, g) || g == 0) by {
        assert(d1.has_group(dir, g) == store.disk.has_group(dir, g));
        assert(d2.has_group(dir, g) == d1.has_group(dir, g));
    }
    assert(d2.manifest(dir) == d1.manifest(dir));
}

/// Creating a table whose definition is sound, in a directory that holds no row
/// group but maybe the first, gives a table without rows under the next
/// identifier.
pub proof fn law_created_table_is_empty(
    store: StoreV,
    name: Seq<char>,
    schema: Seq<ColumnV>,
    options: TableOptions,
)
    requires
        numbered(store.catalog),
        store.catalog.create_error(name, schema) is None,
        chosen_size(options) > 0,
        forall|g: u32|
            g > 0 ==> !#[trigger] store.disk.has_group(
                new_handle(store, name, schema, chosen_size(options)).dir,
                g,
            ),
    ensures
        represents(
            created_store(store, name, schema, options),
            new_handle(store, name, schema, chosen_size(options)),
            empty_table(schema, chosen_size(options)),
        ),
{
    let size = chosen_size(options);
    let h = new_handle(store, name, schema, size);
    let t = empty_table(schema, size);
    let after = created_store(store, name, schema, options);
    lemma_created_disk(store, name, schema, options);
    law_created_table_is_listed(store.catalog, name, name);
    let manifest = store.catalog.new_manifest(name, schema, size);
    assert(manifest.schema() =~= schema);
    assert(after.catalog.manifest_of(after.disk, name) == Ok::<ManifestV, ErrorV>(manifest));
    assert forall|g: u32| #[trigger] group_ok(after.disk, h.dir, t, g) by {
        assert(after.disk.has_group(h.dir, g) == (store.disk.has_group(h.dir, g) || g == 0));
        assert(t.first(g as int) >= 0 && (g > 0 ==> t.first(g as int) > 0)) by (nonlinear_arith)
            requires
                t.first(g as int) == g * t.row_group_size,
                t.row_group_size > 0,
        ;
    }
}

/// Whether a table is held depends only on its index entry and its directory.
pub proof fn lemma_holds_elsewhere(before: StoreV, after: StoreV, h: HandleV, t: TableV)
    requires
        represents(before, h, t),
        after.catalog.root == before.catalog.root,
        find_entry(after.catalog.tables, h.name) == find_entry(before.catalog.tables, h.name),
        after.disk.dir(h.dir) == before.disk.dir(h.dir),
    ensures
        represents(after, h, t),
{
    assert(after.catalog.dir_of(h.name) == before.catalog.dir_of(h.name));
    assert(after.disk.manifest(h.dir) == before.disk.manifest(h.dir));
    assert(after.described(h.name) == before.described(h.name));
    assert forall|g: u32| #[trigger] group_ok(after.disk, h.dir, t, g) by {
        assert(group_ok(before.disk, h.dir, t, g));
        assert(after.disk.files(h.dir, g) == before.disk.files(h.dir, g));
        assert(after.disk.has_group(h.dir, g) == before.disk.has_group(h.dir, g));
        assert forall|bits: Seq<u8>| #[trigger]
            group_holds(before.disk, h.dir, t, g, bits) implies group_holds(
            after.disk,
            h.dir,
            t,
            g,
            bits,
        ) by {
            assert forall|c: int| #![trigger t.schema[c]] 0 <= c < t.schema.len() implies after.disk.file(
                h.dir,
                g,
                crate::storage::model::col_file(t.schema[c].name),
            ) == before.disk.file(
                h.dir,
                g,
                crate::storage::model::col_file(t.schema[c].name),
            ) by {}
        }
        if holds(before.disk, h.dir, t, g) {
            let bits = choose|bits: Seq<u8>| group_holds(before.disk, h.dir, t, g, bits);
            assert(group_holds(after.disk, h.dir, t, g, bits));
        }
    }
}

/// A change that leaves the index and the other directories alone leaves every
/// other table as it is. Inserting, updating and deleting rows are such changes.
pub proof fn law_changes_stay_in_their_table(
    store: StoreV,
    after: StoreV,
    changed: Seq<char>,
    h: HandleV,
    t: TableV,
)
    requires
        numbered(store.catalog),
        store.catalog.dir_of(changed) is Ok,
        confined(store, after, store.catalog.dir_of(changed)->Ok_0),
        represents(store, h, t),
        h.name != changed,
    ensures
        represents(after, h, t),
{
    reveal(confined);
    lemma_dirs_apart(store.catalog, h.name, changed);
    assert(h.dir == store.catalog.dir_of(h.name)->Ok_0);
    lemma_holds_elsewhere(store, after, h, t);
}

/// Creating a table leaves every other table as it is.
pub proof fn law_create_leaves_other_tables_alone(
    store: StoreV,
    name: Seq<char>,
    schema: Seq<ColumnV>,
    options: TableOptions,
    h: HandleV,
    t: TableV,
)
    requires
        numbered(store.catalog),
        store.catalog.create_error(name, schema) is None,
        chosen_size(options) > 0,
        represents(store, h, t),
    ensures
        represents(created_store(store, name, schema, options), h, t),
{
    let after = created_store(store, name, schema, options);
    lemma_created_disk(store, name, schema, options);
    law_created_table_is_listed(store.catalog, name, h.name);
    lemma_dirs_apart(store.catalog, h.name, name);
    assert(h.name != name);
    assert(h.dir == store.catalog.dir_of(h.name)->Ok_0);
    lemma_holds_elsewhere(store, after, h, t);
}

/// A dropped table is not found any more, and its files are gone.
pub proof fn law_drop_removes_the_table(store: StoreV, name: Seq<char>)
    requires
        numbered(store.catalog),
        store.catalog.dir_of(name) is Ok,
    ensures
        ({
            let after = dropped_store(store, name);
            let dir = store.catalog.dir_of(name)->Ok_0;
            &&& after.opened(name) == Err::<HandleV, ErrorV>(ErrorV::TableNotFound(name))
            &&& after.disk.manifest(dir) is Missing
            &&& forall|g: u32| !#[trigger] after.disk.has_group(dir, g)
            &&& after.disk.catalog == Some(after.catalog.file())
            &&& forall|d: Seq<char>| d != dir ==> #[trigger] after.disk.dir(d) == store.disk.dir(d)
        }),
{
    let dir = store.catalog.dir_of(name)->Ok_0;
    let after = dropped_store(store, name);
    law_dropped_table_is_gone(store.catalog, name, name);
    let first = EffectV::WriteCatalog(store.catalog.without_table(name).file());
    let second = EffectV::RemoveDir(dir);
    assert(after.disk == store.disk.after(first).after(second)) by {
        reveal_with_fuel(DiskV::after_all, 3);
        assert(seq![first, second].drop_last() =~= seq![first]);
        assert(seq![first].drop_last() =~= Seq::<EffectV>::empty());
    }
    assert forall|d: Seq<char>| d != dir implies #[trigger] after.disk.dir(d) == store.disk.dir(
        d,
    ) by {}
}

/// Dropping a table leaves every other table as it is.
pub proof fn law_drop_leaves_other_tables_alone(
    store: StoreV,
    name: Seq<char>,
    h: HandleV,
    t: TableV,
)
    requires
        numbered(store.catalog),
        store.catalog.dir_of(name) is Ok,
        represents(store, h, t),
        h.name != name,
    ensures
        represents(dropped_store(store, name), h, t),
{
    law_drop_removes_the_table(store, name);
    law_dropped_table_is_gone(store.catalog, name, h.name);
    lemma_dirs_apart(store.catalog, h.name, name);
    assert(h.dir == store.catalog.dir_of(h.name)->Ok_0);
    lemma_holds_elsewhere(store, dropped_store(store, name), h, t);
}

// ---- descriptions ----

/// A new table gets an identifier above all that are in use, is listed, and is
/// described as it was defined, with no record identifier used. Every other name
/// is described as before, or fails as before.
pub proof fn law_created_table_is_described(
    store: StoreV,
    name: Seq<char>,
    schema: Seq<ColumnV>,
    options: TableOptions,
    other: Seq<char>,
)
    requires
        numbered(store.catalog),
        store.catalog.create_error(name, schema) is None,
    ensures
        ({
            let after = created_store(store, name, schema, options);
            let h = new_handle(store, name, schema, chosen_size(options));
            &&& forall|i: int|
                0 <= i < store.catalog.tables.len() ==> (#[trigger] store.catalog.tables[i]).id
                    < h.id
            &&& find_entry(after.catalog.tables, name) == Some(store.catalog.new_entry(name))
            &&& after.described(name) == Ok::<DescriptorV, ErrorV>(
                DescriptorV {
                    id: h.id,
                    name,
                    schema,
                    row_group_size: h.row_group_size,
                    storage_track: STORAGE_TRACK@,
                    dir: h.dir,
                    next_rid: 0,
                },
            )
            &&& after.opened(name) == Ok::<HandleV, ErrorV>(h)
            &&& other != name ==> find_entry(after.catalog.tables, other) == find_entry(
                store.catalog.tables,
                other,
            ) && after.described(other) == store.described(other)
        }),
{
    let c = store.catalog;
    let all = create_effects(store, name, schema, options);
    let after = created_store(store, name, schema, options);
    let manifest = c.new_manifest(name, schema, chosen_size(options));
    assert(all.take(all.len() as int) =~= all);
    lemma_create_cut(store, name, schema, options, all.len() as int);
    law_created_table_is_listed(c, name, other);
    assert(manifest.schema() =~= schema);
    assert(after.catalog.manifest_of(after.disk, name) == Ok::<ManifestV, ErrorV>(manifest));
    if other != name && c.dir_of(other) is Ok {
        lemma_dirs_apart(c, other, name);
    }
}

/// Dropping a table leaves the description of every other name as it was.
pub proof fn law_drop_leaves_other_descriptions(store: StoreV, name: Seq<char>, other: Seq<char>)
    requires
        numbered(store.catalog),
        store.catalog.dir_of(name) is Ok,
        other != name,
    ensures
        dropped_store(store, name).described(other) == store.described(other),
{
    law_drop_removes_the_table(store, name);
    law_dropped_table_is_gone(store.catalog, name, other);
    if store.catalog.dir_of(other) is Ok {
        lemma_dirs_apart(store.catalog, other, name);
    }
}

/// A change that stays in the directory of one table leaves the description of
/// every other name as it was. Inserting, updating and deleting rows are such
/// changes.
pub proof fn law_row_changes_leave_other_descriptions(
    store: StoreV,
    after: StoreV,
    changed: Seq<char>,
    other: Seq<char>,
)
    requires
        numbered(store.catalog),
        store.catalog.dir_of(changed) is Ok,
        confined(store, after, store.catalog.dir_of(changed)->Ok_0),
        other != changed,
    ensures
        after.described(other) == store.described(other),
{
    reveal(confined);
    if store.catalog.dir_of(other) is Ok {
        lemma_dirs_apart(store.catalog, other, changed);
    }
}

// ---- crashes ----

/// Every table of the index has a manifest that can be read.
pub open spec fn backed(c: CatalogV, disk: DiskV) -> bool {
    forall|i: int|
        0 <= i < c.tables.len() ==> disk.manifest(
            path_join(c.root, (#[trigger] c.tables[i]).dir),
        ) is Loaded
}

/// Files that stay in one directory leave the index and the other directories
/// alone.
proof fn lemma_stays_in(disk: DiskV, effects: Seq<EffectV>, dir: Seq<char>)
    requires
        forall|i: int|
            0 <= i < effects.len() ==> match #[trigger] effects[i] {
                EffectV::CreateGroup { dir: d, .. } => d == dir,
                EffectV::WriteFile { dir: d, .. } => d == dir,
                _ => false,
            },
    ensures
        disk.after_all(effects).catalog == disk.catalog,
        disk.after_all(effects).manifest(dir) == disk.manifest(dir),
        forall|d: Seq<char>|
            d != dir ==> #[trigger] disk.after_all(effects).dir(d) == disk.dir(d),
    decreases effects.len(),
{
    if effects.len() > 0 {
        let front = effects.drop_last();
        assert forall|i: int| 0 <= i < front.len() implies match #[trigger] front[i] {
            EffectV::CreateGroup { dir: d, .. } => d == dir,
            EffectV::WriteFile { dir: d, .. } => d == dir,
            _ => false,
        } by {
            assert(front[i] == effects[i]);
        }
        lemma_stays_in(disk, front, dir);
        assert(effects[effects.len() - 1] == effects.last());
        assert forall|d: Seq<char>| d != dir implies #[trigger] disk.after_all(effects).dir(d)
            == disk.dir(d) by {
            assert(disk.after_all(front).dir(d) == disk.dir(d));
        }
    }
}

/// The files after the first `k` effects of creating a table.
pub proof fn lemma_create_cut(
    store: StoreV,
    name: Seq<char>,
    schema: Seq<ColumnV>,
    options: TableOptions,
    k: int,
)
    requires
        0 <= k <= create_effects(store, name, schema, options).len(),
    ensures
        ({
            let after = store.disk.after_all(create_effects(store, name, schema, options).take(k));
            let dir = path_join(store.catalog.root, store.catalog.new_entry(name).dir);
            &&& after.catalog == if k < 2 {
                store.disk.catalog
            } else {
                Some(store.catalog.with_table(name).file())
            }
            &&& k > 0 ==> after.manifest(dir) == ManifestImageV::Loaded(
                store.catalog.new_manifest(name, schema, chosen_size(options)),
            )
            &&& k < 2 ==> after.dir(dir).groups == store.disk.dir(dir).groups
            &&& forall|d: Seq<char>| d != dir ==> #[trigger] after.dir(d) == store.disk.dir(d)
        }),
{
    let size = chosen_size(options);
    let dir = path_join(store.catalog.root, store.catalog.new_entry(name).dir);
    let all = create_effects(store, name, schema, options);
    let first = EffectV::WriteManifest {
        dir,
        manifest: store.catalog.new_manifest(name, schema, size),
    };
    let second = EffectV::WriteCatalog(store.catalog.with_table(name).file());
    let tail = materialize_effects(dir, 0, schema, size);
    assert(all =~= seq![first, second] + tail);
    reveal_with_fuel(DiskV::after_all, 3);
    assert(seq![first, second].drop_last() =~= seq![first]);
    assert(seq![first].drop_last() =~= Seq::<EffectV>::empty());
    if k == 0 {
        assert(all.take(k) =~= Seq::<EffectV>::empty());
    } else if k == 1 {
        assert(all.take(k) =~= seq![first]);
    } else {
        let part = tail.take(k - 2);
        assert(all.take(k) =~= seq![first, second] + part);
        let d2 = store.disk.after(first).after(second);
        assert(store.disk.after_all(seq![first, second]) == d2);
        lemma_after_all_concat(store.disk, seq![first, second], part);
        lemma_stays_in(d2, part, dir);
        let after = store.disk.after_all(all.take(k));
        assert forall|d: Seq<char>| d != dir implies #[trigger] after.dir(d) == store.disk.dir(
            d,
        ) by {
            assert(d2.dir(d) == store.disk.dir(d));
        }
        assert(d2.manifest(dir) == ManifestImageV::Loaded(
            store.catalog.new_manifest(name, schema, size),
        ));
    }
}

/// A crash in the middle of creating a table, after any number of its effects,
/// leaves the index as it was or with the new table, never a table of the index
/// without its manifest, and the directories of all other tables as they were.
pub proof fn law_torn_create_leaves_no_dangling_table(
    store: StoreV,
    name: Seq<char>,
    schema: Seq<ColumnV>,
    options: TableOptions,
    k: int,
)
    requires
        numbered(store.catalog),
        store.catalog.next_table_id < u64::MAX,
        store.catalog.create_error(name, schema) is None,
        loaded(store.catalog.root, store.disk.catalog) == Ok::<CatalogV, ErrorV>(store.catalog),
        backed(store.catalog, store.disk),
        0 <= k <= create_effects(store, name, schema, options).len(),
    ensures
        ({
            let after = store.disk.after_all(create_effects(store, name, schema, options).take(k));
            let index = if k < 2 {
                store.catalog
            } else {
                store.catalog.with_table(name)
            };
            &&& loaded(store.catalog.root, after.catalog) == Ok::<CatalogV, ErrorV>(index)
            &&& backed(index, after)
            &&& forall|i: int|
                0 <= i < store.catalog.tables.len() ==> ({
                    let dir = path_join(
                        store.catalog.root,
                        (#[trigger] store.catalog.tables[i]).dir,
                    );
                    after.dir(dir) == store.disk.dir(dir)
                })
        }),
{
    let c = store.catalog;
    let after = store.disk.after_all(create_effects(store, name, schema, options).take(k));
    let entry = c.new_entry(name);
    let dir = path_join(c.root, entry.dir);
    lemma_create_cut(store, name, schema, options, k);
    assert forall|i: int| 0 <= i < c.tables.len() implies ({
        let d = path_join(c.root, (#[trigger] c.tables[i]).dir);
        after.dir(d) == store.disk.dir(d) && d != dir
    }) by {
        assert(c.tables[i].id < c.next_table_id);
        law_directories_differ(c.root, c.tables[i].id, c.next_table_id);
    }
    if k >= 2 {
        law_created_table_is_listed(c, name, name);
        law_written_catalog_opens_again(c.with_table(name));
        let index = c.with_table(name);
        assert forall|i: int| 0 <= i < index.tables.len() implies after.manifest(
            path_join(c.root, (#[trigger] index.tables[i]).dir),
        ) is Loaded by {
            lemma_put(c.tables, entry);
            if index.tables[i] != entry {
                let m = choose|m: int| 0 <= m < c.tables.len() && c.tables[m] == index.tables[i];
                assert(after.dir(path_join(c.root, c.tables[m].dir)) == store.disk.dir(
                    path_join(c.root, c.tables[m].dir),
                ));
            }
        }
    }
}

/// A crash in the middle of dropping a table, after any number of its effects,
/// leaves the index as it was or without the table, never a table of the index
/// without its manifest, and the directories of all other tables as they were.
pub proof fn law_torn_drop_leaves_no_dangling_table(store: StoreV, name: Seq<char>, k: int)
    requires
        numbered(store.catalog),
        store.catalog.dir_of(name) is Ok,
        loaded(store.catalog.root, store.disk.catalog) == Ok::<CatalogV, ErrorV>(store.catalog),
        backed(store.catalog, store.disk),
        0 <= k <= store.catalog.drop_effects(name).len(),
    ensures
        ({
            let after = store.disk.after_all(store.catalog.drop_effects(name).take(k));
            let index = if k == 0 {
                store.catalog
            } else {
                store.catalog.without_table(name)
            };
            &&& loaded(store.catalog.root, after.catalog) == Ok::<CatalogV, ErrorV>(index)
            &&& backed(index, after)
            &&& forall|d: Seq<char>|
                d != store.catalog.dir_of(name)->Ok_0 ==> #[trigger] after.dir(d)
                    == store.disk.dir(d)
        }),
{
    let c = store.catalog;
    let all = c.drop_effects(name);
    let dir = c.dir_of(name)->Ok_0;
    let after = store.disk.after_all(all.take(k));
    let first = EffectV::WriteCatalog(c.without_table(name).file());
    let second = EffectV::RemoveDir(dir);
    reveal_with_fuel(DiskV::after_all, 3);
    assert(seq![first, second].drop_last() =~= seq![first]);
    assert(seq![first].drop_last() =~= Seq::<EffectV>::empty());
    if k == 0 {
        assert(all.take(k) =~= Seq::<EffectV>::empty());
    } else {
        let index = c.without_table(name);
        if k == 1 {
            assert(all.take(k) =~= seq![first]);
        } else {
            assert(all.take(k) =~= seq![first, second]);
        }
        law_dropped_table_is_gone(c, name, name);
        law_written_catalog_opens_again(index);
        assert forall|i: int| 0 <= i < index.tables.len() implies after.manifest(
            path_join(c.root, (#[trigger] index.tables[i]).dir),
        ) is Loaded by {
            lemma_left_after_drop(c, name, i);
            let d = path_join(c.root, index.tables[i].dir);
            assert(after.dir(d) == store.disk.dir(d));
        }
    }
}

} // verus!
