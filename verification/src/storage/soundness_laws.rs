//! What every operation keeps: a store whose index and tables are in order.

use vstd::prelude::*;

use crate::catalog::laws::{
    dir_name, law_created_table_is_listed, law_directories_differ, law_dropped_table_is_gone,
    law_identifiers_are_never_reused, law_new_catalog_is_numbered, law_written_catalog_opens_again,
    lemma_dirs_apart, lemma_entry_place, lemma_left_after_drop, lemma_listed_entry,
    lemma_numbered_after_drop, lemma_put, numbered,
};
use crate::catalog::metadata::StatusV;
use crate::catalog::schema::ColumnV;
use crate::catalog::tables::{chosen_size, find_entry, loaded, path_join, CatalogV, TableOptions};
use crate::disk::DiskV;
use crate::error::ErrorV;
use crate::storage::column_store::opened_store;
use crate::storage::definition_laws::{
    created_store, dropped_store, empty_table, law_created_table_is_empty,
    law_drop_removes_the_table, lemma_create_cut, lemma_created_disk, lemma_holds_elsewhere,
    new_handle,
};
use crate::storage::model::{create_effects, done, HandleV, StoreV};
use crate::storage::recovery_laws::{law_reopening_gives_the_store_back, table_in_order};
use crate::storage::table_model::{confined, represents, TableV};

verus! {

/// A store in order: its index is one that its own operations have made, the
/// index file records it, the files hold every table that can be read, and the
/// directories of tables still to come hold no row groups.
pub open spec fn sound(store: StoreV) -> bool {
    &&& numbered(store.catalog)
    &&& loaded(store.catalog.root, store.disk.catalog) == Ok::<CatalogV, ErrorV>(store.catalog)
    &&& forall|i: int|
        0 <= i < store.catalog.tables.len() ==> table_in_order(
            store,
            (#[trigger] store.catalog.tables[i]).name,
        )
    &&& forall|id: u64, g: u32|
        id >= store.catalog.next_table_id ==> !#[trigger] store.disk.has_group(
            path_join(store.catalog.root, dir_name(id)),
            g,
        )
}

/// A database that was just initialized opens, and is sound.
pub proof fn law_new_database_is_sound(root: Seq<char>, status: StatusV)
    requires
        status is Ready,
    ensures
        ({
            let files = DiskV { catalog: None, tables: Map::empty() };
            let opened = opened_store(root, status, files, Seq::empty());
            &&& opened is Ok
            &&& sound(opened->Ok_0)
            &&& opened->Ok_0.catalog.tables.len() == 0
        }),
{
    law_new_catalog_is_numbered(root);
    let files = DiskV { catalog: None, tables: Map::empty() };
    let catalog = loaded(root, None)->Ok_0;
    assert(crate::storage::model::recover_steps(catalog, files) == done(Seq::empty()));
}

/// A table is in order where its entry and its directory are as they were.
proof fn lemma_still_in_order(before: StoreV, after: StoreV, name: Seq<char>)
    requires
        table_in_order(before, name),
        after.catalog.root == before.catalog.root,
        before.catalog.dir_of(name) is Ok,
        find_entry(after.catalog.tables, name) == find_entry(before.catalog.tables, name),
        ({
            let dir = before.catalog.dir_of(name)->Ok_0;
            after.disk.dir(dir) == before.disk.dir(dir)
        }),
    ensures
        table_in_order(after, name),
{
    let dir = before.catalog.dir_of(name)->Ok_0;
    assert(after.disk.manifest(dir) == before.disk.manifest(dir));
    assert(after.opened(name) == before.opened(name));
    if let Ok(h) = before.opened(name) {
        let t = choose|t: TableV| #[trigger] represents(before, h, t);
        lemma_holds_elsewhere(before, after, h, t);
        assert(represents(after, h, t));
    }
}

/// Changes of rows keep a store sound: whatever touched only the directory of
/// one table, and left it a table that the files hold. Inserting, updating,
/// deleting and loading rows are such changes.
pub proof fn law_row_changes_keep_the_store_sound(
    store: StoreV,
    after: StoreV,
    h: HandleV,
    t: TableV,
)
    requires
        sound(store),
        store.opened(h.name) == Ok::<HandleV, ErrorV>(h),
        confined(store, after, h.dir),
        represents(after, h, t),
    ensures
        sound(after),
{
    reveal(confined);
    let c = store.catalog;
    assert forall|i: int| 0 <= i < c.tables.len() implies table_in_order(
        after,
        (#[trigger] c.tables[i]).name,
    ) by {
        let name = c.tables[i].name;
        assert(table_in_order(store, name));
        if name != h.name {
            lemma_listed_entry(c, i);
            lemma_dirs_apart(c, name, h.name);
            let dir = c.dir_of(name)->Ok_0;
            assert(after.disk.dir(dir) == store.disk.dir(dir));
            lemma_still_in_order(store, after, name);
        }
    }
    let p = lemma_entry_place(c, h.name);
    lemma_listed_entry(c, p);
    assert forall|id: u64, g: u32| id >= c.next_table_id implies !#[trigger] after.disk.has_group(
        path_join(c.root, dir_name(id)),
        g,
    ) by {
        let dir = path_join(c.root, dir_name(id));
        assert(c.tables[p].id < c.next_table_id);
        law_directories_differ(c.root, c.tables[p].id, id);
        assert(after.disk.dir(dir) == store.disk.dir(dir));
        assert(!store.disk.has_group(dir, g));
    }
}

/// The new table of a sound store has no rows.
proof fn lemma_created_empty(
    store: StoreV,
    name: Seq<char>,
    schema: Seq<ColumnV>,
    options: TableOptions,
)
    requires
        sound(store),
        store.catalog.next_table_id < u64::MAX,
        store.catalog.create_error(name, schema) is None,
        chosen_size(options) > 0,
    ensures
        represents(
            created_store(store, name, schema, options),
            new_handle(store, name, schema, chosen_size(options)),
            empty_table(schema, chosen_size(options)),
        ),
{
    let c = store.catalog;
    let dir = path_join(c.root, c.new_entry(name).dir);
    assert forall|g: u32| !#[trigger] store.disk.has_group(dir, g) by {
        assert(dir == path_join(c.root, dir_name(c.next_table_id)));
    }
    law_created_table_is_empty(store, name, schema, options);
}

/// After a table was created, every other table is in order.
proof fn lemma_others_in_order(
    store: StoreV,
    name: Seq<char>,
    schema: Seq<ColumnV>,
    options: TableOptions,
    m: int,
)
    requires
        sound(store),
        store.catalog.next_table_id < u64::MAX,
        store.catalog.create_error(name, schema) is None,
        chosen_size(options) > 0,
        0 <= m < store.catalog.tables.len(),
    ensures
        table_in_order(
            created_store(store, name, schema, options),
            store.catalog.tables[m].name,
        ),
{
    let c = store.catalog;
    let other = c.tables[m].name;
    let after = created_store(store, name, schema, options);
    lemma_created_disk(store, name, schema, options);
    assert(table_in_order(store, c.tables[m].name));
    lemma_listed_entry(c, m);
    law_created_table_is_listed(c, name, other);
    lemma_dirs_apart(c, other, name);
    let d = c.dir_of(other)->Ok_0;
    assert(after.disk.dir(d) == store.disk.dir(d));
    lemma_still_in_order(store, after, other);
}

/// After a table was created, the directories of tables still to come hold no
/// row groups.
proof fn lemma_room_after_create(
    store: StoreV,
    name: Seq<char>,
    schema: Seq<ColumnV>,
    options: TableOptions,
    id: u64,
    g: u32,
)
    requires
        sound(store),
        store.catalog.next_table_id < u64::MAX,
        store.catalog.create_error(name, schema) is None,
        chosen_size(options) > 0,
        id > store.catalog.next_table_id,
    ensures
        !created_store(store, name, schema, options).disk.has_group(
            path_join(store.catalog.root, dir_name(id)),
            g,
        ),
{
    let c = store.catalog;
    let after = created_store(store, name, schema, options);
    let d = path_join(c.root, dir_name(id));
    lemma_created_disk(store, name, schema, options);
    law_directories_differ(c.root, c.next_table_id, id);
    assert(after.disk.dir(d) == store.disk.dir(d));
    assert(!store.disk.has_group(d, g));
}

/// The index file after a table was created.
proof fn lemma_index_after_create(
    store: StoreV,
    name: Seq<char>,
    schema: Seq<ColumnV>,
    options: TableOptions,
)
    requires
        sound(store),
        store.catalog.next_table_id < u64::MAX,
        store.catalog.create_error(name, schema) is None,
        chosen_size(options) > 0,
    ensures
        ({
            let after = created_store(store, name, schema, options);
            &&& after.catalog == store.catalog.with_table(name)
            &&& numbered(after.catalog)
            &&& loaded(after.catalog.root, after.disk.catalog) == Ok::<CatalogV, ErrorV>(
                after.catalog,
            )
        }),
{
    lemma_created_disk(store, name, schema, options);
    law_identifiers_are_never_reused(store.catalog, name);
    law_written_catalog_opens_again(store.catalog.with_table(name));
}

/// Creating a table keeps a store sound, and the new table has no rows.
pub proof fn law_create_keeps_the_store_sound(
    store: StoreV,
    name: Seq<char>,
    schema: Seq<ColumnV>,
    options: TableOptions,
)
    requires
        sound(store),
        store.catalog.next_table_id < u64::MAX,
        store.catalog.create_error(name, schema) is None,
        chosen_size(options) > 0,
    ensures
        sound(created_store(store, name, schema, options)),
        represents(
            created_store(store, name, schema, options),
            new_handle(store, name, schema, chosen_size(options)),
            empty_table(schema, chosen_size(options)),
        ),
{
    let c = store.catalog;
    let entry = c.new_entry(name);
    let after = created_store(store, name, schema, options);
    let h = new_handle(store, name, schema, chosen_size(options));
    let t = empty_table(schema, chosen_size(options));
    lemma_created_empty(store, name, schema, options);
    lemma_index_after_create(store, name, schema, options);
    lemma_put(c.tables, entry);
    assert(table_in_order(after, name)) by {
        assert(represents(after, h, t));
    }
    assert forall|i: int| 0 <= i < after.catalog.tables.len() implies table_in_order(
        after,
        (#[trigger] after.catalog.tables[i]).name,
    ) by {
        if after.catalog.tables[i] != entry {
            let m = choose|m: int|
                0 <= m < c.tables.len() && c.tables[m] == after.catalog.tables[i];
            lemma_others_in_order(store, name, schema, options, m);
        }
    }
    assert forall|id: u64, g: u32|
        id >= after.catalog.next_table_id implies !#[trigger] after.disk.has_group(
        path_join(after.catalog.root, dir_name(id)),
        g,
    ) by {
        lemma_room_after_create(store, name, schema, options, id, g);
    }
}

/// A crash in the middle of creating a table, before the index lists it, leaves
/// a store that is sound and lists what it listed: the directory that stays
/// behind is used by the next table that is created.
pub proof fn law_unlisted_creation_leaves_a_sound_store(
    store: StoreV,
    name: Seq<char>,
    schema: Seq<ColumnV>,
    options: TableOptions,
    k: int,
)
    requires
        sound(store),
        store.catalog.create_error(name, schema) is None,
        0 <= k < 2,
    ensures
        sound(store.after(create_effects(store, name, schema, options).take(k))),
{
    let c = store.catalog;
    let effects = create_effects(store, name, schema, options).take(k);
    let after = store.after(effects);
    let dir = path_join(c.root, c.new_entry(name).dir);
    lemma_create_cut(store, name, schema, options, k);
    assert(dir == path_join(c.root, dir_name(c.next_table_id)));
    assert forall|i: int| 0 <= i < c.tables.len() implies table_in_order(
        after,
        (#[trigger] c.tables[i]).name,
    ) by {
        let other = c.tables[i].name;
        assert(table_in_order(store, other));
        lemma_listed_entry(c, i);
        lemma_dirs_apart(c, other, name);
        let d = c.dir_of(other)->Ok_0;
        assert(after.disk.dir(d) == store.disk.dir(d));
        lemma_still_in_order(store, after, other);
    }
    assert forall|id: u64, g: u32| id >= c.next_table_id implies !#[trigger] after.disk.has_group(
        path_join(c.root, dir_name(id)),
        g,
    ) by {
        let d = path_join(c.root, dir_name(id));
        assert(!store.disk.has_group(d, g));
        if d != dir {
            assert(after.disk.dir(d) == store.disk.dir(d));
        }
    }
}

/// Dropping a table keeps a store sound.
pub proof fn law_drop_keeps_the_store_sound(store: StoreV, name: Seq<char>)
    requires
        sound(store),
        store.catalog.dir_of(name) is Ok,
    ensures
        sound(dropped_store(store, name)),
{
    let c = store.catalog;
    let after = dropped_store(store, name);
    let dir = c.dir_of(name)->Ok_0;
    law_drop_removes_the_table(store, name);
    law_dropped_table_is_gone(c, name, name);
    law_written_catalog_opens_again(c.without_table(name));
    lemma_numbered_after_drop(c, name);
    assert forall|i: int| 0 <= i < after.catalog.tables.len() implies table_in_order(
        after,
        (#[trigger] after.catalog.tables[i]).name,
    ) by {
        let other = after.catalog.tables[i].name;
        lemma_left_after_drop(c, name, i);
        let m = choose|m: int| 0 <= m < c.tables.len() && c.tables[m] == after.catalog.tables[i];
        assert(table_in_order(store, c.tables[m].name));
        lemma_listed_entry(c, m);
        lemma_listed_entry(after.catalog, i);
        let d = c.dir_of(other)->Ok_0;
        assert(after.disk.dir(d) == store.disk.dir(d));
        lemma_still_in_order(store, after, other);
    }
    assert forall|id: u64, g: u32|
        id >= after.catalog.next_table_id implies !#[trigger] after.disk.has_group(
        path_join(c.root, dir_name(id)),
        g,
    ) by {
        let d = path_join(c.root, dir_name(id));
        assert(!store.disk.has_group(d, g));
        if d != dir {
            assert(after.disk.dir(d) == store.disk.dir(d));
        }
    }
}

/// What a sound store holds is there again when the database is opened the next
/// time: the same index and the same files, and nothing has to be repaired.
pub proof fn law_sound_store_opens_again(store: StoreV, status: StatusV)
    requires
        status is Ready,
        sound(store),
    ensures
        opened_store(store.catalog.root, status, store.disk, store.log) == Ok::<StoreV, ErrorV>(
            store,
        ),
{
    law_reopening_gives_the_store_back(store, status);
}

} // verus!
