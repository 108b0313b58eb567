//! Facts about runs of effects.

use vstd::prelude::*;

use crate::catalog::files::ManifestV;
use crate::catalog::schema::ColumnV;
use crate::catalog::tables::{CatalogV, DescriptorV};
use crate::disk::{lemma_after_all_concat, DiskV, EffectV};
use crate::error::ErrorV;
use crate::storage::model::{
    append_and_commit, append_step, bulk_steps, chunk_column_step, chunk_columns, chunk_count,
    chunk_end, chunk_step, commit_steps, delete_steps, deletes_at, group_of, insert_steps,
    materialize_effects, offset_of, reconcile_step, reconcile_steps, record_error, recover_step,
    refresh_stats, restat_step, run_steps, update_steps, HandleV, StepsV, StoreV,
};
use crate::storage::ValueV;

verus! {

/// The effects touch only the files of row groups.
pub open spec fn data_only(effects: Seq<EffectV>) -> bool {
    forall|i: int|
        0 <= i < effects.len() ==> (#[trigger] effects[i]) is WriteFile || effects[i] is CreateGroup
}

/// Such effects leave every manifest as it is.
pub proof fn lemma_data_only_keeps_manifests(disk: DiskV, effects: Seq<EffectV>)
    requires
        data_only(effects),
    ensures
        forall|dir: Seq<char>| #[trigger]
            disk.after_all(effects).manifest(dir) == disk.manifest(dir),
    decreases effects.len(),
{
    if effects.len() > 0 {
        let front = effects.drop_last();
        assert forall|i: int| 0 <= i < front.len() implies (#[trigger] front[i]) is WriteFile
            || front[i] is CreateGroup by {
            assert(front[i] == effects[i]);
        }
        lemma_data_only_keeps_manifests(disk, front);
        assert(effects[effects.len() - 1] == effects.last());
        assert forall|dir: Seq<char>| #[trigger]
            disk.after_all(effects).manifest(dir) == disk.manifest(dir) by {
            assert(disk.after_all(front).manifest(dir) == disk.manifest(dir));
        }
    }
}

/// Runs of such steps are such.
pub proof fn lemma_run_data_only(
    disk: DiskV,
    i: int,
    n: int,
    step: spec_fn(DiskV, int) -> StepsV,
)
    requires
        forall|d: DiskV, j: int| data_only((#[trigger] step(d, j)).1),
    ensures
        data_only(run_steps(disk, i, n, step).1),
    decreases n - i,
{
    if i < n {
        let first = step(disk, i);
        assert(data_only(first.1));
        if first.0 is None {
            lemma_run_data_only(disk.after_all(first.1), i + 1, n, step);
        }
    }
}

/// Deleting a record touches only the files of row groups.
pub proof fn lemma_delete_data_only(store: StoreV, h: HandleV, rid: u64)
    ensures
        data_only(delete_steps(store, h, rid).1),
{
    assert forall|disk: DiskV, group: u32| data_only(#[trigger] refresh_stats(disk, h, group).1) by {
        if let Ok((_, bits)) = deletes_at(disk, h.dir, group) {
            let step = restat_step(h, group, bits);
            assert forall|d: DiskV, j: int| data_only((#[trigger] step(d, j)).1) by {}
            lemma_run_data_only(disk, 0, h.schema.len() as int, step);
        }
    }
}

/// Deleting a record leaves what is known of every table as it is.
pub proof fn lemma_delete_keeps_descriptions(store: StoreV, h: HandleV, rid: u64, name: Seq<char>)
    ensures
        store.catalog.described(store.disk.after_all(delete_steps(store, h, rid).1), name)
            == store.described(name),
{
    let effects = delete_steps(store, h, rid).1;
    lemma_delete_data_only(store, h, rid);
    lemma_data_only_keeps_manifests(store.disk, effects);
    if let Ok(dir) = store.catalog.dir_of(name) {
        assert(store.disk.after_all(effects).manifest(dir) == store.disk.manifest(dir));
    }
}

/// Creating a row group touches only the files of row groups.
proof fn lemma_materialize_data_only(
    dir: Seq<char>,
    group: u32,
    schema: Seq<ColumnV>,
    row_group_size: u32,
)
    ensures
        data_only(materialize_effects(dir, group, schema, row_group_size)),
{
}

/// Such effects leave what is known of every table as it is.
proof fn lemma_data_only_keeps_descriptions(
    catalog: CatalogV,
    disk: DiskV,
    effects: Seq<EffectV>,
    name: Seq<char>,
)
    requires
        data_only(effects),
    ensures
        catalog.manifest_of(disk.after_all(effects), name) == catalog.manifest_of(disk, name),
        catalog.described(disk.after_all(effects), name) == catalog.described(disk, name),
{
    lemma_data_only_keeps_manifests(disk, effects);
    if let Ok(dir) = catalog.dir_of(name) {
        assert(disk.after_all(effects).manifest(dir) == disk.manifest(dir));
    }
}

/// Recording the next record identifier changes nothing else of what is known
/// of the table.
proof fn lemma_commit_advances(catalog: CatalogV, disk: DiskV, name: Seq<char>, next_rid: u64)
    requires
        catalog.described(disk, name) is Ok,
    ensures
        ({
            let effects = commit_steps(catalog, disk, name, next_rid).1;
            catalog.described(disk.after_all(effects), name) == Ok::<DescriptorV, ErrorV>(
                DescriptorV { next_rid, ..catalog.described(disk, name)->Ok_0 },
            )
        }),
{
    let effects = commit_steps(catalog, disk, name, next_rid).1;
    let m = catalog.manifest_of(disk, name)->Ok_0;
    let write = EffectV::WriteManifest {
        dir: catalog.dir_of(name)->Ok_0,
        manifest: ManifestV { next_rid, ..m },
    };
    assert(effects == seq![write]);
    assert(seq![write].drop_last() =~= Seq::<EffectV>::empty());
    reveal_with_fuel(DiskV::after_all, 2);
    assert(ManifestV { next_rid, ..m }.schema() =~= m.schema());
}

/// Inserting a record moves the next record identifier on by one at most, and
/// changes nothing else of what is known of the table.
pub proof fn lemma_insert_advances(store: StoreV, h: HandleV, record: Seq<ValueV>)
    requires
        store.described(h.name) matches Ok(d) && d.next_rid < u64::MAX,
    ensures
        ({
            let d = store.described(h.name)->Ok_0;
            let after = store.after(insert_steps(store, h, record).1).described(h.name);
            ||| after == Ok::<DescriptorV, ErrorV>(d)
            ||| after == Ok::<DescriptorV, ErrorV>(
                DescriptorV { next_rid: (d.next_rid + 1) as u64, ..d },
            )
        }),
{
    let d = store.described(h.name)->Ok_0;
    let rid = d.next_rid;
    let group = group_of(rid, h.row_group_size);
    if record_error(h.schema, record) is None {
        let opened = if offset_of(rid, h.row_group_size) == 0 && group > 0 {
            materialize_effects(h.dir, group, h.schema, h.row_group_size)
        } else {
            Seq::empty()
        };
        lemma_materialize_data_only(h.dir, group, h.schema, h.row_group_size);
        let disk1 = store.disk.after_all(opened);
        lemma_data_only_keeps_descriptions(store.catalog, store.disk, opened, h.name);
        let rest = append_and_commit(store.catalog, disk1, h, group, record, rid);
        assert(insert_steps(store, h, record).1 == opened + rest.1);
        lemma_after_all_concat(store.disk, opened, rest.1);
        if let Ok((_, bits)) = deletes_at(disk1, h.dir, group) {
            let step = append_step(h, group, bits, record);
            assert forall|d: DiskV, j: int| data_only((#[trigger] step(d, j)).1) by {}
            let run = run_steps(disk1, 0, h.schema.len() as int, step);
            lemma_run_data_only(disk1, 0, h.schema.len() as int, step);
            lemma_data_only_keeps_descriptions(store.catalog, disk1, run.1, h.name);
            if run.0 is None {
                let disk2 = disk1.after_all(run.1);
                let commit = commit_steps(store.catalog, disk2, h.name, (rid + 1) as u64);
                assert(rest.1 == run.1 + commit.1);
                lemma_after_all_concat(disk1, run.1, commit.1);
                lemma_commit_advances(store.catalog, disk2, h.name, (rid + 1) as u64);
            }
        }
    }
}

/// Updating a record moves the next record identifier on by one at most, and
/// changes nothing else of what is known of the table.
pub proof fn lemma_update_advances(store: StoreV, h: HandleV, rid: u64, record: Seq<ValueV>)
    requires
        store.described(h.name) matches Ok(d) && d.next_rid < u64::MAX,
    ensures
        ({
            let d = store.described(h.name)->Ok_0;
            let after = store.after(update_steps(store, h, rid, record).1).described(h.name);
            ||| after == Ok::<DescriptorV, ErrorV>(d)
            ||| after == Ok::<DescriptorV, ErrorV>(
                DescriptorV { next_rid: (d.next_rid + 1) as u64, ..d },
            )
        }),
{
    if record_error(h.schema, record) is None {
        let gone = delete_steps(store, h, rid);
        lemma_delete_keeps_descriptions(store, h, rid, h.name);
        if gone.0 is None {
            let disk = store.disk.after_all(gone.1);
            let middle = StoreV { catalog: store.catalog, disk, log: store.log };
            lemma_insert_advances(middle, h, record);
            let rest = insert_steps(middle, h, record);
            assert(update_steps(store, h, rid, record).1 == gone.1 + rest.1);
            lemma_after_all_concat(store.disk, gone.1, rest.1);
        }
    }
}

/// Loading records in bulk records the next record identifier behind them, and
/// changes nothing else of what is known of the table.
pub proof fn lemma_bulk_advances(store: StoreV, h: HandleV, records: Seq<Seq<ValueV>>)
    requires
        store.described(h.name) is Ok,
        bulk_steps(store, h, records).0 is None,
    ensures
        ({
            let d = store.described(h.name)->Ok_0;
            let after = store.after(bulk_steps(store, h, records).1);
            after.described(h.name) == Ok::<DescriptorV, ErrorV>(
                DescriptorV { next_rid: (d.next_rid + records.len()) as u64, ..d },
            )
        }),
{
    let d = store.described(h.name)->Ok_0;
    let size = h.row_group_size as int;
    let n = chunk_count(records.len() as int, size);
    let start = group_of(d.next_rid, h.row_group_size) as int;
    let step = chunk_step(h, start, records);
    assert forall|d: DiskV, k: int| data_only((#[trigger] step(d, k)).1) by {
        lemma_chunk_data_only(h, start, records, d, k);
    }
    let run = run_steps(store.disk, 0, n, step);
    lemma_run_data_only(store.disk, 0, n, step);
    lemma_data_only_keeps_descriptions(store.catalog, store.disk, run.1, h.name);
    let mid = store.disk.after_all(run.1);
    let next = (d.next_rid + records.len()) as u64;
    let commit = commit_steps(store.catalog, mid, h.name, next);
    lemma_after_all_concat(store.disk, run.1, commit.1);
    lemma_commit_advances(store.catalog, mid, h.name, next);
}

/// Loading a chunk touches only the files of row groups.
proof fn lemma_chunk_data_only(
    h: HandleV,
    start: int,
    records: Seq<Seq<ValueV>>,
    disk: DiskV,
    k: int,
)
    ensures
        data_only(chunk_step(h, start, records)(disk, k).1),
{
    let size = h.row_group_size as int;
    let group = (start + k) as u32;
    let from = k * size;
    let to = chunk_end(records.len() as int, from, size);
    lemma_materialize_data_only(h.dir, group, h.schema, h.row_group_size);
    let opened = if group > 0 {
        materialize_effects(h.dir, group, h.schema, h.row_group_size)
    } else {
        Seq::empty()
    };
    let after = disk.after_all(opened);
    let rest = chunk_columns(after, h, group, records, from, to);
    if let Ok((_, bits)) = deletes_at(after, h.dir, group) {
        let step = chunk_column_step(h, group, bits, records, from, to);
        assert forall|d: DiskV, c: int| data_only((#[trigger] step(d, c)).1) by {}
        lemma_run_data_only(after, 0, h.schema.len() as int, step);
    }
    assert(chunk_step(h, start, records)(disk, k).1 == opened + rest.1);
}

/// Recovering a table touches only the files of row groups.
pub proof fn lemma_recover_step_data_only(catalog: CatalogV, disk: DiskV, i: int)
    ensures
        data_only(recover_step(catalog)(disk, i).1),
{
    let store = StoreV { catalog, disk, log: Seq::empty() };
    if let Ok(h) = store.opened(catalog.tables[i].name) {
        lemma_reconcile_data_only(catalog, disk, h);
    }
}

/// Reconciling a table touches only the files of row groups.
pub proof fn lemma_reconcile_data_only(catalog: CatalogV, disk: DiskV, h: HandleV)
    ensures
        data_only(reconcile_steps(catalog, disk, h).1),
{
    if let Ok(d) = catalog.described(disk, h.name) {
        let group = group_of(d.next_rid, h.row_group_size);
        let expected = offset_of(d.next_rid, h.row_group_size);
        if let Ok((_, bits)) = deletes_at(disk, h.dir, group) {
            let step = reconcile_step(h, group, expected, bits);
            assert forall|d: DiskV, j: int| data_only((#[trigger] step(d, j)).1) by {}
            lemma_run_data_only(disk, 0, h.schema.len() as int, step);
        }
    }
}

} // verus!
