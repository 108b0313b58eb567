//! Taking back a table that could not be created in full: which effects undo a
//! creation that failed halfway, and what they leave.

use vstd::prelude::*;

use crate::catalog::files::{entries_view, CatalogFile, CatalogFileV, EntryV};
use crate::catalog::schema::ColumnV;
use crate::catalog::tables::{
    chosen_size, drop_entry, find_entry, find_index, lemma_drop_entry_at, path_join, put_entry,
    CatalogV, TableOptions,
};
use crate::disk::{effects_view, lemma_after_all_concat, DiskV, Effect, EffectV};
use crate::storage::model::{create_effects, materialize_effects, StoreV};
use crate::text::same;

verus! {

/// Creating a table starts at effect `i`: a manifest without rows, the index,
/// and the first row group of the same directory.
pub open spec fn starts_creation(log: Seq<EffectV>, i: int) -> bool {
    &&& 0 <= i
    &&& i + 2 < log.len()
    &&& log[i] matches EffectV::WriteManifest { dir, manifest }
    &&& manifest.next_rid == 0
    &&& log[i + 1] is WriteCatalog
    &&& log[i + 2] == EffectV::CreateGroup { dir, group: 0 }
}

/// The last creation that starts at or before effect `i`.
pub open spec fn last_creation(log: Seq<EffectV>, i: int) -> Option<int>
    decreases i + 1,
{
    if i < 0 {
        None
    } else if starts_creation(log, i) {
        Some(i)
    } else {
        last_creation(log, i - 1)
    }
}

/// An index file without the table `name`.
pub open spec fn unlisted(file: CatalogFileV, name: Seq<char>) -> CatalogFileV {
    CatalogFileV { tables: drop_entry(file.tables, name), ..file }
}

/// What takes back a half-created table, when the effects before `failed` were
/// carried out and `failed` was not. A table that the index does not list yet
/// loses its directory; one that it lists is taken out of the index first. A
/// manifest that could not be written leaves nothing to take back, and other
/// changes stay as far as they went.
pub open spec fn withdrawn(log: Seq<EffectV>, failed: int) -> Seq<EffectV> {
    match last_creation(log, failed - 1) {
        None => Seq::empty(),
        Some(i) => match (log[i], log[i + 1]) {
            (
                EffectV::WriteManifest { dir, manifest },
                EffectV::WriteCatalog(file),
            ) => if failed == i + 1 {
                seq![EffectV::RemoveDir(dir)]
            } else if failed < i + 4 + manifest.columns.len() {
                seq![
                    EffectV::WriteCatalog(unlisted(file, manifest.name)),
                    EffectV::RemoveDir(dir),
                ]
            } else {
                Seq::empty()
            },
            _ => Seq::empty(),
        },
    }
}

/// Whether creating a table starts at effect `i`.
fn is_creation(log: &Vec<Effect>, i: usize) -> (r: bool)
    ensures
        r == starts_creation(effects_view(log@), i as int),
{
    if i >= log.len() || log.len() - i <= 2 {
        return false;
    }
    let ghost all = effects_view(log@);
    assert(all[i as int] == log@[i as int]@);
    assert(all[i + 1] == log@[i + 1]@);
    assert(all[i + 2] == log@[i + 2]@);
    match (&log[i], &log[i + 1], &log[i + 2]) {
        (
            Effect::WriteManifest { dir, manifest },
            Effect::WriteCatalog(_),
            Effect::CreateGroup { dir: below, group },
        ) => manifest.next_rid == 0 && *group == 0 && same(dir.as_str(), below.as_str()),
        _ => false,
    }
}

/// An index file without the table `name`.
fn unlist(file: &CatalogFile, name: &str) -> (r: CatalogFile)
    ensures
        r@ == unlisted(file@, name@),
{
    let mut r = file.clone();
    let ghost all = entries_view(file.tables@);
    match find_index(&r.tables, name) {
        None => {
            proof {
                lemma_drop_absent(all, name@);
            }
        },
        Some(i) => {
            let ghost before = r.tables@;
            proof {
                assert forall|j: int| 0 <= j < i implies (#[trigger] all[j]).name != name@ by {
                    assert(all[j] == before[j]@);
                }
                assert(all[i as int] == before[i as int]@);
                lemma_drop_entry_at(all, i as int, name@);
            }
            r.tables.remove(i);
            assert(entries_view(r.tables@) =~= all.remove(i as int));
        },
    }
    r
}

/// The effects that take back a half-created table, when those of `log` before
/// `failed` were carried out and `failed` was not: see [`withdrawn`].
pub fn withdrawal(log: &Vec<Effect>, failed: usize) -> (r: Vec<Effect>)
    ensures
        effects_view(r@) == withdrawn(effects_view(log@), failed as int),
{
    let ghost all = effects_view(log@);
    let mut r: Vec<Effect> = Vec::new();
    let mut left: usize = failed;
    while left > 0 && !is_creation(log, left - 1)
        invariant
            left <= failed,
            all == effects_view(log@),
            last_creation(all, failed - 1) == last_creation(all, left - 1),
        decreases left,
    {
        left = left - 1;
    }
    if left == 0 {
        assert(effects_view(r@) =~= Seq::<EffectV>::empty());
        return r;
    }
    let i: usize = left - 1;
    assert(starts_creation(all, i as int));
    assert(all[i as int] == log@[i as int]@);
    assert(all[i + 1] == log@[i + 1]@);
    if let (Effect::WriteManifest { dir, manifest }, Effect::WriteCatalog(file)) = (
        &log[i],
        &log[i + 1],
    ) {
        if failed - i == 1 {
            r.push(Effect::RemoveDir(dir.clone()));
            assert(effects_view(r@) =~= seq![EffectV::RemoveDir(dir@)]);
        } else if failed - i < 4 || failed - i - 4 < manifest.columns.len() {
            r.push(Effect::WriteCatalog(unlist(file, manifest.name.as_str())));
            r.push(Effect::RemoveDir(dir.clone()));
            assert(effects_view(r@) =~= seq![
                EffectV::WriteCatalog(unlisted(file@, manifest.name@)),
                EffectV::RemoveDir(dir@),
            ]);
        } else {
            assert(effects_view(r@) =~= Seq::<EffectV>::empty());
        }
    }
    r
}

// ---- laws ----

/// Dropping a table that is not listed changes nothing.
proof fn lemma_drop_absent(tables: Seq<EntryV>, name: Seq<char>)
    requires
        find_entry(tables, name) is None,
    ensures
        drop_entry(tables, name) == tables,
    decreases tables.len(),
{
    if tables.len() > 0 {
        lemma_drop_absent(tables.skip(1), name);
        assert(seq![tables[0]] + tables.skip(1) =~= tables);
    }
}

/// Dropping a table right after it was put in gives the old list back.
proof fn lemma_drop_undoes_put(tables: Seq<EntryV>, entry: EntryV)
    requires
        find_entry(tables, entry.name) is None,
    ensures
        drop_entry(put_entry(tables, entry), entry.name) == tables,
    decreases tables.len(),
{
    let more = put_entry(tables, entry);
    if tables.len() == 0 {
        assert(more.skip(1) =~= tables);
    } else if more[0] == entry {
        assert(more.skip(1) =~= tables);
    } else {
        lemma_drop_undoes_put(tables.skip(1), entry);
        assert(more.skip(1) =~= put_entry(tables.skip(1), entry));
        assert(seq![tables[0]] + tables.skip(1) =~= tables);
    }
}

/// Where no creation starts, none is the last.
proof fn lemma_no_creation(log: Seq<EffectV>, i: int)
    requires
        forall|j: int| 0 <= j <= i ==> !#[trigger] starts_creation(log, j),
    ensures
        last_creation(log, i) is None,
    decreases i + 1,
{
    if i >= 0 {
        lemma_no_creation(log, i - 1);
    }
}

/// The last creation is the one behind which none starts.
proof fn lemma_last_creation(log: Seq<EffectV>, start: int, i: int)
    requires
        0 <= start <= i,
        starts_creation(log, start),
        forall|j: int| start < j <= i ==> !#[trigger] starts_creation(log, j),
    ensures
        last_creation(log, i) == Some(start),
    decreases i,
{
    if i > start {
        lemma_last_creation(log, start, i - 1);
    }
}

/// An effect in the directory `dir`.
spec fn within(effect: EffectV, dir: Seq<char>) -> bool {
    match effect {
        EffectV::WriteManifest { dir: d, .. } => d == dir,
        EffectV::CreateGroup { dir: d, .. } => d == dir,
        EffectV::WriteFile { dir: d, .. } => d == dir,
        _ => false,
    }
}

/// Effects in one directory, and removing it, leave the others and the index.
proof fn lemma_removed_again(disk: DiskV, effects: Seq<EffectV>, dir: Seq<char>)
    requires
        forall|i: int| 0 <= i < effects.len() ==> within(#[trigger] effects[i], dir),
    ensures
        disk.after_all(effects).catalog == disk.catalog,
        disk.after_all(effects).tables.remove(dir) == disk.tables.remove(dir),
    decreases effects.len(),
{
    if effects.len() > 0 {
        let front = effects.drop_last();
        assert forall|i: int| 0 <= i < front.len() implies within(#[trigger] front[i], dir) by {
            assert(front[i] == effects[i]);
        }
        lemma_removed_again(disk, front, dir);
        let mid = disk.after_all(front);
        assert(within(effects[effects.len() - 1], dir));
        assert(mid.after(effects.last()).tables.remove(dir) =~= mid.tables.remove(dir));
    }
}

/// The effects of creating a table, in three parts.
proof fn lemma_creation_parts(
    store: StoreV,
    name: Seq<char>,
    schema: Seq<ColumnV>,
    options: TableOptions,
)
    ensures
        ({
            let all = create_effects(store, name, schema, options);
            let dir = path_join(store.catalog.root, store.catalog.new_entry(name).dir);
            &&& all.len() == schema.len() + 4
            &&& all[0] == EffectV::WriteManifest {
                dir,
                manifest: store.catalog.new_manifest(name, schema, chosen_size(options)),
            }
            &&& all[1] == EffectV::WriteCatalog(store.catalog.with_table(name).file())
            &&& all[2] == EffectV::CreateGroup { dir, group: 0 }
            &&& forall|i: int| 2 <= i < all.len() ==> within(#[trigger] all[i], dir)
            &&& forall|i: int| 2 <= i < all.len() ==> !(#[trigger] all[i] is WriteManifest)
        }),
{
    let dir = path_join(store.catalog.root, store.catalog.new_entry(name).dir);
    let tail = materialize_effects(dir, 0, schema, chosen_size(options));
    let all = create_effects(store, name, schema, options);
    assert forall|i: int| 2 <= i < all.len() implies within(#[trigger] all[i], dir) && !(
    all[i] is WriteManifest) by {
        assert(all[i] == tail[i - 2]);
    }
}

/// A table whose creation failed at any effect is taken back: the index lists
/// what it listed, and the files of the database are what they were before, but
/// that a directory which already stood in the table's place is gone too. Once
/// the index had the table, its identifier stays used up. What the log holds
/// behind the creation makes no difference.
pub proof fn law_withdrawal_undoes_a_creation(
    store: StoreV,
    name: Seq<char>,
    schema: Seq<ColumnV>,
    options: TableOptions,
    later: Seq<EffectV>,
    failed: int,
)
    requires
        store.catalog.create_error(name, schema) is None,
        0 <= failed < create_effects(store, name, schema, options).len(),
    ensures
        ({
            let log = create_effects(store, name, schema, options) + later;
            let after = store.disk.after_all(log.take(failed)).after_all(withdrawn(log, failed));
            let dir = path_join(store.catalog.root, store.catalog.new_entry(name).dir);
            &&& after.tables == if failed == 0 {
                store.disk.tables
            } else {
                store.disk.tables.remove(dir)
            }
            &&& !store.disk.tables.contains_key(dir) ==> after.tables == store.disk.tables
            &&& after.catalog == if failed < 2 {
                store.disk.catalog
            } else {
                Some(
                    CatalogV {
                        next_table_id: (store.catalog.next_table_id + 1) as u64,
                        ..store.catalog
                    }.file(),
                )
            }
        }),
{
    let all = create_effects(store, name, schema, options);
    let log = all + later;
    let dir = path_join(store.catalog.root, store.catalog.new_entry(name).dir);
    let back = withdrawn(log, failed);
    let disk = store.disk;
    lemma_creation_parts(store, name, schema, options);
    reveal_with_fuel(DiskV::after_all, 3);
    assert(!disk.tables.contains_key(dir) ==> disk.tables.remove(dir) =~= disk.tables);
    if failed == 0 {
        assert(log.take(0) =~= Seq::<EffectV>::empty());
        assert(last_creation(log, -1) is None);
    } else {
        assert(log[0] == all[0] && log[1] == all[1] && log[2] == all[2]);
        assert(starts_creation(log, 0));
        assert forall|j: int| 0 < j <= failed - 1 implies !#[trigger] starts_creation(log, j) by {
            assert(log[j] == all[j]);
        }
        lemma_last_creation(log, 0, failed - 1);
        if failed == 1 {
            assert(log.take(1) =~= seq![all[0]]);
            lemma_removed_again(disk, seq![all[0]], dir);
            assert(back =~= seq![EffectV::RemoveDir(dir)]);
            assert(back.drop_last() =~= Seq::<EffectV>::empty());
        } else {
            let c = store.catalog;
            let first = seq![all[0]];
            let second = seq![all[1]];
            let rest = all.subrange(2, failed);
            assert(log.take(failed) =~= (first + second) + rest);
            lemma_after_all_concat(disk, first + second, rest);
            lemma_after_all_concat(disk, first, second);
            assert(first.drop_last() =~= Seq::<EffectV>::empty());
            assert(second.drop_last() =~= Seq::<EffectV>::empty());
            lemma_removed_again(disk, first, dir);
            let listed = disk.after_all(first + second);
            assert(listed.tables == disk.after_all(first).tables);
            assert forall|i: int| 0 <= i < rest.len() implies within(#[trigger] rest[i], dir) by {
                assert(rest[i] == all[i + 2]);
            }
            lemma_removed_again(listed, rest, dir);
            lemma_drop_undoes_put(c.tables, c.new_entry(name));
            let file = unlisted(c.with_table(name).file(), name);
            assert(back =~= seq![EffectV::WriteCatalog(file), EffectV::RemoveDir(dir)]);
            assert(back.drop_last() =~= seq![EffectV::WriteCatalog(file)]);
            assert(back.drop_last().drop_last() =~= Seq::<EffectV>::empty());
        }
    }
}

/// A table that was created in full stays, whatever fails behind it, as long as
/// that creates no other.
pub proof fn law_finished_creation_stays(
    store: StoreV,
    name: Seq<char>,
    schema: Seq<ColumnV>,
    options: TableOptions,
    later: Seq<EffectV>,
    failed: int,
)
    requires
        create_effects(store, name, schema, options).len() <= failed,
        forall|i: int| 0 <= i < later.len() ==> !(#[trigger] later[i] is WriteCatalog),
    ensures
        withdrawn(create_effects(store, name, schema, options) + later, failed) == Seq::<
            EffectV,
        >::empty(),
{
    let all = create_effects(store, name, schema, options);
    let log = all + later;
    lemma_creation_parts(store, name, schema, options);
    assert(log[0] == all[0] && log[1] == all[1] && log[2] == all[2]);
    assert(starts_creation(log, 0));
    assert forall|j: int| 0 < j <= failed - 1 implies !#[trigger] starts_creation(log, j) by {
        if j + 2 < log.len() {
            if j < all.len() {
                assert(log[j] == all[j]);
            } else {
                assert(log[j + 1] == later[j + 1 - all.len()]);
            }
        }
    }
    lemma_last_creation(log, 0, failed - 1);
}

/// Changes to rows, which leave the index alone, are never taken back.
pub proof fn law_row_changes_stay(log: Seq<EffectV>, failed: int)
    requires
        forall|i: int| 0 <= i < log.len() ==> !(#[trigger] log[i] is WriteCatalog),
    ensures
        withdrawn(log, failed) == Seq::<EffectV>::empty(),
{
    assert forall|j: int| 0 <= j <= failed - 1 implies !#[trigger] starts_creation(log, j) by {
        if j + 2 < log.len() {
            assert(!(log[j + 1] is WriteCatalog));
        }
    }
    lemma_no_creation(log, failed - 1);
}

/// Dropping a table is never taken back: where the index could not be written
/// nothing has changed, and behind it the table is gone.
pub proof fn law_drops_stay(c: CatalogV, name: Seq<char>, failed: int)
    ensures
        withdrawn(c.drop_effects(name), failed) == Seq::<EffectV>::empty(),
{
    let log = c.drop_effects(name);
    assert forall|j: int| 0 <= j <= failed - 1 implies !#[trigger] starts_creation(log, j) by {}
    lemma_no_creation(log, failed - 1);
}

} // verus!
