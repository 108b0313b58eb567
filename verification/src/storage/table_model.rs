//! Tables as plain sequences of rows, and what it means for the files of a
//! database to hold one.

use vstd::prelude::*;

use crate::bytes::{bit_set, bytes_for_bits};
use crate::catalog::files::ManifestImageV;
use crate::catalog::schema::ColumnV;
use crate::disk::{DiskV, EffectV};
use crate::error::ErrorV;
use crate::storage::column_file::{encoded_column, encoded_values};
use crate::storage::delete_bitmap::{deleted_rows, file_image, FILE_NAME};
use crate::storage::model::{
    col_file, column_slice, column_write, done, record_error, run_steps, HandleV, StepsV, StoreV,
};
use crate::storage::ValueV;

verus! {

/// A table: its columns, all rows ever inserted in order of their identifiers,
/// and which of them are deleted.
pub struct TableV {
    pub schema: Seq<ColumnV>,
    pub row_group_size: u32,
    pub rows: Seq<Seq<ValueV>>,
    pub deleted: Seq<bool>,
}

impl TableV {
    /// The table with one more row.
    pub open spec fn insert(self, row: Seq<ValueV>) -> TableV {
        TableV { rows: self.rows.push(row), deleted: self.deleted.push(false), ..self }
    }

    /// The table with the row at `rid` deleted.
    pub open spec fn delete(self, rid: int) -> TableV {
        TableV { deleted: self.deleted.update(rid, true), ..self }
    }

    /// Whether there is a row at `rid` that is not deleted.
    pub open spec fn live(self, rid: int) -> bool {
        0 <= rid < self.rows.len() && !self.deleted[rid]
    }

    /// The live row at `rid`.
    pub open spec fn get(self, rid: int) -> Option<Seq<ValueV>> {
        if self.live(rid) {
            Some(self.rows[rid])
        } else {
            None
        }
    }

    /// The number of the first row of a group.
    pub open spec fn first(self, group: int) -> int {
        group * self.row_group_size
    }

    /// The number of rows in a group.
    pub open spec fn group_len(self, group: int) -> int {
        let left = self.rows.len() - self.first(group);
        if left < 0 {
            0
        } else if left < self.row_group_size {
            left
        } else {
            self.row_group_size as int
        }
    }

    /// The values of column `c` in a group.
    pub open spec fn column(self, group: int, c: int) -> Seq<ValueV> {
        column_slice(
            self.rows,
            self.first(group),
            self.first(group) + self.group_len(group),
            c,
        )
    }

    /// The table's own rules: there is a column, column names differ, rows fit
    /// the schema, and the row groups can be numbered.
    pub open spec fn wf(self) -> bool {
        &&& self.row_group_size > 0
        &&& self.schema.len() > 0
        &&& self.deleted.len() == self.rows.len()
        &&& self.rows.len() <= u32::MAX * self.row_group_size
        &&& forall|r: int|
            0 <= r < self.rows.len() ==> record_error(self.schema, #[trigger] self.rows[r]) is None
        &&& distinct_names(self.schema)
    }
}

/// No two columns share a name.
pub open spec fn distinct_names(schema: Seq<ColumnV>) -> bool {
    forall|i: int, j: int|
        0 <= i < schema.len() && 0 <= j < schema.len() && i != j ==> (#[trigger] schema[i]).name
            != (#[trigger] schema[j]).name
}

/// A bitmap says of a group's rows which are deleted.
pub open spec fn bits_match(t: TableV, group: int, bits: Seq<u8>) -> bool {
    &&& bits.len() == bytes_for_bits(t.row_group_size as int)
    &&& forall|i: int| #[trigger]
        bit_set(bits, i) == (0 <= i < t.group_len(group) && t.deleted[t.first(group) + i])
}

/// A group's files hold its rows: a delete bitmap with its count, and every
/// column encoded with the statistics of the rows that the bitmap leaves live.
pub open spec fn group_holds(
    disk: DiskV,
    dir: Seq<char>,
    t: TableV,
    group: u32,
    bits: Seq<u8>,
) -> bool {
    &&& disk.has_group(dir, group)
    &&& bits_match(t, group as int, bits)
    &&& disk.file(dir, group, FILE_NAME@) == Some(file_image(deleted_rows(bits), bits))
    &&& forall|c: int|
        #![trigger t.schema[c]]
        0 <= c < t.schema.len() ==> {
            let image = encoded_column(t.schema[c].ty, t.column(group as int, c), bits);
            image is Ok && disk.file(dir, group, col_file(t.schema[c].name)) == Some(image->Ok_0)
        }
}

/// Some bitmap makes the group hold its rows.
pub open spec fn holds(disk: DiskV, dir: Seq<char>, t: TableV, group: u32) -> bool {
    exists|bits: Seq<u8>| #[trigger] group_holds(disk, dir, t, group, bits)
}

/// A group is as it should be: one that has rows is there and holds them, as
/// does the first group; the group behind the last full one may be there
/// already, without rows; and no group past that is.
pub open spec fn group_ok(disk: DiskV, dir: Seq<char>, t: TableV, group: u32) -> bool {
    let first = t.first(group as int);
    &&& group == 0 || first < t.rows.len() ==> holds(disk, dir, t, group)
    &&& first == t.rows.len() && disk.has_group(dir, group) ==> holds(disk, dir, t, group)
    &&& first > t.rows.len() ==> !disk.has_group(dir, group)
}

/// The files below `dir` hold the table.
pub open spec fn dir_holds(disk: DiskV, dir: Seq<char>, t: TableV) -> bool {
    &&& t.wf()
    &&& forall|group: u32| #[trigger] group_ok(disk, dir, t, group)
}

/// The store holds the table `t` under the handle `h`: the handle is current,
/// the manifest counts the rows, and the files hold them.
pub open spec fn represents(store: StoreV, h: HandleV, t: TableV) -> bool {
    &&& store.opened(h.name) == Ok::<HandleV, ErrorV>(h)
    &&& store.described(h.name)->Ok_0.next_rid == t.rows.len()
    &&& h.schema == t.schema
    &&& h.row_group_size == t.row_group_size
    &&& dir_holds(store.disk, h.dir, t)
}

/// A change stays in one directory: the index, its file and every other
/// directory are as they were.
#[verifier::opaque]
pub open spec fn confined(before: StoreV, after: StoreV, dir: Seq<char>) -> bool {
    &&& after.catalog == before.catalog
    &&& after.disk.catalog == before.disk.catalog
    &&& forall|d: Seq<char>| d != dir ==> #[trigger] after.disk.dir(d) == before.disk.dir(d)
}

/// Two confined changes in a row are confined.
pub proof fn lemma_confined(a: StoreV, b: StoreV, c: StoreV, dir: Seq<char>)
    requires
        confined(a, b, dir),
        confined(b, c, dir),
    ensures
        confined(a, c, dir),
{
    reveal(confined);
    assert forall|d: Seq<char>| d != dir implies #[trigger] c.disk.dir(d) == a.disk.dir(d) by {
        assert(b.disk.dir(d) == a.disk.dir(d));
    }
}

/// A row can be added to a table: it fits the schema, the columns of its row
/// group can be encoded with it, and there is a number left for it.
pub open spec fn can_take(t: TableV, row: Seq<ValueV>) -> bool {
    let group = t.rows.len() as int / t.row_group_size as int;
    &&& record_error(t.schema, row) is None
    &&& t.rows.len() < u32::MAX * t.row_group_size
    &&& forall|c: int|
        0 <= c < t.schema.len() ==> encoded_values(
            t.schema[c].ty,
            #[trigger] t.column(group, c).push(row[c]),
        ) is Ok
}

// ---- files after effects ----

/// Two files of a group, or of two groups, are the same file.
pub open spec fn same_file(
    dir: Seq<char>,
    group: u32,
    file: Seq<char>,
    dir2: Seq<char>,
    group2: u32,
    file2: Seq<char>,
) -> bool {
    dir == dir2 && group == group2 && file == file2
}

/// After the write of a file, that file has the new bytes and every other is as
/// it was.
pub proof fn lemma_after_write(
    disk: DiskV,
    dir: Seq<char>,
    group: u32,
    file: Seq<char>,
    bytes: Seq<u8>,
)
    ensures
        ({
            let after = disk.after(EffectV::WriteFile { dir, group, file, bytes });
            &&& after.catalog == disk.catalog
            &&& forall|d: Seq<char>| #[trigger] after.manifest(d) == disk.manifest(d)
            &&& forall|d: Seq<char>, g: u32| #[trigger]
                after.has_group(d, g) == (disk.has_group(d, g) || (d == dir && g == group))
            &&& forall|d: Seq<char>, g: u32, f: Seq<char>| #[trigger]
                after.file(d, g, f) == if same_file(d, g, f, dir, group, file) {
                    Some(bytes)
                } else {
                    disk.file(d, g, f)
                }
            &&& forall|d: Seq<char>| d != dir ==> #[trigger] after.dir(d) == disk.dir(d)
        }),
{
    let effect = EffectV::WriteFile { dir, group, file, bytes };
    let after = disk.after(effect);
    assert forall|d: Seq<char>, g: u32, f: Seq<char>| #[trigger]
        after.file(d, g, f) == if same_file(d, g, f, dir, group, file) {
            Some(bytes)
        } else {
            disk.file(d, g, f)
        } by {
        if d == dir {
            assert(after.dir(d).groups == disk.dir(dir).groups.insert(
                group,
                disk.files(dir, group).insert(file, bytes),
            ));
            if g == group {
                assert(after.files(d, g) == disk.files(dir, group).insert(file, bytes));
            } else {
                assert(after.files(d, g) == disk.files(d, g));
            }
        } else {
            assert(after.dir(d) == disk.dir(d));
        }
    }
    assert forall|d: Seq<char>, g: u32| #[trigger]
        after.has_group(d, g) == (disk.has_group(d, g) || (d == dir && g == group)) by {}
}

/// After the creation of a row group it is there, and every file is as it was.
pub proof fn lemma_after_create(disk: DiskV, dir: Seq<char>, group: u32)
    ensures
        ({
            let after = disk.after(EffectV::CreateGroup { dir, group });
            &&& after.catalog == disk.catalog
            &&& forall|d: Seq<char>| #[trigger] after.manifest(d) == disk.manifest(d)
            &&& forall|d: Seq<char>, g: u32| #[trigger]
                after.has_group(d, g) == (disk.has_group(d, g) || (d == dir && g == group))
            &&& forall|d: Seq<char>, g: u32, f: Seq<char>| #[trigger]
                after.file(d, g, f) == disk.file(d, g, f)
            &&& forall|d: Seq<char>| d != dir ==> #[trigger] after.dir(d) == disk.dir(d)
        }),
{
    let after = disk.after(EffectV::CreateGroup { dir, group });
    assert forall|d: Seq<char>, g: u32, f: Seq<char>| #[trigger]
        after.file(d, g, f) == disk.file(d, g, f) by {
        if d == dir {
            assert(after.dir(d).groups == disk.dir(dir).groups.insert(
                group,
                disk.files(dir, group),
            ));
            assert(after.files(d, g) =~= disk.files(d, g));
        } else {
            assert(after.dir(d) == disk.dir(d));
        }
    }
}

/// After the write of a manifest it is the new one, and every row group is as
/// it was.
pub proof fn lemma_after_manifest(
    disk: DiskV,
    dir: Seq<char>,
    manifest: crate::catalog::files::ManifestV,
)
    ensures
        ({
            let after = disk.after(EffectV::WriteManifest { dir, manifest });
            &&& after.catalog == disk.catalog
            &&& after.manifest(dir) == ManifestImageV::Loaded(manifest)
            &&& forall|d: Seq<char>|
                d != dir ==> #[trigger] after.manifest(d) == disk.manifest(d)
            &&& forall|d: Seq<char>, g: u32| #[trigger]
                after.has_group(d, g) == disk.has_group(d, g)
            &&& forall|d: Seq<char>, g: u32, f: Seq<char>| #[trigger]
                after.file(d, g, f) == disk.file(d, g, f)
            &&& forall|d: Seq<char>| d != dir ==> #[trigger] after.dir(d) == disk.dir(d)
        }),
{
    let after = disk.after(EffectV::WriteManifest { dir, manifest });
    assert forall|d: Seq<char>, g: u32, f: Seq<char>| #[trigger]
        after.file(d, g, f) == disk.file(d, g, f) by {
        assert(after.dir(d).groups == disk.dir(d).groups);
        assert(after.files(d, g) == disk.files(d, g));
    }
}

/// A column's file is never the delete bitmap, and two columns have two files.
pub proof fn lemma_file_names(a: Seq<char>, b: Seq<char>)
    ensures
        col_file(a) != FILE_NAME@,
        col_file(a) == col_file(b) ==> a == b,
{
    reveal_strlit(".col");
    reveal_strlit("deletes.bm");
    let x = col_file(a);
    let n = x.len() as int;
    assert(x[n - 1] == 'l');
    assert(FILE_NAME@.last() == 'm');
    if col_file(a) == col_file(b) {
        assert(a =~= x.take(n - 4));
        assert(b =~= col_file(b).take(n - 4));
    }
}

// ---- runs of column writes ----

/// The write of one column's new image, if it has one.
pub open spec fn one_write(
    dir: Seq<char>,
    group: u32,
    schema: Seq<ColumnV>,
    images: Seq<Option<Seq<u8>>>,
    i: int,
) -> Seq<EffectV> {
    match images[i] {
        None => Seq::empty(),
        Some(bytes) => seq![column_write(dir, group, schema[i].name, bytes)],
    }
}

/// The writes of the columns from `i` on.
pub open spec fn writes_from(
    dir: Seq<char>,
    group: u32,
    schema: Seq<ColumnV>,
    images: Seq<Option<Seq<u8>>>,
    i: int,
) -> Seq<EffectV>
    decreases schema.len() - i,
{
    if i >= schema.len() {
        Seq::empty()
    } else {
        one_write(dir, group, schema, images, i) + writes_from(dir, group, schema, images, i + 1)
    }
}

/// Before the writes from `i` on, the columns from `i` on have the files that
/// they have in `disk`, and the delete bitmap too.
pub open spec fn agrees_from(
    now: DiskV,
    disk: DiskV,
    dir: Seq<char>,
    group: u32,
    schema: Seq<ColumnV>,
    i: int,
) -> bool {
    &&& now.file(dir, group, FILE_NAME@) == disk.file(dir, group, FILE_NAME@)
    &&& forall|c: int|
        i <= c < schema.len() ==> now.file(dir, group, col_file((#[trigger] schema[c]).name))
            == disk.file(dir, group, col_file(schema[c].name))
}

/// The effect of the writes from `i` on: the columns that have new images get
/// them, and nothing else changes but that the group is there.
pub proof fn lemma_writes(
    disk: DiskV,
    dir: Seq<char>,
    group: u32,
    schema: Seq<ColumnV>,
    images: Seq<Option<Seq<u8>>>,
    i: int,
)
    requires
        0 <= i <= schema.len(),
        images.len() == schema.len(),
        distinct_names(schema),
        disk.has_group(dir, group),
    ensures
        ({
            let after = disk.after_all(writes_from(dir, group, schema, images, i));
            &&& after.catalog == disk.catalog
            &&& forall|d: Seq<char>| #[trigger] after.manifest(d) == disk.manifest(d)
            &&& forall|d: Seq<char>, g: u32| #[trigger]
                after.has_group(d, g) == disk.has_group(d, g)
            &&& forall|d: Seq<char>| d != dir ==> #[trigger] after.dir(d) == disk.dir(d)
            &&& forall|d: Seq<char>, g: u32, f: Seq<char>|
                d != dir || g != group || f == FILE_NAME@ ==> #[trigger] after.file(d, g, f)
                    == disk.file(d, g, f)
            &&& forall|c: int|
                0 <= c < schema.len() ==> after.file(
                    dir,
                    group,
                    col_file((#[trigger] schema[c]).name),
                ) == if c >= i && images[c] is Some {
                    images[c]
                } else {
                    disk.file(dir, group, col_file(schema[c].name))
                }
        }),
    decreases schema.len() - i,
{
    let all = writes_from(dir, group, schema, images, i);
    if i < schema.len() {
        let first = one_write(dir, group, schema, images, i);
        let rest = writes_from(dir, group, schema, images, i + 1);
        let mid = disk.after_all(first);
        crate::disk::lemma_after_all_concat(disk, first, rest);
        match images[i] {
            None => {
                assert(mid == disk);
            },
            Some(bytes) => {
                assert(first.drop_last() =~= Seq::<EffectV>::empty());
                reveal_with_fuel(DiskV::after_all, 2);
                lemma_after_write(disk, dir, group, col_file(schema[i].name), bytes);
                lemma_file_names(schema[i].name, schema[i].name);
            },
        }
        lemma_writes(mid, dir, group, schema, images, i + 1);
        let after = disk.after_all(all);
        assert(after == mid.after_all(rest));
        assert forall|c: int| 0 <= c < schema.len() implies after.file(
            dir,
            group,
            col_file((#[trigger] schema[c]).name),
        ) == if c >= i && images[c] is Some {
            images[c]
        } else {
            disk.file(dir, group, col_file(schema[c].name))
        } by {
            lemma_file_names(schema[c].name, schema[i].name);
            if c != i {
                assert(schema[c].name != schema[i].name);
            }
        }
        assert forall|d: Seq<char>, g: u32, f: Seq<char>|
            d != dir || g != group || f == FILE_NAME@ implies #[trigger] after.file(d, g, f)
            == disk.file(d, g, f) by {
            assert(mid.file(d, g, f) == disk.file(d, g, f));
        }
        assert forall|d: Seq<char>, g: u32| #[trigger]
            after.has_group(d, g) == disk.has_group(d, g) by {
            assert(mid.has_group(d, g) == disk.has_group(d, g));
        }
        assert forall|d: Seq<char>| #[trigger] after.manifest(d) == disk.manifest(d) by {
            assert(mid.manifest(d) == disk.manifest(d));
        }
        assert forall|d: Seq<char>| d != dir implies #[trigger] after.dir(d) == disk.dir(d) by {
            assert(mid.dir(d) == disk.dir(d));
        }
    }
}

/// A run of steps of which each writes its column's image, given only that its
/// column and the bitmap are as they were at the start, is the run of writes.
pub proof fn lemma_run_is_writes(
    disk: DiskV,
    now: DiskV,
    dir: Seq<char>,
    group: u32,
    schema: Seq<ColumnV>,
    images: Seq<Option<Seq<u8>>>,
    i: int,
    step: spec_fn(DiskV, int) -> StepsV,
)
    requires
        0 <= i <= schema.len(),
        images.len() == schema.len(),
        distinct_names(schema),
        disk.has_group(dir, group),
        now.has_group(dir, group),
        agrees_from(now, disk, dir, group, schema, i),
        forall|d: DiskV, c: int|
            i <= c < schema.len() && d.has_group(dir, group) && d.file(
                dir,
                group,
                col_file(schema[c].name),
            ) == disk.file(dir, group, col_file(schema[c].name)) ==> #[trigger] step(d, c) == done(
                one_write(dir, group, schema, images, c),
            ),
    ensures
        run_steps(now, i, schema.len() as int, step) == done(
            writes_from(dir, group, schema, images, i),
        ),
    decreases schema.len() - i,
{
    if i < schema.len() {
        let first = one_write(dir, group, schema, images, i);
        assert(now.file(dir, group, col_file(schema[i].name)) == disk.file(
            dir,
            group,
            col_file(schema[i].name),
        ));
        assert(step(now, i) == done(first));
        let mid = now.after_all(first);
        match images[i] {
            None => {
                assert(mid == now);
            },
            Some(bytes) => {
                assert(first.drop_last() =~= Seq::<EffectV>::empty());
                reveal_with_fuel(DiskV::after_all, 2);
                lemma_after_write(now, dir, group, col_file(schema[i].name), bytes);
                lemma_file_names(schema[i].name, schema[i].name);
            },
        }
        assert forall|c: int| i + 1 <= c < schema.len() implies mid.file(
            dir,
            group,
            col_file((#[trigger] schema[c]).name),
        ) == disk.file(dir, group, col_file(schema[c].name)) by {
            lemma_file_names(schema[c].name, schema[i].name);
            assert(schema[c].name != schema[i].name);
        }
        assert(mid.has_group(dir, group));
        lemma_run_is_writes(disk, mid, dir, group, schema, images, i + 1, step);
    }
}

} // verus!
