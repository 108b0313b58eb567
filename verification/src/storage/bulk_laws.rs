//! What a bulk load means for the table that it works on.

use vstd::prelude::*;

use crate::bytes::{bit_set, bytes_for_bits, zero_bytes};
use crate::catalog::files::ManifestV;
use crate::catalog::schema::ColumnV;
use crate::disk::{lemma_after_all_concat, DiskV, EffectV};
use crate::error::ErrorV;
use crate::steps::{first_failure, lemma_no_failure};
use crate::storage::column_file::{encoded_column, encoded_values};
use crate::storage::delete_bitmap::{deleted_rows, file_image, FILE_NAME};
use crate::storage::model::{
    bulk_record_error, bulk_steps, chunk_column_step, chunk_columns, chunk_count, chunk_end,
    chunk_step, col_file, get_of, column_slice, commit_steps, done, group_of, materialize_effects,
    record_error, run_steps, HandleV, StoreV,
};
use crate::storage::table_laws::{
    law_get, lemma_described_after, lemma_group_bound, lemma_group_of, lemma_group_reads,
    lemma_groups_apart, lemma_materialized, lemma_place,
};
use crate::storage::table_model::{
    bits_match, confined, dir_holds, group_holds, group_ok, holds, lemma_after_manifest,
    lemma_run_is_writes, lemma_writes, one_write, represents, writes_from, TableV,
};
use crate::storage::ValueV;

verus! {

/// The table with the first `n` of the records behind its rows.
pub open spec fn with_records(t: TableV, records: Seq<Seq<ValueV>>, n: int) -> TableV {
    TableV {
        rows: t.rows + records.take(n),
        deleted: t.deleted + Seq::new(n as nat, |i: int| false),
        ..t
    }
}

/// Column `c` of chunk `k` can be encoded.
pub open spec fn chunk_fits(
    schema: Seq<ColumnV>,
    records: Seq<Seq<ValueV>>,
    size: int,
    k: int,
    c: int,
) -> bool {
    encoded_values(
        schema[c].ty,
        column_slice(records, k * size, chunk_end(records.len() as int, k * size, size), c),
    ) is Ok
}

/// Records can be loaded into a table in bulk: each fits the schema, the table
/// ends with a full row group, the columns of each new row group can be encoded,
/// and there are numbers left for them.
pub open spec fn can_load(t: TableV, records: Seq<Seq<ValueV>>) -> bool {
    let size = t.row_group_size as int;
    &&& t.rows.len() as int % size == 0
    &&& t.rows.len() + records.len() <= u32::MAX * size
    &&& forall|i: int|
        0 <= i < records.len() ==> record_error(t.schema, #[trigger] records[i]) is None
    &&& forall|k: int, c: int|
        0 <= k < chunk_count(records.len() as int, size) && 0 <= c < t.schema.len()
            ==> #[trigger] chunk_fits(t.schema, records, size, k, c)
}

/// Where chunk `k` starts, or the end of the records.
spec fn chunk_start(n: int, size: int, k: int) -> int {
    if k * size < n {
        k * size
    } else {
        n
    }
}

/// Every chunk starts before the end of the records, and the next one starts
/// where it ends.
proof fn lemma_chunk(n: int, size: int, k: int)
    requires
        0 < size,
        0 <= n,
        0 <= k < chunk_count(n, size),
    ensures
        0 <= k * size < n,
        chunk_start(n, size, k) == k * size,
        chunk_end(n, k * size, size) == chunk_start(n, size, k + 1),
        k * size < chunk_end(n, k * size, size) <= k * size + size,
{
    assert(0 <= k * size < n && (k + 1) * size == k * size + size) by (nonlinear_arith)
        requires
            0 < size,
            0 <= n,
            0 <= k < (n + size - 1) / size,
    ;
}

/// Behind the last chunk nothing is left.
proof fn lemma_chunks_end(n: int, size: int)
    requires
        0 < size,
        0 <= n,
    ensures
        chunk_start(n, size, chunk_count(n, size)) == n,
        chunk_start(n, size, 0) == 0,
        0 <= chunk_count(n, size),
{
    let count = chunk_count(n, size);
    assert(count * size >= n && 0 <= count && 0 * size == 0) by (nonlinear_arith)
        requires
            0 < size,
            0 <= n,
            count == (n + size - 1) / size,
    ;
}

/// A table with records behind it follows its own rules.
proof fn lemma_with_records_wf(t: TableV, records: Seq<Seq<ValueV>>, n: int)
    requires
        t.wf(),
        can_load(t, records),
        0 <= n <= records.len(),
    ensures
        with_records(t, records, n).wf(),
{
    let u = with_records(t, records, n);
    assert forall|r: int| 0 <= r < u.rows.len() implies record_error(
        u.schema,
        #[trigger] u.rows[r],
    ) is None by {
        if r < t.rows.len() {
            assert(u.rows[r] == t.rows[r]);
        } else {
            assert(u.rows[r] == records[r - t.rows.len()]);
        }
    }
}

/// The place of chunk `k`: a row group of its own behind the rows so far.
proof fn lemma_chunk_place(t: TableV, records: Seq<Seq<ValueV>>, k: int)
    requires
        t.wf(),
        can_load(t, records),
        0 <= k < chunk_count(records.len() as int, t.row_group_size as int),
    ensures
        ({
            let size = t.row_group_size as int;
            let n = records.len() as int;
            let from = k * size;
            let to = chunk_end(n, from, size);
            let group = t.rows.len() as int / size + k;
            let u = with_records(t, records, from);
            let v = with_records(t, records, to);
            &&& 0 <= group < u32::MAX
            &&& u.first(group) == t.rows.len() + from
            &&& u.group_len(group) == 0
            &&& v.group_len(group) == to - from
            &&& forall|c: int| #[trigger] v.column(group, c) == column_slice(records, from, to, c)
        }),
{
    let size = t.row_group_size as int;
    let n = records.len() as int;
    let from = k * size;
    let to = chunk_end(n, from, size);
    let start = t.rows.len() as int / size;
    let group = start + k;
    let v = with_records(t, records, to);
    lemma_chunk(n, size, k);
    lemma_place(t.rows.len() as int, size);
    assert((start + k) * size == start * size + k * size) by (nonlinear_arith);
    lemma_group_bound(t.rows.len() + from, size, u32::MAX as int);
    assert((t.rows.len() + from) / size == group) by (nonlinear_arith)
        requires
            t.rows.len() + from == group * size,
            size > 0,
    ;
    assert forall|c: int| #[trigger] v.column(group, c) == column_slice(records, from, to, c) by {
        let a = v.column(group, c);
        let b = column_slice(records, from, to, c);
        assert forall|j: int| 0 <= j < a.len() implies a[j] == b[j] by {
            assert(v.rows[t.rows.len() + from + j] == records.take(to)[from + j]);
        }
        assert(a =~= b);
    }
}

/// Column `c` of a chunk can be encoded.
proof fn lemma_chunk_encodable(
    t: TableV,
    records: Seq<Seq<ValueV>>,
    k: int,
    c: int,
    bits: Seq<u8>,
)
    requires
        t.wf(),
        can_load(t, records),
        0 <= k < chunk_count(records.len() as int, t.row_group_size as int),
        0 <= c < t.schema.len(),
    ensures
        ({
            let size = t.row_group_size as int;
            let from = k * size;
            let to = chunk_end(records.len() as int, from, size);
            encoded_column(t.schema[c].ty, column_slice(records, from, to, c), bits) is Ok
        }),
{
    let size = t.row_group_size as int;
    let from = k * size;
    let to = chunk_end(records.len() as int, from, size);
    let values = column_slice(records, from, to, c);
    lemma_chunk(records.len() as int, size, k);
    assert(chunk_fits(t.schema, records, size, k, c));
}

/// The images of the columns of a chunk.
spec fn chunk_images(
    schema: Seq<ColumnV>,
    records: Seq<Seq<ValueV>>,
    from: int,
    to: int,
    bits: Seq<u8>,
) -> Seq<Option<Seq<u8>>> {
    Seq::new(
        schema.len(),
        |c: int|
            Some(encoded_column(schema[c].ty, column_slice(records, from, to, c), bits)->Ok_0),
    )
}

/// Two disks that agree outside the directory `dir`, on the index and on the
/// manifests.
spec fn same_around(a: DiskV, b: DiskV, dir: Seq<char>) -> bool {
    &&& a.catalog == b.catalog
    &&& forall|d: Seq<char>| #[trigger] a.manifest(d) == b.manifest(d)
    &&& forall|d: Seq<char>| d != dir ==> #[trigger] a.dir(d) == b.dir(d)
}

/// The group of the next chunk, once it is there.
spec fn chunk_opened(h: HandleV, group: u32) -> Seq<EffectV> {
    if group > 0 {
        materialize_effects(h.dir, group, h.schema, h.row_group_size)
    } else {
        Seq::empty()
    }
}

/// Opening the group of a chunk: it is there without rows, and nothing else
/// changed.
proof fn lemma_chunk_opened(disk: DiskV, h: HandleV, u: TableV, group: u32) -> (bits: Seq<u8>)
    requires
        dir_holds(disk, h.dir, u),
        h.schema == u.schema,
        h.row_group_size == u.row_group_size,
        u.group_len(group as int) == 0,
        group == 0 ==> u.rows.len() == 0,
    ensures
        ({
            let after = disk.after_all(chunk_opened(h, group));
            &&& group_holds(after, h.dir, u, group, bits)
            &&& same_around(after, disk, h.dir)
            &&& forall|g: u32| #[trigger]
                after.has_group(h.dir, g) == (disk.has_group(h.dir, g) || g == group)
            &&& forall|g: u32, f: Seq<char>|
                g != group ==> #[trigger] after.file(h.dir, g, f) == disk.file(h.dir, g, f)
        }),
{
    if group > 0 {
        lemma_materialized(disk, h.dir, u, group);
        zero_bytes(bytes_for_bits(u.row_group_size as int))
    } else {
        assert(group_ok(disk, h.dir, u, group));
        choose|bits: Seq<u8>| group_holds(disk, h.dir, u, group, bits)
    }
}

/// What the files are once chunk `k` was loaded into its group, with `bits` as
/// the group's delete bitmap: the group's columns have the chunk's images, and
/// the other groups are as they were.
spec fn chunk_written(
    disk: DiskV,
    after: DiskV,
    h: HandleV,
    t: TableV,
    records: Seq<Seq<ValueV>>,
    k: int,
    bits: Seq<u8>,
) -> bool {
    let size = t.row_group_size as int;
    let from = k * size;
    let to = chunk_end(records.len() as int, from, size);
    let group = (t.rows.len() as int / size + k) as u32;
    &&& bits_match(with_records(t, records, from), group as int, bits)
    &&& after.file(h.dir, group, FILE_NAME@) == Some(file_image(deleted_rows(bits), bits))
    &&& forall|c: int|
        #![trigger t.schema[c]]
        0 <= c < t.schema.len() ==> after.file(h.dir, group, col_file(t.schema[c].name)) == Some(
            encoded_column(t.schema[c].ty, column_slice(records, from, to, c), bits)->Ok_0,
        )
    &&& forall|g: u32| #[trigger]
        after.has_group(h.dir, g) == (disk.has_group(h.dir, g) || g == group)
    &&& forall|g: u32, f: Seq<char>|
        g != group ==> #[trigger] after.file(h.dir, g, f) == disk.file(h.dir, g, f)
}

/// The writes of one chunk.
proof fn lemma_chunk_written(
    disk: DiskV,
    h: HandleV,
    t: TableV,
    records: Seq<Seq<ValueV>>,
    k: int,
) -> (bits: Seq<u8>)
    requires
        t.wf(),
        can_load(t, records),
        0 <= k < chunk_count(records.len() as int, t.row_group_size as int),
        h.schema == t.schema,
        h.row_group_size == t.row_group_size,
        dir_holds(disk, h.dir, with_records(t, records, k * t.row_group_size)),
    ensures
        ({
            let size = t.row_group_size as int;
            let steps = chunk_step(h, t.rows.len() as int / size, records)(disk, k);
            let after = disk.after_all(steps.1);
            &&& steps.0 is None
            &&& same_around(after, disk, h.dir)
            &&& chunk_written(disk, after, h, t, records, k, bits)
        }),
{
    let size = t.row_group_size as int;
    let n = records.len() as int;
    let from = k * size;
    let to = chunk_end(n, from, size);
    let group = (t.rows.len() as int / size + k) as u32;
    let u = with_records(t, records, from);
    lemma_chunk(n, size, k);
    lemma_chunk_place(t, records, k);
    if group == 0 {
        assert(u.first(0) == 0);
    }
    let bits = lemma_chunk_opened(disk, h, u, group);
    let opened = disk.after_all(chunk_opened(h, group));
    lemma_group_reads(opened, h.dir, u, group, bits);
    let images = chunk_images(t.schema, records, from, to, bits);
    let step = chunk_column_step(h, group, bits, records, from, to);
    assert forall|d: DiskV, c: int|
        0 <= c < t.schema.len() && d.has_group(h.dir, group) && d.file(
            h.dir,
            group,
            col_file(t.schema[c].name),
        ) == opened.file(h.dir, group, col_file(t.schema[c].name)) implies #[trigger] step(d, c)
        == done(one_write(h.dir, group, t.schema, images, c)) by {
        lemma_chunk_encodable(t, records, k, c, bits);
    }
    lemma_run_is_writes(opened, opened, h.dir, group, t.schema, images, 0, step);
    let writes = writes_from(h.dir, group, t.schema, images, 0);
    assert(chunk_columns(opened, h, group, records, from, to) == done(writes));
    lemma_writes(opened, h.dir, group, t.schema, images, 0);
    let after = opened.after_all(writes);
    lemma_after_all_concat(disk, chunk_opened(h, group), writes);
    assert forall|d: Seq<char>| #[trigger] after.manifest(d) == disk.manifest(d) by {
        assert(opened.manifest(d) == disk.manifest(d));
    }
    assert forall|d: Seq<char>| d != h.dir implies #[trigger] after.dir(d) == disk.dir(d) by {
        assert(opened.dir(d) == disk.dir(d));
    }
    assert forall|g: u32| #[trigger]
        after.has_group(h.dir, g) == (disk.has_group(h.dir, g) || g == group) by {
        assert(after.has_group(h.dir, g) == opened.has_group(h.dir, g));
    }
    assert forall|g: u32, f: Seq<char>| g != group implies #[trigger] after.file(h.dir, g, f)
        == disk.file(h.dir, g, f) by {
        assert(after.file(h.dir, g, f) == opened.file(h.dir, g, f));
    }
    assert forall|c: int|
        #![trigger t.schema[c]]
        0 <= c < t.schema.len() implies after.file(h.dir, group, col_file(t.schema[c].name)) == Some(
        encoded_column(t.schema[c].ty, column_slice(records, from, to, c), bits)->Ok_0,
    ) by {
        assert(images[c] is Some);
    }
    bits
}

/// The bitmap and the columns of a full group before the chunk's are those of
/// the table with the chunk too.
proof fn lemma_earlier_group(t: TableV, records: Seq<Seq<ValueV>>, from: int, to: int, g: int)
    requires
        t.wf(),
        0 <= from <= to <= records.len(),
        0 <= g,
        t.first(g) + t.row_group_size <= t.rows.len() + from,
    ensures
        ({
            let u = with_records(t, records, from);
            let v = with_records(t, records, to);
            &&& forall|bits: Seq<u8>| bits_match(u, g, bits) ==> #[trigger] bits_match(v, g, bits)
            &&& forall|c: int| #[trigger] v.column(g, c) == u.column(g, c)
        }),
{
    let u = with_records(t, records, from);
    let v = with_records(t, records, to);
    let size = t.row_group_size as int;
    assert(t.first(g) >= 0) by (nonlinear_arith)
        requires
            t.first(g) == g * t.row_group_size,
            g >= 0,
            t.row_group_size > 0,
    ;
    assert(u.group_len(g) == size && v.group_len(g) == size);
    assert forall|r: int| 0 <= r < t.rows.len() + from implies #[trigger] u.rows[r] == v.rows[r]
        && u.deleted[r] == v.deleted[r] by {
        if r >= t.rows.len() {
            assert(u.rows[r] == records[r - t.rows.len()]);
            assert(v.rows[r] == records[r - t.rows.len()]);
        }
    }
    assert forall|c: int| #[trigger] v.column(g, c) == u.column(g, c) by {
        let x = u.column(g, c);
        let y = v.column(g, c);
        assert forall|j: int| 0 <= j < size implies x[j] == y[j] by {
            assert(u.rows[t.first(g) + j] == v.rows[t.first(g) + j]);
        }
        assert(x =~= y);
    }
    assert forall|bits: Seq<u8>| bits_match(u, g, bits) implies #[trigger] bits_match(
        v,
        g,
        bits,
    ) by {
        assert forall|i: int| #[trigger]
            bit_set(bits, i) == (0 <= i < v.group_len(g) && v.deleted[v.first(g) + i]) by {
            assert(bit_set(bits, i) == (0 <= i < u.group_len(g) && u.deleted[u.first(g) + i]));
            if 0 <= i < size {
                assert(u.rows[t.first(g) + i] == v.rows[t.first(g) + i]);
            }
        }
    }
}

/// Once a chunk is loaded, every group is as it should be for the table with
/// the chunk.
proof fn lemma_chunk_group(
    disk: DiskV,
    after: DiskV,
    h: HandleV,
    t: TableV,
    records: Seq<Seq<ValueV>>,
    k: int,
    bits: Seq<u8>,
    g: u32,
)
    requires
        t.wf(),
        can_load(t, records),
        0 <= k < chunk_count(records.len() as int, t.row_group_size as int),
        dir_holds(disk, h.dir, with_records(t, records, k * t.row_group_size)),
        chunk_written(disk, after, h, t, records, k, bits),
    ensures
        group_ok(
            after,
            h.dir,
            with_records(
                t,
                records,
                chunk_end(
                    records.len() as int,
                    k * t.row_group_size,
                    t.row_group_size as int,
                ),
            ),
            g,
        ),
{
    let size = t.row_group_size as int;
    let n = records.len() as int;
    let from = k * size;
    let to = chunk_end(n, from, size);
    let group = (t.rows.len() as int / size + k) as u32;
    let u = with_records(t, records, from);
    let v = with_records(t, records, to);
    lemma_chunk(n, size, k);
    lemma_chunk_place(t, records, k);
    assert(group_ok(disk, h.dir, u, g));
    assert(after.has_group(h.dir, g) == (disk.has_group(h.dir, g) || g == group));
    if g == group {
        assert forall|i: int| #[trigger]
            bit_set(bits, i) == (0 <= i < v.group_len(g as int) && v.deleted[v.first(g as int)
                + i]) by {
            assert(bit_set(bits, i) == (0 <= i < u.group_len(g as int) && u.deleted[u.first(
                g as int,
            ) + i]));
            if 0 <= i < to - from {
                assert(!v.deleted[t.rows.len() + from + i]);
            }
        }
        assert forall|c: int|
            #![trigger v.schema[c]]
            0 <= c < v.schema.len() implies {
            let image = encoded_column(v.schema[c].ty, v.column(g as int, c), bits);
            image is Ok && after.file(h.dir, g, col_file(v.schema[c].name)) == Some(image->Ok_0)
        } by {
            lemma_chunk_encodable(t, records, k, c, bits);
            assert(v.column(g as int, c) == column_slice(records, from, to, c));
            assert(t.schema[c] == v.schema[c]);
        }
        assert(group_holds(after, h.dir, v, g, bits));
    } else if g < group {
        lemma_groups_apart(g as int, group as int, size);
        lemma_earlier_group(t, records, from, to, g as int);
        assert(holds(disk, h.dir, u, g));
        let b = choose|b: Seq<u8>| group_holds(disk, h.dir, u, g, b);
        assert(bits_match(v, g as int, b));
        assert forall|c: int|
            #![trigger v.schema[c]]
            0 <= c < v.schema.len() implies {
            let image = encoded_column(v.schema[c].ty, v.column(g as int, c), b);
            image is Ok && after.file(h.dir, g, col_file(v.schema[c].name)) == Some(image->Ok_0)
        } by {
            assert(u.schema[c] == v.schema[c]);
            assert(v.column(g as int, c) == u.column(g as int, c));
        }
        assert(group_holds(after, h.dir, v, g, b));
    } else {
        lemma_groups_apart(group as int, g as int, size);
        assert(!disk.has_group(h.dir, g));
    }
}

/// Loading one chunk: the files then hold the table with its records.
proof fn lemma_chunk_loaded(
    disk: DiskV,
    h: HandleV,
    t: TableV,
    records: Seq<Seq<ValueV>>,
    k: int,
)
    requires
        t.wf(),
        can_load(t, records),
        0 <= k < chunk_count(records.len() as int, t.row_group_size as int),
        h.schema == t.schema,
        h.row_group_size == t.row_group_size,
        dir_holds(disk, h.dir, with_records(t, records, k * t.row_group_size)),
    ensures
        ({
            let size = t.row_group_size as int;
            let steps = chunk_step(h, t.rows.len() as int / size, records)(disk, k);
            let after = disk.after_all(steps.1);
            let to = chunk_end(records.len() as int, k * size, size);
            &&& steps.0 is None
            &&& same_around(after, disk, h.dir)
            &&& dir_holds(after, h.dir, with_records(t, records, to))
        }),
{
    let size = t.row_group_size as int;
    let to = chunk_end(records.len() as int, k * size, size);
    let v = with_records(t, records, to);
    lemma_chunk(records.len() as int, size, k);
    lemma_with_records_wf(t, records, to);
    let bits = lemma_chunk_written(disk, h, t, records, k);
    let after = disk.after_all(chunk_step(h, t.rows.len() as int / size, records)(disk, k).1);
    assert forall|g: u32| #[trigger] group_ok(after, h.dir, v, g) by {
        lemma_chunk_group(disk, after, h, t, records, k, bits, g);
    }
}

/// Loading the chunks from `k` on.
proof fn lemma_chunks_loaded(
    disk: DiskV,
    h: HandleV,
    t: TableV,
    records: Seq<Seq<ValueV>>,
    k: int,
)
    requires
        t.wf(),
        can_load(t, records),
        0 <= k <= chunk_count(records.len() as int, t.row_group_size as int),
        h.schema == t.schema,
        h.row_group_size == t.row_group_size,
        dir_holds(
            disk,
            h.dir,
            with_records(
                t,
                records,
                chunk_start(records.len() as int, t.row_group_size as int, k),
            ),
        ),
    ensures
        ({
            let size = t.row_group_size as int;
            let n = records.len() as int;
            let steps = run_steps(
                disk,
                k,
                chunk_count(n, size),
                chunk_step(h, t.rows.len() as int / size, records),
            );
            let after = disk.after_all(steps.1);
            &&& steps.0 is None
            &&& same_around(after, disk, h.dir)
            &&& dir_holds(after, h.dir, with_records(t, records, n))
        }),
    decreases chunk_count(records.len() as int, t.row_group_size as int) - k,
{
    let size = t.row_group_size as int;
    let n = records.len() as int;
    lemma_chunks_end(n, size);
    if k < chunk_count(n, size) {
        let step = chunk_step(h, t.rows.len() as int / size, records);
        lemma_chunk(n, size, k);
        lemma_chunk_loaded(disk, h, t, records, k);
        let first = step(disk, k);
        let mid = disk.after_all(first.1);
        lemma_chunks_loaded(mid, h, t, records, k + 1);
        let rest = run_steps(mid, k + 1, chunk_count(n, size), step);
        lemma_after_all_concat(disk, first.1, rest.1);
        let after = mid.after_all(rest.1);
        assert forall|d: Seq<char>| #[trigger] after.manifest(d) == disk.manifest(d) by {
            assert(mid.manifest(d) == disk.manifest(d));
        }
        assert forall|d: Seq<char>| d != h.dir implies #[trigger] after.dir(d) == disk.dir(d) by {
            assert(mid.dir(d) == disk.dir(d));
        }
    }
}

/// A bulk load that starts in the middle of a row group, or that holds a record
/// that does not fit the table, fails and changes nothing.
pub proof fn law_refused_bulk_load_changes_nothing(
    store: StoreV,
    h: HandleV,
    t: TableV,
    records: Seq<Seq<ValueV>>,
)
    requires
        represents(store, h, t),
        t.rows.len() as int % t.row_group_size as int != 0 || exists|i: int|
            0 <= i < records.len() && record_error(t.schema, #[trigger] records[i]) is Some,
    ensures
        bulk_steps(store, h, records).0 is Some,
        bulk_steps(store, h, records).1 == Seq::<EffectV>::empty(),
{
    let bad = bulk_record_error(h.schema, records);
    let n = records.len() as int;
    lemma_no_failure(0, n, bad);
    if first_failure(0, n, bad) is None {
        assert forall|i: int| 0 <= i < n implies record_error(
            t.schema,
            #[trigger] records[i],
        ) is None by {
            assert(bad(i) is None);
        }
        let size = t.row_group_size as int;
        assert(t.rows.len() <= u64::MAX && t.rows.len() < (u32::MAX + 1) * size) by (
        nonlinear_arith)
            requires
                t.rows.len() <= u32::MAX * size,
                0 < size <= u32::MAX,
        ;
        lemma_group_of(t.rows.len() as u64, t.row_group_size);
    }
}

/// Loading records in bulk that fit succeeds, and the store then holds the
/// table with all of them, in order, behind its rows: as if they had been
/// inserted one by one. No other table's directory changes, nor does the index.
pub proof fn law_bulk_load(store: StoreV, h: HandleV, t: TableV, records: Seq<Seq<ValueV>>)
    requires
        represents(store, h, t),
        can_load(t, records),
    ensures
        ({
            let steps = bulk_steps(store, h, records);
            let after = store.after(steps.1);
            &&& steps.0 is None
            &&& represents(after, h, with_records(t, records, records.len() as int))
            &&& confined(store, after, h.dir)
        }),
{
    reveal(confined);
    let size = t.row_group_size as int;
    let n = records.len() as int;
    let rid = t.rows.len() as u64;
    assert(t.rows.len() + n <= u64::MAX && t.rows.len() < (u32::MAX + 1) * size) by (
    nonlinear_arith)
        requires
            t.rows.len() + n <= u32::MAX * size,
            n >= 0,
            0 < size <= u32::MAX,
    ;
    lemma_group_of(rid, t.row_group_size);
    let bad = bulk_record_error(h.schema, records);
    assert forall|i: int| 0 <= i < n implies #[trigger] bad(i) is None by {
        assert(record_error(t.schema, records[i]) is None);
    }
    crate::steps::lemma_no_failure(0, n, bad);
    lemma_chunks_end(n, size);
    assert(with_records(t, records, 0).rows =~= t.rows);
    assert(with_records(t, records, 0).deleted =~= t.deleted);
    lemma_chunks_loaded(store.disk, h, t, records, 0);
    let start = group_of(rid, t.row_group_size) as int;
    let first = run_steps(store.disk, 0, chunk_count(n, size), chunk_step(h, start, records));
    let mid = store.disk.after_all(first.1);
    assert(mid.manifest(h.dir) == store.disk.manifest(h.dir));
    let old = store.catalog.manifest_of(store.disk, h.name)->Ok_0;
    let manifest = ManifestV { next_rid: (rid + n) as u64, ..old };
    let commit = EffectV::WriteManifest { dir: h.dir, manifest };
    assert(commit_steps(store.catalog, mid, h.name, (rid + n) as u64) == done(seq![commit]));
    lemma_after_all_concat(store.disk, first.1, seq![commit]);
    assert(seq![commit].drop_last() =~= Seq::<EffectV>::empty());
    let end = mid.after(commit);
    assert(mid.after_all(seq![commit]) == end) by {
        reveal_with_fuel(DiskV::after_all, 2);
    }
    lemma_after_manifest(mid, h.dir, manifest);
    let steps = bulk_steps(store, h, records);
    assert(steps == (None::<ErrorV>, first.1 + seq![commit]));
    let after = store.after(steps.1);
    assert(after.disk == end);
    let v = with_records(t, records, n);
    assert forall|g: u32| #[trigger] group_ok(end, h.dir, v, g) by {
        assert(group_ok(mid, h.dir, v, g));
        assert(end.has_group(h.dir, g) == mid.has_group(h.dir, g));
        if holds(mid, h.dir, v, g) {
            let bits = choose|b: Seq<u8>| group_holds(mid, h.dir, v, g, b);
            assert(group_holds(end, h.dir, v, g, bits));
        }
    }
    lemma_described_after(store, after, h);
    assert forall|d: Seq<char>| d != h.dir implies #[trigger] end.dir(d) == store.disk.dir(d) by {
        assert(mid.dir(d) == store.disk.dir(d));
    }
}

/// The table with records inserted one by one.
pub open spec fn inserted(t: TableV, records: Seq<Seq<ValueV>>) -> TableV
    decreases records.len(),
{
    if records.len() == 0 {
        t
    } else {
        inserted(t, records.drop_last()).insert(records.last())
    }
}

/// Loading records in bulk and inserting them one by one give the same table.
pub proof fn law_bulk_load_is_inserting(t: TableV, records: Seq<Seq<ValueV>>)
    requires
        t.wf(),
    ensures
        with_records(t, records, records.len() as int) == inserted(t, records),
    decreases records.len(),
{
    let n = records.len() as int;
    let all = with_records(t, records, n);
    if n == 0 {
        assert(all.rows =~= t.rows);
        assert(all.deleted =~= t.deleted);
    } else {
        let front = records.drop_last();
        law_bulk_load_is_inserting(t, front);
        let before = with_records(t, front, n - 1);
        assert(front.take(n - 1) =~= front);
        assert(records.take(n) =~= front.push(records.last()));
        assert(all.rows =~= before.rows.push(records.last()));
        assert(all.deleted =~= before.deleted.push(false));
    }
}

/// After a bulk load every record is read back under the next identifiers, in
/// order, and every row from before as it was; the identifiers go on behind them.
pub proof fn law_bulk_load_reads_back(
    store: StoreV,
    h: HandleV,
    t: TableV,
    records: Seq<Seq<ValueV>>,
    rid: u64,
)
    requires
        represents(store, h, t),
        can_load(t, records),
        rid < (u32::MAX + 1) * t.row_group_size,
    ensures
        ({
            let after = store.after(bulk_steps(store, h, records).1);
            let n = t.rows.len();
            &&& after.described(h.name)->Ok_0.next_rid == n + records.len()
            &&& get_of(after.disk, h, rid) == if rid < n {
                get_of(store.disk, h, rid)
            } else if rid < n + records.len() {
                Ok(Some(records[rid - n]))
            } else {
                Ok(None)
            }
        }),
{
    let after = store.after(bulk_steps(store, h, records).1);
    let u = with_records(t, records, records.len() as int);
    law_bulk_load(store, h, t, records);
    law_get(store, h, t, rid);
    law_get(after, h, u, rid);
}

} // verus!
