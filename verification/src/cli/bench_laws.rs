//! What the benchmark table holds: the same rows for the same number of rows and
//! the same seed.

use vstd::prelude::*;
use vstd::utf8::*;

use crate::catalog::laws::dir_name;
use crate::catalog::schema::ColumnType;
use crate::catalog::tables::{path_join, TableOptions, DEFAULT_ROW_GROUP_SIZE};
use crate::cli::bench::{
    bench_columns, bench_filled, cleared, generated, generated_rows, loaded_from, next_chunk,
    payload, PAYLOAD_LEN,
};
use crate::error::ErrorV;
use crate::steps::lemma_no_failure;
use crate::storage::bulk_laws::{can_load, chunk_fits, law_bulk_load, with_records};
use crate::storage::column_file::{blob, has_other_type};
use crate::storage::definition_laws::{
    created_store, empty_table, law_created_table_is_empty, new_handle,
};
use crate::storage::model::{
    bulk_steps, chunk_count, chunk_end, column_slice, record_error, row_items, row_scan_of,
    value_error, HandleV, StoreV,
};
use crate::storage::scan_laws::law_row_scan;
use crate::storage::soundness_laws::{law_drop_keeps_the_store_sound, sound};
use crate::storage::table_laws::law_texts_within_the_limit_are_encoded;
use crate::storage::table_model::{represents, TableV};
use crate::storage::ValueV;

verus! {

/// The table that a benchmark run makes.
pub open spec fn bench_table(rows: u64, seed: u64, word: u32) -> TableV {
    TableV {
        schema: bench_columns(),
        row_group_size: DEFAULT_ROW_GROUP_SIZE,
        rows: generated_rows(0, rows as int, seed, word).0,
        deleted: Seq::new(rows as nat, |i: int| false),
    }
}

/// A character takes at most four bytes.
proof fn lemma_encoded_len(s: Seq<char>)
    ensures
        encode_utf8(s).len() <= 4 * s.len(),
    decreases s.len(),
{
    if s.len() > 0 {
        lemma_encoded_len(s.drop_first());
    }
}

/// A payload has as many characters as were drawn.
proof fn lemma_payload(state: u64, word: u32, n: int)
    requires
        0 <= n,
    ensures
        payload(state, word, n).0.len() == n,
    decreases n,
{
    if n > 0 {
        lemma_payload(state, word, n - 1);
    }
}

/// A drawn value fits its column, and a TEXT is short.
spec fn short(v: ValueV, ty: ColumnType) -> bool {
    match ty {
        ColumnType::Int => v is Int,
        ColumnType::Text => v matches ValueV::Text(s) && s.len() == PAYLOAD_LEN,
    }
}

/// A drawn row fits the table.
proof fn lemma_generated(id: u64, state: u64, word: u32)
    ensures
        ({
            let row = generated(id, state, word).0;
            &&& record_error(bench_columns(), row) is None
            &&& row.len() == bench_columns().len()
            &&& forall|c: int|
                0 <= c < row.len() ==> short(#[trigger] row[c], bench_columns()[c].ty)
            &&& row[0] == ValueV::Int(id as i64)
        }),
{
    let row = generated(id, state, word).0;
    assert forall|s: u64| (#[trigger] payload(s, word, PAYLOAD_LEN as int)).0.len()
        == PAYLOAD_LEN by {
        lemma_payload(s, word, PAYLOAD_LEN as int);
    }
    let bad = value_error(bench_columns(), row);
    assert forall|i: int| 0 <= i < bench_columns().len() implies (#[trigger] bad(i)) is None by {}
    lemma_no_failure(0, bench_columns().len() as int, bad);
}

/// The rows that are drawn: as many as asked for, numbered in order, each of
/// them fit for the table.
proof fn lemma_generated_rows(first: u64, n: int, state: u64, word: u32)
    requires
        0 <= n,
        first + n <= i64::MAX,
    ensures
        ({
            let rows = generated_rows(first, n, state, word).0;
            &&& rows.len() == n
            &&& forall|i: int|
                0 <= i < n ==> {
                    &&& record_error(bench_columns(), #[trigger] rows[i]) is None
                    &&& rows[i].len() == bench_columns().len()
                    &&& forall|c: int|
                        0 <= c < rows[i].len() ==> short(
                            #[trigger] rows[i][c],
                            bench_columns()[c].ty,
                        )
                    &&& rows[i][0] == ValueV::Int((first + i) as i64)
                }
        }),
    decreases n,
{
    if n > 0 {
        lemma_generated_rows(first, n - 1, state, word);
        let (rows, now) = generated_rows(first, n - 1, state, word);
        lemma_generated((first + n - 1) as u64, now, word);
    }
}

/// Drawing some rows and then more is drawing them all.
proof fn lemma_generated_more(first: u64, m: int, n: int, state: u64, word: u32)
    requires
        0 <= m,
        0 <= n,
        first + m + n <= u64::MAX,
    ensures
        ({
            let (front, mid) = generated_rows(first, m, state, word);
            let (back, last) = generated_rows((first + m) as u64, n, mid, word);
            generated_rows(first, m + n, state, word) == (front + back, last)
        }),
    decreases n,
{
    let (front, mid) = generated_rows(first, m, state, word);
    if n == 0 {
        assert(front + Seq::<Seq<ValueV>>::empty() =~= front);
    } else {
        lemma_generated_more(first, m, n - 1, state, word);
        let (back, now) = generated_rows((first + m) as u64, n - 1, mid, word);
        let row = generated((first + m + n - 1) as u64, now, word).0;
        assert((front + back).push(row) =~= front + back.push(row));
    }
}

/// Short texts take little room: four bytes a character at most.
proof fn lemma_short_blob(values: Seq<ValueV>)
    requires
        forall|i: int| 0 <= i < values.len() ==> short(#[trigger] values[i], ColumnType::Text),
    ensures
        blob(values).len() <= 360 * values.len(),
    decreases values.len(),
{
    if values.len() > 0 {
        let front = values.drop_last();
        assert forall|i: int| 0 <= i < front.len() implies short(
            #[trigger] front[i],
            ColumnType::Text,
        ) by {
            assert(front[i] == values[i]);
        }
        lemma_short_blob(front);
        assert(short(values[values.len() - 1], ColumnType::Text));
        lemma_encoded_len(values.last()->Text_0);
        assert(values.last() == values[values.len() - 1]);
    }
}

/// A chunk of drawn rows can be loaded.
proof fn lemma_chunk_loads(t: TableV, first: u64, n: int, state: u64, word: u32)
    requires
        t.schema == bench_columns(),
        t.row_group_size == DEFAULT_ROW_GROUP_SIZE,
        t.rows.len() as int % DEFAULT_ROW_GROUP_SIZE as int == 0,
        0 < n <= DEFAULT_ROW_GROUP_SIZE,
        t.rows.len() + n <= u32::MAX * DEFAULT_ROW_GROUP_SIZE,
        first + n <= i64::MAX,
    ensures
        can_load(t, generated_rows(first, n, state, word).0),
{
    let records = generated_rows(first, n, state, word).0;
    let size = DEFAULT_ROW_GROUP_SIZE as int;
    lemma_generated_rows(first, n, state, word);
    assert(chunk_count(n, size) == 1);
    assert forall|k: int, c: int|
        0 <= k < chunk_count(n, size) && 0 <= c < t.schema.len() implies #[trigger] chunk_fits(
        t.schema,
        records,
        size,
        k,
        c,
    ) by {
        assert(k * size == 0);
        let ty = t.schema[c].ty;
        let values = column_slice(records, k * size, chunk_end(n, k * size, size), c);
        assert forall|i: int| 0 <= i < values.len() implies short(#[trigger] values[i], ty) by {
            assert(values[i] == records[i][c]);
            assert(records[i].len() == bench_columns().len());
        }
        if ty == ColumnType::Text {
            lemma_short_blob(values);
        }
        assert(!has_other_type(ty, values));
        law_texts_within_the_limit_are_encoded(ty, values, Seq::empty());
    }
}

/// Loading the rows from `done` on makes the whole table of one that holds the
/// rows before.
proof fn lemma_loaded_from(store: StoreV, h: HandleV, rows: u64, done: u64, seed: u64, word: u32)
    requires
        represents(store, h, bench_table(done, seed, word)),
        done <= rows <= u32::MAX * DEFAULT_ROW_GROUP_SIZE,
        done == rows || done as int % DEFAULT_ROW_GROUP_SIZE as int == 0,
    ensures
        ({
            let (failed, after) = loaded_from(
                store,
                h,
                rows,
                done,
                generated_rows(0, done as int, seed, word).1,
                word,
            );
            &&& failed is None
            &&& represents(after, h, bench_table(rows, seed, word))
        }),
    decreases rows - done,
{
    let size = DEFAULT_ROW_GROUP_SIZE as int;
    if done < rows {
        let t = bench_table(done, seed, word);
        let (front, state) = generated_rows(0, done as int, seed, word);
        let n = next_chunk(rows, done, h.row_group_size);
        let (chunk, next) = generated_rows(done, n, state, word);
        lemma_generated_rows(0, done as int, seed, word);
        lemma_generated_rows(done, n, state, word);
        lemma_chunk_loads(t, done, n, state, word);
        law_bulk_load(store, h, t, chunk);
        lemma_generated_more(0, done as int, n, seed, word);
        let more = with_records(t, chunk, n);
        let whole = bench_table((done + n) as u64, seed, word);
        assert(chunk.take(n) =~= chunk);
        assert(more.deleted =~= whole.deleted);
        assert(more == whole);
        let after = store.after(bulk_steps(store, h, chunk).1);
        lemma_loaded_from(after, h, rows, (done + n) as u64, seed, word);
    }
}

/// A benchmark run on a database whose own operations have made it makes the
/// table anew, and it then holds exactly the rows drawn from the seed: as many
/// as were asked for, numbered from 0.
pub proof fn law_bench_fills_the_table(
    store: StoreV,
    table: Seq<char>,
    rows: u64,
    seed: u64,
    word: u32,
)
    requires
        sound(store),
        store.catalog.next_table_id < u64::MAX,
        cleared(store, table).catalog.create_error(table, bench_columns()) is None,
        rows <= u32::MAX * DEFAULT_ROW_GROUP_SIZE,
    ensures
        ({
            let (failed, after) = bench_filled(store, table, rows, seed, word);
            let h = new_handle(
                cleared(store, table),
                table,
                bench_columns(),
                DEFAULT_ROW_GROUP_SIZE,
            );
            let t = bench_table(rows, seed, word);
            &&& failed is None
            &&& after.opened(table) == Ok::<HandleV, ErrorV>(h)
            &&& represents(after, h, t)
            &&& after.described(table) matches Ok(d) && d.next_rid == rows
            &&& t.rows.len() == rows
            &&& forall|i: int|
                0 <= i < rows ==> (#[trigger] t.rows[i])[0] == ValueV::Int(i as i64)
        }),
{
    let options = TableOptions { row_group_size: None };
    let start = cleared(store, table);
    if store.catalog.dir_of(table) is Ok {
        law_drop_keeps_the_store_sound(store, table);
    }
    let h = new_handle(start, table, bench_columns(), DEFAULT_ROW_GROUP_SIZE);
    assert(h.dir == path_join(start.catalog.root, dir_name(start.catalog.next_table_id)));
    law_created_table_is_empty(start, table, bench_columns(), options);
    let made = created_store(start, table, bench_columns(), options);
    let none = empty_table(bench_columns(), DEFAULT_ROW_GROUP_SIZE);
    assert(none.rows =~= bench_table(0, seed, word).rows);
    assert(none.deleted =~= bench_table(0, seed, word).deleted);
    assert(none == bench_table(0, seed, word));
    assert(made.opened(table) == Ok::<HandleV, ErrorV>(h));
    lemma_loaded_from(made, h, rows, 0, seed, word);
    lemma_generated_rows(0, rows as int, seed, word);
}

/// Two benchmark runs with the same number of rows and the same seed store the
/// same rows, whatever the databases and the tables are called.
pub proof fn law_bench_is_reproducible(
    a: StoreV,
    b: StoreV,
    table_a: Seq<char>,
    table_b: Seq<char>,
    rows: u64,
    seed: u64,
    word: u32,
)
    requires
        sound(a),
        sound(b),
        a.catalog.next_table_id < u64::MAX,
        b.catalog.next_table_id < u64::MAX,
        cleared(a, table_a).catalog.create_error(table_a, bench_columns()) is None,
        cleared(b, table_b).catalog.create_error(table_b, bench_columns()) is None,
        rows <= u32::MAX * DEFAULT_ROW_GROUP_SIZE,
    ensures
        ({
            let made_a = bench_filled(a, table_a, rows, seed, word).1;
            let made_b = bench_filled(b, table_b, rows, seed, word).1;
            let scan_a = row_scan_of(made_a, made_a.opened(table_a)->Ok_0)->Ok_0;
            let scan_b = row_scan_of(made_b, made_b.opened(table_b)->Ok_0)->Ok_0;
            row_items(scan_a, 0) == row_items(scan_b, 0)
        }),
{
    let t = bench_table(rows, seed, word);
    law_bench_fills_the_table(a, table_a, rows, seed, word);
    law_bench_fills_the_table(b, table_b, rows, seed, word);
    let made_a = bench_filled(a, table_a, rows, seed, word).1;
    let made_b = bench_filled(b, table_b, rows, seed, word).1;
    law_row_scan(made_a, made_a.opened(table_a)->Ok_0, t);
    law_row_scan(made_b, made_b.opened(table_b)->Ok_0, t);
}

} // verus!
