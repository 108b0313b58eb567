//! A wide table of reproducible random data, for measuring the optimizer.
//!
//! Four INT columns and three large TEXT payloads that the measured query never
//! selects, so that reading fewer columns has something to skip and a sort with
//! a limit has real work to save.

use vstd::prelude::*;

use bytesize::ByteSize;
use fastrand::Rng;

use crate::catalog::laws::lemma_find_after_put;
use crate::catalog::metadata::{Status, StatusV};
use crate::catalog::schema::{columns_view, Column, ColumnType, ColumnV, Schema};
use crate::catalog::tables::{chosen_size, find_entry, TableOptions};
use crate::error::{Error, ErrorV};
use crate::storage::column_store::{records_view, ColumnStore};
use crate::storage::definition_laws::{created_store, dropped_store, lemma_created_disk};
use crate::storage::model::{bulk_steps, HandleV, StoreV};
use crate::storage::model_lemmas::lemma_bulk_advances;
use crate::storage::{values_view, Record, Storage, Value, ValueV};
use crate::text::{is_letter, join3, join4, position, position_of, texts};

verus! {

/// Length, in characters, of each TEXT payload.
pub const PAYLOAD_LEN: usize = 90;

/// Number of TEXT payload columns.
pub const PAYLOAD_COUNT: u64 = 3;

/// Number of INT columns.
pub const INT_COUNT: u64 = 4;

/// Rough bytes per row on disk, to turn a size into a number of rows: eight for
/// each INT, and for each TEXT a four-byte offset and its bytes.
pub const EST_BYTES_PER_ROW: u64 = INT_COUNT * 8 + PAYLOAD_COUNT * (4 + 90);

/// Range of `sort_key`: wide, so that sorting compares for real.
pub const SORT_RANGE: u64 = 1_000_000_000;

/// Range of `filter_a` and `filter_b`.
pub const FILTER_RANGE: u64 = 1_000_000;

// ---- sizes ----

/// What `bytesize` makes of a size such as `1GB` or `500MiB`: the bytes, or what
/// is wrong with it.
pub uninterp spec fn byte_count(s: Seq<char>) -> Result<u64, Seq<char>>;

/// `ByteSize::from_str` and `ByteSize::as_u64`: the bytes that a size with a
/// unit stands for, or the crate's message. Both depend on the text alone; what
/// they are for a given text is not stated.
#[verifier::external_body]
fn bytes_in(s: &str) -> (r: Result<u64, String>)
    ensures
        match r {
            Ok(n) => byte_count(s@) == Ok::<u64, Seq<char>>(n),
            Err(m) => byte_count(s@) == Err::<u64, Seq<char>>(m@),
        },
{
    match s.parse::<ByteSize>() {
        Ok(b) => Ok(b.as_u64()),
        Err(m) => Err(m),
    }
}

/// The bytes of a size that was read, or the error of one that was not.
pub open spec fn size_of(s: Seq<char>, read: Result<u64, Seq<char>>) -> Result<u64, ErrorV> {
    match read {
        Ok(n) => Ok(n),
        Err(m) => Err(ErrorV::InvalidValue("invalid size '"@ + s + "': "@ + m)),
    }
}

/// The bytes of a size that was read, or the error of one that was not.
pub fn checked_size(s: &str, read: Result<u64, String>) -> (r: Result<u64, Error>)
    ensures
        ({
            let given = match read {
                Ok(n) => Ok(n),
                Err(m) => Err(m@),
            };
            match r {
                Ok(n) => size_of(s@, given) == Ok::<u64, ErrorV>(n),
                Err(e) => size_of(s@, given) == Err::<u64, ErrorV>(e@),
            }
        }),
{
    match read {
        Ok(n) => Ok(n),
        Err(m) => {
            let message = join4("invalid size '", s, "': ", m.as_str());
            Err(Error::invalid_value(message.as_str()))
        },
    }
}

/// Parse a size like `1GB` or `500MiB` into bytes. Decimal units are powers of
/// 1000, binary units powers of 1024.
pub fn parse_size(s: &str) -> (r: Result<u64, Error>)
    ensures
        match r {
            Ok(n) => size_of(s@, byte_count(s@)) == Ok::<u64, ErrorV>(n),
            Err(e) => size_of(s@, byte_count(s@)) == Err::<u64, ErrorV>(e@),
        },
{
    checked_size(s, bytes_in(s))
}

/// The number of rows that fit a number of bytes, at least one.
pub open spec fn rows_in(bytes: u64) -> u64 {
    if bytes / EST_BYTES_PER_ROW < 1 {
        1
    } else {
        bytes / EST_BYTES_PER_ROW
    }
}

/// The number of rows that fit a number of bytes, at least one.
pub fn rows_for(bytes: u64) -> (r: u64)
    ensures
        r == rows_in(bytes),
{
    let n: u64 = bytes / EST_BYTES_PER_ROW;
    if n < 1 {
        1
    } else {
        n
    }
}

/// The number of rows to generate: the one that was asked for, or as many as fit
/// the size.
pub open spec fn wanted(rows: Option<u64>, s: Seq<char>, read: Result<u64, Seq<char>>) -> Result<
    u64,
    ErrorV,
> {
    match rows {
        Some(n) => Ok(n),
        None => match size_of(s, read) {
            Err(e) => Err(e),
            Ok(bytes) => Ok(rows_in(bytes)),
        },
    }
}

/// The number of rows to generate. The size is looked at only where no number
/// was asked for.
pub fn wanted_rows(rows: Option<u64>, size: &str) -> (r: Result<u64, Error>)
    ensures
        match r {
            Ok(n) => wanted(rows, size@, byte_count(size@)) == Ok::<u64, ErrorV>(n),
            Err(e) => wanted(rows, size@, byte_count(size@)) == Err::<u64, ErrorV>(e@),
        },
{
    match rows {
        Some(n) => Ok(n),
        None => match parse_size(size) {
            Err(e) => Err(e),
            Ok(bytes) => Ok(rows_for(bytes)),
        },
    }
}

// ---- random values ----

/// What `Rng::u64` draws below `n` from the state `state`, and the state it
/// leaves.
pub uninterp spec fn draw_below(state: u64, n: u64) -> (u64, u64);

/// What `Rng::alphanumeric` draws from the state `state` on a machine whose
/// words have `word` bits, and the state it leaves.
pub uninterp spec fn draw_char(state: u64, word: u32) -> (char, u64);

/// `Rng::with_seed`, `Rng::u64` and `Rng::get_seed`: a number below `n`, and the
/// state of the generator behind it, which depend on the state and on `n` alone.
/// An empty range would panic. How numbers are spread is not stated.
#[verifier::external_body]
fn next_below(state: u64, n: u64) -> (r: (u64, u64))
    requires
        n > 0,
    ensures
        r == draw_below(state, n),
        r.0 < n,
{
    let mut rng = Rng::with_seed(state);
    let value = rng.u64(0..n);
    (value, rng.get_seed())
}

/// `Rng::with_seed`, `Rng::alphanumeric` and `Rng::get_seed`: an ASCII letter or
/// digit, and the state of the generator behind it. They depend on the state and,
/// since the generator draws an index of machine width, on the word size. How
/// characters are spread is not stated.
#[verifier::external_body]
fn next_char(state: u64, word: u32) -> (r: (char, u64))
    requires
        word == usize::BITS,
    ensures
        r == draw_char(state, word),
        is_letter(r.0) || '0' <= r.0 <= '9',
{
    let mut rng = Rng::with_seed(state);
    let c = rng.alphanumeric();
    (c, rng.get_seed())
}

/// A payload of `n` characters drawn from `state`, and the state behind it.
pub open spec fn payload(state: u64, word: u32, n: int) -> (Seq<char>, u64)
    decreases n,
{
    if n <= 0 {
        (Seq::empty(), state)
    } else {
        let (s, now) = payload(state, word, n - 1);
        let (c, next) = draw_char(now, word);
        (s.push(c), next)
    }
}

/// Draw a payload.
fn gen_payload(state: u64) -> (r: (String, u64))
    ensures
        (r.0@, r.1) == payload(state, usize::BITS, PAYLOAD_LEN as int),
{
    let mut s = String::new();
    let mut now: u64 = state;
    let mut i: usize = 0;
    while i < PAYLOAD_LEN
        invariant
            i <= PAYLOAD_LEN,
            (s@, now) == payload(state, usize::BITS, i as int),
        decreases PAYLOAD_LEN - i,
    {
        let (c, next) = next_char(now, usize::BITS);
        s.push(c);
        now = next;
        i = i + 1;
    }
    (s, now)
}

// ---- rows ----

/// The columns of the table.
pub open spec fn bench_columns() -> Seq<ColumnV> {
    let number = |name: Seq<char>| ColumnV { name, ty: ColumnType::Int, nullable: false };
    let text = |name: Seq<char>| ColumnV { name, ty: ColumnType::Text, nullable: false };
    seq![
        number("id"@),
        number("sort_key"@),
        number("filter_a"@),
        number("filter_b"@),
        text("payload1"@),
        text("payload2"@),
        text("payload3"@),
    ]
}

/// A column that is never NULL.
fn column(name: &str, ty: ColumnType) -> (r: Column)
    ensures
        r@ == (ColumnV { name: name@, ty, nullable: false }),
{
    Column { name: name.to_string(), ty, nullable: false }
}

/// The schema of the table.
pub fn bench_schema() -> (r: Schema)
    ensures
        r@ == bench_columns(),
{
    let mut columns: Vec<Column> = Vec::new();
    columns.push(column("id", ColumnType::Int));
    columns.push(column("sort_key", ColumnType::Int));
    columns.push(column("filter_a", ColumnType::Int));
    columns.push(column("filter_b", ColumnType::Int));
    columns.push(column("payload1", ColumnType::Text));
    columns.push(column("payload2", ColumnType::Text));
    columns.push(column("payload3", ColumnType::Text));
    assert(columns_view(columns@) =~= bench_columns());
    Schema { columns }
}

/// The row `id` drawn from `state`, and the state behind it.
pub open spec fn generated(id: u64, state: u64, word: u32) -> (Seq<ValueV>, u64) {
    let (key, s1) = draw_below(state, SORT_RANGE);
    let (a, s2) = draw_below(s1, FILTER_RANGE);
    let (b, s3) = draw_below(s2, FILTER_RANGE);
    let (x, s4) = payload(s3, word, PAYLOAD_LEN as int);
    let (y, s5) = payload(s4, word, PAYLOAD_LEN as int);
    let (z, s6) = payload(s5, word, PAYLOAD_LEN as int);
    (
        seq![
            ValueV::Int(id as i64),
            ValueV::Int(key as i64),
            ValueV::Int(a as i64),
            ValueV::Int(b as i64),
            ValueV::Text(x),
            ValueV::Text(y),
            ValueV::Text(z),
        ],
        s6,
    )
}

/// Draw the row `id`. Payloads are of high cardinality, so that no dictionary
/// shrinks them and their bytes reach the disk.
pub fn gen_record(id: u64, state: u64) -> (r: (Record, u64))
    ensures
        (r.0@, r.1) == generated(id, state, usize::BITS),
{
    let (key, s1) = next_below(state, SORT_RANGE);
    let (a, s2) = next_below(s1, FILTER_RANGE);
    let (b, s3) = next_below(s2, FILTER_RANGE);
    let (x, s4) = gen_payload(s3);
    let (y, s5) = gen_payload(s4);
    let (z, s6) = gen_payload(s5);
    let mut values: Vec<Value> = Vec::new();
    values.push(Value::Int(#[verifier::truncate] (id as i64)));
    values.push(Value::Int(key as i64));
    values.push(Value::Int(a as i64));
    values.push(Value::Int(b as i64));
    values.push(Value::Text(x));
    values.push(Value::Text(y));
    values.push(Value::Text(z));
    assert(values_view(values@) =~= generated(id, state, usize::BITS).0);
    (Record { values }, s6)
}

/// `n` rows with identifiers from `first` on, drawn from `state`, and the state
/// behind them.
pub open spec fn generated_rows(first: u64, n: int, state: u64, word: u32) -> (
    Seq<Seq<ValueV>>,
    u64,
)
    decreases n,
{
    if n <= 0 {
        (Seq::empty(), state)
    } else {
        let (rows, now) = generated_rows(first, n - 1, state, word);
        let (row, next) = generated((first + n - 1) as u64, now, word);
        (rows.push(row), next)
    }
}

/// Draw `n` rows with identifiers from `first` on.
fn gen_records(first: u64, n: u64, state: u64) -> (r: (Vec<Record>, u64))
    requires
        first + n <= u64::MAX,
    ensures
        (records_view(r.0@), r.1) == generated_rows(first, n as int, state, usize::BITS),
        r.0@.len() == n,
{
    let mut rows: Vec<Record> = Vec::new();
    let mut now: u64 = state;
    let mut i: u64 = 0;
    assert(records_view(rows@) =~= Seq::empty());
    while i < n
        invariant
            i <= n,
            first + n <= u64::MAX,
            rows@.len() == i,
            (records_view(rows@), now) == generated_rows(first, i as int, state, usize::BITS),
        decreases n - i,
    {
        let ghost before = records_view(rows@);
        let (row, next) = gen_record(first + i, now);
        rows.push(row);
        now = next;
        i = i + 1;
        assert(records_view(rows@) =~= before.push(row@));
    }
    (rows, now)
}

// ---- loading ----

/// The smaller of what is left and a row group.
pub open spec fn next_chunk(rows: u64, done: u64, size: u32) -> int {
    if rows - done < size {
        rows - done
    } else {
        size as int
    }
}

/// Loading the rows from `done` on, a row group at a time: the error that it
/// ends with, if any, and the store that it leaves.
pub open spec fn loaded_from(
    store: StoreV,
    h: HandleV,
    rows: u64,
    done: u64,
    state: u64,
    word: u32,
) -> (Option<ErrorV>, StoreV)
    decreases rows - done,
{
    if done >= rows || h.row_group_size == 0 {
        (None, store)
    } else {
        let n = next_chunk(rows, done, h.row_group_size);
        let (chunk, next) = generated_rows(done, n, state, word);
        let steps = bulk_steps(store, h, chunk);
        match steps.0 {
            Some(e) => (Some(e), store.after(steps.1)),
            None => loaded_from(
                store.after(steps.1),
                h,
                rows,
                (done + n) as u64,
                next,
                word,
            ),
        }
    }
}

/// The store without the table that is to be made anew.
pub open spec fn cleared(store: StoreV, table: Seq<char>) -> StoreV {
    if store.catalog.dir_of(table) is Ok {
        dropped_store(store, table)
    } else {
        store
    }
}

/// Making the table anew and filling it: the error that it ends with, if any,
/// and the store that it leaves.
pub open spec fn bench_filled(
    store: StoreV,
    table: Seq<char>,
    rows: u64,
    seed: u64,
    word: u32,
) -> (Option<ErrorV>, StoreV) {
    let options = TableOptions { row_group_size: None };
    let start = cleared(store, table);
    match start.catalog.create_error(table, bench_columns()) {
        Some(e) => (Some(e), start),
        None => {
            let made = created_store(start, table, bench_columns(), options);
            match made.opened(table) {
                Err(e) => (Some(e), made),
                Ok(h) => loaded_from(made, h, rows, 0, seed, word),
            }
        },
    }
}

/// A table is listed exactly if it has a directory.
proof fn lemma_listed(store: StoreV, names: Seq<Seq<char>>, table: Seq<char>)
    requires
        names == Seq::new(store.catalog.tables.len(), |i: int| store.catalog.tables[i].name),
    ensures
        store.catalog.dir_of(table) is Ok == (position_of(names, table) is Some),
{
    let tables = store.catalog.tables;
    crate::text::lemma_position(names, table, 0);
    lemma_found(tables, table);
    match position_of(names, table) {
        Some(p) => {
            assert(tables[p].name == table);
        },
        None => {
            assert forall|i: int| 0 <= i < tables.len() implies (#[trigger] tables[i]).name
                != table by {
                assert(names[i] == tables[i].name);
            }
        },
    }
}

/// An entry is found exactly if some entry has the name.
proof fn lemma_found(tables: Seq<crate::catalog::files::EntryV>, name: Seq<char>)
    ensures
        find_entry(tables, name) is Some == exists|i: int|
            0 <= i < tables.len() && (#[trigger] tables[i]).name == name,
    decreases tables.len(),
{
    if tables.len() > 0 {
        let tail = tables.skip(1);
        lemma_found(tail, name);
        if tables[0].name != name {
            if exists|i: int| 0 <= i < tail.len() && (#[trigger] tail[i]).name == name {
                let i = choose|i: int| 0 <= i < tail.len() && (#[trigger] tail[i]).name == name;
                assert(tables[i + 1].name == name);
            }
            if exists|i: int| 0 <= i < tables.len() && (#[trigger] tables[i]).name == name {
                let i = choose|i: int| 0 <= i < tables.len() && (#[trigger] tables[i]).name == name;
                assert(tail[i - 1].name == name);
            }
        }
    }
}

/// What is known of a table that was just created.
proof fn lemma_new_table(start: StoreV, table: Seq<char>)
    requires
        start.catalog.create_error(table, bench_columns()) is None,
    ensures
        ({
            let options = TableOptions { row_group_size: None };
            let made = created_store(start, table, bench_columns(), options);
            made.described(table) matches Ok(d) && d.next_rid == 0 && d.name == table && d.schema
                == bench_columns() && d.row_group_size == chosen_size(options)
        }),
{
    let options = TableOptions { row_group_size: None };
    let made = created_store(start, table, bench_columns(), options);
    lemma_created_disk(start, table, bench_columns(), options);
    lemma_find_after_put(start.catalog.tables, start.catalog.new_entry(table), table);
    let manifest = start.catalog.new_manifest(table, bench_columns(), chosen_size(options));
    assert(made.catalog.manifest_of(made.disk, table) == Ok::<_, ErrorV>(manifest));
    assert(manifest.schema() =~= bench_columns());
}

/// Make the table anew, dropping it where it is there, and fill it with `rows`
/// rows drawn from `seed`. Rows are drawn and loaded one row group at a time: at
/// most that many records are held beside the files of the store.
#[verifier::loop_isolation(false)]
pub fn fill(store: &mut ColumnStore, table: &str, rows: u64, seed: u64) -> (r: Result<(), Error>)
    requires
        old(store).store().catalog.next_table_id < u64::MAX,
        rows <= u32::MAX * crate::catalog::tables::DEFAULT_ROW_GROUP_SIZE,
    ensures
        (crate::catalog::schema::checked(r), final(store).store()) == bench_filled(
            old(store).store(),
            table@,
            rows,
            seed,
            usize::BITS,
        ),
        r is Ok ==> (final(store).store().described(table@) matches Ok(d) && d.next_rid == rows
            && d.schema == bench_columns()),
{
    let ghost before = store.store();
    let names = match store.list_tables() {
        Err(e) => {
            return Err(e);
        },
        Ok(n) => n,
    };
    proof {
        lemma_listed(before, texts(names@), table@);
    }
    match position(&names, table) {
        None => {},
        Some(_) => {
            match store.drop_table(table) {
                Err(e) => {
                    return Err(e);
                },
                Ok(_) => {},
            }
        },
    }
    let ghost start = store.store();
    assert(start == cleared(before, table@));
    match store.create_table(table, bench_schema(), TableOptions { row_group_size: None }) {
        Err(e) => {
            return Err(e);
        },
        Ok(_) => {},
    }
    let ghost made = store.store();
    proof {
        lemma_new_table(start, table@);
    }
    let handle = match store.open_table(table) {
        Err(e) => {
            return Err(e);
        },
        Ok(h) => h,
    };
    let group = handle.row_group_size as u64;
    let mut state: u64 = seed;
    let mut done: u64 = 0;
    while done < rows
        invariant
            done <= rows,
            store.store().described(table@) matches Ok(d) && d.next_rid == done && d.schema
                == bench_columns(),
            loaded_from(made, handle@, rows, 0, seed, usize::BITS) == loaded_from(
                store.store(),
                handle@,
                rows,
                done,
                state,
                usize::BITS,
            ),
        decreases rows - done,
    {
        let left: u64 = rows - done;
        let n: u64 = if left < group {
            left
        } else {
            group
        };
        let (chunk, next) = gen_records(done, n, state);
        let ghost now = store.store();
        match store.bulk_load(&handle, &chunk) {
            Err(e) => {
                return Err(e);
            },
            Ok(_) => {},
        }
        proof {
            lemma_bulk_advances(now, handle@, records_view(chunk@));
        }
        state = next;
        done = done + n;
    }
    Ok(())
}

/// Whether a database has to be created first at `path`, or why none can be used
/// there.
pub open spec fn needs_database(path: Seq<char>, status: StatusV) -> Result<bool, ErrorV> {
    match status {
        StatusV::Missing => Ok(true),
        StatusV::Ready { .. } => Ok(false),
        _ => Err(ErrorV::Other("'"@ + path + "' is not a usable balik database"@)),
    }
}

/// Whether a database has to be created first at `path`, or why none can be used
/// there.
pub fn must_initialize(path: &str, status: &Status) -> (r: Result<bool, Error>)
    ensures
        match r {
            Ok(b) => needs_database(path@, status@) == Ok::<bool, ErrorV>(b),
            Err(e) => needs_database(path@, status@) == Err::<bool, ErrorV>(e@),
        },
{
    match status {
        Status::Missing => Ok(true),
        Status::Ready { .. } => Ok(false),
        _ => {
            let m = join3("'", path, "' is not a usable balik database");
            Err(Error::other(m.as_str()))
        },
    }
}

} // verus!
