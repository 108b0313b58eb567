//! What scans yield of the tables that a store holds.

use vstd::prelude::*;

use crate::bytes::bit_set;
use crate::catalog::schema::{ColumnType, ColumnV};
use crate::disk::DiskV;
use crate::error::ErrorV;
use crate::steps::{lemma_collect_all, lemma_no_failure};
use crate::storage::column_file::{live_int, HeaderV};
use crate::storage::column_laws::{expected_header, law_header_reads_alone, law_zone_map_is_tight};
use crate::storage::model::{
    batch_scan_of, can_match, column_header_at, column_names, column_path, group_batch, group_rows,
    has_column, has_int_column, live_values, loaded_group, min_of, projection_error, pruned_from,
    raw_column, row_at, row_items, row_scan_of, scan_items, stored_rows, uneven_from,
    usable_predicates, BatchScanV, HandleV, RowScanV, StoreV,
};
use crate::storage::table_laws::{
    lemma_column_types, lemma_group_bound, lemma_group_reads, lemma_groups_apart, lemma_row_shape,
};
use crate::storage::table_model::{bits_match, group_holds, group_ok, represents, TableV};
use crate::storage::{BatchV, ScanCompare, ScanPredicateV, ValueV};

verus! {

// ---- row scans ----

/// The live rows of a table from `from` on, with their identifiers, in order.
pub open spec fn live_rows(t: TableV, from: int) -> Seq<Result<(u64, Seq<ValueV>), ErrorV>>
    decreases t.rows.len() - from,
{
    if from >= t.rows.len() {
        Seq::empty()
    } else if t.live(from) {
        seq![Ok::<(u64, Seq<ValueV>), ErrorV>((from as u64, t.rows[from]))] + live_rows(t, from + 1)
    } else {
        live_rows(t, from + 1)
    }
}

/// When all columns have the same length, none is uneven.
proof fn lemma_no_uneven(columns: Seq<Seq<ValueV>>, rows: int, i: int)
    requires
        0 <= i,
        forall|c: int| 0 <= c < columns.len() ==> (#[trigger] columns[c]).len() == rows,
    ensures
        uneven_from(columns, rows, i) is None,
    decreases columns.len() - i,
{
    if i < columns.len() {
        lemma_no_uneven(columns, rows, i + 1);
    }
}

/// The columns of a group, in schema order.
pub open spec fn group_columns(t: TableV, group: int) -> Seq<Seq<ValueV>> {
    Seq::new(t.schema.len(), |c: int| t.column(group, c))
}

/// Loading a group that holds its rows gives its columns and its bitmap.
proof fn lemma_loaded_group(s: RowScanV, t: TableV, group: u32, bits: Seq<u8>)
    requires
        t.wf(),
        s.columns == t.schema,
        group_holds(s.disk, s.dir, t, group, bits),
    ensures
        loaded_group(s, group as int) == Ok::<_, ErrorV>((group_columns(t, group as int), bits)),
        stored_rows(group_columns(t, group as int)) == t.group_len(group as int),
{
    let names = column_names(s.columns);
    let columns = group_columns(t, group as int);
    let read = raw_column(s.disk, s.dir, group, names);
    lemma_group_reads(s.disk, s.dir, t, group, bits);
    assert forall|c: int| 0 <= c < names.len() implies #[trigger] read(c) == Ok::<_, ErrorV>(
        columns[c],
    ) by {
        assert(t.schema[c].name == names[c]);
    }
    lemma_collect_all(names.len() as int, read, columns);
    assert forall|c: int| 0 <= c < columns.len() implies (#[trigger] columns[c]).len()
        == t.group_len(group as int) by {
        lemma_column_types(t, group as int, c);
    }
    assert(columns[0].len() == t.group_len(group as int));
    lemma_no_uneven(columns, t.group_len(group as int), 0);
}

/// The rows of a group, and then those behind it, are the rows from there on.
proof fn lemma_group_rows(t: TableV, group: int, bits: Seq<u8>, offset: int)
    requires
        t.wf(),
        0 <= group,
        0 <= t.first(group),
        bits_match(t, group, bits),
        0 <= offset <= t.group_len(group),
        t.rows.len() <= u64::MAX,
    ensures
        group_rows(
            group_columns(t, group),
            bits,
            t.first(group),
            t.rows.len() as int,
            offset,
        ) + live_rows(t, t.first(group) + t.group_len(group)) == live_rows(
            t,
            t.first(group) + offset,
        ),
    decreases t.group_len(group) - offset,
{
    let columns = group_columns(t, group);
    let first = t.first(group);
    let n = t.group_len(group);
    let behind = live_rows(t, first + n);
    lemma_column_types(t, group, 0);
    assert(stored_rows(columns) == n);
    if offset < n {
        lemma_group_rows(t, group, bits, offset + 1);
        let rest = group_rows(columns, bits, first, t.rows.len() as int, offset + 1);
        let rid = first + offset;
        assert(bit_set(bits, offset) == (0 <= offset < n && t.deleted[first + offset]));
        if !bit_set(bits, offset) {
            lemma_row_shape(t, rid);
            assert(row_at(columns, offset) =~= t.rows[rid]) by {
                assert forall|c: int| 0 <= c < columns.len() implies columns[c][offset]
                    == t.rows[rid][c] by {
                    assert(columns[c] == t.column(group, c));
                }
            }
            let item = seq![Ok::<(u64, Seq<ValueV>), ErrorV>((rid as u64, t.rows[rid]))];
            assert(item + rest + behind =~= item + (rest + behind));
        }
    } else {
        assert(Seq::<Result<(u64, Seq<ValueV>), ErrorV>>::empty() + behind =~= behind);
    }
}

/// A row scan from a group on yields the live rows from there on.
proof fn lemma_row_items(store: StoreV, h: HandleV, t: TableV, s: RowScanV, group: int)
    requires
        represents(store, h, t),
        row_scan_of(store, h) == Ok::<_, ErrorV>(s),
        0 <= group <= u32::MAX + 1,
        0 <= t.first(group),
    ensures
        row_items(s, group) == live_rows(t, t.first(group)),
    decreases u32::MAX + 1 - group,
{
    let total = t.rows.len() as int;
    let first = t.first(group);
    if first < total {
        let size = t.row_group_size as int;
        assert(group < u32::MAX) by (nonlinear_arith)
            requires
                group * size < total,
                total <= u32::MAX * size,
                size > 0,
        ;
        let g = group as u32;
        assert(group_ok(store.disk, h.dir, t, g));
        let bits = choose|b: Seq<u8>| group_holds(store.disk, h.dir, t, g, b);
        lemma_loaded_group(s, t, g, bits);
        lemma_group_rows(t, group, bits, 0);
        lemma_groups_apart(group, group + 1, size);
        assert(t.first(group + 1) == first + size) by (nonlinear_arith)
            requires
                t.first(group + 1) == (group + 1) * size,
                first == group * size,
        ;
        lemma_row_items(store, h, t, s, group + 1);
        let n = t.group_len(group);
        if n < size {
            assert(first + n == total);
            assert(live_rows(t, first + n) =~= live_rows(t, t.first(group + 1)));
        }
    }
}

/// A row scan yields every live row with its identifier, in order of
/// identifiers, and nothing else.
pub proof fn law_row_scan(store: StoreV, h: HandleV, t: TableV)
    requires
        represents(store, h, t),
    ensures
        row_scan_of(store, h) is Ok,
        row_items(row_scan_of(store, h)->Ok_0, 0) == live_rows(t, 0),
{
    let s = row_scan_of(store, h)->Ok_0;
    assert(t.first(0) == 0) by (nonlinear_arith)
        requires
            t.first(0) == 0 * t.row_group_size,
    ;
    lemma_row_items(store, h, t, s, 0);
}

// ---- batch scans ----

/// The place of a column in a schema.
pub open spec fn column_index(schema: Seq<ColumnV>, name: Seq<char>) -> int {
    choose|i: int| 0 <= i < schema.len() && (#[trigger] schema[i]).name == name
}

/// The values of column `c` in the live rows among the first `n` of a group.
pub open spec fn live_column(t: TableV, group: int, c: int, n: int) -> Seq<ValueV>
    decreases n,
{
    if n <= 0 {
        Seq::empty()
    } else if t.deleted[t.first(group) + n - 1] {
        live_column(t, group, c, n - 1)
    } else {
        live_column(t, group, c, n - 1).push(t.rows[t.first(group) + n - 1][c])
    }
}

/// The batch of the live rows of a group, with the named columns.
pub open spec fn live_batch(t: TableV, names: Seq<Seq<char>>, group: int) -> BatchV {
    BatchV {
        names,
        columns: Seq::new(
            names.len(),
            |i: int|
                live_column(t, group, column_index(t.schema, names[i]), t.group_len(group)),
        ),
    }
}

/// What a scan that skips no group yields: one batch per group with a live row.
pub open spec fn live_batches(t: TableV, names: Seq<Seq<char>>, group: int) -> Seq<
    Result<BatchV, ErrorV>,
>
    decreases u32::MAX + 1 - group,
{
    if group > u32::MAX || t.first(group) >= t.rows.len() {
        Seq::empty()
    } else {
        let batch = live_batch(t, names, group);
        let rest = live_batches(t, names, group + 1);
        if names.len() > 0 && batch.columns[0].len() == 0 {
            rest
        } else {
            seq![Ok::<BatchV, ErrorV>(batch)] + rest
        }
    }
}

/// All names are of columns of the table.
pub open spec fn known_names(schema: Seq<ColumnV>, names: Seq<Seq<char>>) -> bool {
    forall|i: int| 0 <= i < names.len() ==> has_column(schema, #[trigger] names[i])
}

/// A known column has a place.
pub proof fn lemma_column_index(schema: Seq<ColumnV>, name: Seq<char>)
    requires
        has_column(schema, name),
    ensures
        0 <= column_index(schema, name) < schema.len(),
        schema[column_index(schema, name)].name == name,
{
}

/// Dropping what the bitmap marks drops the deleted rows.
proof fn lemma_live_values(t: TableV, group: int, c: int, bits: Seq<u8>, n: int)
    requires
        t.wf(),
        0 <= group,
        0 <= t.first(group),
        bits_match(t, group, bits),
        0 <= n <= t.group_len(group),
    ensures
        live_values(t.column(group, c), bits, n) == live_column(t, group, c, n),
    decreases n,
{
    if n > 0 {
        lemma_live_values(t, group, c, bits, n - 1);
        assert(bit_set(bits, n - 1) == (0 <= n - 1 < t.group_len(group) && t.deleted[t.first(group)
            + (n - 1)]));
    }
}

/// The batch that a scan makes of a group that holds its rows.
pub proof fn lemma_group_batch(
    disk: DiskV,
    dir: Seq<char>,
    t: TableV,
    group: u32,
    bits: Seq<u8>,
    names: Seq<Seq<char>>,
)
    requires
        t.wf(),
        group_holds(disk, dir, t, group, bits),
        known_names(t.schema, names),
        0 <= t.first(group as int) < t.rows.len(),
    ensures
        ({
            let batch = live_batch(t, names, group as int);
            group_batch(
                disk,
                dir,
                group,
                names,
                t.rows.len() - t.first(group as int),
            ) == Ok::<_, ErrorV>(
                if names.len() > 0 && batch.columns[0].len() == 0 {
                    None
                } else {
                    Some(batch)
                },
            )
        }),
{
    let g = group as int;
    let n = t.group_len(g);
    let read = raw_column(disk, dir, group, names);
    let raw = Seq::new(names.len(), |i: int| t.column(g, column_index(t.schema, names[i])));
    lemma_group_reads(disk, dir, t, group, bits);
    assert forall|i: int| 0 <= i < names.len() implies #[trigger] read(i) == Ok::<_, ErrorV>(
        raw[i],
    ) by {
        assert(has_column(t.schema, names[i]));
        lemma_column_index(t.schema, names[i]);
    }
    lemma_collect_all(names.len() as int, read, raw);
    assert forall|i: int| 0 <= i < raw.len() implies (#[trigger] raw[i]).len() == n by {
        assert(has_column(t.schema, names[i]));
        lemma_column_index(t.schema, names[i]);
        lemma_column_types(t, g, column_index(t.schema, names[i]));
    }
    lemma_no_uneven(raw, stored_rows(raw), 0);
    let rows = min_of(stored_rows(raw), t.rows.len() - t.first(g));
    let columns = Seq::new(raw.len(), |c: int| live_values(raw[c], bits, rows));
    if names.len() > 0 {
        assert(stored_rows(raw) == raw[0].len());
        assert(rows == n);
    }
    assert forall|i: int| 0 <= i < raw.len() implies #[trigger] columns[i] == live_batch(
        t,
        names,
        g,
    ).columns[i] by {
        lemma_live_values(t, g, column_index(t.schema, names[i]), bits, n);
    }
    assert(columns =~= live_batch(t, names, g).columns);
}

/// What starting a scan of a table that the store holds gives.
pub proof fn lemma_scan_starts(
    store: StoreV,
    h: HandleV,
    t: TableV,
    projection: Option<Seq<Seq<char>>>,
    prune: Seq<ScanPredicateV>,
)
    requires
        represents(store, h, t),
        projection matches Some(names) ==> known_names(t.schema, names),
    ensures
        batch_scan_of(store, h, projection, prune) == Ok::<_, ErrorV>(
            BatchScanV {
                disk: store.disk,
                dir: h.dir,
                projected: match projection {
                    None => column_names(t.schema),
                    Some(names) => names,
                },
                prune: usable_predicates(t.schema, prune),
                row_group_size: t.row_group_size,
                total_rows: t.rows.len() as u64,
            },
        ),
{
    if let Some(names) = projection {
        lemma_no_failure(0, names.len() as int, projection_error(h, names));
        assert forall|i: int| 0 <= i < names.len() implies (#[trigger] projection_error(h, names)(
            i,
        )) is None by {
            assert(has_column(t.schema, names[i]));
        }
    }
}

proof fn lemma_scan_items(
    store: StoreV,
    h: HandleV,
    t: TableV,
    s: BatchScanV,
    group: int,
)
    requires
        represents(store, h, t),
        s.disk == store.disk,
        s.dir == h.dir,
        s.prune.len() == 0,
        s.row_group_size == t.row_group_size,
        s.total_rows == t.rows.len(),
        known_names(t.schema, s.projected),
        0 <= group <= u32::MAX + 1,
        0 <= t.first(group),
    ensures
        scan_items(s, group) == live_batches(t, s.projected, group),
    decreases u32::MAX + 1 - group,
{
    if group <= u32::MAX && t.first(group) < t.rows.len() {
        let size = t.row_group_size as int;
        let g = group as u32;
        assert(group_ok(store.disk, h.dir, t, g));
        let bits = choose|b: Seq<u8>| group_holds(store.disk, h.dir, t, g, b);
        lemma_group_batch(s.disk, s.dir, t, g, bits, s.projected);
        lemma_groups_apart(group, group + 1, size);
        assert(t.first(group + 1) == t.first(group) + size) by (nonlinear_arith)
            requires
                t.first(group + 1) == (group + 1) * size,
                t.first(group) == group * size,
        ;
        lemma_scan_items(store, h, t, s, group + 1);
    }
}

/// A batch scan without hints yields one batch per row group that has a live
/// row, in order, with the requested columns of exactly its live rows.
pub proof fn law_batch_scan(
    store: StoreV,
    h: HandleV,
    t: TableV,
    projection: Option<Seq<Seq<char>>>,
)
    requires
        represents(store, h, t),
        projection matches Some(names) ==> known_names(t.schema, names),
    ensures
        ({
            let names = match projection {
                None => column_names(t.schema),
                Some(names) => names,
            };
            &&& batch_scan_of(store, h, projection, Seq::empty()) is Ok
            &&& scan_items(batch_scan_of(store, h, projection, Seq::empty())->Ok_0, 0)
                == live_batches(t, names, 0)
        }),
{
    lemma_scan_starts(store, h, t, projection, Seq::empty());
    let s = batch_scan_of(store, h, projection, Seq::empty())->Ok_0;
    assert(t.first(0) == 0) by (nonlinear_arith)
        requires
            t.first(0) == 0 * t.row_group_size,
    ;
    if projection is None {
        lemma_all_names_known(t.schema);
    }
    lemma_scan_items(store, h, t, s, 0);
}

/// A schema knows its own columns.
pub proof fn lemma_all_names_known(schema: Seq<ColumnV>)
    ensures
        known_names(schema, column_names(schema)),
{
    assert forall|i: int| 0 <= i < schema.len() implies has_column(
        schema,
        #[trigger] column_names(schema)[i],
    ) by {
        assert(schema[i].name == column_names(schema)[i]);
    }
}

// ---- pruning ----

/// Whether a value satisfies `value <op> constant`: only integers ever do.
pub open spec fn satisfies(v: ValueV, op: ScanCompare, constant: i64) -> bool {
    match v {
        ValueV::Int(n) => match op {
            ScanCompare::Eq => n == constant,
            ScanCompare::NotEq => n != constant,
            ScanCompare::Lt => n < constant,
            ScanCompare::LtEq => n <= constant,
            ScanCompare::Gt => n > constant,
            ScanCompare::GtEq => n >= constant,
        },
        _ => false,
    }
}

/// Whether a row satisfies a predicate on one of its columns.
pub open spec fn row_satisfies(schema: Seq<ColumnV>, row: Seq<ValueV>, p: ScanPredicateV) -> bool {
    satisfies(row[column_index(schema, p.column)], p.op, p.value)
}

/// A value in the range that satisfies the predicate shows that the range can
/// match it.
pub proof fn lemma_can_match(op: ScanCompare, value: int, min: int, max: int, n: int)
    requires
        min <= n <= max,
        !can_match(op, value, min, max),
    ensures
        match op {
            ScanCompare::Eq => n != value,
            ScanCompare::NotEq => n == value,
            ScanCompare::Lt => n >= value,
            ScanCompare::LtEq => n > value,
            ScanCompare::Gt => n <= value,
            ScanCompare::GtEq => n < value,
        },
{
}

/// Predicates on INT columns of the table.
pub open spec fn int_predicates(schema: Seq<ColumnV>, prune: Seq<ScanPredicateV>) -> bool {
    forall|i: int| 0 <= i < prune.len() ==> has_int_column(schema, (#[trigger] prune[i]).column)
}

/// The predicates that a scan keeps are on INT columns, and each was asked for.
pub proof fn lemma_usable(schema: Seq<ColumnV>, prune: Seq<ScanPredicateV>)
    ensures
        int_predicates(schema, usable_predicates(schema, prune)),
        forall|i: int|
            0 <= i < usable_predicates(schema, prune).len() ==> prune.contains(
                #[trigger] usable_predicates(schema, prune)[i],
            ),
    decreases prune.len(),
{
    if prune.len() > 0 {
        let front = prune.drop_last();
        lemma_usable(schema, front);
        let kept = usable_predicates(schema, prune);
        assert forall|i: int| 0 <= i < kept.len() implies has_int_column(
            schema,
            (#[trigger] kept[i]).column,
        ) by {
            if i < usable_predicates(schema, front).len() {
                assert(kept[i] == usable_predicates(schema, front)[i]);
            }
        }
        assert forall|i: int| 0 <= i < kept.len() implies prune.contains(#[trigger] kept[i]) by {
            if i < usable_predicates(schema, front).len() {
                assert(kept[i] == usable_predicates(schema, front)[i]);
                let k = choose|k: int| 0 <= k < front.len() && front[k] == kept[i];
                assert(prune[k] == kept[i]);
            } else {
                assert(prune[prune.len() - 1] == kept[i]);
            }
        }
    }
}

/// Zone maps never prune a group that has a live row satisfying the predicates
/// from `i` on, and never fail on a group that holds its rows.
proof fn lemma_prune_sound(
    disk: DiskV,
    dir: Seq<char>,
    t: TableV,
    group: u32,
    bits: Seq<u8>,
    prune: Seq<ScanPredicateV>,
    i: int,
)
    requires
        t.wf(),
        group_holds(disk, dir, t, group, bits),
        int_predicates(t.schema, prune),
        0 <= i <= prune.len(),
        0 <= t.first(group as int),
    ensures
        pruned_from(disk, dir, group, prune, i) is Ok,
        pruned_from(disk, dir, group, prune, i) == Ok::<bool, ErrorV>(true) ==> forall|o: int|
            #![trigger t.rows[t.first(group as int) + o]]
            0 <= o < t.group_len(group as int) && t.live(t.first(group as int) + o) ==> exists|
                k: int,
            |
                i <= k < prune.len() && !row_satisfies(
                    t.schema,
                    t.rows[t.first(group as int) + o],
                    #[trigger] prune[k],
                ),
    decreases prune.len() - i,
{
    if i < prune.len() {
        let p = prune[i];
        let g = group as int;
        assert(has_int_column(t.schema, p.column));
        assert(has_column(t.schema, p.column));
        lemma_column_index(t.schema, p.column);
        let c = column_index(t.schema, p.column);
        let witness = choose|k: int|
            0 <= k < t.schema.len() && (#[trigger] t.schema[k]).name == p.column && t.schema[k].ty
                == ColumnType::Int;
        assert(witness == c) by {
            if witness != c {
                assert(t.schema[witness].name != t.schema[c].name);
            }
        }
        let values = t.column(g, c);
        law_header_reads_alone(ColumnType::Int, values, bits, column_path(dir, group, p.column));
        let header = expected_header(ColumnType::Int, values, bits);
        assert(t.schema[c].name == p.column);
        assert(column_header_at(disk, dir, group, p.column) == Ok::<HeaderV, ErrorV>(header));
        law_zone_map_is_tight(values, bits);
        lemma_prune_sound(disk, dir, t, group, bits, prune, i + 1);
        if pruned_from(disk, dir, group, prune, i) == Ok::<bool, ErrorV>(true) {
            assert forall|o: int|
                #![trigger t.rows[t.first(g) + o]]
                0 <= o < t.group_len(g) && t.live(t.first(g) + o) implies exists|k: int|
                i <= k < prune.len() && !row_satisfies(
                    t.schema,
                    t.rows[t.first(g) + o],
                    #[trigger] prune[k],
                ) by {
                let row = t.rows[t.first(g) + o];
                assert(bit_set(bits, o) == (0 <= o < t.group_len(g) && t.deleted[t.first(g) + o]));
                assert(values[o] == row[c]);
                let pruned_here = match header.int_range() {
                    None => true,
                    Some((min, max)) => !can_match(p.op, p.value as int, min, max),
                };
                if pruned_here {
                    if row[c] is Int {
                        assert(live_int(values, bits, o));
                        let (min, max) = header.int_range()->0;
                        lemma_can_match(
                            p.op,
                            p.value as int,
                            min,
                            max,
                            values[o]->Int_0 as int,
                        );
                    }
                    assert(!row_satisfies(t.schema, row, prune[i]));
                } else {
                    let k = choose|k: int|
                        i + 1 <= k < prune.len() && !row_satisfies(
                            t.schema,
                            row,
                            #[trigger] prune[k],
                        );
                    assert(!row_satisfies(t.schema, row, prune[k]));
                }
            }
        }
    }
}

/// Pruning never loses a row: a scan that skips a row group on account of its
/// hints skips no live row that satisfies all of them.
pub proof fn law_pruned_groups_have_no_match(
    store: StoreV,
    h: HandleV,
    t: TableV,
    prune: Seq<ScanPredicateV>,
    group: u32,
)
    requires
        represents(store, h, t),
        t.first(group as int) < t.rows.len(),
    ensures
        ({
            let usable = usable_predicates(t.schema, prune);
            let skipped = pruned_from(store.disk, h.dir, group, usable, 0);
            &&& skipped is Ok
            &&& skipped == Ok::<bool, ErrorV>(true) ==> forall|o: int|
                #![trigger t.rows[t.first(group as int) + o]]
                0 <= o < t.group_len(group as int) && t.live(t.first(group as int) + o) ==> exists|
                    k: int,
                |
                    0 <= k < prune.len() && !row_satisfies(
                        t.schema,
                        t.rows[t.first(group as int) + o],
                        #[trigger] prune[k],
                    )
        }),
{
    let usable = usable_predicates(t.schema, prune);
    lemma_usable(t.schema, prune);
    assert(group_ok(store.disk, h.dir, t, group));
    let bits = choose|b: Seq<u8>| group_holds(store.disk, h.dir, t, group, b);
    assert(0 <= t.first(group as int)) by (nonlinear_arith)
        requires
            t.first(group as int) == group as int * t.row_group_size,
    ;
    lemma_prune_sound(store.disk, h.dir, t, group, bits, usable, 0);
    if pruned_from(store.disk, h.dir, group, usable, 0) == Ok::<bool, ErrorV>(true) {
        assert forall|o: int|
            #![trigger t.rows[t.first(group as int) + o]]
            0 <= o < t.group_len(group as int) && t.live(t.first(group as int) + o) implies exists|
            k: int,
        |
            0 <= k < prune.len() && !row_satisfies(
                t.schema,
                t.rows[t.first(group as int) + o],
                #[trigger] prune[k],
            ) by {
            let row = t.rows[t.first(group as int) + o];
            let j = choose|j: int|
                0 <= j < usable.len() && !row_satisfies(t.schema, row, #[trigger] usable[j]);
            assert(prune.contains(usable[j]));
            let k = choose|k: int| 0 <= k < prune.len() && prune[k] == usable[j];
            assert(!row_satisfies(t.schema, row, prune[k]));
        }
    }
}

/// The places `at` show that `part` is a subsequence of `all`: its items stand in
/// `all`, in the same order.
pub open spec fn picked<T>(part: Seq<T>, all: Seq<T>, at: Seq<int>) -> bool {
    &&& at.len() == part.len()
    &&& forall|i: int|
        0 <= i < part.len() ==> 0 <= #[trigger] at[i] < all.len() && part[i] == all[at[i]]
    &&& forall|i: int, j: int| 0 <= i < j < part.len() ==> #[trigger] at[i] < #[trigger] at[j]
}

/// A subsequence stays one behind an item that it does not pick.
proof fn lemma_picked_later<T>(part: Seq<T>, all: Seq<T>, at: Seq<int>, first: T) -> (r: Seq<int>)
    requires
        picked(part, all, at),
    ensures
        picked(part, seq![first] + all, r),
        forall|i: int| 0 <= i < part.len() ==> #[trigger] r[i] > 0,
{
    let r = Seq::new(at.len(), |i: int| at[i] + 1);
    let more = seq![first] + all;
    assert forall|i: int| 0 <= i < part.len() implies 0 <= #[trigger] r[i] < more.len() && part[i]
        == more[r[i]] by {
        assert(0 <= at[i] < all.len());
    }
    assert forall|i: int, j: int| 0 <= i < j < part.len() implies #[trigger] r[i]
        < #[trigger] r[j] by {
        assert(at[i] < at[j]);
    }
    r
}

/// A subsequence and its whole may both get one more item in front.
proof fn lemma_picked_first<T>(part: Seq<T>, all: Seq<T>, at: Seq<int>, first: T) -> (r: Seq<int>)
    requires
        picked(part, all, at),
    ensures
        picked(seq![first] + part, seq![first] + all, r),
{
    let later = lemma_picked_later(part, all, at, first);
    let r = seq![0int] + later;
    let less = seq![first] + part;
    let more = seq![first] + all;
    assert forall|i: int| 0 <= i < less.len() implies 0 <= #[trigger] r[i] < more.len() && less[i]
        == more[r[i]] by {
        if i > 0 {
            assert(r[i] == later[i - 1]);
        }
    }
    assert forall|i: int, j: int| 0 <= i < j < less.len() implies #[trigger] r[i]
        < #[trigger] r[j] by {
        assert(r[j] == later[j - 1]);
        if i > 0 {
            assert(r[i] == later[i - 1]);
        }
    }
    r
}

/// A live row stands in its group's batch.
proof fn lemma_live_column(t: TableV, group: int, c: int, n: int, o: int)
    requires
        0 <= o < n,
        !t.deleted[t.first(group) + o],
    ensures
        live_column(t, group, c, n).len() > 0,
    decreases n,
{
    if o < n - 1 {
        lemma_live_column(t, group, c, n - 1, o);
    }
}

/// What a scan with hints yields from `group` on is part of what one without
/// them does, and holds the batch of every live row that satisfies the hints.
proof fn lemma_pruned_items(
    store: StoreV,
    h: HandleV,
    t: TableV,
    s: BatchScanV,
    group: int,
    rid: int,
) -> (at: Seq<int>)
    requires
        represents(store, h, t),
        s.disk == store.disk,
        s.dir == h.dir,
        int_predicates(t.schema, s.prune),
        s.row_group_size == t.row_group_size,
        s.total_rows == t.rows.len(),
        known_names(t.schema, s.projected),
        0 <= group <= u32::MAX + 1,
        0 <= t.first(group),
    ensures
        picked(scan_items(s, group), live_batches(t, s.projected, group), at),
        t.live(rid) && rid >= t.first(group) && rid / t.row_group_size as int <= u32::MAX && (
        forall|k: int|
            0 <= k < s.prune.len() ==> row_satisfies(
                t.schema,
                t.rows[rid],
                #[trigger] s.prune[k],
            )) ==> scan_items(s, group).contains(
            Ok::<BatchV, ErrorV>(
                live_batch(t, s.projected, rid / t.row_group_size as int),
            ),
        ),
    decreases u32::MAX + 1 - group,
{
    let size = t.row_group_size as int;
    let part = scan_items(s, group);
    let all = live_batches(t, s.projected, group);
    if group <= u32::MAX && t.first(group) < t.rows.len() {
        let g = group as u32;
        assert(group_ok(store.disk, h.dir, t, g));
        let bits = choose|b: Seq<u8>| group_holds(store.disk, h.dir, t, g, b);
        lemma_group_batch(s.disk, s.dir, t, g, bits, s.projected);
        lemma_prune_sound(s.disk, s.dir, t, g, bits, s.prune, 0);
        assert(t.first(group + 1) == t.first(group) + size) by (nonlinear_arith)
            requires
                t.first(group + 1) == (group + 1) * size,
                t.first(group) == group * size,
        ;
        let rest = lemma_pruned_items(store, h, t, s, group + 1, rid);
        let batch = live_batch(t, s.projected, group);
        let item = Ok::<BatchV, ErrorV>(batch);
        let some_live = !(s.projected.len() > 0 && batch.columns[0].len() == 0);
        let skipped = pruned_from(s.disk, s.dir, g, s.prune, 0) == Ok::<bool, ErrorV>(true);
        let later = scan_items(s, group + 1);
        let later_all = live_batches(t, s.projected, group + 1);
        let at = if !some_live {
            rest
        } else if skipped {
            lemma_picked_later(later, later_all, rest, item)
        } else {
            lemma_picked_first(later, later_all, rest, item)
        };
        if t.live(rid) && rid >= t.first(group) && (forall|k: int|
            0 <= k < s.prune.len() ==> row_satisfies(
                t.schema,
                t.rows[rid],
                #[trigger] s.prune[k],
            )) && rid / size <= u32::MAX {
            if rid < t.first(group + 1) {
                let o = rid - t.first(group);
                assert(rid / size == group) by (nonlinear_arith)
                    requires
                        group * size <= rid < group * size + size,
                        size > 0,
                ;
                assert(t.rows[t.first(group) + o] == t.rows[rid]);
                assert(0 <= o < t.group_len(group));
                assert(!skipped);
                if s.projected.len() > 0 {
                    lemma_live_column(
                        t,
                        group,
                        column_index(t.schema, s.projected[0]),
                        t.group_len(group),
                        o,
                    );
                }
                assert(part[0] == item);
            } else {
                let wanted = Ok::<BatchV, ErrorV>(live_batch(t, s.projected, rid / size));
                assert(later.contains(wanted));
                let i = choose|i: int| 0 <= i < later.len() && later[i] == wanted;
                if some_live && !skipped {
                    assert(part[i + 1] == wanted);
                } else {
                    assert(part[i] == wanted);
                }
            }
        }
        at
    } else {
        if t.live(rid) && rid >= t.first(group) && rid / size <= u32::MAX {
            assert(rid / size >= group) by (nonlinear_arith)
                requires
                    group * size <= rid,
                    size > 0,
            ;
        }
        Seq::empty()
    }
}

/// A scan with hints yields part of what a scan without them does: the same
/// batches in the same order, without some of them. `at` tells where they stand.
pub proof fn law_pruned_scan_is_part_of_the_full_scan(
    store: StoreV,
    h: HandleV,
    t: TableV,
    projection: Option<Seq<Seq<char>>>,
    prune: Seq<ScanPredicateV>,
) -> (at: Seq<int>)
    requires
        represents(store, h, t),
        projection matches Some(names) ==> known_names(t.schema, names),
    ensures
        batch_scan_of(store, h, projection, prune) is Ok,
        picked(
            scan_items(batch_scan_of(store, h, projection, prune)->Ok_0, 0),
            scan_items(batch_scan_of(store, h, projection, Seq::empty())->Ok_0, 0),
            at,
        ),
{
    lemma_scan_starts(store, h, t, projection, prune);
    law_batch_scan(store, h, t, projection);
    lemma_usable(t.schema, prune);
    lemma_all_names_known(t.schema);
    let s = batch_scan_of(store, h, projection, prune)->Ok_0;
    assert(t.first(0) == 0) by (nonlinear_arith)
        requires
            t.first(0) == 0 * t.row_group_size,
    ;
    lemma_pruned_items(store, h, t, s, 0, 0)
}

/// A scan with hints still yields every live row that satisfies all those on
/// INT columns of the table: the batch of its row group, with all its live rows.
pub proof fn law_pruned_scan_keeps_matches(
    store: StoreV,
    h: HandleV,
    t: TableV,
    projection: Option<Seq<Seq<char>>>,
    prune: Seq<ScanPredicateV>,
    rid: int,
)
    requires
        represents(store, h, t),
        projection matches Some(names) ==> known_names(t.schema, names),
        t.live(rid),
        forall|k: int|
            0 <= k < prune.len() && has_int_column(t.schema, prune[k].column) ==> row_satisfies(
                t.schema,
                t.rows[rid],
                #[trigger] prune[k],
            ),
    ensures
        ({
            let s = batch_scan_of(store, h, projection, prune)->Ok_0;
            scan_items(s, 0).contains(
                Ok::<BatchV, ErrorV>(live_batch(t, s.projected, rid / t.row_group_size as int)),
            )
        }),
{
    lemma_scan_starts(store, h, t, projection, prune);
    lemma_usable(t.schema, prune);
    lemma_all_names_known(t.schema);
    let s = batch_scan_of(store, h, projection, prune)->Ok_0;
    let size = t.row_group_size as int;
    assert(t.first(0) == 0) by (nonlinear_arith)
        requires
            t.first(0) == 0 * t.row_group_size,
    ;
    assert forall|k: int| 0 <= k < s.prune.len() implies row_satisfies(
        t.schema,
        t.rows[rid],
        #[trigger] s.prune[k],
    ) by {
        assert(prune.contains(s.prune[k]));
        let j = choose|j: int| 0 <= j < prune.len() && prune[j] == s.prune[k];
        assert(has_int_column(t.schema, prune[j].column));
    }
    lemma_group_bound(rid, size, u32::MAX as int);
    let at = lemma_pruned_items(store, h, t, s, 0, rid);
}

/// A hint on a TEXT column, or on one that the table has not, drops nothing.
pub proof fn law_other_hints_drop_nothing(
    store: StoreV,
    h: HandleV,
    projection: Option<Seq<Seq<char>>>,
    prune: Seq<ScanPredicateV>,
)
    requires
        forall|k: int|
            0 <= k < prune.len() ==> !has_int_column(h.schema, (#[trigger] prune[k]).column),
    ensures
        batch_scan_of(store, h, projection, prune) == batch_scan_of(
            store,
            h,
            projection,
            Seq::empty(),
        ),
{
    lemma_usable(h.schema, prune);
    let usable = usable_predicates(h.schema, prune);
    if usable.len() > 0 {
        assert(prune.contains(usable[0]));
        assert(has_int_column(h.schema, usable[0].column));
    }
    assert(usable =~= Seq::<ScanPredicateV>::empty());
}

} // verus!
