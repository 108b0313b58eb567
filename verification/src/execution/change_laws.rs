//! What the statements that change rows do to the table that they name.

use vstd::prelude::*;

use crate::catalog::schema::ColumnV;
use crate::error::ErrorV;
use crate::execution::logical::binder::{
    bad_assignment, bound_delete, bound_insert, bound_update, check_value_error, expr_columns,
    filter_error, value_misfit,
};
use crate::execution::logical::optimizer::column_pushdown::has_scan;
use crate::execution::logical::optimizer::optimized;
use crate::execution::logical::optimizer::top_k::fused;
use crate::execution::logical::plan::LogicalPlanV;
use crate::execution::physical::batch::even;
use crate::execution::physical::executor::{
    assigned, deleted, deleted_from, executed, inserted, matching, matching_from, row_batch,
    row_kept, updated, updated_from, RowsV,
};
use crate::execution::physical::expr::mask_of;
use crate::execution::physical::lower::lowered;
use crate::execution::physical::result::{batch_rows, QueryResultV};
use crate::execution::physical::sort::row_of;
use crate::execution::select_laws::{
    is_condition, lemma_known, lemma_mask, meets, row_columns, rows_columns,
};
use crate::parser::ast::{AssignmentV, ExprV};
use crate::steps::{first_failure, lemma_no_failure};
use crate::storage::column_file::encoded_values;
use crate::storage::model::{
    column_names, delete_steps, has_column, record_error, update_steps, value_error, HandleV,
    StoreV,
};
use crate::storage::scan_laws::{column_index, law_row_scan, lemma_column_index, live_rows};
use crate::storage::table_laws::{law_delete, law_insert, law_update, lemma_row_shape};
use crate::storage::table_model::{can_take, confined, lemma_confined, represents, TableV};
use crate::storage::ValueV;
use crate::text::{decimal, lemma_position, position_of};

verus! {

// ---- the rows that a condition picks ----

/// Whether a row is picked: every row is where there is no condition.
pub open spec fn picks(filter: Option<ExprV>, schema: Seq<ColumnV>, row: Seq<ValueV>) -> bool {
    match filter {
        None => true,
        Some(e) => meets(e, schema, row),
    }
}

/// The live rows from `from` on that a condition picks, with their identifiers.
pub open spec fn picked(t: TableV, filter: Option<ExprV>, from: int) -> RowsV
    decreases t.rows.len() - from,
{
    if from >= t.rows.len() {
        Seq::empty()
    } else if t.live(from) && picks(filter, t.schema, t.rows[from]) {
        seq![(from as u64, t.rows[from])] + picked(t, filter, from + 1)
    } else {
        picked(t, filter, from + 1)
    }
}

/// A condition that can be checked, or none.
pub open spec fn sound_filter(filter: Option<ExprV>) -> bool {
    filter matches Some(e) ==> is_condition(e)
}

/// A row's columns in the order of the table are the row.
proof fn lemma_row_columns(t: TableV, row: Seq<ValueV>)
    requires
        t.wf(),
        row.len() == t.schema.len(),
    ensures
        row_columns(t.schema, column_names(t.schema), row) == row,
{
    let names = column_names(t.schema);
    assert forall|i: int| 0 <= i < names.len() implies column_index(t.schema, names[i]) == i by {
        assert(t.schema[i].name == names[i]);
        assert(has_column(t.schema, names[i]));
        lemma_column_index(t.schema, names[i]);
        let c = column_index(t.schema, names[i]);
        if c != i {
            assert(t.schema[c].name != t.schema[i].name);
        }
    }
    assert(row_columns(t.schema, names, row) =~= row);
}

/// Checking a condition on one row of the table.
proof fn lemma_row_kept(t: TableV, filter: Option<ExprV>, row: Seq<ValueV>, table: Seq<char>)
    requires
        t.wf(),
        row.len() == t.schema.len(),
        sound_filter(filter),
        filter_error(t.schema, filter, table) is None,
    ensures
        row_kept(column_names(t.schema), filter, row) == Ok::<bool, ErrorV>(
            picks(filter, t.schema, row),
        ),
{
    if let Some(e) = filter {
        let names = column_names(t.schema);
        let b = row_batch(names, row);
        let rows = seq![row];
        assert(b.columns[0].len() == 1);
        assert(even(b));
        lemma_row_columns(t, row);
        assert(row_of(b, 0) =~= row);
        assert(batch_rows(b) =~= rows_columns(t.schema, names, rows));
        lemma_known(t.schema, expr_columns(e), table, "WHERE"@);
        assert forall|i: int| 0 <= i < expr_columns(e).len() implies names.contains(
            #[trigger] expr_columns(e)[i],
        ) by {
            let name = expr_columns(e)[i];
            assert(has_column(t.schema, name));
            let c = choose|c: int| 0 <= c < t.schema.len() && (#[trigger] t.schema[c]).name == name;
            assert(names[c] == name);
        }
        lemma_mask(e, b, t.schema, rows);
        assert(mask_of(e, b)->Ok_0[0] == meets(e, t.schema, rows[0]));
    }
}

/// The search finds the rows that the condition picks.
proof fn lemma_matching_from(
    t: TableV,
    filter: Option<ExprV>,
    found: RowsV,
    from: int,
    table: Seq<char>,
)
    requires
        t.wf(),
        sound_filter(filter),
        filter_error(t.schema, filter, table) is None,
        0 <= from,
    ensures
        matching_from(found, column_names(t.schema), filter, live_rows(t, from)) == Ok::<
            RowsV,
            ErrorV,
        >(found + picked(t, filter, from)),
    decreases t.rows.len() - from,
{
    let names = column_names(t.schema);
    if from >= t.rows.len() {
        assert(found + Seq::<(u64, Seq<ValueV>)>::empty() =~= found);
    } else if t.live(from) {
        let row = t.rows[from];
        let items = live_rows(t, from);
        lemma_row_shape(t, from);
        lemma_row_kept(t, filter, row, table);
        assert(items.skip(1) =~= live_rows(t, from + 1));
        let item = (from as u64, row);
        assert(items[0] == Ok::<(u64, Seq<ValueV>), ErrorV>(item));
        let next = if picks(filter, t.schema, row) {
            found.push(item)
        } else {
            found
        };
        lemma_matching_from(t, filter, next, from + 1, table);
        assert(found.push(item) + picked(t, filter, from + 1) =~= found + (seq![item] + picked(
            t,
            filter,
            from + 1,
        )));
    } else {
        lemma_matching_from(t, filter, found, from + 1, table);
    }
}

/// A search of a table that the store holds finds the rows that the condition
/// picks.
pub proof fn lemma_matching(store: StoreV, h: HandleV, t: TableV, filter: Option<ExprV>)
    requires
        represents(store, h, t),
        sound_filter(filter),
        filter_error(t.schema, filter, h.name) is None,
    ensures
        matching(store, h, filter) == Ok::<RowsV, ErrorV>(picked(t, filter, 0)),
{
    law_row_scan(store, h, t);
    lemma_matching_from(t, filter, Seq::empty(), 0, h.name);
    assert(Seq::<(u64, Seq<ValueV>)>::empty() + picked(t, filter, 0) =~= picked(t, filter, 0));
}

/// A statement that changes rows runs as it was bound: the optimizer has nothing
/// to do on it.
proof fn lemma_change_runs(plan: LogicalPlanV, store: StoreV)
    ensures
        plan matches LogicalPlanV::Insert { table, values } ==> executed(
            lowered(optimized(plan)),
            store,
        ) == inserted(store, table, values),
        plan matches LogicalPlanV::Delete { table, filter } ==> executed(
            lowered(optimized(plan)),
            store,
        ) == deleted(store, table, filter),
        plan matches LogicalPlanV::Update { table, assignments, filter } ==> executed(
            lowered(optimized(plan)),
            store,
        ) == updated(store, table, assignments, filter),
{
    if plan is Insert || plan is Delete || plan is Update {
        assert(fused(plan) == plan);
        assert(!has_scan(plan));
        assert(optimized(plan) == plan);
    }
}

// ---- INSERT ----

/// An INSERT of values that fit puts the row behind all others, under the next
/// identifier, which it reports. Nothing outside the table's directory changes.
pub proof fn law_insert_statement(store: StoreV, h: HandleV, t: TableV, values: Seq<ValueV>)
    requires
        represents(store, h, t),
        can_take(t, values),
    ensures
        ({
            let plan = bound_insert(store, h.name, values);
            let (r, after) = executed(lowered(optimized(plan->Ok_0)), store);
            &&& plan is Ok
            &&& r == Ok::<QueryResultV, ErrorV>(
                QueryResultV::Affected(
                    "Inserted into '"@ + h.name + "' as rid "@ + decimal(t.rows.len() as int),
                ),
            )
            &&& represents(after, h, t.insert(values))
            &&& confined(store, after, h.dir)
        }),
{
    let rule = value_misfit(values, t.schema, h.name);
    let n = t.schema.len() as int;
    lemma_no_failure(0, n, value_error(t.schema, values));
    assert forall|i: int| 0 <= i < n implies #[trigger] rule(i) is None by {
        assert(value_error(t.schema, values)(i) is None);
    }
    lemma_no_failure(0, n, rule);
    law_insert(store, h, t, values);
    lemma_change_runs(LogicalPlanV::Insert { table: h.name, values }, store);
}

// ---- DELETE ----

/// The table with the picked rows from `from` on deleted.
pub open spec fn without_picked(t: TableV, filter: Option<ExprV>, from: int) -> TableV {
    TableV {
        deleted: Seq::new(
            t.deleted.len(),
            |r: int| t.deleted[r] || (r >= from && picks(filter, t.schema, t.rows[r])),
        ),
        ..t
    }
}

/// That the store holds a table, as one fact.
#[verifier::opaque]
spec fn held(store: StoreV, h: HandleV, t: TableV) -> bool {
    represents(store, h, t)
}

/// Deleting one row.
proof fn lemma_deleted_one(store: StoreV, h: HandleV, t: TableV, r: int)
    requires
        held(store, h, t),
        t.live(r),
        t.rows.len() <= u64::MAX,
    ensures
        ({
            let steps = delete_steps(store, h, r as u64);
            let after = store.after(steps.1);
            &&& steps.0 is None
            &&& held(after, h, t.delete(r))
            &&& confined(store, after, h.dir)
        }),
{
    reveal(held);
    law_delete(store, h, t, r as u64);
}

/// The next of the picked rows, where `rows` from `i` on are those from `from` on.
proof fn lemma_next_picked(t: TableV, filter: Option<ExprV>, rows: RowsV, i: int, from: int)
    requires
        0 <= i <= rows.len(),
        0 <= from < t.rows.len() <= u64::MAX,
        rows.skip(i) == picked(t, filter, from),
    ensures
        if t.live(from) && picks(filter, t.schema, t.rows[from]) {
            &&& i < rows.len()
            &&& rows[i].0 as int == from
            &&& rows[i] == (from as u64, t.rows[from])
            &&& rows.skip(i + 1) == picked(t, filter, from + 1)
        } else {
            rows.skip(i) == picked(t, filter, from + 1)
        },
{
    if t.live(from) && picks(filter, t.schema, t.rows[from]) {
        let tail = picked(t, filter, from + 1);
        assert(rows.skip(i) == seq![(from as u64, t.rows[from])] + tail);
        assert(rows.skip(i).len() == rows.len() - i);
        assert(rows.skip(i)[0] == rows[i]);
        assert(rows.skip(i + 1) =~= rows.skip(i).skip(1));
        assert(rows.skip(i).skip(1) =~= tail);
    }
}

/// Deleting the picked rows one after the other. Of the rows before `from` some
/// are deleted already.
proof fn lemma_deleted_from(
    store: StoreV,
    h: HandleV,
    t: TableV,
    now: TableV,
    filter: Option<ExprV>,
    rows: RowsV,
    i: int,
    from: int,
)
    requires
        held(store, h, now),
        now.schema == t.schema,
        now.row_group_size == t.row_group_size,
        now.rows == t.rows,
        now.deleted.len() == t.deleted.len(),
        t.wf(),
        0 <= from,
        forall|r: int| from <= r < t.rows.len() ==> #[trigger] now.deleted[r] == t.deleted[r],
        0 <= i <= rows.len(),
        rows.skip(i) == picked(t, filter, from),
    ensures
        ({
            let end = deleted_from(store, h, rows, i);
            &&& end.0 is None
            &&& held(end.1, h, without_picked(now, filter, from))
            &&& confined(store, end.1, h.dir)
        }),
    decreases t.rows.len() - from,
{
    let result = without_picked(now, filter, from);
    assert(t.rows.len() <= u64::MAX) by (nonlinear_arith)
        requires
            t.rows.len() <= u32::MAX * t.row_group_size,
    ;
    if from >= t.rows.len() {
        assert(rows.skip(i).len() == rows.len() - i);
        assert(result.deleted =~= now.deleted);
        assert(confined(store, store, h.dir)) by {
            reveal(confined);
        }
    } else {
        lemma_next_picked(t, filter, rows, i, from);
        assert(now.deleted[from] == t.deleted[from]);
        if t.live(from) && picks(filter, t.schema, t.rows[from]) {
            lemma_deleted_one(store, h, now, from);
            let after = store.after(delete_steps(store, h, from as u64).1);
            let next = now.delete(from);
            lemma_deleted_from(after, h, t, next, filter, rows, i + 1, from + 1);
            lemma_confined(store, after, deleted_from(after, h, rows, i + 1).1, h.dir);
            assert(without_picked(next, filter, from + 1).deleted =~= result.deleted);
        } else {
            lemma_deleted_from(store, h, t, now, filter, rows, i, from + 1);
            assert(without_picked(now, filter, from + 1).deleted =~= result.deleted);
        }
    }
}

/// A DELETE deletes exactly the live rows that meet its condition, or all where
/// it has none, and reports how many they were. Nothing outside the table's
/// directory changes.
pub proof fn law_delete_statement(
    store: StoreV,
    h: HandleV,
    t: TableV,
    filter: Option<ExprV>,
)
    requires
        represents(store, h, t),
        sound_filter(filter),
        filter_error(t.schema, filter, h.name) is None,
    ensures
        ({
            let plan = bound_delete(store, h.name, filter);
            let (r, after) = executed(lowered(optimized(plan->Ok_0)), store);
            &&& plan is Ok
            &&& r == Ok::<QueryResultV, ErrorV>(
                QueryResultV::Affected(
                    "Deleted "@ + decimal(picked(t, filter, 0).len() as int) + " row(s) from '"@
                        + h.name + "'"@,
                ),
            )
            &&& represents(after, h, without_picked(t, filter, 0))
            &&& confined(store, after, h.dir)
        }),
{
    lemma_matching(store, h, t, filter);
    let rows = picked(t, filter, 0);
    assert(rows.skip(0) =~= rows);
    reveal(held);
    lemma_deleted_from(store, h, t, t, filter, rows, 0, 0);
    lemma_change_runs(LogicalPlanV::Delete { table: h.name, filter }, store);
}

// ---- UPDATE ----

/// What an UPDATE makes of a row.
pub open spec fn rewritten(
    schema: Seq<ColumnV>,
    assignments: Seq<AssignmentV>,
    row: Seq<ValueV>,
) -> Seq<ValueV> {
    assigned(row, column_names(schema), assignments, assignments.len() as int)
}

/// The table after an UPDATE that has come to row `from`, with `n` of the picked
/// rows rewritten: those are deleted, and their new versions stand behind all
/// other rows.
pub open spec fn partly_updated(
    t: TableV,
    assignments: Seq<AssignmentV>,
    filter: Option<ExprV>,
    from: int,
    n: int,
) -> TableV {
    let rows = picked(t, filter, 0);
    TableV {
        rows: t.rows + Seq::new(n as nat, |i: int| rewritten(t.schema, assignments, rows[i].1)),
        deleted: Seq::new(
            t.deleted.len(),
            |r: int| t.deleted[r] || (r < from && picks(filter, t.schema, t.rows[r])),
        ) + Seq::new(n as nat, |i: int| false),
        ..t
    }
}

/// The table after an UPDATE.
pub open spec fn updated_table(
    t: TableV,
    assignments: Seq<AssignmentV>,
    filter: Option<ExprV>,
) -> TableV {
    partly_updated(
        t,
        assignments,
        filter,
        t.rows.len() as int,
        picked(t, filter, 0).len() as int,
    )
}

/// There is room for the new version of the `n`th picked row: a number, and
/// columns that can be encoded with it.
pub open spec fn room_for(
    t: TableV,
    assignments: Seq<AssignmentV>,
    filter: Option<ExprV>,
    n: int,
) -> bool {
    let rows = picked(t, filter, 0);
    let now = partly_updated(t, assignments, filter, rows[n].0 as int, n);
    let row = rewritten(t.schema, assignments, rows[n].1);
    let group = now.rows.len() as int / now.row_group_size as int;
    &&& now.rows.len() < u32::MAX * now.row_group_size
    &&& forall|c: int|
        0 <= c < now.schema.len() ==> encoded_values(
            now.schema[c].ty,
            #[trigger] now.column(group, c).push(row[c]),
        ) is Ok
}

/// A row that fits the table still fits it after assignments that fit it.
proof fn lemma_assigned_fits(
    t: TableV,
    assignments: Seq<AssignmentV>,
    table: Seq<char>,
    row: Seq<ValueV>,
    n: int,
)
    requires
        record_error(t.schema, row) is None,
        first_failure(
            0,
            assignments.len() as int,
            bad_assignment(t.schema, assignments, table),
        ) is None,
        0 <= n <= assignments.len(),
    ensures
        record_error(t.schema, assigned(row, column_names(t.schema), assignments, n)) is None,
    decreases n,
{
    if n > 0 {
        lemma_assigned_fits(t, assignments, table, row, n - 1);
        let names = column_names(t.schema);
        let before = assigned(row, names, assignments, n - 1);
        let after = assigned(row, names, assignments, n);
        let rule = bad_assignment(t.schema, assignments, table);
        lemma_no_failure(0, assignments.len() as int, rule);
        assert(rule(n - 1) is None);
        let a = assignments[n - 1];
        lemma_position(names, a.column, 0);
        let c = position_of(names, a.column)->0;
        let old_rule = value_error(t.schema, before);
        let new_rule = value_error(t.schema, after);
        lemma_no_failure(0, t.schema.len() as int, old_rule);
        assert forall|k: int| 0 <= k < t.schema.len() implies #[trigger] new_rule(k) is None by {
            assert(old_rule(k) is None);
            if k == c {
                assert(check_value_error(a.value, t.schema[c], table) is None);
            }
        }
        lemma_no_failure(0, t.schema.len() as int, new_rule);
    }
}

/// Updating one picked row.
proof fn lemma_updated_one(
    store: StoreV,
    h: HandleV,
    t: TableV,
    assignments: Seq<AssignmentV>,
    filter: Option<ExprV>,
    from: int,
    n: int,
)
    requires
        t.wf(),
        held(store, h, partly_updated(t, assignments, filter, from, n)),
        h.schema == t.schema,
        first_failure(
            0,
            assignments.len() as int,
            bad_assignment(t.schema, assignments, h.name),
        ) is None,
        0 <= from < t.rows.len() <= u64::MAX,
        t.live(from),
        picks(filter, t.schema, t.rows[from]),
        0 <= n < picked(t, filter, 0).len(),
        picked(t, filter, 0)[n] == (from as u64, t.rows[from]),
        room_for(t, assignments, filter, n),
    ensures
        ({
            let row = rewritten(t.schema, assignments, t.rows[from]);
            let steps = update_steps(store, h, from as u64, row);
            let after = store.after(steps.1);
            &&& steps.0 is None
            &&& held(after, h, partly_updated(t, assignments, filter, from + 1, n + 1))
            &&& confined(store, after, h.dir)
        }),
{
    reveal(held);
    let now = partly_updated(t, assignments, filter, from, n);
    let row = rewritten(t.schema, assignments, t.rows[from]);
    assert(record_error(t.schema, t.rows[from]) is None);
    lemma_assigned_fits(t, assignments, h.name, t.rows[from], assignments.len() as int);
    assert(picked(t, filter, 0)[n].0 as int == from);
    assert(now == partly_updated(t, assignments, filter, picked(t, filter, 0)[n].0 as int, n));
    assert(record_error(now.schema, row) is None);
    assert(rewritten(t.schema, assignments, picked(t, filter, 0)[n].1) == row);
    assert(can_take(now, row));
    assert(now.deleted[from] == t.deleted[from]);
    assert(now.live(from));
    law_update(store, h, now, from as u64, row);
    let next = partly_updated(t, assignments, filter, from + 1, n + 1);
    assert(now.delete(from).insert(row).rows =~= next.rows);
    assert(now.delete(from).insert(row).deleted =~= next.deleted);
}

/// Updating the picked rows one after the other, from the `n`th and from row
/// `from` on.
proof fn lemma_updated_from(
    store: StoreV,
    h: HandleV,
    t: TableV,
    assignments: Seq<AssignmentV>,
    filter: Option<ExprV>,
    from: int,
    n: int,
)
    requires
        t.wf(),
        held(store, h, partly_updated(t, assignments, filter, from, n)),
        h.schema == t.schema,
        first_failure(
            0,
            assignments.len() as int,
            bad_assignment(t.schema, assignments, h.name),
        ) is None,
        forall|k: int|
            n <= k < picked(t, filter, 0).len() ==> #[trigger] room_for(t, assignments, filter, k),
        0 <= from <= t.rows.len(),
        0 <= n <= picked(t, filter, 0).len(),
        picked(t, filter, 0).skip(n) == picked(t, filter, from),
    ensures
        ({
            let end = updated_from(store, h, picked(t, filter, 0), assignments, n);
            &&& end.0 is None
            &&& held(end.1, h, updated_table(t, assignments, filter))
            &&& confined(store, end.1, h.dir)
        }),
    decreases t.rows.len() - from,
{
    let rows = picked(t, filter, 0);
    let now = partly_updated(t, assignments, filter, from, n);
    assert(t.rows.len() <= u64::MAX) by (nonlinear_arith)
        requires
            t.rows.len() <= u32::MAX * t.row_group_size,
    ;
    if from >= t.rows.len() {
        assert(rows.skip(n).len() == rows.len() - n);
        assert(confined(store, store, h.dir)) by {
            reveal(confined);
        }
    } else {
        lemma_next_picked(t, filter, rows, n, from);
        if t.live(from) && picks(filter, t.schema, t.rows[from]) {
            let row = rewritten(t.schema, assignments, t.rows[from]);
            assert(room_for(t, assignments, filter, n));
            lemma_updated_one(store, h, t, assignments, filter, from, n);
            let after = store.after(update_steps(store, h, from as u64, row).1);
            lemma_updated_from(after, h, t, assignments, filter, from + 1, n + 1);
            let end = updated_from(after, h, rows, assignments, n + 1).1;
            lemma_confined(store, after, end, h.dir);
        } else {
            let next = partly_updated(t, assignments, filter, from + 1, n);
            assert(next.deleted =~= now.deleted);
            lemma_updated_from(store, h, t, assignments, filter, from + 1, n);
        }
    }
}

/// An UPDATE replaces exactly the live rows that meet its condition, or all
/// where it has none, by what the assignments make of them, and reports how
/// many they were. Every other row stays as it is, and nothing outside the
/// table's directory changes.
pub proof fn law_update_statement(
    store: StoreV,
    h: HandleV,
    t: TableV,
    assignments: Seq<AssignmentV>,
    filter: Option<ExprV>,
)
    requires
        represents(store, h, t),
        sound_filter(filter),
        bound_update(store, h.name, assignments, filter) is Ok,
        forall|k: int|
            0 <= k < picked(t, filter, 0).len() ==> #[trigger] room_for(t, assignments, filter, k),
    ensures
        ({
            let plan = bound_update(store, h.name, assignments, filter)->Ok_0;
            let (r, after) = executed(lowered(optimized(plan)), store);
            &&& r == Ok::<QueryResultV, ErrorV>(
                QueryResultV::Affected(
                    "Updated "@ + decimal(picked(t, filter, 0).len() as int) + " row(s) in '"@
                        + h.name + "'"@,
                ),
            )
            &&& represents(after, h, updated_table(t, assignments, filter))
            &&& confined(store, after, h.dir)
        }),
{
    lemma_matching(store, h, t, filter);
    let rows = picked(t, filter, 0);
    assert(rows.skip(0) =~= rows);
    let start = partly_updated(t, assignments, filter, 0, 0);
    assert(start.rows =~= t.rows);
    assert(start.deleted =~= t.deleted);
    reveal(held);
    lemma_updated_from(store, h, t, assignments, filter, 0, 0);
    lemma_change_runs(LogicalPlanV::Update { table: h.name, assignments, filter }, store);
}

} // verus!
