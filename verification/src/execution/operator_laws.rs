//! How the operators of a query treat what they cannot work on: errors in their
//! input, columns that are missing, input that is empty.

use vstd::prelude::*;

use crate::catalog::tables::CatalogV;
use crate::error::ErrorV;
use crate::execution::physical::batch::{chosen_column, projected_batch};
use crate::execution::physical::executor::{
    executed, matching_from, output_names, stream_of, RowsV,
};
use crate::execution::physical::expr::mask_of;
use crate::execution::physical::plan::PhysicalPlanV;
use crate::execution::physical::result::{batch_rows, collected, rows_result, QueryResultV};
use crate::execution::physical::sort::{appended, gather, sorted, top_rows};
use crate::execution::physical::stream::{
    filtered_items, limited_items, projected_items, stacked_items, Items,
};
use crate::parser::ast::{AssignmentV, ExprV};
use crate::steps::{law_all_results_are_there, law_first_error_counts};
use crate::storage::model::StoreV;
use crate::storage::{BatchV, ColumnBatch, ValueV};
use crate::text::lemma_position;

verus! {

// ---- streams ----

/// A filter gives one item for each item of its input: an error as it is, a
/// batch with the same columns, or the error of the condition.
pub proof fn law_filter_keeps_errors(e: ExprV, items: Items, i: int)
    requires
        0 <= i < items.len(),
    ensures
        filtered_items(e, items).len() == items.len(),
        items[i] is Err ==> filtered_items(e, items)[i] == items[i],
        items[i] matches Ok(b) ==> (filtered_items(e, items)[i] is Ok <==> mask_of(e, b) is Ok),
        items[i] is Ok && filtered_items(e, items)[i] is Err ==> filtered_items(
            e,
            items,
        )[i]->Err_0 == mask_of(e, items[i]->Ok_0)->Err_0,
        items[i] is Ok && filtered_items(e, items)[i] is Ok ==> filtered_items(
            e,
            items,
        )[i]->Ok_0.names == items[i]->Ok_0.names && filtered_items(
            e,
            items,
        )[i]->Ok_0.columns.len() == items[i]->Ok_0.columns.len(),
{
}

/// A projection gives one item for each item of its input, and an error as it
/// is.
pub proof fn law_projection_keeps_errors(names: Seq<Seq<char>>, items: Items, i: int)
    requires
        0 <= i < items.len(),
    ensures
        projected_items(names, items).len() == items.len(),
        items[i] is Err ==> projected_items(names, items)[i] == items[i],
        items[i] is Ok ==> projected_items(names, items)[i] == projected_batch(
            items[i]->Ok_0,
            names,
        ),
{
}

/// A projected batch has the columns that are asked for, in the order asked:
/// each is the column of the input under that name, the first of several.
pub proof fn law_projected_columns(b: BatchV, names: Seq<Seq<char>>, k: int, c: int)
    requires
        forall|j: int| 0 <= j < names.len() ==> b.names.contains(#[trigger] names[j]),
        0 <= k < names.len(),
        0 <= c < b.names.len(),
        b.names[c] == names[k],
        forall|d: int| 0 <= d < c ==> b.names[d] != names[k],
    ensures
        projected_batch(b, names) is Ok,
        projected_batch(b, names)->Ok_0.names == names,
        projected_batch(b, names)->Ok_0.columns.len() == names.len(),
        projected_batch(b, names)->Ok_0.columns[k] == b.columns[c],
{
    let f = chosen_column(b, names);
    let n = names.len() as int;
    assert forall|j: int| 0 <= j < n implies (#[trigger] f(j)) is Ok by {
        assert(b.names.contains(names[j]));
        lemma_position(b.names, names[j], 0);
    }
    lemma_position(b.names, names[k], 0);
    assert(f(k) == Ok::<Seq<ValueV>, ErrorV>(b.columns[c]));
    law_all_results_are_there(n, f);
}

/// A column that is asked for and is not there is refused by name: the first
/// such column counts.
pub proof fn law_projection_of_a_missing_column(b: BatchV, names: Seq<Seq<char>>, k: int)
    requires
        0 <= k < names.len(),
        !b.names.contains(names[k]),
        forall|j: int| 0 <= j < k ==> b.names.contains(#[trigger] names[j]),
    ensures
        projected_batch(b, names) == Err::<BatchV, ErrorV>(
            ErrorV::Other(
                "projection references column '"@ + names[k] + "' not present in the input"@,
            ),
        ),
{
    let f = chosen_column(b, names);
    assert forall|j: int| 0 <= j < k implies (#[trigger] f(j)) is Ok by {
        assert(b.names.contains(names[j]));
        lemma_position(b.names, names[j], 0);
    }
    lemma_position(b.names, names[k], 0);
    law_first_error_counts(names.len() as int, f, k);
}

/// A limit of zero gives nothing; an error in front takes no row from the
/// limit.
pub proof fn law_limit_passes_errors_on(count: int, e: ErrorV, items: Items)
    ensures
        limited_items(0, items).len() == 0,
        count > 0 ==> limited_items(count, seq![Err::<BatchV, ErrorV>(e)] + items).len() == 1
            + limited_items(count, items).len(),
        count > 0 ==> limited_items(count, seq![Err::<BatchV, ErrorV>(e)] + items)[0] == Err::<
            BatchV,
            ErrorV,
        >(e),
        count > 0 ==> limited_items(count, seq![Err::<BatchV, ErrorV>(e)] + items).skip(1)
            == limited_items(count, items),
{
    let all = seq![Err::<BatchV, ErrorV>(e)] + items;
    assert(all.skip(1) =~= items);
    if count > 0 {
        assert(limited_items(count, all).skip(1) =~= limited_items(count, items));
    }
}

/// Batches on a stack come out last to first.
pub proof fn law_stack_is_last_to_first(batches: Seq<ColumnBatch>, i: int)
    requires
        0 <= i < batches.len(),
    ensures
        stacked_items(batches).len() == batches.len(),
        stacked_items(batches)[i] == Ok::<BatchV, ErrorV>(batches[batches.len() - 1 - i]@),
{
}

// ---- sorting ----

/// The first error of a stream is what gathering it gives.
proof fn lemma_gather_error(gathered: Option<BatchV>, items: Items, e: ErrorV, i: int)
    requires
        0 <= i < items.len(),
        items[i] == Err::<BatchV, ErrorV>(e),
        forall|j: int| 0 <= j < i ==> (#[trigger] items[j]) is Ok,
    ensures
        gather(gathered, items) == Err::<Option<BatchV>, ErrorV>(e),
    decreases items.len(),
{
    if i > 0 {
        assert(items[0] is Ok);
        let b = items[0]->Ok_0;
        let rest = items.skip(1);
        assert forall|j: int| 0 <= j < i - 1 implies (#[trigger] rest[j]) is Ok by {
            assert(items[j + 1] is Ok);
        }
        lemma_gather_error(Some(appended(gathered, b)), rest, e, i - 1);
    }
}

/// Sorting fails with the first error of its input, and gives nothing where the
/// input is empty.
pub proof fn law_sort_fails_with_the_first_error(
    items: Items,
    column: Seq<char>,
    descending: bool,
    e: ErrorV,
    i: int,
)
    requires
        0 <= i < items.len(),
        items[i] == Err::<BatchV, ErrorV>(e),
        forall|j: int| 0 <= j < i ==> (#[trigger] items[j]) is Ok,
    ensures
        sorted(items, column, descending) == Err::<Option<BatchV>, ErrorV>(e),
        sorted(Seq::empty(), column, descending) == Ok::<Option<BatchV>, ErrorV>(None),
{
    lemma_gather_error(None, items, e, i);
}

/// The first rows of an order fail with the first error of the input too, where
/// the column is there; they are none where the input is empty.
pub proof fn law_top_rows_fail_with_the_first_error(
    items: Items,
    column: Seq<char>,
    descending: bool,
    count: int,
    e: ErrorV,
    i: int,
)
    requires
        0 <= i < items.len(),
        items[i] == Err::<BatchV, ErrorV>(e),
        forall|j: int| 0 <= j < i ==> (#[trigger] items[j]) is Ok,
        items[0] matches Ok(b) ==> b.names.contains(column),
    ensures
        top_rows(items, column, descending, count) == Err::<Option<BatchV>, ErrorV>(e),
        top_rows(Seq::empty(), column, descending, count) == Ok::<Option<BatchV>, ErrorV>(None),
{
    lemma_gather_error(None, items, e, i);
    if let Ok(b) = items[0] {
        lemma_position(b.names, column, 0);
    }
}

/// Ordering by a column that is not there is refused, with its name.
pub proof fn law_order_by_a_missing_column(
    b: BatchV,
    column: Seq<char>,
    descending: bool,
    count: int,
)
    requires
        !b.names.contains(column),
    ensures
        ({
            let items = seq![Ok::<BatchV, ErrorV>(b)];
            let refused = Err::<Option<BatchV>, ErrorV>(
                ErrorV::Other(
                    "ORDER BY column '"@ + column
                        + "' is not available; it must be one of the selected columns"@,
                ),
            );
            sorted(items, column, descending) == refused && top_rows(
                items,
                column,
                descending,
                count,
            ) == refused
        }),
{
    let items = seq![Ok::<BatchV, ErrorV>(b)];
    reveal_with_fuel(gather, 3);
    assert(items.skip(1) =~= Seq::empty());
    lemma_position(b.names, column, 0);
}

// ---- results ----

/// The first error of a stream is what collecting it gives.
proof fn lemma_collected_error(done: Seq<Seq<ValueV>>, items: Items, e: ErrorV, i: int)
    requires
        0 <= i < items.len(),
        items[i] == Err::<BatchV, ErrorV>(e),
        forall|j: int| 0 <= j < i ==> (#[trigger] items[j]) is Ok,
    ensures
        collected(done, items) == Err::<Seq<Seq<ValueV>>, ErrorV>(e),
    decreases items.len(),
{
    if i > 0 {
        assert(items[0] is Ok);
        let b = items[0]->Ok_0;
        let rest = items.skip(1);
        assert forall|j: int| 0 <= j < i - 1 implies (#[trigger] rest[j]) is Ok by {
            assert(items[j + 1] is Ok);
        }
        lemma_collected_error(done + batch_rows(b), rest, e, i - 1);
    }
}

/// A query whose stream holds an error fails with it, the first of several.
pub proof fn law_result_is_the_first_error(names: Seq<Seq<char>>, items: Items, e: ErrorV, i: int)
    requires
        0 <= i < items.len(),
        items[i] == Err::<BatchV, ErrorV>(e),
        forall|j: int| 0 <= j < i ==> (#[trigger] items[j]) is Ok,
    ensures
        rows_result(names, items) == Err::<QueryResultV, ErrorV>(e),
{
    lemma_collected_error(Seq::empty(), items, e, i);
}

/// Reading the rows of a table for a change stops at the first error.
pub proof fn law_matching_stops_at_an_error(
    found: RowsV,
    names: Seq<Seq<char>>,
    filter: Option<ExprV>,
    e: ErrorV,
    rest: Seq<Result<(u64, Seq<ValueV>), ErrorV>>,
)
    ensures
        matching_from(
            found,
            names,
            filter,
            seq![Err::<(u64, Seq<ValueV>), ErrorV>(e)] + rest,
        ) == Err::<RowsV, ErrorV>(e),
        matching_from(found, names, filter, Seq::empty()) == Ok::<RowsV, ErrorV>(found),
{
}

// ---- plans ----

/// A statement that is no query has no rows to stream.
pub proof fn law_only_queries_have_rows(plan: PhysicalPlanV, store: StoreV)
    requires
        plan is CreateTableExec || plan is InsertExec || plan is DropTableExec
            || plan is ShowTablesExec || plan is DescribeExec || plan is DeleteExec
            || plan is UpdateExec,
    ensures
        stream_of(plan, store) == Err::<Items, ErrorV>(
            ErrorV::Other("DDL/DML operator cannot appear inside a query pipeline"@),
        ),
        output_names(plan) == Err::<Seq<Seq<char>>, ErrorV>(
            ErrorV::Other("statement produces no row output"@),
        ),
{
}

/// The columns of a query's rows are those of its projection; where there is
/// none, those of the scan, which must name them.
pub proof fn law_names_of_the_rows(
    table: Seq<char>,
    names: Seq<Seq<char>>,
    scan: PhysicalPlanV,
    input: PhysicalPlanV,
    predicate: ExprV,
    column: Seq<char>,
    descending: bool,
    count: u64,
)
    requires
        scan is TableScanExec,
        scan->TableScanExec_table == table,
    ensures
        output_names(
            PhysicalPlanV::ProjectionExec { columns: names, input: Box::new(input) },
        ) == Ok::<Seq<Seq<char>>, ErrorV>(names),
        output_names(PhysicalPlanV::FilterExec { predicate, input: Box::new(input) })
            == output_names(input),
        output_names(PhysicalPlanV::SortExec { column, descending, input: Box::new(input) })
            == output_names(input),
        output_names(PhysicalPlanV::LimitExec { count, input: Box::new(input) }) == output_names(
            input,
        ),
        output_names(
            PhysicalPlanV::TopKExec { column, descending, count, input: Box::new(input) },
        ) == output_names(input),
        scan->projection == Some(names) ==> output_names(scan) == Ok::<Seq<Seq<char>>, ErrorV>(
            names,
        ),
        scan->projection is None ==> output_names(scan) == Err::<Seq<Seq<char>>, ErrorV>(
            ErrorV::Other("scan of '"@ + table + "' has no resolved output columns"@),
        ),
{
}

/// A statement on a table that is not there fails, says which table, and changes
/// nothing.
pub proof fn law_missing_tables_are_refused(
    store: StoreV,
    table: Seq<char>,
    values: Seq<ValueV>,
    assignments: Seq<AssignmentV>,
    filter: Option<ExprV>,
    extended: bool,
)
    requires
        forall|i: int|
            0 <= i < store.catalog.tables.len() ==> (#[trigger] store.catalog.tables[i]).name
                != table,
    ensures
        ({
            let refused = (
                Err::<QueryResultV, ErrorV>(ErrorV::TableNotFound(table)),
                store,
            );
            &&& executed(PhysicalPlanV::InsertExec { table, values }, store) == refused
            &&& executed(PhysicalPlanV::DropTableExec { table }, store) == refused
            &&& executed(PhysicalPlanV::DescribeExec { table, extended }, store) == refused
            &&& executed(PhysicalPlanV::DeleteExec { table, filter }, store) == refused
            &&& executed(PhysicalPlanV::UpdateExec { table, assignments, filter }, store)
                == refused
        }),
{
    lemma_not_listed(store.catalog, table);
}

/// A name that is not listed has no directory.
proof fn lemma_not_listed(c: CatalogV, name: Seq<char>)
    requires
        forall|i: int| 0 <= i < c.tables.len() ==> (#[trigger] c.tables[i]).name != name,
    ensures
        c.dir_of(name) == Err::<Seq<char>, ErrorV>(ErrorV::TableNotFound(name)),
    decreases c.tables.len(),
{
    if c.tables.len() > 0 {
        let rest = CatalogV { tables: c.tables.skip(1), ..c };
        assert forall|i: int| 0 <= i < rest.tables.len() implies (#[trigger] rest.tables[i]).name
            != name by {
            assert(c.tables[i + 1].name != name);
        }
        assert(c.tables[0].name != name);
        lemma_not_listed(rest, name);
    }
}

} // verus!
