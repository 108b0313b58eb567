//! The executor: walk a physical plan against storage.
//!
//! [`execute`] handles the root: statements that change something run for their
//! effect, and a query has its output names read off the plan and its stream
//! drained into rows. [`execute_stream`] builds that lazy, pull-based stream.

use vstd::prelude::*;

use crate::bytes::bit_set;
use crate::catalog::schema::{type_text, ColumnV};
use crate::catalog::tables::{DescriptorV, TableOptions};
use crate::error::{outcome, Error, ErrorV};
use crate::execution::logical::binder::{build_schema, schema_of};
use crate::execution::physical::batch::even;
use crate::execution::physical::expr::{
    evaluate_predicate, lemma_mask_len, literal_value, mask_of,
};
use crate::execution::physical::plan::{PhysicalPlan, PhysicalPlanV};
use crate::execution::physical::result::{
    collect_rows, rows_result, rows_view, QueryResult, QueryResultV,
};
use crate::execution::physical::sort::{sort_batches, sorted, top_k, top_rows};
use crate::execution::physical::stream::{
    filtered_items, lemma_scan_sound, limited_items, projected_items, BatchStream, Items,
};
use crate::parser::ast::{
    assignments_view, column_defs_view, filter_view, literals_view, Assignment, AssignmentV,
    ColumnDef, ColumnDefV, Expr, ExprV, Literal,
};
use crate::steps::lemma_collected;
use crate::storage::model::{
    batch_scan_of, column_names, create_effects, delete_steps, group_rows, insert_steps,
    loaded_group, next_rid, raw_column, row_at, row_items, row_scan_of, scan_items, stored_rows,
    update_steps, HandleV, RowScanV, StoreV,
};
use crate::storage::model_lemmas::lemma_update_advances;
use crate::storage::{
    data_view, values_view, BatchV, ColumnBatch, Record, Rid, Storage, TableHandle, Value, ValueV,
};
use crate::text::{
    clone_texts, decimal, join3, join4, join5, lemma_position, position, position_of, texts,
    u32_text, u64_text, usize_text,
};

verus! {

// ---- queries ----

/// The items of an operator that gives one batch or none.
pub open spec fn blocking_items(r: Result<Option<BatchV>, ErrorV>) -> Result<Items, ErrorV> {
    match r {
        Err(e) => Err(e),
        Ok(None) => Ok(Seq::empty()),
        Ok(Some(b)) => Ok(seq![Ok::<BatchV, ErrorV>(b)]),
    }
}

/// What the stream of a relational operator yields, or why it cannot be built.
pub open spec fn stream_of(plan: PhysicalPlanV, store: StoreV) -> Result<Items, ErrorV>
    decreases plan,
{
    match plan {
        PhysicalPlanV::TableScanExec { table, projection, prune } => match store.opened(table) {
            Err(e) => Err(e),
            Ok(h) => match batch_scan_of(store, h, projection, prune) {
                Err(e) => Err(e),
                Ok(s) => Ok(scan_items(s, 0)),
            },
        },
        PhysicalPlanV::FilterExec { predicate, input } => match stream_of(*input, store) {
            Err(e) => Err(e),
            Ok(items) => Ok(filtered_items(predicate, items)),
        },
        PhysicalPlanV::ProjectionExec { columns, input } => match stream_of(*input, store) {
            Err(e) => Err(e),
            Ok(items) => Ok(projected_items(columns, items)),
        },
        PhysicalPlanV::SortExec { column, descending, input } => match stream_of(*input, store) {
            Err(e) => Err(e),
            Ok(items) => blocking_items(sorted(items, column, descending)),
        },
        PhysicalPlanV::LimitExec { count, input } => match stream_of(*input, store) {
            Err(e) => Err(e),
            Ok(items) => Ok(limited_items(count as int, items)),
        },
        PhysicalPlanV::TopKExec { column, descending, count, input } => match stream_of(
            *input,
            store,
        ) {
            Err(e) => Err(e),
            Ok(items) => blocking_items(top_rows(items, column, descending, count as int)),
        },
        _ => Err(ErrorV::Other("DDL/DML operator cannot appear inside a query pipeline"@)),
    }
}

/// The stream of what a blocking operator gave.
fn blocking_stream<'a>(batch: Option<ColumnBatch>) -> (r: BatchStream<'a>)
    requires
        batch matches Some(b) ==> even(b@),
    ensures
        r.wf(),
        r.items() == match batch {
            None => Seq::empty(),
            Some(b) => seq![Ok::<BatchV, ErrorV>(b@)],
        },
{
    let mut batches: Vec<ColumnBatch> = Vec::new();
    match batch {
        None => {},
        Some(b) => {
            batches.push(b);
        },
    }
    let r = BatchStream::of(batches);
    assert(r.items() =~= match batch {
        None => Seq::empty(),
        Some(b) => seq![Ok::<BatchV, ErrorV>(b@)],
    });
    r
}

/// Build the lazy batch stream of a relational operator. It borrows `store` for
/// as long as it lives, so that the whole pipeline reads through one borrow.
pub fn execute_stream<'a, S: Storage>(plan: &'a PhysicalPlan, store: &'a S) -> (r: Result<
    BatchStream<'a>,
    Error,
>)
    ensures
        match r {
            Ok(s) => stream_of(plan@, store.store()) == Ok::<Items, ErrorV>(s.items()) && s.wf(),
            Err(e) => stream_of(plan@, store.store()) == Err::<Items, ErrorV>(e@),
        },
    decreases plan,
{
    match plan {
        PhysicalPlan::TableScanExec { table, projection, prune } => {
            let handle = match store.open_table(table.as_str()) {
                Err(e) => {
                    return Err(e);
                },
                Ok(h) => h,
            };
            match store.scan_batches(&handle, projection.as_ref(), prune) {
                Err(e) => Err(e),
                Ok(s) => {
                    proof {
                        lemma_scan_sound(s@, 0);
                    }
                    Ok(BatchStream::Scan(s))
                },
            }
        },
        PhysicalPlan::FilterExec { predicate, input } => {
            match execute_stream(input, store) {
                Err(e) => Err(e),
                Ok(source) => Ok(BatchStream::Filter { predicate, input: Box::new(source) }),
            }
        },
        PhysicalPlan::ProjectionExec { columns, input } => {
            match execute_stream(input, store) {
                Err(e) => Err(e),
                Ok(source) => Ok(BatchStream::Project { columns, input: Box::new(source) }),
            }
        },
        PhysicalPlan::SortExec { column, descending, input } => {
            // Sorting is blocking: drain the whole input, order it, then give a
            // single batch.
            let source = match execute_stream(input, store) {
                Err(e) => {
                    return Err(e);
                },
                Ok(s) => s,
            };
            match sort_batches(source, column.as_str(), *descending) {
                Err(e) => Err(e),
                Ok(batch) => Ok(blocking_stream(batch)),
            }
        },
        PhysicalPlan::LimitExec { count, input } => {
            match execute_stream(input, store) {
                Err(e) => Err(e),
                Ok(source) => Ok(
                    BatchStream::Limit { remaining: *count, input: Box::new(source) },
                ),
            }
        },
        PhysicalPlan::TopKExec { column, descending, count, input } => {
            // Blocking, like a sort, but holds only the best `count` rows.
            let source = match execute_stream(input, store) {
                Err(e) => {
                    return Err(e);
                },
                Ok(s) => s,
            };
            match top_k(source, column.as_str(), *descending, *count) {
                Err(e) => Err(e),
                Ok(batch) => Ok(blocking_stream(batch)),
            }
        },
        _ => Err(Error::other("DDL/DML operator cannot appear inside a query pipeline")),
    }
}

/// The column names that a relational plan gives, in order, from its shape
/// alone.
pub open spec fn output_names(plan: PhysicalPlanV) -> Result<Seq<Seq<char>>, ErrorV>
    decreases plan,
{
    match plan {
        PhysicalPlanV::ProjectionExec { columns, .. } => Ok(columns),
        PhysicalPlanV::FilterExec { input, .. } => output_names(*input),
        PhysicalPlanV::SortExec { input, .. } => output_names(*input),
        PhysicalPlanV::LimitExec { input, .. } => output_names(*input),
        PhysicalPlanV::TopKExec { input, .. } => output_names(*input),
        PhysicalPlanV::TableScanExec { table, projection, .. } => match projection {
            Some(names) => Ok(names),
            None => Err(
                ErrorV::Other("scan of '"@ + table + "' has no resolved output columns"@),
            ),
        },
        _ => Err(ErrorV::Other("statement produces no row output"@)),
    }
}

/// The column names that a relational plan gives, in order, from its shape
/// alone, so that an empty result still has a header.
pub fn output_columns(plan: &PhysicalPlan) -> (r: Result<Vec<String>, Error>)
    ensures
        match r {
            Ok(names) => output_names(plan@) == Ok::<Seq<Seq<char>>, ErrorV>(texts(names@)),
            Err(e) => output_names(plan@) == Err::<Seq<Seq<char>>, ErrorV>(e@),
        },
    decreases plan,
{
    match plan {
        PhysicalPlan::ProjectionExec { columns, input: _ } => Ok(clone_texts(columns)),
        PhysicalPlan::FilterExec { predicate: _, input } => output_columns(input),
        PhysicalPlan::SortExec { column: _, descending: _, input } => output_columns(input),
        PhysicalPlan::LimitExec { count: _, input } => output_columns(input),
        PhysicalPlan::TopKExec { column: _, descending: _, count: _, input } => output_columns(
            input,
        ),
        PhysicalPlan::TableScanExec { table, projection, prune: _ } => match projection {
            Some(names) => Ok(clone_texts(names)),
            None => {
                let m = join3("scan of '", table.as_str(), "' has no resolved output columns");
                Err(Error::other(m.as_str()))
            },
        },
        _ => Err(Error::other("statement produces no row output")),
    }
}

/// The result of a query.
pub open spec fn queried(plan: PhysicalPlanV, store: StoreV) -> Result<QueryResultV, ErrorV> {
    match output_names(plan) {
        Err(e) => Err(e),
        Ok(names) => match stream_of(plan, store) {
            Err(e) => Err(e),
            Ok(items) => rows_result(names, items),
        },
    }
}

fn exec_query<S: Storage>(plan: &PhysicalPlan, store: &S) -> (r: Result<QueryResult, Error>)
    ensures
        outcome(r) == queried(plan@, store.store()),
{
    let names = match output_columns(plan) {
        Err(e) => {
            return Err(e);
        },
        Ok(n) => n,
    };
    match execute_stream(plan, store) {
        Err(e) => Err(e),
        Ok(stream) => collect_rows(names, stream),
    }
}

// ---- statements ----

/// What a statement gives, and the store that it leaves.
pub type ExecutedV = (Result<QueryResultV, ErrorV>, StoreV);

/// Creating a table.
pub open spec fn created(store: StoreV, table: Seq<char>, columns: Seq<ColumnDefV>) -> ExecutedV {
    let schema = schema_of(columns);
    match store.catalog.create_error(table, schema) {
        Some(e) => (Err(e), store),
        None => (
            Ok(
                QueryResultV::Affected(
                    "Created table '"@ + table + "' (id="@ + decimal(
                        store.catalog.next_table_id as int,
                    ) + ")"@,
                ),
            ),
            StoreV {
                catalog: store.catalog.with_table(table),
                ..store.after(
                    create_effects(store, table, schema, TableOptions { row_group_size: None }),
                )
            },
        ),
    }
}

/// Run a CREATE TABLE: register the table. Storage creates its structures and
/// keeps the schema, so that the table survives a restart.
fn exec_create_table<S: Storage>(table: &String, columns: &Vec<ColumnDef>, store: &mut S) -> (r:
    Result<QueryResult, Error>)
    requires
        old(store).store().catalog.next_table_id < u64::MAX,
    ensures
        (outcome(r), final(store).store()) == created(
            old(store).store(),
            table@,
            column_defs_view(columns@),
        ),
{
    let schema = build_schema(columns);
    match store.create_table(table.as_str(), schema, TableOptions { row_group_size: None }) {
        Err(e) => Err(e),
        Ok(id) => {
            let shown = u64_text(id);
            Ok(
                QueryResult::Affected(
                    join5("Created table '", table.as_str(), "' (id=", shown.as_str(), ")"),
                ),
            )
        },
    }
}

/// Inserting a row.
pub open spec fn inserted(store: StoreV, table: Seq<char>, values: Seq<ValueV>) -> ExecutedV {
    match store.opened(table) {
        Err(e) => (Err(e), store),
        Ok(h) => {
            let steps = insert_steps(store, h, values);
            (
                match steps.0 {
                    Some(e) => Err(e),
                    None => Ok(
                        QueryResultV::Affected(
                            "Inserted into '"@ + table + "' as rid "@ + decimal(
                                next_rid(store, h) as int,
                            ),
                        ),
                    ),
                },
                store.after(steps.1),
            )
        },
    }
}

/// The record that literals stand for.
fn literals_record(values: &Vec<Literal>) -> (r: Record)
    ensures
        r@ == literals_view(values@),
{
    let mut out: Vec<Value> = Vec::new();
    let mut i: usize = 0;
    while i < values.len()
        invariant
            i <= values@.len(),
            out@.len() == i,
            forall|j: int| 0 <= j < i ==> (#[trigger] out@[j])@ == values@[j]@,
        decreases values.len() - i,
    {
        out.push(literal_value(&values[i]));
        i = i + 1;
    }
    assert(values_view(out@) =~= literals_view(values@));
    Record { values: out }
}

/// There is room for `count` more rows in the table that `h` names.
pub open spec fn room(store: StoreV, h: HandleV, count: int) -> bool {
    &&& h.row_group_size > 0
    &&& store.described(h.name) matches Ok(d) ==> d.next_rid + count <= u64::MAX
}

/// Run an INSERT: open the table, turn the literals into a record, and append
/// it.
fn exec_insert<S: Storage>(table: &String, values: &Vec<Literal>, store: &mut S) -> (r: Result<
    QueryResult,
    Error,
>)
    requires
        old(store).store().opened(table@) matches Ok(h) ==> room(old(store).store(), h, 1),
    ensures
        (outcome(r), final(store).store()) == inserted(
            old(store).store(),
            table@,
            literals_view(values@),
        ),
{
    let handle = match store.open_table(table.as_str()) {
        Err(e) => {
            return Err(e);
        },
        Ok(h) => h,
    };
    let record = literals_record(values);
    match store.insert(&handle, record) {
        Err(e) => Err(e),
        Ok(rid) => {
            let shown = u64_text(rid.0);
            Ok(
                QueryResult::Affected(
                    join4("Inserted into '", table.as_str(), "' as rid ", shown.as_str()),
                ),
            )
        },
    }
}

/// Dropping a table.
pub open spec fn dropped(store: StoreV, table: Seq<char>) -> ExecutedV {
    match store.catalog.dir_of(table) {
        Err(e) => (Err(e), store),
        Ok(_) => (
            Ok(QueryResultV::Affected("Dropped table '"@ + table + "'"@)),
            StoreV {
                catalog: store.catalog.without_table(table),
                ..store.after(store.catalog.drop_effects(table))
            },
        ),
    }
}

/// Run a DROP TABLE.
fn exec_drop_table<S: Storage>(table: &String, store: &mut S) -> (r: Result<QueryResult, Error>)
    ensures
        (outcome(r), final(store).store()) == dropped(old(store).store(), table@),
{
    match store.drop_table(table.as_str()) {
        Err(e) => Err(e),
        Ok(_) => Ok(QueryResult::Affected(join3("Dropped table '", table.as_str(), "'"))),
    }
}

/// The tables, one row each, in order.
pub open spec fn table_list(store: StoreV) -> QueryResultV {
    QueryResultV::Rows {
        names: seq!["table_name"@],
        rows: Seq::new(
            store.catalog.tables.len(),
            |i: int| seq![ValueV::Text(store.catalog.tables[i].name)],
        ),
    }
}

/// Run a SHOW TABLES.
fn exec_show_tables<S: Storage>(store: &S) -> (r: Result<QueryResult, Error>)
    ensures
        outcome(r) == Ok::<QueryResultV, ErrorV>(table_list(store.store())),
{
    let tables = match store.list_tables() {
        Err(e) => {
            return Err(e);
        },
        Ok(t) => t,
    };
    let ghost shown = texts(tables@);
    let mut names: Vec<String> = Vec::new();
    names.push("table_name".to_string());
    let mut rows: Vec<Vec<Value>> = Vec::new();
    let mut i: usize = 0;
    while i < tables.len()
        invariant
            i <= tables@.len(),
            rows@.len() == i,
            shown == texts(tables@),
            forall|j: int|
                0 <= j < i ==> values_view((#[trigger] rows@[j])@) == seq![ValueV::Text(shown[j])],
        decreases tables.len() - i,
    {
        let mut row: Vec<Value> = Vec::new();
        row.push(Value::Text(tables[i].clone()));
        assert(values_view(row@) =~= seq![ValueV::Text(shown[i as int])]);
        rows.push(row);
        i = i + 1;
    }
    proof {
        let wanted = table_list(store.store());
        assert(texts(names@) =~= seq!["table_name"@]);
        assert(shown.len() == store.store().catalog.tables.len());
        assert forall|j: int| 0 <= j < shown.len() implies rows_view(rows@)[j] == wanted->rows[j] by {
            assert(values_view(rows@[j]@) == seq![ValueV::Text(shown[j])]);
        }
        assert(rows_view(rows@) =~= wanted->rows);
    }
    Ok(QueryResult::Rows { names, rows })
}

/// A row of three texts.
pub open spec fn text_row(a: Seq<char>, b: Seq<char>, c: Seq<char>) -> Seq<ValueV> {
    seq![ValueV::Text(a), ValueV::Text(b), ValueV::Text(c)]
}

/// A row of three texts.
fn build_text_row(a: String, b: String, c: String) -> (r: Vec<Value>)
    ensures
        values_view(r@) == text_row(a@, b@, c@),
{
    let mut r: Vec<Value> = Vec::new();
    r.push(Value::Text(a));
    r.push(Value::Text(b));
    r.push(Value::Text(c));
    assert(values_view(r@) =~= text_row(a@, b@, c@));
    r
}

/// The row that describes a column.
pub open spec fn column_row(c: ColumnV) -> Seq<ValueV> {
    text_row(
        c.name,
        type_text(c.ty),
        if c.nullable {
            "YES"@
        } else {
            "NO"@
        },
    )
}

/// What is known of a table: a row per column, and where more is asked for, its
/// identifier, its storage and its row-group size.
pub open spec fn description(d: DescriptorV, extended: bool) -> QueryResultV {
    let columns = Seq::new(d.schema.len(), |i: int| column_row(d.schema[i]));
    QueryResultV::Rows {
        names: seq!["column_name"@, "type"@, "nullable"@],
        rows: if extended {
            columns + seq![
                text_row("# table_id"@, decimal(d.id as int), ""@),
                text_row("# storage"@, d.storage_track, ""@),
                text_row("# row_group_size"@, decimal(d.row_group_size as int), ""@),
            ]
        } else {
            columns
        },
    }
}

/// Describing a table.
pub open spec fn described_rows(store: StoreV, table: Seq<char>, extended: bool) -> Result<
    QueryResultV,
    ErrorV,
> {
    match store.described(table) {
        Err(e) => Err(e),
        Ok(d) => Ok(description(d, extended)),
    }
}

/// Run a DESCRIBE.
fn exec_describe<S: Storage>(table: &String, extended: bool, store: &S) -> (r: Result<
    QueryResult,
    Error,
>)
    ensures
        outcome(r) == described_rows(store.store(), table@, extended),
{
    let desc = match store.describe_table(table.as_str()) {
        Err(e) => {
            return Err(e);
        },
        Ok(d) => d,
    };
    let mut names: Vec<String> = Vec::new();
    names.push("column_name".to_string());
    names.push("type".to_string());
    names.push("nullable".to_string());
    let mut rows: Vec<Vec<Value>> = Vec::new();
    let ghost schema = desc.schema@;
    let mut i: usize = 0;
    while i < desc.schema.columns.len()
        invariant
            i <= desc.schema.columns@.len(),
            rows@.len() == i,
            schema == desc.schema@,
            forall|j: int|
                0 <= j < i ==> values_view((#[trigger] rows@[j])@) == column_row(schema[j]),
        decreases desc.schema.columns.len() - i,
    {
        let c = &desc.schema.columns[i];
        let nullable = if c.nullable {
            "YES"
        } else {
            "NO"
        };
        assert(schema[i as int] == c@);
        rows.push(
            build_text_row(c.name.clone(), c.ty.as_str().to_string(), nullable.to_string()),
        );
        i = i + 1;
    }
    let ghost columns = Seq::new(schema.len(), |i: int| column_row(schema[i]));
    assert(rows_view(rows@) =~= columns);
    if extended {
        rows.push(build_text_row("# table_id".to_string(), u64_text(desc.id), "".to_string()));
        rows.push(
            build_text_row("# storage".to_string(), desc.storage_track.clone(), "".to_string()),
        );
        rows.push(
            build_text_row(
                "# row_group_size".to_string(),
                u32_text(desc.row_group_size),
                "".to_string(),
            ),
        );
    }
    proof {
        assert(texts(names@) =~= seq!["column_name"@, "type"@, "nullable"@]);
        assert(rows_view(rows@) =~= description(desc@, extended)->rows);
    }
    Ok(QueryResult::Rows { names, rows })
}

// ---- changing rows ----

/// The identifiers and values of rows.
pub type RowsV = Seq<(u64, Seq<ValueV>)>;

/// A single row as a batch.
pub open spec fn row_batch(names: Seq<Seq<char>>, row: Seq<ValueV>) -> BatchV {
    BatchV { names, columns: Seq::new(row.len(), |c: int| seq![row[c]]) }
}

/// Whether a row meets a condition; every row meets none.
pub open spec fn row_kept(names: Seq<Seq<char>>, filter: Option<ExprV>, row: Seq<ValueV>) -> Result<
    bool,
    ErrorV,
> {
    match filter {
        None => Ok(true),
        Some(e) => match mask_of(e, row_batch(names, row)) {
            Err(err) => Err(err),
            Ok(mask) => Ok(mask[0]),
        },
    }
}

/// The rows that meet a condition, behind those in `found`; or the first error.
pub open spec fn matching_from(
    found: RowsV,
    names: Seq<Seq<char>>,
    filter: Option<ExprV>,
    items: Seq<Result<(u64, Seq<ValueV>), ErrorV>>,
) -> Result<RowsV, ErrorV>
    decreases items.len(),
{
    if items.len() == 0 {
        Ok(found)
    } else {
        match items[0] {
            Err(e) => Err(e),
            Ok((rid, row)) => match row_kept(names, filter, row) {
                Err(e) => Err(e),
                Ok(kept) => matching_from(
                    if kept {
                        found.push((rid, row))
                    } else {
                        found
                    },
                    names,
                    filter,
                    items.skip(1),
                ),
            },
        }
    }
}

/// The rows of a table that meet a condition.
pub open spec fn matching(store: StoreV, h: HandleV, filter: Option<ExprV>) -> Result<
    RowsV,
    ErrorV,
> {
    match row_scan_of(store, h) {
        Err(e) => Err(e),
        Ok(s) => matching_from(Seq::empty(), column_names(h.schema), filter, row_items(s, 0)),
    }
}

/// The views of found rows.
pub open spec fn found_view(found: Seq<(Rid, Record)>) -> RowsV {
    Seq::new(found.len(), |i: int| (found[i].0.0, found[i].1@))
}

/// Every row that a scan yields has a value for each column, and at least one.
proof fn lemma_group_row_shape(
    columns: Seq<Seq<ValueV>>,
    bits: Seq<u8>,
    first: int,
    total: int,
    offset: int,
)
    requires
        0 <= offset,
    ensures
        forall|i: int|
            0 <= i < group_rows(columns, bits, first, total, offset).len() ==> {
                let item = #[trigger] group_rows(columns, bits, first, total, offset)[i];
                item matches Ok((_, row)) ==> row.len() == columns.len() && row.len() > 0
            },
    decreases stored_rows(columns) - offset,
{
    if offset < stored_rows(columns) && first + offset < total {
        lemma_group_row_shape(columns, bits, first, total, offset + 1);
        let rest = group_rows(columns, bits, first, total, offset + 1);
        let items = group_rows(columns, bits, first, total, offset);
        assert forall|i: int| 0 <= i < items.len() implies {
            let item = #[trigger] items[i];
            item matches Ok((_, row)) ==> row.len() == columns.len() && row.len() > 0
        } by {
            if bit_set(bits, offset) {
                assert(items[i] == rest[i]);
            } else if i > 0 {
                assert(items[i] == rest[i - 1]);
            } else {
                assert(row_at(columns, offset).len() == columns.len());
            }
        }
    }
}

/// Every row that a scan yields has a value for each column, and at least one.
proof fn lemma_row_shape(s: RowScanV, group: int)
    ensures
        forall|i: int|
            0 <= i < row_items(s, group).len() ==> {
                let item = #[trigger] row_items(s, group)[i];
                item matches Ok((_, row)) ==> row.len() == s.columns.len() && row.len() > 0
            },
    decreases u32::MAX + 1 - group,
{
    if group > u32::MAX || group * s.row_group_size >= s.total_rows {
    } else if let Ok((columns, bits)) = loaded_group(s, group) {
        let first = group * s.row_group_size;
        lemma_group_row_shape(columns, bits, first, s.total_rows as int, 0);
        lemma_row_shape(s, group + 1);
        let names = column_names(s.columns);
        let rule = raw_column(s.disk, s.dir, group as u32, names);
        lemma_collected(names.len() as int, rule);
        assert(columns.len() == s.columns.len());
        let here = group_rows(columns, bits, first, s.total_rows as int, 0);
        let items = row_items(s, group);
        assert forall|i: int| 0 <= i < items.len() implies {
            let item = #[trigger] items[i];
            item matches Ok((_, row)) ==> row.len() == s.columns.len() && row.len() > 0
        } by {
            if i < here.len() {
                assert(items[i] == here[i]);
            } else {
                assert(items[i] == row_items(s, group + 1)[i - here.len()]);
            }
        }
    }
}

/// Whether a row meets a condition; every row meets none.
fn keep_row(names: &Vec<String>, filter: &Option<Expr>, row: &Vec<Value>) -> (r: Result<
    bool,
    Error,
>)
    requires
        row@.len() == names@.len(),
        row@.len() > 0,
    ensures
        match r {
            Ok(kept) => row_kept(texts(names@), filter_view(*filter), values_view(row@)) == Ok::<
                bool,
                ErrorV,
            >(kept),
            Err(e) => row_kept(texts(names@), filter_view(*filter), values_view(row@)) == Err::<
                bool,
                ErrorV,
            >(e@),
        },
{
    match filter {
        None => Ok(true),
        Some(predicate) => {
            let mut columns: Vec<Vec<Value>> = Vec::new();
            let mut c: usize = 0;
            while c < row.len()
                invariant
                    c <= row@.len(),
                    columns@.len() == c,
                    forall|j: int|
                        0 <= j < c ==> values_view((#[trigger] columns@[j])@) == seq![row@[j]@],
                decreases row.len() - c,
            {
                let mut column: Vec<Value> = Vec::new();
                column.push(row[c].clone());
                assert(values_view(column@) =~= seq![row@[c as int]@]);
                columns.push(column);
                c = c + 1;
            }
            let batch = ColumnBatch { names: clone_texts(names), columns };
            proof {
                assert(data_view(columns@) =~= row_batch(
                    texts(names@),
                    values_view(row@),
                ).columns);
                assert(even(batch@));
                assert(batch@.num_rows() == 1);
                lemma_mask_len(predicate@, batch@);
            }
            match evaluate_predicate(predicate, &batch) {
                Err(e) => Err(e),
                Ok(mask) => Ok(mask[0]),
            }
        },
    }
}

/// The rows of a table that meet a condition.
#[verifier::loop_isolation(false)]
fn matching_rows<S: Storage>(table: &TableHandle, filter: &Option<Expr>, store: &S) -> (r: Result<
    Vec<(Rid, Record)>,
    Error,
>)
    ensures
        match r {
            Ok(found) => matching(store.store(), table@, filter_view(*filter)) == Ok::<
                RowsV,
                ErrorV,
            >(found_view(found@)),
            Err(e) => matching(store.store(), table@, filter_view(*filter)) == Err::<RowsV, ErrorV>(
                e@,
            ),
        },
{
    let mut scan = match store.scan(table) {
        Err(e) => {
            return Err(e);
        },
        Ok(s) => s,
    };
    let mut names: Vec<String> = Vec::new();
    let mut c: usize = 0;
    while c < table.schema.columns.len()
        invariant
            c <= table.schema.columns@.len(),
            names@.len() == c,
            forall|j: int| 0 <= j < c ==> (#[trigger] names@[j])@ == table@.schema[j].name,
        decreases table.schema.columns.len() - c,
    {
        names.push(table.schema.columns[c].name.clone());
        c = c + 1;
    }
    let ghost listed = column_names(table@.schema);
    let ghost wanted = filter_view(*filter);
    let ghost all = scan.items();
    proof {
        assert(texts(names@) =~= listed);
        lemma_row_shape(scan@, 0);
        assert(all.skip(0) =~= all);
    }
    let mut found: Vec<(Rid, Record)> = Vec::new();
    let ghost mut read: int = 0;
    assert(found_view(found@) =~= Seq::empty());
    loop
        invariant
            scan.wf(),
            0 <= read <= all.len(),
            scan.items() == all.skip(read),
            matching_from(Seq::empty(), listed, wanted, all) == matching_from(
                found_view(found@),
                listed,
                wanted,
                scan.items(),
            ),
        decreases scan.items().len(),
    {
        let ghost here = scan.items();
        match scan.next() {
            None => {
                break;
            },
            Some(Err(e)) => {
                return Err(e);
            },
            Some(Ok((rid, record))) => {
                proof {
                    assert(here[0] == all[read]);
                    assert(record@.len() == record.values@.len());
                    read = read + 1;
                    assert(here.skip(1) =~= all.skip(read));
                }
                match keep_row(&names, filter, &record.values) {
                    Err(e) => {
                        return Err(e);
                    },
                    Ok(kept) => {
                        let ghost before = found_view(found@);
                        if kept {
                            found.push((rid, record));
                            assert(found_view(found@) =~= before.push((rid.0, record@)));
                        }
                    },
                }
            },
        }
    }
    Ok(found)
}

/// Deleting rows one after the other, from the `i`th on: the error that it ends
/// with, if any, and the store that it leaves.
pub open spec fn deleted_from(store: StoreV, h: HandleV, rows: RowsV, i: int) -> (
    Option<ErrorV>,
    StoreV,
)
    decreases rows.len() - i,
{
    if i >= rows.len() {
        (None, store)
    } else {
        let steps = delete_steps(store, h, rows[i].0);
        match steps.0 {
            Some(e) => (Some(e), store.after(steps.1)),
            None => deleted_from(store.after(steps.1), h, rows, i + 1),
        }
    }
}

/// Deleting the rows that meet a condition.
pub open spec fn deleted(store: StoreV, table: Seq<char>, filter: Option<ExprV>) -> ExecutedV {
    match store.opened(table) {
        Err(e) => (Err(e), store),
        Ok(h) => match matching(store, h, filter) {
            Err(e) => (Err(e), store),
            Ok(rows) => {
                let end = deleted_from(store, h, rows, 0);
                (
                    match end.0 {
                        Some(e) => Err(e),
                        None => Ok(
                            QueryResultV::Affected(
                                "Deleted "@ + decimal(rows.len() as int) + " row(s) from '"@ + table
                                    + "'"@,
                            ),
                        ),
                    },
                    end.1,
                )
            },
        },
    }
}

/// Run a DELETE: find the rows first, then delete them one by one.
#[verifier::loop_isolation(false)]
fn exec_delete<S: Storage>(table: &String, filter: &Option<Expr>, store: &mut S) -> (r: Result<
    QueryResult,
    Error,
>)
    requires
        old(store).store().opened(table@) matches Ok(h) ==> h.row_group_size > 0,
    ensures
        (outcome(r), final(store).store()) == deleted(
            old(store).store(),
            table@,
            filter_view(*filter),
        ),
{
    let handle = match store.open_table(table.as_str()) {
        Err(e) => {
            return Err(e);
        },
        Ok(h) => h,
    };
    let found = match matching_rows(&handle, filter, &*store) {
        Err(e) => {
            return Err(e);
        },
        Ok(f) => f,
    };
    let ghost rows = found_view(found@);
    let ghost start = store.store();
    let mut i: usize = 0;
    while i < found.len()
        invariant
            i <= found@.len(),
            deleted_from(start, handle@, rows, 0) == deleted_from(
                store.store(),
                handle@,
                rows,
                i as int,
            ),
        decreases found.len() - i,
    {
        assert(rows[i as int].0 == found@[i as int].0.0);
        match store.delete(&handle, found[i].0) {
            Err(e) => {
                return Err(e);
            },
            Ok(_) => {},
        }
        i = i + 1;
    }
    let count = usize_text(found.len());
    Ok(
        QueryResult::Affected(
            join5("Deleted ", count.as_str(), " row(s) from '", table.as_str(), "'"),
        ),
    )
}

/// A row after the first `n` assignments. An assignment to a column that is not
/// there changes nothing.
pub open spec fn assigned(
    row: Seq<ValueV>,
    names: Seq<Seq<char>>,
    assignments: Seq<AssignmentV>,
    n: int,
) -> Seq<ValueV>
    decreases n,
{
    if n <= 0 {
        row
    } else {
        let before = assigned(row, names, assignments, n - 1);
        match position_of(names, assignments[n - 1].column) {
            None => before,
            Some(c) => before.update(c, assignments[n - 1].value),
        }
    }
}

/// Updating rows one after the other, from the `i`th on: the error that it ends
/// with, if any, and the store that it leaves.
pub open spec fn updated_from(
    store: StoreV,
    h: HandleV,
    rows: RowsV,
    assignments: Seq<AssignmentV>,
    i: int,
) -> (Option<ErrorV>, StoreV)
    decreases rows.len() - i,
{
    if i >= rows.len() {
        (None, store)
    } else {
        let record = assigned(
            rows[i].1,
            column_names(h.schema),
            assignments,
            assignments.len() as int,
        );
        let steps = update_steps(store, h, rows[i].0, record);
        match steps.0 {
            Some(e) => (Some(e), store.after(steps.1)),
            None => updated_from(store.after(steps.1), h, rows, assignments, i + 1),
        }
    }
}

/// Updating the rows that meet a condition.
pub open spec fn updated(
    store: StoreV,
    table: Seq<char>,
    assignments: Seq<AssignmentV>,
    filter: Option<ExprV>,
) -> ExecutedV {
    match store.opened(table) {
        Err(e) => (Err(e), store),
        Ok(h) => match matching(store, h, filter) {
            Err(e) => (Err(e), store),
            Ok(rows) => {
                let end = updated_from(store, h, rows, assignments, 0);
                (
                    match end.0 {
                        Some(e) => Err(e),
                        None => Ok(
                            QueryResultV::Affected(
                                "Updated "@ + decimal(rows.len() as int) + " row(s) in '"@ + table
                                    + "'"@,
                            ),
                        ),
                    },
                    end.1,
                )
            },
        },
    }
}

/// A row with the assignments carried out.
fn assign(row: &Record, names: &Vec<String>, assignments: &Vec<Assignment>) -> (r: Record)
    requires
        row@.len() == names@.len(),
    ensures
        r@ == assigned(
            row@,
            texts(names@),
            assignments_view(assignments@),
            assignments@.len() as int,
        ),
{
    let ghost listed = texts(names@);
    let ghost sets = assignments_view(assignments@);
    let copy = row.clone();
    let mut values = copy.values;
    assert(values@.len() == values_view(values@).len());
    let mut i: usize = 0;
    while i < assignments.len()
        invariant
            i <= assignments@.len(),
            values@.len() == names@.len(),
            listed == texts(names@),
            sets == assignments_view(assignments@),
            values_view(values@) == assigned(row@, listed, sets, i as int),
        decreases assignments.len() - i,
    {
        let a = &assignments[i];
        let ghost before = values_view(values@);
        proof {
            lemma_position(listed, a.column@, 0);
        }
        match position(names, a.column.as_str()) {
            None => {},
            Some(c) => {
                values.set(c, literal_value(&a.value));
                assert(values_view(values@) =~= before.update(c as int, a@.value));
            },
        }
        i = i + 1;
    }
    Record { values }
}

/// Run an UPDATE: find the rows first, then update them one by one.
#[verifier::loop_isolation(false)]
fn exec_update<S: Storage>(
    table: &String,
    assignments: &Vec<Assignment>,
    filter: &Option<Expr>,
    store: &mut S,
) -> (r: Result<QueryResult, Error>)
    requires
        ({
            let before = old(store).store();
            before.opened(table@) matches Ok(h) ==> h.row_group_size > 0 && (matching(
                before,
                h,
                filter_view(*filter),
            ) matches Ok(rows) ==> room(before, h, rows.len() as int))
        }),
    ensures
        (outcome(r), final(store).store()) == updated(
            old(store).store(),
            table@,
            assignments_view(assignments@),
            filter_view(*filter),
        ),
{
    let handle = match store.open_table(table.as_str()) {
        Err(e) => {
            return Err(e);
        },
        Ok(h) => h,
    };
    let found = match matching_rows(&handle, filter, &*store) {
        Err(e) => {
            return Err(e);
        },
        Ok(f) => f,
    };
    let mut names: Vec<String> = Vec::new();
    let mut c: usize = 0;
    while c < handle.schema.columns.len()
        invariant
            c <= handle.schema.columns@.len(),
            names@.len() == c,
            forall|j: int| 0 <= j < c ==> (#[trigger] names@[j])@ == handle@.schema[j].name,
        decreases handle.schema.columns.len() - c,
    {
        names.push(handle.schema.columns[c].name.clone());
        c = c + 1;
    }
    let ghost rows = found_view(found@);
    let ghost start = store.store();
    let ghost sets = assignments_view(assignments@);
    proof {
        assert(texts(names@) =~= column_names(handle@.schema));
        lemma_matching_shape(start, handle@, filter_view(*filter));
    }
    let mut i: usize = 0;
    while i < found.len()
        invariant
            i <= found@.len(),
            room(store.store(), handle@, rows.len() - i),
            updated_from(start, handle@, rows, sets, 0) == updated_from(
                store.store(),
                handle@,
                rows,
                sets,
                i as int,
            ),
        decreases found.len() - i,
    {
        assert(rows[i as int] == (found@[i as int].0.0, found@[i as int].1@));
        let record = assign(&found[i].1, &names, assignments);
        let ghost before = store.store();
        let ghost steps = update_steps(before, handle@, rows[i as int].0, record@);
        match store.update(&handle, found[i].0, record) {
            Err(e) => {
                return Err(e);
            },
            Ok(_) => {},
        }
        proof {
            if before.described(handle@.name) is Ok {
                lemma_update_advances(before, handle@, rows[i as int].0, record@);
            } else {
                lemma_update_needs_description(before, handle@, rows[i as int].0, record@);
            }
        }
        i = i + 1;
    }
    let count = usize_text(found.len());
    Ok(
        QueryResult::Affected(
            join5("Updated ", count.as_str(), " row(s) in '", table.as_str(), "'"),
        ),
    )
}

/// A table that is not described cannot be updated.
proof fn lemma_update_needs_description(
    store: StoreV,
    h: HandleV,
    rid: u64,
    record: Seq<ValueV>,
)
    requires
        store.described(h.name) is Err,
    ensures
        update_steps(store, h, rid, record).0 is Some,
{
}

/// Every row that was found has a value for each column.
proof fn lemma_matching_from_shape(
    found: RowsV,
    names: Seq<Seq<char>>,
    filter: Option<ExprV>,
    items: Seq<Result<(u64, Seq<ValueV>), ErrorV>>,
    width: int,
)
    requires
        forall|i: int| 0 <= i < found.len() ==> (#[trigger] found[i]).1.len() == width,
        forall|i: int|
            0 <= i < items.len() ==> ((#[trigger] items[i]) matches Ok((_, row)) ==> row.len()
                == width),
    ensures
        matching_from(found, names, filter, items) matches Ok(rows) ==> forall|i: int|
            0 <= i < rows.len() ==> (#[trigger] rows[i]).1.len() == width,
    decreases items.len(),
{
    if items.len() > 0 {
        if let Ok((rid, row)) = items[0] {
            if let Ok(kept) = row_kept(names, filter, row) {
                let next = if kept {
                    found.push((rid, row))
                } else {
                    found
                };
                assert forall|i: int| 0 <= i < items.skip(1).len() implies ((
                #[trigger] items.skip(1)[i]) matches Ok((_, row)) ==> row.len() == width) by {
                    assert(items.skip(1)[i] == items[i + 1]);
                }
                lemma_matching_from_shape(next, names, filter, items.skip(1), width);
            }
        }
    }
}

/// Every row that was found has a value for each column.
proof fn lemma_matching_shape(store: StoreV, h: HandleV, filter: Option<ExprV>)
    ensures
        matching(store, h, filter) matches Ok(rows) ==> forall|i: int|
            0 <= i < rows.len() ==> (#[trigger] rows[i]).1.len() == h.schema.len(),
{
    if let Ok(s) = row_scan_of(store, h) {
        lemma_row_shape(s, 0);
        lemma_matching_from_shape(
            Seq::empty(),
            column_names(h.schema),
            filter,
            row_items(s, 0),
            h.schema.len() as int,
        );
    }
}

// ---- the root ----

/// What a plan needs of the store: identifiers that are left for what it adds,
/// and row groups that can hold a row.
pub open spec fn ready(plan: PhysicalPlanV, store: StoreV) -> bool {
    match plan {
        PhysicalPlanV::CreateTableExec { .. } => store.catalog.next_table_id < u64::MAX,
        PhysicalPlanV::InsertExec { table, .. } => store.opened(table) matches Ok(h) ==> room(
            store,
            h,
            1,
        ),
        PhysicalPlanV::DeleteExec { table, .. } => store.opened(table) matches Ok(h)
            ==> h.row_group_size > 0,
        PhysicalPlanV::UpdateExec { table, filter, .. } => store.opened(table) matches Ok(h)
            ==> h.row_group_size > 0 && (matching(store, h, filter) matches Ok(rows) ==> room(
            store,
            h,
            rows.len() as int,
        )),
        _ => true,
    }
}

/// Whether there is room for `count` more rows in the table that `table` names.
pub fn has_row_room<S: Storage>(table: &TableHandle, count: u64, store: &S) -> (r: bool)
    ensures
        r == room(store.store(), table@, count as int),
{
    if table.row_group_size == 0 {
        return false;
    }
    match store.describe_table(table.name.as_str()) {
        Err(_) => true,
        Ok(d) => d.next_rid <= u64::MAX - count,
    }
}

/// Whether `plan` can run against `store`. `next_table_id` is the identifier
/// that the next new table gets.
pub fn is_ready<S: Storage>(plan: &PhysicalPlan, store: &S, next_table_id: u64) -> (r: bool)
    requires
        next_table_id == store.store().catalog.next_table_id,
    ensures
        r == ready(plan@, store.store()),
{
    match plan {
        PhysicalPlan::CreateTableExec { table: _, columns: _ } => next_table_id < u64::MAX,
        PhysicalPlan::InsertExec { table, values: _ } => match store.open_table(table.as_str()) {
            Err(_) => true,
            Ok(h) => has_row_room(&h, 1, store),
        },
        PhysicalPlan::DeleteExec { table, filter: _ } => match store.open_table(table.as_str()) {
            Err(_) => true,
            Ok(h) => h.row_group_size > 0,
        },
        PhysicalPlan::UpdateExec { table, assignments: _, filter } => match store.open_table(
            table.as_str(),
        ) {
            Err(_) => true,
            Ok(h) => {
                if h.row_group_size == 0 {
                    return false;
                }
                match matching_rows(&h, filter, store) {
                    Err(_) => true,
                    Ok(found) => has_row_room(&h, found.len() as u64, store),
                }
            },
        },
        _ => true,
    }
}

/// What running a plan gives, and the store that it leaves.
pub open spec fn executed(plan: PhysicalPlanV, store: StoreV) -> ExecutedV {
    match plan {
        PhysicalPlanV::CreateTableExec { table, columns } => created(store, table, columns),
        PhysicalPlanV::InsertExec { table, values } => inserted(store, table, values),
        PhysicalPlanV::DropTableExec { table } => dropped(store, table),
        PhysicalPlanV::ShowTablesExec => (Ok(table_list(store)), store),
        PhysicalPlanV::DescribeExec { table, extended } => (
            described_rows(store, table, extended),
            store,
        ),
        PhysicalPlanV::DeleteExec { table, filter } => deleted(store, table, filter),
        PhysicalPlanV::UpdateExec { table, assignments, filter } => updated(
            store,
            table,
            assignments,
            filter,
        ),
        _ => (queried(plan, store), store),
    }
}

/// Run `plan` against `store`. Statements change storage and say what they did;
/// a query is drained into rows.
pub fn execute<S: Storage>(plan: &PhysicalPlan, store: &mut S) -> (r: Result<QueryResult, Error>)
    requires
        ready(plan@, old(store).store()),
    ensures
        (outcome(r), final(store).store()) == executed(plan@, old(store).store()),
{
    match plan {
        PhysicalPlan::CreateTableExec { table, columns } => exec_create_table(
            table,
            columns,
            store,
        ),
        PhysicalPlan::InsertExec { table, values } => exec_insert(table, values, store),
        PhysicalPlan::DropTableExec { table } => exec_drop_table(table, store),
        PhysicalPlan::ShowTablesExec => exec_show_tables(&*store),
        PhysicalPlan::DescribeExec { table, extended } => exec_describe(table, *extended, &*store),
        PhysicalPlan::DeleteExec { table, filter } => exec_delete(table, filter, store),
        PhysicalPlan::UpdateExec { table, assignments, filter } => exec_update(
            table,
            assignments,
            filter,
            store,
        ),
        _ => exec_query(plan, &*store),
    }
}

} // verus!
