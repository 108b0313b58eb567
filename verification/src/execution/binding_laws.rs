//! Which statements are bound to a plan and which are refused, and what the
//! statements about tables answer.

use vstd::prelude::*;

use crate::catalog::schema::{schema_error, ColumnType, ColumnV};
use crate::catalog::tables::{DescriptorV, TableOptions};
use crate::error::ErrorV;
use crate::execution::logical::binder::{
    assignment_error, bad_assignment, bound, check_value_error, expr_columns, filter_error,
    missing_name, missing_names, schema_of, select_error, value_misfit,
};
use crate::execution::logical::optimizer::column_pushdown::has_scan;
use crate::execution::logical::optimizer::optimized;
use crate::execution::logical::optimizer::top_k::fused;
use crate::execution::logical::plan::LogicalPlanV;
use crate::execution::physical::executor::executed;
use crate::execution::physical::lower::lowered;
use crate::execution::physical::result::QueryResultV;
use crate::parser::ast::{
    AssignmentV, ColumnDefV, CompareOp, DataType, ExprV, LogicalOp, OrderByV, ProjectionV, SelectV,
    StatementV,
};
use crate::steps::{first_failure, law_first_failure_counts, lemma_no_failure};
use crate::storage::definition_laws::{created_store, dropped_store};
use crate::storage::model::{column_names, has_column, StoreV};
use crate::storage::ValueV;
use crate::text::{decimal, lemma_position};

verus! {

// ---- values and columns ----

/// A literal fits a column where it is an integer and the column INT, a text and
/// the column TEXT, or NULL and the column takes NULL; otherwise it is refused.
pub proof fn law_literals_that_fit(v: ValueV, col: ColumnV, table: Seq<char>)
    ensures
        check_value_error(v, col, table) is None <==> match v {
            ValueV::Null => col.nullable,
            ValueV::Int(_) => col.ty == ColumnType::Int,
            ValueV::Text(_) => col.ty == ColumnType::Text,
        },
        check_value_error(v, col, table) matches Some(e) ==> e is InvalidQuery,
        v is Null && !col.nullable ==> check_value_error(v, col, table) == Some(
            ErrorV::InvalidQuery(
                "column '"@ + col.name + "' of '"@ + table + "' is NOT NULL but got NULL"@,
            ),
        ),
        v is Int && col.ty == ColumnType::Text ==> check_value_error(v, col, table) == Some(
            ErrorV::InvalidQuery(
                "column '"@ + col.name + "' of '"@ + table + ("' expects "@ + "TEXT"@ + ", got "@
                    + "INT"@),
            ),
        ),
        v is Text && col.ty == ColumnType::Int ==> check_value_error(v, col, table) == Some(
            ErrorV::InvalidQuery(
                "column '"@ + col.name + "' of '"@ + table + ("' expects "@ + "INT"@ + ", got "@
                    + "TEXT"@),
            ),
        ),
{
}

/// The columns that a condition names are those that its parts name.
pub proof fn law_columns_of_a_condition(
    l: ExprV,
    r: ExprV,
    op: CompareOp,
    join: LogicalOp,
    name: Seq<char>,
    v: ValueV,
)
    ensures
        ({
            let either = expr_columns(l).contains(name) || expr_columns(r).contains(name);
            &&& expr_columns(ExprV::Column(name)).contains(name)
            &&& forall|other: Seq<char>|
                other != name ==> !(#[trigger] expr_columns(ExprV::Column(name)).contains(other))
            &&& !expr_columns(ExprV::Literal(v)).contains(name)
            &&& expr_columns(
                ExprV::Compare { left: Box::new(l), op, right: Box::new(r) },
            ).contains(name) <==> either
            &&& expr_columns(
                ExprV::Logical { left: Box::new(l), op: join, right: Box::new(r) },
            ).contains(name) <==> either
        }),
{
    let a = expr_columns(l);
    let b = expr_columns(r);
    let both = a + b;
    assert(both.contains(name) <==> a.contains(name) || b.contains(name)) by {
        if a.contains(name) {
            let i = a.index_of(name);
            assert(both[i] == name);
        }
        if b.contains(name) {
            let i = b.index_of(name);
            assert(both[a.len() + i] == name);
        }
        if both.contains(name) {
            let i = both.index_of(name);
            if i < a.len() {
                assert(a[i] == name);
            } else {
                assert(b[i - a.len()] == name);
            }
        }
    }
    assert(seq![name][0] == name);
}

/// Names are known where none is missing.
proof fn lemma_names_known(
    schema: Seq<ColumnV>,
    names: Seq<Seq<char>>,
    table: Seq<char>,
    clause: Seq<char>,
)
    ensures
        missing_names(schema, names, table, clause) is None <==> forall|i: int|
            0 <= i < names.len() ==> has_column(schema, #[trigger] names[i]),
        missing_names(schema, names, table, clause) matches Some(e) ==> e is InvalidQuery,
    decreases names.len(),
{
    let rule = missing_name(schema, names, table, clause);
    lemma_no_failure(0, names.len() as int, rule);
    if missing_names(schema, names, table, clause) is None {
        assert forall|i: int| 0 <= i < names.len() implies has_column(
            schema,
            #[trigger] names[i],
        ) by {
            assert(rule(i) is None);
        }
    }
    lemma_kind(0, names.len() as int, rule);
}

/// A failure is one of the steps'.
proof fn lemma_kind(from: int, n: int, f: spec_fn(int) -> Option<ErrorV>)
    requires
        forall|i: int| (#[trigger] f(i)) matches Some(e) ==> e is InvalidQuery,
    ensures
        first_failure(from, n, f) matches Some(e) ==> e is InvalidQuery,
    decreases n - from,
{
    if from < n {
        assert(f(from) matches Some(e) ==> e is InvalidQuery);
        lemma_kind(from + 1, n, f);
    }
}

// ---- queries and changes ----

/// A SELECT is bound exactly where its table is there and has every column that
/// the list, the condition and the order name; otherwise it is refused.
pub proof fn law_select_is_bound(store: StoreV, sel: SelectV)
    ensures
        bound(store, StatementV::Select(sel)) is Ok <==> store.described(sel.from) is Ok && {
            let schema = store.described(sel.from)->Ok_0.schema;
            &&& sel.projections matches ProjectionV::Columns(names) ==> forall|i: int|
                0 <= i < names.len() ==> has_column(schema, #[trigger] names[i])
            &&& sel.filter matches Some(e) ==> forall|i: int|
                0 <= i < expr_columns(e).len() ==> has_column(schema, #[trigger] expr_columns(e)[i])
            &&& sel.order_by matches Some(o) ==> has_column(schema, o.column)
        },
        store.described(sel.from) matches Err(e) ==> bound(store, StatementV::Select(sel)) == Err::<
            LogicalPlanV,
            ErrorV,
        >(e),
        store.described(sel.from) is Ok ==> (bound(store, StatementV::Select(sel)) matches Err(e)
            ==> e is InvalidQuery),
{
    if let Ok(d) = store.described(sel.from) {
        if let ProjectionV::Columns(names) = sel.projections {
            lemma_names_known(d.schema, names, sel.from, "SELECT"@);
        }
        if let Some(e) = sel.filter {
            lemma_names_known(d.schema, expr_columns(e), sel.from, "WHERE"@);
        }
    }
}

/// A SELECT is planned from the inside out: the scan of its table, the filter,
/// the sort, the limit, and at the top the projection, each only where the query
/// has it.
pub proof fn law_select_plan(store: StoreV, sel: SelectV)
    requires
        bound(store, StatementV::Select(sel)) is Ok,
    ensures
        ({
            let schema = store.described(sel.from)->Ok_0.schema;
            let plan = bound(store, StatementV::Select(sel))->Ok_0;
            let below = *plan->Projection_input;
            let unlimited = if sel.limit is Some {
                *below->Limit_input
            } else {
                below
            };
            let unsorted = if sel.order_by is Some {
                *unlimited->Sort_input
            } else {
                unlimited
            };
            let scan = if sel.filter is Some {
                *unsorted->Filter_input
            } else {
                unsorted
            };
            &&& plan is Projection
            &&& sel.projections matches ProjectionV::Columns(names) ==> plan->Projection_columns
                == names
            &&& sel.projections is All ==> plan->Projection_columns.len() == schema.len()
                && forall|i: int|
                0 <= i < schema.len() ==> #[trigger] plan->Projection_columns[i] == schema[i].name
            &&& sel.limit matches Some(n) ==> below is Limit && below->Limit_count == n
            &&& sel.order_by matches Some(o) ==> unlimited is Sort && unlimited->Sort_column
                == o.column && unlimited->Sort_descending == o.descending
            &&& sel.filter matches Some(e) ==> unsorted is Filter && unsorted->Filter_predicate == e
            &&& scan == (LogicalPlanV::Scan { table: sel.from, columns: None })
        }),
{
}

/// An INSERT is bound, to itself, exactly where its table is there and there is
/// one value for each column, in order, that fits it.
pub proof fn law_insert_is_bound(store: StoreV, table: Seq<char>, values: Seq<ValueV>)
    ensures
        ({
            let read = bound(store, StatementV::Insert { table, values });
            let schema = store.described(table)->Ok_0.schema;
            let fits = store.described(table) is Ok && values.len() == schema.len() && forall|
                i: int,
            |
                0 <= i < values.len() ==> match #[trigger] values[i] {
                    ValueV::Null => schema[i].nullable,
                    ValueV::Int(_) => schema[i].ty == ColumnType::Int,
                    ValueV::Text(_) => schema[i].ty == ColumnType::Text,
                };
            &&& fits ==> read == Ok::<LogicalPlanV, ErrorV>(LogicalPlanV::Insert { table, values })
            &&& !fits ==> read is Err
            &&& store.described(table) is Ok && values.len() != schema.len() ==> read == Err::<
                LogicalPlanV,
                ErrorV,
            >(
                ErrorV::InvalidQuery(
                    "INSERT into '"@ + table + "' expects "@ + decimal(schema.len() as int) + (
                    " value(s), got "@ + decimal(values.len() as int)),
                ),
            )
        }),
{
    if let Ok(d) = store.described(table) {
        let rule = value_misfit(values, d.schema, table);
        lemma_no_failure(0, values.len() as int, rule);
        if values.len() == d.schema.len() {
            assert forall|i: int| 0 <= i < values.len() implies (#[trigger] rule(i) is None
                <==> match values[i] {
                ValueV::Null => d.schema[i].nullable,
                ValueV::Int(_) => d.schema[i].ty == ColumnType::Int,
                ValueV::Text(_) => d.schema[i].ty == ColumnType::Text,
            }) by {
                law_literals_that_fit(values[i], d.schema[i], table);
            }
            if first_failure(0, values.len() as int, rule) is None {
                assert forall|i: int| 0 <= i < values.len() implies match #[trigger] values[i] {
                    ValueV::Null => d.schema[i].nullable,
                    ValueV::Int(_) => d.schema[i].ty == ColumnType::Int,
                    ValueV::Text(_) => d.schema[i].ty == ColumnType::Text,
                } by {
                    assert(rule(i) is None);
                }
            } else {
                let i = choose|i: int| 0 <= i < values.len() && (#[trigger] rule(i)) is Some;
                let v = values[i];
            }
        }
    }
}

/// A DELETE is bound, to itself, exactly where its table is there and has every
/// column that its condition names.
pub proof fn law_delete_is_bound(store: StoreV, table: Seq<char>, filter: Option<ExprV>)
    ensures
        ({
            let read = bound(store, StatementV::Delete { table, filter });
            let schema = store.described(table)->Ok_0.schema;
            let known = store.described(table) is Ok && (filter matches Some(e) ==> forall|i: int|
                0 <= i < expr_columns(e).len() ==> has_column(
                    schema,
                    #[trigger] expr_columns(e)[i],
                ));
            &&& known ==> read == Ok::<LogicalPlanV, ErrorV>(LogicalPlanV::Delete { table, filter })
            &&& !known ==> read is Err
        }),
{
    if let Ok(d) = store.described(table) {
        if let Some(e) = filter {
            lemma_names_known(d.schema, expr_columns(e), table, "WHERE"@);
        }
    }
}

/// An UPDATE is bound, to itself, exactly where its table is there and has every
/// column that its condition and its assignments name, and each value fits the
/// column that it is assigned to.
pub proof fn law_update_is_bound(
    store: StoreV,
    table: Seq<char>,
    assignments: Seq<AssignmentV>,
    filter: Option<ExprV>,
)
    requires
        store.described(table) matches Ok(d) ==> column_names(d.schema).no_duplicates(),
    ensures
        ({
            let read = bound(store, StatementV::Update { table, assignments, filter });
            let schema = store.described(table)->Ok_0.schema;
            let known = store.described(table) is Ok && (filter matches Some(e) ==> forall|i: int|
                0 <= i < expr_columns(e).len() ==> has_column(
                    schema,
                    #[trigger] expr_columns(e)[i],
                ));
            let fit = forall|k: int|
                0 <= k < assignments.len() ==> exists|c: int|
                    0 <= c < schema.len() && (#[trigger] schema[c]).name == (
                    #[trigger] assignments[k]).column && match assignments[k].value {
                        ValueV::Null => schema[c].nullable,
                        ValueV::Int(_) => schema[c].ty == ColumnType::Int,
                        ValueV::Text(_) => schema[c].ty == ColumnType::Text,
                    };
            &&& known && fit ==> read == Ok::<LogicalPlanV, ErrorV>(
                LogicalPlanV::Update { table, assignments, filter },
            )
            &&& !(known && fit) ==> read is Err
        }),
{
    if let Ok(d) = store.described(table) {
        let schema = d.schema;
        let names = column_names(schema);
        if let Some(e) = filter {
            lemma_names_known(schema, expr_columns(e), table, "WHERE"@);
        }
        let rule = bad_assignment(schema, assignments, table);
        lemma_no_failure(0, assignments.len() as int, rule);
        assert forall|k: int| 0 <= k < assignments.len() implies ((#[trigger] rule(k)) is None
            <==> exists|c: int|
            0 <= c < schema.len() && (#[trigger] schema[c]).name == assignments[k].column
                && match assignments[k].value {
                ValueV::Null => schema[c].nullable,
                ValueV::Int(_) => schema[c].ty == ColumnType::Int,
                ValueV::Text(_) => schema[c].ty == ColumnType::Text,
            }) by {
            let a = assignments[k];
            lemma_position(names, a.column, 0);
            if let Some(c) = crate::text::position_of(names, a.column) {
                assert(names[c] == schema[c].name);
                law_literals_that_fit(a.value, schema[c], table);
                assert forall|i: int| 0 <= i < schema.len() && (#[trigger] schema[i]).name
                    == a.column implies i == c by {
                    assert(names[i] == names[c]);
                }
            } else {
                assert forall|i: int| 0 <= i < schema.len() implies (#[trigger] schema[i]).name
                    != a.column by {
                    assert(names[i] == schema[i].name);
                }
            }
        }
        if first_failure(0, assignments.len() as int, rule) is None {
            assert forall|k: int| 0 <= k < assignments.len() implies exists|c: int|
                0 <= c < schema.len() && (#[trigger] schema[c]).name == (
                #[trigger] assignments[k]).column && match assignments[k].value {
                    ValueV::Null => schema[c].nullable,
                    ValueV::Int(_) => schema[c].ty == ColumnType::Int,
                    ValueV::Text(_) => schema[c].ty == ColumnType::Text,
                } by {
                assert(rule(k) is None);
            }
        } else {
            let k = choose|k: int| 0 <= k < assignments.len() && (#[trigger] rule(k)) is Some;
            let a = assignments[k];
        }
    }
}

/// A CREATE TABLE is bound, to itself, exactly where its table and columns may
/// be called so; the new table's columns have the names, types and nullability
/// of their definitions, in order.
pub proof fn law_create_is_bound(store: StoreV, table: Seq<char>, columns: Seq<ColumnDefV>)
    ensures
        ({
            let read = bound(store, StatementV::CreateTable { table, columns });
            &&& schema_error(table, schema_of(columns)) is None ==> read == Ok::<
                LogicalPlanV,
                ErrorV,
            >(LogicalPlanV::CreateTable { table, columns })
            &&& schema_error(table, schema_of(columns)) matches Some(e) ==> read == Err::<
                LogicalPlanV,
                ErrorV,
            >(e)
            &&& schema_of(columns).len() == columns.len()
            &&& forall|i: int|
                0 <= i < columns.len() ==> {
                    let c = #[trigger] schema_of(columns)[i];
                    &&& c.name == columns[i].name
                    &&& c.nullable == columns[i].nullable
                    &&& (c.ty == ColumnType::Int) == (columns[i].ty == DataType::Int)
                    &&& (c.ty == ColumnType::Text) == (columns[i].ty == DataType::Text)
                }
        }),
{
}

/// DROP TABLE and DESCRIBE are bound, to themselves, where the table is there;
/// SHOW TABLES always is.
pub proof fn law_table_statements_are_bound(store: StoreV, table: Seq<char>, extended: bool)
    ensures
        store.described(table) is Ok ==> bound(store, StatementV::DropTable { table }) == Ok::<
            LogicalPlanV,
            ErrorV,
        >(LogicalPlanV::DropTable { table }) && bound(
            store,
            StatementV::Describe { table, extended },
        ) == Ok::<LogicalPlanV, ErrorV>(LogicalPlanV::Describe { table, extended }),
        store.described(table) matches Err(e) ==> bound(store, StatementV::DropTable { table })
            == Err::<LogicalPlanV, ErrorV>(e) && bound(
            store,
            StatementV::Describe { table, extended },
        ) == Err::<LogicalPlanV, ErrorV>(e),
        bound(store, StatementV::ShowTables) == Ok::<LogicalPlanV, ErrorV>(
            LogicalPlanV::ShowTables,
        ),
{
}

// ---- statements about tables ----

/// A plan without a scan stays as it is.
proof fn lemma_runs_as_it_is(plan: LogicalPlanV)
    requires
        plan is CreateTable || plan is DropTable || plan is ShowTables || plan is Describe,
    ensures
        optimized(plan) == plan,
{
    assert(fused(plan) == plan);
    assert(!has_scan(plan));
}

/// SHOW TABLES answers with the names of the tables, one row each, in the order
/// of the catalog, and changes nothing.
pub proof fn law_show_tables_lists_the_names(store: StoreV)
    ensures
        ({
            let (r, after) = executed(lowered(optimized(LogicalPlanV::ShowTables)), store);
            let tables = store.catalog.tables;
            &&& after == store
            &&& r matches Ok(QueryResultV::Rows { names, rows }) && names == seq!["table_name"@]
                && rows.len() == tables.len() && forall|i: int|
                0 <= i < tables.len() ==> #[trigger] rows[i] == seq![ValueV::Text(tables[i].name)]
        }),
{
    lemma_runs_as_it_is(LogicalPlanV::ShowTables);
}

/// DESCRIBE answers with one row for each column, in order: its name, its type
/// and whether it takes NULL. EXTENDED adds the identifier of the table, its
/// storage and the size of its row groups. Nothing changes.
pub proof fn law_describe_lists_the_columns(
    store: StoreV,
    table: Seq<char>,
    d: DescriptorV,
    extended: bool,
)
    requires
        store.described(table) == Ok::<DescriptorV, ErrorV>(d),
    ensures
        ({
            let plan = LogicalPlanV::Describe { table, extended };
            let (r, after) = executed(lowered(optimized(plan)), store);
            let n = d.schema.len() as int;
            let rows = r->Ok_0->Rows_rows;
            &&& after == store
            &&& r is Ok && r->Ok_0 is Rows
            &&& r->Ok_0->Rows_names == seq!["column_name"@, "type"@, "nullable"@]
            &&& rows.len() == if extended {
                n + 3
            } else {
                n
            }
            &&& forall|i: int|
                0 <= i < n ==> {
                    &&& (#[trigger] rows[i]).len() == 3
                    &&& rows[i][0] == ValueV::Text(d.schema[i].name)
                    &&& d.schema[i].ty == ColumnType::Int ==> rows[i][1] == ValueV::Text("INT"@)
                    &&& d.schema[i].ty == ColumnType::Text ==> rows[i][1] == ValueV::Text("TEXT"@)
                    &&& d.schema[i].nullable ==> rows[i][2] == ValueV::Text("YES"@)
                    &&& !d.schema[i].nullable ==> rows[i][2] == ValueV::Text("NO"@)
                }
            &&& extended ==> {
                &&& rows[n] == seq![
                    ValueV::Text("# table_id"@),
                    ValueV::Text(decimal(d.id as int)),
                    ValueV::Text(""@),
                ]
                &&& rows[n + 1] == seq![
                    ValueV::Text("# storage"@),
                    ValueV::Text(d.storage_track),
                    ValueV::Text(""@),
                ]
                &&& rows[n + 2] == seq![
                    ValueV::Text("# row_group_size"@),
                    ValueV::Text(decimal(d.row_group_size as int)),
                    ValueV::Text(""@),
                ]
            }
        }),
{
    lemma_runs_as_it_is(LogicalPlanV::Describe { table, extended });
}

/// CREATE TABLE says under which identifier it made the table, and makes it with
/// row groups of the usual size; a name that is taken is refused, and then
/// nothing changes.
pub proof fn law_create_table_makes_the_table(
    store: StoreV,
    table: Seq<char>,
    columns: Seq<ColumnDefV>,
)
    ensures
        ({
            let plan = LogicalPlanV::CreateTable { table, columns };
            let (r, after) = executed(lowered(optimized(plan)), store);
            match store.catalog.create_error(table, schema_of(columns)) {
                Some(e) => r == Err::<QueryResultV, ErrorV>(e) && after == store,
                None => {
                    &&& r == Ok::<QueryResultV, ErrorV>(
                        QueryResultV::Affected(
                            "Created table '"@ + table + "' (id="@ + decimal(
                                store.catalog.next_table_id as int,
                            ) + ")"@,
                        ),
                    )
                    &&& after == created_store(
                        store,
                        table,
                        schema_of(columns),
                        TableOptions { row_group_size: None },
                    )
                },
            }
        }),
{
    lemma_runs_as_it_is(LogicalPlanV::CreateTable { table, columns });
}

/// DROP TABLE drops a table that is there and says so; one that is not there is
/// refused, and then nothing changes.
pub proof fn law_drop_table_drops_the_table(store: StoreV, table: Seq<char>)
    ensures
        ({
            let plan = LogicalPlanV::DropTable { table };
            let (r, after) = executed(lowered(optimized(plan)), store);
            &&& store.catalog.dir_of(table) is Ok ==> r == Ok::<QueryResultV, ErrorV>(
                QueryResultV::Affected("Dropped table '"@ + table + "'"@),
            ) && after == dropped_store(store, table)
            &&& store.catalog.dir_of(table) is Err ==> r == Err::<QueryResultV, ErrorV>(
                ErrorV::TableNotFound(table),
            ) && after == store
        }),
{
    lemma_runs_as_it_is(LogicalPlanV::DropTable { table });
}

/// A column that a table does not have is refused, and the error names the
/// clause, the column and the table.
pub proof fn law_unknown_columns(
    schema: Seq<ColumnV>,
    name: Seq<char>,
    table: Seq<char>,
    value: ValueV,
)
    requires
        !has_column(schema, name),
    ensures
        ({
            let unknown = |clause: Seq<char>|
                Some(
                    ErrorV::InvalidQuery(
                        clause + " references unknown column '"@ + name + "' in table '"@ + (table
                            + "'"@),
                    ),
                );
            let sel = SelectV {
                projections: ProjectionV::Columns(seq![name]),
                from: table,
                filter: None,
                order_by: None,
                limit: None,
            };
            &&& select_error(schema, sel) == unknown("SELECT"@)
            &&& select_error(
                schema,
                SelectV {
                    projections: ProjectionV::All,
                    order_by: Some(OrderByV { column: name, descending: false }),
                    ..sel
                },
            ) == unknown("ORDER BY"@)
            &&& filter_error(schema, Some(ExprV::Column(name)), table) == unknown("WHERE"@)
            &&& assignment_error(schema, AssignmentV { column: name, value }, table) == unknown(
                "SET"@,
            )
        }),
{
    let names = column_names(schema);
    lemma_position(names, name, 0);
    if let Some(c) = crate::text::position_of(names, name) {
        assert(schema[c].name == name);
    }
    let listed = seq![name];
    let rule = missing_name(schema, listed, table, "SELECT"@);
    assert(rule(0) is Some);
    law_first_failure_counts(0, 1, rule, 0);
    let met = missing_name(schema, listed, table, "WHERE"@);
    assert(expr_columns(ExprV::Column(name)) =~= listed);
    assert(met(0) is Some);
    law_first_failure_counts(0, 1, met, 0);
}

} // verus!
