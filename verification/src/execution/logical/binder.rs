//! Binding: turn a parsed statement into a logical plan, checking it against
//! the catalog. The catalog is read through `Storage::describe_table` alone;
//! row data is never touched.

use vstd::prelude::*;

use crate::catalog::schema::{
    checked, columns_view, schema_error, type_text, Column, ColumnType, ColumnV, Schema,
};
use crate::error::{outcome, Error, ErrorV};
use crate::execution::logical::plan::{plan_view, LogicalPlan, LogicalPlanV};
use crate::parser::ast::{
    assignments_view, clone_assignments, clone_column_defs, clone_filter, clone_literals,
    column_defs_view, filter_view, literals_view, Assignment, AssignmentV, ColumnDef, ColumnDefV,
    CreateTable, DataType, Delete, Expr, ExprV, Insert, Literal, Projection, ProjectionV, Select,
    SelectV, Statement, StatementV, Update,
};
use crate::steps::first_failure;
use crate::storage::model::{column_names, has_column, StoreV};
use crate::storage::{Storage, ValueV};
use crate::text::{clone_texts, decimal, join2, join4, join5, same, texts, usize_text};

verus! {

/// The catalog's type for a parsed type.
pub open spec fn column_type_of(ty: DataType) -> ColumnType {
    match ty {
        DataType::Int => ColumnType::Int,
        DataType::Text => ColumnType::Text,
    }
}

/// The catalog's type for a parsed type.
pub fn data_type_to_column_type(ty: DataType) -> (r: ColumnType)
    ensures
        r == column_type_of(ty),
{
    match ty {
        DataType::Int => ColumnType::Int,
        DataType::Text => ColumnType::Text,
    }
}

/// The schema that column definitions stand for.
pub open spec fn schema_of(columns: Seq<ColumnDefV>) -> Seq<ColumnV> {
    Seq::new(
        columns.len(),
        |i: int|
            ColumnV {
                name: columns[i].name,
                ty: column_type_of(columns[i].ty),
                nullable: columns[i].nullable,
            },
    )
}

/// The schema that column definitions stand for.
pub fn build_schema(columns: &Vec<ColumnDef>) -> (r: Schema)
    ensures
        r@ == schema_of(column_defs_view(columns@)),
{
    let mut out: Vec<Column> = Vec::new();
    let mut i: usize = 0;
    while i < columns.len()
        invariant
            i <= columns@.len(),
            out@.len() == i,
            forall|j: int|
                0 <= j < i ==> (#[trigger] out@[j])@ == schema_of(column_defs_view(columns@))[j],
        decreases columns.len() - i,
    {
        let c = &columns[i];
        out.push(
            Column {
                name: c.name.clone(),
                ty: data_type_to_column_type(c.ty),
                nullable: c.nullable,
            },
        );
        i = i + 1;
    }
    assert(columns_view(out@) =~= schema_of(column_defs_view(columns@)));
    Schema { columns: out }
}

// ---- values ----

/// What a literal is called in messages.
pub open spec fn literal_kind(v: ValueV) -> Seq<char> {
    match v {
        ValueV::Int(_) => "INT"@,
        ValueV::Text(_) => "TEXT"@,
        ValueV::Null => "NULL"@,
    }
}

/// What a literal is called in messages.
pub fn literal_type(lit: &Literal) -> (r: &'static str)
    ensures
        r@ == literal_kind(lit@),
{
    match lit {
        Literal::Int(_) => "INT",
        Literal::Text(_) => "TEXT",
        Literal::Null => "NULL",
    }
}

/// What is wrong with a literal for a column: NULL where it is not allowed, or
/// another type than the column's.
pub open spec fn check_value_error(v: ValueV, col: ColumnV, table: Seq<char>) -> Option<ErrorV> {
    match (v, col.ty) {
        (ValueV::Null, _) => if col.nullable {
            None
        } else {
            Some(
                ErrorV::InvalidQuery(
                    "column '"@ + col.name + "' of '"@ + table + "' is NOT NULL but got NULL"@,
                ),
            )
        },
        (ValueV::Int(_), ColumnType::Int) => None,
        (ValueV::Text(_), ColumnType::Text) => None,
        _ => Some(
            ErrorV::InvalidQuery(
                "column '"@ + col.name + "' of '"@ + table + ("' expects "@ + type_text(col.ty)
                    + ", got "@ + literal_kind(v)),
            ),
        ),
    }
}

/// Check one literal against the column it lands in.
pub fn check_value(value: &Literal, col: &Column, table: &str) -> (r: Result<(), Error>)
    ensures
        checked(r) == check_value_error(value@, col@, table@),
{
    let fits = match (value, col.ty) {
        (Literal::Null, _) => {
            if !col.nullable {
                let m = join5(
                    "column '",
                    col.name.as_str(),
                    "' of '",
                    table,
                    "' is NOT NULL but got NULL",
                );
                return Err(Error::invalid_query(m.as_str()));
            }
            true
        },
        (Literal::Int(_), ColumnType::Int) => true,
        (Literal::Text(_), ColumnType::Text) => true,
        _ => false,
    };
    if fits {
        Ok(())
    } else {
        let tail = join4("' expects ", col.ty.as_str(), ", got ", literal_type(value));
        let m = join5("column '", col.name.as_str(), "' of '", table, tail.as_str());
        Err(Error::invalid_query(m.as_str()))
    }
}

/// What is wrong with the literal for column `i`.
pub open spec fn value_misfit(values: Seq<ValueV>, schema: Seq<ColumnV>, table: Seq<char>) -> spec_fn(
    int,
) -> Option<ErrorV> {
    |i: int| check_value_error(values[i], schema[i], table)
}

// ---- column references ----

/// The columns that an expression names, from left to right.
pub open spec fn expr_columns(e: ExprV) -> Seq<Seq<char>>
    decreases e,
{
    match e {
        ExprV::Column(name) => seq![name],
        ExprV::Literal(_) => Seq::empty(),
        ExprV::Compare { left, right, .. } => expr_columns(*left) + expr_columns(*right),
        ExprV::Logical { left, right, .. } => expr_columns(*left) + expr_columns(*right),
    }
}

/// Append the columns that `expr` names, from left to right.
pub fn collect_expr_columns(expr: &Expr, out: &mut Vec<String>)
    ensures
        texts(final(out)@) == texts(old(out)@) + expr_columns(expr@),
    decreases expr,
{
    let ghost before = texts(out@);
    match expr {
        Expr::Column(name) => {
            out.push(name.clone());
            assert(texts(out@) =~= before + seq![name@]);
        },
        Expr::Literal(_) => {
            assert(texts(out@) =~= before + Seq::<Seq<char>>::empty());
        },
        Expr::Compare { left, op: _, right } => {
            collect_expr_columns(left, out);
            collect_expr_columns(right, out);
            assert(texts(out@) =~= before + (expr_columns(left@) + expr_columns(right@)));
        },
        Expr::Logical { left, op: _, right } => {
            collect_expr_columns(left, out);
            collect_expr_columns(right, out);
            assert(texts(out@) =~= before + (expr_columns(left@) + expr_columns(right@)));
        },
    }
}

/// The error of a column that is not in the table.
pub open spec fn unknown_column(clause: Seq<char>, name: Seq<char>, table: Seq<char>) -> ErrorV {
    ErrorV::InvalidQuery(
        clause + " references unknown column '"@ + name + "' in table '"@ + (table + "'"@),
    )
}

/// Whether `name` is not in the table, as an error.
pub open spec fn missing_column(
    schema: Seq<ColumnV>,
    name: Seq<char>,
    table: Seq<char>,
    clause: Seq<char>,
) -> Option<ErrorV> {
    if has_column(schema, name) {
        None
    } else {
        Some(unknown_column(clause, name, table))
    }
}

/// Check that the table has a column `name`.
pub fn ensure_column_exists(schema: &Schema, name: &str, table: &str, clause: &str) -> (r: Result<
    (),
    Error,
>)
    ensures
        checked(r) == missing_column(schema@, name@, table@, clause@),
{
    let mut i: usize = 0;
    while i < schema.columns.len()
        invariant
            i <= schema.columns@.len(),
            forall|j: int| 0 <= j < i ==> (#[trigger] schema@[j]).name != name@,
        decreases schema.columns.len() - i,
    {
        if same(schema.columns[i].name.as_str(), name) {
            assert(schema@[i as int].name == name@);
            return Ok(());
        }
        i = i + 1;
    }
    let tail = join2(table, "'");
    let m = join5(clause, " references unknown column '", name, "' in table '", tail.as_str());
    Err(Error::invalid_query(m.as_str()))
}

/// Whether the `i`th of `names` is not in the table.
pub open spec fn missing_name(
    schema: Seq<ColumnV>,
    names: Seq<Seq<char>>,
    table: Seq<char>,
    clause: Seq<char>,
) -> spec_fn(int) -> Option<ErrorV> {
    |i: int| missing_column(schema, names[i], table, clause)
}

/// The first of `names` that is not in the table, as an error.
pub open spec fn missing_names(
    schema: Seq<ColumnV>,
    names: Seq<Seq<char>>,
    table: Seq<char>,
    clause: Seq<char>,
) -> Option<ErrorV> {
    first_failure(0, names.len() as int, missing_name(schema, names, table, clause))
}

/// Check that the table has every one of `names`.
#[verifier::loop_isolation(false)]
pub fn ensure_columns_exist(
    schema: &Schema,
    names: &Vec<String>,
    table: &str,
    clause: &str,
) -> (r: Result<(), Error>)
    ensures
        checked(r) == missing_names(schema@, texts(names@), table@, clause@),
{
    let ghost rule = missing_name(schema@, texts(names@), table@, clause@);
    let ghost n = names@.len() as int;
    let mut i: usize = 0;
    while i < names.len()
        invariant
            i <= names@.len(),
            first_failure(0, n, rule) == first_failure(i as int, n, rule),
        decreases names.len() - i,
    {
        match ensure_column_exists(schema, names[i].as_str(), table, clause) {
            Ok(_) => {},
            Err(e) => {
                return Err(e);
            },
        }
        i = i + 1;
    }
    Ok(())
}

/// The first column of a condition that is not in the table, as an error.
pub open spec fn filter_error(
    schema: Seq<ColumnV>,
    filter: Option<ExprV>,
    table: Seq<char>,
) -> Option<ErrorV> {
    match filter {
        None => None,
        Some(e) => missing_names(schema, expr_columns(e), table, "WHERE"@),
    }
}

/// Check that the table has every column that a condition names.
pub fn check_filter(schema: &Schema, filter: &Option<Expr>, table: &str) -> (r: Result<(), Error>)
    ensures
        checked(r) == filter_error(schema@, filter_view(*filter), table@),
{
    match filter {
        None => Ok(()),
        Some(e) => {
            let mut referenced: Vec<String> = Vec::new();
            collect_expr_columns(e, &mut referenced);
            assert(texts(referenced@) =~= expr_columns(e@));
            ensure_columns_exist(schema, &referenced, table, "WHERE")
        },
    }
}

// ---- statements ----

/// The plan of a CREATE TABLE: the schema rules of the catalog hold.
pub open spec fn bound_create_table(table: Seq<char>, columns: Seq<ColumnDefV>) -> Result<
    LogicalPlanV,
    ErrorV,
> {
    match schema_error(table, schema_of(columns)) {
        Some(e) => Err(e),
        None => Ok(LogicalPlanV::CreateTable { table, columns }),
    }
}

fn bind_create_table(ct: &CreateTable) -> (r: Result<LogicalPlan, Error>)
    ensures
        outcome(r) == bound_create_table(ct.table@, column_defs_view(ct.columns@)),
{
    let schema = build_schema(&ct.columns);
    match schema.validate(ct.table.as_str()) {
        Err(e) => Err(e),
        Ok(_) => Ok(
            LogicalPlan::CreateTable {
                table: ct.table.clone(),
                columns: clone_column_defs(&ct.columns),
            },
        ),
    }
}

/// The plan of an INSERT: the table is there, has as many columns as there are
/// values, and each value fits its column.
pub open spec fn bound_insert(store: StoreV, table: Seq<char>, values: Seq<ValueV>) -> Result<
    LogicalPlanV,
    ErrorV,
> {
    match store.described(table) {
        Err(e) => Err(e),
        Ok(d) => if values.len() != d.schema.len() {
            Err(
                ErrorV::InvalidQuery(
                    "INSERT into '"@ + table + "' expects "@ + decimal(d.schema.len() as int) + (
                    " value(s), got "@ + decimal(values.len() as int)),
                ),
            )
        } else {
            match first_failure(
                0,
                values.len() as int,
                value_misfit(values, d.schema, table),
            ) {
                Some(e) => Err(e),
                None => Ok(LogicalPlanV::Insert { table, values }),
            }
        },
    }
}

#[verifier::loop_isolation(false)]
fn bind_insert<S: Storage>(ins: &Insert, storage: &S) -> (r: Result<LogicalPlan, Error>)
    ensures
        outcome(r) == bound_insert(storage.store(), ins.table@, literals_view(ins.values@)),
{
    let desc = match storage.describe_table(ins.table.as_str()) {
        Err(e) => {
            return Err(e);
        },
        Ok(d) => d,
    };
    let columns = &desc.schema.columns;
    if ins.values.len() != columns.len() {
        let expected = usize_text(columns.len());
        let got = usize_text(ins.values.len());
        let tail = join2(" value(s), got ", got.as_str());
        let m = join5(
            "INSERT into '",
            ins.table.as_str(),
            "' expects ",
            expected.as_str(),
            tail.as_str(),
        );
        return Err(Error::invalid_query(m.as_str()));
    }
    let ghost rule = value_misfit(literals_view(ins.values@), desc.schema@, ins.table@);
    let ghost n = ins.values@.len() as int;
    let mut i: usize = 0;
    while i < ins.values.len()
        invariant
            i <= ins.values@.len(),
            first_failure(0, n, rule) == first_failure(i as int, n, rule),
        decreases ins.values.len() - i,
    {
        match check_value(&ins.values[i], &columns[i], ins.table.as_str()) {
            Ok(_) => {},
            Err(e) => {
                return Err(e);
            },
        }
        i = i + 1;
    }
    Ok(LogicalPlan::Insert { table: ins.table.clone(), values: clone_literals(&ins.values) })
}

/// The columns that a SELECT gives, in order.
pub open spec fn projected_columns(schema: Seq<ColumnV>, projections: ProjectionV) -> Seq<
    Seq<char>,
> {
    match projections {
        ProjectionV::All => column_names(schema),
        ProjectionV::Columns(names) => names,
    }
}

/// The first column that a SELECT names and the table does not have: in its
/// list, its condition, or its order.
pub open spec fn select_error(schema: Seq<ColumnV>, sel: SelectV) -> Option<ErrorV> {
    let listed = match sel.projections {
        ProjectionV::All => None,
        ProjectionV::Columns(names) => missing_names(schema, names, sel.from, "SELECT"@),
    };
    match listed {
        Some(e) => Some(e),
        None => match filter_error(schema, sel.filter, sel.from) {
            Some(e) => Some(e),
            None => match sel.order_by {
                None => None,
                Some(o) => missing_column(schema, o.column, sel.from, "ORDER BY"@),
            },
        },
    }
}

/// The operators of a SELECT: scan, filter, sort and limit from the inside
/// out, and the projection outermost, so that every column of the table is
/// there to filter and sort by.
pub open spec fn select_plan(schema: Seq<ColumnV>, sel: SelectV) -> LogicalPlanV {
    let scan = LogicalPlanV::Scan { table: sel.from, columns: None };
    let filtered = match sel.filter {
        None => scan,
        Some(predicate) => LogicalPlanV::Filter { predicate, input: Box::new(scan) },
    };
    let sorted = match sel.order_by {
        None => filtered,
        Some(o) => LogicalPlanV::Sort {
            column: o.column,
            descending: o.descending,
            input: Box::new(filtered),
        },
    };
    let limited = match sel.limit {
        None => sorted,
        Some(count) => LogicalPlanV::Limit { count, input: Box::new(sorted) },
    };
    LogicalPlanV::Projection {
        columns: projected_columns(schema, sel.projections),
        input: Box::new(limited),
    }
}

/// The plan of a SELECT: the table and every column it names are there.
pub open spec fn bound_select(store: StoreV, sel: SelectV) -> Result<LogicalPlanV, ErrorV> {
    match store.described(sel.from) {
        Err(e) => Err(e),
        Ok(d) => match select_error(d.schema, sel) {
            Some(e) => Err(e),
            None => Ok(select_plan(d.schema, sel)),
        },
    }
}

/// The names of a table's columns.
fn schema_names(schema: &Schema) -> (r: Vec<String>)
    ensures
        texts(r@) == column_names(schema@),
{
    let mut r: Vec<String> = Vec::new();
    let mut i: usize = 0;
    while i < schema.columns.len()
        invariant
            i <= schema.columns@.len(),
            r@.len() == i,
            forall|j: int| 0 <= j < i ==> (#[trigger] r@[j])@ == schema@[j].name,
        decreases schema.columns.len() - i,
    {
        r.push(schema.columns[i].name.clone());
        i = i + 1;
    }
    assert(texts(r@) =~= column_names(schema@));
    r
}

fn bind_select<S: Storage>(sel: &Select, storage: &S) -> (r: Result<LogicalPlan, Error>)
    ensures
        outcome(r) == bound_select(storage.store(), sel@),
{
    let desc = match storage.describe_table(sel.from.as_str()) {
        Err(e) => {
            return Err(e);
        },
        Ok(d) => d,
    };
    let schema = &desc.schema;

    // Resolve the projection: `*` expands to the table's columns; an explicit
    // list must name only columns that exist.
    let columns = match &sel.projections {
        Projection::All => schema_names(schema),
        Projection::Columns(names) => {
            match ensure_columns_exist(schema, names, sel.from.as_str(), "SELECT") {
                Err(e) => {
                    return Err(e);
                },
                Ok(_) => {},
            }
            clone_texts(names)
        },
    };
    match check_filter(schema, &sel.filter, sel.from.as_str()) {
        Err(e) => {
            return Err(e);
        },
        Ok(_) => {},
    }
    match &sel.order_by {
        None => {},
        Some(o) => {
            match ensure_column_exists(schema, o.column.as_str(), sel.from.as_str(), "ORDER BY") {
                Err(e) => {
                    return Err(e);
                },
                Ok(_) => {},
            }
        },
    }

    let mut plan = LogicalPlan::Scan { table: sel.from.clone(), columns: None };
    match &sel.filter {
        None => {},
        Some(e) => {
            plan = LogicalPlan::Filter { predicate: e.clone(), input: Box::new(plan) };
        },
    }
    match &sel.order_by {
        None => {},
        Some(o) => {
            plan = LogicalPlan::Sort {
                column: o.column.clone(),
                descending: o.descending,
                input: Box::new(plan),
            };
        },
    }
    match sel.limit {
        None => {},
        Some(count) => {
            plan = LogicalPlan::Limit { count, input: Box::new(plan) };
        },
    }
    proof {
        reveal_with_fuel(plan_view, 6);
    }
    Ok(LogicalPlan::Projection { columns, input: Box::new(plan) })
}

/// What is wrong with an assignment: its column is not in the table, or the
/// literal does not fit it.
pub open spec fn assignment_error(schema: Seq<ColumnV>, a: AssignmentV, table: Seq<char>) -> Option<
    ErrorV,
> {
    match crate::text::position_of(column_names(schema), a.column) {
        None => Some(unknown_column("SET"@, a.column, table)),
        Some(c) => check_value_error(a.value, schema[c], table),
    }
}

/// What is wrong with the `i`th assignment.
pub open spec fn bad_assignment(
    schema: Seq<ColumnV>,
    assignments: Seq<AssignmentV>,
    table: Seq<char>,
) -> spec_fn(int) -> Option<ErrorV> {
    |i: int| assignment_error(schema, assignments[i], table)
}

/// Check one assignment against the table.
fn check_assignment(schema: &Schema, names: &Vec<String>, a: &Assignment, table: &str) -> (r: Result<
    (),
    Error,
>)
    requires
        texts(names@) == column_names(schema@),
    ensures
        checked(r) == assignment_error(schema@, a@, table@),
{
    assert(column_names(schema@).len() == schema@.len());
    match crate::text::position(names, a.column.as_str()) {
        None => {
            let tail = join2(table, "'");
            let m = join5(
                "SET",
                " references unknown column '",
                a.column.as_str(),
                "' in table '",
                tail.as_str(),
            );
            Err(Error::invalid_query(m.as_str()))
        },
        Some(c) => {
            assert(texts(names@).len() == names@.len());
            check_value(&a.value, &schema.columns[c], table)
        },
    }
}

/// The plan of a DELETE: the table and every column of its condition are there.
pub open spec fn bound_delete(store: StoreV, table: Seq<char>, filter: Option<ExprV>) -> Result<
    LogicalPlanV,
    ErrorV,
> {
    match store.described(table) {
        Err(e) => Err(e),
        Ok(d) => match filter_error(d.schema, filter, table) {
            Some(e) => Err(e),
            None => Ok(LogicalPlanV::Delete { table, filter }),
        },
    }
}

fn bind_delete<S: Storage>(del: &Delete, storage: &S) -> (r: Result<LogicalPlan, Error>)
    ensures
        outcome(r) == bound_delete(storage.store(), del.table@, filter_view(del.filter)),
{
    match storage.describe_table(del.table.as_str()) {
        Err(e) => Err(e),
        Ok(desc) => match check_filter(&desc.schema, &del.filter, del.table.as_str()) {
            Err(e) => Err(e),
            Ok(_) => Ok(
                LogicalPlan::Delete {
                    table: del.table.clone(),
                    filter: clone_filter(&del.filter),
                },
            ),
        },
    }
}

/// The plan of an UPDATE: the table is there, every assignment fits it, and so
/// does every column of the condition.
pub open spec fn bound_update(
    store: StoreV,
    table: Seq<char>,
    assignments: Seq<AssignmentV>,
    filter: Option<ExprV>,
) -> Result<LogicalPlanV, ErrorV> {
    match store.described(table) {
        Err(e) => Err(e),
        Ok(d) => match first_failure(
            0,
            assignments.len() as int,
            bad_assignment(d.schema, assignments, table),
        ) {
            Some(e) => Err(e),
            None => match filter_error(d.schema, filter, table) {
                Some(e) => Err(e),
                None => Ok(LogicalPlanV::Update { table, assignments, filter }),
            },
        },
    }
}

#[verifier::loop_isolation(false)]
fn bind_update<S: Storage>(up: &Update, storage: &S) -> (r: Result<LogicalPlan, Error>)
    ensures
        outcome(r) == bound_update(
            storage.store(),
            up.table@,
            assignments_view(up.assignments@),
            filter_view(up.filter),
        ),
{
    let desc = match storage.describe_table(up.table.as_str()) {
        Err(e) => {
            return Err(e);
        },
        Ok(d) => d,
    };
    let names = schema_names(&desc.schema);
    let ghost rule = bad_assignment(desc.schema@, assignments_view(up.assignments@), up.table@);
    let ghost n = up.assignments@.len() as int;
    let mut i: usize = 0;
    while i < up.assignments.len()
        invariant
            i <= up.assignments@.len(),
            first_failure(0, n, rule) == first_failure(i as int, n, rule),
        decreases up.assignments.len() - i,
    {
        match check_assignment(&desc.schema, &names, &up.assignments[i], up.table.as_str()) {
            Ok(_) => {},
            Err(e) => {
                return Err(e);
            },
        }
        i = i + 1;
    }
    match check_filter(&desc.schema, &up.filter, up.table.as_str()) {
        Err(e) => Err(e),
        Ok(_) => Ok(
            LogicalPlan::Update {
                table: up.table.clone(),
                assignments: clone_assignments(&up.assignments),
                filter: clone_filter(&up.filter),
            },
        ),
    }
}

/// The plan of a statement that only needs its table to be there.
pub open spec fn bound_to_table(store: StoreV, table: Seq<char>, plan: LogicalPlanV) -> Result<
    LogicalPlanV,
    ErrorV,
> {
    match store.described(table) {
        Err(e) => Err(e),
        Ok(_) => Ok(plan),
    }
}

/// The plan of a statement, or what is wrong with it.
pub open spec fn bound(store: StoreV, stmt: StatementV) -> Result<LogicalPlanV, ErrorV> {
    match stmt {
        StatementV::CreateTable { table, columns } => bound_create_table(table, columns),
        StatementV::Insert { table, values } => bound_insert(store, table, values),
        StatementV::Select(sel) => bound_select(store, sel),
        StatementV::DropTable { table } => bound_to_table(
            store,
            table,
            LogicalPlanV::DropTable { table },
        ),
        StatementV::ShowTables => Ok(LogicalPlanV::ShowTables),
        StatementV::Describe { table, extended } => bound_to_table(
            store,
            table,
            LogicalPlanV::Describe { table, extended },
        ),
        StatementV::Delete { table, filter } => bound_delete(store, table, filter),
        StatementV::Update { table, assignments, filter } => bound_update(
            store,
            table,
            assignments,
            filter,
        ),
    }
}

/// Bind `stmt` against the catalog behind `storage`, giving a validated plan.
pub fn bind<S: Storage>(stmt: &Statement, storage: &S) -> (r: Result<LogicalPlan, Error>)
    ensures
        outcome(r) == bound(storage.store(), stmt@),
{
    match stmt {
        Statement::CreateTable(ct) => bind_create_table(ct),
        Statement::Insert(ins) => bind_insert(ins, storage),
        Statement::Select(sel) => bind_select(sel, storage),
        Statement::DropTable(d) => match storage.describe_table(d.table.as_str()) {
            Err(e) => Err(e),
            Ok(_) => Ok(LogicalPlan::DropTable { table: d.table.clone() }),
        },
        Statement::ShowTables => Ok(LogicalPlan::ShowTables),
        Statement::Describe(d) => match storage.describe_table(d.table.as_str()) {
            Err(e) => Err(e),
            Ok(_) => Ok(
                LogicalPlan::Describe { table: d.table.clone(), extended: d.extended },
            ),
        },
        Statement::Delete(d) => bind_delete(d, storage),
        Statement::Update(u) => bind_update(u, storage),
    }
}

} // verus!
