//! What the view of a value says: each part of the value, under its own name
//! and in its own place, and nothing else.

use vstd::prelude::*;

use crate::catalog::files::{
    entries_view, manifest_columns_view, CatalogFile, ManifestColumn, ManifestFile, ManifestImage,
    ManifestImageV, TableEntry,
};
use crate::catalog::metadata::{Status, StatusV};
use crate::catalog::schema::{columns_view, Column, Schema};
use crate::catalog::tables::TableDescriptor;
use crate::cli::doctor::Report;
use crate::disk::{effects_view, Effect, EffectV};
use crate::error::{Error, ErrorV};
use crate::execution::logical::plan::{columns_list_view, LogicalPlan, LogicalPlanV};
use crate::execution::physical::plan::{PhysicalPlan, PhysicalPlanV};
use crate::execution::physical::result::{rows_view, QueryResult, QueryResultV};
use crate::parser::ast::{
    assignments_view, column_defs_view, filter_view, literals_view, order_by_view, Assignment,
    ColumnDef, CompareOp, CreateTable, Delete, Describe, DropTable, Expr, ExprV, Insert, Literal,
    LogicalOp, OrderBy, Projection, ProjectionV, Select, Statement, StatementV, Update,
};
use crate::parser::tree::{
    maybe, rows_of_exprs, views, SqlAssignment, SqlBinary, SqlBinaryV, SqlBody, SqlBodyV,
    SqlColumn, SqlCreateTable, SqlDelete, SqlExpr, SqlExprV, SqlInsert, SqlItem, SqlItemV,
    SqlLimit, SqlLimitV, SqlName, SqlOption, SqlOptionV, SqlOrderBy, SqlOrderItem, SqlQuery,
    SqlRelation, SqlRelationV, SqlSelect, SqlStatement, SqlStatementV, SqlTable, SqlType, SqlTypeV,
    SqlUnary, SqlUpdate, SqlValue, SqlValueV,
};
use crate::storage::column_file::Header;
use crate::storage::column_store::records_view;
use crate::storage::{
    data_view, predicates_view, projection_view, values_view, ColumnBatch, Record, ScanPredicate,
    TableHandle, Value, ValueV,
};
use crate::text::texts;

verus! {

// ---- lists ----

/// The view of a list has as many items as the list, each the view of the item
/// at the same place.
pub proof fn law_views_of_lists(
    names: Seq<String>,
    columns: Seq<Column>,
    entries: Seq<TableEntry>,
    manifest: Seq<ManifestColumn>,
    effects: Seq<Effect>,
    defs: Seq<ColumnDef>,
    literals: Seq<Literal>,
    assignments: Seq<Assignment>,
    i: int,
)
    ensures
        texts(names).len() == names.len(),
        0 <= i < names.len() ==> texts(names)[i] == names[i]@,
        columns_view(columns).len() == columns.len(),
        0 <= i < columns.len() ==> columns_view(columns)[i] == columns[i]@,
        entries_view(entries).len() == entries.len(),
        0 <= i < entries.len() ==> entries_view(entries)[i] == entries[i]@,
        manifest_columns_view(manifest).len() == manifest.len(),
        0 <= i < manifest.len() ==> manifest_columns_view(manifest)[i] == manifest[i]@,
        effects_view(effects).len() == effects.len(),
        0 <= i < effects.len() ==> effects_view(effects)[i] == effects[i]@,
        column_defs_view(defs).len() == defs.len(),
        0 <= i < defs.len() ==> column_defs_view(defs)[i] == defs[i]@,
        literals_view(literals).len() == literals.len(),
        0 <= i < literals.len() ==> literals_view(literals)[i] == literals[i]@,
        assignments_view(assignments).len() == assignments.len(),
        0 <= i < assignments.len() ==> assignments_view(assignments)[i] == assignments[i]@,
{
}

/// The same of lists of values, of records and of rows.
pub proof fn law_views_of_rows(
    values: Seq<Value>,
    records: Seq<Record>,
    rows: Seq<Vec<Value>>,
    predicates: Seq<ScanPredicate>,
    exprs: Seq<Vec<SqlExpr>>,
    names: Vec<String>,
    i: int,
    j: int,
)
    ensures
        values_view(values).len() == values.len(),
        0 <= i < values.len() ==> values_view(values)[i] == values[i]@,
        records_view(records).len() == records.len(),
        0 <= i < records.len() ==> records_view(records)[i] == records[i]@,
        rows_view(rows).len() == rows.len(),
        0 <= i < rows.len() ==> rows_view(rows)[i].len() == rows[i]@.len() && (0 <= j
            < rows[i]@.len() ==> rows_view(rows)[i][j] == rows[i]@[j]@),
        data_view(rows).len() == rows.len(),
        0 <= i < rows.len() ==> data_view(rows)[i].len() == rows[i]@.len() && (0 <= j
            < rows[i]@.len() ==> data_view(rows)[i][j] == rows[i]@[j]@),
        predicates_view(predicates).len() == predicates.len(),
        0 <= i < predicates.len() ==> predicates_view(predicates)[i] == predicates[i]@,
        rows_of_exprs(exprs).len() == exprs.len(),
        0 <= i < exprs.len() ==> rows_of_exprs(exprs)[i].len() == exprs[i]@.len() && (0 <= j
            < exprs[i]@.len() ==> rows_of_exprs(exprs)[i][j] == exprs[i]@[j]@),
        projection_view(None) is None,
        projection_view(Some(&names)) is Some,
        projection_view(Some(&names))->0.len() == names@.len(),
        0 <= i < names@.len() ==> projection_view(Some(&names))->0[i] == names@[i]@,
        columns_list_view(None) is None,
        columns_list_view(Some(names)) is Some,
        columns_list_view(Some(names))->0.len() == names@.len(),
        0 <= i < names@.len() ==> columns_list_view(Some(names))->0[i] == names@[i]@,
{
}

/// The same of the lists of a syntax tree, and of nodes that may be missing.
pub proof fn law_views_of_nodes<T: View>(nodes: Seq<T>, node: T, name: SqlName, i: int)
    ensures
        views(nodes).len() == nodes.len(),
        0 <= i < nodes.len() ==> views(nodes)[i] == nodes[i]@,
        maybe::<T>(None) is None,
        maybe(Some(node)) == Some(node@),
        name@.len() == name.parts@.len(),
        0 <= i < name.parts@.len() ==> (name@[i] is Some <==> name.parts@[i] is Some),
        0 <= i < name.parts@.len() && name.parts@[i] is Some ==> name@[i]->0 == (
        name.parts@[i]->0)@,
{
}

// ---- values and records ----

/// The view of a value, a record, a batch, a hint or a table handle.
pub proof fn law_views_of_data(
    n: i64,
    s: String,
    record: Record,
    batch: ColumnBatch,
    hint: ScanPredicate,
    handle: TableHandle,
)
    ensures
        Value::Int(n)@ == ValueV::Int(n),
        Value::Text(s)@ == ValueV::Text(s@),
        Value::Null@ is Null,
        Literal::Int(n)@ == ValueV::Int(n),
        Literal::Text(s)@ == ValueV::Text(s@),
        Literal::Null@ is Null,
        record@ == values_view(record.values@),
        batch@.names == texts(batch.names@),
        batch@.columns == data_view(batch.columns@),
        hint@.column == hint.column@,
        hint@.op == hint.op,
        hint@.value == hint.value,
        handle@.id == handle.id,
        handle@.name == handle.name@,
        handle@.schema == handle.schema@,
        handle@.dir == handle.dir@,
        handle@.row_group_size == handle.row_group_size,
{
}

/// The view of what a statement answers and of what a check reports.
pub proof fn law_views_of_answers(
    names: Vec<String>,
    rows: Vec<Vec<Value>>,
    message: String,
    report: Report,
)
    ensures
        (QueryResult::Rows { names, rows })@ == (QueryResultV::Rows {
            names: texts(names@),
            rows: rows_view(rows@),
        }),
        QueryResult::Affected(message)@ == QueryResultV::Affected(message@),
        report@.lines == texts(report.lines@),
        report@.healthy == report.healthy,
{
}

/// The view of an error: its sort, and its message.
pub proof fn law_views_of_errors(m: String, e: Error)
    ensures
        e is Io <==> e@ is Io,
        e matches Error::Io { context, source } ==> e@ == ErrorV::Io(context@),
        Error::TableNotFound(m)@ == ErrorV::TableNotFound(m@),
        Error::TableExists(m)@ == ErrorV::TableExists(m@),
        Error::InvalidSchema(m)@ == ErrorV::InvalidSchema(m@),
        Error::InvalidValue(m)@ == ErrorV::InvalidValue(m@),
        Error::InvalidQuery(m)@ == ErrorV::InvalidQuery(m@),
        Error::ChecksumMismatch(m)@ == ErrorV::ChecksumMismatch(m@),
        Error::Corrupt(m)@ == ErrorV::Corrupt(m@),
        Error::Other(m)@ == ErrorV::Other(m@),
{
}

// ---- tables ----

/// The view of a column, a schema and a table descriptor.
pub proof fn law_views_of_tables(column: Column, schema: Schema, d: TableDescriptor)
    ensures
        column@.name == column.name@,
        column@.ty == column.ty,
        column@.nullable == column.nullable,
        schema@ == columns_view(schema.columns@),
        d@.id == d.id,
        d@.name == d.name@,
        d@.schema == d.schema@,
        d@.row_group_size == d.row_group_size,
        d@.storage_track == d.storage_track@,
        d@.dir == d.dir@,
        d@.next_rid == d.next_rid,
{
}

/// The view of the table index, of a manifest and of a database's state.
pub proof fn law_views_of_metadata(
    entry: TableEntry,
    file: CatalogFile,
    column: ManifestColumn,
    manifest: ManifestFile,
    m: String,
    found: u32,
    supported: u32,
)
    ensures
        entry@.id == entry.id,
        entry@.name == entry.name@,
        entry@.dir == entry.dir@,
        file@.format_version == file.format_version,
        file@.storage_track == file.storage_track@,
        file@.next_table_id == file.next_table_id,
        file@.tables == entries_view(file.tables@),
        column@.name == column.name@,
        column@.ty == column.ty,
        column@.nullable == column.nullable,
        column@.file == column.file@,
        manifest@.format_version == manifest.format_version,
        manifest@.table_id == manifest.table_id,
        manifest@.name == manifest.name@,
        manifest@.storage_track == manifest.storage_track@,
        manifest@.row_group_size == manifest.row_group_size,
        manifest@.next_rid == manifest.next_rid,
        manifest@.columns == manifest_columns_view(manifest.columns@),
        ManifestImage::Missing@ is Missing,
        ManifestImage::Unreadable(m)@ == ManifestImageV::Unreadable(m@),
        ManifestImage::Invalid(m)@ == ManifestImageV::Invalid(m@),
        ManifestImage::Loaded(manifest)@ == ManifestImageV::Loaded(manifest@),
        Status::Missing@ is Missing,
        Status::Unreadable@ is Unreadable,
        Status::WrongMagic@ is WrongMagic,
        (Status::TooNew { found, supported })@ == (StatusV::TooNew { found, supported }),
        (Status::Ready { format_version: found, created: m })@ == (StatusV::Ready {
            format_version: found,
            created: m@,
        }),
{
}

/// The view of a write to the disk and of a column file's header.
pub proof fn law_views_of_files(
    file: CatalogFile,
    manifest: ManifestFile,
    dir: String,
    group: u32,
    name: String,
    bytes: Vec<u8>,
    header: Header,
)
    ensures
        Effect::WriteCatalog(file)@ == EffectV::WriteCatalog(file@),
        (Effect::WriteManifest { dir, manifest })@ == (EffectV::WriteManifest {
            dir: dir@,
            manifest: manifest@,
        }),
        (Effect::CreateGroup { dir, group })@ == (EffectV::CreateGroup { dir: dir@, group }),
        (Effect::WriteFile { dir, group, file: name, bytes })@ == (EffectV::WriteFile {
            dir: dir@,
            group,
            file: name@,
            bytes: bytes@,
        }),
        Effect::RemoveDir(dir)@ == EffectV::RemoveDir(dir@),
        header@.format_version == header.format_version,
        header@.logical_type == header.logical_type,
        header@.physical_encoding == header.physical_encoding,
        header@.flags == header.flags,
        header@.row_count == header.row_count,
        header@.null_count == header.null_count,
        header@.min == header.min@,
        header@.max == header.max@,
{
}

// ---- statements ----

/// The view of a condition: both sides stay on their side, and the operator
/// stays what it is.
pub proof fn law_views_of_conditions(
    name: String,
    literal: Literal,
    left: Expr,
    right: Expr,
    op: CompareOp,
    word: LogicalOp,
)
    ensures
        Expr::Column(name)@ == ExprV::Column(name@),
        Expr::Literal(literal)@ == ExprV::Literal(literal@),
        (Expr::Compare { left: Box::new(left), op, right: Box::new(right) })@ == (ExprV::Compare {
            left: Box::new(left@),
            op,
            right: Box::new(right@),
        }),
        (Expr::Logical { left: Box::new(left), op: word, right: Box::new(right) })@ == (
        ExprV::Logical { left: Box::new(left@), op: word, right: Box::new(right@) }),
        filter_view(None) is None,
        filter_view(Some(left)) == Some(left@),
{
}

/// The view of the parts of a statement.
pub proof fn law_views_of_clauses(
    def: ColumnDef,
    assignment: Assignment,
    select: Select,
    order: OrderBy,
    names: Vec<String>,
)
    ensures
        def@.name == def.name@,
        def@.ty == def.ty,
        def@.nullable == def.nullable,
        assignment@.column == assignment.column@,
        assignment@.value == assignment.value@,
        Projection::All@ is All,
        Projection::Columns(names)@ == ProjectionV::Columns(texts(names@)),
        order_by_view(None) is None,
        order_by_view(Some(order)) is Some,
        order_by_view(Some(order))->0.column == order.column@,
        order_by_view(Some(order))->0.descending == order.descending,
        select@.projections == select.projections@,
        select@.from == select.from@,
        select@.filter == filter_view(select.filter),
        select@.order_by == order_by_view(select.order_by),
        select@.limit == select.limit,
{
}

/// The view of a statement.
pub proof fn law_views_of_statements(
    create: CreateTable,
    insert: Insert,
    select: Select,
    drop: DropTable,
    describe: Describe,
    delete: Delete,
    update: Update,
)
    ensures
        Statement::CreateTable(create)@ == (StatementV::CreateTable {
            table: create.table@,
            columns: column_defs_view(create.columns@),
        }),
        Statement::Insert(insert)@ == (StatementV::Insert {
            table: insert.table@,
            values: literals_view(insert.values@),
        }),
        Statement::Select(select)@ == StatementV::Select(select@),
        Statement::DropTable(drop)@ == (StatementV::DropTable { table: drop.table@ }),
        Statement::ShowTables@ is ShowTables,
        Statement::Describe(describe)@ == (StatementV::Describe {
            table: describe.table@,
            extended: describe.extended,
        }),
        Statement::Delete(delete)@ == (StatementV::Delete {
            table: delete.table@,
            filter: filter_view(delete.filter),
        }),
        Statement::Update(update)@ == (StatementV::Update {
            table: update.table@,
            assignments: assignments_view(update.assignments@),
            filter: filter_view(update.filter),
        }),
{
}

// ---- plans ----

/// The view of a logical plan, step by step.
pub proof fn law_views_of_logical_plans(
    table: String,
    columns: Vec<ColumnDef>,
    values: Vec<Literal>,
    assignments: Vec<Assignment>,
    filter: Option<Expr>,
    names: Vec<String>,
    list: Option<Vec<String>>,
    predicate: Expr,
    column: String,
    flag: bool,
    count: u64,
    input: LogicalPlan,
)
    ensures
        (LogicalPlan::CreateTable { table, columns })@ == (LogicalPlanV::CreateTable {
            table: table@,
            columns: column_defs_view(columns@),
        }),
        (LogicalPlan::Insert { table, values })@ == (LogicalPlanV::Insert {
            table: table@,
            values: literals_view(values@),
        }),
        (LogicalPlan::DropTable { table })@ == (LogicalPlanV::DropTable { table: table@ }),
        LogicalPlan::ShowTables@ is ShowTables,
        (LogicalPlan::Describe { table, extended: flag })@ == (LogicalPlanV::Describe {
            table: table@,
            extended: flag,
        }),
        (LogicalPlan::Delete { table, filter })@ == (LogicalPlanV::Delete {
            table: table@,
            filter: filter_view(filter),
        }),
        (LogicalPlan::Update { table, assignments, filter })@ == (LogicalPlanV::Update {
            table: table@,
            assignments: assignments_view(assignments@),
            filter: filter_view(filter),
        }),
        (LogicalPlan::Scan { table, columns: list })@ == (LogicalPlanV::Scan {
            table: table@,
            columns: columns_list_view(list),
        }),
        (LogicalPlan::Filter { predicate, input: Box::new(input) })@ == (LogicalPlanV::Filter {
            predicate: predicate@,
            input: Box::new(input@),
        }),
        (LogicalPlan::Projection { columns: names, input: Box::new(input) })@ == (
        LogicalPlanV::Projection { columns: texts(names@), input: Box::new(input@) }),
        (LogicalPlan::Sort { column, descending: flag, input: Box::new(input) })@ == (
        LogicalPlanV::Sort { column: column@, descending: flag, input: Box::new(input@) }),
        (LogicalPlan::Limit { count, input: Box::new(input) })@ == (LogicalPlanV::Limit {
            count,
            input: Box::new(input@),
        }),
        (LogicalPlan::TopK { column, descending: flag, count, input: Box::new(input) })@ == (
        LogicalPlanV::TopK { column: column@, descending: flag, count, input: Box::new(input@) }),
{
}

/// The view of a physical plan, step by step.
pub proof fn law_views_of_physical_plans(
    table: String,
    columns: Vec<ColumnDef>,
    values: Vec<Literal>,
    assignments: Vec<Assignment>,
    filter: Option<Expr>,
    names: Vec<String>,
    projection: Option<Vec<String>>,
    prune: Vec<ScanPredicate>,
    predicate: Expr,
    column: String,
    flag: bool,
    count: u64,
    input: PhysicalPlan,
)
    ensures
        (PhysicalPlan::CreateTableExec { table, columns })@ == (PhysicalPlanV::CreateTableExec {
            table: table@,
            columns: column_defs_view(columns@),
        }),
        (PhysicalPlan::InsertExec { table, values })@ == (PhysicalPlanV::InsertExec {
            table: table@,
            values: literals_view(values@),
        }),
        (PhysicalPlan::DropTableExec { table })@ == (PhysicalPlanV::DropTableExec {
            table: table@,
        }),
        PhysicalPlan::ShowTablesExec@ is ShowTablesExec,
        (PhysicalPlan::DescribeExec { table, extended: flag })@ == (PhysicalPlanV::DescribeExec {
            table: table@,
            extended: flag,
        }),
        (PhysicalPlan::DeleteExec { table, filter })@ == (PhysicalPlanV::DeleteExec {
            table: table@,
            filter: filter_view(filter),
        }),
        (PhysicalPlan::UpdateExec { table, assignments, filter })@ == (PhysicalPlanV::UpdateExec {
            table: table@,
            assignments: assignments_view(assignments@),
            filter: filter_view(filter),
        }),
        (PhysicalPlan::TableScanExec { table, projection, prune })@ == (
        PhysicalPlanV::TableScanExec {
            table: table@,
            projection: columns_list_view(projection),
            prune: predicates_view(prune@),
        }),
        (PhysicalPlan::FilterExec { predicate, input: Box::new(input) })@ == (
        PhysicalPlanV::FilterExec { predicate: predicate@, input: Box::new(input@) }),
        (PhysicalPlan::ProjectionExec { columns: names, input: Box::new(input) })@ == (
        PhysicalPlanV::ProjectionExec { columns: texts(names@), input: Box::new(input@) }),
        (PhysicalPlan::SortExec { column, descending: flag, input: Box::new(input) })@ == (
        PhysicalPlanV::SortExec { column: column@, descending: flag, input: Box::new(input@) }),
        (PhysicalPlan::LimitExec { count, input: Box::new(input) })@ == (PhysicalPlanV::LimitExec {
            count,
            input: Box::new(input@),
        }),
        (PhysicalPlan::TopKExec { column, descending: flag, count, input: Box::new(input) })@ == (
        PhysicalPlanV::TopKExec {
            column: column@,
            descending: flag,
            count,
            input: Box::new(input@),
        }),
{
}

// ---- syntax trees ----

/// The view of an expression of a syntax tree.
pub proof fn law_views_of_expressions(
    s: String,
    value: SqlValue,
    sign: SqlUnary,
    op: SqlBinary,
    left: SqlExpr,
    right: SqlExpr,
)
    ensures
        SqlValue::Number(s)@ == SqlValueV::Number(s@),
        SqlValue::SingleQuotedString(s)@ == SqlValueV::SingleQuotedString(s@),
        SqlValue::Null@ is Null,
        SqlValue::Other(s)@ == SqlValueV::Other(s@),
        SqlBinary::Eq@ is Eq,
        SqlBinary::NotEq@ is NotEq,
        SqlBinary::Lt@ is Lt,
        SqlBinary::LtEq@ is LtEq,
        SqlBinary::Gt@ is Gt,
        SqlBinary::GtEq@ is GtEq,
        SqlBinary::And@ is And,
        SqlBinary::Or@ is Or,
        SqlBinary::Other(s)@ == SqlBinaryV::Other(s@),
        SqlExpr::Identifier(s)@ == SqlExprV::Identifier(s@),
        SqlExpr::CompoundIdentifier@ is CompoundIdentifier,
        SqlExpr::Other@ is Other,
        SqlExpr::Nested(Box::new(left))@ == SqlExprV::Nested(Box::new(left@)),
        SqlExpr::Value(value)@ == SqlExprV::Value(value@),
        (SqlExpr::Unary { op: sign, expr: Box::new(left) })@ == (SqlExprV::Unary {
            op: sign,
            expr: Box::new(left@),
        }),
        (SqlExpr::Binary { left: Box::new(left), op, right: Box::new(right) })@ == (
        SqlExprV::Binary { left: Box::new(left@), op: op@, right: Box::new(right@) }),
{
}

/// The view of a column definition of a syntax tree.
pub proof fn law_views_of_definitions(s: String, column: SqlColumn, create: SqlCreateTable)
    ensures
        SqlType::Int@ is Int,
        SqlType::Integer@ is Integer,
        SqlType::Text@ is Text,
        SqlType::Varchar@ is Varchar,
        SqlType::Str@ is Str,
        SqlType::Char@ is Char,
        SqlType::Other(s)@ == SqlTypeV::Other(s@),
        SqlOption::Null@ is Null,
        SqlOption::NotNull@ is NotNull,
        SqlOption::Other(s)@ == SqlOptionV::Other(s@),
        column@.name == column.name@,
        column@.shown == column.shown@,
        column@.ty == column.ty@,
        column@.options == views(column.options@),
        create@.name == create.name@,
        create@.constraints == create.constraints,
        create@.columns == views(create.columns@),
{
}

/// The view of a query of a syntax tree.
pub proof fn law_views_of_queries(
    name: SqlName,
    flag: bool,
    by: usize,
    table: SqlTable,
    e: SqlExpr,
    limit: Option<SqlExpr>,
    item: SqlOrderItem,
    order: SqlOrderBy,
    select: SqlSelect,
    rows: Vec<Vec<SqlExpr>>,
    query: SqlQuery,
)
    ensures
        (SqlRelation::Table { name, args: flag })@ == (SqlRelationV::Table {
            name: name@,
            args: flag,
        }),
        SqlRelation::Other@ is Other,
        table@.relation == table.relation@,
        table@.joins == table.joins,
        SqlItem::Expr(e)@ == SqlItemV::Expr(e@),
        SqlItem::Alias@ is Alias,
        SqlItem::QualifiedWildcard@ is QualifiedWildcard,
        SqlItem::Wildcard@ is Wildcard,
        item@.expr == item.expr@,
        item@.asc == item.asc,
        item@.with_fill == item.with_fill,
        order@.interpolate == order.interpolate,
        order@.items is Some <==> order.items is Some,
        order.items is Some ==> order@.items->0 == views((order.items->0)@),
        (SqlLimit::LimitOffset { limit, offset: flag, by })@ == (SqlLimitV::LimitOffset {
            limit: maybe(limit),
            offset: flag,
            by,
        }),
        SqlLimit::OffsetCommaLimit@ is OffsetCommaLimit,
        select@.distinct == select.distinct,
        select@.having == select.having,
        select@.group_by == select.group_by,
        select@.from == views(select.from@),
        select@.projection == views(select.projection@),
        select@.selection == maybe(select.selection),
        SqlBody::Select(select)@ == SqlBodyV::Select(select@),
        SqlBody::SetOperation@ is SetOperation,
        SqlBody::Query@ is Query,
        SqlBody::Values(rows)@ == SqlBodyV::Values(rows_of_exprs(rows@)),
        SqlBody::Other@ is Other,
        query@.with == query.with,
        query@.fetch == query.fetch,
        query@.order_by == maybe(query.order_by),
        query@.limit == maybe(query.limit),
        query@.body == query.body@,
{
}

/// The view of a statement of a syntax tree.
pub proof fn law_views_of_syntax(
    create: SqlCreateTable,
    insert: SqlInsert,
    query: SqlQuery,
    table: bool,
    if_exists: bool,
    names: Vec<SqlName>,
    options: Vec<bool>,
    explain: bool,
    extended: bool,
    formatted: bool,
    name: SqlName,
    delete: SqlDelete,
    assignment: SqlAssignment,
    update: SqlUpdate,
)
    ensures
        insert@.table == maybe(insert.table),
        insert@.columns == insert.columns,
        insert@.assignments == insert.assignments,
        insert@.source == maybe(insert.source),
        delete@.from == views(delete.from@),
        delete@.selection == maybe(delete.selection),
        delete@.tables == delete.tables,
        delete@.ordered == delete.ordered,
        delete@.clauses == delete.clauses@,
        assignment@.target == maybe(assignment.target),
        assignment@.value == assignment.value@,
        update@.table == update.table@,
        update@.assignments == views(update.assignments@),
        update@.selection == maybe(update.selection),
        update@.ordered == update.ordered,
        update@.clauses == update.clauses@,
        SqlStatement::CreateTable(create)@ == SqlStatementV::CreateTable(create@),
        SqlStatement::Insert(insert)@ == SqlStatementV::Insert(insert@),
        SqlStatement::Query(query)@ == SqlStatementV::Query(query@),
        (SqlStatement::Drop { table, if_exists, names })@ == (SqlStatementV::Drop {
            table,
            if_exists,
            names: views(names@),
        }),
        (SqlStatement::ShowTables { options })@ == (SqlStatementV::ShowTables {
            options: options@,
        }),
        (SqlStatement::Describe { explain, extended, formatted, name })@ == (
        SqlStatementV::Describe { explain, extended, formatted, name: name@ }),
        SqlStatement::Delete(delete)@ == SqlStatementV::Delete(delete@),
        SqlStatement::Update(update)@ == SqlStatementV::Update(update@),
        SqlStatement::Other@ is Other,
{
}

} // verus!
