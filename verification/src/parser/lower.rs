//! Lowering: from the SQL syntax tree to a statement of the supported subset.
//!
//! What cannot be represented is rejected with a description, so that a
//! statement always means "fully understood".

use vstd::prelude::*;

use crate::parser::ast::{
    assignments_view, column_defs_view, filter_view, literals_view, order_by_view, Assignment,
    AssignmentV, ColumnDef, ColumnDefV, CompareOp, CreateTable, DataType, Delete, Describe,
    DropTable, Expr, ExprV, Insert, Literal, LogicalOp, OrderBy, OrderByV, Projection, ProjectionV,
    Select, SelectV, Statement, StatementV, Update,
};
use crate::parser::error::{unsupported_text, ParseError};
use crate::parser::tree::{
    maybe, rows_of_exprs, sql_expr_view, views, SqlAssignment, SqlAssignmentV, SqlBinary,
    SqlBinaryV, SqlBody, SqlBodyV, SqlColumn, SqlColumnV, SqlCreateTable, SqlCreateTableV,
    SqlDelete, SqlDeleteV, SqlExpr, SqlExprV, SqlGroupBy, SqlInsert, SqlInsertV, SqlItem, SqlItemV,
    SqlLimit, SqlLimitV, SqlName, SqlOption, SqlOptionV, SqlOrderBy, SqlOrderByV, SqlQuery,
    SqlQueryV, SqlRelation, SqlRelationV, SqlSelectV, SqlStatement, SqlStatementV, SqlTable,
    SqlTableV, SqlType, SqlTypeV, SqlUnary, SqlUpdate, SqlUpdateV, SqlValue, SqlValueV,
};
use crate::steps::{collect, collect_from};
use crate::storage::ValueV;
use crate::text::{
    decimal, digits, i64_value, join2, join3, join5, lemma_decimal_reads_back, parse_i64, texts,
};

verus! {

/// What a lowering function gave back, over views.
pub open spec fn parse_outcome<T: View>(r: Result<T, ParseError>) -> Result<T::V, Seq<char>> {
    match r {
        Ok(v) => Ok(v@),
        Err(e) => Err(e@),
    }
}

/// The error of a construct outside the supported subset.
pub open spec fn unsupported<T>(what: Seq<char>) -> Result<T, Seq<char>> {
    Err(unsupported_text(what))
}

// ---- literals and expressions ----

/// The literal of an integer that was read from the digits `n`, if it could be.
pub open spec fn numbered(read: Option<i64>, n: Seq<char>) -> Result<ValueV, Seq<char>> {
    match read {
        Some(k) => Ok(ValueV::Int(k)),
        None => Err("`"@ + n + "` is not a valid integer"@),
    }
}

/// The literal of an integer that was read from the digits `n`, if it could be.
fn number(read: Option<i64>, n: &str) -> (r: Result<Literal, ParseError>)
    ensures
        parse_outcome(r) == numbered(read, n@),
{
    match read {
        Some(k) => Ok(Literal::Int(k)),
        None => {
            let m = join3("`", n, "` is not a valid integer");
            Err(ParseError::new(m.as_str()))
        },
    }
}

/// The literal of a value: an integer, a string or NULL.
pub open spec fn lowered_value(v: SqlValueV) -> Result<ValueV, Seq<char>> {
    match v {
        SqlValueV::Number(n) => numbered(i64_value(n), n),
        SqlValueV::SingleQuotedString(s) => Ok(ValueV::Text(s)),
        SqlValueV::Null => Ok(ValueV::Null),
        SqlValueV::Other(s) => unsupported("literal `"@ + s + "`"@),
    }
}

fn lower_value(v: &SqlValue) -> (r: Result<Literal, ParseError>)
    ensures
        parse_outcome(r) == lowered_value(v@),
{
    match v {
        SqlValue::Number(n) => number(parse_i64(n.as_str()), n.as_str()),
        SqlValue::SingleQuotedString(s) => Ok(Literal::Text(s.clone())),
        SqlValue::Null => Ok(Literal::Null),
        SqlValue::Other(s) => {
            let m = join3("literal `", s.as_str(), "`");
            Err(ParseError::unsupported(m.as_str()))
        },
    }
}

/// The literal of a minus over `n`.
pub open spec fn negated(n: i64) -> Result<ValueV, Seq<char>> {
    if n == i64::MIN {
        Err("`9223372036854775808` is not a valid integer"@)
    } else {
        Ok(ValueV::Int((-n) as i64))
    }
}

/// The literal of an expression: a value, or a signed number. A minus and the
/// digits behind it are read as one integer, the smallest one included.
pub open spec fn lowered_literal(e: SqlExprV) -> Result<ValueV, Seq<char>>
    decreases e,
{
    match e {
        SqlExprV::Value(v) => lowered_value(v),
        SqlExprV::Unary { op, expr } => match op {
            SqlUnary::Minus => match *expr {
                SqlExprV::Value(SqlValueV::Number(n)) => numbered(i64_value("-"@ + n), n),
                _ => match lowered_literal(*expr) {
                    Err(m) => Err(m),
                    Ok(ValueV::Int(n)) => negated(n),
                    Ok(_) => Err("`-` expects a number"@),
                },
            },
            SqlUnary::Plus => lowered_literal(*expr),
            _ => unsupported("this value (expected an integer, a 'string', or NULL)"@),
        },
        _ => unsupported("this value (expected an integer, a 'string', or NULL)"@),
    }
}

/// Lower a literal. `-N` is a minus over a number, which is read as one integer,
/// so that negative integers come through.
pub fn lower_literal(e: &SqlExpr) -> (r: Result<Literal, ParseError>)
    ensures
        parse_outcome(r) == lowered_literal(e@),
    decreases e,
{
    proof {
        reveal_with_fuel(sql_expr_view, 3);
    }
    match e {
        SqlExpr::Value(v) => lower_value(v),
        SqlExpr::Unary { op, expr } => match op {
            SqlUnary::Minus => match &**expr {
                SqlExpr::Value(SqlValue::Number(n)) => {
                    let signed = join2("-", n.as_str());
                    number(parse_i64(signed.as_str()), n.as_str())
                },
                _ => match lower_literal(expr) {
                    Err(m) => Err(m),
                    Ok(Literal::Int(n)) => if n == i64::MIN {
                        Err(ParseError::new("`9223372036854775808` is not a valid integer"))
                    } else {
                        Ok(Literal::Int(-n))
                    },
                    Ok(_) => Err(ParseError::new("`-` expects a number")),
                },
            },
            SqlUnary::Plus => lower_literal(expr),
            _ => Err(
                ParseError::unsupported("this value (expected an integer, a 'string', or NULL)"),
            ),
        },
        _ => Err(ParseError::unsupported("this value (expected an integer, a 'string', or NULL)")),
    }
}

/// The expression that an integer is written as: digits, behind a minus where it
/// is negative.
pub open spec fn written_integer(n: i64) -> SqlExprV {
    if n < 0 {
        SqlExprV::Unary {
            op: SqlUnary::Minus,
            expr: Box::new(SqlExprV::Value(SqlValueV::Number(digits((-n) as nat)))),
        }
    } else {
        SqlExprV::Value(SqlValueV::Number(digits(n as nat)))
    }
}

/// Integers round-trip: every 64-bit integer, the smallest one included, is the
/// literal of what it is written as.
pub proof fn law_integers_round_trip(n: i64)
    ensures
        lowered_literal(written_integer(n)) == Ok::<ValueV, Seq<char>>(ValueV::Int(n)),
{
    lemma_decimal_reads_back(n as int);
    reveal_strlit("-");
    if n < 0 {
        assert("-"@ + digits((-n) as nat) =~= decimal(n as int));
    }
}

/// What an operator does with its two sides.
#[derive(Clone, Copy, PartialEq, Eq, Structural)]
pub enum Joining {
    Compare(CompareOp),
    Logical(LogicalOp),
}

/// What an operator stands for.
pub open spec fn joining(op: SqlBinaryV) -> Result<Joining, Seq<char>> {
    match op {
        SqlBinaryV::Eq => Ok(Joining::Compare(CompareOp::Eq)),
        SqlBinaryV::NotEq => Ok(Joining::Compare(CompareOp::NotEq)),
        SqlBinaryV::Lt => Ok(Joining::Compare(CompareOp::Lt)),
        SqlBinaryV::LtEq => Ok(Joining::Compare(CompareOp::LtEq)),
        SqlBinaryV::Gt => Ok(Joining::Compare(CompareOp::Gt)),
        SqlBinaryV::GtEq => Ok(Joining::Compare(CompareOp::GtEq)),
        SqlBinaryV::And => Ok(Joining::Logical(LogicalOp::And)),
        SqlBinaryV::Or => Ok(Joining::Logical(LogicalOp::Or)),
        SqlBinaryV::Other(s) => unsupported("operator `"@ + s + "` in WHERE"@),
    }
}

fn lower_operator(op: &SqlBinary) -> (r: Result<Joining, ParseError>)
    ensures
        match r {
            Ok(j) => joining(op@) == Ok::<Joining, Seq<char>>(j),
            Err(e) => joining(op@) == Err::<Joining, Seq<char>>(e@),
        },
{
    match op {
        SqlBinary::Eq => Ok(Joining::Compare(CompareOp::Eq)),
        SqlBinary::NotEq => Ok(Joining::Compare(CompareOp::NotEq)),
        SqlBinary::Lt => Ok(Joining::Compare(CompareOp::Lt)),
        SqlBinary::LtEq => Ok(Joining::Compare(CompareOp::LtEq)),
        SqlBinary::Gt => Ok(Joining::Compare(CompareOp::Gt)),
        SqlBinary::GtEq => Ok(Joining::Compare(CompareOp::GtEq)),
        SqlBinary::And => Ok(Joining::Logical(LogicalOp::And)),
        SqlBinary::Or => Ok(Joining::Logical(LogicalOp::Or)),
        SqlBinary::Other(s) => {
            let m = join3("operator `", s.as_str(), "` in WHERE");
            Err(ParseError::unsupported(m.as_str()))
        },
    }
}

/// Two sides, joined by an operator.
pub open spec fn joined_exprs(j: Joining, l: ExprV, r: ExprV) -> ExprV {
    match j {
        Joining::Compare(op) => ExprV::Compare { left: Box::new(l), op, right: Box::new(r) },
        Joining::Logical(op) => ExprV::Logical { left: Box::new(l), op, right: Box::new(r) },
    }
}

/// A condition: comparisons of columns and literals, put together by `AND` and
/// `OR`.
pub open spec fn lowered_expr(e: SqlExprV) -> Result<ExprV, Seq<char>>
    decreases e,
{
    match e {
        SqlExprV::Identifier(name) => Ok(ExprV::Column(name)),
        SqlExprV::Nested(inner) => lowered_expr(*inner),
        SqlExprV::Value(v) => match lowered_value(v) {
            Err(m) => Err(m),
            Ok(l) => Ok(ExprV::Literal(l)),
        },
        SqlExprV::Unary { op, .. } => match op {
            SqlUnary::Not => unsupported("NOT in WHERE"@),
            SqlUnary::Other => unsupported("this WHERE expression"@),
            _ => match lowered_literal(e) {
                Err(m) => Err(m),
                Ok(l) => Ok(ExprV::Literal(l)),
            },
        },
        SqlExprV::CompoundIdentifier => unsupported("qualified column references (table.column)"@),
        SqlExprV::Binary { left, op, right } => match joining(op) {
            Err(m) => Err(m),
            Ok(j) => match lowered_expr(*left) {
                Err(m) => Err(m),
                Ok(l) => match lowered_expr(*right) {
                    Err(m) => Err(m),
                    Ok(r) => Ok(joined_exprs(j, l, r)),
                },
            },
        },
        SqlExprV::Other => unsupported("this WHERE expression"@),
    }
}

/// Lower a condition.
pub fn lower_expr(e: &SqlExpr) -> (r: Result<Expr, ParseError>)
    ensures
        parse_outcome(r) == lowered_expr(e@),
    decreases e,
{
    match e {
        SqlExpr::Identifier(name) => Ok(Expr::Column(name.clone())),
        SqlExpr::Nested(inner) => lower_expr(inner),
        SqlExpr::Value(v) => match lower_value(v) {
            Err(m) => Err(m),
            Ok(l) => Ok(Expr::Literal(l)),
        },
        // Only signed numeric literals (`-5`, `+5`) are values.
        SqlExpr::Unary { op, expr: _ } => match op {
            SqlUnary::Not => Err(ParseError::unsupported("NOT in WHERE")),
            SqlUnary::Other => Err(ParseError::unsupported("this WHERE expression")),
            _ => match lower_literal(e) {
                Err(m) => Err(m),
                Ok(l) => Ok(Expr::Literal(l)),
            },
        },
        SqlExpr::CompoundIdentifier => Err(
            ParseError::unsupported("qualified column references (table.column)"),
        ),
        SqlExpr::Binary { left, op, right } => {
            let j = match lower_operator(op) {
                Err(m) => {
                    return Err(m);
                },
                Ok(j) => j,
            };
            let l = match lower_expr(left) {
                Err(m) => {
                    return Err(m);
                },
                Ok(l) => l,
            };
            let r = match lower_expr(right) {
                Err(m) => {
                    return Err(m);
                },
                Ok(r) => r,
            };
            match j {
                Joining::Compare(op) => Ok(
                    Expr::Compare { left: Box::new(l), op, right: Box::new(r) },
                ),
                Joining::Logical(op) => Ok(
                    Expr::Logical { left: Box::new(l), op, right: Box::new(r) },
                ),
            }
        },
        SqlExpr::Other => Err(ParseError::unsupported("this WHERE expression")),
    }
}

/// A condition that may be missing.
pub open spec fn lowered_filter(e: Option<SqlExprV>) -> Result<Option<ExprV>, Seq<char>> {
    match e {
        None => Ok(None),
        Some(x) => match lowered_expr(x) {
            Err(m) => Err(m),
            Ok(f) => Ok(Some(f)),
        },
    }
}

/// What lowering a condition gave back, over views.
spec fn filter_outcome(r: Result<Option<Expr>, ParseError>) -> Result<Option<ExprV>, Seq<char>> {
    match r {
        Ok(f) => Ok(filter_view(f)),
        Err(e) => Err(e@),
    }
}

fn lower_filter(e: &Option<SqlExpr>) -> (r: Result<Option<Expr>, ParseError>)
    ensures
        filter_outcome(r) == lowered_filter(maybe(*e)),
{
    match e {
        None => Ok(None),
        Some(x) => match lower_expr(x) {
            Err(m) => Err(m),
            Ok(f) => Ok(Some(f)),
        },
    }
}

// ---- names ----

/// A bare, single-part name.
pub open spec fn single(parts: Seq<Option<Seq<char>>>) -> Result<Seq<char>, Seq<char>> {
    if parts.len() == 1 {
        match parts[0] {
            Some(id) => Ok(id),
            None => unsupported("function name in this position"@),
        }
    } else {
        unsupported("qualified names (schema.table); use a bare table name"@)
    }
}

/// Take a bare, single-part name; reject `schema.table`.
fn single_name(name: &SqlName) -> (r: Result<String, ParseError>)
    ensures
        match r {
            Ok(s) => single(name@) == Ok::<Seq<char>, Seq<char>>(s@),
            Err(e) => single(name@) == Err::<Seq<char>, Seq<char>>(e@),
        },
{
    assert(name@.len() == name.parts@.len());
    if name.parts.len() == 1 {
        assert(name@[0] == maybe(name.parts@[0]));
        match &name.parts[0] {
            Some(id) => Ok(id.clone()),
            None => Err(ParseError::unsupported("function name in this position")),
        }
    } else {
        Err(ParseError::unsupported("qualified names (schema.table); use a bare table name"))
    }
}

// ---- CREATE TABLE ----

/// The type that a column's type stands for.
pub open spec fn lowered_type(t: SqlTypeV) -> Result<DataType, Seq<char>> {
    match t {
        SqlTypeV::Int => Ok(DataType::Int),
        SqlTypeV::Integer => Ok(DataType::Int),
        SqlTypeV::Text => Ok(DataType::Text),
        SqlTypeV::Varchar => Ok(DataType::Text),
        SqlTypeV::Str => Ok(DataType::Text),
        SqlTypeV::Char => Ok(DataType::Text),
        SqlTypeV::Other(s) => unsupported("column type `"@ + s + "` (supported: INT, TEXT)"@),
    }
}

fn lower_data_type(t: &SqlType) -> (r: Result<DataType, ParseError>)
    ensures
        match r {
            Ok(d) => lowered_type(t@) == Ok::<DataType, Seq<char>>(d),
            Err(e) => lowered_type(t@) == Err::<DataType, Seq<char>>(e@),
        },
{
    match t {
        SqlType::Int => Ok(DataType::Int),
        SqlType::Integer => Ok(DataType::Int),
        SqlType::Text => Ok(DataType::Text),
        SqlType::Varchar => Ok(DataType::Text),
        SqlType::Str => Ok(DataType::Text),
        SqlType::Char => Ok(DataType::Text),
        SqlType::Other(s) => {
            let m = join3("column type `", s.as_str(), "` (supported: INT, TEXT)");
            Err(ParseError::unsupported(m.as_str()))
        },
    }
}

/// Whether a column takes NULL, by its options from the `i`th on: the last of
/// `NULL` and `NOT NULL` counts, and any other option is rejected.
pub open spec fn nullability(
    so_far: bool,
    shown: Seq<char>,
    options: Seq<SqlOptionV>,
    i: int,
) -> Result<bool, Seq<char>>
    decreases options.len() - i,
{
    if i >= options.len() {
        Ok(so_far)
    } else {
        match options[i] {
            SqlOptionV::Null => nullability(true, shown, options, i + 1),
            SqlOptionV::NotNull => nullability(false, shown, options, i + 1),
            SqlOptionV::Other(o) => unsupported(
                "column option `"@ + o + "` on `"@ + shown
                    + "` (only NULL / NOT NULL are supported)"@,
            ),
        }
    }
}

/// Read `NULL` / `NOT NULL` from a column's options. Columns take NULL unless
/// they say otherwise.
#[verifier::loop_isolation(false)]
fn lower_nullability(shown: &str, options: &Vec<SqlOption>) -> (r: Result<bool, ParseError>)
    ensures
        match r {
            Ok(n) => nullability(true, shown@, views(options@), 0) == Ok::<bool, Seq<char>>(n),
            Err(e) => nullability(true, shown@, views(options@), 0) == Err::<bool, Seq<char>>(e@),
        },
{
    let mut nullable = true;
    let mut i: usize = 0;
    while i < options.len()
        invariant
            i <= options@.len(),
            nullability(true, shown@, views(options@), 0) == nullability(
                nullable,
                shown@,
                views(options@),
                i as int,
            ),
        decreases options.len() - i,
    {
        assert(views(options@)[i as int] == options@[i as int]@);
        match &options[i] {
            SqlOption::Null => {
                nullable = true;
            },
            SqlOption::NotNull => {
                nullable = false;
            },
            SqlOption::Other(o) => {
                let m = join5(
                    "column option `",
                    o.as_str(),
                    "` on `",
                    shown,
                    "` (only NULL / NOT NULL are supported)",
                );
                return Err(ParseError::unsupported(m.as_str()));
            },
        }
        i = i + 1;
    }
    Ok(nullable)
}

/// A column of a new table.
pub open spec fn lowered_column(c: SqlColumnV) -> Result<ColumnDefV, Seq<char>> {
    match lowered_type(c.ty) {
        Err(m) => Err(m),
        Ok(ty) => match nullability(true, c.shown, c.options, 0) {
            Err(m) => Err(m),
            Ok(nullable) => Ok(ColumnDefV { name: c.name, ty, nullable }),
        },
    }
}

fn lower_column(c: &SqlColumn) -> (r: Result<ColumnDef, ParseError>)
    ensures
        parse_outcome(r) == lowered_column(c@),
{
    match lower_data_type(&c.ty) {
        Err(e) => Err(e),
        Ok(ty) => match lower_nullability(c.shown.as_str(), &c.options) {
            Err(e) => Err(e),
            Ok(nullable) => Ok(ColumnDef { name: c.name.clone(), ty, nullable }),
        },
    }
}

/// The `i`th column of a new table.
pub open spec fn column_rule(columns: Seq<SqlColumnV>) -> spec_fn(int) -> Result<
    ColumnDefV,
    Seq<char>,
> {
    |i: int| lowered_column(columns[i])
}

/// A `CREATE TABLE`.
pub open spec fn lowered_create_table(ct: SqlCreateTableV) -> Result<StatementV, Seq<char>> {
    if ct.constraints > 0 {
        unsupported("table constraints (PRIMARY KEY, FOREIGN KEY, ...)"@)
    } else {
        match single(ct.name) {
            Err(m) => Err(m),
            Ok(table) => if ct.columns.len() == 0 {
                Err("CREATE TABLE requires at least one column definition"@)
            } else {
                match collect(ct.columns.len() as int, column_rule(ct.columns)) {
                    Err(m) => Err(m),
                    Ok(columns) => Ok(StatementV::CreateTable { table, columns }),
                }
            },
        }
    }
}

#[verifier::loop_isolation(false)]
fn lower_create_table(ct: &SqlCreateTable) -> (r: Result<Statement, ParseError>)
    ensures
        parse_outcome(r) == lowered_create_table(ct@),
{
    if ct.constraints > 0 {
        return Err(ParseError::unsupported("table constraints (PRIMARY KEY, FOREIGN KEY, ...)"));
    }
    let table = match single_name(&ct.name) {
        Err(e) => {
            return Err(e);
        },
        Ok(t) => t,
    };
    if ct.columns.len() == 0 {
        return Err(ParseError::new("CREATE TABLE requires at least one column definition"));
    }
    let ghost rule = column_rule(ct@.columns);
    let ghost n = ct.columns@.len() as int;
    let mut columns: Vec<ColumnDef> = Vec::new();
    assert(column_defs_view(columns@) =~= Seq::empty());
    let mut i: usize = 0;
    while i < ct.columns.len()
        invariant
            i <= ct.columns@.len(),
            collect(n, rule) == collect_from(column_defs_view(columns@), i as int, n, rule),
        decreases ct.columns.len() - i,
    {
        assert(ct@.columns[i as int] == ct.columns@[i as int]@);
        match lower_column(&ct.columns[i]) {
            Err(e) => {
                return Err(e);
            },
            Ok(c) => {
                let ghost before = column_defs_view(columns@);
                columns.push(c);
                assert(column_defs_view(columns@) =~= before.push(c@));
            },
        }
        i = i + 1;
    }
    Ok(Statement::CreateTable(CreateTable { table, columns }))
}

// ---- INSERT ----

/// The `i`th value of a row.
pub open spec fn literal_rule(row: Seq<SqlExprV>) -> spec_fn(int) -> Result<ValueV, Seq<char>> {
    |i: int| lowered_literal(row[i])
}

/// The rows that an `INSERT` takes its values from.
pub open spec fn insert_rows(source: Option<SqlQueryV>) -> Result<
    Seq<Seq<SqlExprV>>,
    Seq<char>,
> {
    match source {
        None => Err("INSERT requires a VALUES clause"@),
        Some(q) => match q.body {
            SqlBodyV::Values(rows) => Ok(rows),
            _ => unsupported("INSERT ... SELECT"@),
        },
    }
}

/// An `INSERT` of one row.
pub open spec fn lowered_insert(ins: SqlInsertV) -> Result<StatementV, Seq<char>> {
    match ins.table {
        None => unsupported("this INSERT target"@),
        Some(name) => match single(name) {
            Err(m) => Err(m),
            Ok(table) => if ins.columns > 0 {
                unsupported("INSERT with an explicit column list"@)
            } else if ins.assignments > 0 {
                unsupported("INSERT ... SET"@)
            } else {
                match insert_rows(ins.source) {
                    Err(m) => Err(m),
                    Ok(rows) => if rows.len() == 0 {
                        Err("INSERT requires at least one value"@)
                    } else if rows.len() > 1 {
                        unsupported("multi-row INSERT"@)
                    } else if rows[0].len() == 0 {
                        Err("INSERT requires at least one value"@)
                    } else {
                        match collect(rows[0].len() as int, literal_rule(rows[0])) {
                            Err(m) => Err(m),
                            Ok(values) => Ok(StatementV::Insert { table, values }),
                        }
                    },
                }
            },
        },
    }
}

#[verifier::loop_isolation(false)]
fn lower_insert(ins: &SqlInsert) -> (r: Result<Statement, ParseError>)
    ensures
        parse_outcome(r) == lowered_insert(ins@),
{
    let table = match &ins.table {
        None => {
            return Err(ParseError::unsupported("this INSERT target"));
        },
        Some(name) => match single_name(name) {
            Err(e) => {
                return Err(e);
            },
            Ok(t) => t,
        },
    };
    if ins.columns > 0 {
        return Err(ParseError::unsupported("INSERT with an explicit column list"));
    }
    if ins.assignments > 0 {
        return Err(ParseError::unsupported("INSERT ... SET"));
    }
    let rows = match &ins.source {
        None => {
            return Err(ParseError::new("INSERT requires a VALUES clause"));
        },
        Some(q) => match &q.body {
            SqlBody::Values(rows) => rows,
            _ => {
                return Err(ParseError::unsupported("INSERT ... SELECT"));
            },
        },
    };
    assert(rows_of_exprs(rows@).len() == rows@.len());
    if rows.len() == 0 {
        return Err(ParseError::new("INSERT requires at least one value"));
    }
    if rows.len() > 1 {
        return Err(ParseError::unsupported("multi-row INSERT"));
    }
    let row = &rows[0];
    assert(rows_of_exprs(rows@)[0] == views(row@));
    if row.len() == 0 {
        return Err(ParseError::new("INSERT requires at least one value"));
    }
    let ghost rule = literal_rule(views(row@));
    let ghost n = row@.len() as int;
    let mut values: Vec<Literal> = Vec::new();
    assert(literals_view(values@) =~= Seq::empty());
    let mut i: usize = 0;
    while i < row.len()
        invariant
            i <= row@.len(),
            collect(n, rule) == collect_from(literals_view(values@), i as int, n, rule),
        decreases row.len() - i,
    {
        assert(views(row@)[i as int] == row@[i as int]@);
        match lower_literal(&row[i]) {
            Err(e) => {
                return Err(e);
            },
            Ok(l) => {
                let ghost before = literals_view(values@);
                values.push(l);
                assert(literals_view(values@) =~= before.push(l@));
            },
        }
        i = i + 1;
    }
    Ok(Statement::Insert(Insert { table, values }))
}

// ---- SELECT ----

/// The table that a `FROM` names.
pub open spec fn lowered_from(from: Seq<SqlTableV>) -> Result<Seq<char>, Seq<char>> {
    if from.len() == 0 {
        Err("SELECT requires a FROM clause"@)
    } else if from.len() > 1 {
        unsupported("more than one table in FROM"@)
    } else if from[0].joins > 0 {
        unsupported("JOIN"@)
    } else {
        match from[0].relation {
            SqlRelationV::Table { name, args } => if args {
                unsupported("table-valued function in FROM"@)
            } else {
                single(name)
            },
            SqlRelationV::Other => unsupported("subquery or derived table in FROM"@),
        }
    }
}

fn lower_from(from: &Vec<SqlTable>) -> (r: Result<String, ParseError>)
    ensures
        match r {
            Ok(s) => lowered_from(views(from@)) == Ok::<Seq<char>, Seq<char>>(s@),
            Err(e) => lowered_from(views(from@)) == Err::<Seq<char>, Seq<char>>(e@),
        },
{
    assert(views(from@).len() == from@.len());
    if from.len() == 0 {
        return Err(ParseError::new("SELECT requires a FROM clause"));
    }
    if from.len() > 1 {
        return Err(ParseError::unsupported("more than one table in FROM"));
    }
    assert(views(from@)[0] == from@[0]@);
    let first = &from[0];
    if first.joins > 0 {
        return Err(ParseError::unsupported("JOIN"));
    }
    match &first.relation {
        SqlRelation::Table { name, args } => {
            if *args {
                Err(ParseError::unsupported("table-valued function in FROM"))
            } else {
                single_name(name)
            }
        },
        SqlRelation::Other => Err(ParseError::unsupported("subquery or derived table in FROM")),
    }
}

/// The column that an item names. A wildcard among other items is rejected
/// before any of them is looked at.
pub open spec fn item_rule(items: Seq<SqlItemV>) -> spec_fn(int) -> Result<Seq<char>, Seq<char>> {
    |i: int|
        match items[i] {
            SqlItemV::Expr(SqlExprV::Identifier(name)) => Ok(name),
            SqlItemV::Expr(_) => unsupported(
                "expressions in the projection list (only column names are allowed)"@,
            ),
            SqlItemV::Alias => unsupported("column aliases (AS) in projection"@),
            SqlItemV::QualifiedWildcard => unsupported("qualified wildcard (table.*)"@),
            SqlItemV::Wildcard => unsupported("`*` mixed with other projections"@),
        }
}

/// Whether there is a wildcard among the items from the `i`th on.
pub open spec fn wildcard_from(items: Seq<SqlItemV>, i: int) -> bool
    decreases items.len() - i,
{
    if i >= items.len() {
        false
    } else {
        items[i] is Wildcard || wildcard_from(items, i + 1)
    }
}

/// The columns behind `SELECT`. `*` must stand alone.
pub open spec fn lowered_projection(items: Seq<SqlItemV>) -> Result<ProjectionV, Seq<char>> {
    if items.len() == 0 {
        Err("SELECT requires a projection list (column names or `*`)"@)
    } else if wildcard_from(items, 0) {
        if items.len() == 1 {
            Ok(ProjectionV::All)
        } else {
            unsupported("`*` mixed with other projections"@)
        }
    } else {
        match collect(items.len() as int, item_rule(items)) {
            Err(m) => Err(m),
            Ok(names) => Ok(ProjectionV::Columns(names)),
        }
    }
}

#[verifier::loop_isolation(false)]
fn lower_projection(items: &Vec<SqlItem>) -> (r: Result<Projection, ParseError>)
    ensures
        parse_outcome(r) == lowered_projection(views(items@)),
{
    let ghost all = views(items@);
    if items.len() == 0 {
        return Err(ParseError::new("SELECT requires a projection list (column names or `*`)"));
    }
    let mut i: usize = 0;
    while i < items.len()
        invariant
            i <= items@.len(),
            wildcard_from(all, 0) == wildcard_from(all, i as int),
        decreases items.len() - i,
    {
        assert(all[i as int] == items@[i as int]@);
        match &items[i] {
            SqlItem::Wildcard => {
                if items.len() == 1 {
                    return Ok(Projection::All);
                }
                return Err(ParseError::unsupported("`*` mixed with other projections"));
            },
            _ => {},
        }
        i = i + 1;
    }
    let ghost rule = item_rule(all);
    let ghost n = items@.len() as int;
    let mut names: Vec<String> = Vec::new();
    assert(texts(names@) =~= Seq::empty());
    let mut j: usize = 0;
    while j < items.len()
        invariant
            j <= items@.len(),
            collect(n, rule) == collect_from(texts(names@), j as int, n, rule),
        decreases items.len() - j,
    {
        assert(all[j as int] == items@[j as int]@);
        match &items[j] {
            SqlItem::Expr(SqlExpr::Identifier(name)) => {
                let ghost before = texts(names@);
                names.push(name.clone());
                assert(texts(names@) =~= before.push(name@));
            },
            SqlItem::Expr(_) => {
                return Err(
                    ParseError::unsupported(
                        "expressions in the projection list (only column names are allowed)",
                    ),
                );
            },
            SqlItem::Alias => {
                return Err(ParseError::unsupported("column aliases (AS) in projection"));
            },
            SqlItem::QualifiedWildcard => {
                return Err(ParseError::unsupported("qualified wildcard (table.*)"));
            },
            SqlItem::Wildcard => {
                return Err(ParseError::unsupported("`*` mixed with other projections"));
            },
        }
        j = j + 1;
    }
    Ok(Projection::Columns(names))
}

/// The order of a query: one column, in one direction.
pub open spec fn lowered_order_by(o: Option<SqlOrderByV>) -> Result<Option<OrderByV>, Seq<char>> {
    match o {
        None => Ok(None),
        Some(order) => if order.interpolate {
            unsupported("ORDER BY ... INTERPOLATE"@)
        } else {
            match order.items {
                None => unsupported("ORDER BY ALL"@),
                Some(items) => if items.len() == 0 {
                    Err("ORDER BY requires a column"@)
                } else if items.len() > 1 {
                    unsupported("ORDER BY with more than one column"@)
                } else if items[0].with_fill {
                    unsupported("ORDER BY ... WITH FILL"@)
                } else {
                    match items[0].expr {
                        SqlExprV::Identifier(column) => Ok(
                            Some(OrderByV { column, descending: items[0].asc == Some(false) }),
                        ),
                        _ => unsupported("ORDER BY on a non-column expression"@),
                    }
                },
            }
        },
    }
}

fn lower_order_by(o: &Option<SqlOrderBy>) -> (r: Result<Option<OrderBy>, ParseError>)
    ensures
        match r {
            Ok(order) => lowered_order_by(maybe(*o)) == Ok::<Option<OrderByV>, Seq<char>>(
                order_by_view(order),
            ),
            Err(e) => lowered_order_by(maybe(*o)) == Err::<Option<OrderByV>, Seq<char>>(e@),
        },
{
    let order = match o {
        None => {
            return Ok(None);
        },
        Some(order) => order,
    };
    if order.interpolate {
        return Err(ParseError::unsupported("ORDER BY ... INTERPOLATE"));
    }
    let items = match &order.items {
        None => {
            return Err(ParseError::unsupported("ORDER BY ALL"));
        },
        Some(items) => items,
    };
    assert(views(items@).len() == items@.len());
    if items.len() == 0 {
        return Err(ParseError::new("ORDER BY requires a column"));
    }
    if items.len() > 1 {
        return Err(ParseError::unsupported("ORDER BY with more than one column"));
    }
    let first = &items[0];
    assert(views(items@)[0] == first@);
    if first.with_fill {
        return Err(ParseError::unsupported("ORDER BY ... WITH FILL"));
    }
    match &first.expr {
        SqlExpr::Identifier(column) => {
            // `asc == Some(false)` means DESC; ASC and unspecified both sort
            // ascending.
            let descending = match first.asc {
                Some(false) => true,
                _ => false,
            };
            Ok(Some(OrderBy { column: column.clone(), descending }))
        },
        _ => Err(ParseError::unsupported("ORDER BY on a non-column expression")),
    }
}

/// The limit of a query: a number of rows.
pub open spec fn lowered_limit(l: Option<SqlLimitV>) -> Result<Option<u64>, Seq<char>> {
    match l {
        None => Ok(None),
        Some(SqlLimitV::OffsetCommaLimit) => unsupported("`LIMIT offset, count` syntax"@),
        Some(SqlLimitV::LimitOffset { limit, offset, by }) => if offset {
            unsupported("OFFSET"@)
        } else if by > 0 {
            unsupported("LIMIT ... BY"@)
        } else {
            match limit {
                None => Err("LIMIT requires a number"@),
                Some(e) => match lowered_literal(e) {
                    Err(m) => Err(m),
                    Ok(ValueV::Int(n)) => if n >= 0 {
                        Ok(Some(n as u64))
                    } else {
                        Err("LIMIT requires a non-negative integer"@)
                    },
                    Ok(_) => Err("LIMIT requires a non-negative integer"@),
                },
            }
        },
    }
}

fn lower_limit(l: &Option<SqlLimit>) -> (r: Result<Option<u64>, ParseError>)
    ensures
        match r {
            Ok(n) => lowered_limit(maybe(*l)) == Ok::<Option<u64>, Seq<char>>(n),
            Err(e) => lowered_limit(maybe(*l)) == Err::<Option<u64>, Seq<char>>(e@),
        },
{
    let clause = match l {
        None => {
            return Ok(None);
        },
        Some(c) => c,
    };
    match clause {
        SqlLimit::OffsetCommaLimit => Err(ParseError::unsupported("`LIMIT offset, count` syntax")),
        SqlLimit::LimitOffset { limit, offset, by } => {
            if *offset {
                return Err(ParseError::unsupported("OFFSET"));
            }
            if *by > 0 {
                return Err(ParseError::unsupported("LIMIT ... BY"));
            }
            match limit {
                None => Err(ParseError::new("LIMIT requires a number")),
                Some(e) => match lower_literal(e) {
                    Err(m) => Err(m),
                    Ok(Literal::Int(n)) => {
                        if n >= 0 {
                            Ok(Some(n as u64))
                        } else {
                            Err(ParseError::new("LIMIT requires a non-negative integer"))
                        }
                    },
                    Ok(_) => Err(ParseError::new("LIMIT requires a non-negative integer")),
                },
            }
        },
    }
}

/// The core of a `SELECT`, with the order and the limit around it.
pub open spec fn lowered_core(
    s: SqlSelectV,
    order_by: Option<OrderByV>,
    limit: Option<u64>,
) -> Result<StatementV, Seq<char>> {
    if s.distinct {
        unsupported("SELECT DISTINCT"@)
    } else if s.having {
        unsupported("HAVING"@)
    } else if s.group_by != (SqlGroupBy::Expressions { exprs: 0, modifiers: 0 }) {
        unsupported("GROUP BY"@)
    } else {
        match lowered_from(s.from) {
            Err(m) => Err(m),
            Ok(from) => match lowered_projection(s.projection) {
                Err(m) => Err(m),
                Ok(projections) => match lowered_filter(s.selection) {
                    Err(m) => Err(m),
                    Ok(filter) => Ok(
                        StatementV::Select(
                            SelectV { projections, from, filter, order_by, limit },
                        ),
                    ),
                },
            },
        }
    }
}

/// A query: a `SELECT` from one table.
pub open spec fn lowered_query(q: SqlQueryV) -> Result<StatementV, Seq<char>> {
    if q.with {
        unsupported("WITH (common table expressions)"@)
    } else if q.fetch {
        unsupported("FETCH"@)
    } else {
        match lowered_order_by(q.order_by) {
            Err(m) => Err(m),
            Ok(order_by) => match lowered_limit(q.limit) {
                Err(m) => Err(m),
                Ok(limit) => match q.body {
                    SqlBodyV::Select(s) => lowered_core(s, order_by, limit),
                    SqlBodyV::SetOperation => unsupported(
                        "set operations (UNION / EXCEPT / INTERSECT)"@,
                    ),
                    SqlBodyV::Query => unsupported("nested SELECT"@),
                    SqlBodyV::Values(_) => unsupported("bare VALUES"@),
                    SqlBodyV::Other => unsupported("this query form"@),
                },
            },
        }
    }
}

fn group_by_is_empty(group_by: SqlGroupBy) -> (r: bool)
    ensures
        r == (group_by == (SqlGroupBy::Expressions { exprs: 0, modifiers: 0 })),
{
    match group_by {
        SqlGroupBy::All => false,
        SqlGroupBy::Expressions { exprs, modifiers } => exprs == 0 && modifiers == 0,
    }
}

fn lower_select(query: &SqlQuery) -> (r: Result<Statement, ParseError>)
    ensures
        parse_outcome(r) == lowered_query(query@),
{
    if query.with {
        return Err(ParseError::unsupported("WITH (common table expressions)"));
    }
    if query.fetch {
        return Err(ParseError::unsupported("FETCH"));
    }
    let order_by = match lower_order_by(&query.order_by) {
        Err(e) => {
            return Err(e);
        },
        Ok(o) => o,
    };
    let limit = match lower_limit(&query.limit) {
        Err(e) => {
            return Err(e);
        },
        Ok(l) => l,
    };
    let select = match &query.body {
        SqlBody::Select(s) => s,
        SqlBody::SetOperation => {
            return Err(ParseError::unsupported("set operations (UNION / EXCEPT / INTERSECT)"));
        },
        SqlBody::Query => {
            return Err(ParseError::unsupported("nested SELECT"));
        },
        SqlBody::Values(_) => {
            return Err(ParseError::unsupported("bare VALUES"));
        },
        SqlBody::Other => {
            return Err(ParseError::unsupported("this query form"));
        },
    };
    if select.distinct {
        return Err(ParseError::unsupported("SELECT DISTINCT"));
    }
    if select.having {
        return Err(ParseError::unsupported("HAVING"));
    }
    if !group_by_is_empty(select.group_by) {
        return Err(ParseError::unsupported("GROUP BY"));
    }
    let from = match lower_from(&select.from) {
        Err(e) => {
            return Err(e);
        },
        Ok(f) => f,
    };
    let projections = match lower_projection(&select.projection) {
        Err(e) => {
            return Err(e);
        },
        Ok(p) => p,
    };
    let filter = match lower_filter(&select.selection) {
        Err(e) => {
            return Err(e);
        },
        Ok(f) => f,
    };
    Ok(Statement::Select(Select { projections, from, filter, order_by, limit }))
}

// ---- DROP TABLE, SHOW TABLES, DESCRIBE ----

/// A `DROP TABLE` of one table.
pub open spec fn lowered_drop(
    table: bool,
    if_exists: bool,
    names: Seq<Seq<Option<Seq<char>>>>,
) -> Result<StatementV, Seq<char>> {
    if !table {
        unsupported("DROP of anything but a TABLE"@)
    } else if if_exists {
        unsupported("DROP TABLE IF EXISTS"@)
    } else if names.len() != 1 {
        unsupported("dropping more than one table at once"@)
    } else {
        match single(names[0]) {
            Err(m) => Err(m),
            Ok(name) => Ok(StatementV::DropTable { table: name }),
        }
    }
}

fn lower_drop_table(table: bool, if_exists: bool, names: &Vec<SqlName>) -> (r: Result<
    Statement,
    ParseError,
>)
    ensures
        parse_outcome(r) == lowered_drop(table, if_exists, views(names@)),
{
    if !table {
        return Err(ParseError::unsupported("DROP of anything but a TABLE"));
    }
    if if_exists {
        return Err(ParseError::unsupported("DROP TABLE IF EXISTS"));
    }
    if names.len() != 1 {
        return Err(ParseError::unsupported("dropping more than one table at once"));
    }
    assert(views(names@)[0] == names@[0]@);
    match single_name(&names[0]) {
        Err(e) => Err(e),
        Ok(name) => Ok(Statement::DropTable(DropTable { table: name })),
    }
}

/// Whether any flag from the `i`th on is set.
pub open spec fn any_from(flags: Seq<bool>, i: int) -> bool
    decreases flags.len() - i,
{
    if i >= flags.len() {
        false
    } else {
        flags[i] || any_from(flags, i + 1)
    }
}

#[verifier::loop_isolation(false)]
fn any(flags: &Vec<bool>) -> (r: bool)
    ensures
        r == any_from(flags@, 0),
{
    let mut i: usize = 0;
    while i < flags.len()
        invariant
            i <= flags@.len(),
            any_from(flags@, 0) == any_from(flags@, i as int),
        decreases flags.len() - i,
    {
        if flags[i] {
            return true;
        }
        i = i + 1;
    }
    false
}

/// A `SHOW TABLES` without options.
pub open spec fn lowered_show_tables(options: Seq<bool>) -> Result<StatementV, Seq<char>> {
    if any_from(options, 0) {
        unsupported("SHOW TABLES with options"@)
    } else {
        Ok(StatementV::ShowTables)
    }
}

/// A `DESCRIBE [EXTENDED]` of a table.
pub open spec fn lowered_describe(
    explain: bool,
    extended: bool,
    formatted: bool,
    name: Seq<Option<Seq<char>>>,
) -> Result<StatementV, Seq<char>> {
    if explain {
        unsupported("EXPLAIN"@)
    } else if formatted {
        unsupported("DESCRIBE FORMATTED"@)
    } else {
        match single(name) {
            Err(m) => Err(m),
            Ok(table) => Ok(StatementV::Describe { table, extended }),
        }
    }
}

fn lower_describe(explain: bool, extended: bool, formatted: bool, name: &SqlName) -> (r: Result<
    Statement,
    ParseError,
>)
    ensures
        parse_outcome(r) == lowered_describe(explain, extended, formatted, name@),
{
    if explain {
        return Err(ParseError::unsupported("EXPLAIN"));
    }
    if formatted {
        return Err(ParseError::unsupported("DESCRIBE FORMATTED"));
    }
    match single_name(name) {
        Err(e) => Err(e),
        Ok(table) => Ok(Statement::Describe(Describe { table, extended })),
    }
}

// ---- DELETE, UPDATE ----

/// A `DELETE` from one table, with a condition or without.
pub open spec fn lowered_delete(d: SqlDeleteV) -> Result<StatementV, Seq<char>> {
    if d.tables > 0 || d.ordered > 0 || any_from(d.clauses, 0) {
        unsupported("DELETE with more than FROM and WHERE"@)
    } else {
        match lowered_from(d.from) {
            Err(m) => Err(m),
            Ok(table) => match lowered_filter(d.selection) {
                Err(m) => Err(m),
                Ok(filter) => Ok(StatementV::Delete { table, filter }),
            },
        }
    }
}

fn lower_delete(d: &SqlDelete) -> (r: Result<Statement, ParseError>)
    ensures
        parse_outcome(r) == lowered_delete(d@),
{
    if d.tables > 0 || d.ordered > 0 || any(&d.clauses) {
        return Err(ParseError::unsupported("DELETE with more than FROM and WHERE"));
    }
    let table = match lower_from(&d.from) {
        Err(e) => {
            return Err(e);
        },
        Ok(t) => t,
    };
    match lower_filter(&d.selection) {
        Err(e) => Err(e),
        Ok(filter) => Ok(Statement::Delete(Delete { table, filter })),
    }
}

/// An assignment of a literal to a column.
pub open spec fn lowered_assignment(a: SqlAssignmentV) -> Result<AssignmentV, Seq<char>> {
    match a.target {
        None => unsupported("SET of more than one column at once"@),
        Some(name) => match single(name) {
            Err(m) => Err(m),
            Ok(column) => match lowered_literal(a.value) {
                Err(m) => Err(m),
                Ok(value) => Ok(AssignmentV { column, value }),
            },
        },
    }
}

fn lower_assignment(a: &SqlAssignment) -> (r: Result<Assignment, ParseError>)
    ensures
        parse_outcome(r) == lowered_assignment(a@),
{
    let column = match &a.target {
        None => {
            return Err(ParseError::unsupported("SET of more than one column at once"));
        },
        Some(name) => match single_name(name) {
            Err(e) => {
                return Err(e);
            },
            Ok(c) => c,
        },
    };
    match lower_literal(&a.value) {
        Err(e) => Err(e),
        Ok(value) => Ok(Assignment { column, value }),
    }
}

/// The `i`th assignment.
pub open spec fn assignment_rule(assignments: Seq<SqlAssignmentV>) -> spec_fn(int) -> Result<
    AssignmentV,
    Seq<char>,
> {
    |i: int| lowered_assignment(assignments[i])
}

/// An `UPDATE` of one table, with a condition or without.
pub open spec fn lowered_update(u: SqlUpdateV) -> Result<StatementV, Seq<char>> {
    if u.ordered > 0 || any_from(u.clauses, 0) {
        unsupported("UPDATE with more than SET and WHERE"@)
    } else {
        match lowered_from(seq![u.table]) {
            Err(m) => Err(m),
            Ok(table) => match collect(
                u.assignments.len() as int,
                assignment_rule(u.assignments),
            ) {
                Err(m) => Err(m),
                Ok(assignments) => match lowered_filter(u.selection) {
                    Err(m) => Err(m),
                    Ok(filter) => Ok(StatementV::Update { table, assignments, filter }),
                },
            },
        }
    }
}

/// The table that an `UPDATE` names.
fn lower_updated_table(t: &SqlTable) -> (r: Result<String, ParseError>)
    ensures
        match r {
            Ok(s) => lowered_from(seq![t@]) == Ok::<Seq<char>, Seq<char>>(s@),
            Err(e) => lowered_from(seq![t@]) == Err::<Seq<char>, Seq<char>>(e@),
        },
{
    if t.joins > 0 {
        return Err(ParseError::unsupported("JOIN"));
    }
    match &t.relation {
        SqlRelation::Table { name, args } => {
            if *args {
                Err(ParseError::unsupported("table-valued function in FROM"))
            } else {
                single_name(name)
            }
        },
        SqlRelation::Other => Err(ParseError::unsupported("subquery or derived table in FROM")),
    }
}

#[verifier::loop_isolation(false)]
fn lower_update(u: &SqlUpdate) -> (r: Result<Statement, ParseError>)
    ensures
        parse_outcome(r) == lowered_update(u@),
{
    if u.ordered > 0 || any(&u.clauses) {
        return Err(ParseError::unsupported("UPDATE with more than SET and WHERE"));
    }
    let table = match lower_updated_table(&u.table) {
        Err(e) => {
            return Err(e);
        },
        Ok(t) => t,
    };
    let ghost rule = assignment_rule(u@.assignments);
    let ghost n = u.assignments@.len() as int;
    let mut assignments: Vec<Assignment> = Vec::new();
    assert(assignments_view(assignments@) =~= Seq::empty());
    let mut i: usize = 0;
    while i < u.assignments.len()
        invariant
            i <= u.assignments@.len(),
            collect(n, rule) == collect_from(assignments_view(assignments@), i as int, n, rule),
        decreases u.assignments.len() - i,
    {
        assert(u@.assignments[i as int] == u.assignments@[i as int]@);
        match lower_assignment(&u.assignments[i]) {
            Err(e) => {
                return Err(e);
            },
            Ok(a) => {
                let ghost before = assignments_view(assignments@);
                assignments.push(a);
                assert(assignments_view(assignments@) =~= before.push(a@));
            },
        }
        i = i + 1;
    }
    match lower_filter(&u.selection) {
        Err(e) => Err(e),
        Ok(filter) => Ok(Statement::Update(Update { table, assignments, filter })),
    }
}

// ---- statements ----

/// The statement that a tree stands for, or why it is not supported.
pub open spec fn lowered_statement(s: SqlStatementV) -> Result<StatementV, Seq<char>> {
    match s {
        SqlStatementV::CreateTable(ct) => lowered_create_table(ct),
        SqlStatementV::Insert(ins) => lowered_insert(ins),
        SqlStatementV::Query(q) => lowered_query(q),
        SqlStatementV::Drop { table, if_exists, names } => lowered_drop(table, if_exists, names),
        SqlStatementV::ShowTables { options } => lowered_show_tables(options),
        SqlStatementV::Describe { explain, extended, formatted, name } => lowered_describe(
            explain,
            extended,
            formatted,
            name,
        ),
        SqlStatementV::Delete(d) => lowered_delete(d),
        SqlStatementV::Update(u) => lowered_update(u),
        SqlStatementV::Other => unsupported(
            "only CREATE TABLE, INSERT, SELECT, UPDATE, DELETE, DROP TABLE, SHOW TABLES and DESCRIBE are supported, not `this statement`"@,
        ),
    }
}

/// Lower one top-level statement.
pub fn lower_statement(s: &SqlStatement) -> (r: Result<Statement, ParseError>)
    ensures
        parse_outcome(r) == lowered_statement(s@),
{
    match s {
        SqlStatement::CreateTable(ct) => lower_create_table(ct),
        SqlStatement::Insert(ins) => lower_insert(ins),
        SqlStatement::Query(q) => lower_select(q),
        SqlStatement::Drop { table, if_exists, names } => lower_drop_table(
            *table,
            *if_exists,
            names,
        ),
        SqlStatement::ShowTables { options } => {
            if any(options) {
                Err(ParseError::unsupported("SHOW TABLES with options"))
            } else {
                Ok(Statement::ShowTables)
            }
        },
        SqlStatement::Describe { explain, extended, formatted, name } => lower_describe(
            *explain,
            *extended,
            *formatted,
            name,
        ),
        SqlStatement::Delete(d) => lower_delete(d),
        SqlStatement::Update(u) => lower_update(u),
        SqlStatement::Other => Err(
            ParseError::unsupported(
                "only CREATE TABLE, INSERT, SELECT, UPDATE, DELETE, DROP TABLE, SHOW TABLES and DESCRIBE are supported, not `this statement`",
            ),
        ),
    }
}

} // verus!
