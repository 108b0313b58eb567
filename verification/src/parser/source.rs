//! Reading the trees of the `sqlparser` crate.
//!
//! A value of that crate is opaque here. For each type there is a name for the
//! plain tree that a value stands for, and a function that takes the value
//! apart by one level; the trees are put together from those.

use sqlparser::ast as sql;
use sqlparser::ast::{
    Assignment as RawAssignment, BinaryOperator as RawBinaryOperator, ColumnDef as RawColumnDef,
    ColumnOptionDef as RawColumnOptionDef, CreateTable as RawCreateTable, DataType as RawDataType,
    Delete as RawDelete, Expr as RawExpr, Insert as RawInsert, LimitClause as RawLimitClause,
    ObjectName as RawObjectName, OrderBy as RawOrderBy, OrderByExpr as RawOrderByExpr,
    Query as RawQuery, Select as RawSelect, SelectItem as RawSelectItem, SetExpr as RawSetExpr,
    Statement as RawStatement, TableWithJoins as RawTableWithJoins, Update as RawUpdate,
    Value as RawValue,
};
use sqlparser::dialect::GenericDialect;
use sqlparser::keywords::Keyword;
use sqlparser::parser::Parser;
use sqlparser::tokenizer::{Token, TokenWithSpan as RawToken, Tokenizer};
use vstd::prelude::*;

use crate::parser::tree::{
    expr_depth, maybe, rows_of_exprs, views, Lexeme, SqlAssignment, SqlAssignmentV, SqlBinary,
    SqlBinaryV, SqlBody, SqlBodyV, SqlColumn, SqlColumnV, SqlCreateTable, SqlCreateTableV,
    SqlDelete, SqlDeleteV, SqlExpr, SqlExprV, SqlGroupBy, SqlInsert, SqlInsertV, SqlItem, SqlItemV,
    SqlLimit, SqlLimitV, SqlName, SqlOption, SqlOptionV, SqlOrderBy, SqlOrderByV, SqlOrderItem,
    SqlOrderItemV, SqlQuery, SqlQueryV, SqlRelation, SqlRelationV, SqlSelect, SqlSelectV,
    SqlStatement, SqlStatementV, SqlTable, SqlTableV, SqlType, SqlTypeV, SqlUnary, SqlUpdate,
    SqlUpdateV, SqlValue, SqlValueV,
};

verus! {

// ---- the outside types ----

/// `sqlparser::ast::Statement`, carried through as an opaque value.
#[verifier::external_type_specification]
#[verifier::external_body]
pub struct ExStatement(RawStatement);

/// `sqlparser::ast::CreateTable`, carried through as an opaque value.
#[verifier::external_type_specification]
#[verifier::external_body]
pub struct ExCreateTable(RawCreateTable);

/// `sqlparser::ast::ColumnDef`, carried through as an opaque value.
#[verifier::external_type_specification]
#[verifier::external_body]
pub struct ExColumnDef(RawColumnDef);

/// `sqlparser::ast::DataType`, carried through as an opaque value.
#[verifier::external_type_specification]
#[verifier::external_body]
pub struct ExDataType(RawDataType);

/// `sqlparser::ast::ColumnOptionDef`, carried through as an opaque value.
#[verifier::external_type_specification]
#[verifier::external_body]
pub struct ExColumnOptionDef(RawColumnOptionDef);

/// `sqlparser::ast::ObjectName`, carried through as an opaque value.
#[verifier::external_type_specification]
#[verifier::external_body]
pub struct ExObjectName(RawObjectName);

/// `sqlparser::ast::Insert`, carried through as an opaque value.
#[verifier::external_type_specification]
#[verifier::external_body]
pub struct ExInsert(RawInsert);

/// `sqlparser::ast::Query`, carried through as an opaque value.
#[verifier::external_type_specification]
#[verifier::external_body]
pub struct ExQuery(RawQuery);

/// `sqlparser::ast::SetExpr`, carried through as an opaque value.
#[verifier::external_type_specification]
#[verifier::external_body]
pub struct ExSetExpr(RawSetExpr);

/// `sqlparser::ast::Select`, carried through as an opaque value.
#[verifier::external_type_specification]
#[verifier::external_body]
pub struct ExSelect(RawSelect);

/// `sqlparser::ast::TableWithJoins`, carried through as an opaque value.
#[verifier::external_type_specification]
#[verifier::external_body]
pub struct ExTableWithJoins(RawTableWithJoins);

/// `sqlparser::ast::SelectItem`, carried through as an opaque value.
#[verifier::external_type_specification]
#[verifier::external_body]
pub struct ExSelectItem(RawSelectItem);

/// `sqlparser::ast::OrderBy`, carried through as an opaque value.
#[verifier::external_type_specification]
#[verifier::external_body]
pub struct ExOrderBy(RawOrderBy);

/// `sqlparser::ast::OrderByExpr`, carried through as an opaque value.
#[verifier::external_type_specification]
#[verifier::external_body]
pub struct ExOrderByExpr(RawOrderByExpr);

/// `sqlparser::ast::LimitClause`, carried through as an opaque value.
#[verifier::external_type_specification]
#[verifier::external_body]
pub struct ExLimitClause(RawLimitClause);

/// `sqlparser::ast::Expr`, carried through as an opaque value.
#[verifier::external_type_specification]
#[verifier::external_body]
pub struct ExExpr(RawExpr);

/// `sqlparser::ast::Value`, carried through as an opaque value.
#[verifier::external_type_specification]
#[verifier::external_body]
pub struct ExValue(RawValue);

/// `sqlparser::ast::BinaryOperator`, carried through as an opaque value.
#[verifier::external_type_specification]
#[verifier::external_body]
pub struct ExBinaryOperator(RawBinaryOperator);

/// `sqlparser::ast::Delete`, carried through as an opaque value.
#[verifier::external_type_specification]
#[verifier::external_body]
pub struct ExDelete(RawDelete);

/// `sqlparser::ast::Update`, carried through as an opaque value.
#[verifier::external_type_specification]
#[verifier::external_body]
pub struct ExUpdate(RawUpdate);

/// `sqlparser::ast::Assignment`, carried through as an opaque value.
#[verifier::external_type_specification]
#[verifier::external_body]
pub struct ExAssignment(RawAssignment);

/// `sqlparser::tokenizer::TokenWithSpan`, carried through as an opaque value.
#[verifier::external_type_specification]
#[verifier::external_body]
pub struct ExToken(RawToken);

// ---- names of objects ----

/// The parts of the name of an object.
pub uninterp spec fn name_parts(n: RawObjectName) -> Seq<Option<Seq<char>>>;

/// `sqlparser::ast::ObjectName`: its parts in order, each with the value of its
/// identifier, or with nothing where `ObjectNamePart::as_ident` gives none.
#[verifier::external_body]
fn open_name(n: &RawObjectName) -> (r: SqlName)
    ensures
        r@ == name_parts(*n),
{
    SqlName { parts: n.0.iter().map(|p| p.as_ident().map(|id| id.value.clone())).collect() }
}

/// The names of several objects.
fn read_names(names: Vec<&RawObjectName>) -> (r: Vec<SqlName>)
    ensures
        views(r@) == Seq::new(names@.len(), |i: int| name_parts(*names@[i])),
{
    let mut r: Vec<SqlName> = Vec::new();
    let mut i: usize = 0;
    while i < names.len()
        invariant
            i <= names@.len(),
            r@.len() == i,
            forall|j: int| 0 <= j < i ==> (#[trigger] r@[j])@ == name_parts(*names@[j]),
        decreases names.len() - i,
    {
        r.push(open_name(names[i]));
        i = i + 1;
    }
    assert(views(r@) =~= Seq::new(names@.len(), |i: int| name_parts(*names@[i])));
    r
}

// ---- expressions ----

/// The plain form of a literal.
pub uninterp spec fn value_tree(v: RawValue) -> SqlValueV;

/// `sqlparser::ast::Value`: the text of a `Number`, the text of a
/// `SingleQuotedString`, `Null`, or any other literal as its `Display` shows it.
#[verifier::external_body]
fn open_value(v: &RawValue) -> (r: SqlValue)
    ensures
        r@ == value_tree(*v),
{
    match v {
        sql::Value::Number(n, _) => SqlValue::Number(n.clone()),
        sql::Value::SingleQuotedString(s) => SqlValue::SingleQuotedString(s.clone()),
        sql::Value::Null => SqlValue::Null,
        other => SqlValue::Other(other.to_string()),
    }
}

/// The plain form of an operator with two operands.
pub uninterp spec fn operator_tree(op: RawBinaryOperator) -> SqlBinaryV;

/// `sqlparser::ast::BinaryOperator`: the comparisons, `And` and `Or`, or any
/// other operator as its `Display` shows it.
#[verifier::external_body]
fn open_operator(op: &RawBinaryOperator) -> (r: SqlBinary)
    ensures
        r@ == operator_tree(*op),
{
    match op {
        sql::BinaryOperator::Eq => SqlBinary::Eq,
        sql::BinaryOperator::NotEq => SqlBinary::NotEq,
        sql::BinaryOperator::Lt => SqlBinary::Lt,
        sql::BinaryOperator::LtEq => SqlBinary::LtEq,
        sql::BinaryOperator::Gt => SqlBinary::Gt,
        sql::BinaryOperator::GtEq => SqlBinary::GtEq,
        sql::BinaryOperator::And => SqlBinary::And,
        sql::BinaryOperator::Or => SqlBinary::Or,
        other => SqlBinary::Other(other.to_string()),
    }
}

/// The plain tree of an expression.
pub uninterp spec fn expr_tree(e: RawExpr) -> SqlExprV;

/// One level of an expression.
enum ExprParts<'a> {
    Identifier(String),
    CompoundIdentifier,
    Nested(&'a RawExpr),
    Value(&'a RawValue),
    Minus(&'a RawExpr),
    Plus(&'a RawExpr),
    Not(&'a RawExpr),
    Unary(&'a RawExpr),
    Binary(&'a RawExpr, &'a RawBinaryOperator, &'a RawExpr),
    Other,
}

/// An operator over one operand, as a tree.
spec fn unary_tree(op: SqlUnary, e: RawExpr) -> SqlExprV {
    SqlExprV::Unary { op, expr: Box::new(expr_tree(e)) }
}

impl<'a> ExprParts<'a> {
    /// The tree that these parts make.
    spec fn tree(self) -> SqlExprV {
        match self {
            ExprParts::Identifier(s) => SqlExprV::Identifier(s@),
            ExprParts::CompoundIdentifier => SqlExprV::CompoundIdentifier,
            ExprParts::Nested(e) => SqlExprV::Nested(Box::new(expr_tree(*e))),
            ExprParts::Value(v) => SqlExprV::Value(value_tree(*v)),
            ExprParts::Minus(e) => unary_tree(SqlUnary::Minus, *e),
            ExprParts::Plus(e) => unary_tree(SqlUnary::Plus, *e),
            ExprParts::Not(e) => unary_tree(SqlUnary::Not, *e),
            ExprParts::Unary(e) => unary_tree(SqlUnary::Other, *e),
            ExprParts::Binary(left, op, right) => SqlExprV::Binary {
                left: Box::new(expr_tree(*left)),
                op: operator_tree(*op),
                right: Box::new(expr_tree(*right)),
            },
            ExprParts::Other => SqlExprV::Other,
        }
    }
}

/// `sqlparser::ast::Expr`, by one level: an identifier's value, a compound
/// identifier, the inside of parentheses, a literal, an operator with its
/// operands, or anything else.
#[verifier::external_body]
fn open_expr<'a>(e: &'a RawExpr) -> (r: ExprParts<'a>)
    ensures
        r.tree() == expr_tree(*e),
{
    match e {
        sql::Expr::Identifier(id) => ExprParts::Identifier(id.value.clone()),
        sql::Expr::CompoundIdentifier(_) => ExprParts::CompoundIdentifier,
        sql::Expr::Nested(inner) => ExprParts::Nested(inner),
        sql::Expr::Value(v) => ExprParts::Value(&v.value),
        sql::Expr::UnaryOp { op: sql::UnaryOperator::Minus, expr } => ExprParts::Minus(expr),
        sql::Expr::UnaryOp { op: sql::UnaryOperator::Plus, expr } => ExprParts::Plus(expr),
        sql::Expr::UnaryOp { op: sql::UnaryOperator::Not, expr } => ExprParts::Not(expr),
        sql::Expr::UnaryOp { expr, .. } => ExprParts::Unary(expr),
        sql::Expr::BinaryOp { left, op, right } => ExprParts::Binary(left, op, right),
        _ => ExprParts::Other,
    }
}

/// The plain tree of an expression.
fn read_expr(e: &RawExpr) -> (r: SqlExpr)
    ensures
        r@ == expr_tree(*e),
    decreases expr_depth(expr_tree(*e)),
{
    match open_expr(e) {
        ExprParts::Identifier(s) => SqlExpr::Identifier(s),
        ExprParts::CompoundIdentifier => SqlExpr::CompoundIdentifier,
        ExprParts::Nested(inner) => SqlExpr::Nested(Box::new(read_expr(inner))),
        ExprParts::Value(v) => SqlExpr::Value(open_value(v)),
        ExprParts::Minus(x) => SqlExpr::Unary { op: SqlUnary::Minus, expr: Box::new(read_expr(x)) },
        ExprParts::Plus(x) => SqlExpr::Unary { op: SqlUnary::Plus, expr: Box::new(read_expr(x)) },
        ExprParts::Not(x) => SqlExpr::Unary { op: SqlUnary::Not, expr: Box::new(read_expr(x)) },
        ExprParts::Unary(x) => SqlExpr::Unary { op: SqlUnary::Other, expr: Box::new(read_expr(x)) },
        ExprParts::Binary(left, op, right) => SqlExpr::Binary {
            left: Box::new(read_expr(left)),
            op: open_operator(op),
            right: Box::new(read_expr(right)),
        },
        ExprParts::Other => SqlExpr::Other,
    }
}

/// The plain tree of an expression that may be missing.
spec fn maybe_expr(e: Option<&RawExpr>) -> Option<SqlExprV> {
    match e {
        None => None,
        Some(x) => Some(expr_tree(*x)),
    }
}

/// The plain tree of an expression that may be missing.
fn read_maybe_expr(e: Option<&RawExpr>) -> (r: Option<SqlExpr>)
    ensures
        maybe(r) == maybe_expr(e),
{
    match e {
        None => None,
        Some(x) => Some(read_expr(x)),
    }
}

/// The plain trees of several expressions.
spec fn expr_trees(exprs: Seq<RawExpr>) -> Seq<SqlExprV> {
    Seq::new(exprs.len(), |i: int| expr_tree(exprs[i]))
}

/// The plain trees of several expressions.
fn read_exprs(exprs: &Vec<RawExpr>) -> (r: Vec<SqlExpr>)
    ensures
        views(r@) == expr_trees(exprs@),
{
    let mut r: Vec<SqlExpr> = Vec::new();
    let mut i: usize = 0;
    while i < exprs.len()
        invariant
            i <= exprs@.len(),
            r@.len() == i,
            forall|j: int| 0 <= j < i ==> (#[trigger] r@[j])@ == expr_tree(exprs@[j]),
        decreases exprs.len() - i,
    {
        r.push(read_expr(&exprs[i]));
        i = i + 1;
    }
    assert(views(r@) =~= expr_trees(exprs@));
    r
}

// ---- CREATE TABLE ----

/// The plain form of a column's type.
pub uninterp spec fn type_tree(t: RawDataType) -> SqlTypeV;

/// `sqlparser::ast::DataType`: the six types that lowering tells apart, whatever
/// their length, or any other type as its `Display` shows it.
#[verifier::external_body]
fn open_type(t: &RawDataType) -> (r: SqlType)
    ensures
        r@ == type_tree(*t),
{
    match t {
        sql::DataType::Int(_) => SqlType::Int,
        sql::DataType::Integer(_) => SqlType::Integer,
        sql::DataType::Text => SqlType::Text,
        sql::DataType::Varchar(_) => SqlType::Varchar,
        sql::DataType::String(_) => SqlType::Str,
        sql::DataType::Char(_) => SqlType::Char,
        other => SqlType::Other(other.to_string()),
    }
}

/// The plain form of a column's option.
pub uninterp spec fn option_tree(o: RawColumnOptionDef) -> SqlOptionV;

/// `sqlparser::ast::ColumnOptionDef`: its option is `NULL`, `NOT NULL`, or any
/// other as its `Display` shows it.
#[verifier::external_body]
fn open_option(o: &RawColumnOptionDef) -> (r: SqlOption)
    ensures
        r@ == option_tree(*o),
{
    match &o.option {
        sql::ColumnOption::Null => SqlOption::Null,
        sql::ColumnOption::NotNull => SqlOption::NotNull,
        other => SqlOption::Other(other.to_string()),
    }
}

/// The plain form of a column definition.
pub uninterp spec fn column_tree(c: RawColumnDef) -> SqlColumnV;

/// One level of a column definition.
struct ColumnParts<'a> {
    name: String,
    shown: String,
    ty: &'a RawDataType,
    options: &'a Vec<RawColumnOptionDef>,
}

impl<'a> ColumnParts<'a> {
    /// The plain form that these parts make.
    spec fn tree(self) -> SqlColumnV {
        SqlColumnV {
            name: self.name@,
            shown: self.shown@,
            ty: type_tree(*self.ty),
            options: Seq::new(self.options@.len(), |i: int| option_tree(self.options@[i])),
        }
    }
}

/// `sqlparser::ast::ColumnDef`: the value of its name, the name as its `Display`
/// shows it, its type and its options.
#[verifier::external_body]
fn open_column<'a>(c: &'a RawColumnDef) -> (r: ColumnParts<'a>)
    ensures
        r.tree() == column_tree(*c),
{
    ColumnParts {
        name: c.name.value.clone(),
        shown: c.name.to_string(),
        ty: &c.data_type,
        options: &c.options,
    }
}

/// The plain form of a column definition.
fn read_column(c: &RawColumnDef) -> (r: SqlColumn)
    ensures
        r@ == column_tree(*c),
{
    let parts = open_column(c);
    let mut options: Vec<SqlOption> = Vec::new();
    let mut i: usize = 0;
    while i < parts.options.len()
        invariant
            i <= parts.options@.len(),
            options@.len() == i,
            forall|j: int|
                0 <= j < i ==> (#[trigger] options@[j])@ == option_tree(parts.options@[j]),
        decreases parts.options.len() - i,
    {
        options.push(open_option(&parts.options[i]));
        i = i + 1;
    }
    assert(views(options@) =~= parts.tree().options);
    let ty = open_type(parts.ty);
    SqlColumn { name: parts.name, shown: parts.shown, ty, options }
}

/// The plain form of a `CREATE TABLE`.
pub uninterp spec fn create_table_tree(c: RawCreateTable) -> SqlCreateTableV;

/// One level of a `CREATE TABLE`.
struct CreateTableParts<'a> {
    name: &'a RawObjectName,
    constraints: usize,
    columns: &'a Vec<RawColumnDef>,
}

impl<'a> CreateTableParts<'a> {
    /// The plain form that these parts make.
    spec fn tree(self) -> SqlCreateTableV {
        SqlCreateTableV {
            name: name_parts(*self.name),
            constraints: self.constraints,
            columns: Seq::new(self.columns@.len(), |i: int| column_tree(self.columns@[i])),
        }
    }
}

/// `sqlparser::ast::CreateTable`: its name, how many constraints it has, and its
/// columns.
#[verifier::external_body]
fn open_create_table<'a>(c: &'a RawCreateTable) -> (r: CreateTableParts<'a>)
    ensures
        r.tree() == create_table_tree(*c),
{
    CreateTableParts { name: &c.name, constraints: c.constraints.len(), columns: &c.columns }
}

/// The plain form of a `CREATE TABLE`.
fn read_create_table(c: &RawCreateTable) -> (r: SqlCreateTable)
    ensures
        r@ == create_table_tree(*c),
{
    let parts = open_create_table(c);
    let mut columns: Vec<SqlColumn> = Vec::new();
    let mut i: usize = 0;
    while i < parts.columns.len()
        invariant
            i <= parts.columns@.len(),
            columns@.len() == i,
            forall|j: int|
                0 <= j < i ==> (#[trigger] columns@[j])@ == column_tree(parts.columns@[j]),
        decreases parts.columns.len() - i,
    {
        columns.push(read_column(&parts.columns[i]));
        i = i + 1;
    }
    assert(views(columns@) =~= parts.tree().columns);
    let name = open_name(parts.name);
    SqlCreateTable { name, constraints: parts.constraints, columns }
}

// ---- queries ----

/// The plain form of a table with its joins.
pub uninterp spec fn table_tree(t: RawTableWithJoins) -> SqlTableV;

/// One level of a table with its joins: the table's name, if it is a named
/// table, and whether it has arguments.
struct TableParts<'a> {
    name: Option<&'a RawObjectName>,
    args: bool,
    joins: usize,
}

impl<'a> TableParts<'a> {
    /// The plain form that these parts make.
    spec fn tree(self) -> SqlTableV {
        SqlTableV {
            relation: match self.name {
                Some(n) => SqlRelationV::Table { name: name_parts(*n), args: self.args },
                None => SqlRelationV::Other,
            },
            joins: self.joins,
        }
    }
}

/// `sqlparser::ast::TableWithJoins`: the name of a `TableFactor::Table` and
/// whether it has arguments, or nothing for any other relation; and how many
/// joins there are.
#[verifier::external_body]
fn open_table<'a>(t: &'a RawTableWithJoins) -> (r: TableParts<'a>)
    ensures
        r.tree() == table_tree(*t),
{
    let joins = t.joins.len();
    match &t.relation {
        sql::TableFactor::Table { name, args, .. } => {
            TableParts { name: Some(name), args: args.is_some(), joins }
        },
        _ => TableParts { name: None, args: false, joins },
    }
}

/// The plain form of a table with its joins.
fn read_table(t: &RawTableWithJoins) -> (r: SqlTable)
    ensures
        r@ == table_tree(*t),
{
    let parts = open_table(t);
    let relation = match parts.name {
        Some(n) => SqlRelation::Table { name: open_name(n), args: parts.args },
        None => SqlRelation::Other,
    };
    SqlTable { relation, joins: parts.joins }
}

/// The plain forms of several tables.
spec fn table_trees(tables: Seq<RawTableWithJoins>) -> Seq<SqlTableV> {
    Seq::new(tables.len(), |i: int| table_tree(tables[i]))
}

/// The plain forms of several tables.
fn read_tables(tables: &Vec<RawTableWithJoins>) -> (r: Vec<SqlTable>)
    ensures
        views(r@) == table_trees(tables@),
{
    let mut r: Vec<SqlTable> = Vec::new();
    let mut i: usize = 0;
    while i < tables.len()
        invariant
            i <= tables@.len(),
            r@.len() == i,
            forall|j: int| 0 <= j < i ==> (#[trigger] r@[j])@ == table_tree(tables@[j]),
        decreases tables.len() - i,
    {
        r.push(read_table(&tables[i]));
        i = i + 1;
    }
    assert(views(r@) =~= table_trees(tables@));
    r
}

/// The plain form of an item behind `SELECT`.
pub uninterp spec fn item_tree(i: RawSelectItem) -> SqlItemV;

/// One level of an item behind `SELECT`.
enum ItemParts<'a> {
    Expr(&'a RawExpr),
    Alias,
    QualifiedWildcard,
    Wildcard,
}

impl<'a> ItemParts<'a> {
    /// The plain form that these parts make.
    spec fn tree(self) -> SqlItemV {
        match self {
            ItemParts::Expr(e) => SqlItemV::Expr(expr_tree(*e)),
            ItemParts::Alias => SqlItemV::Alias,
            ItemParts::QualifiedWildcard => SqlItemV::QualifiedWildcard,
            ItemParts::Wildcard => SqlItemV::Wildcard,
        }
    }
}

/// `sqlparser::ast::SelectItem`: an expression, one with an alias or several, a
/// qualified wildcard, or a wildcard.
#[verifier::external_body]
fn open_item<'a>(i: &'a RawSelectItem) -> (r: ItemParts<'a>)
    ensures
        r.tree() == item_tree(*i),
{
    match i {
        sql::SelectItem::UnnamedExpr(e) => ItemParts::Expr(e),
        sql::SelectItem::ExprWithAlias { .. } => ItemParts::Alias,
        sql::SelectItem::ExprWithAliases { .. } => ItemParts::Alias,
        sql::SelectItem::QualifiedWildcard(..) => ItemParts::QualifiedWildcard,
        sql::SelectItem::Wildcard(_) => ItemParts::Wildcard,
    }
}

/// The plain form of an item behind `SELECT`.
fn read_item(i: &RawSelectItem) -> (r: SqlItem)
    ensures
        r@ == item_tree(*i),
{
    match open_item(i) {
        ItemParts::Expr(e) => SqlItem::Expr(read_expr(e)),
        ItemParts::Alias => SqlItem::Alias,
        ItemParts::QualifiedWildcard => SqlItem::QualifiedWildcard,
        ItemParts::Wildcard => SqlItem::Wildcard,
    }
}

/// The plain form of the core of a `SELECT`.
pub uninterp spec fn select_tree(s: RawSelect) -> SqlSelectV;

/// One level of the core of a `SELECT`.
struct SelectParts<'a> {
    distinct: bool,
    having: bool,
    group_by: SqlGroupBy,
    from: &'a Vec<RawTableWithJoins>,
    projection: &'a Vec<RawSelectItem>,
    selection: Option<&'a RawExpr>,
}

impl<'a> SelectParts<'a> {
    /// The plain form that these parts make.
    spec fn tree(self) -> SqlSelectV {
        SqlSelectV {
            distinct: self.distinct,
            having: self.having,
            group_by: self.group_by,
            from: table_trees(self.from@),
            projection: Seq::new(self.projection@.len(), |i: int| item_tree(self.projection@[i])),
            selection: maybe_expr(self.selection),
        }
    }
}

/// `sqlparser::ast::Select`: whether it has `DISTINCT` and `HAVING`, how many
/// expressions and modifiers its `GROUP BY` has, its tables, its items and its
/// condition.
#[verifier::external_body]
fn open_select<'a>(s: &'a RawSelect) -> (r: SelectParts<'a>)
    ensures
        r.tree() == select_tree(*s),
{
    let group_by = match &s.group_by {
        sql::GroupByExpr::All(_) => SqlGroupBy::All,
        sql::GroupByExpr::Expressions(exprs, modifiers) => {
            SqlGroupBy::Expressions { exprs: exprs.len(), modifiers: modifiers.len() }
        },
    };
    let (distinct, having) = (s.distinct.is_some(), s.having.is_some());
    let (from, projection, selection) = (&s.from, &s.projection, s.selection.as_ref());
    SelectParts { distinct, having, group_by, from, projection, selection }
}

/// The plain form of the core of a `SELECT`.
fn read_select(s: &RawSelect) -> (r: SqlSelect)
    ensures
        r@ == select_tree(*s),
{
    let parts = open_select(s);
    let mut projection: Vec<SqlItem> = Vec::new();
    let mut i: usize = 0;
    while i < parts.projection.len()
        invariant
            i <= parts.projection@.len(),
            projection@.len() == i,
            forall|j: int|
                0 <= j < i ==> (#[trigger] projection@[j])@ == item_tree(parts.projection@[j]),
        decreases parts.projection.len() - i,
    {
        projection.push(read_item(&parts.projection[i]));
        i = i + 1;
    }
    assert(views(projection@) =~= parts.tree().projection);
    let from = read_tables(parts.from);
    let selection = read_maybe_expr(parts.selection);
    SqlSelect {
        distinct: parts.distinct,
        having: parts.having,
        group_by: parts.group_by,
        from,
        projection,
        selection,
    }
}

/// The plain form of an expression of an `ORDER BY`.
pub uninterp spec fn order_item_tree(o: RawOrderByExpr) -> SqlOrderItemV;

/// One level of an expression of an `ORDER BY`.
struct OrderItemParts<'a> {
    expr: &'a RawExpr,
    asc: Option<bool>,
    with_fill: bool,
}

impl<'a> OrderItemParts<'a> {
    /// The plain form that these parts make.
    spec fn tree(self) -> SqlOrderItemV {
        SqlOrderItemV { expr: expr_tree(*self.expr), asc: self.asc, with_fill: self.with_fill }
    }
}

/// `sqlparser::ast::OrderByExpr`: its expression, its direction, and whether it
/// has `WITH FILL`.
#[verifier::external_body]
fn open_order_item<'a>(o: &'a RawOrderByExpr) -> (r: OrderItemParts<'a>)
    ensures
        r.tree() == order_item_tree(*o),
{
    OrderItemParts { expr: &o.expr, asc: o.options.asc, with_fill: o.with_fill.is_some() }
}

/// The plain form of an `ORDER BY`.
pub uninterp spec fn order_by_tree(o: RawOrderBy) -> SqlOrderByV;

/// One level of an `ORDER BY`.
struct OrderByParts<'a> {
    interpolate: bool,
    items: Option<&'a Vec<RawOrderByExpr>>,
}

impl<'a> OrderByParts<'a> {
    /// The plain form that these parts make.
    spec fn tree(self) -> SqlOrderByV {
        SqlOrderByV {
            interpolate: self.interpolate,
            items: match self.items {
                None => None,
                Some(items) => Some(Seq::new(items@.len(), |i: int| order_item_tree(items@[i]))),
            },
        }
    }
}

/// `sqlparser::ast::OrderBy`: whether it has `INTERPOLATE`, and its expressions,
/// or nothing for `ORDER BY ALL`.
#[verifier::external_body]
fn open_order_by<'a>(o: &'a RawOrderBy) -> (r: OrderByParts<'a>)
    ensures
        r.tree() == order_by_tree(*o),
{
    let items = match &o.kind {
        sql::OrderByKind::Expressions(exprs) => Some(exprs),
        sql::OrderByKind::All(_) => None,
    };
    OrderByParts { interpolate: o.interpolate.is_some(), items }
}

/// The plain form of an `ORDER BY`.
fn read_order_by(o: &RawOrderBy) -> (r: SqlOrderBy)
    ensures
        r@ == order_by_tree(*o),
{
    let parts = open_order_by(o);
    let items = match parts.items {
        None => None,
        Some(raw) => {
            let mut items: Vec<SqlOrderItem> = Vec::new();
            let mut i: usize = 0;
            while i < raw.len()
                invariant
                    i <= raw@.len(),
                    items@.len() == i,
                    forall|j: int|
                        0 <= j < i ==> (#[trigger] items@[j])@ == order_item_tree(raw@[j]),
                decreases raw.len() - i,
            {
                let item = open_order_item(&raw[i]);
                let expr = read_expr(item.expr);
                items.push(SqlOrderItem { expr, asc: item.asc, with_fill: item.with_fill });
                i = i + 1;
            }
            assert(views(items@) =~= Seq::new(raw@.len(), |i: int| order_item_tree(raw@[i])));
            Some(items)
        },
    };
    SqlOrderBy { interpolate: parts.interpolate, items }
}

/// The plain form of a `LIMIT`.
pub uninterp spec fn limit_tree(l: RawLimitClause) -> SqlLimitV;

/// One level of a `LIMIT`.
enum LimitParts<'a> {
    LimitOffset(Option<&'a RawExpr>, bool, usize),
    OffsetCommaLimit,
}

impl<'a> LimitParts<'a> {
    /// The plain form that these parts make.
    spec fn tree(self) -> SqlLimitV {
        match self {
            LimitParts::LimitOffset(limit, offset, by) => SqlLimitV::LimitOffset {
                limit: maybe_expr(limit),
                offset,
                by,
            },
            LimitParts::OffsetCommaLimit => SqlLimitV::OffsetCommaLimit,
        }
    }
}

/// `sqlparser::ast::LimitClause`: the limit, whether there is an offset, and how
/// many expressions follow `BY`; or the form with a comma.
#[verifier::external_body]
fn open_limit<'a>(l: &'a RawLimitClause) -> (r: LimitParts<'a>)
    ensures
        r.tree() == limit_tree(*l),
{
    match l {
        sql::LimitClause::LimitOffset { limit, offset, limit_by } => {
            LimitParts::LimitOffset(limit.as_ref(), offset.is_some(), limit_by.len())
        },
        sql::LimitClause::OffsetCommaLimit { .. } => LimitParts::OffsetCommaLimit,
    }
}

/// The plain form of the body of a query.
pub uninterp spec fn body_tree(b: RawSetExpr) -> SqlBodyV;

/// One level of the body of a query.
enum BodyParts<'a> {
    Select(&'a RawSelect),
    SetOperation,
    Query,
    Values(Vec<&'a Vec<RawExpr>>),
    Other,
}

impl<'a> BodyParts<'a> {
    /// The plain form that these parts make.
    spec fn tree(self) -> SqlBodyV {
        match self {
            BodyParts::Select(s) => SqlBodyV::Select(select_tree(*s)),
            BodyParts::SetOperation => SqlBodyV::SetOperation,
            BodyParts::Query => SqlBodyV::Query,
            BodyParts::Values(rows) => SqlBodyV::Values(
                Seq::new(rows@.len(), |i: int| expr_trees(rows@[i]@)),
            ),
            BodyParts::Other => SqlBodyV::Other,
        }
    }
}

/// `sqlparser::ast::SetExpr`: a `SELECT`, a set operation, a query in
/// parentheses, the rows of `VALUES`, or anything else.
#[verifier::external_body]
fn open_body<'a>(b: &'a RawSetExpr) -> (r: BodyParts<'a>)
    ensures
        r.tree() == body_tree(*b),
{
    match b {
        sql::SetExpr::Select(s) => BodyParts::Select(s),
        sql::SetExpr::SetOperation { .. } => BodyParts::SetOperation,
        sql::SetExpr::Query(_) => BodyParts::Query,
        sql::SetExpr::Values(v) => BodyParts::Values(v.rows.iter().map(|r| &r.content).collect()),
        _ => BodyParts::Other,
    }
}

/// The plain form of the body of a query.
fn read_body(b: &RawSetExpr) -> (r: SqlBody)
    ensures
        r@ == body_tree(*b),
{
    match open_body(b) {
        BodyParts::Select(s) => SqlBody::Select(read_select(s)),
        BodyParts::SetOperation => SqlBody::SetOperation,
        BodyParts::Query => SqlBody::Query,
        BodyParts::Values(raw) => {
            let mut rows: Vec<Vec<SqlExpr>> = Vec::new();
            let mut i: usize = 0;
            while i < raw.len()
                invariant
                    i <= raw@.len(),
                    rows@.len() == i,
                    forall|j: int|
                        0 <= j < i ==> views((#[trigger] rows@[j])@) == expr_trees(raw@[j]@),
                decreases raw.len() - i,
            {
                rows.push(read_exprs(raw[i]));
                i = i + 1;
            }
            assert(rows_of_exprs(rows@) =~= Seq::new(raw@.len(), |i: int| expr_trees(raw@[i]@)));
            SqlBody::Values(rows)
        },
        BodyParts::Other => SqlBody::Other,
    }
}

/// The plain form of a query.
pub uninterp spec fn query_tree(q: RawQuery) -> SqlQueryV;

/// One level of a query.
struct QueryParts<'a> {
    with: bool,
    fetch: bool,
    order_by: Option<&'a RawOrderBy>,
    limit: Option<&'a RawLimitClause>,
    body: &'a RawSetExpr,
}

impl<'a> QueryParts<'a> {
    /// The plain form that these parts make.
    spec fn tree(self) -> SqlQueryV {
        SqlQueryV {
            with: self.with,
            fetch: self.fetch,
            order_by: match self.order_by {
                None => None,
                Some(o) => Some(order_by_tree(*o)),
            },
            limit: match self.limit {
                None => None,
                Some(l) => Some(limit_tree(*l)),
            },
            body: body_tree(*self.body),
        }
    }
}

/// `sqlparser::ast::Query`: whether it has `WITH` and `FETCH`, its order, its
/// limit and its body.
#[verifier::external_body]
fn open_query<'a>(q: &'a RawQuery) -> (r: QueryParts<'a>)
    ensures
        r.tree() == query_tree(*q),
{
    QueryParts {
        with: q.with.is_some(),
        fetch: q.fetch.is_some(),
        order_by: q.order_by.as_ref(),
        limit: q.limit_clause.as_ref(),
        body: &q.body,
    }
}

/// The plain form of a query.
fn read_query(q: &RawQuery) -> (r: SqlQuery)
    ensures
        r@ == query_tree(*q),
{
    let parts = open_query(q);
    let order_by = match parts.order_by {
        None => None,
        Some(o) => Some(read_order_by(o)),
    };
    let limit = match parts.limit {
        None => None,
        Some(l) => Some(
            match open_limit(l) {
                LimitParts::LimitOffset(limit, offset, by) => SqlLimit::LimitOffset {
                    limit: read_maybe_expr(limit),
                    offset,
                    by,
                },
                LimitParts::OffsetCommaLimit => SqlLimit::OffsetCommaLimit,
            },
        ),
    };
    let body = read_body(parts.body);
    SqlQuery { with: parts.with, fetch: parts.fetch, order_by, limit, body }
}

// ---- INSERT, DELETE, UPDATE ----

/// The plain form of an `INSERT`.
pub uninterp spec fn insert_tree(i: RawInsert) -> SqlInsertV;

/// One level of an `INSERT`.
struct InsertParts<'a> {
    table: Option<&'a RawObjectName>,
    columns: usize,
    assignments: usize,
    source: Option<&'a RawQuery>,
}

impl<'a> InsertParts<'a> {
    /// The plain form that these parts make.
    spec fn tree(self) -> SqlInsertV {
        SqlInsertV {
            table: match self.table {
                None => None,
                Some(n) => Some(name_parts(*n)),
            },
            columns: self.columns,
            assignments: self.assignments,
            source: match self.source {
                None => None,
                Some(q) => Some(query_tree(*q)),
            },
        }
    }
}

/// `sqlparser::ast::Insert`: the name of a `TableObject::TableName`, or nothing
/// for another target; how many columns and assignments it lists; and its
/// source.
#[verifier::external_body]
fn open_insert<'a>(i: &'a RawInsert) -> (r: InsertParts<'a>)
    ensures
        r.tree() == insert_tree(*i),
{
    let table = match &i.table {
        sql::TableObject::TableName(name) => Some(name),
        _ => None,
    };
    let (columns, assignments) = (i.columns.len(), i.assignments.len());
    InsertParts { table, columns, assignments, source: i.source.as_deref() }
}

/// The plain form of an `INSERT`.
fn read_insert(i: &RawInsert) -> (r: SqlInsert)
    ensures
        r@ == insert_tree(*i),
{
    let parts = open_insert(i);
    let table = match parts.table {
        None => None,
        Some(n) => Some(open_name(n)),
    };
    let source = match parts.source {
        None => None,
        Some(q) => Some(read_query(q)),
    };
    SqlInsert { table, columns: parts.columns, assignments: parts.assignments, source }
}

/// The plain form of a `DELETE`.
pub uninterp spec fn delete_tree(d: RawDelete) -> SqlDeleteV;

/// One level of a `DELETE`.
struct DeleteParts<'a> {
    from: &'a Vec<RawTableWithJoins>,
    selection: Option<&'a RawExpr>,
    tables: usize,
    ordered: usize,
    clauses: Vec<bool>,
}

impl<'a> DeleteParts<'a> {
    /// The plain form that these parts make.
    spec fn tree(self) -> SqlDeleteV {
        SqlDeleteV {
            from: table_trees(self.from@),
            selection: maybe_expr(self.selection),
            tables: self.tables,
            ordered: self.ordered,
            clauses: self.clauses@,
        }
    }
}

/// `sqlparser::ast::Delete`: the tables of its `FROM`, its condition, how many
/// tables stand in front of `FROM` and how many expressions follow `ORDER BY`,
/// and whether it has `USING`, `RETURNING`, `OUTPUT` and `LIMIT`.
#[verifier::external_body]
fn open_delete<'a>(d: &'a RawDelete) -> (r: DeleteParts<'a>)
    ensures
        r.tree() == delete_tree(*d),
{
    let from = match &d.from {
        sql::FromTable::WithFromKeyword(tables) => tables,
        sql::FromTable::WithoutKeyword(tables) => tables,
    };
    let (selection, tables, ordered) = (d.selection.as_ref(), d.tables.len(), d.order_by.len());
    let output = d.output.is_some();
    let clauses = vec![d.using.is_some(), d.returning.is_some(), output, d.limit.is_some()];
    DeleteParts { from, selection, tables, ordered, clauses }
}

/// The plain form of a `DELETE`.
fn read_delete(d: &RawDelete) -> (r: SqlDelete)
    ensures
        r@ == delete_tree(*d),
{
    let parts = open_delete(d);
    let from = read_tables(parts.from);
    let selection = read_maybe_expr(parts.selection);
    SqlDelete {
        from,
        selection,
        tables: parts.tables,
        ordered: parts.ordered,
        clauses: parts.clauses,
    }
}

/// The plain form of an assignment.
pub uninterp spec fn assignment_tree(a: RawAssignment) -> SqlAssignmentV;

/// One level of an assignment.
struct AssignmentParts<'a> {
    target: Option<&'a RawObjectName>,
    value: &'a RawExpr,
}

impl<'a> AssignmentParts<'a> {
    /// The plain form that these parts make.
    spec fn tree(self) -> SqlAssignmentV {
        SqlAssignmentV {
            target: match self.target {
                None => None,
                Some(n) => Some(name_parts(*n)),
            },
            value: expr_tree(*self.value),
        }
    }
}

/// `sqlparser::ast::Assignment`: the name of an `AssignmentTarget::ColumnName`,
/// or nothing for a tuple; and the value.
#[verifier::external_body]
fn open_assignment<'a>(a: &'a RawAssignment) -> (r: AssignmentParts<'a>)
    ensures
        r.tree() == assignment_tree(*a),
{
    let target = match &a.target {
        sql::AssignmentTarget::ColumnName(name) => Some(name),
        sql::AssignmentTarget::Tuple(_) => None,
    };
    AssignmentParts { target, value: &a.value }
}

/// The plain form of an `UPDATE`.
pub uninterp spec fn update_tree(u: RawUpdate) -> SqlUpdateV;

/// One level of an `UPDATE`.
struct UpdateParts<'a> {
    table: &'a RawTableWithJoins,
    assignments: &'a Vec<RawAssignment>,
    selection: Option<&'a RawExpr>,
    ordered: usize,
    clauses: Vec<bool>,
}

impl<'a> UpdateParts<'a> {
    /// The plain form that these parts make.
    spec fn tree(self) -> SqlUpdateV {
        SqlUpdateV {
            table: table_tree(*self.table),
            assignments: Seq::new(
                self.assignments@.len(),
                |i: int| assignment_tree(self.assignments@[i]),
            ),
            selection: maybe_expr(self.selection),
            ordered: self.ordered,
            clauses: self.clauses@,
        }
    }
}

/// `sqlparser::ast::Update`: its table, its assignments, its condition, how many
/// expressions follow `ORDER BY`, and whether it has `FROM`, `RETURNING`,
/// `OUTPUT`, a conflict clause and `LIMIT`.
#[verifier::external_body]
fn open_update<'a>(u: &'a RawUpdate) -> (r: UpdateParts<'a>)
    ensures
        r.tree() == update_tree(*u),
{
    let (output, conflict) = (u.output.is_some(), u.or.is_some());
    let (from, returning) = (u.from.is_some(), u.returning.is_some());
    let clauses = vec![from, returning, output, conflict, u.limit.is_some()];
    let (table, assignments, selection) = (&u.table, &u.assignments, u.selection.as_ref());
    UpdateParts { table, assignments, selection, ordered: u.order_by.len(), clauses }
}

/// The plain form of an `UPDATE`.
fn read_update(u: &RawUpdate) -> (r: SqlUpdate)
    ensures
        r@ == update_tree(*u),
{
    let parts = open_update(u);
    let mut assignments: Vec<SqlAssignment> = Vec::new();
    let mut i: usize = 0;
    while i < parts.assignments.len()
        invariant
            i <= parts.assignments@.len(),
            assignments@.len() == i,
            forall|j: int|
                0 <= j < i ==> (#[trigger] assignments@[j])@ == assignment_tree(
                    parts.assignments@[j],
                ),
        decreases parts.assignments.len() - i,
    {
        let a = open_assignment(&parts.assignments[i]);
        let target = match a.target {
            None => None,
            Some(n) => Some(open_name(n)),
        };
        assignments.push(SqlAssignment { target, value: read_expr(a.value) });
        i = i + 1;
    }
    assert(views(assignments@) =~= parts.tree().assignments);
    let table = read_table(parts.table);
    let selection = read_maybe_expr(parts.selection);
    SqlUpdate { table, assignments, selection, ordered: parts.ordered, clauses: parts.clauses }
}

// ---- statements ----

/// The plain form of a statement.
pub uninterp spec fn statement_tree(s: RawStatement) -> SqlStatementV;

/// One level of a statement.
enum StatementParts<'a> {
    CreateTable(&'a RawCreateTable),
    Insert(&'a RawInsert),
    Query(&'a RawQuery),
    Delete(&'a RawDelete),
    Update(&'a RawUpdate),
    /// Anything else, which is to be looked at further.
    Other,
}

impl<'a> StatementParts<'a> {
    /// These parts are those of a statement with this plain form.
    spec fn fits(self, tree: SqlStatementV) -> bool {
        match self {
            StatementParts::CreateTable(c) => tree == SqlStatementV::CreateTable(
                create_table_tree(*c),
            ),
            StatementParts::Insert(i) => tree == SqlStatementV::Insert(insert_tree(*i)),
            StatementParts::Query(q) => tree == SqlStatementV::Query(query_tree(*q)),
            StatementParts::Delete(d) => tree == SqlStatementV::Delete(delete_tree(*d)),
            StatementParts::Update(u) => tree == SqlStatementV::Update(update_tree(*u)),
            StatementParts::Other => match tree {
                SqlStatementV::Drop { .. } => true,
                SqlStatementV::ShowTables { .. } => true,
                SqlStatementV::Describe { .. } => true,
                SqlStatementV::Other => true,
                _ => false,
            },
        }
    }
}

/// `sqlparser::ast::Statement`, by its variant: the five whose contents have a
/// type of their own, or any other.
#[verifier::external_body]
fn open_statement<'a>(s: &'a RawStatement) -> (r: StatementParts<'a>)
    ensures
        r.fits(statement_tree(*s)),
{
    match s {
        sql::Statement::CreateTable(c) => StatementParts::CreateTable(c),
        sql::Statement::Insert(i) => StatementParts::Insert(i),
        sql::Statement::Query(q) => StatementParts::Query(q),
        sql::Statement::Delete(d) => StatementParts::Delete(d),
        sql::Statement::Update(u) => StatementParts::Update(u),
        _ => StatementParts::Other,
    }
}

/// What a `DROP` says.
struct DropParts<'a> {
    table: bool,
    if_exists: bool,
    names: Vec<&'a RawObjectName>,
}

impl<'a> DropParts<'a> {
    /// The plain form that these parts make.
    spec fn tree(self) -> SqlStatementV {
        SqlStatementV::Drop {
            table: self.table,
            if_exists: self.if_exists,
            names: Seq::new(self.names@.len(), |i: int| name_parts(*self.names@[i])),
        }
    }
}

/// `sqlparser::ast::Statement::Drop`: whether a table is dropped, whether it has
/// `IF EXISTS`, and the names. For another statement it gives nothing.
#[verifier::external_body]
fn open_drop<'a>(s: &'a RawStatement) -> (r: Option<DropParts<'a>>)
    ensures
        match r {
            Some(parts) => parts.tree() == statement_tree(*s),
            None => !(statement_tree(*s) is Drop),
        },
{
    match s {
        sql::Statement::Drop { object_type, if_exists, names, .. } => {
            let table = matches!(object_type, sql::ObjectType::Table);
            Some(DropParts { table, if_exists: *if_exists, names: names.iter().collect() })
        },
        _ => None,
    }
}

/// `sqlparser::ast::Statement::ShowTables`: which of its modifiers and options
/// are there. For another statement it gives nothing.
#[verifier::external_body]
fn open_show_tables(s: &RawStatement) -> (r: Option<Vec<bool>>)
    ensures
        match r {
            Some(options) => statement_tree(*s) == (SqlStatementV::ShowTables {
                options: options@,
            }),
            None => !(statement_tree(*s) is ShowTables),
        },
{
    match s {
        sql::Statement::ShowTables { terse, history, extended, full, external, show_options: o } => {
            let mut options = vec![*terse, *history, *extended, *full, *external];
            options.extend([o.show_in.is_some(), o.starts_with.is_some(), o.limit.is_some()]);
            options.extend([o.limit_from.is_some(), o.filter_position.is_some()]);
            Some(options)
        },
        _ => None,
    }
}

/// What a `DESCRIBE` says.
struct DescribeParts<'a> {
    explain: bool,
    extended: bool,
    formatted: bool,
    name: &'a RawObjectName,
}

impl<'a> DescribeParts<'a> {
    /// The plain form that these parts make.
    spec fn tree(self) -> SqlStatementV {
        SqlStatementV::Describe {
            explain: self.explain,
            extended: self.extended,
            formatted: self.formatted,
            name: name_parts(*self.name),
        }
    }
}

/// `sqlparser::ast::Statement::ExplainTable`: whether its word is `EXPLAIN`,
/// whether `EXTENDED` or `FORMATTED` follows, and its table's name. For another
/// statement it gives nothing.
#[verifier::external_body]
fn open_describe<'a>(s: &'a RawStatement) -> (r: Option<DescribeParts<'a>>)
    ensures
        match r {
            Some(parts) => parts.tree() == statement_tree(*s),
            None => !(statement_tree(*s) is Describe),
        },
{
    match s {
        sql::Statement::ExplainTable { describe_alias, hive_format, table_name: name, .. } => {
            let explain = matches!(describe_alias, sql::DescribeAlias::Explain);
            let extended = matches!(hive_format, Some(sql::HiveDescribeFormat::Extended));
            let formatted = matches!(hive_format, Some(sql::HiveDescribeFormat::Formatted));
            Some(DescribeParts { explain, extended, formatted, name })
        },
        _ => None,
    }
}

/// The plain form of a statement.
fn read_statement(s: &RawStatement) -> (r: SqlStatement)
    ensures
        r@ == statement_tree(*s),
{
    match open_statement(s) {
        StatementParts::CreateTable(c) => SqlStatement::CreateTable(read_create_table(c)),
        StatementParts::Insert(i) => SqlStatement::Insert(read_insert(i)),
        StatementParts::Query(q) => SqlStatement::Query(read_query(q)),
        StatementParts::Delete(d) => SqlStatement::Delete(read_delete(d)),
        StatementParts::Update(u) => SqlStatement::Update(read_update(u)),
        StatementParts::Other => {
            match open_drop(s) {
                Some(parts) => {
                    let names = read_names(parts.names);
                    return SqlStatement::Drop {
                        table: parts.table,
                        if_exists: parts.if_exists,
                        names,
                    };
                },
                None => {},
            }
            match open_show_tables(s) {
                Some(options) => {
                    return SqlStatement::ShowTables { options };
                },
                None => {},
            }
            match open_describe(s) {
                Some(parts) => SqlStatement::Describe {
                    explain: parts.explain,
                    extended: parts.extended,
                    formatted: parts.formatted,
                    name: open_name(parts.name),
                },
                None => SqlStatement::Other,
            }
        },
    }
}

// ---- tokens ----

/// What a token is.
pub uninterp spec fn token_lexeme(t: RawToken) -> Lexeme;

/// What the tokens are.
pub open spec fn lexemes_of(tokens: Seq<RawToken>) -> Seq<Lexeme> {
    Seq::new(tokens.len(), |i: int| token_lexeme(tokens[i]))
}

/// `sqlparser::tokenizer::TokenWithSpan`: a `Word` by its keyword, a string in
/// single or double quotes, a period, white space, or anything else.
#[verifier::external_body]
fn open_token(t: &RawToken) -> (r: Lexeme)
    ensures
        r == token_lexeme(*t),
{
    match &t.token {
        Token::Word(w) => match w.keyword {
            Keyword::FLUSH => Lexeme::Flush,
            Keyword::LOCAL | Keyword::NO_WRITE_TO_BINLOG => Lexeme::Place,
            Keyword::RELAY => Lexeme::Relay,
            Keyword::LOGS => Lexeme::Logs,
            Keyword::FOR => Lexeme::For,
            Keyword::CHANNEL => Lexeme::Channel,
            _ => Lexeme::Word,
        },
        Token::SingleQuotedString(_) | Token::DoubleQuotedString(_) => Lexeme::Quoted,
        Token::Period => Lexeme::Period,
        Token::Whitespace(_) => Lexeme::Space,
        _ => Lexeme::Other,
    }
}

/// A word with the keyword `DOWNSTREAM` in place of its own.
pub uninterp spec fn muted_token(t: RawToken) -> RawToken;

/// `sqlparser::tokenizer::Word`: the same word, at the same place and shown the
/// same, whose keyword is `DOWNSTREAM`. The parser asks for that keyword nowhere,
/// and for `CHANNEL` only behind `FLUSH RELAY LOGS FOR`: to all other rules the
/// two are alike.
#[verifier::external_body]
fn mute_token(t: &RawToken) -> (r: RawToken)
    requires
        token_lexeme(*t) == Lexeme::Channel,
    ensures
        r == muted_token(*t),
        token_lexeme(r) == Lexeme::Word,
{
    let mut r = t.clone();
    if let Token::Word(w) = &mut r.token {
        w.keyword = Keyword::DOWNSTREAM;
    }
    r
}

/// The tokens of a text, or nothing where it cannot be cut into tokens.
pub uninterp spec fn sql_tokens(text: Seq<char>) -> Option<Seq<RawToken>>;

/// `sqlparser::tokenizer::Tokenizer::tokenize_with_location` with the
/// `GenericDialect`: the tokens of the text, or nothing where it fails. What a
/// text gives depends on the text alone. These are the tokens that
/// `Parser::parse_sql` works on.
#[verifier::external_body]
fn tokenize_sql(text: &str) -> (r: Option<Vec<RawToken>>)
    ensures
        match r {
            Some(tokens) => sql_tokens(text@) == Some(tokens@),
            None => sql_tokens(text@) is None,
        },
{
    Tokenizer::new(&GenericDialect {}, text).tokenize_with_location().ok()
}

/// The lexemes without white space.
pub open spec fn solid(all: Seq<Lexeme>) -> Seq<Lexeme>
    decreases all.len(),
{
    if all.len() == 0 {
        Seq::empty()
    } else if all.last() == Lexeme::Space {
        solid(all.drop_last())
    } else {
        solid(all.drop_last()).push(all.last())
    }
}

/// A word or a quoted string: what can be a part of a name.
pub open spec fn name_part(l: Lexeme) -> bool {
    !(l == Lexeme::Period || l == Lexeme::Space || l == Lexeme::Other)
}

/// A name begins at `i`: parts with periods between them, and a part behind
/// every period.
pub open spec fn name_at(all: Seq<Lexeme>, i: int) -> bool
    decreases all.len() - i,
{
    0 <= i < all.len() && name_part(all[i]) && (i + 1 < all.len() && all[i + 1] == Lexeme::Period
        ==> name_at(all, i + 2))
}

/// The lexemes end with `FLUSH RELAY LOGS FOR`, with or without a word that says
/// where to flush.
pub open spec fn ends_in_flush(all: Seq<Lexeme>) -> bool {
    let n = all.len() as int;
    &&& n >= 4
    &&& all[n - 1] == Lexeme::For
    &&& all[n - 2] == Lexeme::Logs
    &&& all[n - 3] == Lexeme::Relay
    &&& all[n - 4] == Lexeme::Flush || (n >= 5 && all[n - 4] == Lexeme::Place && all[n - 5]
        == Lexeme::Flush)
}

/// At `k` stands the last word of `FLUSH RELAY LOGS FOR CHANNEL`, with no name
/// behind it.
pub open spec fn unnamed_at(all: Seq<Lexeme>, k: int) -> bool {
    &&& 0 <= k < all.len()
    &&& all[k] == Lexeme::Channel
    &&& ends_in_flush(solid(all.subrange(0, k)))
    &&& !name_at(solid(all.subrange(k + 1, all.len() as int)), 0)
}

/// Some `FLUSH RELAY LOGS FOR CHANNEL` among the lexemes has no name behind it.
pub open spec fn unnamed(all: Seq<Lexeme>) -> bool {
    exists|k: int| #[trigger] unnamed_at(all, k)
}

/// Some `FLUSH RELAY LOGS FOR CHANNEL` in the text has no name behind it.
pub open spec fn unnamed_channel(text: Seq<char>) -> bool {
    sql_tokens(text) matches Some(tokens) && unnamed(lexemes_of(tokens))
}

/// The tokens, with each `CHANNEL` muted that has no name behind it.
pub open spec fn muted(tokens: Seq<RawToken>) -> Seq<RawToken> {
    Seq::new(
        tokens.len(),
        |k: int|
            if unnamed_at(lexemes_of(tokens), k) {
                muted_token(tokens[k])
            } else {
                tokens[k]
            },
    )
}

/// Lexemes that are the same, but for words in the place of some `CHANNEL`.
spec fn alike(a: Seq<Lexeme>, b: Seq<Lexeme>) -> bool {
    &&& a.len() == b.len()
    &&& forall|k: int|
        0 <= k < a.len() ==> #[trigger] b[k] == a[k] || (a[k] == Lexeme::Channel && b[k]
            == Lexeme::Word)
}

/// Lexemes that are alike are so without white space too.
proof fn lemma_solid_alike(a: Seq<Lexeme>, b: Seq<Lexeme>)
    requires
        alike(a, b),
    ensures
        alike(solid(a), solid(b)),
    decreases a.len(),
{
    if a.len() > 0 {
        let n = a.len() - 1;
        assert forall|k: int| 0 <= k < n implies #[trigger] b.drop_last()[k] == a.drop_last()[k]
            || (a.drop_last()[k] == Lexeme::Channel && b.drop_last()[k] == Lexeme::Word) by {
            assert(b[k] == b.drop_last()[k]);
        }
        lemma_solid_alike(a.drop_last(), b.drop_last());
        assert(b[n] == a[n] || (a[n] == Lexeme::Channel && b[n] == Lexeme::Word));
        let (x, y) = (solid(a), solid(b));
        assert forall|k: int| 0 <= k < x.len() implies #[trigger] y[k] == x[k] || (x[k]
            == Lexeme::Channel && y[k] == Lexeme::Word) by {
            if a.last() != Lexeme::Space && k < x.len() - 1 {
                assert(y[k] == solid(b.drop_last())[k]);
            }
        }
    }
}

/// In lexemes that are alike the same names begin.
proof fn lemma_name_alike(a: Seq<Lexeme>, b: Seq<Lexeme>, i: int)
    requires
        alike(a, b),
        0 <= i,
    ensures
        name_at(a, i) == name_at(b, i),
    decreases a.len() - i,
{
    if i < a.len() {
        assert(b[i] == a[i] || a[i] == Lexeme::Channel);
        if i + 1 < a.len() {
            assert(b[i + 1] == a[i + 1] || a[i + 1] == Lexeme::Channel);
            lemma_name_alike(a, b, i + 2);
        }
    }
}

/// Muted tokens leave no channel without a name.
proof fn lemma_muted(tokens: Seq<RawToken>, after: Seq<RawToken>)
    requires
        after.len() == tokens.len(),
        forall|k: int|
            0 <= k < tokens.len() ==> #[trigger] token_lexeme(after[k]) == if unnamed_at(
                lexemes_of(tokens),
                k,
            ) {
                Lexeme::Word
            } else {
                token_lexeme(tokens[k])
            },
    ensures
        !unnamed(lexemes_of(after)),
{
    let a = lexemes_of(tokens);
    let b = lexemes_of(after);
    assert forall|k: int| 0 <= k < a.len() implies #[trigger] b[k] == a[k] || (a[k]
        == Lexeme::Channel && b[k] == Lexeme::Word) by {
        assert(b[k] == token_lexeme(after[k]));
    }
    assert(alike(a, b));
    assert forall|k: int| !#[trigger] unnamed_at(b, k) by {
        if unnamed_at(b, k) {
            let n = a.len() as int;
            assert(b[k] == token_lexeme(after[k]));
            let (x, y) = (a.subrange(0, k), b.subrange(0, k));
            assert forall|i: int| 0 <= i < x.len() implies #[trigger] y[i] == x[i] || (x[i]
                == Lexeme::Channel && y[i] == Lexeme::Word) by {
                assert(b[i] == y[i]);
            }
            lemma_solid_alike(x, y);
            let (p, q) = (solid(x), solid(y));
            let m = p.len() as int;
            assert(q[m - 1] == p[m - 1] && q[m - 2] == p[m - 2] && q[m - 3] == p[m - 3] && q[m - 4]
                == p[m - 4]);
            if m >= 5 {
                assert(q[m - 5] == p[m - 5] || q[m - 5] == Lexeme::Word);
            }
            let (v, w) = (a.subrange(k + 1, n), b.subrange(k + 1, n));
            assert forall|i: int| 0 <= i < v.len() implies #[trigger] w[i] == v[i] || (v[i]
                == Lexeme::Channel && w[i] == Lexeme::Word) by {
                assert(b[k + 1 + i] == w[i]);
            }
            lemma_solid_alike(v, w);
            lemma_name_alike(solid(v), solid(w), 0);
            assert(unnamed_at(a, k));
        }
    }
}

/// What the tokens are.
fn lexemes(tokens: &Vec<RawToken>) -> (r: Vec<Lexeme>)
    ensures
        r@ == lexemes_of(tokens@),
{
    let mut r: Vec<Lexeme> = Vec::new();
    let mut i: usize = 0;
    while i < tokens.len()
        invariant
            i <= tokens@.len(),
            r@ == lexemes_of(tokens@).take(i as int),
        decreases tokens.len() - i,
    {
        r.push(open_token(&tokens[i]));
        i = i + 1;
        assert(r@ =~= lexemes_of(tokens@).take(i as int));
    }
    assert(r@ =~= lexemes_of(tokens@));
    r
}

/// The lexemes from `from` to `to` without white space.
fn solid_part(all: &Vec<Lexeme>, from: usize, to: usize) -> (r: Vec<Lexeme>)
    requires
        from <= to <= all@.len(),
    ensures
        r@ == solid(all@.subrange(from as int, to as int)),
{
    let mut r: Vec<Lexeme> = Vec::new();
    let mut i: usize = from;
    assert(all@.subrange(from as int, from as int) =~= Seq::empty());
    while i < to
        invariant
            from <= i <= to <= all@.len(),
            r@ == solid(all@.subrange(from as int, i as int)),
        decreases to - i,
    {
        proof {
            let next = all@.subrange(from as int, i + 1);
            assert(next.drop_last() =~= all@.subrange(from as int, i as int));
            assert(next.last() == all@[i as int]);
        }
        if all[i] != Lexeme::Space {
            r.push(all[i]);
        }
        i = i + 1;
    }
    r
}

/// Whether a name begins at `i`.
fn is_name_at(all: &Vec<Lexeme>, i: usize) -> (r: bool)
    ensures
        r == name_at(all@, i as int),
    decreases all.len() - i,
{
    if i >= all.len() {
        return false;
    }
    let part = match all[i] {
        Lexeme::Period | Lexeme::Space | Lexeme::Other => false,
        _ => true,
    };
    if !part {
        false
    } else if all.len() - i >= 2 && all[i + 1] == Lexeme::Period {
        is_name_at(all, i + 2)
    } else {
        true
    }
}

/// Whether the lexemes end with `FLUSH RELAY LOGS FOR`.
fn is_in_flush(all: &Vec<Lexeme>) -> (r: bool)
    ensures
        r == ends_in_flush(all@),
{
    let n: usize = all.len();
    n >= 4 && all[n - 1] == Lexeme::For && all[n - 2] == Lexeme::Logs && all[n - 3]
        == Lexeme::Relay && (all[n - 4] == Lexeme::Flush || (n >= 5 && all[n - 4] == Lexeme::Place
        && all[n - 5] == Lexeme::Flush))
}

/// Whether at `k` a channel is without a name.
fn is_unnamed_at(all: &Vec<Lexeme>, k: usize) -> (r: bool)
    requires
        k < all@.len(),
    ensures
        r == unnamed_at(all@, k as int),
{
    let n: usize = all.len();
    all[k] == Lexeme::Channel && is_in_flush(&solid_part(all, 0, k)) && !is_name_at(
        &solid_part(all, k + 1, n),
        0,
    )
}

/// The tokens of a text with the channels muted that have no name, or nothing
/// where there are none of these.
fn muted_tokens(text: &str) -> (r: Option<Vec<RawToken>>)
    ensures
        match r {
            Some(tokens) => {
                &&& unnamed_channel(text@)
                &&& tokens@ == muted(sql_tokens(text@)->0)
                &&& !unnamed(lexemes_of(tokens@))
            },
            None => !unnamed_channel(text@),
        },
{
    let mut tokens = match tokenize_sql(text) {
        None => {
            return None;
        },
        Some(tokens) => tokens,
    };
    let ghost given = tokens@;
    let all = lexemes(&tokens);
    let mut found = false;
    let mut k: usize = 0;
    while k < all.len()
        invariant
            k <= all@.len() == tokens@.len() == given.len(),
            all@ == lexemes_of(given),
            found == exists|j: int| 0 <= j < k && #[trigger] unnamed_at(all@, j),
            forall|j: int|
                0 <= j < given.len() ==> #[trigger] tokens@[j] == if j < k && unnamed_at(all@, j) {
                    muted_token(given[j])
                } else {
                    given[j]
                },
            forall|j: int|
                0 <= j < given.len() ==> #[trigger] token_lexeme(tokens@[j]) == if j < k
                    && unnamed_at(all@, j) {
                    Lexeme::Word
                } else {
                    token_lexeme(given[j])
                },
        decreases all.len() - k,
    {
        if is_unnamed_at(&all, k) {
            let ghost before = tokens@;
            assert(tokens@[k as int] == given[k as int]);
            assert(all@[k as int] == token_lexeme(given[k as int]));
            let t = mute_token(&tokens[k]);
            tokens.set(k, t);
            found = true;
            assert forall|j: int|
                0 <= j < given.len() implies #[trigger] token_lexeme(tokens@[j]) == if j < k + 1
                && unnamed_at(all@, j) {
                Lexeme::Word
            } else {
                token_lexeme(given[j])
            } by {
                if j != k {
                    assert(tokens@[j] == before[j]);
                    assert(token_lexeme(before[j]) == token_lexeme(tokens@[j]));
                }
            }
        }
        k = k + 1;
    }
    assert(found == unnamed(all@));
    if found {
        proof {
            lemma_muted(given, tokens@);
            assert(tokens@ =~= muted(given));
        }
        Some(tokens)
    } else {
        None
    }
}

// ---- parsing ----

/// What parsing gave, over the trees of the statements.
pub open spec fn trees(r: Result<Vec<RawStatement>, String>) -> Result<
    Seq<SqlStatementV>,
    Seq<char>,
> {
    match r {
        Ok(statements) => Ok(
            Seq::new(statements@.len(), |i: int| statement_tree(statements@[i])),
        ),
        Err(message) => Err(message@),
    }
}

/// What parsing a text gives: the statements in it, or the text of the error.
pub uninterp spec fn sql_statements(text: Seq<char>) -> Result<Seq<SqlStatementV>, Seq<char>>;

/// `sqlparser::parser::Parser::parse_sql` with the `GenericDialect`: the
/// statements of the text, or the error as its `Display` shows it. What a text
/// gives depends on the text alone. The call may panic on a text with a `FLUSH
/// RELAY LOGS FOR CHANNEL` that has no name behind it.
#[verifier::external_body]
fn parse_sql(text: &str) -> (r: Result<Vec<RawStatement>, String>)
    requires
        !unnamed_channel(text@),
    ensures
        trees(r) == sql_statements(text@),
{
    Parser::parse_sql(&GenericDialect {}, text).map_err(|e| e.to_string())
}

/// What parsing tokens gives: the statements in them, or the text of the error.
pub uninterp spec fn token_statements(tokens: Seq<RawToken>) -> Result<
    Seq<SqlStatementV>,
    Seq<char>,
>;

/// `sqlparser::parser::Parser::parse_statements` with the `GenericDialect`, on
/// tokens: their statements, or the error as its `Display` shows it. What they
/// give depends on the tokens alone. The call may panic where a `FLUSH RELAY
/// LOGS FOR CHANNEL` has no name behind it.
#[verifier::external_body]
fn parse_tokens(tokens: Vec<RawToken>) -> (r: Result<Vec<RawStatement>, String>)
    requires
        !unnamed(lexemes_of(tokens@)),
    ensures
        trees(r) == token_statements(tokens@),
{
    let mut parser = Parser::new(&GenericDialect {}).with_tokens_with_locations(tokens);
    parser.parse_statements().map_err(|e| e.to_string())
}

/// What reading a text gives: the statements in it, or the text of the error. A
/// `CHANNEL` that has no name behind it is read as a word like any other, so
/// that where the parser would look for the name it finds a statement that ends
/// too early.
pub open spec fn statements_of(text: Seq<char>) -> Result<Seq<SqlStatementV>, Seq<char>> {
    if unnamed_channel(text) {
        token_statements(muted(sql_tokens(text)->0))
    } else {
        sql_statements(text)
    }
}

/// The statements of a text, as plain trees, or the text of the error.
pub fn read_statements(text: &str) -> (r: Result<Vec<SqlStatement>, String>)
    ensures
        match r {
            Ok(statements) => statements_of(text@) == Ok::<Seq<SqlStatementV>, Seq<char>>(
                views(statements@),
            ),
            Err(message) => statements_of(text@) == Err::<Seq<SqlStatementV>, Seq<char>>(
                message@,
            ),
        },
{
    let parsed = match muted_tokens(text) {
        Some(tokens) => parse_tokens(tokens),
        None => parse_sql(text),
    };
    match parsed {
        Err(message) => Err(message),
        Ok(raw) => {
            let mut statements: Vec<SqlStatement> = Vec::new();
            let mut i: usize = 0;
            while i < raw.len()
                invariant
                    i <= raw@.len(),
                    statements@.len() == i,
                    forall|j: int|
                        0 <= j < i ==> (#[trigger] statements@[j])@ == statement_tree(raw@[j]),
                decreases raw.len() - i,
            {
                statements.push(read_statement(&raw[i]));
                i = i + 1;
            }
            assert(views(statements@) =~= Seq::new(
                raw@.len(),
                |i: int| statement_tree(raw@[i]),
            ));
            Ok(statements)
        },
    }
}

// ---- parts and trees ----

/// The parts of an expression make the expression that they are the parts of:
/// signs and words stay what they are, and both sides stay on their side.
proof fn law_expression_parts(
    name: String,
    e: RawExpr,
    f: RawExpr,
    v: RawValue,
    op: RawBinaryOperator,
)
    ensures
        ExprParts::Identifier(name).tree() == SqlExprV::Identifier(name@),
        ExprParts::CompoundIdentifier.tree() is CompoundIdentifier,
        ExprParts::Other.tree() is Other,
        ExprParts::Value(&v).tree() == SqlExprV::Value(value_tree(v)),
        ExprParts::Nested(&e).tree() matches SqlExprV::Nested(x) && *x == expr_tree(e),
        ExprParts::Minus(&e).tree() matches SqlExprV::Unary { op: sign, expr } && sign
            == SqlUnary::Minus && *expr == expr_tree(e),
        ExprParts::Plus(&e).tree() matches SqlExprV::Unary { op: sign, expr } && sign
            == SqlUnary::Plus && *expr == expr_tree(e),
        ExprParts::Not(&e).tree() matches SqlExprV::Unary { op: sign, expr } && sign
            == SqlUnary::Not && *expr == expr_tree(e),
        ExprParts::Unary(&e).tree() matches SqlExprV::Unary { op: sign, expr } && sign
            == SqlUnary::Other && *expr == expr_tree(e),
        ExprParts::Binary(&e, &op, &f).tree() matches SqlExprV::Binary { left, op: sign, right }
            && *left == expr_tree(e) && sign == operator_tree(op) && *right == expr_tree(f),
{
}

/// The parts of a query make the query that they are the parts of, with every
/// flag as it is.
proof fn law_query_parts<'a>(
    q: QueryParts<'a>,
    s: SelectParts<'a>,
    t: TableParts<'a>,
    e: RawExpr,
    o: OrderItemParts<'a>,
    ob: OrderByParts<'a>,
    offset: bool,
    by: usize,
    i: int,
)
    ensures
        q.tree().with == q.with,
        q.tree().fetch == q.fetch,
        q.tree().order_by is Some == q.order_by is Some,
        q.order_by matches Some(x) ==> q.tree().order_by == Some(order_by_tree(*x)),
        q.tree().limit is Some == q.limit is Some,
        q.limit matches Some(x) ==> q.tree().limit == Some(limit_tree(*x)),
        q.tree().body == body_tree(*q.body),
        s.tree().distinct == s.distinct,
        s.tree().having == s.having,
        s.tree().group_by == s.group_by,
        s.tree().selection is Some == s.selection is Some,
        s.selection matches Some(x) ==> s.tree().selection == Some(expr_tree(*x)),
        s.tree().from.len() == s.from@.len(),
        0 <= i < s.from@.len() ==> s.tree().from[i] == table_tree(s.from@[i]),
        s.tree().projection.len() == s.projection@.len(),
        0 <= i < s.projection@.len() ==> s.tree().projection[i] == item_tree(s.projection@[i]),
        t.tree().joins == t.joins,
        t.name is None ==> t.tree().relation is Other,
        t.name matches Some(n) ==> t.tree().relation == (SqlRelationV::Table {
            name: name_parts(*n),
            args: t.args,
        }),
        o.tree().expr == expr_tree(*o.expr),
        o.tree().asc == o.asc,
        o.tree().with_fill == o.with_fill,
        ob.tree().interpolate == ob.interpolate,
        ob.tree().items is Some == ob.items is Some,
        ob.items matches Some(items) ==> ob.tree().items->0.len() == items@.len() && (0 <= i
            < items@.len() ==> ob.tree().items->0[i] == order_item_tree(items@[i])),
        LimitParts::LimitOffset(Some(&e), offset, by).tree() == (SqlLimitV::LimitOffset {
            limit: Some(expr_tree(e)),
            offset,
            by,
        }),
        LimitParts::LimitOffset(None, offset, by).tree() == (SqlLimitV::LimitOffset {
            limit: None,
            offset,
            by,
        }),
        LimitParts::OffsetCommaLimit.tree() is OffsetCommaLimit,
        ItemParts::Expr(&e).tree() == SqlItemV::Expr(expr_tree(e)),
        ItemParts::Alias.tree() is Alias,
        ItemParts::QualifiedWildcard.tree() is QualifiedWildcard,
        ItemParts::Wildcard.tree() is Wildcard,
        BodyParts::SetOperation.tree() is SetOperation,
        BodyParts::Query.tree() is Query,
        BodyParts::Other.tree() is Other,
{
}

/// The parts of any other statement make the statement that they are the parts
/// of, with every count and flag as it is.
proof fn law_statement_parts<'a>(
    c: ColumnParts<'a>,
    ct: CreateTableParts<'a>,
    ins: InsertParts<'a>,
    d: DeleteParts<'a>,
    a: AssignmentParts<'a>,
    u: UpdateParts<'a>,
    drop: DropParts<'a>,
    describe: DescribeParts<'a>,
    i: int,
)
    ensures
        c.tree().name == c.name@,
        c.tree().shown == c.shown@,
        c.tree().ty == type_tree(*c.ty),
        c.tree().options.len() == c.options@.len(),
        0 <= i < c.options@.len() ==> c.tree().options[i] == option_tree(c.options@[i]),
        ct.tree().name == name_parts(*ct.name),
        ct.tree().constraints == ct.constraints,
        ct.tree().columns.len() == ct.columns@.len(),
        0 <= i < ct.columns@.len() ==> ct.tree().columns[i] == column_tree(ct.columns@[i]),
        ins.tree().columns == ins.columns,
        ins.tree().assignments == ins.assignments,
        ins.tree().table is Some == ins.table is Some,
        ins.table matches Some(n) ==> ins.tree().table == Some(name_parts(*n)),
        ins.tree().source is Some == ins.source is Some,
        ins.source matches Some(q) ==> ins.tree().source == Some(query_tree(*q)),
        d.tree().tables == d.tables,
        d.tree().ordered == d.ordered,
        d.tree().clauses == d.clauses@,
        d.tree().from.len() == d.from@.len(),
        0 <= i < d.from@.len() ==> d.tree().from[i] == table_tree(d.from@[i]),
        d.tree().selection is Some == d.selection is Some,
        d.selection matches Some(e) ==> d.tree().selection == Some(expr_tree(*e)),
        a.tree().value == expr_tree(*a.value),
        a.tree().target is Some == a.target is Some,
        a.target matches Some(n) ==> a.tree().target == Some(name_parts(*n)),
        u.tree().table == table_tree(*u.table),
        u.tree().ordered == u.ordered,
        u.tree().clauses == u.clauses@,
        u.tree().assignments.len() == u.assignments@.len(),
        0 <= i < u.assignments@.len() ==> u.tree().assignments[i] == assignment_tree(
            u.assignments@[i],
        ),
        u.tree().selection is Some == u.selection is Some,
        u.selection matches Some(e) ==> u.tree().selection == Some(expr_tree(*e)),
        drop.tree() matches SqlStatementV::Drop { table, if_exists, names } && table == drop.table
            && if_exists == drop.if_exists && names.len() == drop.names@.len(),
        0 <= i < drop.names@.len() ==> drop.tree()->Drop_names[i] == name_parts(*drop.names@[i]),
        describe.tree() == (SqlStatementV::Describe {
            explain: describe.explain,
            extended: describe.extended,
            formatted: describe.formatted,
            name: name_parts(*describe.name),
        }),
{
}

} // verus!
