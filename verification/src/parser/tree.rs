//! The SQL syntax tree that lowering works on: what it reads of a statement,
//! as plain values.

use vstd::prelude::*;

verus! {

/// What a token of a SQL text is, as far as it matters before parsing: the
/// keywords of `FLUSH RELAY LOGS FOR CHANNEL`, one that says where to flush, any
/// other word, a quoted string, a period, white space, or anything else.
#[derive(Clone, Copy, PartialEq, Eq, Structural)]
pub enum Lexeme {
    Flush,
    Place,
    Relay,
    Logs,
    For,
    Channel,
    Word,
    Quoted,
    Period,
    Space,
    Other,
}

/// The views of a run of nodes.
pub open spec fn views<T: View>(nodes: Seq<T>) -> Seq<T::V> {
    Seq::new(nodes.len(), |i: int| nodes[i]@)
}

/// The view of a node that may be missing.
pub open spec fn maybe<T: View>(node: Option<T>) -> Option<T::V> {
    match node {
        None => None,
        Some(n) => Some(n@),
    }
}

/// The name of an object: its parts, with `None` for one that is not an
/// identifier.
#[derive(Debug, PartialEq)]
pub struct SqlName {
    pub parts: Vec<Option<String>>,
}

impl View for SqlName {
    type V = Seq<Option<Seq<char>>>;

    open spec fn view(&self) -> Seq<Option<Seq<char>>> {
        Seq::new(self.parts@.len(), |i: int| maybe(self.parts@[i]))
    }
}

// ---- expressions ----

/// A literal.
#[derive(Debug, PartialEq)]
pub enum SqlValue {
    /// A number, as it was written.
    Number(String),
    SingleQuotedString(String),
    Null,
    /// Any other literal, as it is shown.
    Other(String),
}

/// The view of a [`SqlValue`].
pub enum SqlValueV {
    Number(Seq<char>),
    SingleQuotedString(Seq<char>),
    Null,
    Other(Seq<char>),
}

impl View for SqlValue {
    type V = SqlValueV;

    open spec fn view(&self) -> SqlValueV {
        match self {
            SqlValue::Number(s) => SqlValueV::Number(s@),
            SqlValue::SingleQuotedString(s) => SqlValueV::SingleQuotedString(s@),
            SqlValue::Null => SqlValueV::Null,
            SqlValue::Other(s) => SqlValueV::Other(s@),
        }
    }
}

/// An operator with one operand.
#[derive(Debug, Clone, Copy, PartialEq, Eq, Structural)]
pub enum SqlUnary {
    Minus,
    Plus,
    Not,
    Other,
}

/// An operator with two operands.
#[derive(Debug, PartialEq)]
pub enum SqlBinary {
    Eq,
    NotEq,
    Lt,
    LtEq,
    Gt,
    GtEq,
    And,
    Or,
    /// Any other operator, as it is shown.
    Other(String),
}

/// The view of a [`SqlBinary`].
pub enum SqlBinaryV {
    Eq,
    NotEq,
    Lt,
    LtEq,
    Gt,
    GtEq,
    And,
    Or,
    Other(Seq<char>),
}

impl View for SqlBinary {
    type V = SqlBinaryV;

    open spec fn view(&self) -> SqlBinaryV {
        match self {
            SqlBinary::Eq => SqlBinaryV::Eq,
            SqlBinary::NotEq => SqlBinaryV::NotEq,
            SqlBinary::Lt => SqlBinaryV::Lt,
            SqlBinary::LtEq => SqlBinaryV::LtEq,
            SqlBinary::Gt => SqlBinaryV::Gt,
            SqlBinary::GtEq => SqlBinaryV::GtEq,
            SqlBinary::And => SqlBinaryV::And,
            SqlBinary::Or => SqlBinaryV::Or,
            SqlBinary::Other(s) => SqlBinaryV::Other(s@),
        }
    }
}

/// An expression.
#[allow(inconsistent_fields)]
#[derive(Debug, PartialEq)]
pub enum SqlExpr {
    Identifier(String),
    CompoundIdentifier,
    /// An expression in parentheses.
    Nested(Box<SqlExpr>),
    Value(SqlValue),
    Unary { op: SqlUnary, expr: Box<SqlExpr> },
    Binary { left: Box<SqlExpr>, op: SqlBinary, right: Box<SqlExpr> },
    Other,
}

/// The view of a [`SqlExpr`].
#[allow(inconsistent_fields)]
pub enum SqlExprV {
    Identifier(Seq<char>),
    CompoundIdentifier,
    Nested(Box<SqlExprV>),
    Value(SqlValueV),
    Unary { op: SqlUnary, expr: Box<SqlExprV> },
    Binary { left: Box<SqlExprV>, op: SqlBinaryV, right: Box<SqlExprV> },
    Other,
}

/// The view of an expression, node by node.
pub open spec fn sql_expr_view(e: SqlExpr) -> SqlExprV
    decreases e,
{
    match e {
        SqlExpr::Identifier(s) => SqlExprV::Identifier(s@),
        SqlExpr::CompoundIdentifier => SqlExprV::CompoundIdentifier,
        SqlExpr::Nested(inner) => SqlExprV::Nested(Box::new(sql_expr_view(*inner))),
        SqlExpr::Value(v) => SqlExprV::Value(v@),
        SqlExpr::Unary { op, expr } => SqlExprV::Unary {
            op,
            expr: Box::new(sql_expr_view(*expr)),
        },
        SqlExpr::Binary { left, op, right } => SqlExprV::Binary {
            left: Box::new(sql_expr_view(*left)),
            op: op@,
            right: Box::new(sql_expr_view(*right)),
        },
        SqlExpr::Other => SqlExprV::Other,
    }
}

impl View for SqlExpr {
    type V = SqlExprV;

    open spec fn view(&self) -> SqlExprV {
        sql_expr_view(*self)
    }
}

/// How deep an expression is nested.
pub open spec fn expr_depth(e: SqlExprV) -> nat
    decreases e,
{
    match e {
        SqlExprV::Nested(inner) => expr_depth(*inner) + 1,
        SqlExprV::Unary { expr, .. } => expr_depth(*expr) + 1,
        SqlExprV::Binary { left, right, .. } => expr_depth(*left) + expr_depth(*right) + 1,
        _ => 0,
    }
}

// ---- CREATE TABLE ----

/// The type of a column.
#[derive(Debug, PartialEq)]
pub enum SqlType {
    Int,
    Integer,
    Text,
    Varchar,
    Str,
    Char,
    /// Any other type, as it is shown.
    Other(String),
}

/// The view of a [`SqlType`].
pub enum SqlTypeV {
    Int,
    Integer,
    Text,
    Varchar,
    Str,
    Char,
    Other(Seq<char>),
}

impl View for SqlType {
    type V = SqlTypeV;

    open spec fn view(&self) -> SqlTypeV {
        match self {
            SqlType::Int => SqlTypeV::Int,
            SqlType::Integer => SqlTypeV::Integer,
            SqlType::Text => SqlTypeV::Text,
            SqlType::Varchar => SqlTypeV::Varchar,
            SqlType::Str => SqlTypeV::Str,
            SqlType::Char => SqlTypeV::Char,
            SqlType::Other(s) => SqlTypeV::Other(s@),
        }
    }
}

/// An option of a column.
#[derive(Debug, PartialEq)]
pub enum SqlOption {
    Null,
    NotNull,
    /// Any other option, as it is shown.
    Other(String),
}

/// The view of a [`SqlOption`].
pub enum SqlOptionV {
    Null,
    NotNull,
    Other(Seq<char>),
}

impl View for SqlOption {
    type V = SqlOptionV;

    open spec fn view(&self) -> SqlOptionV {
        match self {
            SqlOption::Null => SqlOptionV::Null,
            SqlOption::NotNull => SqlOptionV::NotNull,
            SqlOption::Other(s) => SqlOptionV::Other(s@),
        }
    }
}

/// A column definition.
#[derive(Debug, PartialEq)]
pub struct SqlColumn {
    pub name: String,
    /// The name as it is shown, with its quotes.
    pub shown: String,
    pub ty: SqlType,
    pub options: Vec<SqlOption>,
}

/// The view of a [`SqlColumn`].
pub struct SqlColumnV {
    pub name: Seq<char>,
    pub shown: Seq<char>,
    pub ty: SqlTypeV,
    pub options: Seq<SqlOptionV>,
}

impl View for SqlColumn {
    type V = SqlColumnV;

    open spec fn view(&self) -> SqlColumnV {
        SqlColumnV {
            name: self.name@,
            shown: self.shown@,
            ty: self.ty@,
            options: views(self.options@),
        }
    }
}

/// `CREATE TABLE`.
#[derive(Debug, PartialEq)]
pub struct SqlCreateTable {
    pub name: SqlName,
    /// How many table constraints there are.
    pub constraints: usize,
    pub columns: Vec<SqlColumn>,
}

/// The view of a [`SqlCreateTable`].
pub struct SqlCreateTableV {
    pub name: Seq<Option<Seq<char>>>,
    pub constraints: usize,
    pub columns: Seq<SqlColumnV>,
}

impl View for SqlCreateTable {
    type V = SqlCreateTableV;

    open spec fn view(&self) -> SqlCreateTableV {
        SqlCreateTableV {
            name: self.name@,
            constraints: self.constraints,
            columns: views(self.columns@),
        }
    }
}

// ---- queries ----

/// What is read from: a named table, or something else.
#[derive(Debug, PartialEq)]
pub enum SqlRelation {
    /// `args` is true for a table-valued function.
    Table { name: SqlName, args: bool },
    Other,
}

/// The view of a [`SqlRelation`].
pub enum SqlRelationV {
    Table { name: Seq<Option<Seq<char>>>, args: bool },
    Other,
}

impl View for SqlRelation {
    type V = SqlRelationV;

    open spec fn view(&self) -> SqlRelationV {
        match self {
            SqlRelation::Table { name, args } => SqlRelationV::Table { name: name@, args: *args },
            SqlRelation::Other => SqlRelationV::Other,
        }
    }
}

/// A table with its joins.
#[derive(Debug, PartialEq)]
pub struct SqlTable {
    pub relation: SqlRelation,
    /// How many joins there are.
    pub joins: usize,
}

/// The view of a [`SqlTable`].
pub struct SqlTableV {
    pub relation: SqlRelationV,
    pub joins: usize,
}

impl View for SqlTable {
    type V = SqlTableV;

    open spec fn view(&self) -> SqlTableV {
        SqlTableV { relation: self.relation@, joins: self.joins }
    }
}

/// One item behind `SELECT`.
#[derive(Debug, PartialEq)]
pub enum SqlItem {
    Expr(SqlExpr),
    /// An expression with one alias or several.
    Alias,
    QualifiedWildcard,
    Wildcard,
}

/// The view of a [`SqlItem`].
pub enum SqlItemV {
    Expr(SqlExprV),
    Alias,
    QualifiedWildcard,
    Wildcard,
}

impl View for SqlItem {
    type V = SqlItemV;

    open spec fn view(&self) -> SqlItemV {
        match self {
            SqlItem::Expr(e) => SqlItemV::Expr(e@),
            SqlItem::Alias => SqlItemV::Alias,
            SqlItem::QualifiedWildcard => SqlItemV::QualifiedWildcard,
            SqlItem::Wildcard => SqlItemV::Wildcard,
        }
    }
}

/// One expression of an `ORDER BY`.
#[derive(Debug, PartialEq)]
pub struct SqlOrderItem {
    pub expr: SqlExpr,
    /// `ASC`, `DESC`, or nothing.
    pub asc: Option<bool>,
    pub with_fill: bool,
}

/// The view of a [`SqlOrderItem`].
pub struct SqlOrderItemV {
    pub expr: SqlExprV,
    pub asc: Option<bool>,
    pub with_fill: bool,
}

impl View for SqlOrderItem {
    type V = SqlOrderItemV;

    open spec fn view(&self) -> SqlOrderItemV {
        SqlOrderItemV { expr: self.expr@, asc: self.asc, with_fill: self.with_fill }
    }
}

/// `ORDER BY`; without items for `ORDER BY ALL`.
#[derive(Debug, PartialEq)]
pub struct SqlOrderBy {
    pub interpolate: bool,
    pub items: Option<Vec<SqlOrderItem>>,
}

/// The view of a [`SqlOrderBy`].
pub struct SqlOrderByV {
    pub interpolate: bool,
    pub items: Option<Seq<SqlOrderItemV>>,
}

impl View for SqlOrderBy {
    type V = SqlOrderByV;

    open spec fn view(&self) -> SqlOrderByV {
        SqlOrderByV {
            interpolate: self.interpolate,
            items: match self.items {
                None => None,
                Some(items) => Some(views(items@)),
            },
        }
    }
}

/// `LIMIT`.
#[derive(Debug, PartialEq)]
pub enum SqlLimit {
    /// `by` is how many expressions follow `BY`.
    LimitOffset { limit: Option<SqlExpr>, offset: bool, by: usize },
    OffsetCommaLimit,
}

/// The view of a [`SqlLimit`].
pub enum SqlLimitV {
    LimitOffset { limit: Option<SqlExprV>, offset: bool, by: usize },
    OffsetCommaLimit,
}

impl View for SqlLimit {
    type V = SqlLimitV;

    open spec fn view(&self) -> SqlLimitV {
        match self {
            SqlLimit::LimitOffset { limit, offset, by } => SqlLimitV::LimitOffset {
                limit: maybe(*limit),
                offset: *offset,
                by: *by,
            },
            SqlLimit::OffsetCommaLimit => SqlLimitV::OffsetCommaLimit,
        }
    }
}

/// `GROUP BY`: everything, or so many expressions with so many modifiers.
#[derive(Debug, Clone, Copy, PartialEq, Eq, Structural)]
pub enum SqlGroupBy {
    All,
    Expressions { exprs: usize, modifiers: usize },
}

/// The core of a `SELECT`.
#[derive(Debug, PartialEq)]
pub struct SqlSelect {
    pub distinct: bool,
    pub having: bool,
    pub group_by: SqlGroupBy,
    pub from: Vec<SqlTable>,
    pub projection: Vec<SqlItem>,
    pub selection: Option<SqlExpr>,
}

/// The view of a [`SqlSelect`].
pub struct SqlSelectV {
    pub distinct: bool,
    pub having: bool,
    pub group_by: SqlGroupBy,
    pub from: Seq<SqlTableV>,
    pub projection: Seq<SqlItemV>,
    pub selection: Option<SqlExprV>,
}

impl View for SqlSelect {
    type V = SqlSelectV;

    open spec fn view(&self) -> SqlSelectV {
        SqlSelectV {
            distinct: self.distinct,
            having: self.having,
            group_by: self.group_by,
            from: views(self.from@),
            projection: views(self.projection@),
            selection: maybe(self.selection),
        }
    }
}

/// The views of rows of expressions.
pub open spec fn rows_of_exprs(rows: Seq<Vec<SqlExpr>>) -> Seq<Seq<SqlExprV>> {
    Seq::new(rows.len(), |i: int| views(rows[i]@))
}

/// The body of a query.
#[derive(Debug, PartialEq)]
pub enum SqlBody {
    Select(SqlSelect),
    /// `UNION`, `EXCEPT` or `INTERSECT`.
    SetOperation,
    /// A query in parentheses.
    Query,
    Values(Vec<Vec<SqlExpr>>),
    Other,
}

/// The view of a [`SqlBody`].
pub enum SqlBodyV {
    Select(SqlSelectV),
    SetOperation,
    Query,
    Values(Seq<Seq<SqlExprV>>),
    Other,
}

impl View for SqlBody {
    type V = SqlBodyV;

    open spec fn view(&self) -> SqlBodyV {
        match self {
            SqlBody::Select(s) => SqlBodyV::Select(s@),
            SqlBody::SetOperation => SqlBodyV::SetOperation,
            SqlBody::Query => SqlBodyV::Query,
            SqlBody::Values(rows) => SqlBodyV::Values(rows_of_exprs(rows@)),
            SqlBody::Other => SqlBodyV::Other,
        }
    }
}

/// A query.
#[derive(Debug, PartialEq)]
pub struct SqlQuery {
    pub with: bool,
    pub fetch: bool,
    pub order_by: Option<SqlOrderBy>,
    pub limit: Option<SqlLimit>,
    pub body: SqlBody,
}

/// The view of a [`SqlQuery`].
pub struct SqlQueryV {
    pub with: bool,
    pub fetch: bool,
    pub order_by: Option<SqlOrderByV>,
    pub limit: Option<SqlLimitV>,
    pub body: SqlBodyV,
}

impl View for SqlQuery {
    type V = SqlQueryV;

    open spec fn view(&self) -> SqlQueryV {
        SqlQueryV {
            with: self.with,
            fetch: self.fetch,
            order_by: maybe(self.order_by),
            limit: maybe(self.limit),
            body: self.body@,
        }
    }
}

// ---- statements ----

/// `INSERT`.
#[derive(Debug, PartialEq)]
pub struct SqlInsert {
    /// The table, or `None` for another target.
    pub table: Option<SqlName>,
    /// How many columns are listed.
    pub columns: usize,
    /// How many assignments follow `SET`.
    pub assignments: usize,
    pub source: Option<SqlQuery>,
}

/// The view of a [`SqlInsert`].
pub struct SqlInsertV {
    pub table: Option<Seq<Option<Seq<char>>>>,
    pub columns: usize,
    pub assignments: usize,
    pub source: Option<SqlQueryV>,
}

impl View for SqlInsert {
    type V = SqlInsertV;

    open spec fn view(&self) -> SqlInsertV {
        SqlInsertV {
            table: maybe(self.table),
            columns: self.columns,
            assignments: self.assignments,
            source: maybe(self.source),
        }
    }
}

/// `DELETE`.
#[derive(Debug, PartialEq)]
pub struct SqlDelete {
    pub from: Vec<SqlTable>,
    pub selection: Option<SqlExpr>,
    /// How many tables are named in front of `FROM`.
    pub tables: usize,
    /// How many expressions follow `ORDER BY`.
    pub ordered: usize,
    /// Says of each further clause whether it is there.
    pub clauses: Vec<bool>,
}

/// The view of a [`SqlDelete`].
pub struct SqlDeleteV {
    pub from: Seq<SqlTableV>,
    pub selection: Option<SqlExprV>,
    pub tables: usize,
    pub ordered: usize,
    pub clauses: Seq<bool>,
}

impl View for SqlDelete {
    type V = SqlDeleteV;

    open spec fn view(&self) -> SqlDeleteV {
        SqlDeleteV {
            from: views(self.from@),
            selection: maybe(self.selection),
            tables: self.tables,
            ordered: self.ordered,
            clauses: self.clauses@,
        }
    }
}

/// One `target = value`; without a target for a tuple of columns.
#[derive(Debug, PartialEq)]
pub struct SqlAssignment {
    pub target: Option<SqlName>,
    pub value: SqlExpr,
}

/// The view of a [`SqlAssignment`].
pub struct SqlAssignmentV {
    pub target: Option<Seq<Option<Seq<char>>>>,
    pub value: SqlExprV,
}

impl View for SqlAssignment {
    type V = SqlAssignmentV;

    open spec fn view(&self) -> SqlAssignmentV {
        SqlAssignmentV { target: maybe(self.target), value: self.value@ }
    }
}

/// `UPDATE`.
#[derive(Debug, PartialEq)]
pub struct SqlUpdate {
    pub table: SqlTable,
    pub assignments: Vec<SqlAssignment>,
    pub selection: Option<SqlExpr>,
    /// How many expressions follow `ORDER BY`.
    pub ordered: usize,
    /// Says of each further clause whether it is there.
    pub clauses: Vec<bool>,
}

/// The view of a [`SqlUpdate`].
pub struct SqlUpdateV {
    pub table: SqlTableV,
    pub assignments: Seq<SqlAssignmentV>,
    pub selection: Option<SqlExprV>,
    pub ordered: usize,
    pub clauses: Seq<bool>,
}

impl View for SqlUpdate {
    type V = SqlUpdateV;

    open spec fn view(&self) -> SqlUpdateV {
        SqlUpdateV {
            table: self.table@,
            assignments: views(self.assignments@),
            selection: maybe(self.selection),
            ordered: self.ordered,
            clauses: self.clauses@,
        }
    }
}

/// A statement.
#[allow(inconsistent_fields)]
#[derive(Debug, PartialEq)]
pub enum SqlStatement {
    CreateTable(SqlCreateTable),
    Insert(SqlInsert),
    Query(SqlQuery),
    /// `table` is true where a table is to be dropped.
    Drop { table: bool, if_exists: bool, names: Vec<SqlName> },
    /// `options` says of each option of the statement whether it is there.
    ShowTables { options: Vec<bool> },
    /// The flags say whether the word is `EXPLAIN` and whether `EXTENDED` or
    /// `FORMATTED` follows.
    Describe { explain: bool, extended: bool, formatted: bool, name: SqlName },
    Delete(SqlDelete),
    Update(SqlUpdate),
    Other,
}

/// The view of a [`SqlStatement`].
#[allow(inconsistent_fields)]
pub enum SqlStatementV {
    CreateTable(SqlCreateTableV),
    Insert(SqlInsertV),
    Query(SqlQueryV),
    Drop { table: bool, if_exists: bool, names: Seq<Seq<Option<Seq<char>>>> },
    ShowTables { options: Seq<bool> },
    Describe { explain: bool, extended: bool, formatted: bool, name: Seq<Option<Seq<char>>> },
    Delete(SqlDeleteV),
    Update(SqlUpdateV),
    Other,
}

impl View for SqlStatement {
    type V = SqlStatementV;

    open spec fn view(&self) -> SqlStatementV {
        match self {
            SqlStatement::CreateTable(ct) => SqlStatementV::CreateTable(ct@),
            SqlStatement::Insert(ins) => SqlStatementV::Insert(ins@),
            SqlStatement::Query(q) => SqlStatementV::Query(q@),
            SqlStatement::Drop { table, if_exists, names } => SqlStatementV::Drop {
                table: *table,
                if_exists: *if_exists,
                names: views(names@),
            },
            SqlStatement::ShowTables { options } => SqlStatementV::ShowTables { options: options@ },
            SqlStatement::Describe { explain, extended, formatted, name } => {
                SqlStatementV::Describe {
                    explain: *explain,
                    extended: *extended,
                    formatted: *formatted,
                    name: name@,
                }
            },
            SqlStatement::Delete(d) => SqlStatementV::Delete(d@),
            SqlStatement::Update(u) => SqlStatementV::Update(u@),
            SqlStatement::Other => SqlStatementV::Other,
        }
    }
}

} // verus!
