//! Abstract syntax tree of the supported SQL subset: the model that the rest
//! of the system works with.

use vstd::prelude::*;

use crate::storage::ValueV;
use crate::text::{clone_texts, texts};

verus! {

/// A single parsed top-level statement.
#[derive(Debug, PartialEq)]
pub enum Statement {
    CreateTable(CreateTable),
    Insert(Insert),
    Select(Select),
    DropTable(DropTable),
    ShowTables,
    Describe(Describe),
    Delete(Delete),
    Update(Update),
}

/// The view of a [`Statement`].
pub enum StatementV {
    CreateTable { table: Seq<char>, columns: Seq<ColumnDefV> },
    Insert { table: Seq<char>, values: Seq<ValueV> },
    Select(SelectV),
    DropTable { table: Seq<char> },
    ShowTables,
    Describe { table: Seq<char>, extended: bool },
    Delete { table: Seq<char>, filter: Option<ExprV> },
    Update { table: Seq<char>, assignments: Seq<AssignmentV>, filter: Option<ExprV> },
}

impl View for Statement {
    type V = StatementV;

    open spec fn view(&self) -> StatementV {
        match self {
            Statement::CreateTable(ct) => StatementV::CreateTable {
                table: ct.table@,
                columns: column_defs_view(ct.columns@),
            },
            Statement::Insert(ins) => StatementV::Insert {
                table: ins.table@,
                values: literals_view(ins.values@),
            },
            Statement::Select(sel) => StatementV::Select(sel@),
            Statement::DropTable(d) => StatementV::DropTable { table: d.table@ },
            Statement::ShowTables => StatementV::ShowTables,
            Statement::Describe(d) => StatementV::Describe {
                table: d.table@,
                extended: d.extended,
            },
            Statement::Delete(d) => StatementV::Delete {
                table: d.table@,
                filter: filter_view(d.filter),
            },
            Statement::Update(u) => StatementV::Update {
                table: u.table@,
                assignments: assignments_view(u.assignments@),
                filter: filter_view(u.filter),
            },
        }
    }
}

/// `CREATE TABLE name (col TYPE, ...)`.
#[derive(Debug, PartialEq)]
pub struct CreateTable {
    pub table: String,
    pub columns: Vec<ColumnDef>,
}

/// One column of a `CREATE TABLE`.
#[derive(Debug, PartialEq)]
pub struct ColumnDef {
    pub name: String,
    pub ty: DataType,
    pub nullable: bool,
}

/// The view of a [`ColumnDef`].
pub struct ColumnDefV {
    pub name: Seq<char>,
    pub ty: DataType,
    pub nullable: bool,
}

impl View for ColumnDef {
    type V = ColumnDefV;

    open spec fn view(&self) -> ColumnDefV {
        ColumnDefV { name: self.name@, ty: self.ty, nullable: self.nullable }
    }
}

impl Clone for ColumnDef {
    fn clone(&self) -> (r: Self)
        ensures
            r@ == self@,
    {
        ColumnDef { name: self.name.clone(), ty: self.ty, nullable: self.nullable }
    }
}

/// The views of a run of column definitions.
pub open spec fn column_defs_view(columns: Seq<ColumnDef>) -> Seq<ColumnDefV> {
    Seq::new(columns.len(), |i: int| columns[i]@)
}

/// A copy of `columns`.
pub fn clone_column_defs(columns: &Vec<ColumnDef>) -> (r: Vec<ColumnDef>)
    ensures
        column_defs_view(r@) == column_defs_view(columns@),
{
    let mut r: Vec<ColumnDef> = Vec::new();
    let mut i: usize = 0;
    while i < columns.len()
        invariant
            i <= columns@.len(),
            r@.len() == i,
            forall|j: int| 0 <= j < i ==> (#[trigger] r@[j])@ == columns@[j]@,
        decreases columns.len() - i,
    {
        r.push(columns[i].clone());
        i = i + 1;
    }
    assert(column_defs_view(r@) =~= column_defs_view(columns@));
    r
}

/// The column types that the parser recognizes.
#[derive(Debug, Clone, Copy, PartialEq, Eq, Structural)]
pub enum DataType {
    Int,
    Text,
}

/// `INSERT INTO name VALUES (v, ...)`: a single row.
#[derive(Debug, PartialEq)]
pub struct Insert {
    pub table: String,
    pub values: Vec<Literal>,
}

/// A literal value in an INSERT row, an UPDATE or a comparison.
#[derive(Debug, PartialEq)]
pub enum Literal {
    Int(i64),
    Text(String),
    Null,
}

impl View for Literal {
    type V = ValueV;

    open spec fn view(&self) -> ValueV {
        match self {
            Literal::Int(n) => ValueV::Int(*n),
            Literal::Text(s) => ValueV::Text(s@),
            Literal::Null => ValueV::Null,
        }
    }
}

impl Clone for Literal {
    fn clone(&self) -> (r: Self)
        ensures
            r@ == self@,
    {
        match self {
            Literal::Int(n) => Literal::Int(*n),
            Literal::Text(s) => Literal::Text(s.clone()),
            Literal::Null => Literal::Null,
        }
    }
}

/// The views of a run of literals.
pub open spec fn literals_view(values: Seq<Literal>) -> Seq<ValueV> {
    Seq::new(values.len(), |i: int| values[i]@)
}

/// A copy of `values`.
pub fn clone_literals(values: &Vec<Literal>) -> (r: Vec<Literal>)
    ensures
        literals_view(r@) == literals_view(values@),
{
    let mut r: Vec<Literal> = Vec::new();
    let mut i: usize = 0;
    while i < values.len()
        invariant
            i <= values@.len(),
            r@.len() == i,
            forall|j: int| 0 <= j < i ==> (#[trigger] r@[j])@ == values@[j]@,
        decreases values.len() - i,
    {
        r.push(values[i].clone());
        i = i + 1;
    }
    assert(literals_view(r@) =~= literals_view(values@));
    r
}

/// `DROP TABLE name`.
#[derive(Debug, PartialEq)]
pub struct DropTable {
    pub table: String,
}

/// `DESCRIBE [EXTENDED] name`.
#[derive(Debug, PartialEq)]
pub struct Describe {
    pub table: String,
    pub extended: bool,
}

/// `DELETE FROM name [WHERE filter]`.
#[derive(Debug, PartialEq)]
pub struct Delete {
    pub table: String,
    pub filter: Option<Expr>,
}

/// `UPDATE name SET column = literal, ... [WHERE filter]`.
#[derive(Debug, PartialEq)]
pub struct Update {
    pub table: String,
    pub assignments: Vec<Assignment>,
    pub filter: Option<Expr>,
}

/// One `column = literal` of an UPDATE.
#[derive(Debug, PartialEq)]
pub struct Assignment {
    pub column: String,
    pub value: Literal,
}

/// The view of an [`Assignment`].
pub struct AssignmentV {
    pub column: Seq<char>,
    pub value: ValueV,
}

impl View for Assignment {
    type V = AssignmentV;

    open spec fn view(&self) -> AssignmentV {
        AssignmentV { column: self.column@, value: self.value@ }
    }
}

impl Clone for Assignment {
    fn clone(&self) -> (r: Self)
        ensures
            r@ == self@,
    {
        Assignment { column: self.column.clone(), value: self.value.clone() }
    }
}

/// The views of a run of assignments.
pub open spec fn assignments_view(assignments: Seq<Assignment>) -> Seq<AssignmentV> {
    Seq::new(assignments.len(), |i: int| assignments[i]@)
}

/// A copy of `assignments`.
pub fn clone_assignments(assignments: &Vec<Assignment>) -> (r: Vec<Assignment>)
    ensures
        assignments_view(r@) == assignments_view(assignments@),
{
    let mut r: Vec<Assignment> = Vec::new();
    let mut i: usize = 0;
    while i < assignments.len()
        invariant
            i <= assignments@.len(),
            r@.len() == i,
            forall|j: int| 0 <= j < i ==> (#[trigger] r@[j])@ == assignments@[j]@,
        decreases assignments.len() - i,
    {
        r.push(assignments[i].clone());
        i = i + 1;
    }
    assert(assignments_view(r@) =~= assignments_view(assignments@));
    r
}

/// `SELECT projections FROM from [WHERE filter] [ORDER BY ...] [LIMIT n]`.
#[derive(Debug, PartialEq)]
pub struct Select {
    pub projections: Projection,
    pub from: String,
    pub filter: Option<Expr>,
    pub order_by: Option<OrderBy>,
    pub limit: Option<u64>,
}

/// The view of a [`Select`].
pub struct SelectV {
    pub projections: ProjectionV,
    pub from: Seq<char>,
    pub filter: Option<ExprV>,
    pub order_by: Option<OrderByV>,
    pub limit: Option<u64>,
}

impl View for Select {
    type V = SelectV;

    open spec fn view(&self) -> SelectV {
        SelectV {
            projections: self.projections@,
            from: self.from@,
            filter: filter_view(self.filter),
            order_by: order_by_view(self.order_by),
            limit: self.limit,
        }
    }
}

/// The column list that follows `SELECT`.
#[derive(Debug, PartialEq)]
pub enum Projection {
    /// `SELECT *`
    All,
    /// `SELECT a, b, c`
    Columns(Vec<String>),
}

/// The view of a [`Projection`].
pub enum ProjectionV {
    All,
    Columns(Seq<Seq<char>>),
}

impl View for Projection {
    type V = ProjectionV;

    open spec fn view(&self) -> ProjectionV {
        match self {
            Projection::All => ProjectionV::All,
            Projection::Columns(names) => ProjectionV::Columns(texts(names@)),
        }
    }
}

impl Clone for Projection {
    fn clone(&self) -> (r: Self)
        ensures
            r@ == self@,
    {
        match self {
            Projection::All => Projection::All,
            Projection::Columns(names) => Projection::Columns(clone_texts(names)),
        }
    }
}

/// `ORDER BY column [ASC|DESC]`.
#[derive(Debug, PartialEq)]
pub struct OrderBy {
    pub column: String,
    /// `true` for `DESC`, `false` for `ASC` or an unspecified direction.
    pub descending: bool,
}

/// The view of an [`OrderBy`].
pub struct OrderByV {
    pub column: Seq<char>,
    pub descending: bool,
}

/// The view of an optional ordering.
pub open spec fn order_by_view(o: Option<OrderBy>) -> Option<OrderByV> {
    match o {
        None => None,
        Some(o) => Some(OrderByV { column: o.column@, descending: o.descending }),
    }
}

/// A boolean or scalar expression, as used in `WHERE`.
#[allow(inconsistent_fields)]
#[derive(Debug, PartialEq)]
pub enum Expr {
    /// A column reference, e.g. `age`.
    Column(String),
    /// A literal value, e.g. `18` or `'Alice'` or `NULL`.
    Literal(Literal),
    /// A comparison between two operands, e.g. `age > 18`.
    Compare { left: Box<Expr>, op: CompareOp, right: Box<Expr> },
    /// A boolean combination, e.g. `a AND b`.
    Logical { left: Box<Expr>, op: LogicalOp, right: Box<Expr> },
}

/// The view of an [`Expr`].
#[allow(inconsistent_fields)]
pub enum ExprV {
    Column(Seq<char>),
    Literal(ValueV),
    Compare { left: Box<ExprV>, op: CompareOp, right: Box<ExprV> },
    Logical { left: Box<ExprV>, op: LogicalOp, right: Box<ExprV> },
}

/// The view of an expression, node by node.
pub open spec fn expr_view(e: Expr) -> ExprV
    decreases e,
{
    match e {
        Expr::Column(name) => ExprV::Column(name@),
        Expr::Literal(l) => ExprV::Literal(l@),
        Expr::Compare { left, op, right } => ExprV::Compare {
            left: Box::new(expr_view(*left)),
            op,
            right: Box::new(expr_view(*right)),
        },
        Expr::Logical { left, op, right } => ExprV::Logical {
            left: Box::new(expr_view(*left)),
            op,
            right: Box::new(expr_view(*right)),
        },
    }
}

impl View for Expr {
    type V = ExprV;

    open spec fn view(&self) -> ExprV {
        expr_view(*self)
    }
}

impl Clone for Expr {
    fn clone(&self) -> (r: Self)
        ensures
            r@ == self@,
        decreases self,
    {
        match self {
            Expr::Column(name) => Expr::Column(name.clone()),
            Expr::Literal(l) => Expr::Literal(l.clone()),
            Expr::Compare { left, op, right } => Expr::Compare {
                left: Box::new((&**left).clone()),
                op: *op,
                right: Box::new((&**right).clone()),
            },
            Expr::Logical { left, op, right } => Expr::Logical {
                left: Box::new((&**left).clone()),
                op: *op,
                right: Box::new((&**right).clone()),
            },
        }
    }
}

/// The view of an optional expression.
pub open spec fn filter_view(filter: Option<Expr>) -> Option<ExprV> {
    match filter {
        None => None,
        Some(e) => Some(e@),
    }
}

/// A copy of an optional expression.
pub fn clone_filter(filter: &Option<Expr>) -> (r: Option<Expr>)
    ensures
        filter_view(r) == filter_view(*filter),
{
    match filter {
        None => None,
        Some(e) => Some(e.clone()),
    }
}

/// The operators of a comparison.
#[derive(Debug, Clone, Copy, PartialEq, Eq, Structural)]
pub enum CompareOp {
    Eq,
    NotEq,
    Lt,
    LtEq,
    Gt,
    GtEq,
}

/// The operators that combine conditions.
#[derive(Debug, Clone, Copy, PartialEq, Eq, Structural)]
pub enum LogicalOp {
    And,
    Or,
}

} // verus!
