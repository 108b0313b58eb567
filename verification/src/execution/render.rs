//! Text of the parts that logical and physical plans share.

use vstd::prelude::*;

use crate::parser::ast::{
    assignments_view, column_defs_view, literals_view, Assignment, AssignmentV, ColumnDef,
    ColumnDefV, CompareOp, DataType, Expr, ExprV, Literal, LogicalOp,
};
use crate::storage::{predicates_view, ScanCompare, ScanPredicate, ScanPredicateV, ValueV};
use crate::text::{decimal, i64_text, join, join3, join4, join5, joined, texts};

verus! {

/// The name of a column type.
pub open spec fn data_type_text(ty: DataType) -> Seq<char> {
    match ty {
        DataType::Int => "INT"@,
        DataType::Text => "TEXT"@,
    }
}

/// The name of a column type.
pub fn render_data_type(ty: DataType) -> (r: &'static str)
    ensures
        r@ == data_type_text(ty),
{
    match ty {
        DataType::Int => "INT",
        DataType::Text => "TEXT",
    }
}

/// `name TYPE`, with ` NOT NULL` where the column takes no NULL.
pub open spec fn column_def_text(c: ColumnDefV) -> Seq<char> {
    c.name + " "@ + data_type_text(c.ty) + if c.nullable {
        ""@
    } else {
        " NOT NULL"@
    }
}

/// `name TYPE`, with ` NOT NULL` where the column takes no NULL.
pub fn render_column_def(col: &ColumnDef) -> (r: String)
    ensures
        r@ == column_def_text(col@),
{
    let null = if col.nullable {
        ""
    } else {
        " NOT NULL"
    };
    join4(col.name.as_str(), " ", render_data_type(col.ty), null)
}

/// A literal as it is written in a query: text in single quotes.
pub open spec fn literal_text(v: ValueV) -> Seq<char> {
    match v {
        ValueV::Int(n) => decimal(n as int),
        ValueV::Text(s) => "'"@ + s + "'"@,
        ValueV::Null => "NULL"@,
    }
}

/// A literal as it is written in a query: text in single quotes.
pub fn render_literal(lit: &Literal) -> (r: String)
    ensures
        r@ == literal_text(lit@),
{
    match lit {
        Literal::Int(n) => i64_text(*n),
        Literal::Text(s) => join3("'", s.as_str(), "'"),
        Literal::Null => "NULL".to_string(),
    }
}

/// The sign of a comparison.
pub open spec fn compare_op_text(op: CompareOp) -> Seq<char> {
    match op {
        CompareOp::Eq => "="@,
        CompareOp::NotEq => "!="@,
        CompareOp::Lt => "<"@,
        CompareOp::LtEq => "<="@,
        CompareOp::Gt => ">"@,
        CompareOp::GtEq => ">="@,
    }
}

/// The sign of a comparison.
pub fn render_compare_op(op: CompareOp) -> (r: &'static str)
    ensures
        r@ == compare_op_text(op),
{
    match op {
        CompareOp::Eq => "=",
        CompareOp::NotEq => "!=",
        CompareOp::Lt => "<",
        CompareOp::LtEq => "<=",
        CompareOp::Gt => ">",
        CompareOp::GtEq => ">=",
    }
}

/// The word of a boolean operator.
pub open spec fn logical_op_text(op: LogicalOp) -> Seq<char> {
    match op {
        LogicalOp::And => "AND"@,
        LogicalOp::Or => "OR"@,
    }
}

/// The word of a boolean operator.
pub fn render_logical_op(op: LogicalOp) -> (r: &'static str)
    ensures
        r@ == logical_op_text(op),
{
    match op {
        LogicalOp::And => "AND",
        LogicalOp::Or => "OR",
    }
}

/// A condition in infix form, e.g. `age > 18`, `a > 1 AND b < 2`.
pub open spec fn expr_text(e: ExprV) -> Seq<char>
    decreases e,
{
    match e {
        ExprV::Column(name) => name,
        ExprV::Literal(v) => literal_text(v),
        ExprV::Compare { left, op, right } => expr_text(*left) + " "@ + compare_op_text(op) + " "@
            + expr_text(*right),
        ExprV::Logical { left, op, right } => expr_text(*left) + " "@ + logical_op_text(op) + " "@
            + expr_text(*right),
    }
}

/// A condition in infix form, e.g. `age > 18`, `a > 1 AND b < 2`.
pub fn render_expr(expr: &Expr) -> (r: String)
    ensures
        r@ == expr_text(expr@),
    decreases expr,
{
    match expr {
        Expr::Column(name) => name.clone(),
        Expr::Literal(lit) => render_literal(lit),
        Expr::Compare { left, op, right } => {
            let l = render_expr(left);
            let r = render_expr(right);
            join5(l.as_str(), " ", render_compare_op(*op), " ", r.as_str())
        },
        Expr::Logical { left, op, right } => {
            let l = render_expr(left);
            let r = render_expr(right);
            join5(l.as_str(), " ", render_logical_op(*op), " ", r.as_str())
        },
    }
}

/// The sign of a comparison in a scan hint.
pub open spec fn scan_compare_text(op: ScanCompare) -> Seq<char> {
    match op {
        ScanCompare::Eq => "="@,
        ScanCompare::NotEq => "!="@,
        ScanCompare::Lt => "<"@,
        ScanCompare::LtEq => "<="@,
        ScanCompare::Gt => ">"@,
        ScanCompare::GtEq => ">="@,
    }
}

/// The sign of a comparison in a scan hint.
pub fn render_scan_compare(op: ScanCompare) -> (r: &'static str)
    ensures
        r@ == scan_compare_text(op),
{
    match op {
        ScanCompare::Eq => "=",
        ScanCompare::NotEq => "!=",
        ScanCompare::Lt => "<",
        ScanCompare::LtEq => "<=",
        ScanCompare::Gt => ">",
        ScanCompare::GtEq => ">=",
    }
}

/// `column <op> value`.
pub open spec fn scan_predicate_text(p: ScanPredicateV) -> Seq<char> {
    p.column + " "@ + scan_compare_text(p.op) + " "@ + decimal(p.value as int)
}

/// `column <op> value`.
pub fn render_scan_predicate(p: &ScanPredicate) -> (r: String)
    ensures
        r@ == scan_predicate_text(p@),
{
    let value = i64_text(p.value);
    join5(p.column.as_str(), " ", render_scan_compare(p.op), " ", value.as_str())
}

/// `column = literal`.
pub open spec fn assignment_text(a: AssignmentV) -> Seq<char> {
    a.column + " = "@ + literal_text(a.value)
}

/// `column = literal`.
pub fn render_assignment(a: &Assignment) -> (r: String)
    ensures
        r@ == assignment_text(a@),
{
    let value = render_literal(&a.value);
    join3(a.column.as_str(), " = ", value.as_str())
}

/// The text of each item, with commas between them.
pub open spec fn list_text<T>(items: Seq<T>, shown: spec_fn(T) -> Seq<char>) -> Seq<char> {
    joined(Seq::new(items.len(), |i: int| shown(items[i])), ", "@)
}

/// Column definitions, with commas between them.
pub open spec fn column_defs_text(columns: Seq<ColumnDefV>) -> Seq<char> {
    list_text(columns, |c: ColumnDefV| column_def_text(c))
}

/// Column definitions, with commas between them.
pub fn render_column_defs(columns: &Vec<ColumnDef>) -> (r: String)
    ensures
        r@ == column_defs_text(column_defs_view(columns@)),
{
    let mut parts: Vec<String> = Vec::new();
    let mut i: usize = 0;
    while i < columns.len()
        invariant
            i <= columns@.len(),
            parts@.len() == i,
            forall|j: int| 0 <= j < i ==> (#[trigger] parts@[j])@ == column_def_text(columns@[j]@),
        decreases columns.len() - i,
    {
        parts.push(render_column_def(&columns[i]));
        i = i + 1;
    }
    proof {
        let shown = |c: ColumnDefV| column_def_text(c);
        let items = column_defs_view(columns@);
        assert(texts(parts@) =~= Seq::new(items.len(), |i: int| shown(items[i])));
    }
    join(&parts, ", ")
}

/// Literals, with commas between them.
pub open spec fn literals_text(values: Seq<ValueV>) -> Seq<char> {
    list_text(values, |v: ValueV| literal_text(v))
}

/// Literals, with commas between them.
pub fn render_literals(values: &Vec<Literal>) -> (r: String)
    ensures
        r@ == literals_text(literals_view(values@)),
{
    let mut parts: Vec<String> = Vec::new();
    let mut i: usize = 0;
    while i < values.len()
        invariant
            i <= values@.len(),
            parts@.len() == i,
            forall|j: int| 0 <= j < i ==> (#[trigger] parts@[j])@ == literal_text(values@[j]@),
        decreases values.len() - i,
    {
        parts.push(render_literal(&values[i]));
        i = i + 1;
    }
    proof {
        let shown = |v: ValueV| literal_text(v);
        let items = literals_view(values@);
        assert(texts(parts@) =~= Seq::new(items.len(), |i: int| shown(items[i])));
    }
    join(&parts, ", ")
}

/// Scan hints, with commas between them.
pub open spec fn scan_predicates_text(predicates: Seq<ScanPredicateV>) -> Seq<char> {
    list_text(predicates, |p: ScanPredicateV| scan_predicate_text(p))
}

/// Scan hints, with commas between them.
pub fn render_scan_predicates(predicates: &Vec<ScanPredicate>) -> (r: String)
    ensures
        r@ == scan_predicates_text(predicates_view(predicates@)),
{
    let mut parts: Vec<String> = Vec::new();
    let mut i: usize = 0;
    while i < predicates.len()
        invariant
            i <= predicates@.len(),
            parts@.len() == i,
            forall|j: int|
                0 <= j < i ==> (#[trigger] parts@[j])@ == scan_predicate_text(predicates@[j]@),
        decreases predicates.len() - i,
    {
        parts.push(render_scan_predicate(&predicates[i]));
        i = i + 1;
    }
    proof {
        let shown = |p: ScanPredicateV| scan_predicate_text(p);
        let items = predicates_view(predicates@);
        assert(texts(parts@) =~= Seq::new(items.len(), |i: int| shown(items[i])));
    }
    join(&parts, ", ")
}

/// Assignments, with commas between them.
pub open spec fn assignments_text(assignments: Seq<AssignmentV>) -> Seq<char> {
    list_text(assignments, |a: AssignmentV| assignment_text(a))
}

/// Assignments, with commas between them.
pub fn render_assignments(assignments: &Vec<Assignment>) -> (r: String)
    ensures
        r@ == assignments_text(assignments_view(assignments@)),
{
    let mut parts: Vec<String> = Vec::new();
    let mut i: usize = 0;
    while i < assignments.len()
        invariant
            i <= assignments@.len(),
            parts@.len() == i,
            forall|j: int|
                0 <= j < i ==> (#[trigger] parts@[j])@ == assignment_text(assignments@[j]@),
        decreases assignments.len() - i,
    {
        parts.push(render_assignment(&assignments[i]));
        i = i + 1;
    }
    proof {
        let shown = |a: AssignmentV| assignment_text(a);
        let items = assignments_view(assignments@);
        assert(texts(parts@) =~= Seq::new(items.len(), |i: int| shown(items[i])));
    }
    join(&parts, ", ")
}

/// ` [text]` for a condition that is there, nothing for none.
pub open spec fn bracketed_filter(filter: Option<ExprV>) -> Seq<char> {
    match filter {
        None => ""@,
        Some(e) => " ["@ + expr_text(e) + "]"@,
    }
}

/// ` [text]` for a condition that is there, nothing for none.
pub fn render_bracketed_filter(filter: &Option<Expr>) -> (r: String)
    ensures
        r@ == bracketed_filter(crate::parser::ast::filter_view(*filter)),
{
    match filter {
        None => "".to_string(),
        Some(e) => {
            let text = render_expr(e);
            join3(" [", text.as_str(), "]")
        },
    }
}

/// ` WHERE text` for a condition that is there, nothing for none.
pub open spec fn where_filter(filter: Option<ExprV>) -> Seq<char> {
    match filter {
        None => ""@,
        Some(e) => " WHERE "@ + expr_text(e),
    }
}

/// ` WHERE text` for a condition that is there, nothing for none.
pub fn render_where_filter(filter: &Option<Expr>) -> (r: String)
    ensures
        r@ == where_filter(crate::parser::ast::filter_view(*filter)),
{
    match filter {
        None => "".to_string(),
        Some(e) => {
            let text = render_expr(e);
            crate::text::join2(" WHERE ", text.as_str())
        },
    }
}

/// ` DESC` for a descending order.
pub open spec fn direction_text(descending: bool) -> Seq<char> {
    if descending {
        " DESC"@
    } else {
        ""@
    }
}

/// ` DESC` for a descending order.
pub fn render_direction(descending: bool) -> (r: &'static str)
    ensures
        r@ == direction_text(descending),
{
    if descending {
        " DESC"
    } else {
        ""
    }
}

} // verus!
