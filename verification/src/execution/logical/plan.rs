//! The logical plan: a tree of operators that says what a query does. Its text
//! is the indented operator tree, outermost first:
//!
//! ```text
//! Projection [id, name]
//!   Limit 10
//!     Filter [age > 18]
//!       Scan users
//! ```

use vstd::prelude::*;

use crate::execution::render::{
    assignments_text, bracketed_filter, column_defs_text, direction_text, expr_text,
    literals_text, render_assignments, render_bracketed_filter, render_column_defs,
    render_direction, render_expr, render_literals, render_where_filter, where_filter,
};
use crate::parser::ast::{
    assignments_view, clone_assignments, clone_column_defs, clone_filter, clone_literals,
    column_defs_view, filter_view, literals_view, Assignment, AssignmentV, ColumnDef, ColumnDefV,
    Expr, ExprV, Literal,
};
use crate::storage::ValueV;
use crate::text::{clone_texts, decimal, join, join2, join3, join4, join5, joined, texts, u64_text};

verus! {

/// A node of the logical plan. Statements that change data or read the catalog
/// are roots of their own; the relational operators nest, with a `Scan` at the
/// leaf.
#[allow(inconsistent_fields)]
#[derive(Debug, PartialEq)]
pub enum LogicalPlan {
    CreateTable { table: String, columns: Vec<ColumnDef> },
    Insert { table: String, values: Vec<Literal> },
    DropTable { table: String },
    ShowTables,
    Describe { table: String, extended: bool },
    Delete { table: String, filter: Option<Expr> },
    Update { table: String, assignments: Vec<Assignment>, filter: Option<Expr> },
    /// `columns` are the columns that the scan must produce; `None` means all.
    Scan { table: String, columns: Option<Vec<String>> },
    Filter { predicate: Expr, input: Box<LogicalPlan> },
    Projection { columns: Vec<String>, input: Box<LogicalPlan> },
    Sort { column: String, descending: bool, input: Box<LogicalPlan> },
    Limit { count: u64, input: Box<LogicalPlan> },
    /// Order by a column and keep the first `count` rows.
    TopK { column: String, descending: bool, count: u64, input: Box<LogicalPlan> },
}

/// The view of a [`LogicalPlan`].
#[allow(inconsistent_fields)]
pub enum LogicalPlanV {
    CreateTable { table: Seq<char>, columns: Seq<ColumnDefV> },
    Insert { table: Seq<char>, values: Seq<ValueV> },
    DropTable { table: Seq<char> },
    ShowTables,
    Describe { table: Seq<char>, extended: bool },
    Delete { table: Seq<char>, filter: Option<ExprV> },
    Update { table: Seq<char>, assignments: Seq<AssignmentV>, filter: Option<ExprV> },
    Scan { table: Seq<char>, columns: Option<Seq<Seq<char>>> },
    Filter { predicate: ExprV, input: Box<LogicalPlanV> },
    Projection { columns: Seq<Seq<char>>, input: Box<LogicalPlanV> },
    Sort { column: Seq<char>, descending: bool, input: Box<LogicalPlanV> },
    Limit { count: u64, input: Box<LogicalPlanV> },
    TopK { column: Seq<char>, descending: bool, count: u64, input: Box<LogicalPlanV> },
}

/// The view of an optional column list.
pub open spec fn columns_list_view(columns: Option<Vec<String>>) -> Option<Seq<Seq<char>>> {
    match columns {
        None => None,
        Some(names) => Some(texts(names@)),
    }
}

/// A copy of an optional column list.
pub fn clone_columns_list(columns: &Option<Vec<String>>) -> (r: Option<Vec<String>>)
    ensures
        columns_list_view(r) == columns_list_view(*columns),
{
    match columns {
        None => None,
        Some(names) => Some(clone_texts(names)),
    }
}

/// The view of a plan, node by node.
pub open spec fn plan_view(plan: LogicalPlan) -> LogicalPlanV
    decreases plan,
{
    match plan {
        LogicalPlan::CreateTable { table, columns } => LogicalPlanV::CreateTable {
            table: table@,
            columns: column_defs_view(columns@),
        },
        LogicalPlan::Insert { table, values } => LogicalPlanV::Insert {
            table: table@,
            values: literals_view(values@),
        },
        LogicalPlan::DropTable { table } => LogicalPlanV::DropTable { table: table@ },
        LogicalPlan::ShowTables => LogicalPlanV::ShowTables,
        LogicalPlan::Describe { table, extended } => LogicalPlanV::Describe {
            table: table@,
            extended,
        },
        LogicalPlan::Delete { table, filter } => LogicalPlanV::Delete {
            table: table@,
            filter: filter_view(filter),
        },
        LogicalPlan::Update { table, assignments, filter } => LogicalPlanV::Update {
            table: table@,
            assignments: assignments_view(assignments@),
            filter: filter_view(filter),
        },
        LogicalPlan::Scan { table, columns } => LogicalPlanV::Scan {
            table: table@,
            columns: columns_list_view(columns),
        },
        LogicalPlan::Filter { predicate, input } => LogicalPlanV::Filter {
            predicate: predicate@,
            input: Box::new(plan_view(*input)),
        },
        LogicalPlan::Projection { columns, input } => LogicalPlanV::Projection {
            columns: texts(columns@),
            input: Box::new(plan_view(*input)),
        },
        LogicalPlan::Sort { column, descending, input } => LogicalPlanV::Sort {
            column: column@,
            descending,
            input: Box::new(plan_view(*input)),
        },
        LogicalPlan::Limit { count, input } => LogicalPlanV::Limit {
            count,
            input: Box::new(plan_view(*input)),
        },
        LogicalPlan::TopK { column, descending, count, input } => LogicalPlanV::TopK {
            column: column@,
            descending,
            count,
            input: Box::new(plan_view(*input)),
        },
    }
}

impl View for LogicalPlan {
    type V = LogicalPlanV;

    open spec fn view(&self) -> LogicalPlanV {
        plan_view(*self)
    }
}

impl Clone for LogicalPlan {
    fn clone(&self) -> (r: Self)
        ensures
            r@ == self@,
        decreases self,
    {
        match self {
            LogicalPlan::CreateTable { table, columns } => LogicalPlan::CreateTable {
                table: table.clone(),
                columns: clone_column_defs(columns),
            },
            LogicalPlan::Insert { table, values } => LogicalPlan::Insert {
                table: table.clone(),
                values: clone_literals(values),
            },
            LogicalPlan::DropTable { table } => LogicalPlan::DropTable { table: table.clone() },
            LogicalPlan::ShowTables => LogicalPlan::ShowTables,
            LogicalPlan::Describe { table, extended } => LogicalPlan::Describe {
                table: table.clone(),
                extended: *extended,
            },
            LogicalPlan::Delete { table, filter } => LogicalPlan::Delete {
                table: table.clone(),
                filter: clone_filter(filter),
            },
            LogicalPlan::Update { table, assignments, filter } => LogicalPlan::Update {
                table: table.clone(),
                assignments: clone_assignments(assignments),
                filter: clone_filter(filter),
            },
            LogicalPlan::Scan { table, columns } => LogicalPlan::Scan {
                table: table.clone(),
                columns: clone_columns_list(columns),
            },
            LogicalPlan::Filter { predicate, input } => LogicalPlan::Filter {
                predicate: predicate.clone(),
                input: Box::new((&**input).clone()),
            },
            LogicalPlan::Projection { columns, input } => LogicalPlan::Projection {
                columns: clone_texts(columns),
                input: Box::new((&**input).clone()),
            },
            LogicalPlan::Sort { column, descending, input } => LogicalPlan::Sort {
                column: column.clone(),
                descending: *descending,
                input: Box::new((&**input).clone()),
            },
            LogicalPlan::Limit { count, input } => LogicalPlan::Limit {
                count: *count,
                input: Box::new((&**input).clone()),
            },
            LogicalPlan::TopK { column, descending, count, input } => LogicalPlan::TopK {
                column: column.clone(),
                descending: *descending,
                count: *count,
                input: Box::new((&**input).clone()),
            },
        }
    }
}

/// ` [a, b]` for a column list that is there, nothing for none.
pub open spec fn columns_list_text(columns: Option<Seq<Seq<char>>>) -> Seq<char> {
    match columns {
        None => ""@,
        Some(names) => " ["@ + joined(names, ", "@) + "]"@,
    }
}

/// ` [a, b]` for a column list that is there, nothing for none.
pub fn render_columns_list(columns: &Option<Vec<String>>) -> (r: String)
    ensures
        r@ == columns_list_text(columns_list_view(*columns)),
{
    match columns {
        None => "".to_string(),
        Some(names) => {
            let list = join(names, ", ");
            join3(" [", list.as_str(), "]")
        },
    }
}

impl LogicalPlanV {
    /// The line of this node, without its indentation.
    pub open spec fn line(self) -> Seq<char> {
        match self {
            LogicalPlanV::CreateTable { table, columns } => "CreateTable "@ + table + " ["@
                + column_defs_text(columns) + "]"@,
            LogicalPlanV::Insert { table, values } => "Insert "@ + table + " ["@ + literals_text(
                values,
            ) + "]"@,
            LogicalPlanV::DropTable { table } => "DropTable "@ + table,
            LogicalPlanV::ShowTables => "ShowTables"@,
            LogicalPlanV::Describe { table, extended } => "Describe "@ + table + if extended {
                " EXTENDED"@
            } else {
                ""@
            },
            LogicalPlanV::Delete { table, filter } => "Delete "@ + table + bracketed_filter(filter),
            LogicalPlanV::Update { table, assignments, filter } => "Update "@ + table + " ["@
                + assignments_text(assignments) + ("]"@ + where_filter(filter)),
            LogicalPlanV::Scan { table, columns } => "Scan "@ + table + columns_list_text(columns),
            LogicalPlanV::Filter { predicate, .. } => "Filter ["@ + expr_text(predicate) + "]"@,
            LogicalPlanV::Projection { columns, .. } => "Projection ["@ + joined(columns, ", "@)
                + "]"@,
            LogicalPlanV::Sort { column, descending, .. } => "Sort ["@ + column + direction_text(
                descending,
            ) + "]"@,
            LogicalPlanV::Limit { count, .. } => "Limit "@ + decimal(count as int),
            LogicalPlanV::TopK { column, descending, count, .. } => "TopK ["@ + column
                + direction_text(descending) + "] "@ + decimal(count as int),
        }
    }

    /// The operator that this one reads from.
    pub open spec fn input(self) -> Option<LogicalPlanV> {
        match self {
            LogicalPlanV::Filter { input, .. } => Some(*input),
            LogicalPlanV::Projection { input, .. } => Some(*input),
            LogicalPlanV::Sort { input, .. } => Some(*input),
            LogicalPlanV::Limit { input, .. } => Some(*input),
            LogicalPlanV::TopK { input, .. } => Some(*input),
            _ => None,
        }
    }

    /// The tree: this node's line behind `pad`, then its input two spaces
    /// further in.
    pub open spec fn text(self, pad: Seq<char>) -> Seq<char>
        decreases self,
    {
        match self.input() {
            None => pad + self.line(),
            Some(input) => pad + self.line() + "\n"@ + input.text(pad + "  "@),
        }
    }
}

impl LogicalPlan {
    /// The line of this node, without its indentation.
    fn line(&self) -> (r: String)
        ensures
            r@ == self@.line(),
    {
        match self {
            LogicalPlan::CreateTable { table, columns } => {
                let cols = render_column_defs(columns);
                join5("CreateTable ", table.as_str(), " [", cols.as_str(), "]")
            },
            LogicalPlan::Insert { table, values } => {
                let vals = render_literals(values);
                join5("Insert ", table.as_str(), " [", vals.as_str(), "]")
            },
            LogicalPlan::DropTable { table } => join2("DropTable ", table.as_str()),
            LogicalPlan::ShowTables => "ShowTables".to_string(),
            LogicalPlan::Describe { table, extended } => {
                let suffix = if *extended {
                    " EXTENDED"
                } else {
                    ""
                };
                join3("Describe ", table.as_str(), suffix)
            },
            LogicalPlan::Delete { table, filter } => {
                let suffix = render_bracketed_filter(filter);
                join3("Delete ", table.as_str(), suffix.as_str())
            },
            LogicalPlan::Update { table, assignments, filter } => {
                let sets = render_assignments(assignments);
                let suffix = render_where_filter(filter);
                let tail = join2("]", suffix.as_str());
                join5("Update ", table.as_str(), " [", sets.as_str(), tail.as_str())
            },
            LogicalPlan::Scan { table, columns } => {
                let suffix = render_columns_list(columns);
                join3("Scan ", table.as_str(), suffix.as_str())
            },
            LogicalPlan::Filter { predicate, input: _ } => {
                let text = render_expr(predicate);
                join3("Filter [", text.as_str(), "]")
            },
            LogicalPlan::Projection { columns, input: _ } => {
                let list = join(columns, ", ");
                join3("Projection [", list.as_str(), "]")
            },
            LogicalPlan::Sort { column, descending, input: _ } => join4(
                "Sort [",
                column.as_str(),
                render_direction(*descending),
                "]",
            ),
            LogicalPlan::Limit { count, input: _ } => {
                let n = u64_text(*count);
                join2("Limit ", n.as_str())
            },
            LogicalPlan::TopK { column, descending, count, input: _ } => {
                let n = u64_text(*count);
                join5("TopK [", column.as_str(), render_direction(*descending), "] ", n.as_str())
            },
        }
    }

    /// This node's line behind `pad`, then its input two spaces further in. No
    /// newline at the end.
    fn fmt_indented(&self, pad: &str) -> (r: String)
        ensures
            r@ == self@.text(pad@),
        decreases self,
    {
        let line = self.line();
        let deeper = join2(pad, "  ");
        match self {
            LogicalPlan::Filter { predicate: _, input } => {
                let below = input.fmt_indented(deeper.as_str());
                join4(pad, line.as_str(), "\n", below.as_str())
            },
            LogicalPlan::Projection { columns: _, input } => {
                let below = input.fmt_indented(deeper.as_str());
                join4(pad, line.as_str(), "\n", below.as_str())
            },
            LogicalPlan::Sort { column: _, descending: _, input } => {
                let below = input.fmt_indented(deeper.as_str());
                join4(pad, line.as_str(), "\n", below.as_str())
            },
            LogicalPlan::Limit { count: _, input } => {
                let below = input.fmt_indented(deeper.as_str());
                join4(pad, line.as_str(), "\n", below.as_str())
            },
            LogicalPlan::TopK { column: _, descending: _, count: _, input } => {
                let below = input.fmt_indented(deeper.as_str());
                join4(pad, line.as_str(), "\n", below.as_str())
            },
            _ => join2(pad, line.as_str()),
        }
    }

    /// The indented operator tree, outermost first.
    pub fn to_string(&self) -> (r: String)
        ensures
            r@ == self@.text(Seq::empty()),
    {
        proof {
            reveal_strlit("");
            assert(""@ =~= Seq::<char>::empty());
        }
        self.fmt_indented("")
    }
}

} // verus!
