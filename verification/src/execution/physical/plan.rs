//! The physical plan: a tree of operators (the `...Exec` nodes) that says how a
//! query runs against storage. Its text is the indented operator tree,
//! outermost first:
//!
//! ```text
//! ProjectionExec [id, name]
//!   LimitExec 10
//!     SortExec [name]
//!       FilterExec [age > 18]
//!         TableScanExec users
//! ```

use vstd::prelude::*;

use crate::execution::logical::plan::{
    clone_columns_list, columns_list_text, columns_list_view, render_columns_list,
};
use crate::execution::render::{
    assignments_text, bracketed_filter, column_defs_text, direction_text, expr_text,
    literals_text, render_assignments, render_bracketed_filter, render_column_defs,
    render_direction, render_expr, render_literals, render_scan_predicates, render_where_filter,
    scan_predicates_text, where_filter,
};
use crate::parser::ast::{
    assignments_view, clone_assignments, clone_column_defs, clone_filter, clone_literals,
    column_defs_view, filter_view, literals_view, Assignment, AssignmentV, ColumnDef, ColumnDefV,
    Expr, ExprV, Literal,
};
use crate::storage::{
    clone_predicates, predicates_view, ScanPredicate, ScanPredicateV, ValueV,
};
use crate::text::{clone_texts, decimal, join, join2, join3, join4, join5, joined, texts, u64_text};

verus! {

/// A node of the physical plan. Statements that change data or read the catalog
/// are roots of their own; the relational operators nest, with a
/// `TableScanExec` at the leaf, and each gives a stream of column-major batches.
#[allow(inconsistent_fields)]
#[derive(Debug, PartialEq)]
pub enum PhysicalPlan {
    CreateTableExec { table: String, columns: Vec<ColumnDef> },
    InsertExec { table: String, values: Vec<Literal> },
    DropTableExec { table: String },
    ShowTablesExec,
    DescribeExec { table: String, extended: bool },
    DeleteExec { table: String, filter: Option<Expr> },
    UpdateExec { table: String, assignments: Vec<Assignment>, filter: Option<Expr> },
    /// `projection` are the columns to decode, in output order; `None` means
    /// every column in schema order. `prune` are hints by which the scan can
    /// skip whole row groups; any conjunctive subset will do.
    TableScanExec { table: String, projection: Option<Vec<String>>, prune: Vec<ScanPredicate> },
    FilterExec { predicate: Expr, input: Box<PhysicalPlan> },
    ProjectionExec { columns: Vec<String>, input: Box<PhysicalPlan> },
    SortExec { column: String, descending: bool, input: Box<PhysicalPlan> },
    LimitExec { count: u64, input: Box<PhysicalPlan> },
    /// Order by a column and keep the first `count` rows.
    TopKExec { column: String, descending: bool, count: u64, input: Box<PhysicalPlan> },
}

/// The view of a [`PhysicalPlan`].
#[allow(inconsistent_fields)]
pub enum PhysicalPlanV {
    CreateTableExec { table: Seq<char>, columns: Seq<ColumnDefV> },
    InsertExec { table: Seq<char>, values: Seq<ValueV> },
    DropTableExec { table: Seq<char> },
    ShowTablesExec,
    DescribeExec { table: Seq<char>, extended: bool },
    DeleteExec { table: Seq<char>, filter: Option<ExprV> },
    UpdateExec { table: Seq<char>, assignments: Seq<AssignmentV>, filter: Option<ExprV> },
    TableScanExec {
        table: Seq<char>,
        projection: Option<Seq<Seq<char>>>,
        prune: Seq<ScanPredicateV>,
    },
    FilterExec { predicate: ExprV, input: Box<PhysicalPlanV> },
    ProjectionExec { columns: Seq<Seq<char>>, input: Box<PhysicalPlanV> },
    SortExec { column: Seq<char>, descending: bool, input: Box<PhysicalPlanV> },
    LimitExec { count: u64, input: Box<PhysicalPlanV> },
    TopKExec { column: Seq<char>, descending: bool, count: u64, input: Box<PhysicalPlanV> },
}

/// The view of a plan, node by node.
pub open spec fn physical_view(plan: PhysicalPlan) -> PhysicalPlanV
    decreases plan,
{
    match plan {
        PhysicalPlan::CreateTableExec { table, columns } => PhysicalPlanV::CreateTableExec {
            table: table@,
            columns: column_defs_view(columns@),
        },
        PhysicalPlan::InsertExec { table, values } => PhysicalPlanV::InsertExec {
            table: table@,
            values: literals_view(values@),
        },
        PhysicalPlan::DropTableExec { table } => PhysicalPlanV::DropTableExec { table: table@ },
        PhysicalPlan::ShowTablesExec => PhysicalPlanV::ShowTablesExec,
        PhysicalPlan::DescribeExec { table, extended } => PhysicalPlanV::DescribeExec {
            table: table@,
            extended,
        },
        PhysicalPlan::DeleteExec { table, filter } => PhysicalPlanV::DeleteExec {
            table: table@,
            filter: filter_view(filter),
        },
        PhysicalPlan::UpdateExec { table, assignments, filter } => PhysicalPlanV::UpdateExec {
            table: table@,
            assignments: assignments_view(assignments@),
            filter: filter_view(filter),
        },
        PhysicalPlan::TableScanExec { table, projection, prune } => PhysicalPlanV::TableScanExec {
            table: table@,
            projection: columns_list_view(projection),
            prune: predicates_view(prune@),
        },
        PhysicalPlan::FilterExec { predicate, input } => PhysicalPlanV::FilterExec {
            predicate: predicate@,
            input: Box::new(physical_view(*input)),
        },
        PhysicalPlan::ProjectionExec { columns, input } => PhysicalPlanV::ProjectionExec {
            columns: texts(columns@),
            input: Box::new(physical_view(*input)),
        },
        PhysicalPlan::SortExec { column, descending, input } => PhysicalPlanV::SortExec {
            column: column@,
            descending,
            input: Box::new(physical_view(*input)),
        },
        PhysicalPlan::LimitExec { count, input } => PhysicalPlanV::LimitExec {
            count,
            input: Box::new(physical_view(*input)),
        },
        PhysicalPlan::TopKExec { column, descending, count, input } => PhysicalPlanV::TopKExec {
            column: column@,
            descending,
            count,
            input: Box::new(physical_view(*input)),
        },
    }
}

impl View for PhysicalPlan {
    type V = PhysicalPlanV;

    open spec fn view(&self) -> PhysicalPlanV {
        physical_view(*self)
    }
}

impl Clone for PhysicalPlan {
    fn clone(&self) -> (r: Self)
        ensures
            r@ == self@,
        decreases self,
    {
        match self {
            PhysicalPlan::CreateTableExec { table, columns } => PhysicalPlan::CreateTableExec {
                table: table.clone(),
                columns: clone_column_defs(columns),
            },
            PhysicalPlan::InsertExec { table, values } => PhysicalPlan::InsertExec {
                table: table.clone(),
                values: clone_literals(values),
            },
            PhysicalPlan::DropTableExec { table } => PhysicalPlan::DropTableExec { table: table.clone() },
            PhysicalPlan::ShowTablesExec => PhysicalPlan::ShowTablesExec,
            PhysicalPlan::DescribeExec { table, extended } => PhysicalPlan::DescribeExec {
                table: table.clone(),
                extended: *extended,
            },
            PhysicalPlan::DeleteExec { table, filter } => PhysicalPlan::DeleteExec {
                table: table.clone(),
                filter: clone_filter(filter),
            },
            PhysicalPlan::UpdateExec { table, assignments, filter } => PhysicalPlan::UpdateExec {
                table: table.clone(),
                assignments: clone_assignments(assignments),
                filter: clone_filter(filter),
            },
            PhysicalPlan::TableScanExec { table, projection, prune } => {
                PhysicalPlan::TableScanExec {
                    table: table.clone(),
                    projection: clone_columns_list(projection),
                    prune: clone_predicates(prune),
                }
            },
            PhysicalPlan::FilterExec { predicate, input } => PhysicalPlan::FilterExec {
                predicate: predicate.clone(),
                input: Box::new((&**input).clone()),
            },
            PhysicalPlan::ProjectionExec { columns, input } => PhysicalPlan::ProjectionExec {
                columns: clone_texts(columns),
                input: Box::new((&**input).clone()),
            },
            PhysicalPlan::SortExec { column, descending, input } => PhysicalPlan::SortExec {
                column: column.clone(),
                descending: *descending,
                input: Box::new((&**input).clone()),
            },
            PhysicalPlan::LimitExec { count, input } => PhysicalPlan::LimitExec {
                count: *count,
                input: Box::new((&**input).clone()),
            },
            PhysicalPlan::TopKExec { column, descending, count, input } => PhysicalPlan::TopKExec {
                column: column.clone(),
                descending: *descending,
                count: *count,
                input: Box::new((&**input).clone()),
            },
        }
    }
}

/// ` prune=[hints]` where there are hints, nothing for none.
pub open spec fn prune_text(prune: Seq<ScanPredicateV>) -> Seq<char> {
    if prune.len() == 0 {
        ""@
    } else {
        " prune=["@ + scan_predicates_text(prune) + "]"@
    }
}

impl PhysicalPlanV {
    /// The line of this node, without its indentation.
    pub open spec fn line(self) -> Seq<char> {
        match self {
            PhysicalPlanV::CreateTableExec { table, columns } => "CreateTableExec "@ + table + " ["@
                + column_defs_text(columns) + "]"@,
            PhysicalPlanV::InsertExec { table, values } => "InsertExec "@ + table + " ["@ + literals_text(
                values,
            ) + "]"@,
            PhysicalPlanV::DropTableExec { table } => "DropTableExec "@ + table,
            PhysicalPlanV::ShowTablesExec => "ShowTablesExec"@,
            PhysicalPlanV::DescribeExec { table, extended } => "DescribeExec "@ + table + if extended {
                " EXTENDED"@
            } else {
                ""@
            },
            PhysicalPlanV::DeleteExec { table, filter } => "DeleteExec "@ + table + bracketed_filter(filter),
            PhysicalPlanV::UpdateExec { table, assignments, filter } => "UpdateExec "@ + table + " ["@
                + assignments_text(assignments) + ("]"@ + where_filter(filter)),
            PhysicalPlanV::TableScanExec { table, projection, prune } => "TableScanExec "@ + table
                + columns_list_text(projection) + prune_text(prune),
            PhysicalPlanV::FilterExec { predicate, .. } => "FilterExec ["@ + expr_text(predicate) + "]"@,
            PhysicalPlanV::ProjectionExec { columns, .. } => "ProjectionExec ["@ + joined(columns, ", "@)
                + "]"@,
            PhysicalPlanV::SortExec { column, descending, .. } => "SortExec ["@ + column + direction_text(
                descending,
            ) + "]"@,
            PhysicalPlanV::LimitExec { count, .. } => "LimitExec "@ + decimal(count as int),
            PhysicalPlanV::TopKExec { column, descending, count, .. } => "TopKExec ["@ + column
                + direction_text(descending) + "] "@ + decimal(count as int),
        }
    }

    /// The operator that this one reads from.
    pub open spec fn input(self) -> Option<PhysicalPlanV> {
        match self {
            PhysicalPlanV::FilterExec { input, .. } => Some(*input),
            PhysicalPlanV::ProjectionExec { input, .. } => Some(*input),
            PhysicalPlanV::SortExec { input, .. } => Some(*input),
            PhysicalPlanV::LimitExec { input, .. } => Some(*input),
            PhysicalPlanV::TopKExec { input, .. } => Some(*input),
            _ => None,
        }
    }

    /// The tree: this node's line behind `pad`, then its input two spaces
    /// further in.
    pub open spec fn text(self, pad: Seq<char>) -> Seq<char>
        decreases self,
    {
        match self.input() {
            None => pad + self.line(),
            Some(input) => pad + self.line() + "\n"@ + input.text(pad + "  "@),
        }
    }
}

impl PhysicalPlan {
    /// The line of this node, without its indentation.
    fn line(&self) -> (r: String)
        ensures
            r@ == self@.line(),
    {
        match self {
            PhysicalPlan::CreateTableExec { table, columns } => {
                let cols = render_column_defs(columns);
                join5("CreateTableExec ", table.as_str(), " [", cols.as_str(), "]")
            },
            PhysicalPlan::InsertExec { table, values } => {
                let vals = render_literals(values);
                join5("InsertExec ", table.as_str(), " [", vals.as_str(), "]")
            },
            PhysicalPlan::DropTableExec { table } => join2("DropTableExec ", table.as_str()),
            PhysicalPlan::ShowTablesExec => "ShowTablesExec".to_string(),
            PhysicalPlan::DescribeExec { table, extended } => {
                let suffix = if *extended {
                    " EXTENDED"
                } else {
                    ""
                };
                join3("DescribeExec ", table.as_str(), suffix)
            },
            PhysicalPlan::DeleteExec { table, filter } => {
                let suffix = render_bracketed_filter(filter);
                join3("DeleteExec ", table.as_str(), suffix.as_str())
            },
            PhysicalPlan::UpdateExec { table, assignments, filter } => {
                let sets = render_assignments(assignments);
                let suffix = render_where_filter(filter);
                let tail = join2("]", suffix.as_str());
                join5("UpdateExec ", table.as_str(), " [", sets.as_str(), tail.as_str())
            },
            PhysicalPlan::TableScanExec { table, projection, prune } => {
                let cols = render_columns_list(projection);
                let hints = if prune.len() == 0 {
                    "".to_string()
                } else {
                    let list = render_scan_predicates(prune);
                    join3(" prune=[", list.as_str(), "]")
                };
                join4("TableScanExec ", table.as_str(), cols.as_str(), hints.as_str())
            },
            PhysicalPlan::FilterExec { predicate, input: _ } => {
                let text = render_expr(predicate);
                join3("FilterExec [", text.as_str(), "]")
            },
            PhysicalPlan::ProjectionExec { columns, input: _ } => {
                let list = join(columns, ", ");
                join3("ProjectionExec [", list.as_str(), "]")
            },
            PhysicalPlan::SortExec { column, descending, input: _ } => join4(
                "SortExec [",
                column.as_str(),
                render_direction(*descending),
                "]",
            ),
            PhysicalPlan::LimitExec { count, input: _ } => {
                let n = u64_text(*count);
                join2("LimitExec ", n.as_str())
            },
            PhysicalPlan::TopKExec { column, descending, count, input: _ } => {
                let n = u64_text(*count);
                join5("TopKExec [", column.as_str(), render_direction(*descending), "] ", n.as_str())
            },
        }
    }

    /// This node's line behind `pad`, then its input two spaces further in. No
    /// newline at the end.
    fn fmt_indented(&self, pad: &str) -> (r: String)
        ensures
            r@ == self@.text(pad@),
        decreases self,
    {
        let line = self.line();
        let deeper = join2(pad, "  ");
        match self {
            PhysicalPlan::FilterExec { predicate: _, input } => {
                let below = input.fmt_indented(deeper.as_str());
                join4(pad, line.as_str(), "\n", below.as_str())
            },
            PhysicalPlan::ProjectionExec { columns: _, input } => {
                let below = input.fmt_indented(deeper.as_str());
                join4(pad, line.as_str(), "\n", below.as_str())
            },
            PhysicalPlan::SortExec { column: _, descending: _, input } => {
                let below = input.fmt_indented(deeper.as_str());
                join4(pad, line.as_str(), "\n", below.as_str())
            },
            PhysicalPlan::LimitExec { count: _, input } => {
                let below = input.fmt_indented(deeper.as_str());
                join4(pad, line.as_str(), "\n", below.as_str())
            },
            PhysicalPlan::TopKExec { column: _, descending: _, count: _, input } => {
                let below = input.fmt_indented(deeper.as_str());
                join4(pad, line.as_str(), "\n", below.as_str())
            },
            _ => join2(pad, line.as_str()),
        }
    }

    /// The indented operator tree, outermost first.
    pub fn to_string(&self) -> (r: String)
        ensures
            r@ == self@.text(Seq::empty()),
    {
        proof {
            reveal_strlit("");
            assert(""@ =~= Seq::<char>::empty());
        }
        self.fmt_indented("")
    }
}

} // verus!
