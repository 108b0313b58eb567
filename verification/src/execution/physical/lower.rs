//! Lowering: logical plan to physical plan.
//!
//! Each logical node maps to its physical operator. On the way down, the
//! condition of a filter is mined for row-group pruning hints, which go onto
//! the scan beneath it, and the column list of a scan becomes its projection.

use vstd::prelude::*;

use crate::execution::logical::plan::{clone_columns_list, LogicalPlan, LogicalPlanV};
use crate::execution::physical::plan::{PhysicalPlan, PhysicalPlanV};
use crate::execution::physical::prune::{extract_scan_predicates, hints};
use crate::parser::ast::{clone_assignments, clone_column_defs, clone_filter, clone_literals};
use crate::storage::{clone_predicates, predicates_view, ScanPredicate, ScanPredicateV};
use crate::text::clone_texts;

verus! {

/// The physical plan of a logical plan under a filter with hints `prune`.
pub open spec fn lowered_under(plan: LogicalPlanV, prune: Seq<ScanPredicateV>) -> PhysicalPlanV
    decreases plan,
{
    match plan {
        LogicalPlanV::CreateTable { table, columns } => PhysicalPlanV::CreateTableExec {
            table,
            columns,
        },
        LogicalPlanV::Insert { table, values } => PhysicalPlanV::InsertExec { table, values },
        LogicalPlanV::DropTable { table } => PhysicalPlanV::DropTableExec { table },
        LogicalPlanV::ShowTables => PhysicalPlanV::ShowTablesExec,
        LogicalPlanV::Describe { table, extended } => PhysicalPlanV::DescribeExec {
            table,
            extended,
        },
        LogicalPlanV::Delete { table, filter } => PhysicalPlanV::DeleteExec { table, filter },
        LogicalPlanV::Update { table, assignments, filter } => PhysicalPlanV::UpdateExec {
            table,
            assignments,
            filter,
        },
        LogicalPlanV::Scan { table, columns } => PhysicalPlanV::TableScanExec {
            table,
            projection: columns,
            prune,
        },
        LogicalPlanV::Filter { predicate, input } => PhysicalPlanV::FilterExec {
            predicate,
            input: Box::new(lowered_under(*input, hints(predicate))),
        },
        LogicalPlanV::Projection { columns, input } => PhysicalPlanV::ProjectionExec {
            columns,
            input: Box::new(lowered_under(*input, prune)),
        },
        LogicalPlanV::Sort { column, descending, input } => PhysicalPlanV::SortExec {
            column,
            descending,
            input: Box::new(lowered_under(*input, prune)),
        },
        LogicalPlanV::Limit { count, input } => PhysicalPlanV::LimitExec {
            count,
            input: Box::new(lowered_under(*input, prune)),
        },
        LogicalPlanV::TopK { column, descending, count, input } => PhysicalPlanV::TopKExec {
            column,
            descending,
            count,
            input: Box::new(lowered_under(*input, prune)),
        },
    }
}

/// The physical plan of a logical plan.
pub open spec fn lowered(plan: LogicalPlanV) -> PhysicalPlanV {
    lowered_under(plan, Seq::empty())
}

/// Lower a logical plan into a physical plan.
pub fn lower(plan: &LogicalPlan) -> (r: PhysicalPlan)
    ensures
        r@ == lowered(plan@),
{
    let none: Vec<ScanPredicate> = Vec::new();
    assert(predicates_view(none@) =~= Seq::empty());
    lower_node(plan, &none)
}

/// `prune` carries the hints of an enclosing filter down to the scan beneath
/// it; it is empty everywhere else.
fn lower_node(plan: &LogicalPlan, prune: &Vec<ScanPredicate>) -> (r: PhysicalPlan)
    ensures
        r@ == lowered_under(plan@, predicates_view(prune@)),
    decreases plan,
{
    match plan {
        LogicalPlan::CreateTable { table, columns } => PhysicalPlan::CreateTableExec {
            table: table.clone(),
            columns: clone_column_defs(columns),
        },
        LogicalPlan::Insert { table, values } => PhysicalPlan::InsertExec {
            table: table.clone(),
            values: clone_literals(values),
        },
        LogicalPlan::DropTable { table } => PhysicalPlan::DropTableExec { table: table.clone() },
        LogicalPlan::ShowTables => PhysicalPlan::ShowTablesExec,
        LogicalPlan::Describe { table, extended } => PhysicalPlan::DescribeExec {
            table: table.clone(),
            extended: *extended,
        },
        LogicalPlan::Delete { table, filter } => PhysicalPlan::DeleteExec {
            table: table.clone(),
            filter: clone_filter(filter),
        },
        LogicalPlan::Update { table, assignments, filter } => PhysicalPlan::UpdateExec {
            table: table.clone(),
            assignments: clone_assignments(assignments),
            filter: clone_filter(filter),
        },
        LogicalPlan::Scan { table, columns } => PhysicalPlan::TableScanExec {
            table: table.clone(),
            projection: clone_columns_list(columns),
            prune: clone_predicates(prune),
        },
        LogicalPlan::Filter { predicate, input } => {
            // The scan beneath this filter can skip row groups by the
            // condition's INT conjuncts.
            let found = extract_scan_predicates(predicate);
            PhysicalPlan::FilterExec {
                predicate: predicate.clone(),
                input: Box::new(lower_node(input, &found)),
            }
        },
        LogicalPlan::Projection { columns, input } => PhysicalPlan::ProjectionExec {
            columns: clone_texts(columns),
            input: Box::new(lower_node(input, prune)),
        },
        LogicalPlan::Sort { column, descending, input } => PhysicalPlan::SortExec {
            column: column.clone(),
            descending: *descending,
            input: Box::new(lower_node(input, prune)),
        },
        LogicalPlan::Limit { count, input } => PhysicalPlan::LimitExec {
            count: *count,
            input: Box::new(lower_node(input, prune)),
        },
        LogicalPlan::TopK { column, descending, count, input } => PhysicalPlan::TopKExec {
            column: column.clone(),
            descending: *descending,
            count: *count,
            input: Box::new(lower_node(input, prune)),
        },
    }
}

} // verus!
