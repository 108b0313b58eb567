//! Logical optimizer: rewrites a plan into an equivalent one that is cheaper
//! to run. It reads no storage and no catalog; every rule follows from the
//! plan alone.
//!
//! Two rules run:
//! - top-K, which fuses an adjacent `Sort` and `Limit` into a single `TopK`;
//! - column pushdown, which records on each `Scan` the columns it needs to
//!   produce, so that a column store can read only those.

pub mod column_pushdown;
pub mod top_k;

use vstd::prelude::*;

use crate::execution::logical::optimizer::column_pushdown::{
    law_pushing_twice_is_pushing_once, needed, pushed, with_scan_columns,
};
use crate::execution::logical::optimizer::top_k::{
    fused, has_no_pair, law_no_pair_is_left, law_nothing_to_fuse,
};
use crate::execution::logical::plan::{LogicalPlan, LogicalPlanV};

verus! {

/// The optimized plan. Top-K comes first, so that column pushdown sees the
/// fused node and still collects its ordering column.
pub open spec fn optimized(plan: LogicalPlanV) -> LogicalPlanV {
    pushed(fused(plan))
}

/// Apply the optimization rules to `plan`.
pub fn optimize(plan: LogicalPlan) -> (r: LogicalPlan)
    ensures
        r@ == optimized(plan@),
{
    let plan = top_k::apply(plan);
    column_pushdown::apply(plan)
}

/// A plan that is no query, such as that of a CREATE TABLE or an INSERT, comes
/// back unchanged.
pub proof fn law_other_plans_stay(plan: LogicalPlanV)
    requires
        plan is CreateTable || plan is Insert || plan is DropTable || plan is ShowTables
            || plan is Describe || plan is Delete || plan is Update,
    ensures
        optimized(plan) == plan,
{
}

/// Columns on the scan make and break no pair of a `Limit` and a `Sort`.
proof fn lemma_pairs_alike(plan: LogicalPlanV, columns: Seq<Seq<char>>)
    ensures
        has_no_pair(with_scan_columns(plan, columns)) == has_no_pair(plan),
    decreases plan,
{
    match plan {
        LogicalPlanV::Filter { predicate, input } => {
            lemma_pairs_alike(*input, columns);
        },
        LogicalPlanV::Projection { columns: projected, input } => {
            lemma_pairs_alike(*input, columns);
        },
        LogicalPlanV::Sort { column, descending, input } => {
            lemma_pairs_alike(*input, columns);
        },
        LogicalPlanV::Limit { count, input } => {
            lemma_pairs_alike(*input, columns);
        },
        LogicalPlanV::TopK { column, descending, count, input } => {
            lemma_pairs_alike(*input, columns);
        },
        _ => {},
    }
}

/// Optimizing twice is optimizing once.
pub proof fn law_optimizing_twice_is_optimizing_once(plan: LogicalPlanV)
    ensures
        optimized(optimized(plan)) == optimized(plan),
{
    let once = fused(plan);
    law_no_pair_is_left(plan);
    lemma_pairs_alike(once, needed(once));
    law_nothing_to_fuse(pushed(once));
    law_pushing_twice_is_pushing_once(once);
}

} // verus!
