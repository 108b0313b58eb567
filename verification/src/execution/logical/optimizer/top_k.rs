//! Top-K: fuse a `Limit` directly over a `Sort` into one `TopK`, which only
//! has to keep the first rows of the order.

use vstd::prelude::*;

use crate::execution::logical::plan::{LogicalPlan, LogicalPlanV};

verus! {

/// `plan` with every `Limit` over a `Sort` fused into a `TopK`.
pub open spec fn fused(plan: LogicalPlanV) -> LogicalPlanV
    decreases plan,
{
    match plan {
        LogicalPlanV::Limit { count, input } => match fused(*input) {
            LogicalPlanV::Sort { column, descending, input } => LogicalPlanV::TopK {
                column,
                descending,
                count,
                input,
            },
            other => LogicalPlanV::Limit { count, input: Box::new(other) },
        },
        LogicalPlanV::Sort { column, descending, input } => LogicalPlanV::Sort {
            column,
            descending,
            input: Box::new(fused(*input)),
        },
        LogicalPlanV::Projection { columns, input } => LogicalPlanV::Projection {
            columns,
            input: Box::new(fused(*input)),
        },
        LogicalPlanV::Filter { predicate, input } => LogicalPlanV::Filter {
            predicate,
            input: Box::new(fused(*input)),
        },
        LogicalPlanV::TopK { column, descending, count, input } => LogicalPlanV::TopK {
            column,
            descending,
            count,
            input: Box::new(fused(*input)),
        },
        leaf => leaf,
    }
}

/// Fuse every `Limit` over a `Sort` into a `TopK`.
pub fn apply(plan: LogicalPlan) -> (r: LogicalPlan)
    ensures
        r@ == fused(plan@),
    decreases plan,
{
    match plan {
        LogicalPlan::Limit { count, input } => match apply(*input) {
            LogicalPlan::Sort { column, descending, input } => LogicalPlan::TopK {
                column,
                descending,
                count,
                input,
            },
            other => LogicalPlan::Limit { count, input: Box::new(other) },
        },
        LogicalPlan::Sort { column, descending, input } => LogicalPlan::Sort {
            column,
            descending,
            input: Box::new(apply(*input)),
        },
        LogicalPlan::Projection { columns, input } => LogicalPlan::Projection {
            columns,
            input: Box::new(apply(*input)),
        },
        LogicalPlan::Filter { predicate, input } => LogicalPlan::Filter {
            predicate,
            input: Box::new(apply(*input)),
        },
        LogicalPlan::TopK { column, descending, count, input } => LogicalPlan::TopK {
            column,
            descending,
            count,
            input: Box::new(apply(*input)),
        },
        leaf => leaf,
    }
}

// ---- laws ----

/// No `Limit` of the plan has a `Sort` as its direct child.
pub open spec fn has_no_pair(plan: LogicalPlanV) -> bool
    decreases plan,
{
    match plan {
        LogicalPlanV::Limit { count, input } => !(*input is Sort) && has_no_pair(*input),
        LogicalPlanV::Sort { column, descending, input } => has_no_pair(*input),
        LogicalPlanV::Projection { columns, input } => has_no_pair(*input),
        LogicalPlanV::Filter { predicate, input } => has_no_pair(*input),
        LogicalPlanV::TopK { column, descending, count, input } => has_no_pair(*input),
        _ => true,
    }
}

/// A `Limit` over a `Sort` becomes a `TopK` over what is made of its input.
pub proof fn law_pairs_are_fused(
    column: Seq<char>,
    descending: bool,
    count: u64,
    input: LogicalPlanV,
)
    ensures
        fused(
            LogicalPlanV::Limit {
                count,
                input: Box::new(
                    LogicalPlanV::Sort { column, descending, input: Box::new(input) },
                ),
            },
        ) == (LogicalPlanV::TopK { column, descending, count, input: Box::new(fused(input)) }),
{
    reveal_with_fuel(fused, 3);
}

/// Any other node stays what it is and where it is, with its fields: a `Sort`
/// without a `Limit` over it, a `Limit` without a `Sort` under it, and the rest.
pub proof fn law_other_nodes_stay(plan: LogicalPlanV)
    ensures
        match plan {
            LogicalPlanV::Limit { count, input } => !(*input is Sort) ==> fused(plan) == (
            LogicalPlanV::Limit { count, input: Box::new(fused(*input)) }),
            LogicalPlanV::Sort { column, descending, input } => fused(plan) == (
            LogicalPlanV::Sort { column, descending, input: Box::new(fused(*input)) }),
            LogicalPlanV::Projection { columns, input } => fused(plan) == (
            LogicalPlanV::Projection { columns, input: Box::new(fused(*input)) }),
            LogicalPlanV::Filter { predicate, input } => fused(plan) == (
            LogicalPlanV::Filter { predicate, input: Box::new(fused(*input)) }),
            LogicalPlanV::TopK { column, descending, count, input } => fused(plan) == (
            LogicalPlanV::TopK { column, descending, count, input: Box::new(fused(*input)) }),
            leaf => fused(plan) == leaf,
        },
{
    reveal_with_fuel(fused, 3);
}

/// After fusing, no `Limit` has a `Sort` as its direct child.
pub proof fn law_no_pair_is_left(plan: LogicalPlanV)
    ensures
        has_no_pair(fused(plan)),
    decreases plan,
{
    match plan {
        LogicalPlanV::Limit { count, input } => {
            law_no_pair_is_left(*input);
        },
        LogicalPlanV::Sort { column, descending, input } => {
            law_no_pair_is_left(*input);
        },
        LogicalPlanV::Projection { columns, input } => {
            law_no_pair_is_left(*input);
        },
        LogicalPlanV::Filter { predicate, input } => {
            law_no_pair_is_left(*input);
        },
        LogicalPlanV::TopK { column, descending, count, input } => {
            law_no_pair_is_left(*input);
        },
        _ => {},
    }
}

/// A plan in which no `Limit` has a `Sort` as its direct child stays as it is.
pub proof fn law_nothing_to_fuse(plan: LogicalPlanV)
    requires
        has_no_pair(plan),
    ensures
        fused(plan) == plan,
    decreases plan,
{
    match plan {
        LogicalPlanV::Limit { count, input } => {
            law_nothing_to_fuse(*input);
        },
        LogicalPlanV::Sort { column, descending, input } => {
            law_nothing_to_fuse(*input);
        },
        LogicalPlanV::Projection { columns, input } => {
            law_nothing_to_fuse(*input);
        },
        LogicalPlanV::Filter { predicate, input } => {
            law_nothing_to_fuse(*input);
        },
        LogicalPlanV::TopK { column, descending, count, input } => {
            law_nothing_to_fuse(*input);
        },
        _ => {},
    }
}

/// Fusing twice is fusing once.
pub proof fn law_fusing_twice_is_fusing_once(plan: LogicalPlanV)
    ensures
        fused(fused(plan)) == fused(plan),
{
    law_no_pair_is_left(plan);
    law_nothing_to_fuse(fused(plan));
}

} // verus!
