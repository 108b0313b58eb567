//! Column pushdown: record on a `Scan` the columns it must produce.
//!
//! A query only needs the columns that it projects, filters on or sorts by.
//! With that set on the `Scan`, a column store reads just those files. The
//! projected columns come first, in their order, then those that only a filter
//! or a sort names, each once. Plans without a scan pass through unchanged.

use vstd::prelude::*;

use crate::execution::logical::binder::{collect_expr_columns, expr_columns};
use crate::execution::logical::plan::{LogicalPlan, LogicalPlanV};
use crate::parser::ast::ExprV;
use crate::text::{lemma_position, position, texts};

verus! {

/// Whether there is a scan at the leaf.
pub open spec fn has_scan(plan: LogicalPlanV) -> bool
    decreases plan,
{
    match plan {
        LogicalPlanV::Scan { .. } => true,
        LogicalPlanV::Projection { input, .. } => has_scan(*input),
        LogicalPlanV::Filter { input, .. } => has_scan(*input),
        LogicalPlanV::Sort { input, .. } => has_scan(*input),
        LogicalPlanV::TopK { input, .. } => has_scan(*input),
        LogicalPlanV::Limit { input, .. } => has_scan(*input),
        _ => false,
    }
}

/// The columns that projections name, outermost first.
pub open spec fn projected_names(plan: LogicalPlanV) -> Seq<Seq<char>>
    decreases plan,
{
    match plan {
        LogicalPlanV::Projection { columns, input } => columns + projected_names(*input),
        LogicalPlanV::Filter { input, .. } => projected_names(*input),
        LogicalPlanV::Sort { input, .. } => projected_names(*input),
        LogicalPlanV::TopK { input, .. } => projected_names(*input),
        LogicalPlanV::Limit { input, .. } => projected_names(*input),
        _ => Seq::empty(),
    }
}

/// The columns that filters and orders name, outermost first.
pub open spec fn extra_names(plan: LogicalPlanV) -> Seq<Seq<char>>
    decreases plan,
{
    match plan {
        LogicalPlanV::Projection { input, .. } => extra_names(*input),
        LogicalPlanV::Filter { predicate, input } => expr_columns(predicate) + extra_names(*input),
        LogicalPlanV::Sort { column, input, .. } => seq![column] + extra_names(*input),
        LogicalPlanV::TopK { column, input, .. } => seq![column] + extra_names(*input),
        LogicalPlanV::Limit { input, .. } => extra_names(*input),
        _ => Seq::empty(),
    }
}

/// Each of `names` once, where it first stands.
pub open spec fn distinct(names: Seq<Seq<char>>) -> Seq<Seq<char>>
    decreases names.len(),
{
    if names.len() == 0 {
        Seq::empty()
    } else {
        let before = distinct(names.drop_last());
        if before.contains(names.last()) {
            before
        } else {
            before.push(names.last())
        }
    }
}

/// The columns that the scan of a plan must produce.
pub open spec fn needed(plan: LogicalPlanV) -> Seq<Seq<char>> {
    distinct(projected_names(plan) + extra_names(plan))
}

/// `plan` with `columns` on its scan.
pub open spec fn with_scan_columns(plan: LogicalPlanV, columns: Seq<Seq<char>>) -> LogicalPlanV
    decreases plan,
{
    match plan {
        LogicalPlanV::Scan { table, .. } => LogicalPlanV::Scan { table, columns: Some(columns) },
        LogicalPlanV::Filter { predicate, input } => LogicalPlanV::Filter {
            predicate,
            input: Box::new(with_scan_columns(*input, columns)),
        },
        LogicalPlanV::Projection { columns: projected, input } => LogicalPlanV::Projection {
            columns: projected,
            input: Box::new(with_scan_columns(*input, columns)),
        },
        LogicalPlanV::Sort { column, descending, input } => LogicalPlanV::Sort {
            column,
            descending,
            input: Box::new(with_scan_columns(*input, columns)),
        },
        LogicalPlanV::Limit { count, input } => LogicalPlanV::Limit {
            count,
            input: Box::new(with_scan_columns(*input, columns)),
        },
        LogicalPlanV::TopK { column, descending, count, input } => LogicalPlanV::TopK {
            column,
            descending,
            count,
            input: Box::new(with_scan_columns(*input, columns)),
        },
        root => root,
    }
}

/// `plan` with the columns that it needs on its scan.
pub open spec fn pushed(plan: LogicalPlanV) -> LogicalPlanV {
    if has_scan(plan) {
        with_scan_columns(plan, needed(plan))
    } else {
        plan
    }
}

/// Stamp the scan beneath `plan` with the columns that the query needs.
pub fn apply(plan: LogicalPlan) -> (r: LogicalPlan)
    ensures
        r@ == pushed(plan@),
{
    match needed_columns(&plan) {
        Some(columns) => set_scan_columns(plan, columns),
        None => plan,
    }
}

/// The columns that a scan must produce, or `None` if there is no scan.
fn needed_columns(plan: &LogicalPlan) -> (r: Option<Vec<String>>)
    ensures
        match r {
            Some(columns) => has_scan(plan@) && texts(columns@) == needed(plan@),
            None => !has_scan(plan@),
        },
{
    let mut projected: Vec<String> = Vec::new();
    let mut extra: Vec<String> = Vec::new();
    if !collect_required_columns(plan, &mut projected, &mut extra) {
        return None;
    }
    assert(texts(projected@) =~= projected_names(plan@));
    assert(texts(extra@) =~= extra_names(plan@));
    let ghost all = texts(projected@) + texts(extra@);
    let mut out: Vec<String> = Vec::new();
    assert(texts(out@) =~= distinct(all.take(0)));
    let mut i: usize = 0;
    while i < projected.len()
        invariant
            i <= projected@.len(),
            all == texts(projected@) + texts(extra@),
            texts(out@) == distinct(all.take(i as int)),
        decreases projected.len() - i,
    {
        assert(all[i as int] == projected@[i as int]@);
        push_distinct(&mut out, &projected[i], Ghost(all), Ghost(i as int));
        i = i + 1;
    }
    let mut j: usize = 0;
    while j < extra.len()
        invariant
            j <= extra@.len(),
            all == texts(projected@) + texts(extra@),
            texts(out@) == distinct(all.take(projected@.len() + j)),
        decreases extra.len() - j,
    {
        assert(all[projected@.len() + j] == extra@[j as int]@);
        push_distinct(&mut out, &extra[j], Ghost(all), Ghost(projected@.len() + j));
        j = j + 1;
    }
    assert(all.take(projected@.len() + j) =~= all);
    Some(out)
}

/// Keep the `i`th of `all`, unless it was kept before.
fn push_distinct(
    out: &mut Vec<String>,
    name: &String,
    Ghost(all): Ghost<Seq<Seq<char>>>,
    Ghost(i): Ghost<int>,
)
    requires
        0 <= i < all.len(),
        texts(old(out)@) == distinct(all.take(i)),
        all[i] == name@,
    ensures
        texts(final(out)@) == distinct(all.take(i + 1)),
{
    let ghost before = texts(out@);
    proof {
        assert(all.take(i + 1).drop_last() =~= all.take(i));
        lemma_position(before, name@, 0);
    }
    match position(out, name.as_str()) {
        Some(p) => {
            assert(before[p as int] == name@);
            assert(before.contains(name@));
        },
        None => {
            assert(!before.contains(name@));
            out.push(name.clone());
            assert(texts(out@) =~= before.push(name@));
        },
    }
}

/// Gather projected columns into `projected` and filter or order columns into
/// `extra`; gives whether there is a scan at the leaf.
fn collect_required_columns(
    plan: &LogicalPlan,
    projected: &mut Vec<String>,
    extra: &mut Vec<String>,
) -> (found: bool)
    ensures
        found == has_scan(plan@),
        texts(final(projected)@) == texts(old(projected)@) + projected_names(plan@),
        texts(final(extra)@) == texts(old(extra)@) + extra_names(plan@),
    decreases plan,
{
    let ghost p0 = texts(projected@);
    let ghost e0 = texts(extra@);
    let found = match plan {
        LogicalPlan::Scan { table: _, columns: _ } => true,
        LogicalPlan::Projection { columns, input } => {
            let mut i: usize = 0;
            while i < columns.len()
                invariant
                    i <= columns@.len(),
                    texts(projected@) == p0 + texts(columns@).take(i as int),
                decreases columns.len() - i,
            {
                let ghost before = texts(projected@);
                projected.push(columns[i].clone());
                i = i + 1;
                assert(texts(projected@) =~= before.push(columns@[i - 1]@));
                assert(texts(projected@) =~= p0 + texts(columns@).take(i as int));
            }
            assert(texts(columns@).take(i as int) =~= texts(columns@));
            let found = collect_required_columns(input, projected, extra);
            assert(texts(projected@) =~= p0 + (texts(columns@) + projected_names(input@)));
            found
        },
        LogicalPlan::Filter { predicate, input } => {
            collect_expr_columns(predicate, extra);
            let found = collect_required_columns(input, projected, extra);
            assert(texts(extra@) =~= e0 + (expr_columns(predicate@) + extra_names(input@)));
            found
        },
        LogicalPlan::Sort { column, descending: _, input } => {
            extra.push(column.clone());
            assert(texts(extra@) =~= e0.push(column@));
            let found = collect_required_columns(input, projected, extra);
            assert(texts(extra@) =~= e0 + (seq![column@] + extra_names(input@)));
            found
        },
        LogicalPlan::TopK { column, descending: _, count: _, input } => {
            extra.push(column.clone());
            assert(texts(extra@) =~= e0.push(column@));
            let found = collect_required_columns(input, projected, extra);
            assert(texts(extra@) =~= e0 + (seq![column@] + extra_names(input@)));
            found
        },
        LogicalPlan::Limit { count: _, input } => collect_required_columns(input, projected, extra),
        _ => false,
    };
    assert(texts(projected@) =~= p0 + projected_names(plan@));
    assert(texts(extra@) =~= e0 + extra_names(plan@));
    found
}

/// Put `columns` on the scan of `plan`.
fn set_scan_columns(plan: LogicalPlan, columns: Vec<String>) -> (r: LogicalPlan)
    ensures
        r@ == with_scan_columns(plan@, texts(columns@)),
    decreases plan,
{
    match plan {
        LogicalPlan::Scan { table, columns: _ } => LogicalPlan::Scan {
            table,
            columns: Some(columns),
        },
        LogicalPlan::Filter { predicate, input } => LogicalPlan::Filter {
            predicate,
            input: Box::new(set_scan_columns(*input, columns)),
        },
        LogicalPlan::Projection { columns: projected, input } => LogicalPlan::Projection {
            columns: projected,
            input: Box::new(set_scan_columns(*input, columns)),
        },
        LogicalPlan::Sort { column, descending, input } => LogicalPlan::Sort {
            column,
            descending,
            input: Box::new(set_scan_columns(*input, columns)),
        },
        LogicalPlan::Limit { count, input } => LogicalPlan::Limit {
            count,
            input: Box::new(set_scan_columns(*input, columns)),
        },
        LogicalPlan::TopK { column, descending, count, input } => LogicalPlan::TopK {
            column,
            descending,
            count,
            input: Box::new(set_scan_columns(*input, columns)),
        },
        root => root,
    }
}

// ---- laws ----

/// The columns on the scan of a plan make no difference to what it needs.
proof fn lemma_needs_alike(plan: LogicalPlanV, columns: Seq<Seq<char>>)
    ensures
        has_scan(with_scan_columns(plan, columns)) == has_scan(plan),
        projected_names(with_scan_columns(plan, columns)) == projected_names(plan),
        extra_names(with_scan_columns(plan, columns)) == extra_names(plan),
        with_scan_columns(with_scan_columns(plan, columns), columns) == with_scan_columns(
            plan,
            columns,
        ),
    decreases plan,
{
    match plan {
        LogicalPlanV::Filter { predicate, input } => {
            lemma_needs_alike(*input, columns);
        },
        LogicalPlanV::Projection { columns: projected, input } => {
            lemma_needs_alike(*input, columns);
        },
        LogicalPlanV::Sort { column, descending, input } => {
            lemma_needs_alike(*input, columns);
        },
        LogicalPlanV::Limit { count, input } => {
            lemma_needs_alike(*input, columns);
        },
        LogicalPlanV::TopK { column, descending, count, input } => {
            lemma_needs_alike(*input, columns);
        },
        _ => {},
    }
}

/// Pushing columns twice is pushing them once.
pub proof fn law_pushing_twice_is_pushing_once(plan: LogicalPlanV)
    ensures
        pushed(pushed(plan)) == pushed(plan),
{
    lemma_needs_alike(plan, needed(plan));
}

/// What a scan must produce is each column that the plan names, once, and
/// nothing else.
pub proof fn law_needed_columns(plan: LogicalPlanV, name: Seq<char>)
    ensures
        needed(plan).no_duplicates(),
        needed(plan).contains(name) <==> projected_names(plan).contains(name) || extra_names(
            plan,
        ).contains(name),
{
    let all = projected_names(plan) + extra_names(plan);
    let n = projected_names(plan).len() as int;
    lemma_distinct_names(all, name);
    if all.contains(name) {
        let i = choose|i: int| 0 <= i < all.len() && all[i] == name;
        if i < n {
            assert(projected_names(plan)[i] == name);
        } else {
            assert(extra_names(plan)[i - n] == name);
        }
    }
    if projected_names(plan).contains(name) {
        let i = choose|i: int| 0 <= i < n && projected_names(plan)[i] == name;
        assert(all[i] == name);
    }
    if extra_names(plan).contains(name) {
        let i = choose|i: int| 0 <= i < extra_names(plan).len() && extra_names(plan)[i] == name;
        assert(all[n + i] == name);
    }
}

/// Each name is kept once.
proof fn lemma_distinct_names(names: Seq<Seq<char>>, name: Seq<char>)
    ensures
        distinct(names).no_duplicates(),
        distinct(names).contains(name) <==> names.contains(name),
    decreases names.len(),
{
    if names.len() > 0 {
        let front = names.drop_last();
        lemma_distinct_names(front, name);
        lemma_distinct_names(front, names.last());
        let before = distinct(front);
        let after = distinct(names);
        assert(names.contains(name) <==> front.contains(name) || name == names.last()) by {
            if front.contains(name) {
                let i = choose|i: int| 0 <= i < front.len() && front[i] == name;
                assert(names[i] == name);
            }
            if names.contains(name) && name != names.last() {
                let i = choose|i: int| 0 <= i < names.len() && names[i] == name;
                assert(front[i] == name);
            }
            assert(names[names.len() - 1] == names.last());
        }
        if !before.contains(names.last()) {
            assert(after[after.len() - 1] == names.last());
            assert(after.contains(name) <==> before.contains(name) || name == names.last()) by {
                if before.contains(name) {
                    let i = choose|i: int| 0 <= i < before.len() && before[i] == name;
                    assert(after[i] == name);
                }
                if after.contains(name) && name != names.last() {
                    let i = choose|i: int| 0 <= i < after.len() && after[i] == name;
                    assert(before[i] == name);
                }
            }
        }
    }
}

/// The columns of a scan stand in the order in which the plan first names them,
/// those of the projections first.
pub proof fn law_needed_columns_are_in_order(plan: LogicalPlanV, i: int, j: int)
    requires
        0 <= i < j < needed(plan).len(),
    ensures
        ({
            let all = projected_names(plan) + extra_names(plan);
            &&& all.contains(needed(plan)[i])
            &&& all.contains(needed(plan)[j])
            &&& exists|k: int|
                0 <= k < all.len() && #[trigger] all[k] == needed(plan)[i] && forall|m: int|
                    0 <= m <= k ==> #[trigger] all[m] != needed(plan)[j]
        }),
{
    lemma_distinct_order(projected_names(plan) + extra_names(plan), i, j);
}

/// Of two names that are kept, the one that came first stands first.
proof fn lemma_distinct_order(names: Seq<Seq<char>>, i: int, j: int)
    requires
        0 <= i < j < distinct(names).len(),
    ensures
        names.contains(distinct(names)[i]),
        names.contains(distinct(names)[j]),
        exists|k: int|
            0 <= k < names.len() && #[trigger] names[k] == distinct(names)[i] && forall|m: int|
                0 <= m <= k ==> #[trigger] names[m] != distinct(names)[j],
    decreases names.len(),
{
    let kept = distinct(names);
    lemma_distinct_names(names, kept[i]);
    lemma_distinct_names(names, kept[j]);
    assert(kept.contains(kept[i]));
    assert(kept.contains(kept[j]));
    let front = names.drop_last();
    let before = distinct(front);
    if j < before.len() {
        lemma_distinct_order(front, i, j);
        let k = choose|k: int|
            0 <= k < front.len() && #[trigger] front[k] == before[i] && forall|m: int|
                0 <= m <= k ==> #[trigger] front[m] != before[j];
        assert(names[k] == kept[i]);
        assert forall|m: int| 0 <= m <= k implies #[trigger] names[m] != kept[j] by {
            assert(front[m] != before[j]);
        }
    } else {
        lemma_distinct_names(front, before[i]);
        lemma_distinct_names(front, kept[j]);
        assert(before.contains(before[i]));
        let k = choose|k: int| 0 <= k < front.len() && front[k] == before[i];
        assert(names[k] == kept[i]);
        assert forall|m: int| 0 <= m <= k implies #[trigger] names[m] != kept[j] by {
            assert(front[m] == names[m]);
        }
    }
}

/// The columns of a projection come first, then those that a sort or a filter
/// names, from the top of the plan down; a limit names none.
pub proof fn law_named_columns(
    p: LogicalPlanV,
    columns: Seq<Seq<char>>,
    column: Seq<char>,
    descending: bool,
    count: u64,
    e: ExprV,
)
    ensures
        ({
            let input = Box::new(p);
            let over = |n: LogicalPlanV, first: Seq<Seq<char>>, then: Seq<Seq<char>>|
                projected_names(n) == first + projected_names(p) && extra_names(n) == then
                    + extra_names(p);
            let none = Seq::<Seq<char>>::empty();
            &&& over(LogicalPlanV::Projection { columns, input }, columns, none)
            &&& over(LogicalPlanV::Filter { predicate: e, input }, none, expr_columns(e))
            &&& over(LogicalPlanV::Sort { column, descending, input }, none, seq![column])
            &&& over(LogicalPlanV::TopK { column, descending, count, input }, none, seq![column])
            &&& over(LogicalPlanV::Limit { count, input }, none, none)
        }),
{
    let none = Seq::<Seq<char>>::empty();
    assert(none + projected_names(p) =~= projected_names(p));
    assert(none + extra_names(p) =~= extra_names(p));
}

} // verus!
