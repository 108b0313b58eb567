//! What a SELECT gives, row by row: the live rows of the table in the order of
//! their identifiers, those that meet the condition, sorted, cut off, and with
//! the chosen columns. The optimizer and the pruning of row groups change
//! nothing of it.

use vstd::prelude::*;

use crate::catalog::schema::ColumnV;
use crate::error::ErrorV;
use crate::execution::logical::binder::{
    bound_select, expr_columns, missing_name, missing_names, projected_columns, select_error,
    select_plan,
};
use crate::execution::logical::optimizer::column_pushdown::{distinct, with_scan_columns};
use crate::execution::logical::optimizer::optimized;
use crate::execution::logical::optimizer::top_k::fused;
use crate::execution::physical::batch::{
    chosen_column, even, filtered_batch, first_rows, kept, lemma_filtered_even, projected_batch,
};
use crate::execution::physical::executor::{blocking_items, queried, stream_of};
use crate::execution::physical::expr::{mask_of, operand_of, value_compare};
use crate::execution::physical::lower::{lowered, lowered_under};
use crate::execution::physical::order::{law_ranking, ranked};
use crate::execution::physical::plan::PhysicalPlanV;
use crate::execution::physical::prune::{hint_of, hints};
use crate::execution::physical::result::{batch_rows, collected, rows_result, QueryResultV};
use crate::execution::physical::sort::{
    appended, arranged, first_of, gather, row_of, sorted, top_rows,
};
use crate::execution::physical::stream::{
    filtered_items, lemma_first_rows_even, lemma_projected_even, limited_items, projected_items,
    Items,
};
use crate::parser::ast::{ExprV, LogicalOp, ProjectionV, SelectV};
use crate::steps::{lemma_collect_all, lemma_no_failure};
use crate::storage::model::{
    batch_scan_of, column_names, has_column, min_of, pruned_from, scan_items, usable_predicates,
    BatchScanV, HandleV, StoreV,
};
use crate::storage::scan_laws::{
    column_index, known_names, law_pruned_groups_have_no_match, lemma_all_names_known,
    lemma_group_batch, lemma_scan_starts, live_batch, live_column, row_satisfies,
};
use crate::storage::table_model::{group_holds, group_ok, represents, TableV};
use crate::storage::{BatchV, ScanPredicateV, ValueV};
use crate::text::{lemma_position, position_of};

verus! {

// ---- the rows of a SELECT ----

/// The live rows of a table with numbers `from` to `to - 1`, in order.
pub open spec fn rows_between(t: TableV, from: int, to: int) -> Seq<Seq<ValueV>>
    decreases to - from,
{
    if to <= from {
        Seq::empty()
    } else {
        let before = rows_between(t, from, to - 1);
        if t.deleted[to - 1] {
            before
        } else {
            before.push(t.rows[to - 1])
        }
    }
}

/// The live rows of a table, in the order of their identifiers.
pub open spec fn table_rows(t: TableV) -> Seq<Seq<ValueV>> {
    rows_between(t, 0, t.rows.len() as int)
}

/// An operand of a comparison: a column or a literal.
pub open spec fn is_operand(e: ExprV) -> bool {
    e is Column || e is Literal
}

/// A condition: comparisons of operands, put together with AND and OR.
pub open spec fn is_condition(e: ExprV) -> bool
    decreases e,
{
    match e {
        ExprV::Compare { left, op, right } => is_operand(*left) && is_operand(*right),
        ExprV::Logical { left, op, right } => is_condition(*left) && is_condition(*right),
        _ => false,
    }
}

/// What an operand stands for in a row.
pub open spec fn operand_value(e: ExprV, schema: Seq<ColumnV>, row: Seq<ValueV>) -> ValueV {
    match e {
        ExprV::Column(name) => row[column_index(schema, name)],
        ExprV::Literal(v) => v,
        _ => ValueV::Null,
    }
}

/// Whether a row meets a condition.
pub open spec fn meets(e: ExprV, schema: Seq<ColumnV>, row: Seq<ValueV>) -> bool
    decreases e,
{
    match e {
        ExprV::Compare { left, op, right } => value_compare(
            operand_value(*left, schema, row),
            op,
            operand_value(*right, schema, row),
        ),
        ExprV::Logical { left, op, right } => if op == LogicalOp::And {
            meets(*left, schema, row) && meets(*right, schema, row)
        } else {
            meets(*left, schema, row) || meets(*right, schema, row)
        },
        _ => false,
    }
}

/// The rows that meet a condition, in order.
pub open spec fn meeting(e: ExprV, schema: Seq<ColumnV>, rows: Seq<Seq<ValueV>>) -> Seq<
    Seq<ValueV>,
>
    decreases rows.len(),
{
    if rows.len() == 0 {
        Seq::empty()
    } else {
        let before = meeting(e, schema, rows.drop_last());
        if meets(e, schema, rows.last()) {
            before.push(rows.last())
        } else {
            before
        }
    }
}

/// The values of column `c` in each row.
pub open spec fn keys_of(rows: Seq<Seq<ValueV>>, c: int) -> Seq<ValueV> {
    Seq::new(rows.len(), |i: int| rows[i][c])
}

/// The rows sorted by column `c`; rows with equal keys keep their order.
pub open spec fn sorted_rows(rows: Seq<Seq<ValueV>>, c: int, descending: bool) -> Seq<
    Seq<ValueV>,
> {
    let order = ranked(keys_of(rows, c), descending);
    Seq::new(order.len(), |i: int| rows[order[i]])
}

/// The first `count` rows, or all of them.
pub open spec fn cut_rows(rows: Seq<Seq<ValueV>>, count: int) -> Seq<Seq<ValueV>> {
    if count < rows.len() {
        rows.take(count)
    } else {
        rows
    }
}

/// The named columns of a row.
pub open spec fn row_columns(schema: Seq<ColumnV>, names: Seq<Seq<char>>, row: Seq<ValueV>) -> Seq<
    ValueV,
> {
    Seq::new(names.len(), |i: int| row[column_index(schema, names[i])])
}

/// The named columns of each row.
pub open spec fn rows_columns(
    schema: Seq<ColumnV>,
    names: Seq<Seq<char>>,
    rows: Seq<Seq<ValueV>>,
) -> Seq<Seq<ValueV>> {
    Seq::new(rows.len(), |i: int| row_columns(schema, names, rows[i]))
}

/// The rows that a SELECT chooses, with all their columns.
pub open spec fn chosen_rows(t: TableV, sel: SelectV) -> Seq<Seq<ValueV>> {
    let filtered = match sel.filter {
        None => table_rows(t),
        Some(e) => meeting(e, t.schema, table_rows(t)),
    };
    let ordered = match sel.order_by {
        None => filtered,
        Some(o) => sorted_rows(filtered, column_index(t.schema, o.column), o.descending),
    };
    match sel.limit {
        None => ordered,
        Some(count) => cut_rows(ordered, count as int),
    }
}

/// The result of a SELECT.
pub open spec fn selected(t: TableV, sel: SelectV) -> QueryResultV {
    let names = projected_columns(t.schema, sel.projections);
    QueryResultV::Rows { names, rows: rows_columns(t.schema, names, chosen_rows(t, sel)) }
}

// ---- streams that show rows ----

/// Every item of a stream is an even batch with these columns.
pub open spec fn clean(items: Items, names: Seq<Seq<char>>) -> bool {
    forall|i: int|
        0 <= i < items.len() ==> (#[trigger] items[i]) is Ok && items[i]->Ok_0.names == names
            && even(items[i]->Ok_0)
}

/// The rows of all batches of a stream.
pub open spec fn stream_rows(items: Items) -> Seq<Seq<ValueV>>
    decreases items.len(),
{
    if items.len() == 0 {
        Seq::empty()
    } else {
        batch_rows(items[0]->Ok_0) + stream_rows(items.skip(1))
    }
}

/// A stream shows the named columns of `rows`.
spec fn shows(
    items: Items,
    schema: Seq<ColumnV>,
    names: Seq<Seq<char>>,
    rows: Seq<Seq<ValueV>>,
) -> bool {
    &&& clean(items, names)
    &&& names.len() > 0
    &&& stream_rows(items) == rows_columns(schema, names, rows)
}

/// What comes later in a clean stream is clean.
proof fn lemma_clean_skip(items: Items, names: Seq<Seq<char>>)
    requires
        clean(items, names),
        items.len() > 0,
    ensures
        clean(items.skip(1), names),
{
    let rest = items.skip(1);
    assert forall|i: int| 0 <= i < rest.len() implies (#[trigger] rest[i]) is Ok
        && rest[i]->Ok_0.names == names && even(rest[i]->Ok_0) by {
        assert(rest[i] == items[i + 1]);
    }
}

/// Collecting the rows of a clean stream.
proof fn lemma_collected_rows(done: Seq<Seq<ValueV>>, items: Items, names: Seq<Seq<char>>)
    requires
        clean(items, names),
    ensures
        collected(done, items) == Ok::<Seq<Seq<ValueV>>, ErrorV>(done + stream_rows(items)),
    decreases items.len(),
{
    if items.len() == 0 {
        assert(done + Seq::<Seq<ValueV>>::empty() =~= done);
    } else {
        lemma_clean_skip(items, names);
        let b = items[0]->Ok_0;
        lemma_collected_rows(done + batch_rows(b), items.skip(1), names);
        assert(done + (batch_rows(b) + stream_rows(items.skip(1))) =~= done + batch_rows(b)
            + stream_rows(items.skip(1)));
    }
}

/// The first batch of a stream shows the first rows, the rest the others.
proof fn lemma_shows_split(
    items: Items,
    schema: Seq<ColumnV>,
    names: Seq<Seq<char>>,
    rows: Seq<Seq<ValueV>>,
)
    requires
        shows(items, schema, names, rows),
        items.len() > 0,
    ensures
        ({
            let b = items[0]->Ok_0;
            let n = b.num_rows() as int;
            &&& n <= rows.len()
            &&& batch_rows(b) == rows_columns(schema, names, rows.take(n))
            &&& shows(items.skip(1), schema, names, rows.skip(n))
            &&& rows == rows.take(n) + rows.skip(n)
        }),
{
    lemma_clean_skip(items, names);
    let b = items[0]->Ok_0;
    let n = b.num_rows() as int;
    let tail = stream_rows(items.skip(1));
    let all = stream_rows(items);
    assert(all == batch_rows(b) + tail);
    assert(all.len() == rows.len());
    assert(batch_rows(b) =~= all.take(n));
    assert(tail =~= all.skip(n));
    assert(all.take(n) =~= rows_columns(schema, names, rows.take(n)));
    assert(all.skip(n) =~= rows_columns(schema, names, rows.skip(n)));
    assert(rows =~= rows.take(n) + rows.skip(n));
}

/// Putting a batch in front of a stream.
proof fn lemma_shows_join(
    b: BatchV,
    rest: Items,
    schema: Seq<ColumnV>,
    names: Seq<Seq<char>>,
    front: Seq<Seq<ValueV>>,
    back: Seq<Seq<ValueV>>,
)
    requires
        even(b),
        b.names == names,
        batch_rows(b) == rows_columns(schema, names, front),
        shows(rest, schema, names, back),
    ensures
        shows(seq![Ok::<BatchV, ErrorV>(b)] + rest, schema, names, front + back),
{
    let items = seq![Ok::<BatchV, ErrorV>(b)] + rest;
    assert(items.skip(1) =~= rest);
    assert forall|i: int| 0 <= i < items.len() implies (#[trigger] items[i]) is Ok
        && items[i]->Ok_0.names == names && even(items[i]->Ok_0) by {
        if i > 0 {
            assert(items[i] == rest[i - 1]);
        }
    }
    assert(rows_columns(schema, names, front) + rows_columns(schema, names, back)
        =~= rows_columns(schema, names, front + back));
}

/// A stream without items shows no rows.
proof fn lemma_shows_nothing(schema: Seq<ColumnV>, names: Seq<Seq<char>>)
    requires
        names.len() > 0,
    ensures
        shows(Seq::empty(), schema, names, Seq::empty()),
{
    assert(rows_columns(schema, names, Seq::empty()) =~= Seq::<Seq<ValueV>>::empty());
}

/// A stream of one batch shows the rows of that batch.
proof fn lemma_shows_one(
    b: BatchV,
    schema: Seq<ColumnV>,
    names: Seq<Seq<char>>,
    rows: Seq<Seq<ValueV>>,
)
    requires
        even(b),
        b.names == names,
        names.len() > 0,
        batch_rows(b) == rows_columns(schema, names, rows),
    ensures
        shows(seq![Ok::<BatchV, ErrorV>(b)], schema, names, rows),
{
    lemma_shows_nothing(schema, names);
    lemma_shows_join(b, Seq::empty(), schema, names, rows, Seq::empty());
    assert(seq![Ok::<BatchV, ErrorV>(b)] + Seq::<Result<BatchV, ErrorV>>::empty() =~= seq![
        Ok::<BatchV, ErrorV>(b),
    ]);
    assert(rows + Seq::<Seq<ValueV>>::empty() =~= rows);
}

// ---- conditions ----

/// The rows that meet a condition in two runs of rows.
proof fn lemma_meeting_concat(
    e: ExprV,
    schema: Seq<ColumnV>,
    a: Seq<Seq<ValueV>>,
    b: Seq<Seq<ValueV>>,
)
    ensures
        meeting(e, schema, a + b) == meeting(e, schema, a) + meeting(e, schema, b),
    decreases b.len(),
{
    if b.len() == 0 {
        assert(a + b =~= a);
        assert(meeting(e, schema, a) + meeting(e, schema, b) =~= meeting(e, schema, a));
    } else {
        lemma_meeting_concat(e, schema, a, b.drop_last());
        assert((a + b).drop_last() =~= a + b.drop_last());
        assert((a + b).last() == b.last());
        let x = meeting(e, schema, a);
        let y = meeting(e, schema, b.drop_last());
        assert((x + y).push(b.last()) =~= x + y.push(b.last()));
    }
}

/// What an operand gives in a batch that shows rows.
proof fn lemma_operand(
    e: ExprV,
    b: BatchV,
    schema: Seq<ColumnV>,
    rows: Seq<Seq<ValueV>>,
)
    requires
        is_operand(e),
        even(b),
        b.names.len() > 0,
        batch_rows(b) == rows_columns(schema, b.names, rows),
        forall|i: int|
            0 <= i < expr_columns(e).len() ==> b.names.contains(#[trigger] expr_columns(e)[i]),
    ensures
        operand_of(e, b) is Ok,
        forall|r: int|
            0 <= r < rows.len() ==> #[trigger] operand_of(e, b)->Ok_0.at(r) == operand_value(
                e,
                schema,
                rows[r],
            ),
{
    assert(batch_rows(b).len() == rows.len());
    if let ExprV::Column(name) = e {
        assert(expr_columns(e)[0] == name);
        assert(b.names.contains(name));
        lemma_position(b.names, name, 0);
        let p = position_of(b.names, name)->0;
        assert forall|r: int| 0 <= r < rows.len() implies #[trigger] operand_of(e, b)->Ok_0.at(r)
            == operand_value(e, schema, rows[r]) by {
            assert(batch_rows(b)[r] == row_of(b, r));
            assert(batch_rows(b)[r][p] == b.columns[p][r]);
            assert(rows_columns(schema, b.names, rows)[r][p] == rows[r][column_index(
                schema,
                b.names[p],
            )]);
        }
    }
}

/// The mask of a condition on a batch that shows rows.
pub proof fn lemma_mask(e: ExprV, b: BatchV, schema: Seq<ColumnV>, rows: Seq<Seq<ValueV>>)
    requires
        is_condition(e),
        even(b),
        b.names.len() > 0,
        batch_rows(b) == rows_columns(schema, b.names, rows),
        forall|i: int|
            0 <= i < expr_columns(e).len() ==> b.names.contains(#[trigger] expr_columns(e)[i]),
    ensures
        mask_of(e, b) is Ok,
        mask_of(e, b)->Ok_0.len() == rows.len(),
        forall|r: int|
            0 <= r < rows.len() ==> #[trigger] mask_of(e, b)->Ok_0[r] == meets(e, schema, rows[r]),
    decreases e,
{
    assert(batch_rows(b).len() == rows.len());
    match e {
        ExprV::Compare { left, op, right } => {
            lemma_columns_split(*left, *right, expr_columns(e), b.names);
            lemma_operand(*left, b, schema, rows);
            lemma_operand(*right, b, schema, rows);
            let l = operand_of(*left, b)->Ok_0;
            let x = operand_of(*right, b)->Ok_0;
            assert forall|r: int| 0 <= r < rows.len() implies #[trigger] mask_of(e, b)->Ok_0[r]
                == meets(e, schema, rows[r]) by {
                assert(l.at(r) == operand_value(*left, schema, rows[r]));
                assert(x.at(r) == operand_value(*right, schema, rows[r]));
            }
        },
        ExprV::Logical { left, op, right } => {
            lemma_columns_split(*left, *right, expr_columns(e), b.names);
            lemma_mask(*left, b, schema, rows);
            lemma_mask(*right, b, schema, rows);
            let l = mask_of(*left, b)->Ok_0;
            let x = mask_of(*right, b)->Ok_0;
            assert forall|r: int| 0 <= r < rows.len() implies #[trigger] mask_of(e, b)->Ok_0[r]
                == meets(e, schema, rows[r]) by {
                assert(l[r] == meets(*left, schema, rows[r]));
                assert(x[r] == meets(*right, schema, rows[r]));
            }
        },
        _ => {},
    }
}

/// The columns of both sides are among those that the whole names.
proof fn lemma_columns_split(
    left: ExprV,
    right: ExprV,
    all: Seq<Seq<char>>,
    names: Seq<Seq<char>>,
)
    requires
        all == expr_columns(left) + expr_columns(right),
        forall|i: int| 0 <= i < all.len() ==> names.contains(#[trigger] all[i]),
    ensures
        forall|i: int|
            0 <= i < expr_columns(left).len() ==> names.contains(#[trigger] expr_columns(left)[i]),
        forall|i: int|
            0 <= i < expr_columns(right).len() ==> names.contains(
                #[trigger] expr_columns(right)[i],
            ),
{
    assert forall|i: int| 0 <= i < expr_columns(left).len() implies names.contains(
        #[trigger] expr_columns(left)[i],
    ) by {
        assert(all[i] == expr_columns(left)[i]);
    }
    assert forall|i: int| 0 <= i < expr_columns(right).len() implies names.contains(
        #[trigger] expr_columns(right)[i],
    ) by {
        assert(all[expr_columns(left).len() + i] == expr_columns(right)[i]);
    }
}

/// A column of the rows that meet a condition is the column with the mask
/// applied.
proof fn lemma_kept(
    e: ExprV,
    schema: Seq<ColumnV>,
    rows: Seq<Seq<ValueV>>,
    values: Seq<ValueV>,
    mask: Seq<bool>,
    c: int,
    n: int,
)
    requires
        0 <= n <= rows.len(),
        values.len() == rows.len(),
        mask.len() == rows.len(),
        forall|r: int| 0 <= r < rows.len() ==> #[trigger] values[r] == rows[r][c],
        forall|r: int| 0 <= r < rows.len() ==> #[trigger] mask[r] == meets(e, schema, rows[r]),
    ensures
        kept(values, mask, n) == keys_of(meeting(e, schema, rows.take(n)), c),
    decreases n,
{
    if n > 0 {
        lemma_kept(e, schema, rows, values, mask, c, n - 1);
        assert(rows.take(n).drop_last() =~= rows.take(n - 1));
        assert(rows.take(n).last() == rows[n - 1]);
        let before = meeting(e, schema, rows.take(n - 1));
        assert(mask[n - 1] == meets(e, schema, rows[n - 1]));
        assert(values[n - 1] == rows[n - 1][c]);
        if mask[n - 1] {
            assert(keys_of(before.push(rows[n - 1]), c) =~= keys_of(before, c).push(
                values[n - 1],
            ));
        }
    }
    assert(kept(values, mask, n) =~= keys_of(meeting(e, schema, rows.take(n)), c));
}

/// Filtering a batch that shows rows shows those that meet the condition.
proof fn lemma_filtered_batch(e: ExprV, b: BatchV, schema: Seq<ColumnV>, rows: Seq<Seq<ValueV>>)
    requires
        is_condition(e),
        even(b),
        b.names.len() > 0,
        batch_rows(b) == rows_columns(schema, b.names, rows),
        forall|i: int|
            0 <= i < expr_columns(e).len() ==> b.names.contains(#[trigger] expr_columns(e)[i]),
    ensures
        mask_of(e, b) is Ok,
        ({
            let f = filtered_batch(b, mask_of(e, b)->Ok_0);
            &&& even(f)
            &&& f.names == b.names
            &&& batch_rows(f) == rows_columns(schema, b.names, meeting(e, schema, rows))
        }),
{
    lemma_mask(e, b, schema, rows);
    let mask = mask_of(e, b)->Ok_0;
    let f = filtered_batch(b, mask);
    let left = meeting(e, schema, rows);
    let n = rows.len() as int;
    lemma_filtered_even(b, mask);
    assert(batch_rows(b).len() == n);
    assert(rows.take(n) =~= rows);
    assert forall|k: int| 0 <= k < b.names.len() implies #[trigger] f.columns[k] == keys_of(
        left,
        column_index(schema, b.names[k]),
    ) by {
        let c = column_index(schema, b.names[k]);
        assert(b.columns[k].len() == n);
        assert forall|r: int| 0 <= r < n implies #[trigger] b.columns[k][r] == rows[r][c] by {
            assert(batch_rows(b)[r][k] == b.columns[k][r]);
            assert(rows_columns(schema, b.names, rows)[r][k] == rows[r][c]);
        }
        lemma_kept(e, schema, rows, b.columns[k], mask, c, n);
    }
    assert(f.columns[0].len() == left.len());
    assert(f.num_rows() == left.len());
    assert forall|r: int| 0 <= r < left.len() implies #[trigger] batch_rows(f)[r] == row_columns(
        schema,
        b.names,
        left[r],
    ) by {
        assert(row_of(f, r) =~= row_columns(schema, b.names, left[r])) by {
            assert forall|k: int| 0 <= k < b.names.len() implies row_of(f, r)[k] == row_columns(
                schema,
                b.names,
                left[r],
            )[k] by {
                assert(f.columns[k] == keys_of(left, column_index(schema, b.names[k])));
            }
        }
    }
    assert(batch_rows(f) =~= rows_columns(schema, b.names, left));
}

/// A filter shows the rows that meet its condition.
proof fn lemma_filter_shows(
    e: ExprV,
    items: Items,
    schema: Seq<ColumnV>,
    names: Seq<Seq<char>>,
    rows: Seq<Seq<ValueV>>,
)
    requires
        shows(items, schema, names, rows),
        is_condition(e),
        forall|i: int|
            0 <= i < expr_columns(e).len() ==> names.contains(#[trigger] expr_columns(e)[i]),
    ensures
        shows(filtered_items(e, items), schema, names, meeting(e, schema, rows)),
    decreases items.len(),
{
    let out = filtered_items(e, items);
    if items.len() == 0 {
        assert(rows =~= Seq::<Seq<ValueV>>::empty()) by {
            assert(stream_rows(items).len() == rows.len());
        }
        lemma_shows_nothing(schema, names);
        assert(out =~= Seq::empty());
    } else {
        lemma_shows_split(items, schema, names, rows);
        let b = items[0]->Ok_0;
        let n = b.num_rows() as int;
        lemma_filter_shows(e, items.skip(1), schema, names, rows.skip(n));
        lemma_filtered_batch(e, b, schema, rows.take(n));
        let f = filtered_batch(b, mask_of(e, b)->Ok_0);
        lemma_shows_join(
            f,
            filtered_items(e, items.skip(1)),
            schema,
            names,
            meeting(e, schema, rows.take(n)),
            meeting(e, schema, rows.skip(n)),
        );
        lemma_meeting_concat(e, schema, rows.take(n), rows.skip(n));
        assert(out =~= seq![Ok::<BatchV, ErrorV>(f)] + filtered_items(e, items.skip(1)));
    }
}

// ---- sorting, cutting off, choosing columns ----

/// All batches of a clean stream as one, behind what was gathered before.
proof fn lemma_gather(gathered: Option<BatchV>, items: Items, names: Seq<Seq<char>>)
    requires
        clean(items, names),
        gathered matches Some(a) ==> even(a) && a.names == names,
        gathered is Some || items.len() > 0,
        names.len() > 0,
    ensures
        gather(gathered, items) matches Ok(Some(b)) && even(b) && b.names == names && batch_rows(b)
            == (match gathered {
            Some(a) => batch_rows(a),
            None => Seq::empty(),
        }) + stream_rows(items),
    decreases items.len(),
{
    if items.len() == 0 {
        let a = gathered->0;
        assert(batch_rows(a) + Seq::<Seq<ValueV>>::empty() =~= batch_rows(a));
    } else {
        lemma_clean_skip(items, names);
        let b = items[0]->Ok_0;
        let r = appended(gathered, b);
        let start = match gathered {
            Some(a) => batch_rows(a),
            None => Seq::empty(),
        };
        if let Some(a) = gathered {
            assert forall|c: int| 0 <= c < r.columns.len() implies (#[trigger] r.columns[c]).len()
                == a.num_rows() + b.num_rows() by {
                assert(a.columns[c].len() == a.num_rows());
                assert(b.columns[c].len() == b.num_rows());
            }
            assert(r.columns[0].len() == a.num_rows() + b.num_rows());
            assert forall|i: int| 0 <= i < r.num_rows() implies #[trigger] batch_rows(r)[i] == (
            batch_rows(a) + batch_rows(b))[i] by {
                assert(row_of(r, i) =~= if i < a.num_rows() {
                    row_of(a, i)
                } else {
                    row_of(b, i - a.num_rows())
                }) by {
                    assert forall|c: int| 0 <= c < r.columns.len() implies row_of(r, i)[c] == (if i
                        < a.num_rows() {
                        row_of(a, i)
                    } else {
                        row_of(b, i - a.num_rows())
                    })[c] by {
                        assert(a.columns[c].len() == a.num_rows());
                    }
                }
            }
            assert(batch_rows(r) =~= batch_rows(a) + batch_rows(b));
        } else {
            assert(start + batch_rows(b) =~= batch_rows(b));
        }
        assert(batch_rows(r) == start + batch_rows(b));
        lemma_gather(Some(r), items.skip(1), names);
        assert(start + batch_rows(b) + stream_rows(items.skip(1)) =~= start + (batch_rows(b)
            + stream_rows(items.skip(1))));
    }
}

/// The key column of a batch that shows rows.
proof fn lemma_keys(
    b: BatchV,
    schema: Seq<ColumnV>,
    rows: Seq<Seq<ValueV>>,
    column: Seq<char>,
)
    requires
        even(b),
        b.names.len() > 0,
        batch_rows(b) == rows_columns(schema, b.names, rows),
        b.names.contains(column),
    ensures
        position_of(b.names, column) is Some,
        b.columns[position_of(b.names, column)->0] == keys_of(rows, column_index(schema, column)),
{
    lemma_position(b.names, column, 0);
    let p = position_of(b.names, column)->0;
    let c = column_index(schema, column);
    assert(batch_rows(b).len() == rows.len());
    assert(b.columns[p].len() == rows.len());
    assert forall|r: int| 0 <= r < rows.len() implies #[trigger] b.columns[p][r] == rows[r][c] by {
        assert(batch_rows(b)[r][p] == b.columns[p][r]);
        assert(rows_columns(schema, b.names, rows)[r][p] == rows[r][c]);
    }
    assert(b.columns[p] =~= keys_of(rows, c));
}

/// Arranging a batch that shows rows.
proof fn lemma_arranged(
    b: BatchV,
    schema: Seq<ColumnV>,
    rows: Seq<Seq<ValueV>>,
    positions: Seq<int>,
)
    requires
        even(b),
        b.names.len() > 0,
        batch_rows(b) == rows_columns(schema, b.names, rows),
        forall|i: int| 0 <= i < positions.len() ==> 0 <= #[trigger] positions[i] < rows.len(),
    ensures
        even(arranged(b, positions)),
        arranged(b, positions).names == b.names,
        batch_rows(arranged(b, positions)) == rows_columns(
            schema,
            b.names,
            Seq::new(positions.len(), |i: int| rows[positions[i]]),
        ),
{
    let r = arranged(b, positions);
    let out = Seq::new(positions.len(), |i: int| rows[positions[i]]);
    assert(r.columns[0].len() == positions.len());
    assert(batch_rows(b).len() == rows.len());
    assert forall|i: int| 0 <= i < positions.len() implies #[trigger] batch_rows(r)[i]
        == row_columns(schema, b.names, out[i]) by {
        let p = positions[i];
        assert(batch_rows(b)[p] == rows_columns(schema, b.names, rows)[p]);
        assert(row_of(r, i) =~= row_of(b, p));
    }
    assert(batch_rows(r) =~= rows_columns(schema, b.names, out));
}

/// Sorting a stream shows the rows sorted, and with a count the first of them.
proof fn lemma_sort_shows(
    items: Items,
    schema: Seq<ColumnV>,
    names: Seq<Seq<char>>,
    rows: Seq<Seq<ValueV>>,
    column: Seq<char>,
    descending: bool,
    count: int,
)
    requires
        shows(items, schema, names, rows),
        names.contains(column),
        0 <= count,
    ensures
        ({
            let all = sorted_rows(rows, column_index(schema, column), descending);
            let plain = blocking_items(sorted(items, column, descending));
            let cut = blocking_items(top_rows(items, column, descending, count));
            &&& plain is Ok
            &&& shows(plain->Ok_0, schema, names, all)
            &&& cut is Ok
            &&& shows(cut->Ok_0, schema, names, cut_rows(all, count))
        }),
{
    let c = column_index(schema, column);
    let all = sorted_rows(rows, c, descending);
    let keys = keys_of(rows, c);
    let order = ranked(keys, descending);
    law_ranking(keys, 0, keys.len() as int, descending);
    if items.len() == 0 {
        assert(stream_rows(items).len() == rows.len());
        assert(order.len() == 0);
        assert(all =~= Seq::<Seq<ValueV>>::empty());
        lemma_shows_nothing(schema, names);
    } else {
        lemma_gather(None, items, names);
        let b = gather(None, items)->Ok_0->0;
        assert(Seq::<Seq<ValueV>>::empty() + stream_rows(items) =~= stream_rows(items));
        lemma_keys(b, schema, rows, column);
        lemma_arranged(b, schema, rows, order);
        lemma_shows_one(arranged(b, order), schema, names, all);
        let first = first_of(order, count);
        assert forall|i: int| 0 <= i < first.len() implies 0 <= #[trigger] first[i]
            < rows.len() by {
            assert(first[i] == order[i]);
        }
        lemma_arranged(b, schema, rows, first);
        assert(Seq::new(first.len(), |i: int| rows[first[i]]) =~= cut_rows(all, count));
        lemma_shows_one(arranged(b, first), schema, names, cut_rows(all, count));
    }
}

/// The first rows of a batch.
proof fn lemma_first_rows(
    b: BatchV,
    schema: Seq<ColumnV>,
    rows: Seq<Seq<ValueV>>,
    n: int,
)
    requires
        even(b),
        b.names.len() > 0,
        batch_rows(b) == rows_columns(schema, b.names, rows),
        0 <= n <= rows.len(),
    ensures
        even(first_rows(b, n)),
        first_rows(b, n).names == b.names,
        batch_rows(first_rows(b, n)) == rows_columns(schema, b.names, rows.take(n)),
{
    let r = first_rows(b, n);
    assert(batch_rows(b).len() == rows.len());
    lemma_first_rows_even(b, n);
    if n < b.num_rows() {
        assert(b.columns[0].len() == b.num_rows());
        assert forall|i: int| 0 <= i < n implies #[trigger] batch_rows(r)[i] == row_columns(
            schema,
            b.names,
            rows[i],
        ) by {
            assert(batch_rows(b)[i] == rows_columns(schema, b.names, rows)[i]);
            assert(row_of(r, i) =~= row_of(b, i)) by {
                assert forall|c: int| 0 <= c < b.columns.len() implies row_of(r, i)[c] == row_of(
                    b,
                    i,
                )[c] by {
                    assert(b.columns[c].len() == b.num_rows());
                }
            }
        }
        assert(batch_rows(r) =~= rows_columns(schema, b.names, rows.take(n)));
    } else {
        assert(rows.take(n) =~= rows);
    }
}

/// A limit shows the first rows.
proof fn lemma_limit_shows(
    items: Items,
    schema: Seq<ColumnV>,
    names: Seq<Seq<char>>,
    rows: Seq<Seq<ValueV>>,
    count: int,
)
    requires
        shows(items, schema, names, rows),
        0 <= count,
    ensures
        shows(limited_items(count, items), schema, names, cut_rows(rows, count)),
    decreases items.len(),
{
    if items.len() == 0 || count == 0 {
        assert(items.len() == 0 ==> stream_rows(items).len() == rows.len());
        assert(cut_rows(rows, count) =~= Seq::<Seq<ValueV>>::empty());
        lemma_shows_nothing(schema, names);
    } else {
        lemma_shows_split(items, schema, names, rows);
        let b = items[0]->Ok_0;
        let n = b.num_rows() as int;
        let taken = min_of(count, n);
        lemma_first_rows(b, schema, rows.take(n), taken);
        assert(rows.take(n).take(taken) =~= rows.take(taken));
        lemma_limit_shows(items.skip(1), schema, names, rows.skip(n), count - taken);
        lemma_shows_join(
            first_rows(b, taken),
            limited_items(count - taken, items.skip(1)),
            schema,
            names,
            rows.take(taken),
            cut_rows(rows.skip(n), count - taken),
        );
        assert(cut_rows(rows, count) =~= rows.take(taken) + cut_rows(rows.skip(n), count - taken));
    }
}

/// A stream without errors, whose batches have columns of one length.
pub open spec fn intact(items: Items) -> bool {
    forall|i: int| 0 <= i < items.len() ==> (#[trigger] items[i]) is Ok && even(items[i]->Ok_0)
}

/// A limit over a stream without errors gives exactly its first rows, in order,
/// and each of its batches has the columns of the one that it was made from.
pub proof fn law_limit_gives_the_first_rows(count: int, items: Items)
    requires
        intact(items),
        0 <= count,
    ensures
        intact(limited_items(count, items)),
        stream_rows(limited_items(count, items)) == cut_rows(stream_rows(items), count),
        limited_items(count, items).len() <= items.len(),
        forall|i: int|
            0 <= i < limited_items(count, items).len() ==> (#[trigger] limited_items(
                count,
                items,
            )[i])->Ok_0.names == items[i]->Ok_0.names,
    decreases items.len(),
{
    if items.len() == 0 || count == 0 {
        assert(cut_rows(stream_rows(items), count) =~= Seq::<Seq<ValueV>>::empty());
    } else {
        let b = items[0]->Ok_0;
        let n = b.num_rows() as int;
        let taken = min_of(count, n);
        let r = first_rows(b, taken);
        let rest = items.skip(1);
        assert(intact(rest)) by {
            assert forall|i: int| 0 <= i < rest.len() implies (#[trigger] rest[i]) is Ok && even(
                rest[i]->Ok_0,
            ) by {
                assert(rest[i] == items[i + 1]);
            }
        }
        let tail = limited_items(count - taken, rest);
        let out = limited_items(count, items);
        assert(even(b));
        lemma_first_rows_even(b, taken);
        law_limit_gives_the_first_rows(count - taken, rest);
        assert(out.skip(1) =~= tail);
        assert(batch_rows(r) =~= batch_rows(b).take(taken)) by {
            assert forall|i: int| 0 <= i < taken implies #[trigger] batch_rows(r)[i] == batch_rows(
                b,
            )[i] by {
                assert(row_of(r, i) =~= row_of(b, i)) by {
                    assert forall|c: int| 0 <= c < b.columns.len() implies row_of(r, i)[c]
                        == row_of(b, i)[c] by {
                        assert(b.columns[c].len() == b.num_rows());
                    }
                }
            }
        }
        assert forall|i: int| 0 <= i < out.len() implies (#[trigger] out[i]) is Ok && even(
            out[i]->Ok_0,
        ) && out[i]->Ok_0.names == items[i]->Ok_0.names by {
            if i > 0 {
                assert(out[i] == tail[i - 1]);
                assert(rest[i - 1] == items[i]);
            }
        }
        assert(cut_rows(stream_rows(items), count) =~= batch_rows(b).take(taken) + cut_rows(
            stream_rows(rest),
            count - taken,
        ));
    }
}

/// Running a limit over a plan whose stream has no errors gives a stream with
/// the first rows of that stream, in order, in batches with the same columns.
pub proof fn law_limit_plan(input: PhysicalPlanV, count: u64, store: StoreV)
    requires
        stream_of(input, store) is Ok,
        intact(stream_of(input, store)->Ok_0),
    ensures
        ({
            let items = stream_of(input, store)->Ok_0;
            let out = stream_of(
                PhysicalPlanV::LimitExec { count, input: Box::new(input) },
                store,
            );
            &&& out is Ok
            &&& intact(out->Ok_0)
            &&& out->Ok_0.len() <= items.len()
            &&& forall|i: int|
                0 <= i < out->Ok_0.len() ==> (#[trigger] out->Ok_0[i])->Ok_0.names
                    == items[i]->Ok_0.names
            &&& stream_rows(out->Ok_0) == cut_rows(stream_rows(items), count as int)
        }),
{
    law_limit_gives_the_first_rows(count as int, stream_of(input, store)->Ok_0);
}

/// Choosing columns of a batch that shows rows.
proof fn lemma_projected_batch(
    b: BatchV,
    schema: Seq<ColumnV>,
    rows: Seq<Seq<ValueV>>,
    columns: Seq<Seq<char>>,
)
    requires
        even(b),
        b.names.len() > 0,
        columns.len() > 0,
        batch_rows(b) == rows_columns(schema, b.names, rows),
        forall|i: int| 0 <= i < columns.len() ==> b.names.contains(#[trigger] columns[i]),
    ensures
        projected_batch(b, columns) matches Ok(r) && even(r) && r.names == columns && batch_rows(r)
            == rows_columns(schema, columns, rows),
{
    let rule = chosen_column(b, columns);
    let all = Seq::new(
        columns.len(),
        |i: int| keys_of(rows, column_index(schema, columns[i])),
    );
    assert forall|i: int| 0 <= i < columns.len() implies #[trigger] rule(i) == Ok::<
        Seq<ValueV>,
        ErrorV,
    >(all[i]) by {
        assert(b.names.contains(columns[i]));
        lemma_keys(b, schema, rows, columns[i]);
    }
    lemma_collect_all(columns.len() as int, rule, all);
    lemma_projected_even(b, columns);
    let r = projected_batch(b, columns)->Ok_0;
    assert(r.columns[0].len() == rows.len());
    assert forall|i: int| 0 <= i < rows.len() implies #[trigger] batch_rows(r)[i] == row_columns(
        schema,
        columns,
        rows[i],
    ) by {
        assert(row_of(r, i) =~= row_columns(schema, columns, rows[i]));
    }
    assert(batch_rows(r) =~= rows_columns(schema, columns, rows));
}

/// A projection shows the chosen columns of the same rows.
proof fn lemma_project_shows(
    items: Items,
    schema: Seq<ColumnV>,
    names: Seq<Seq<char>>,
    rows: Seq<Seq<ValueV>>,
    columns: Seq<Seq<char>>,
)
    requires
        shows(items, schema, names, rows),
        columns.len() > 0,
        forall|i: int| 0 <= i < columns.len() ==> names.contains(#[trigger] columns[i]),
    ensures
        shows(projected_items(columns, items), schema, columns, rows),
    decreases items.len(),
{
    let out = projected_items(columns, items);
    if items.len() == 0 {
        assert(stream_rows(items).len() == rows.len());
        assert(rows =~= Seq::<Seq<ValueV>>::empty());
        lemma_shows_nothing(schema, columns);
        assert(out =~= Seq::empty());
    } else {
        lemma_shows_split(items, schema, names, rows);
        let b = items[0]->Ok_0;
        let n = b.num_rows() as int;
        lemma_projected_batch(b, schema, rows.take(n), columns);
        lemma_project_shows(items.skip(1), schema, names, rows.skip(n), columns);
        let r = projected_batch(b, columns)->Ok_0;
        lemma_shows_join(
            r,
            projected_items(columns, items.skip(1)),
            schema,
            columns,
            rows.take(n),
            rows.skip(n),
        );
        assert(out =~= seq![Ok::<BatchV, ErrorV>(r)] + projected_items(columns, items.skip(1)));
    }
}

// ---- scans ----

/// Two neighbouring runs of rows are one run.
proof fn lemma_rows_join(t: TableV, a: int, b: int, c: int)
    requires
        a <= b <= c,
    ensures
        rows_between(t, a, b) + rows_between(t, b, c) == rows_between(t, a, c),
    decreases c - b,
{
    if b < c {
        lemma_rows_join(t, a, b, c - 1);
        let x = rows_between(t, a, b);
        let y = rows_between(t, b, c - 1);
        assert((x + y).push(t.rows[c - 1]) =~= x + y.push(t.rows[c - 1]));
    } else {
        assert(rows_between(t, a, b) + rows_between(t, b, c) =~= rows_between(t, a, c));
    }
}

/// Every row of a run is a live row of the table.
proof fn lemma_rows_live(t: TableV, from: int, to: int, i: int)
    requires
        0 <= from,
        to <= t.rows.len(),
        0 <= i < rows_between(t, from, to).len(),
    ensures
        exists|r: int|
            from <= r < to && t.live(r) && rows_between(t, from, to)[i] == #[trigger] t.rows[r],
    decreases to - from,
{
    if from < to {
        let before = rows_between(t, from, to - 1);
        if i < before.len() {
            lemma_rows_live(t, from, to - 1, i);
            let r = choose|r: int|
                from <= r < to - 1 && t.live(r) && before[i] == #[trigger] t.rows[r];
            assert(rows_between(t, from, to)[i] == t.rows[r]);
        } else {
            assert(t.live(to - 1));
            assert(rows_between(t, from, to)[i] == t.rows[to - 1]);
        }
    }
}

/// The live values of a column, from the live rows.
proof fn lemma_live_column(t: TableV, group: int, c: int, n: int)
    requires
        0 <= n,
    ensures
        live_column(t, group, c, n) == keys_of(
            rows_between(t, t.first(group), t.first(group) + n),
            c,
        ),
    decreases n,
{
    let first = t.first(group);
    if n > 0 {
        lemma_live_column(t, group, c, n - 1);
        let before = rows_between(t, first, first + n - 1);
        if !t.deleted[first + n - 1] {
            assert(keys_of(before.push(t.rows[first + n - 1]), c) =~= keys_of(before, c).push(
                t.rows[first + n - 1][c],
            ));
        }
    }
    assert(live_column(t, group, c, n) =~= keys_of(rows_between(t, first, first + n), c));
}

/// The batch of a group shows its live rows.
proof fn lemma_live_batch(t: TableV, names: Seq<Seq<char>>, group: int)
    requires
        names.len() > 0,
        0 <= t.group_len(group),
    ensures
        even(live_batch(t, names, group)),
        batch_rows(live_batch(t, names, group)) == rows_columns(
            t.schema,
            names,
            rows_between(t, t.first(group), t.first(group) + t.group_len(group)),
        ),
{
    let b = live_batch(t, names, group);
    let n = t.group_len(group);
    let rows = rows_between(t, t.first(group), t.first(group) + n);
    assert forall|i: int| 0 <= i < names.len() implies #[trigger] b.columns[i] == keys_of(
        rows,
        column_index(t.schema, names[i]),
    ) by {
        lemma_live_column(t, group, column_index(t.schema, names[i]), n);
    }
    assert(b.columns[0].len() == rows.len());
    assert forall|r: int| 0 <= r < rows.len() implies #[trigger] batch_rows(b)[r] == row_columns(
        t.schema,
        names,
        rows[r],
    ) by {
        assert(row_of(b, r) =~= row_columns(t.schema, names, rows[r])) by {
            assert forall|i: int| 0 <= i < names.len() implies row_of(b, r)[i] == row_columns(
                t.schema,
                names,
                rows[r],
            )[i] by {
                assert(b.columns[i] == keys_of(rows, column_index(t.schema, names[i])));
            }
        }
    }
    assert(batch_rows(b) =~= rows_columns(t.schema, names, rows));
}

/// Whether a scan skips a group.
spec fn skips(s: BatchScanV, group: int) -> bool {
    pruned_from(s.disk, s.dir, group as u32, s.prune, 0) == Ok::<bool, ErrorV>(true)
}

/// The live rows of the groups that a scan does not skip, from `group` on.
spec fn scanned_rows(s: BatchScanV, t: TableV, group: int) -> Seq<Seq<ValueV>>
    decreases u32::MAX + 1 - group,
{
    if group > u32::MAX || t.first(group) >= t.rows.len() {
        Seq::empty()
    } else {
        let here = if skips(s, group) {
            Seq::empty()
        } else {
            rows_between(t, t.first(group), t.first(group) + t.group_len(group))
        };
        here + scanned_rows(s, t, group + 1)
    }
}

/// A scan of a table that the store holds.
spec fn scans(s: BatchScanV, store: StoreV, h: HandleV, t: TableV, prune: Seq<ScanPredicateV>) -> bool {
    &&& represents(store, h, t)
    &&& s.disk == store.disk
    &&& s.dir == h.dir
    &&& s.prune == usable_predicates(t.schema, prune)
    &&& s.row_group_size == t.row_group_size
    &&& s.total_rows == t.rows.len()
}

/// The next group starts where a full group ends.
proof fn lemma_next_group(t: TableV, group: int)
    requires
        t.wf(),
        0 <= group,
    ensures
        0 <= t.first(group),
        t.first(group + 1) == t.first(group) + t.row_group_size,
        t.first(group) < t.rows.len() ==> (t.first(group) + t.group_len(group) == t.first(group + 1)
            || t.first(group) + t.group_len(group) == t.rows.len()) && t.first(group)
            + t.group_len(group) <= t.rows.len() && t.group_len(group) >= 0,
        group > u32::MAX ==> t.first(group) >= t.rows.len(),
{
    let size = t.row_group_size as int;
    assert(0 <= group * size && (group + 1) * size == group * size + size) by (nonlinear_arith)
        requires
            0 <= group,
            0 < size,
    ;
    if group > u32::MAX {
        assert(group * size >= u32::MAX * size) by (nonlinear_arith)
            requires
                group > u32::MAX,
                0 < size,
        ;
    }
}

/// A scan shows the live rows of the groups that it does not skip.
proof fn lemma_scan_shows(
    s: BatchScanV,
    store: StoreV,
    h: HandleV,
    t: TableV,
    prune: Seq<ScanPredicateV>,
    group: int,
)
    requires
        scans(s, store, h, t, prune),
        known_names(t.schema, s.projected),
        s.projected.len() > 0,
        0 <= group <= u32::MAX + 1,
    ensures
        shows(scan_items(s, group), t.schema, s.projected, scanned_rows(s, t, group)),
    decreases u32::MAX + 1 - group,
{
    lemma_next_group(t, group);
    if group > u32::MAX || t.first(group) >= t.rows.len() {
        lemma_shows_nothing(t.schema, s.projected);
    } else {
        let g = group as u32;
        let names = s.projected;
        let rest = scanned_rows(s, t, group + 1);
        let here = rows_between(t, t.first(group), t.first(group) + t.group_len(group));
        lemma_scan_shows(s, store, h, t, prune, group + 1);
        law_pruned_groups_have_no_match(store, h, t, prune, g);
        if skips(s, group) {
            assert(Seq::<Seq<ValueV>>::empty() + rest =~= rest);
        } else {
            assert(group_ok(store.disk, h.dir, t, g));
            let bits = choose|b: Seq<u8>| group_holds(store.disk, h.dir, t, g, b);
            lemma_group_batch(s.disk, s.dir, t, g, bits, names);
            lemma_live_batch(t, names, group);
            let b = live_batch(t, names, group);
            assert(batch_rows(b).len() == here.len());
            if b.columns[0].len() == 0 {
                assert(here + rest =~= rest);
            } else {
                lemma_shows_join(b, scan_items(s, group + 1), t.schema, names, here, rest);
            }
        }
    }
}

/// A scan without hints skips nothing.
proof fn lemma_scan_without_hints(s: BatchScanV, t: TableV, group: int)
    requires
        t.wf(),
        s.prune.len() == 0,
        0 <= group <= u32::MAX + 1,
    ensures
        scanned_rows(s, t, group) == rows_between(t, t.first(group), t.rows.len() as int),
    decreases u32::MAX + 1 - group,
{
    lemma_next_group(t, group);
    if group <= u32::MAX && t.first(group) < t.rows.len() {
        lemma_scan_without_hints(s, t, group + 1);
        lemma_next_group(t, group + 1);
        let end = t.first(group) + t.group_len(group);
        lemma_rows_join(t, t.first(group), end, t.rows.len() as int);
        assert(rows_between(t, t.first(group + 1), t.rows.len() as int) =~= rows_between(
            t,
            end,
            t.rows.len() as int,
        ));
    }
}

/// Every batch of a scan has a row.
proof fn lemma_scan_has_rows(
    s: BatchScanV,
    store: StoreV,
    h: HandleV,
    t: TableV,
    prune: Seq<ScanPredicateV>,
    group: int,
)
    requires
        scans(s, store, h, t, prune),
        known_names(t.schema, s.projected),
        s.projected.len() > 0,
        0 <= group <= u32::MAX + 1,
    ensures
        forall|i: int|
            0 <= i < scan_items(s, group).len() ==> (#[trigger] scan_items(
                s,
                group,
            )[i])->Ok_0.num_rows() > 0,
    decreases u32::MAX + 1 - group,
{
    lemma_next_group(t, group);
    if group <= u32::MAX && t.first(group) < t.rows.len() {
        let g = group as u32;
        lemma_scan_has_rows(s, store, h, t, prune, group + 1);
        law_pruned_groups_have_no_match(store, h, t, prune, g);
        assert(group_ok(store.disk, h.dir, t, g));
        let bits = choose|b: Seq<u8>| group_holds(store.disk, h.dir, t, g, b);
        lemma_group_batch(s.disk, s.dir, t, g, bits, s.projected);
        let items = scan_items(s, group);
        let rest = scan_items(s, group + 1);
        assert forall|i: int| 0 <= i < items.len() implies (
        #[trigger] items[i])->Ok_0.num_rows() > 0 by {
            if items.len() == rest.len() + 1 {
                if i > 0 {
                    assert(items[i] == rest[i - 1]);
                }
            } else {
                assert(items[i] == rest[i]);
            }
        }
    }
}

/// A batch scan without hints lists the live rows in the order of their
/// identifiers, and no others, with the requested columns in their order; every
/// batch has these columns, all of one length, and at least one row.
pub proof fn law_batch_scan_lists_the_live_rows(
    store: StoreV,
    h: HandleV,
    t: TableV,
    projection: Option<Seq<Seq<char>>>,
)
    requires
        represents(store, h, t),
        projection matches Some(names) ==> names.len() > 0 && known_names(t.schema, names),
    ensures
        ({
            let names = match projection {
                None => column_names(t.schema),
                Some(names) => names,
            };
            let scan = batch_scan_of(store, h, projection, Seq::empty());
            let items = scan_items(scan->Ok_0, 0);
            &&& scan is Ok
            &&& clean(items, names)
            &&& forall|i: int|
                0 <= i < items.len() ==> (#[trigger] items[i])->Ok_0.num_rows() > 0
            &&& stream_rows(items) == rows_columns(t.schema, names, table_rows(t))
        }),
{
    let none = Seq::<ScanPredicateV>::empty();
    lemma_scan_starts(store, h, t, projection, none);
    lemma_all_names_known(t.schema);
    let s = batch_scan_of(store, h, projection, none)->Ok_0;
    assert(t.rows.len() <= u64::MAX) by (nonlinear_arith)
        requires
            t.rows.len() <= u32::MAX * t.row_group_size,
    ;
    assert(scans(s, store, h, t, none));
    assert(t.first(0) == 0) by (nonlinear_arith)
        requires
            t.first(0) == 0 * t.row_group_size,
    ;
    lemma_scan_shows(s, store, h, t, none, 0);
    lemma_scan_has_rows(s, store, h, t, none, 0);
    lemma_scan_without_hints(s, t, 0);
}

/// The hints of a condition hold of every row that meets it.
pub proof fn law_hints_follow_from_the_condition(
    e: ExprV,
    schema: Seq<ColumnV>,
    row: Seq<ValueV>,
    k: int,
)
    requires
        meets(e, schema, row),
        0 <= k < hints(e).len(),
    ensures
        row_satisfies(schema, row, hints(e)[k]),
    decreases e,
{
    match e {
        ExprV::Logical { left, op, right } => {
            if op == LogicalOp::And {
                if k < hints(*left).len() {
                    law_hints_follow_from_the_condition(*left, schema, row, k);
                } else {
                    law_hints_follow_from_the_condition(
                        *right,
                        schema,
                        row,
                        k - hints(*left).len(),
                    );
                }
            }
        },
        ExprV::Compare { left, op, right } => {
            let p = hint_of(*left, op, *right)->0;
            assert(hints(e)[k] == p);
        },
        _ => {},
    }
}

/// Where no row meets a condition, none is left.
proof fn lemma_meeting_none(e: ExprV, schema: Seq<ColumnV>, rows: Seq<Seq<ValueV>>)
    requires
        forall|i: int| 0 <= i < rows.len() ==> !meets(e, schema, #[trigger] rows[i]),
    ensures
        meeting(e, schema, rows) == Seq::<Seq<ValueV>>::empty(),
    decreases rows.len(),
{
    if rows.len() > 0 {
        assert(rows.last() == rows[rows.len() - 1]);
        assert forall|i: int| 0 <= i < rows.drop_last().len() implies !meets(
            e,
            schema,
            #[trigger] rows.drop_last()[i],
        ) by {
            assert(rows[i] == rows.drop_last()[i]);
        }
        lemma_meeting_none(e, schema, rows.drop_last());
    }
}

/// Under the hints of a condition, a scan skips no row that meets it.
proof fn lemma_scan_with_hints(
    s: BatchScanV,
    store: StoreV,
    h: HandleV,
    t: TableV,
    e: ExprV,
    group: int,
)
    requires
        scans(s, store, h, t, hints(e)),
        0 <= group <= u32::MAX + 1,
    ensures
        meeting(e, t.schema, scanned_rows(s, t, group)) == meeting(
            e,
            t.schema,
            rows_between(t, t.first(group), t.rows.len() as int),
        ),
    decreases u32::MAX + 1 - group,
{
    lemma_next_group(t, group);
    if group <= u32::MAX && t.first(group) < t.rows.len() {
        let g = group as u32;
        let first = t.first(group);
        let end = first + t.group_len(group);
        let all = t.rows.len() as int;
        let here = rows_between(t, first, end);
        let rest = scanned_rows(s, t, group + 1);
        lemma_scan_with_hints(s, store, h, t, e, group + 1);
        lemma_next_group(t, group + 1);
        assert(rows_between(t, t.first(group + 1), all) =~= rows_between(t, end, all));
        lemma_rows_join(t, first, end, all);
        lemma_meeting_concat(e, t.schema, here, rows_between(t, end, all));
        if skips(s, group) {
            law_pruned_groups_have_no_match(store, h, t, hints(e), g);
            assert forall|i: int| 0 <= i < here.len() implies !meets(
                e,
                t.schema,
                #[trigger] here[i],
            ) by {
                lemma_rows_live(t, first, end, i);
                let r = choose|r: int|
                    first <= r < end && t.live(r) && here[i] == #[trigger] t.rows[r];
                let o = r - first;
                assert(t.rows[first + o] == here[i]);
                let k = choose|k: int|
                    0 <= k < hints(e).len() && !row_satisfies(
                        t.schema,
                        t.rows[first + o],
                        #[trigger] hints(e)[k],
                    );
                if meets(e, t.schema, here[i]) {
                    law_hints_follow_from_the_condition(e, t.schema, here[i], k);
                }
            }
            lemma_meeting_none(e, t.schema, here);
            assert(Seq::<Seq<ValueV>>::empty() + rest =~= rest);
            assert(Seq::<Seq<ValueV>>::empty() + meeting(e, t.schema, rest) =~= meeting(
                e,
                t.schema,
                rest,
            ));
        } else {
            lemma_meeting_concat(e, t.schema, here, rest);
        }
    }
}

// ---- plans ----

/// The operators of a SELECT over a scan of `scan`, with the sort and the limit
/// in one where `fuse` says so.
spec fn pipeline(
    schema: Seq<ColumnV>,
    sel: SelectV,
    scan: Option<Seq<Seq<char>>>,
    fuse: bool,
) -> PhysicalPlanV {
    let base = PhysicalPlanV::TableScanExec {
        table: sel.from,
        projection: scan,
        prune: match sel.filter {
            None => Seq::empty(),
            Some(e) => hints(e),
        },
    };
    let filtered = match sel.filter {
        None => base,
        Some(predicate) => PhysicalPlanV::FilterExec { predicate, input: Box::new(base) },
    };
    let tail = match (sel.order_by, sel.limit) {
        (None, None) => filtered,
        (None, Some(count)) => PhysicalPlanV::LimitExec { count, input: Box::new(filtered) },
        (Some(o), None) => PhysicalPlanV::SortExec {
            column: o.column,
            descending: o.descending,
            input: Box::new(filtered),
        },
        (Some(o), Some(count)) => if fuse {
            PhysicalPlanV::TopKExec {
                column: o.column,
                descending: o.descending,
                count,
                input: Box::new(filtered),
            }
        } else {
            PhysicalPlanV::LimitExec {
                count,
                input: Box::new(
                    PhysicalPlanV::SortExec {
                        column: o.column,
                        descending: o.descending,
                        input: Box::new(filtered),
                    },
                ),
            }
        },
    };
    PhysicalPlanV::ProjectionExec {
        columns: projected_columns(schema, sel.projections),
        input: Box::new(tail),
    }
}

/// The scan's columns are enough for a SELECT: they are in the table, and all
/// that it names are among them.
spec fn enough(schema: Seq<ColumnV>, sel: SelectV, names: Seq<Seq<char>>) -> bool {
    let columns = projected_columns(schema, sel.projections);
    &&& names.len() > 0
    &&& known_names(schema, names)
    &&& forall|i: int| 0 <= i < columns.len() ==> names.contains(#[trigger] columns[i])
    &&& sel.filter matches Some(e) ==> forall|i: int|
        0 <= i < expr_columns(e).len() ==> names.contains(#[trigger] expr_columns(e)[i])
    &&& sel.order_by matches Some(o) ==> names.contains(o.column)
}

/// A SELECT that the binder accepts, and that lists a column.
pub open spec fn bindable(t: TableV, sel: SelectV) -> bool {
    &&& select_error(t.schema, sel) is None
    &&& sel.projections matches ProjectionV::Columns(names) ==> names.len() > 0
}

/// A SELECT that the binder accepts: it lists a column, and its condition is
/// one.
pub open spec fn sound_select(t: TableV, sel: SelectV) -> bool {
    &&& bindable(t, sel)
    &&& sel.filter matches Some(e) ==> is_condition(e)
}

/// The scan and the filter of a SELECT.
proof fn lemma_base(
    store: StoreV,
    h: HandleV,
    t: TableV,
    sel: SelectV,
    scan: Option<Seq<Seq<char>>>,
    names: Seq<Seq<char>>,
) -> (items: Items)
    requires
        represents(store, h, t),
        sel.from == h.name,
        sound_select(t, sel),
        enough(t.schema, sel, names),
        names == (match scan {
            None => column_names(t.schema),
            Some(list) => list,
        }),
    ensures
        ({
            let prune = match sel.filter {
                None => Seq::empty(),
                Some(e) => hints(e),
            };
            let base = PhysicalPlanV::TableScanExec { table: sel.from, projection: scan, prune };
            let (plan, rows) = match sel.filter {
                None => (base, table_rows(t)),
                Some(predicate) => (
                    PhysicalPlanV::FilterExec { predicate, input: Box::new(base) },
                    meeting(predicate, t.schema, table_rows(t)),
                ),
            };
            &&& stream_of(plan, store) == Ok::<Items, ErrorV>(items)
            &&& shows(items, t.schema, names, rows)
        }),
{
    let prune = match sel.filter {
        None => Seq::empty(),
        Some(e) => hints(e),
    };
    let base = PhysicalPlanV::TableScanExec { table: sel.from, projection: scan, prune };
    lemma_scan_starts(store, h, t, scan, prune);
    let s = batch_scan_of(store, h, scan, prune)->Ok_0;
    assert(t.rows.len() <= u64::MAX) by (nonlinear_arith)
        requires
            t.rows.len() <= u32::MAX * t.row_group_size,
    ;
    assert(scans(s, store, h, t, prune));
    lemma_scan_shows(s, store, h, t, prune, 0);
    assert(t.first(0) == 0) by (nonlinear_arith)
        requires
            t.first(0) == 0 * t.row_group_size,
    ;
    let scanned = scan_items(s, 0);
    assert(stream_of(base, store) == Ok::<Items, ErrorV>(scanned));
    match sel.filter {
        None => {
            lemma_scan_without_hints(s, t, 0);
            scanned
        },
        Some(e) => {
            lemma_scan_with_hints(s, store, h, t, e, 0);
            lemma_filter_shows(e, scanned, t.schema, names, scanned_rows(s, t, 0));
            let plan = PhysicalPlanV::FilterExec { predicate: e, input: Box::new(base) };
            reveal_with_fuel(stream_of, 2);
            assert(stream_of(plan, store) == Ok::<Items, ErrorV>(filtered_items(e, scanned)));
            filtered_items(e, scanned)
        },
    }
}

/// Running the operators of a SELECT gives its result.
proof fn lemma_pipeline(
    store: StoreV,
    h: HandleV,
    t: TableV,
    sel: SelectV,
    scan: Option<Seq<Seq<char>>>,
    names: Seq<Seq<char>>,
    fuse: bool,
)
    requires
        represents(store, h, t),
        sel.from == h.name,
        sound_select(t, sel),
        enough(t.schema, sel, names),
        names == (match scan {
            None => column_names(t.schema),
            Some(list) => list,
        }),
    ensures
        queried(pipeline(t.schema, sel, scan, fuse), store) == Ok::<QueryResultV, ErrorV>(
            selected(t, sel),
        ),
{
    let schema = t.schema;
    let columns = projected_columns(schema, sel.projections);
    let prune = match sel.filter {
        None => Seq::empty(),
        Some(e) => hints(e),
    };
    let base = PhysicalPlanV::TableScanExec { table: sel.from, projection: scan, prune };
    let (filtered, rows) = match sel.filter {
        None => (base, table_rows(t)),
        Some(predicate) => (
            PhysicalPlanV::FilterExec { predicate, input: Box::new(base) },
            meeting(predicate, schema, table_rows(t)),
        ),
    };
    let items = lemma_base(store, h, t, sel, scan, names);
    let plan = pipeline(schema, sel, scan, fuse);
    let tail = *plan->ProjectionExec_input;
    let chosen = chosen_rows(t, sel);
    let out = match (sel.order_by, sel.limit) {
        (None, None) => items,
        (None, Some(count)) => {
            lemma_limit_shows(items, schema, names, rows, count as int);
            assert(stream_of(tail, store) == Ok::<Items, ErrorV>(
                limited_items(count as int, items),
            ));
            limited_items(count as int, items)
        },
        (Some(o), None) => {
            lemma_sort_shows(items, schema, names, rows, o.column, o.descending, 0);
            assert(stream_of(tail, store) == blocking_items(
                sorted(items, o.column, o.descending),
            ));
            blocking_items(sorted(items, o.column, o.descending))->Ok_0
        },
        (Some(o), Some(count)) => {
            lemma_sort_shows(items, schema, names, rows, o.column, o.descending, count as int);
            let c = column_index(schema, o.column);
            if fuse {
                assert(stream_of(tail, store) == blocking_items(
                    top_rows(items, o.column, o.descending, count as int),
                ));
                blocking_items(top_rows(items, o.column, o.descending, count as int))->Ok_0
            } else {
                let mid = blocking_items(sorted(items, o.column, o.descending))->Ok_0;
                lemma_limit_shows(
                    mid,
                    schema,
                    names,
                    sorted_rows(rows, c, o.descending),
                    count as int,
                );
                let inner = *tail->LimitExec_input;
                assert(stream_of(inner, store) == Ok::<Items, ErrorV>(mid));
                assert(stream_of(tail, store) == Ok::<Items, ErrorV>(
                    limited_items(count as int, mid),
                ));
                limited_items(count as int, mid)
            }
        },
    };
    assert(stream_of(tail, store) == Ok::<Items, ErrorV>(out));
    assert(shows(out, schema, names, chosen));
    assert(columns.len() > 0);
    lemma_project_shows(out, schema, names, chosen, columns);
    let last = projected_items(columns, out);
    assert(stream_of(plan, store) == Ok::<Items, ErrorV>(last));
    lemma_collected_rows(Seq::empty(), last, columns);
    assert(Seq::<Seq<ValueV>>::empty() + stream_rows(last) =~= stream_rows(last));
}

/// Each of the names is among the distinct ones, and nothing else is.
proof fn lemma_distinct(names: Seq<Seq<char>>)
    ensures
        forall|i: int| 0 <= i < names.len() ==> distinct(names).contains(#[trigger] names[i]),
        forall|i: int|
            0 <= i < distinct(names).len() ==> names.contains(#[trigger] distinct(names)[i]),
    decreases names.len(),
{
    if names.len() > 0 {
        let front = names.drop_last();
        lemma_distinct(front);
        let d = distinct(front);
        let all = distinct(names);
        assert forall|i: int| 0 <= i < names.len() implies all.contains(#[trigger] names[i]) by {
            if i < front.len() {
                assert(front[i] == names[i]);
                let k = choose|k: int| 0 <= k < d.len() && d[k] == names[i];
                assert(all[k] == names[i]);
            } else if !d.contains(names.last()) {
                assert(all[d.len() as int] == names[i]);
            }
        }
        assert forall|i: int| 0 <= i < all.len() implies names.contains(#[trigger] all[i]) by {
            if i < d.len() {
                assert(all[i] == d[i]);
                let k = choose|k: int| 0 <= k < front.len() && front[k] == d[i];
                assert(names[k] == d[i]);
            } else {
                assert(names[names.len() - 1] == all[i]);
            }
        }
    }
}

/// Every column that a sound SELECT names is in the table.
proof fn lemma_select_names(t: TableV, sel: SelectV)
    requires
        bindable(t, sel),
        t.wf(),
    ensures
        known_names(t.schema, projected_columns(t.schema, sel.projections)),
        projected_columns(t.schema, sel.projections).len() > 0,
        sel.filter matches Some(e) ==> known_names(t.schema, expr_columns(e)),
        sel.order_by matches Some(o) ==> has_column(t.schema, o.column),
{
    let schema = t.schema;
    match sel.projections {
        ProjectionV::All => {
            lemma_all_names_known(schema);
        },
        ProjectionV::Columns(names) => {
            lemma_known(schema, names, sel.from, "SELECT"@);
        },
    }
    if let Some(e) = sel.filter {
        lemma_known(schema, expr_columns(e), sel.from, "WHERE"@);
    }
}

/// Names of which none is missing are known.
pub proof fn lemma_known(
    schema: Seq<ColumnV>,
    names: Seq<Seq<char>>,
    table: Seq<char>,
    clause: Seq<char>,
)
    requires
        missing_names(schema, names, table, clause) is None,
    ensures
        known_names(schema, names),
{
    let rule = missing_name(schema, names, table, clause);
    lemma_no_failure(0, names.len() as int, rule);
    assert forall|i: int| 0 <= i < names.len() implies has_column(schema, #[trigger] names[i]) by {
        assert(rule(i) is None);
    }
}

/// All columns of the table are enough for a sound SELECT.
proof fn lemma_all_enough(t: TableV, sel: SelectV)
    requires
        bindable(t, sel),
        t.wf(),
    ensures
        enough(t.schema, sel, column_names(t.schema)),
{
    let names = column_names(t.schema);
    lemma_select_names(t, sel);
    lemma_all_names_known(t.schema);
    assert forall|name: Seq<char>| #[trigger] has_column(t.schema, name) implies names.contains(
        name,
    ) by {
        let i = choose|i: int| 0 <= i < t.schema.len() && (#[trigger] t.schema[i]).name == name;
        assert(names[i] == name);
    }
    let columns = projected_columns(t.schema, sel.projections);
    assert forall|i: int| 0 <= i < columns.len() implies names.contains(#[trigger] columns[i]) by {
        assert(has_column(t.schema, columns[i]));
    }
    if let Some(e) = sel.filter {
        assert forall|i: int| 0 <= i < expr_columns(e).len() implies names.contains(
            #[trigger] expr_columns(e)[i],
        ) by {
            assert(has_column(t.schema, expr_columns(e)[i]));
        }
    }
}

/// The columns that a SELECT names, in the order in which the optimizer
/// collects them.
spec fn named(schema: Seq<ColumnV>, sel: SelectV) -> Seq<Seq<char>> {
    let columns = projected_columns(schema, sel.projections);
    let ordered = match sel.order_by {
        None => Seq::empty(),
        Some(o) => seq![o.column],
    };
    let filtered = match sel.filter {
        None => Seq::empty(),
        Some(e) => expr_columns(e),
    };
    columns + (ordered + filtered)
}

/// The columns that the optimizer puts on the scan are enough.
proof fn lemma_named_enough(t: TableV, sel: SelectV)
    requires
        bindable(t, sel),
        t.wf(),
    ensures
        enough(t.schema, sel, distinct(named(t.schema, sel))),
{
    let all = named(t.schema, sel);
    let names = distinct(all);
    let columns = projected_columns(t.schema, sel.projections);
    let ordered = match sel.order_by {
        None => Seq::empty(),
        Some(o) => seq![o.column],
    };
    let filtered = match sel.filter {
        None => Seq::empty(),
        Some(e) => expr_columns(e),
    };
    lemma_select_names(t, sel);
    lemma_distinct(all);
    let n = columns.len() as int;
    let m = ordered.len() as int;
    assert forall|i: int| 0 <= i < columns.len() implies names.contains(#[trigger] columns[i]) by {
        assert(all[i] == columns[i]);
    }
    if let Some(o) = sel.order_by {
        assert(all[n] == o.column);
    }
    if let Some(e) = sel.filter {
        assert forall|i: int| 0 <= i < expr_columns(e).len() implies names.contains(
            #[trigger] expr_columns(e)[i],
        ) by {
            assert(all[n + m + i] == filtered[i]);
        }
    }
    assert forall|i: int| 0 <= i < names.len() implies has_column(
        t.schema,
        #[trigger] names[i],
    ) by {
        let k = choose|k: int| 0 <= k < all.len() && all[k] == names[i];
        if k < n {
            assert(has_column(t.schema, columns[k]));
        } else if k < n + m {
            assert(all[k] == ordered[k - n]);
        } else {
            assert(all[k] == filtered[k - n - m]);
            assert(has_column(t.schema, expr_columns(sel.filter->0)[k - n - m]));
        }
    }
    assert(names.contains(columns[0]));
}

/// The physical plan of a SELECT, and that of its optimized plan.
proof fn lemma_select_lowered(schema: Seq<ColumnV>, sel: SelectV)
    ensures
        lowered(select_plan(schema, sel)) == pipeline(schema, sel, None, false),
        lowered(optimized(select_plan(schema, sel))) == pipeline(
            schema,
            sel,
            Some(distinct(named(schema, sel))),
            true,
        ),
{
    reveal_with_fuel(lowered_under, 6);
    reveal_with_fuel(fused, 6);
    reveal_with_fuel(with_scan_columns, 6);
    reveal_with_fuel(crate::execution::logical::optimizer::column_pushdown::has_scan, 6);
    reveal_with_fuel(crate::execution::logical::optimizer::column_pushdown::projected_names, 6);
    reveal_with_fuel(crate::execution::logical::optimizer::column_pushdown::extra_names, 6);
    let plan = select_plan(schema, sel);
    let f = fused(plan);
    assert(crate::execution::logical::optimizer::column_pushdown::projected_names(f)
        + crate::execution::logical::optimizer::column_pushdown::extra_names(f) =~= named(
        schema,
        sel,
    ));
}

/// A SELECT on a table that the store holds gives exactly the live rows that
/// meet the condition, sorted, cut off and with the chosen columns; and its
/// optimized plan, which reads fewer columns, skips row groups and keeps only
/// the first rows while sorting, gives the same.
pub proof fn law_select(store: StoreV, h: HandleV, t: TableV, sel: SelectV)
    requires
        represents(store, h, t),
        sel.from == h.name,
        sound_select(t, sel),
    ensures
        bound_select(store, sel) matches Ok(plan) && queried(lowered(plan), store) == Ok::<
            QueryResultV,
            ErrorV,
        >(selected(t, sel)) && queried(lowered(optimized(plan)), store) == Ok::<
            QueryResultV,
            ErrorV,
        >(selected(t, sel)),
{
    lemma_select_lowered(t.schema, sel);
    lemma_all_enough(t, sel);
    lemma_named_enough(t, sel);
    lemma_pipeline(store, h, t, sel, None, column_names(t.schema), false);
    let names = distinct(named(t.schema, sel));
    lemma_pipeline(store, h, t, sel, Some(names), names, true);
}

// ---- conditions that are none ----

/// What is wrong with a condition, if anything: the first part, from the left,
/// that is no comparison of columns and literals.
pub open spec fn condition_error(e: ExprV) -> Option<ErrorV>
    decreases e,
{
    match e {
        ExprV::Compare { left, op, right } => if is_operand(*left) && is_operand(*right) {
            None
        } else {
            Some(ErrorV::Other("a comparison operand must be a column or a literal"@))
        },
        ExprV::Logical { left, op, right } => match condition_error(*left) {
            Some(error) => Some(error),
            None => condition_error(*right),
        },
        _ => Some(
            ErrorV::Other(
                "filter predicate must be a boolean expression, not a bare column or literal"@,
            ),
        ),
    }
}

/// A condition is one exactly where nothing is wrong with it, and the same is
/// wrong with it in every batch that has its columns.
proof fn lemma_condition_error(e: ExprV, b: BatchV)
    requires
        forall|i: int|
            0 <= i < expr_columns(e).len() ==> b.names.contains(#[trigger] expr_columns(e)[i]),
    ensures
        is_condition(e) == (condition_error(e) is None),
        condition_error(e) is None ==> mask_of(e, b) is Ok,
        condition_error(e) matches Some(error) ==> mask_of(e, b) == Err::<Seq<bool>, ErrorV>(error),
    decreases e,
{
    match e {
        ExprV::Compare { left, op, right } => {
            lemma_columns_split(*left, *right, expr_columns(e), b.names);
            if let ExprV::Column(name) = *left {
                assert(expr_columns(*left)[0] == name);
                lemma_position(b.names, name, 0);
            }
            if let ExprV::Column(name) = *right {
                assert(expr_columns(*right)[0] == name);
                lemma_position(b.names, name, 0);
            }
        },
        ExprV::Logical { left, op, right } => {
            lemma_columns_split(*left, *right, expr_columns(e), b.names);
            lemma_condition_error(*left, b);
            lemma_condition_error(*right, b);
        },
        _ => {},
    }
}

/// How many values of a group are live is the same in every column.
proof fn lemma_live_count(t: TableV, group: int, a: int, b: int, n: int)
    ensures
        live_column(t, group, a, n).len() == live_column(t, group, b, n).len(),
    decreases n,
{
    if n > 0 {
        lemma_live_count(t, group, a, b, n - 1);
    }
}

/// Two scans with the same hints yield equally many batches, whichever columns
/// they read.
proof fn lemma_scan_lengths(
    a: BatchScanV,
    b: BatchScanV,
    store: StoreV,
    h: HandleV,
    t: TableV,
    prune: Seq<ScanPredicateV>,
    group: int,
)
    requires
        represents(store, h, t),
        scans(a, store, h, t, prune),
        scans(b, store, h, t, prune),
        a.projected.len() > 0,
        b.projected.len() > 0,
        known_names(t.schema, a.projected),
        known_names(t.schema, b.projected),
        0 <= group <= u32::MAX + 1,
        0 <= t.first(group),
    ensures
        scan_items(a, group).len() == scan_items(b, group).len(),
    decreases u32::MAX + 1 - group,
{
    if group <= u32::MAX && t.first(group) < t.rows.len() {
        let g = group as u32;
        assert(group_ok(store.disk, h.dir, t, g));
        let bits = choose|x: Seq<u8>| group_holds(store.disk, h.dir, t, g, x);
        lemma_group_batch(a.disk, a.dir, t, g, bits, a.projected);
        lemma_group_batch(b.disk, b.dir, t, g, bits, b.projected);
        lemma_live_count(
            t,
            group,
            column_index(t.schema, a.projected[0]),
            column_index(t.schema, b.projected[0]),
            t.group_len(group),
        );
        lemma_next_group(t, group);
        lemma_scan_lengths(a, b, store, h, t, prune, group + 1);
    }
}

/// What a SELECT gives whose condition is none: no rows where no batch is asked
/// for, and otherwise what is wrong with the condition.
pub open spec fn refused(
    schema: Seq<ColumnV>,
    sel: SelectV,
    error: ErrorV,
    batches: nat,
) -> Result<QueryResultV, ErrorV> {
    if batches == 0 || (sel.order_by is None && sel.limit == Some(0u64)) {
        Ok(
            QueryResultV::Rows {
                names: projected_columns(schema, sel.projections),
                rows: Seq::empty(),
            },
        )
    } else {
        Err(error)
    }
}

/// Collecting the rows of a stream that is empty, or that starts with an error.
proof fn lemma_failing_rows(columns: Seq<Seq<char>>, items: Items, error: ErrorV)
    requires
        items.len() > 0 ==> items[0] == Err::<BatchV, ErrorV>(error),
    ensures
        rows_result(columns, projected_items(columns, items)) == if items.len() == 0 {
            Ok::<QueryResultV, ErrorV>(QueryResultV::Rows { names: columns, rows: Seq::empty() })
        } else {
            Err(error)
        },
{
    let out = projected_items(columns, items);
    if items.len() == 0 {
        assert(out =~= Seq::<Result<BatchV, ErrorV>>::empty());
    } else {
        assert(out[0] == Err::<BatchV, ErrorV>(error));
    }
}

/// Sorting a stream that is empty, or that starts with an error.
proof fn lemma_failing_sort(
    items: Items,
    column: Seq<char>,
    descending: bool,
    count: int,
    error: ErrorV,
)
    requires
        items.len() > 0 ==> items[0] == Err::<BatchV, ErrorV>(error),
    ensures
        items.len() == 0 ==> {
            &&& blocking_items(sorted(items, column, descending)) == Ok::<Items, ErrorV>(
                Seq::empty(),
            )
            &&& blocking_items(top_rows(items, column, descending, count)) == Ok::<Items, ErrorV>(
                Seq::empty(),
            )
        },
        items.len() > 0 ==> {
            &&& blocking_items(sorted(items, column, descending)) == Err::<Items, ErrorV>(error)
            &&& blocking_items(top_rows(items, column, descending, count)) == Err::<Items, ErrorV>(
                error,
            )
        },
{
}

/// Running the operators of a SELECT whose condition is none.
proof fn lemma_failing_pipeline(
    store: StoreV,
    h: HandleV,
    t: TableV,
    sel: SelectV,
    scan: Option<Seq<Seq<char>>>,
    names: Seq<Seq<char>>,
    fuse: bool,
)
    requires
        represents(store, h, t),
        sel.from == h.name,
        sel.filter matches Some(e) && !is_condition(e),
        enough(t.schema, sel, names),
        names == (match scan {
            None => column_names(t.schema),
            Some(list) => list,
        }),
    ensures
        ({
            let e = sel.filter->0;
            let scanned = scan_items(batch_scan_of(store, h, scan, hints(e))->Ok_0, 0);
            queried(pipeline(t.schema, sel, scan, fuse), store) == refused(
                t.schema,
                sel,
                condition_error(e)->0,
                scanned.len(),
            )
        }),
{
    let e = sel.filter->0;
    let schema = t.schema;
    let columns = projected_columns(schema, sel.projections);
    let prune = hints(e);
    let base = PhysicalPlanV::TableScanExec { table: sel.from, projection: scan, prune };
    lemma_scan_starts(store, h, t, scan, prune);
    let s = batch_scan_of(store, h, scan, prune)->Ok_0;
    assert(scans(s, store, h, t, prune));
    assert(t.first(0) == 0) by (nonlinear_arith)
        requires
            t.first(0) == 0 * t.row_group_size,
    ;
    lemma_scan_shows(s, store, h, t, prune, 0);
    let scanned = scan_items(s, 0);
    let items = filtered_items(e, scanned);
    let nothing = Seq::<Result<BatchV, ErrorV>>::empty();
    let plan = pipeline(schema, sel, scan, fuse);
    let tail = *plan->ProjectionExec_input;
    let filtered = PhysicalPlanV::FilterExec { predicate: e, input: Box::new(base) };
    assert(stream_of(base, store) == Ok::<Items, ErrorV>(scanned));
    assert(stream_of(filtered, store) == Ok::<Items, ErrorV>(items));
    let error = condition_error(e)->0;
    if scanned.len() > 0 {
        lemma_condition_error(e, scanned[0]->Ok_0);
        assert(items[0] == Err::<BatchV, ErrorV>(error));
    }
    let failing = scanned.len() > 0;
    match (sel.order_by, sel.limit) {
        (None, None) => {
            assert(stream_of(tail, store) == Ok::<Items, ErrorV>(items));
            lemma_failing_rows(columns, items, error);
        },
        (None, Some(count)) => {
            let out = limited_items(count as int, items);
            assert(stream_of(tail, store) == Ok::<Items, ErrorV>(out));
            if failing && count > 0 {
                assert(out[0] == Err::<BatchV, ErrorV>(error));
            } else {
                assert(out =~= nothing);
            }
            lemma_failing_rows(columns, out, error);
        },
        (Some(o), None) => {
            lemma_failing_sort(items, o.column, o.descending, 0, error);
            assert(stream_of(tail, store) == blocking_items(
                sorted(items, o.column, o.descending),
            ));
            lemma_failing_rows(columns, nothing, error);
        },
        (Some(o), Some(count)) => {
            lemma_failing_sort(items, o.column, o.descending, count as int, error);
            if fuse {
                assert(stream_of(tail, store) == blocking_items(
                    top_rows(items, o.column, o.descending, count as int),
                ));
            } else {
                let inner = *tail->LimitExec_input;
                assert(stream_of(inner, store) == blocking_items(
                    sorted(items, o.column, o.descending),
                ));
            }
            lemma_failing_rows(columns, nothing, error);
        },
    }
}

/// A SELECT whose condition is none, such as a bare column, has the same outcome
/// with its own plan and with the optimized one: no rows where no batch is asked
/// for, and otherwise an error that says what is wrong with the condition.
pub proof fn law_select_without_a_condition(store: StoreV, h: HandleV, t: TableV, sel: SelectV)
    requires
        represents(store, h, t),
        sel.from == h.name,
        bindable(t, sel),
        sel.filter matches Some(e) && !is_condition(e),
    ensures
        ({
            let e = sel.filter->0;
            let scan = batch_scan_of(store, h, None, hints(e))->Ok_0;
            let result = refused(
                t.schema,
                sel,
                condition_error(e)->0,
                scan_items(scan, 0).len(),
            );
            bound_select(store, sel) matches Ok(plan) && queried(lowered(plan), store) == result
                && queried(lowered(optimized(plan)), store) == result
        }),
{
    let e = sel.filter->0;
    lemma_select_lowered(t.schema, sel);
    lemma_all_enough(t, sel);
    lemma_named_enough(t, sel);
    let names = distinct(named(t.schema, sel));
    lemma_failing_pipeline(store, h, t, sel, None, column_names(t.schema), false);
    lemma_failing_pipeline(store, h, t, sel, Some(names), names, true);
    lemma_scan_starts(store, h, t, None, hints(e));
    lemma_scan_starts(store, h, t, Some(names), hints(e));
    let a = batch_scan_of(store, h, None, hints(e))->Ok_0;
    let b = batch_scan_of(store, h, Some(names), hints(e))->Ok_0;
    assert(t.first(0) == 0) by (nonlinear_arith)
        requires
            t.first(0) == 0 * t.row_group_size,
    ;
    lemma_scan_lengths(a, b, store, h, t, hints(e), 0);
}

} // verus!
