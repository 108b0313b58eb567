//! What a query gives, said of the rows of its table and of other queries: how
//! WHERE, ORDER BY, LIMIT and the list of columns change the answer.

use vstd::prelude::*;

use crate::error::ErrorV;
use crate::execution::logical::binder::{bound_select, select_error};
use crate::execution::logical::optimizer::optimized;
use crate::execution::physical::executor::queried;
use crate::execution::physical::lower::lowered;
use crate::execution::physical::order::{
    before, law_ranking, law_ranking_has_no_repeats, precedes, ranked, value_less,
};
use crate::execution::physical::result::QueryResultV;
use crate::execution::select_laws::{
    chosen_rows, keys_of, law_select, meeting, meets, row_columns, rows_between, rows_columns,
    selected, sorted_rows, sound_select, table_rows,
};
use crate::parser::ast::{ProjectionV, SelectV};
use crate::storage::model::{column_names, has_column, record_error, HandleV, StoreV};
use crate::storage::scan_laws::{column_index, lemma_column_index};
use crate::storage::table_model::{represents, TableV};
use crate::storage::ValueV;
use crate::text::lemma_text_order;
use crate::text_laws::law_texts_are_in_dictionary_order;

verus! {

/// The answer to a query, run by its optimized plan.
pub open spec fn answer(store: StoreV, sel: SelectV) -> Result<QueryResultV, ErrorV> {
    match bound_select(store, sel) {
        Err(e) => Err(e),
        Ok(plan) => queried(lowered(optimized(plan)), store),
    }
}

/// The answer to a query is rows.
pub open spec fn gives(
    store: StoreV,
    sel: SelectV,
    names: Seq<Seq<char>>,
    rows: Seq<Seq<ValueV>>,
) -> bool {
    answer(store, sel) == Ok::<QueryResultV, ErrorV>(QueryResultV::Rows { names, rows })
}

// ---- the order of values ----

/// The order of values: integers as numbers, texts as in a dictionary, NULL
/// before everything else, integers before texts; and nothing comes before
/// itself.
pub proof fn law_order_of_values(x: i64, y: i64, s: Seq<char>, u: Seq<char>)
    ensures
        value_less(ValueV::Int(x), ValueV::Int(y)) <==> y - x > 0,
        value_less(ValueV::Text(s), ValueV::Text(u)) <==> exists|k: int|
            0 <= k <= s.len() && k < u.len() && #[trigger] s.take(k) == u.take(k) && (k == s.len()
                || s[k] < u[k]),
        value_less(ValueV::Null, ValueV::Int(x)),
        value_less(ValueV::Null, ValueV::Text(s)),
        value_less(ValueV::Int(x), ValueV::Text(s)),
        !value_less(ValueV::Int(x), ValueV::Null),
        !value_less(ValueV::Text(s), ValueV::Null),
        !value_less(ValueV::Text(s), ValueV::Int(x)),
        !value_less(ValueV::Null, ValueV::Null),
{
    law_texts_are_in_dictionary_order(s, u);
}

/// A descending order is the ascending one the other way round.
pub proof fn law_descending_is_the_other_way_round(a: ValueV, b: ValueV)
    ensures
        before(a, b, true) == before(b, a, false),
        before(a, b, false) == value_less(a, b),
{
}

// ---- the live rows ----

/// The numbers of the live rows among the first `n`.
proof fn lemma_live_numbers(t: TableV, n: int) -> (at: Seq<int>)
    requires
        0 <= n <= t.rows.len(),
    ensures
        forall|i: int, j: int| 0 <= i < j < at.len() ==> #[trigger] at[i] < #[trigger] at[j],
        forall|i: int| 0 <= i < at.len() ==> 0 <= #[trigger] at[i] < n && !t.deleted[at[i]],
        forall|r: int| 0 <= r < n && !(#[trigger] t.deleted[r]) ==> at.contains(r),
        rows_between(t, 0, n) == Seq::new(at.len(), |i: int| t.rows[at[i]]),
    decreases n,
{
    if n == 0 {
        let at = Seq::<int>::empty();
        assert(rows_between(t, 0, n) =~= Seq::new(at.len(), |i: int| t.rows[at[i]]));
        at
    } else {
        let earlier = lemma_live_numbers(t, n - 1);
        let at = if t.deleted[n - 1] {
            earlier
        } else {
            earlier.push(n - 1)
        };
        assert forall|r: int| 0 <= r < n && !(#[trigger] t.deleted[r]) implies at.contains(r) by {
            if r < n - 1 {
                assert(earlier.contains(r));
                let k = earlier.index_of(r);
                assert(at[k] == r);
            } else {
                assert(at[at.len() - 1] == r);
            }
        }
        assert(rows_between(t, 0, n) =~= Seq::new(at.len(), |i: int| t.rows[at[i]]));
        at
    }
}

/// Rows of a table are as long as its schema.
proof fn lemma_row_len(t: TableV, r: int)
    requires
        t.wf(),
        0 <= r < t.rows.len(),
    ensures
        t.rows[r].len() == t.schema.len(),
{
    assert(record_error(t.schema, t.rows[r]) is None);
}

/// The place of a column of the table.
proof fn lemma_place(t: TableV, c: int)
    requires
        t.wf(),
        0 <= c < t.schema.len(),
    ensures
        column_index(t.schema, t.schema[c].name) == c,
{
    assert(has_column(t.schema, t.schema[c].name));
    lemma_column_index(t.schema, t.schema[c].name);
    let i = column_index(t.schema, t.schema[c].name);
    if i != c {
        assert(t.schema[i].name != t.schema[c].name);
    }
}

/// All columns of a row are the row.
proof fn lemma_all_columns(t: TableV, rows: Seq<Seq<ValueV>>)
    requires
        t.wf(),
        forall|i: int| 0 <= i < rows.len() ==> (#[trigger] rows[i]).len() == t.schema.len(),
    ensures
        rows_columns(t.schema, column_names(t.schema), rows) == rows,
{
    let names = column_names(t.schema);
    assert forall|i: int| 0 <= i < rows.len() implies rows_columns(t.schema, names, rows)[i]
        == rows[i] by {
        assert forall|c: int| 0 <= c < names.len() implies row_columns(
            t.schema,
            names,
            rows[i],
        )[c] == rows[i][c] by {
            lemma_place(t, c);
        }
        assert(row_columns(t.schema, names, rows[i]) =~= rows[i]);
    }
    assert(rows_columns(t.schema, names, rows) =~= rows);
}

/// The rows that a condition leaves are rows that were there.
proof fn lemma_meeting_shape(t: TableV, e: crate::parser::ast::ExprV, rows: Seq<Seq<ValueV>>)
    requires
        forall|i: int| 0 <= i < rows.len() ==> (#[trigger] rows[i]).len() == t.schema.len(),
    ensures
        forall|i: int|
            0 <= i < meeting(e, t.schema, rows).len() ==> (#[trigger] meeting(
                e,
                t.schema,
                rows,
            )[i]).len() == t.schema.len(),
        meeting(e, t.schema, rows) == rows.filter(|r: Seq<ValueV>| meets(e, t.schema, r)),
    decreases rows.len(),
{
    reveal(Seq::filter);
    if rows.len() > 0 {
        let front = rows.drop_last();
        assert forall|i: int| 0 <= i < front.len() implies (#[trigger] front[i]).len()
            == t.schema.len() by {
            assert(front[i] == rows[i]);
        }
        lemma_meeting_shape(t, e, front);
    } else {
        assert(meeting(e, t.schema, rows) =~= rows);
    }
}

/// Chosen rows are as long as the schema.
proof fn lemma_chosen_shape(t: TableV, sel: SelectV)
    requires
        t.wf(),
    ensures
        forall|i: int|
            0 <= i < chosen_rows(t, sel).len() ==> (#[trigger] chosen_rows(t, sel)[i]).len()
                == t.schema.len(),
{
    let at = lemma_live_numbers(t, t.rows.len() as int);
    let all = table_rows(t);
    assert forall|i: int| 0 <= i < all.len() implies (#[trigger] all[i]).len()
        == t.schema.len() by {
        assert(all[i] == t.rows[at[i]]);
        lemma_row_len(t, at[i]);
    }
    let filtered = match sel.filter {
        None => all,
        Some(e) => meeting(e, t.schema, all),
    };
    if let Some(e) = sel.filter {
        lemma_meeting_shape(t, e, all);
    }
    if let Some(o) = sel.order_by {
        let c = column_index(t.schema, o.column);
        let keys = keys_of(filtered, c);
        let order = ranked(keys, o.descending);
        law_ranking(keys, 0, keys.len() as int, o.descending);
        let sorted = sorted_rows(filtered, c, o.descending);
        assert forall|i: int| 0 <= i < sorted.len() implies (#[trigger] sorted[i]).len()
            == t.schema.len() by {
            assert(0 <= order[i] < keys.len());
            assert(sorted[i] == filtered[order[i]]);
        }
    }
}

/// What a sound query gives.
proof fn lemma_answer(store: StoreV, h: HandleV, t: TableV, sel: SelectV)
    requires
        represents(store, h, t),
        sel.from == h.name,
        sound_select(t, sel),
    ensures
        answer(store, sel) == Ok::<QueryResultV, ErrorV>(selected(t, sel)),
        sel.projections is All ==> gives(store, sel, column_names(t.schema), chosen_rows(t, sel)),
{
    law_select(store, h, t, sel);
    lemma_chosen_shape(t, sel);
    lemma_all_columns(t, chosen_rows(t, sel));
}

/// `SELECT * FROM t` gives every row that was inserted and not deleted, once,
/// whole, in the order in which they were inserted, under the names of the
/// columns.
pub proof fn law_select_gives_the_live_rows(store: StoreV, h: HandleV, t: TableV) -> (at: Seq<int>)
    requires
        represents(store, h, t),
    ensures
        forall|i: int, j: int| 0 <= i < j < at.len() ==> #[trigger] at[i] < #[trigger] at[j],
        forall|r: int| #[trigger] at.contains(r) <==> 0 <= r < t.rows.len() && !t.deleted[r],
        gives(
            store,
            SelectV {
                projections: ProjectionV::All,
                from: h.name,
                filter: None,
                order_by: None,
                limit: None,
            },
            Seq::new(t.schema.len(), |c: int| t.schema[c].name),
            Seq::new(at.len(), |i: int| t.rows[at[i]]),
        ),
{
    let sel = SelectV {
        projections: ProjectionV::All,
        from: h.name,
        filter: None,
        order_by: None,
        limit: None,
    };
    let at = lemma_live_numbers(t, t.rows.len() as int);
    assert(select_error(t.schema, sel) is None);
    lemma_answer(store, h, t, sel);
    assert(column_names(t.schema) =~= Seq::new(t.schema.len(), |c: int| t.schema[c].name));
    assert forall|r: int| #[trigger] at.contains(r) implies 0 <= r < t.rows.len()
        && !t.deleted[r] by {
        let k = at.index_of(r);
        assert(at[k] == r);
    }
    at
}

/// WHERE keeps exactly the rows that meet the condition, in their order.
pub proof fn law_where(store: StoreV, h: HandleV, t: TableV, sel: SelectV)
    requires
        represents(store, h, t),
        sel.from == h.name,
        sound_select(t, sel),
        sel.projections is All,
        sel.order_by is None,
        sel.limit is None,
        sel.filter is Some,
    ensures
        ({
            let unfiltered = SelectV { filter: None, ..sel };
            let rows = answer(store, unfiltered)->Ok_0->Rows_rows;
            &&& answer(store, unfiltered) is Ok
            &&& gives(
                store,
                sel,
                answer(store, unfiltered)->Ok_0->Rows_names,
                rows.filter(|r: Seq<ValueV>| meets(sel.filter->0, t.schema, r)),
            )
        }),
{
    let unfiltered = SelectV { filter: None, ..sel };
    assert(select_error(t.schema, unfiltered) is None);
    lemma_answer(store, h, t, unfiltered);
    lemma_answer(store, h, t, sel);
    lemma_chosen_shape(t, unfiltered);
    lemma_meeting_shape(t, sel.filter->0, table_rows(t));
}

/// ORDER BY puts the rows of the same query without it in another order, each of
/// them once. Going down the answer, integers never fall and texts never go back
/// in the dictionary, or the other way round where the order is descending; NULL
/// stands before everything else, or behind it; and rows with the same value
/// keep the order that they had.
pub proof fn law_order_by(
    store: StoreV,
    h: HandleV,
    t: TableV,
    sel: SelectV,
    c: int,
) -> (order: Seq<int>)
    requires
        represents(store, h, t),
        sel.from == h.name,
        sound_select(t, sel),
        sel.projections is All,
        sel.limit is None,
        0 <= c < t.schema.len(),
        sel.order_by matches Some(o) && o.column == t.schema[c].name,
    ensures
        ({
            let rows = answer(store, SelectV { order_by: None, ..sel })->Ok_0->Rows_rows;
            let descending = sel.order_by->0.descending;
            &&& answer(store, SelectV { order_by: None, ..sel }) is Ok
            &&& answer(store, SelectV { order_by: None, ..sel })->Ok_0 is Rows
            &&& gives(
                store,
                sel,
                answer(store, SelectV { order_by: None, ..sel })->Ok_0->Rows_names,
                Seq::new(order.len(), |i: int| rows[order[i]]),
            )
            &&& order.len() == rows.len()
            &&& order.no_duplicates()
            &&& forall|p: int| 0 <= p < rows.len() <==> #[trigger] order.contains(p)
            &&& forall|i: int, j: int|
                0 <= i < j < order.len() ==> {
                    let a = rows[#[trigger] order[i]][c];
                    let b = rows[#[trigger] order[j]][c];
                    &&& a == b ==> order[i] < order[j]
                    &&& a matches ValueV::Int(x) ==> b matches ValueV::Int(y) ==> if descending {
                        x >= y
                    } else {
                        x <= y
                    }
                    &&& a matches ValueV::Text(x) ==> b matches ValueV::Text(y) ==> x == y
                        || exists|k: int|
                        0 <= k <= x.len() && k <= y.len() && #[trigger] x.take(k) == y.take(k)
                            && if descending {
                            k < x.len() && (k == y.len() || y[k] < x[k])
                        } else {
                            k < y.len() && (k == x.len() || x[k] < y[k])
                        }
                    &&& a is Null && !(b is Null) ==> !descending
                    &&& b is Null && !(a is Null) ==> descending
                }
        }),
{
    let o = sel.order_by->0;
    let unordered = SelectV { order_by: None, ..sel };
    assert(select_error(t.schema, unordered) is None);
    lemma_answer(store, h, t, unordered);
    lemma_answer(store, h, t, sel);
    lemma_place(t, c);
    let rows = chosen_rows(t, unordered);
    let keys = keys_of(rows, c);
    let order = ranked(keys, o.descending);
    law_ranking(keys, 0, keys.len() as int, o.descending);
    law_ranking_has_no_repeats(keys, 0, keys.len() as int, o.descending);
    assert(chosen_rows(t, sel) == sorted_rows(rows, c, o.descending));
    assert(chosen_rows(t, sel) =~= Seq::new(order.len(), |i: int| rows[order[i]]));
    assert forall|p: int| #[trigger] order.contains(p) implies 0 <= p < rows.len() by {
        let k = order.index_of(p);
        assert(order[k] == p);
    }
    assert forall|i: int, j: int| 0 <= i < j < order.len() implies {
        let a = rows[#[trigger] order[i]][c];
        let b = rows[#[trigger] order[j]][c];
        &&& a == b ==> order[i] < order[j]
        &&& a matches ValueV::Int(x) ==> b matches ValueV::Int(y) ==> if o.descending {
            x >= y
        } else {
            x <= y
        }
        &&& a matches ValueV::Text(x) ==> b matches ValueV::Text(y) ==> x == y || exists|k: int|
            0 <= k <= x.len() && k <= y.len() && #[trigger] x.take(k) == y.take(k)
                && if o.descending {
                k < x.len() && (k == y.len() || y[k] < x[k])
            } else {
                k < y.len() && (k == x.len() || x[k] < y[k])
            }
        &&& a is Null && !(b is Null) ==> !o.descending
        &&& b is Null && !(a is Null) ==> o.descending
    } by {
        let a = keys[order[i]];
        let b = keys[order[j]];
        assert(precedes(keys, order[i], order[j], o.descending));
        if let (ValueV::Text(x), ValueV::Text(y)) = (a, b) {
            lemma_text_order(x, y, x);
            law_texts_are_in_dictionary_order(x, y);
            law_texts_are_in_dictionary_order(y, x);
            if x != y && o.descending {
                let k = choose|k: int|
                    0 <= k <= y.len() && k < x.len() && #[trigger] y.take(k) == x.take(k) && (k
                        == y.len() || y[k] < x[k]);
                assert(x.take(k) == y.take(k));
            }
            if x != y && !o.descending {
                let k = choose|k: int|
                    0 <= k <= x.len() && k < y.len() && #[trigger] x.take(k) == y.take(k) && (k
                        == x.len() || x[k] < y[k]);
                assert(x.take(k) == y.take(k));
            }
        }
    }
    order
}

/// LIMIT gives the first rows of the same query without it: as many as it says,
/// or all where there are no more.
pub proof fn law_limit(store: StoreV, h: HandleV, t: TableV, sel: SelectV)
    requires
        represents(store, h, t),
        sel.from == h.name,
        sound_select(t, sel),
        sel.limit is Some,
    ensures
        ({
            let rows = answer(store, SelectV { limit: None, ..sel })->Ok_0->Rows_rows;
            let count = sel.limit->0 as int;
            &&& answer(store, SelectV { limit: None, ..sel }) is Ok
            &&& gives(
                store,
                sel,
                answer(store, SelectV { limit: None, ..sel })->Ok_0->Rows_names,
                rows.take(
                    if count <= rows.len() {
                        count
                    } else {
                        rows.len() as int
                    },
                ),
            )
        }),
{
    let unlimited = SelectV { limit: None, ..sel };
    assert(select_error(t.schema, unlimited) is None);
    lemma_answer(store, h, t, unlimited);
    lemma_answer(store, h, t, sel);
    let rows = answer(store, unlimited)->Ok_0->Rows_rows;
    let count = sel.limit->0 as int;
    let n = if count <= rows.len() {
        count
    } else {
        rows.len() as int
    };
    assert(answer(store, sel)->Ok_0->Rows_rows =~= rows.take(n));
}

/// A list of columns gives the rows of `SELECT *`, with the values of those
/// columns in the order of the list, under their names.
pub proof fn law_columns(
    store: StoreV,
    h: HandleV,
    t: TableV,
    sel: SelectV,
    names: Seq<Seq<char>>,
    k: int,
    c: int,
)
    requires
        represents(store, h, t),
        sel.from == h.name,
        sound_select(t, sel),
        sel.projections == ProjectionV::Columns(names),
        0 <= k < names.len(),
        0 <= c < t.schema.len(),
        names[k] == t.schema[c].name,
    ensures
        ({
            let all = answer(store, SelectV { projections: ProjectionV::All, ..sel });
            let listed = answer(store, sel);
            &&& all is Ok && all->Ok_0 is Rows
            &&& listed is Ok && listed->Ok_0 is Rows
            &&& listed->Ok_0->Rows_names == names
            &&& listed->Ok_0->Rows_rows.len() == all->Ok_0->Rows_rows.len()
            &&& forall|i: int|
                0 <= i < all->Ok_0->Rows_rows.len() ==> {
                    &&& (#[trigger] listed->Ok_0->Rows_rows[i]).len() == names.len()
                    &&& listed->Ok_0->Rows_rows[i][k] == all->Ok_0->Rows_rows[i][c]
                }
        }),
{
    let all = SelectV { projections: ProjectionV::All, ..sel };
    assert(select_error(t.schema, all) is None);
    lemma_answer(store, h, t, all);
    lemma_answer(store, h, t, sel);
    lemma_place(t, c);
}

} // verus!
