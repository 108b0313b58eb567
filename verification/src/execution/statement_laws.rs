//! What the statements that change rows leave behind, said of the rows and
//! columns that they name.

use vstd::prelude::*;

use crate::error::ErrorV;
use crate::execution::change_laws::{
    law_delete_statement, law_insert_statement, law_update_statement, picked, picks, rewritten,
    room_for, sound_filter, updated_table, without_picked,
};
use crate::execution::logical::binder::{bound_delete, bound_insert, bound_update, filter_error};
use crate::execution::logical::optimizer::optimized;
use crate::execution::physical::executor::{assigned, executed};
use crate::execution::physical::lower::lowered;
use crate::execution::physical::result::QueryResultV;
use crate::execution::select_laws::meets;
use crate::parser::ast::{AssignmentV, ExprV};
use crate::storage::model::{column_names, record_error, HandleV, StoreV};
use crate::storage::table_model::{can_take, represents, TableV};
use crate::storage::ValueV;
use crate::text::{decimal, lemma_position};

verus! {

/// After the first `n` assignments, a column holds the value of the last of them
/// that names it, or what it held where none does.
proof fn lemma_assigned(
    row: Seq<ValueV>,
    names: Seq<Seq<char>>,
    assignments: Seq<AssignmentV>,
    n: int,
    c: int,
)
    requires
        row.len() == names.len(),
        names.no_duplicates(),
        0 <= n <= assignments.len(),
        0 <= c < names.len(),
    ensures
        ({
            let new = assigned(row, names, assignments, n);
            &&& new.len() == row.len()
            &&& (forall|k: int| 0 <= k < n ==> (#[trigger] assignments[k]).column != names[c])
                ==> new[c] == row[c]
            &&& forall|k: int|
                0 <= k < n && (#[trigger] assignments[k]).column == names[c] && (forall|j: int|
                    k < j < n ==> (#[trigger] assignments[j]).column != names[c]) ==> new[c]
                    == assignments[k].value
        }),
    decreases n,
{
    if n > 0 {
        lemma_assigned(row, names, assignments, n - 1, c);
        let a = assignments[n - 1];
        lemma_position(names, a.column, 0);
        let earlier = assigned(row, names, assignments, n - 1);
        let new = assigned(row, names, assignments, n);
        assert forall|k: int|
            0 <= k < n && (#[trigger] assignments[k]).column == names[c] && (forall|j: int|
                k < j < n ==> (#[trigger] assignments[j]).column != names[c]) implies new[c]
            == assignments[k].value by {
            if k < n - 1 {
                assert(a.column != names[c]);
                assert forall|j: int| k < j < n - 1 implies (#[trigger] assignments[j]).column
                    != names[c] by {}
            }
        }
    }
}

/// Assignments set exactly the columns that they name: each holds the value of
/// the last assignment to it, and every other column holds what it held.
pub proof fn law_assignments(
    row: Seq<ValueV>,
    names: Seq<Seq<char>>,
    assignments: Seq<AssignmentV>,
    c: int,
)
    requires
        row.len() == names.len(),
        names.no_duplicates(),
        0 <= c < names.len(),
    ensures
        ({
            let n = assignments.len() as int;
            let new = assigned(row, names, assignments, n);
            &&& new.len() == row.len()
            &&& (forall|k: int| 0 <= k < n ==> (#[trigger] assignments[k]).column != names[c])
                ==> new[c] == row[c]
            &&& forall|k: int|
                0 <= k < n && (#[trigger] assignments[k]).column == names[c] && (forall|j: int|
                    k < j < n ==> (#[trigger] assignments[j]).column != names[c]) ==> new[c]
                    == assignments[k].value
        }),
{
    lemma_assigned(row, names, assignments, assignments.len() as int, c);
}

/// Two assignments to different columns may change places.
pub proof fn law_assignments_commute(
    row: Seq<ValueV>,
    names: Seq<Seq<char>>,
    a: AssignmentV,
    b: AssignmentV,
)
    requires
        row.len() == names.len(),
        names.no_duplicates(),
        a.column != b.column,
    ensures
        assigned(row, names, seq![a, b], 2) == assigned(row, names, seq![b, a], 2),
{
    let x = assigned(row, names, seq![a, b], 2);
    let y = assigned(row, names, seq![b, a], 2);
    if names.len() == 0 {
        lemma_position(names, a.column, 0);
        lemma_position(names, b.column, 0);
        reveal_with_fuel(assigned, 3);
    } else {
        lemma_assigned(row, names, seq![a, b], 2, 0);
        lemma_assigned(row, names, seq![b, a], 2, 0);
        assert forall|c: int| 0 <= c < names.len() implies x[c] == y[c] by {
            let first = seq![a, b];
            let second = seq![b, a];
            lemma_assigned(row, names, first, 2, c);
            lemma_assigned(row, names, second, 2, c);
            assert(first[0] == a && first[1] == b && second[0] == b && second[1] == a);
            if a.column == names[c] {
                assert(x[c] == a.value && y[c] == a.value);
            } else if b.column == names[c] {
                assert(x[c] == b.value && y[c] == b.value);
            }
        }
    }
    assert(x =~= y);
}

/// The columns of a table have different names.
proof fn lemma_names(t: TableV)
    requires
        t.wf(),
    ensures
        column_names(t.schema).no_duplicates(),
{
    let names = column_names(t.schema);
    assert forall|i: int, j: int|
        0 <= i < names.len() && 0 <= j < names.len() && i != j implies names[i] != names[j] by {
        assert(t.schema[i].name != t.schema[j].name);
    }
}

/// The numbers of the picked rows from `from` on.
pub proof fn lemma_picked(t: TableV, filter: Option<ExprV>, from: int) -> (at: Seq<int>)
    requires
        t.wf(),
        0 <= from <= t.rows.len(),
    ensures
        forall|i: int, j: int| 0 <= i < j < at.len() ==> #[trigger] at[i] < #[trigger] at[j],
        forall|i: int|
            0 <= i < at.len() ==> from <= #[trigger] at[i] < t.rows.len() && !t.deleted[at[i]]
                && picks(filter, t.schema, t.rows[at[i]]) && picked(t, filter, from)[i].1
                == t.rows[at[i]],
        forall|r: int|
            from <= r < t.rows.len() && !(#[trigger] t.deleted[r]) && picks(
                filter,
                t.schema,
                t.rows[r],
            ) ==> at.contains(r),
        picked(t, filter, from).len() == at.len(),
    decreases t.rows.len() - from,
{
    if from >= t.rows.len() {
        Seq::empty()
    } else {
        let later = lemma_picked(t, filter, from + 1);
        if t.live(from) && picks(filter, t.schema, t.rows[from]) {
            let at = seq![from] + later;
            let rows = picked(t, filter, from);
            assert forall|i: int| 0 <= i < at.len() implies from <= #[trigger] at[i] < t.rows.len()
                && !t.deleted[at[i]] && picks(filter, t.schema, t.rows[at[i]]) && rows[i].1
                == t.rows[at[i]] by {
                if i > 0 {
                    assert(later[i - 1] == at[i]);
                    assert(rows[i] == picked(t, filter, from + 1)[i - 1]);
                }
            }
            assert forall|i: int, j: int| 0 <= i < j < at.len() implies #[trigger] at[i]
                < #[trigger] at[j] by {
                assert(later[j - 1] == at[j]);
                if i > 0 {
                    assert(later[i - 1] == at[i]);
                }
            }
            assert forall|r: int|
                from <= r < t.rows.len() && !(#[trigger] t.deleted[r]) && picks(
                    filter,
                    t.schema,
                    t.rows[r],
                ) implies at.contains(r) by {
                if r == from {
                    assert(at[0] == r);
                } else {
                    assert(later.contains(r));
                    let k = later.index_of(r);
                    assert(at[k + 1] == r);
                }
            }
            at
        } else {
            later
        }
    }
}

/// An INSERT adds one row, behind all others, with its values in the order of
/// the columns; the rows that were there stay as they are.
pub proof fn law_insert_adds_one_row(
    store: StoreV,
    h: HandleV,
    t: TableV,
    values: Seq<ValueV>,
) -> (t2: TableV)
    requires
        represents(store, h, t),
        can_take(t, values),
    ensures
        ({
            let plan = bound_insert(store, h.name, values);
            let (r, after) = executed(lowered(optimized(plan->Ok_0)), store);
            &&& plan is Ok
            &&& r is Ok
            &&& represents(after, h, t2)
            &&& t2.rows.len() == t.rows.len() + 1
            &&& t2.rows[t.rows.len() as int] == values
            &&& !t2.deleted[t.rows.len() as int]
            &&& forall|i: int|
                0 <= i < t.rows.len() ==> #[trigger] t2.rows[i] == t.rows[i] && t2.deleted[i]
                    == t.deleted[i]
        }),
{
    law_insert_statement(store, h, t, values);
    t.insert(values)
}

/// A DELETE deletes exactly the rows that meet its condition; every other row
/// stays as it is. It says how many rows it deleted.
pub proof fn law_delete_takes_the_rows_that_meet(
    store: StoreV,
    h: HandleV,
    t: TableV,
    filter: Option<ExprV>,
) -> (r: (TableV, Seq<int>))
    requires
        represents(store, h, t),
        sound_filter(filter),
        filter_error(t.schema, filter, h.name) is None,
    ensures
        ({
            let (t2, at) = r;
            let plan = bound_delete(store, h.name, filter);
            let (done, after) = executed(lowered(optimized(plan->Ok_0)), store);
            &&& plan is Ok
            &&& done == Ok::<QueryResultV, ErrorV>(
                QueryResultV::Affected(
                    "Deleted "@ + decimal(at.len() as int) + " row(s) from '"@ + h.name + "'"@,
                ),
            )
            &&& represents(after, h, t2)
            &&& t2.rows == t.rows
            &&& at.no_duplicates()
            &&& forall|i: int|
                0 <= i < t.rows.len() ==> {
                    &&& at.contains(i) <==> !t.deleted[i] && (filter matches Some(e) ==> meets(
                        e,
                        t.schema,
                        t.rows[i],
                    ))
                    &&& (#[trigger] t2.deleted[i]) <==> t.deleted[i] || at.contains(i)
                }
            &&& forall|i: int| 0 <= i < at.len() ==> 0 <= #[trigger] at[i] < t.rows.len()
        }),
{
    law_delete_statement(store, h, t, filter);
    let at = lemma_picked(t, filter, 0);
    let t2 = without_picked(t, filter, 0);
    assert forall|i: int| 0 <= i < t.rows.len() implies {
        &&& at.contains(i) <==> !t.deleted[i] && (filter matches Some(e) ==> meets(
            e,
            t.schema,
            t.rows[i],
        ))
        &&& (#[trigger] t2.deleted[i]) <==> t.deleted[i] || at.contains(i)
    } by {
        assert(t2.deleted[i] == (t.deleted[i] || picks(filter, t.schema, t.rows[i])));
        if at.contains(i) {
            let k = at.index_of(i);
            assert(at[k] == i);
        }
    }
    (t2, at)
}

/// An UPDATE deletes exactly the rows that meet its condition and puts a new
/// version of each behind all others, in the same order. In a new version each
/// column that SET names holds the value of the last assignment to it, and every
/// other column what it held before. The other rows stay as they are, and the
/// number of new versions is reported.
pub proof fn law_update_sets_the_columns(
    store: StoreV,
    h: HandleV,
    t: TableV,
    assignments: Seq<AssignmentV>,
    filter: Option<ExprV>,
) -> (r: (TableV, Seq<int>))
    requires
        represents(store, h, t),
        sound_filter(filter),
        bound_update(store, h.name, assignments, filter) is Ok,
        forall|k: int|
            0 <= k < picked(t, filter, 0).len() ==> #[trigger] room_for(t, assignments, filter, k),
    ensures
        ({
            let (t2, at) = r;
            let n = t.rows.len() as int;
            let plan = bound_update(store, h.name, assignments, filter)->Ok_0;
            let (done, after) = executed(lowered(optimized(plan)), store);
            &&& done == Ok::<QueryResultV, ErrorV>(
                QueryResultV::Affected(
                    "Updated "@ + decimal(at.len() as int) + " row(s) in '"@ + h.name + "'"@,
                ),
            )
            &&& represents(after, h, t2)
            &&& t2.rows.len() == n + at.len()
            &&& t2.rows.take(n) == t.rows
            &&& forall|i: int, j: int| 0 <= i < j < at.len() ==> #[trigger] at[i] < #[trigger] at[j]
            &&& forall|i: int| 0 <= i < at.len() ==> 0 <= #[trigger] at[i] < n
            &&& forall|i: int|
                0 <= i < n ==> {
                    &&& at.contains(i) <==> !t.deleted[i] && (filter matches Some(e) ==> meets(
                        e,
                        t.schema,
                        t.rows[i],
                    ))
                    &&& (#[trigger] t2.deleted[i]) <==> t.deleted[i] || at.contains(i)
                }
            &&& forall|i: int|
                0 <= i < at.len() ==> !(#[trigger] t2.deleted[n + i]) && t2.rows[n + i].len()
                    == t.schema.len()
            &&& forall|i: int, c: int|
                0 <= i < at.len() && 0 <= c < t.schema.len() ==> {
                    let name = t.schema[c].name;
                    let new = #[trigger] t2.rows[n + i][c];
                    &&& (forall|k: int|
                        0 <= k < assignments.len() ==> (#[trigger] assignments[k]).column != name)
                        ==> new == t.rows[at[i]][c]
                    &&& forall|k: int|
                        0 <= k < assignments.len() && (#[trigger] assignments[k]).column == name
                            && (forall|j: int|
                            k < j < assignments.len() ==> (#[trigger] assignments[j]).column
                                != name) ==> new == assignments[k].value
                }
        }),
{
    law_update_statement(store, h, t, assignments, filter);
    let n = t.rows.len() as int;
    let at = lemma_picked(t, filter, 0);
    let rows = picked(t, filter, 0);
    let t2 = updated_table(t, assignments, filter);
    let names = column_names(t.schema);
    lemma_names(t);
    assert(t2.rows.take(n) =~= t.rows);
    assert forall|i: int| 0 <= i < n implies {
        &&& at.contains(i) <==> !t.deleted[i] && (filter matches Some(e) ==> meets(
            e,
            t.schema,
            t.rows[i],
        ))
        &&& (#[trigger] t2.deleted[i]) <==> t.deleted[i] || at.contains(i)
    } by {
        assert(t2.deleted[i] == (t.deleted[i] || picks(filter, t.schema, t.rows[i])));
        if at.contains(i) {
            let k = at.index_of(i);
            assert(at[k] == i);
        }
    }
    assert forall|i: int| 0 <= i < at.len() implies t2.rows[n + i] == rewritten(
        t.schema,
        assignments,
        t.rows[at[i]],
    ) && t.rows[at[i]].len() == t.schema.len() by {
        assert(rows[i].1 == t.rows[at[i]]);
        assert(record_error(t.schema, t.rows[at[i]]) is None);
    }
    assert forall|i: int| 0 <= i < at.len() implies !(#[trigger] t2.deleted[n + i])
        && t2.rows[n + i].len() == t.schema.len() by {
        lemma_assigned(t.rows[at[i]], names, assignments, assignments.len() as int, 0);
    }
    assert forall|i: int, c: int| 0 <= i < at.len() && 0 <= c < t.schema.len() implies {
        let name = t.schema[c].name;
        let new = #[trigger] t2.rows[n + i][c];
        &&& (forall|k: int|
            0 <= k < assignments.len() ==> (#[trigger] assignments[k]).column != name) ==> new
            == t.rows[at[i]][c]
        &&& forall|k: int|
            0 <= k < assignments.len() && (#[trigger] assignments[k]).column == name && (forall|
                j: int,
            |
                k < j < assignments.len() ==> (#[trigger] assignments[j]).column != name) ==> new
                == assignments[k].value
    } by {
        assert(names[c] == t.schema[c].name);
        lemma_assigned(t.rows[at[i]], names, assignments, assignments.len() as int, c);
    }
    (t2, at)
}

} // verus!
