//! Operations on a single column-major batch: keeping rows, choosing columns,
//! cutting it short.

use vstd::prelude::*;

use crate::error::{outcome, Error, ErrorV};
use crate::steps::{collect, collect_from};
use crate::storage::{
    clone_values, data_view, values_view, BatchV, ColumnBatch, Value, ValueV,
};
use crate::text::{clone_texts, join3, lemma_position, position, position_of, texts};

verus! {

/// A batch is even: one column for each name, and every column as long as the
/// first.
pub open spec fn even(b: BatchV) -> bool {
    &&& b.columns.len() == b.names.len()
    &&& forall|c: int| 0 <= c < b.columns.len() ==> (#[trigger] b.columns[c]).len() == b.num_rows()
}

/// The values whose mask entry is `true`, among the first `n`.
pub open spec fn kept(values: Seq<ValueV>, mask: Seq<bool>, n: int) -> Seq<ValueV>
    decreases n,
{
    if n <= 0 {
        Seq::empty()
    } else {
        let before = kept(values, mask, n - 1);
        if mask[n - 1] {
            before.push(values[n - 1])
        } else {
            before
        }
    }
}

/// How many of the first `n` mask entries are `true`.
pub open spec fn kept_count(mask: Seq<bool>, n: int) -> nat
    decreases n,
{
    if n <= 0 {
        0
    } else {
        kept_count(mask, n - 1) + if mask[n - 1] {
            1nat
        } else {
            0nat
        }
    }
}

/// Every column keeps as many values as the mask has entries that are `true`.
pub proof fn lemma_kept_len(values: Seq<ValueV>, mask: Seq<bool>, n: int)
    ensures
        kept(values, mask, n).len() == kept_count(mask, n),
    decreases n,
{
    if n > 0 {
        lemma_kept_len(values, mask, n - 1);
    }
}

/// The batch with only the rows whose mask entry is `true`.
pub open spec fn filtered_batch(b: BatchV, mask: Seq<bool>) -> BatchV {
    BatchV {
        names: b.names,
        columns: Seq::new(
            b.columns.len(),
            |c: int| kept(b.columns[c], mask, b.num_rows() as int),
        ),
    }
}

/// The values of a column whose mask entry is `true`.
fn filter_column(values: &Vec<Value>, mask: &Vec<bool>) -> (r: Vec<Value>)
    requires
        values@.len() == mask@.len(),
    ensures
        values_view(r@) == kept(values_view(values@), mask@, values@.len() as int),
{
    let mut r: Vec<Value> = Vec::new();
    let mut i: usize = 0;
    assert(values_view(r@) =~= kept(values_view(values@), mask@, 0));
    while i < values.len()
        invariant
            i <= values@.len(),
            values@.len() == mask@.len(),
            values_view(r@) == kept(values_view(values@), mask@, i as int),
        decreases values.len() - i,
    {
        let ghost before = values_view(r@);
        if mask[i] {
            r.push(values[i].clone());
            assert(values_view(r@) =~= before.push(values_view(values@)[i as int]));
        }
        i = i + 1;
    }
    r
}

/// Keep only the rows of `batch` whose mask entry is `true`, column by column.
/// Names and order stay; an all-false mask gives a batch without rows.
pub fn filter_batch(batch: &ColumnBatch, mask: &Vec<bool>) -> (r: ColumnBatch)
    requires
        even(batch@),
        mask@.len() == batch@.num_rows(),
    ensures
        r@ == filtered_batch(batch@, mask@),
{
    let mut columns: Vec<Vec<Value>> = Vec::new();
    let ghost n = batch@.num_rows() as int;
    let mut c: usize = 0;
    while c < batch.columns.len()
        invariant
            c <= batch.columns@.len(),
            columns@.len() == c,
            n == batch@.num_rows(),
            mask@.len() == n,
            even(batch@),
            forall|j: int|
                0 <= j < c ==> values_view((#[trigger] columns@[j])@) == kept(
                    batch@.columns[j],
                    mask@,
                    n,
                ),
        decreases batch.columns.len() - c,
    {
        assert(batch@.columns[c as int].len() == n);
        columns.push(filter_column(&batch.columns[c], mask));
        c = c + 1;
    }
    assert(data_view(columns@) =~= filtered_batch(batch@, mask@).columns);
    ColumnBatch { names: clone_texts(&batch.names), columns }
}

/// A filtered batch is even.
pub proof fn lemma_filtered_even(b: BatchV, mask: Seq<bool>)
    requires
        even(b),
    ensures
        even(filtered_batch(b, mask)),
{
    let r = filtered_batch(b, mask);
    assert forall|c: int| 0 <= c < r.columns.len() implies (#[trigger] r.columns[c]).len()
        == r.num_rows() by {
        lemma_kept_len(b.columns[c], mask, b.num_rows() as int);
        lemma_kept_len(b.columns[0], mask, b.num_rows() as int);
    }
}

/// The column that a projection names.
pub open spec fn chosen_column(b: BatchV, names: Seq<Seq<char>>) -> spec_fn(int) -> Result<
    Seq<ValueV>,
    ErrorV,
> {
    |i: int|
        match position_of(b.names, names[i]) {
            None => Err(
                ErrorV::Other(
                    "projection references column '"@ + names[i] + "' not present in the input"@,
                ),
            ),
            Some(c) => Ok(b.columns[c]),
        }
}

/// The batch with the named columns, in that order.
pub open spec fn projected_batch(b: BatchV, names: Seq<Seq<char>>) -> Result<BatchV, ErrorV> {
    match collect(names.len() as int, chosen_column(b, names)) {
        Err(e) => Err(e),
        Ok(columns) => Ok(BatchV { names, columns }),
    }
}

/// Select `columns` from `batch`, in the given order. Fails if a column is not
/// in the input.
#[verifier::loop_isolation(false)]
pub fn project_batch(batch: &ColumnBatch, columns: &Vec<String>) -> (r: Result<ColumnBatch, Error>)
    requires
        even(batch@),
    ensures
        outcome(r) == projected_batch(batch@, texts(columns@)),
{
    let ghost rule = chosen_column(batch@, texts(columns@));
    let ghost n = columns@.len() as int;
    let mut projected: Vec<Vec<Value>> = Vec::new();
    assert(data_view(projected@) =~= Seq::empty());
    let mut i: usize = 0;
    while i < columns.len()
        invariant
            i <= columns@.len(),
            collect(n, rule) == collect_from(data_view(projected@), i as int, n, rule),
        decreases columns.len() - i,
    {
        proof {
            lemma_position(batch@.names, columns@[i as int]@, 0);
        }
        match position(&batch.names, columns[i].as_str()) {
            None => {
                let m = join3(
                    "projection references column '",
                    columns[i].as_str(),
                    "' not present in the input",
                );
                return Err(Error::other(m.as_str()));
            },
            Some(c) => {
                let ghost before = data_view(projected@);
                assert(batch@.columns[c as int] == values_view(batch.columns@[c as int]@));
                projected.push(clone_values(&batch.columns[c]));
                assert(data_view(projected@) =~= before.push(batch@.columns[c as int]));
            },
        }
        i = i + 1;
    }
    Ok(ColumnBatch { names: clone_texts(columns), columns: projected })
}

/// The first `n` rows of a batch.
pub open spec fn first_rows(b: BatchV, n: int) -> BatchV {
    if n < b.num_rows() {
        BatchV {
            names: b.names,
            columns: Seq::new(b.columns.len(), |c: int| b.columns[c].take(n)),
        }
    } else {
        b
    }
}

/// Keep the first `n` rows of `batch`. `n` at or above the row count gives the
/// batch unchanged.
pub fn truncate_batch(batch: ColumnBatch, n: usize) -> (r: ColumnBatch)
    requires
        even(batch@),
    ensures
        r@ == first_rows(batch@, n as int),
{
    if n >= batch.num_rows() {
        return batch;
    }
    let mut columns: Vec<Vec<Value>> = Vec::new();
    let mut c: usize = 0;
    while c < batch.columns.len()
        invariant
            c <= batch.columns@.len(),
            columns@.len() == c,
            even(batch@),
            n < batch@.num_rows(),
            forall|j: int|
                0 <= j < c ==> values_view((#[trigger] columns@[j])@) == batch@.columns[j].take(
                    n as int,
                ),
        decreases batch.columns.len() - c,
    {
        let column = &batch.columns[c];
        assert(batch@.columns[c as int].len() == batch@.num_rows());
        let mut cut: Vec<Value> = Vec::new();
        let mut i: usize = 0;
        while i < n
            invariant
                i <= n < column@.len(),
                cut@.len() == i,
                forall|j: int| 0 <= j < i ==> (#[trigger] cut@[j])@ == column@[j]@,
            decreases n - i,
        {
            cut.push(column[i].clone());
            i = i + 1;
        }
        assert(values_view(cut@) =~= values_view(column@).take(n as int));
        columns.push(cut);
        c = c + 1;
    }
    assert(data_view(columns@) =~= first_rows(batch@, n as int).columns);
    ColumnBatch { names: batch.names, columns }
}

} // verus!
