//! The blocking operators: sorting a stream, and keeping its first rows in an
//! order.

use vstd::prelude::*;

use crate::error::{Error, ErrorV};
use crate::execution::physical::batch::even;
use crate::execution::physical::order::{
    as_ints, before, comes_before, law_ranking, lemma_before_transitive, place, precedes, rank,
    ranked, ranked_range, well_ordered,
};
use crate::execution::physical::stream::{sound, BatchStream, Items};
use crate::storage::{data_view, values_view, BatchV, ColumnBatch, Value, ValueV};
use crate::text::{clone_texts, join3, lemma_position, position, position_of, texts};

verus! {

/// `b` behind what was gathered before, column by column.
pub open spec fn appended(gathered: Option<BatchV>, b: BatchV) -> BatchV {
    match gathered {
        None => b,
        Some(a) => BatchV {
            names: a.names,
            columns: Seq::new(a.columns.len(), |c: int| a.columns[c] + b.columns[c]),
        },
    }
}

/// All batches of a stream as one, behind what was gathered before; or the
/// first error.
pub open spec fn gather(gathered: Option<BatchV>, items: Items) -> Result<Option<BatchV>, ErrorV>
    decreases items.len(),
{
    if items.len() == 0 {
        Ok(gathered)
    } else {
        match items[0] {
            Err(e) => Err(e),
            Ok(b) => gather(Some(appended(gathered, b)), items.skip(1)),
        }
    }
}

/// The rows of a batch at the given positions, in that order.
pub open spec fn arranged(b: BatchV, positions: Seq<int>) -> BatchV {
    BatchV {
        names: b.names,
        columns: Seq::new(
            b.columns.len(),
            |c: int| Seq::new(positions.len(), |i: int| b.columns[c][positions[i]]),
        ),
    }
}

/// Arranging the rows of an even batch gives an even batch.
pub proof fn lemma_arranged_even(b: BatchV, positions: Seq<int>)
    requires
        even(b),
    ensures
        even(arranged(b, positions)),
        b.columns.len() > 0 ==> arranged(b, positions).num_rows() == positions.len(),
{
}

/// The error of an order by a column that is not there.
pub open spec fn order_column_error(column: Seq<char>) -> ErrorV {
    ErrorV::Other(
        "ORDER BY column '"@ + column
            + "' is not available; it must be one of the selected columns"@,
    )
}

/// The error of an order by a column that is not there.
fn order_column_missing(column: &str) -> (e: Error)
    ensures
        e@ == order_column_error(column@),
{
    let m = join3(
        "ORDER BY column '",
        column,
        "' is not available; it must be one of the selected columns",
    );
    Error::other(m.as_str())
}

/// What sorting a stream gives: one ordered batch, or nothing where there was
/// no batch.
pub open spec fn sorted(items: Items, column: Seq<char>, descending: bool) -> Result<
    Option<BatchV>,
    ErrorV,
> {
    match gather(None, items) {
        Err(e) => Err(e),
        Ok(None) => Ok(None),
        Ok(Some(b)) => match position_of(b.names, column) {
            None => Err(order_column_error(column)),
            Some(key) => Ok(Some(arranged(b, ranked(b.columns[key], descending)))),
        },
    }
}

/// The first `count` positions of an order, or all of them.
pub open spec fn first_of(order: Seq<int>, count: int) -> Seq<int> {
    if count < order.len() {
        order.take(count)
    } else {
        order
    }
}

/// What keeping the first `count` rows of an order gives: one ordered batch, or
/// nothing where there was no batch. The column is looked up in the first
/// batch, before any other is read.
pub open spec fn top_rows(items: Items, column: Seq<char>, descending: bool, count: int) -> Result<
    Option<BatchV>,
    ErrorV,
> {
    if items.len() == 0 {
        Ok(None)
    } else {
        match items[0] {
            Err(e) => Err(e),
            Ok(first) => match position_of(first.names, column) {
                None => Err(order_column_error(column)),
                Some(key) => match gather(None, items) {
                    Err(e) => Err(e),
                    Ok(None) => Ok(None),
                    Ok(Some(b)) => Ok(
                        Some(arranged(b, first_of(ranked(b.columns[key], descending), count))),
                    ),
                },
            },
        }
    }
}

/// What a blocking operator gave back, over views.
pub open spec fn maybe_batch(r: Result<Option<ColumnBatch>, Error>) -> Result<
    Option<BatchV>,
    ErrorV,
> {
    match r {
        Err(e) => Err(e@),
        Ok(None) => Ok(None),
        Ok(Some(b)) => Ok(Some(b@)),
    }
}

/// The view of a batch that may not be there yet.
pub open spec fn gathered_view(acc: Option<ColumnBatch>) -> Option<BatchV> {
    match acc {
        None => None,
        Some(b) => Some(b@),
    }
}

/// What is gathered fits the batches that are still to come.
pub open spec fn fits(gathered: Option<BatchV>, items: Items) -> bool {
    &&& sound(items)
    &&& gathered matches Some(a) ==> {
        &&& even(a)
        &&& forall|i: int|
            0 <= i < items.len() && (#[trigger] items[i]) is Ok ==> items[i]->Ok_0.names == a.names
    }
}

/// Appending an even batch with the same names keeps what is gathered even.
pub proof fn lemma_appended(gathered: Option<BatchV>, items: Items)
    requires
        fits(gathered, items),
        items.len() > 0,
        items[0] is Ok,
    ensures
        fits(Some(appended(gathered, items[0]->Ok_0)), items.skip(1)),
        ({
            let b = items[0]->Ok_0;
            let r = appended(gathered, b);
            &&& r.names == b.names
            &&& even(b)
            &&& even(r)
            &&& gathered matches Some(a) ==> a.names == b.names && r.num_rows() == a.num_rows()
                + b.num_rows()
            &&& gathered is None ==> r.num_rows() == b.num_rows()
        }),
{
    let b = items[0]->Ok_0;
    let r = appended(gathered, b);
    let rest = items.skip(1);
    assert(even(b));
    match gathered {
        None => {},
        Some(a) => {
            assert forall|c: int| 0 <= c < r.columns.len() implies (#[trigger] r.columns[c]).len()
                == a.num_rows() + b.num_rows() by {
                assert(a.columns[c].len() == a.num_rows());
                assert(b.columns[c].len() == b.num_rows());
            }
            if r.columns.len() > 0 {
                assert(r.columns[0].len() == a.num_rows() + b.num_rows());
            } else {
                assert(b.columns.len() == 0);
            }
        },
    }
    assert forall|i: int| 0 <= i < rest.len() && (#[trigger] rest[i]) is Ok implies even(
        rest[i]->Ok_0,
    ) && rest[i]->Ok_0.names == r.names by {
        assert(rest[i] == items[i + 1]);
    }
}

/// Append the values of `from` to `to`.
fn append_values(to: &mut Vec<Value>, from: &Vec<Value>)
    ensures
        values_view(final(to)@) == values_view(old(to)@) + values_view(from@),
{
    let ghost start = values_view(to@);
    let mut i: usize = 0;
    assert(values_view(to@) =~= start + values_view(from@).take(0));
    while i < from.len()
        invariant
            i <= from@.len(),
            values_view(to@) == start + values_view(from@).take(i as int),
        decreases from.len() - i,
    {
        let ghost earlier = values_view(to@);
        to.push(from[i].clone());
        i = i + 1;
        assert(values_view(to@) =~= earlier.push(from@[i - 1]@));
        assert(values_view(to@) =~= start + values_view(from@).take(i as int));
    }
    assert(values_view(from@).take(i as int) =~= values_view(from@));
}

/// Append a batch with the same columns, column by column.
fn append_batch(acc: ColumnBatch, batch: &ColumnBatch) -> (r: ColumnBatch)
    requires
        acc.columns@.len() == batch.columns@.len(),
    ensures
        r@ == appended(Some(acc@), batch@),
{
    let ghost a = acc@;
    let names = acc.names;
    let mut columns = acc.columns;
    let ghost given = columns@;
    let mut c: usize = 0;
    while c < columns.len()
        invariant
            c <= columns@.len(),
            columns@.len() == given.len() == batch.columns@.len(),
            forall|j: int|
                0 <= j < c ==> values_view((#[trigger] columns@[j])@) == values_view(given[j]@)
                    + values_view(batch.columns@[j]@),
            forall|j: int| c <= j < columns@.len() ==> #[trigger] columns@[j] == given[j],
        decreases columns.len() - c,
    {
        let column = &mut columns[c];
        append_values(column, &batch.columns[c]);
        c = c + 1;
    }
    let r = ColumnBatch { names, columns };
    assert(data_view(columns@) =~= appended(Some(a), batch@).columns);
    r
}

/// Drain `source` into one batch.
#[verifier::loop_isolation(false)]
fn gather_batches(source: BatchStream<'_>) -> (r: Result<Option<ColumnBatch>, Error>)
    requires
        source.wf(),
    ensures
        maybe_batch(r) == gather(None, source.items()),
        r matches Ok(Some(b)) ==> even(b@),
{
    let ghost items = source.items();
    let mut source = source;
    let mut acc: Option<ColumnBatch> = None;
    proof {
        source.lemma_sound();
    }
    loop
        invariant
            source.wf(),
            fits(gathered_view(acc), source.items()),
            gather(None, items) == gather(gathered_view(acc), source.items()),
        decreases source.items().len(),
    {
        let ghost here = source.items();
        match source.next() {
            None => {
                return Ok(acc);
            },
            Some(Err(e)) => {
                return Err(e);
            },
            Some(Ok(batch)) => {
                proof {
                    lemma_appended(gathered_view(acc), here);
                }
                acc = Some(
                    match acc {
                        None => batch,
                        Some(a) => {
                            assert(a.columns@.len() == a@.columns.len());
                            assert(batch.columns@.len() == batch@.columns.len());
                            append_batch(a, &batch)
                        },
                    },
                );
            },
        }
    }
}

/// The rows of `batch` at `positions`, in that order.
fn arrange(batch: &ColumnBatch, positions: &Vec<usize>) -> (r: ColumnBatch)
    requires
        even(batch@),
        forall|i: int| 0 <= i < positions@.len() ==> #[trigger] positions@[i] < batch@.num_rows(),
    ensures
        r@ == arranged(batch@, as_ints(positions@)),
{
    let ghost ps = as_ints(positions@);
    let mut columns: Vec<Vec<Value>> = Vec::new();
    let mut c: usize = 0;
    while c < batch.columns.len()
        invariant
            c <= batch.columns@.len(),
            columns@.len() == c,
            even(batch@),
            ps == as_ints(positions@),
            forall|i: int|
                0 <= i < positions@.len() ==> #[trigger] positions@[i] < batch@.num_rows(),
            forall|j: int|
                0 <= j < c ==> values_view((#[trigger] columns@[j])@) == Seq::new(
                    ps.len(),
                    |i: int| batch@.columns[j][ps[i]],
                ),
        decreases batch.columns.len() - c,
    {
        let column = &batch.columns[c];
        assert(batch@.columns[c as int].len() == batch@.num_rows());
        let mut out: Vec<Value> = Vec::new();
        let mut i: usize = 0;
        while i < positions.len()
            invariant
                i <= positions@.len(),
                out@.len() == i,
                column@.len() == batch@.num_rows(),
                forall|i: int|
                    0 <= i < positions@.len() ==> #[trigger] positions@[i] < batch@.num_rows(),
                forall|j: int|
                    0 <= j < i ==> (#[trigger] out@[j])@ == column@[positions@[j] as int]@,
            decreases positions.len() - i,
        {
            out.push(column[positions[i]].clone());
            i = i + 1;
        }
        proof {
            let j = c as int;
            assert(values_view(out@) =~= Seq::new(ps.len(), |i: int| batch@.columns[j][ps[i]]));
        }
        columns.push(out);
        c = c + 1;
    }
    assert(data_view(columns@) =~= arranged(batch@, ps).columns);
    ColumnBatch { names: clone_texts(&batch.names), columns }
}

/// Drain `source`, put its batches together, and sort all rows by `column`.
/// Gives a single ordered batch, or `None` if the input had no batch. Ordering
/// is stable: rows with equal keys keep their order.
pub fn sort_batches(source: BatchStream<'_>, column: &str, descending: bool) -> (r: Result<
    Option<ColumnBatch>,
    Error,
>)
    requires
        source.wf(),
    ensures
        maybe_batch(r) == sorted(source.items(), column@, descending),
        r matches Ok(Some(b)) ==> even(b@),
{
    let batch = match gather_batches(source) {
        Err(e) => {
            return Err(e);
        },
        Ok(None) => {
            return Ok(None);
        },
        Ok(Some(b)) => b,
    };
    proof {
        lemma_position(batch@.names, column@, 0);
    }
    match position(&batch.names, column) {
        None => Err(order_column_missing(column)),
        Some(key) => {
            assert(batch@.columns[key as int] == values_view(batch.columns@[key as int]@));
            let order = rank(&batch.columns[key], descending);
            assert(batch@.columns[key as int].len() == batch@.num_rows());
            proof {
                lemma_arranged_even(batch@, as_ints(order@));
            }
            Ok(Some(arrange(&batch, &order)))
        },
    }
}

// ---- top-K ----

/// Keys that come later do not change how earlier positions are ranked.
proof fn lemma_place_prefix(
    order: Seq<int>,
    short: Seq<ValueV>,
    long: Seq<ValueV>,
    x: int,
    descending: bool,
)
    requires
        0 <= x < short.len() <= long.len(),
        forall|i: int| 0 <= i < short.len() ==> short[i] == long[i],
        forall|i: int| 0 <= i < order.len() ==> 0 <= #[trigger] order[i] < short.len(),
    ensures
        place(order, short, x, descending) == place(order, long, x, descending),
    decreases order.len(),
{
    if order.len() > 0 {
        assert(order[order.len() - 1] == order.last());
        assert forall|i: int| 0 <= i < order.drop_last().len() implies 0
            <= #[trigger] order.drop_last()[i] < short.len() by {
            assert(order[i] == order.drop_last()[i]);
        }
        lemma_place_prefix(order.drop_last(), short, long, x, descending);
    }
}

/// Keys that come later do not change how earlier positions are ranked.
pub proof fn lemma_ranked_prefix(
    short: Seq<ValueV>,
    long: Seq<ValueV>,
    n: int,
    descending: bool,
)
    requires
        n <= short.len() <= long.len(),
        forall|i: int| 0 <= i < short.len() ==> short[i] == long[i],
    ensures
        ranked_range(short, 0, n, descending) == ranked_range(long, 0, n, descending),
    decreases n,
{
    if n > 0 {
        lemma_ranked_prefix(short, long, n - 1, descending);
        law_ranking(short, 0, n - 1, descending);
        lemma_place_prefix(ranked_range(short, 0, n - 1, descending), short, long, n - 1, descending);
    }
}

proof fn lemma_place_len(order: Seq<int>, keys: Seq<ValueV>, x: int, descending: bool)
    ensures
        place(order, keys, x, descending).len() == order.len() + 1,
    decreases order.len(),
{
    if order.len() > 0 {
        lemma_place_len(order.drop_last(), keys, x, descending);
    }
}

/// The first places after one more position depend only on the first places
/// before.
proof fn lemma_first_places(order: Seq<int>, keys: Seq<ValueV>, x: int, descending: bool, k: int)
    requires
        well_ordered(order, keys, descending),
        0 <= k,
    ensures
        first_of(place(order, keys, x, descending), k) == first_of(
            place(first_of(order, k), keys, x, descending),
            k,
        ),
    decreases order.len(),
{
    lemma_place_len(order, keys, x, descending);
    if k < order.len() {
        let head = order.take(k);
        let rest = order.drop_last();
        lemma_place_len(head, keys, x, descending);
        lemma_place_len(rest, keys, x, descending);
        if before(keys[x], keys[order.last()], descending) {
            assert forall|i: int, j: int| 0 <= i < j < rest.len() implies precedes(
                keys,
                #[trigger] rest[i],
                #[trigger] rest[j],
                descending,
            ) by {
                assert(precedes(keys, order[i], order[j], descending));
            }
            lemma_first_places(rest, keys, x, descending, k);
            assert(place(order, keys, x, descending).take(k) =~= place(
                rest,
                keys,
                x,
                descending,
            ).take(k));
            assert(first_of(rest, k) =~= head);
        } else {
            if k > 0 {
                let e = order[k - 1];
                let last = order.last();
                assert(head.last() == e);
                if k - 1 < order.len() - 1 {
                    assert(precedes(keys, order[k - 1], order[order.len() - 1], descending));
                }
                lemma_before_transitive(keys[e], keys[last], keys[e], descending);
                lemma_before_transitive(keys[x], keys[last], keys[e], descending);
            }
            assert(place(head, keys, x, descending) =~= head.push(x));
            assert(place(order, keys, x, descending).take(k) =~= head);
            assert(place(head, keys, x, descending).take(k) =~= head);
        }
    }
}

/// Where a position is placed: behind everything up to `p`, before the rest.
proof fn lemma_placed_at(order: Seq<int>, keys: Seq<ValueV>, x: int, descending: bool, p: int)
    requires
        0 <= p <= order.len(),
        p > 0 ==> !before(keys[x], keys[order[p - 1]], descending),
        forall|i: int|
            p <= i < order.len() ==> before(keys[x], keys[#[trigger] order[i]], descending),
    ensures
        place(order, keys, x, descending) == order.insert(p, x),
    decreases order.len(),
{
    if p < order.len() {
        let rest = order.drop_last();
        assert(before(keys[x], keys[order[order.len() - 1]], descending));
        assert forall|i: int| p <= i < rest.len() implies before(
            keys[x],
            keys[#[trigger] rest[i]],
            descending,
        ) by {
            assert(rest[i] == order[i]);
        }
        lemma_placed_at(rest, keys, x, descending, p);
        assert(order.insert(p, x) =~= rest.insert(p, x).push(order.last()));
    } else {
        assert(order.insert(p, x) =~= order.push(x));
    }
}

/// Row `r` of a batch.
pub open spec fn row_of(b: BatchV, r: int) -> Seq<ValueV> {
    Seq::new(b.columns.len(), |c: int| b.columns[c][r])
}

/// The rows that are kept are those of `b` at `positions`.
spec fn keeps(rows: Seq<Vec<Value>>, b: BatchV, positions: Seq<int>) -> bool {
    &&& rows.len() == positions.len()
    &&& forall|i: int|
        0 <= i < rows.len() ==> values_view((#[trigger] rows[i])@) == row_of(b, positions[i])
}

/// Row `r` of a batch.
pub fn take_row(batch: &ColumnBatch, r: usize) -> (row: Vec<Value>)
    requires
        even(batch@),
        r < batch@.num_rows(),
    ensures
        values_view(row@) == row_of(batch@, r as int),
{
    let mut row: Vec<Value> = Vec::new();
    let mut c: usize = 0;
    while c < batch.columns.len()
        invariant
            c <= batch.columns@.len(),
            row@.len() == c,
            even(batch@),
            r < batch@.num_rows(),
            forall|j: int| 0 <= j < c ==> (#[trigger] row@[j])@ == batch@.columns[j][r as int],
        decreases batch.columns.len() - c,
    {
        assert(batch@.columns[c as int].len() == batch@.num_rows());
        row.push(batch.columns[c][r].clone());
        c = c + 1;
    }
    assert(values_view(row@) =~= row_of(batch@, r as int));
    row
}

/// Take one more row into the `count` best, if it is among them.
fn keep_row(
    rows: Vec<Vec<Value>>,
    row: Vec<Value>,
    key: usize,
    descending: bool,
    count: u64,
    Ghost(b): Ghost<BatchV>,
    Ghost(x): Ghost<int>,
) -> (r: Vec<Vec<Value>>)
    requires
        key < b.columns.len(),
        0 <= x < b.columns[key as int].len(),
        values_view(row@) == row_of(b, x),
        keeps(
            rows@,
            b,
            first_of(ranked_range(b.columns[key as int], 0, x, descending), count as int),
        ),
    ensures
        keeps(
            r@,
            b,
            first_of(ranked_range(b.columns[key as int], 0, x + 1, descending), count as int),
        ),
{
    let ghost keys = b.columns[key as int];
    let ghost order = ranked_range(keys, 0, x, descending);
    let ghost head = first_of(order, count as int);
    let mut rows = rows;
    proof {
        law_ranking(keys, 0, x, descending);
        lemma_first_places(order, keys, x, descending, count as int);
        lemma_place_len(head, keys, x, descending);
        assert(row@.len() == values_view(row@).len());
        assert forall|i: int| 0 <= i < rows@.len() implies (#[trigger] rows@[i])@.len() > key
            && rows@[i]@[key as int]@ == keys[head[i]] by {
            assert(values_view(rows@[i]@) == row_of(b, head[i]));
            assert(values_view(rows@[i]@).len() == rows@[i]@.len());
            assert(values_view(rows@[i]@)[key as int] == rows@[i]@[key as int]@);
        }
        assert(values_view(row@)[key as int] == row@[key as int]@);
    }
    if rows.len() as u64 >= count {
        if count == 0 {
            assert(first_of(place(head, keys, x, descending), 0) =~= Seq::<int>::empty());
            return rows;
        }
        let worst = &rows[rows.len() - 1];
        if !comes_before(&row[key], &worst[key], descending) {
            proof {
                assert(head[head.len() - 1] == head.last());
                assert(place(head, keys, x, descending) =~= head.push(x));
                assert(head.push(x).take(count as int) =~= head);
            }
            return rows;
        }
        let ghost all = rows@;
        let _ = rows.pop();
        proof {
            let rest = head.drop_last();
            lemma_place_len(rest, keys, x, descending);
            assert(first_of(place(head, keys, x, descending), count as int) =~= place(
                rest,
                keys,
                x,
                descending,
            ));
            assert(rows@ =~= all.drop_last());
        }
    } else {
        proof {
            assert(first_of(place(head, keys, x, descending), count as int) =~= place(
                head,
                keys,
                x,
                descending,
            ));
        }
    }
    let ghost base = if head.len() as int >= count as int {
        head.drop_last()
    } else {
        head
    };
    let mut p: usize = rows.len();
    while p > 0 && comes_before(&row[key], &rows[p - 1][key], descending)
        invariant
            p <= rows@.len() == base.len(),
            key < row@.len(),
            row@[key as int]@ == keys[x],
            forall|i: int|
                0 <= i < rows@.len() ==> (#[trigger] rows@[i])@.len() > key
                    && rows@[i]@[key as int]@ == keys[base[i]],
            forall|i: int|
                p <= i < base.len() ==> before(keys[x], keys[#[trigger] base[i]], descending),
        decreases p,
    {
        p = p - 1;
    }
    proof {
        lemma_placed_at(base, keys, x, descending, p as int);
    }
    let ghost shorter = rows@;
    rows.insert(p, row);
    proof {
        let placed = place(base, keys, x, descending);
        assert forall|i: int| 0 <= i < rows@.len() implies values_view((#[trigger] rows@[i])@)
            == row_of(b, placed[i]) by {
            if i < p {
                assert(rows@[i] == shorter[i]);
                assert(placed[i] == base[i]);
            } else if i > p {
                assert(rows@[i] == shorter[i - 1]);
                assert(placed[i] == base[i - 1]);
            }
        }
    }
    rows
}

/// Rows back into columns.
fn rows_to_columns(rows: &Vec<Vec<Value>>, width: usize, Ghost(b): Ghost<BatchV>, Ghost(
    positions,
): Ghost<Seq<int>>) -> (r: Vec<Vec<Value>>)
    requires
        keeps(rows@, b, positions),
        width == b.columns.len(),
    ensures
        data_view(r@) == arranged(b, positions).columns,
{
    let mut columns: Vec<Vec<Value>> = Vec::new();
    let mut c: usize = 0;
    while c < width
        invariant
            c <= width == b.columns.len(),
            columns@.len() == c,
            keeps(rows@, b, positions),
            forall|j: int|
                0 <= j < c ==> values_view((#[trigger] columns@[j])@) == Seq::new(
                    positions.len(),
                    |i: int| b.columns[j][positions[i]],
                ),
        decreases width - c,
    {
        let mut out: Vec<Value> = Vec::new();
        let mut i: usize = 0;
        while i < rows.len()
            invariant
                i <= rows@.len(),
                c < width == b.columns.len(),
                keeps(rows@, b, positions),
                out@.len() == i,
                forall|j: int|
                    0 <= j < i ==> (#[trigger] out@[j])@ == b.columns[c as int][positions[j]],
            decreases rows.len() - i,
        {
            proof {
                assert(values_view(rows@[i as int]@) == row_of(b, positions[i as int]));
                assert(values_view(rows@[i as int]@).len() == rows@[i as int]@.len());
                assert(values_view(rows@[i as int]@)[c as int] == rows@[i as int]@[c as int]@);
            }
            out.push(rows[i][c].clone());
            i = i + 1;
        }
        proof {
            let j = c as int;
            assert(values_view(out@) =~= Seq::new(
                positions.len(),
                |i: int| b.columns[j][positions[i]],
            ));
        }
        columns.push(out);
        c = c + 1;
    }
    assert(data_view(columns@) =~= arranged(b, positions).columns);
    columns
}

/// Moving on to a larger batch keeps what is kept.
proof fn lemma_keeps_appended(
    rows: Seq<Vec<Value>>,
    a: BatchV,
    b: BatchV,
    key: int,
    descending: bool,
    count: int,
)
    requires
        even(a),
        even(b),
        a.names == b.names,
        0 <= key < a.columns.len(),
        0 <= count,
        keeps(rows, a, first_of(ranked(a.columns[key], descending), count)),
    ensures
        keeps(
            rows,
            appended(Some(a), b),
            first_of(
                ranked_range(
                    appended(Some(a), b).columns[key],
                    0,
                    a.num_rows() as int,
                    descending,
                ),
                count,
            ),
        ),
{
    let all = appended(Some(a), b);
    let n = a.num_rows() as int;
    assert(a.columns[key].len() == n);
    lemma_ranked_prefix(a.columns[key], all.columns[key], n, descending);
    law_ranking(a.columns[key], 0, n, descending);
    let order = ranked(a.columns[key], descending);
    let head = first_of(order, count);
    assert forall|i: int| 0 <= i < rows.len() implies values_view((#[trigger] rows[i])@) == row_of(
        all,
        head[i],
    ) by {
        assert(order[i] == head[i]);
        assert(row_of(a, head[i]) =~= row_of(all, head[i])) by {
            assert forall|c: int| 0 <= c < a.columns.len() implies a.columns[c][head[i]]
                == all.columns[c][head[i]] by {
                assert(a.columns[c].len() == n);
            }
        }
    }
}

/// Drain `source` and keep the `count` rows that come first under the order:
/// at most `count` rows are held at a time, and a new row that beats the worst
/// of them takes its place. Rows with equal keys keep their order. Gives
/// `None` if the input had no batch.
#[verifier::loop_isolation(false)]
pub fn top_k(source: BatchStream<'_>, column: &str, descending: bool, count: u64) -> (r: Result<
    Option<ColumnBatch>,
    Error,
>)
    requires
        source.wf(),
    ensures
        maybe_batch(r) == top_rows(source.items(), column@, descending, count as int),
        r matches Ok(Some(b)) ==> even(b@),
{
    let ghost items = source.items();
    let mut source = source;
    proof {
        source.lemma_sound();
    }
    let first = match source.next() {
        None => {
            return Ok(None);
        },
        Some(Err(e)) => {
            return Err(e);
        },
        Some(Ok(b)) => b,
    };
    proof {
        lemma_appended(None, items);
        lemma_position(first@.names, column@, 0);
    }
    let key = match position(&first.names, column) {
        None => {
            return Err(order_column_missing(column));
        },
        Some(p) => p,
    };
    let names = clone_texts(&first.names);
    let ghost mut done: Option<BatchV> = None;
    let ghost mut acc: BatchV = first@;
    let mut rows: Vec<Vec<Value>> = Vec::new();
    let mut batch = first;
    assert(ranked_range(acc.columns[key as int], 0, 0, descending) =~= Seq::<int>::empty());
    loop
        invariant
            source.wf(),
            even(batch@),
            batch@.names == texts(names@),
            acc == appended(done, batch@),
            acc.names == texts(names@),
            even(acc),
            done matches Some(d) ==> even(d) && d.names == batch@.names && acc.num_rows()
                == d.num_rows() + batch@.num_rows(),
            fits(Some(acc), source.items()),
            key < names@.len(),
            gather(None, items) == gather(Some(acc), source.items()),
            keeps(
                rows@,
                acc,
                first_of(
                    ranked_range(
                        acc.columns[key as int],
                        0,
                        acc.num_rows() - batch@.num_rows(),
                        descending,
                    ),
                    count as int,
                ),
            ),
        decreases source.items().len(),
    {
        let ghost base = acc.num_rows() - batch@.num_rows();
        let total = batch.num_rows();
        assert(acc.columns[key as int].len() == acc.num_rows());
        let mut r: usize = 0;
        while r < total
            invariant
                r <= total == batch@.num_rows(),
                even(batch@),
                batch@.names == texts(names@),
                acc.names == texts(names@),
                even(acc),
                acc == appended(done, batch@),
                done matches Some(d) ==> even(d) && d.names == batch@.names && base == d.num_rows(),
                done is None ==> base == 0,
                0 <= base,
                acc.num_rows() == base + batch@.num_rows(),
                acc.columns[key as int].len() == acc.num_rows(),
                key < names@.len(),
                keeps(
                    rows@,
                    acc,
                    first_of(
                        ranked_range(acc.columns[key as int], 0, base + r, descending),
                        count as int,
                    ),
                ),
            decreases total - r,
        {
            let row = take_row(&batch, r);
            proof {
                assert forall|c: int| 0 <= c < acc.columns.len() implies batch@.columns[c][r as int]
                    == acc.columns[c][base + r] by {
                    assert(batch@.columns[c].len() == batch@.num_rows());
                    if done is Some {
                        assert(done->0.columns[c].len() == base);
                    }
                }
                assert(row_of(batch@, r as int) =~= row_of(acc, base + r));
            }
            rows = keep_row(rows, row, key, descending, count, Ghost(acc), Ghost(base + r));
            r = r + 1;
        }
        let ghost here = source.items();
        match source.next() {
            None => {
                break;
            },
            Some(Err(e)) => {
                return Err(e);
            },
            Some(Ok(b)) => {
                proof {
                    lemma_appended(Some(acc), here);
                    lemma_keeps_appended(
                        rows@,
                        acc,
                        b@,
                        key as int,
                        descending,
                        count as int,
                    );
                    done = Some(acc);
                    acc = appended(done, b@);
                }
                batch = b;
            },
        }
    }
    let ghost positions = first_of(ranked(acc.columns[key as int], descending), count as int);
    let columns = rows_to_columns(&rows, names.len(), Ghost(acc), Ghost(positions));
    proof {
        lemma_arranged_even(acc, positions);
    }
    Ok(Some(ColumnBatch { names, columns }))
}

} // verus!
