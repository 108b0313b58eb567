//! The pull-based stream of batches that flows up the operator tree.

use vstd::prelude::*;

use crate::error::{outcome, Error, ErrorV};
use crate::execution::physical::batch::{
    chosen_column, even, filter_batch, filtered_batch, first_rows, lemma_filtered_even,
    project_batch, projected_batch, truncate_batch,
};
use crate::execution::physical::expr::{evaluate_predicate, lemma_mask_len, mask_of};
use crate::parser::ast::{Expr, ExprV};
use crate::steps::{collect, lemma_collected};
use crate::storage::model::{
    deletes_at, group_item, live_values, min_of, raw_column, scan_items, stored_rows, BatchScanV,
};
use crate::storage::scan::BatchScan;
use crate::storage::{BatchV, ColumnBatch, ValueV};
use crate::text::{lemma_position, texts};

verus! {

/// What a stream yields, one item after the other.
pub type Items = Seq<Result<BatchV, ErrorV>>;

/// The batches of a stream are even and share their column names.
pub open spec fn sound(items: Items) -> bool {
    &&& forall|i: int| 0 <= i < items.len() && (#[trigger] items[i]) is Ok ==> even(items[i]->Ok_0)
    &&& forall|i: int, j: int|
        0 <= i < items.len() && 0 <= j < items.len() && (#[trigger] items[i]) is Ok && (
        #[trigger] items[j]) is Ok ==> items[i]->Ok_0.names == items[j]->Ok_0.names
}

/// A filter passes errors on and keeps the rows that meet the condition.
pub open spec fn filter_item(predicate: ExprV, item: Result<BatchV, ErrorV>) -> Result<
    BatchV,
    ErrorV,
> {
    match item {
        Err(e) => Err(e),
        Ok(b) => match mask_of(predicate, b) {
            Err(e) => Err(e),
            Ok(mask) => Ok(filtered_batch(b, mask)),
        },
    }
}

/// The items of a filtered stream.
pub open spec fn filtered_items(predicate: ExprV, items: Items) -> Items {
    Seq::new(items.len(), |i: int| filter_item(predicate, items[i]))
}

/// A projection passes errors on and chooses columns.
pub open spec fn project_item(columns: Seq<Seq<char>>, item: Result<BatchV, ErrorV>) -> Result<
    BatchV,
    ErrorV,
> {
    match item {
        Err(e) => Err(e),
        Ok(b) => projected_batch(b, columns),
    }
}

/// The items of a projected stream.
pub open spec fn projected_items(columns: Seq<Seq<char>>, items: Items) -> Items {
    Seq::new(items.len(), |i: int| project_item(columns, items[i]))
}

/// The items of a stream cut off after `count` rows. Once the budget is spent
/// nothing more is asked of the input.
pub open spec fn limited_items(count: int, items: Items) -> Items
    decreases items.len(),
{
    if count <= 0 || items.len() == 0 {
        Seq::empty()
    } else {
        match items[0] {
            Err(e) => seq![Err::<BatchV, ErrorV>(e)] + limited_items(count, items.skip(1)),
            Ok(b) => {
                let taken = min_of(count, b.num_rows() as int);
                seq![Ok::<BatchV, ErrorV>(first_rows(b, taken))] + limited_items(
                    count - taken,
                    items.skip(1),
                )
            },
        }
    }
}

/// Batches, last one first, as the items of a stream.
pub open spec fn stacked_items(batches: Seq<ColumnBatch>) -> Items {
    Seq::new(batches.len(), |i: int| Ok::<BatchV, ErrorV>(batches[batches.len() - 1 - i]@))
}

// ---- soundness ----

/// What comes later in a sound stream is sound.
proof fn lemma_sound_skip(items: Items)
    requires
        sound(items),
        items.len() > 0,
    ensures
        sound(items.skip(1)),
{
    let rest = items.skip(1);
    assert forall|i: int| 0 <= i < rest.len() && (#[trigger] rest[i]) is Ok implies even(
        rest[i]->Ok_0,
    ) by {
        assert(rest[i] == items[i + 1]);
    }
    assert forall|i: int, j: int|
        0 <= i < rest.len() && 0 <= j < rest.len() && (#[trigger] rest[i]) is Ok && (
        #[trigger] rest[j]) is Ok implies rest[i]->Ok_0.names == rest[j]->Ok_0.names by {
        assert(rest[i] == items[i + 1]);
        assert(rest[j] == items[j + 1]);
    }
}

/// A filter keeps a stream sound.
pub proof fn lemma_filtered_sound(predicate: ExprV, items: Items)
    requires
        sound(items),
    ensures
        sound(filtered_items(predicate, items)),
{
    let r = filtered_items(predicate, items);
    assert forall|i: int| 0 <= i < r.len() && (#[trigger] r[i]) is Ok implies even(r[i]->Ok_0) && (
    items[i] is Ok && r[i]->Ok_0.names == items[i]->Ok_0.names) by {
        assert(items[i] is Ok);
        let b = items[i]->Ok_0;
        lemma_filtered_even(b, mask_of(predicate, b)->Ok_0);
    }
}

/// A projection of an even batch is even.
pub proof fn lemma_projected_even(b: BatchV, columns: Seq<Seq<char>>)
    requires
        even(b),
    ensures
        projected_batch(b, columns) matches Ok(r) ==> even(r) && r.names == columns,
{
    let rule = chosen_column(b, columns);
    lemma_collected(columns.len() as int, rule);
    if let Ok(r) = projected_batch(b, columns) {
        assert forall|c: int| 0 <= c < r.columns.len() implies (#[trigger] r.columns[c]).len()
            == b.num_rows() by {
            assert(rule(c) == Ok::<Seq<ValueV>, ErrorV>(r.columns[c]));
            lemma_position(b.names, columns[c], 0);
        }
    }
}

/// A projection keeps a stream sound.
pub proof fn lemma_projected_sound(columns: Seq<Seq<char>>, items: Items)
    requires
        sound(items),
    ensures
        sound(projected_items(columns, items)),
{
    let r = projected_items(columns, items);
    assert forall|i: int| 0 <= i < r.len() && (#[trigger] r[i]) is Ok implies even(r[i]->Ok_0)
        && r[i]->Ok_0.names == columns by {
        assert(items[i] is Ok);
        lemma_projected_even(items[i]->Ok_0, columns);
    }
}

/// The first rows of an even batch are an even batch.
pub proof fn lemma_first_rows_even(b: BatchV, n: int)
    requires
        even(b),
        0 <= n,
    ensures
        even(first_rows(b, n)),
        first_rows(b, n).num_rows() == min_of(n, b.num_rows() as int),
{
    let r = first_rows(b, n);
    if n < b.num_rows() {
        assert(b.columns.len() > 0);
        assert(b.columns[0].len() == b.num_rows());
        assert forall|c: int| 0 <= c < r.columns.len() implies (#[trigger] r.columns[c]).len()
            == r.num_rows() by {
            assert(b.columns[c].len() == b.num_rows());
        }
    }
}

/// A limit keeps a stream sound, and its batches have names that the input's
/// batches have.
pub proof fn lemma_limited_sound(count: int, items: Items)
    requires
        sound(items),
    ensures
        sound(limited_items(count, items)),
        forall|i: int|
            0 <= i < limited_items(count, items).len() && (#[trigger] limited_items(
                count,
                items,
            )[i]) is Ok ==> exists|j: int|
                0 <= j < items.len() && (#[trigger] items[j]) is Ok && items[j]->Ok_0.names
                    == limited_items(count, items)[i]->Ok_0.names,
    decreases items.len(),
{
    if count > 0 && items.len() > 0 {
        let rest = items.skip(1);
        lemma_sound_skip(items);
        let left = match items[0] {
            Err(_) => count,
            Ok(b) => count - min_of(count, b.num_rows() as int),
        };
        lemma_limited_sound(left, rest);
        let tail = limited_items(left, rest);
        let r = limited_items(count, items);
        assert forall|i: int| 0 <= i < r.len() && (#[trigger] r[i]) is Ok implies even(r[i]->Ok_0)
            && exists|j: int|
            0 <= j < items.len() && (#[trigger] items[j]) is Ok && items[j]->Ok_0.names
                == r[i]->Ok_0.names by {
            if i == 0 {
                let b = items[0]->Ok_0;
                lemma_first_rows_even(b, min_of(count, b.num_rows() as int));
                assert(items[0]->Ok_0.names == r[0]->Ok_0.names);
            } else {
                assert(r[i] == tail[i - 1]);
                let j = choose|j: int|
                    0 <= j < rest.len() && (#[trigger] rest[j]) is Ok && rest[j]->Ok_0.names
                        == tail[i - 1]->Ok_0.names;
                assert(items[j + 1] == rest[j]);
            }
        }
    }
}

/// How many rows the batches of a stream hold.
pub open spec fn rows_in(items: Items) -> int
    decreases items.len(),
{
    if items.len() == 0 {
        0
    } else {
        rows_in(items.skip(1)) + match items[0] {
            Err(_) => 0,
            Ok(b) => b.num_rows() as int,
        }
    }
}

/// No stream holds fewer rows than none.
proof fn lemma_rows_in(items: Items)
    ensures
        rows_in(items) >= 0,
    decreases items.len(),
{
    if items.len() > 0 {
        lemma_rows_in(items.skip(1));
    }
}

/// A limit gives as many rows as it may, and all of them where there are fewer.
pub proof fn law_limit_counts_rows(count: int, items: Items)
    requires
        sound(items),
        0 <= count,
    ensures
        rows_in(limited_items(count, items)) == min_of(count, rows_in(items)),
    decreases items.len(),
{
    lemma_rows_in(items);
    if count > 0 && items.len() > 0 {
        let rest = items.skip(1);
        let r = limited_items(count, items);
        lemma_sound_skip(items);
        lemma_rows_in(rest);
        match items[0] {
            Err(_) => {
                law_limit_counts_rows(count, rest);
                assert(r.skip(1) =~= limited_items(count, rest));
            },
            Ok(b) => {
                let taken = min_of(count, b.num_rows() as int);
                lemma_first_rows_even(b, taken);
                law_limit_counts_rows(count - taken, rest);
                assert(r.skip(1) =~= limited_items(count - taken, rest));
            },
        }
    }
}

/// A limit reads no further than it needs: where the first `k` items hold enough
/// rows, what comes behind them, an error included, makes no difference.
pub proof fn law_limit_reads_no_further(count: int, items: Items, k: int)
    requires
        0 <= k <= items.len(),
        rows_in(items.take(k)) >= count,
    ensures
        limited_items(count, items) == limited_items(count, items.take(k)),
    decreases items.len(),
{
    if count > 0 && items.len() > 0 {
        let front = items.take(k);
        if k == 0 {
            assert(rows_in(front) == 0);
        } else {
            assert(front[0] == items[0]);
            assert(front.skip(1) =~= items.skip(1).take(k - 1));
            let left = match items[0] {
                Err(_) => count,
                Ok(b) => count - min_of(count, b.num_rows() as int),
            };
            lemma_rows_in(front.skip(1));
            law_limit_reads_no_further(left, items.skip(1), k - 1);
        }
    }
}

/// How many values stay live depends on the bitmap alone.
proof fn lemma_live_len(a: Seq<ValueV>, b: Seq<ValueV>, bits: Seq<u8>, n: int)
    ensures
        live_values(a, bits, n).len() == live_values(b, bits, n).len(),
    decreases n,
{
    if n > 0 {
        lemma_live_len(a, b, bits, n - 1);
    }
}

/// The batch of a row group is even and has the projected names.
proof fn lemma_group_even(s: BatchScanV, group: int)
    ensures
        group_item(s, group) matches Ok(Some(b)) ==> even(b) && b.names == s.projected,
{
    if let Ok(Some(b)) = group_item(s, group) {
        let rule = raw_column(s.disk, s.dir, group as u32, s.projected);
        lemma_collected(s.projected.len() as int, rule);
        let raw = collect(s.projected.len() as int, rule)->Ok_0;
        let bits = deletes_at(s.disk, s.dir, group as u32)->Ok_0.1;
        let rows = min_of(stored_rows(raw), s.total_rows - group * s.row_group_size);
        assert forall|c: int| 0 <= c < b.columns.len() implies (#[trigger] b.columns[c]).len()
            == b.num_rows() by {
            lemma_live_len(raw[c], raw[0], bits, rows);
        }
    }
}

/// The items of a scan are sound.
pub proof fn lemma_scan_sound(s: BatchScanV, group: int)
    ensures
        sound(scan_items(s, group)),
        forall|i: int|
            0 <= i < scan_items(s, group).len() && (#[trigger] scan_items(s, group)[i]) is Ok
                ==> scan_items(s, group)[i]->Ok_0.names == s.projected,
    decreases u32::MAX + 1 - group,
{
    if group > u32::MAX || group * s.row_group_size >= s.total_rows {
    } else {
        lemma_group_even(s, group);
        match group_item(s, group) {
            Err(_) => {},
            Ok(None) => {
                lemma_scan_sound(s, group + 1);
            },
            Ok(Some(b)) => {
                lemma_scan_sound(s, group + 1);
                let tail = scan_items(s, group + 1);
                let r = scan_items(s, group);
                assert forall|i: int| 0 <= i < r.len() && (#[trigger] r[i]) is Ok implies even(
                    r[i]->Ok_0,
                ) && r[i]->Ok_0.names == s.projected by {
                    if i > 0 {
                        assert(r[i] == tail[i - 1]);
                    }
                }
            },
        }
    }
}

// ---- the stream ----

/// A stream of batches, made by the operators of a query.
#[derive(Debug)]
pub enum BatchStream<'a> {
    /// The batches of a table scan.
    Scan(BatchScan<'a>),
    /// The rows of the input that meet a condition.
    Filter { predicate: &'a Expr, input: Box<BatchStream<'a>> },
    /// The input with other columns.
    Project { columns: &'a Vec<String>, input: Box<BatchStream<'a>> },
    /// The first rows of the input.
    Limit { remaining: u64, input: Box<BatchStream<'a>> },
    /// Batches that are already there, last one first.
    Stack(Vec<ColumnBatch>),
}

impl<'a> BatchStream<'a> {
    /// The items that the stream is still going to yield.
    pub open spec fn items(self) -> Items
        decreases self,
    {
        match self {
            BatchStream::Scan(scan) => scan.items(),
            BatchStream::Filter { predicate, input } => filtered_items(predicate@, input.items()),
            BatchStream::Project { columns, input } => projected_items(
                texts(columns@),
                input.items(),
            ),
            BatchStream::Limit { remaining, input } => limited_items(
                remaining as int,
                input.items(),
            ),
            BatchStream::Stack(batches) => stacked_items(batches@),
        }
    }

    /// A limit that has given all the rows that it may.
    pub open spec fn spent(self) -> bool {
        self matches BatchStream::Limit { remaining, .. } && remaining == 0
    }

    /// What feeds the stream is sound.
    pub open spec fn wf(self) -> bool
        decreases self,
    {
        match self {
            BatchStream::Scan(scan) => sound(scan.items()),
            BatchStream::Filter { input, .. } => input.wf(),
            BatchStream::Project { input, .. } => input.wf(),
            BatchStream::Limit { input, .. } => input.wf(),
            BatchStream::Stack(batches) => sound(stacked_items(batches@)),
        }
    }

    /// Every stream that is fed soundly yields soundly.
    pub proof fn lemma_sound(self)
        requires
            self.wf(),
        ensures
            sound(self.items()),
        decreases self,
    {
        match self {
            BatchStream::Filter { predicate, input } => {
                input.lemma_sound();
                lemma_filtered_sound(predicate@, input.items());
            },
            BatchStream::Project { columns, input } => {
                input.lemma_sound();
                lemma_projected_sound(texts(columns@), input.items());
            },
            BatchStream::Limit { remaining, input } => {
                input.lemma_sound();
                lemma_limited_sound(remaining as int, input.items());
            },
            _ => {},
        }
    }

    /// A stream of the given batches, in order.
    pub fn of(batches: Vec<ColumnBatch>) -> (r: BatchStream<'a>)
        requires
            sound(
                Seq::new(
                    batches@.len(),
                    |i: int| Ok::<BatchV, ErrorV>(batches@[i]@),
                ),
            ),
        ensures
            r.wf(),
            r.items() == Seq::new(batches@.len(), |i: int| Ok::<BatchV, ErrorV>(batches@[i]@)),
    {
        let ghost given = batches@;
        let ghost wanted = Seq::new(given.len(), |i: int| Ok::<BatchV, ErrorV>(given[i]@));
        let mut source = batches;
        let mut stack: Vec<ColumnBatch> = Vec::new();
        let mut done: usize = 0;
        let total = source.len();
        while done < total
            invariant
                done <= total == given.len(),
                source@ == given.take(total - done),
                stack@.len() == done,
                forall|i: int| 0 <= i < done ==> #[trigger] stack@[i] == given[total - 1 - i],
            decreases total - done,
        {
            match source.pop() {
                Some(b) => {
                    assert(b == given[total - done - 1]);
                    stack.push(b);
                },
                None => {},
            }
            done = done + 1;
            assert(source@ =~= given.take(total - done));
        }
        assert(stacked_items(stack@) =~= wanted);
        BatchStream::Stack(stack)
    }

    /// The next batch: `None` once the stream is over.
    pub fn next(&mut self) -> (r: Option<Result<ColumnBatch, Error>>)
        requires
            old(self).wf(),
        ensures
            final(self).wf(),
            match r {
                None => old(self).items().len() == 0 && final(self).items() == old(self).items(),
                Some(item) => {
                    &&& old(self).items().len() > 0
                    &&& outcome(item) == old(self).items()[0]
                    &&& final(self).items() == old(self).items().skip(1)
                },
            },
            // A limit whose budget is spent asks its input for nothing.
            old(self).spent() ==> r is None && *final(self) == *old(self),
        decreases *old(self),
    {
        let ghost start = *self;
        proof {
            start.lemma_sound();
        }
        match self {
            BatchStream::Scan(scan) => {
                let ghost items = scan.items();
                let r = scan.next();
                proof {
                    if r is Some {
                        lemma_sound_skip(items);
                    }
                }
                r
            },
            BatchStream::Filter { predicate, input } => {
                let ghost items = input.items();
                proof {
                    input.lemma_sound();
                }
                match input.next() {
                    None => None,
                    Some(item) => {
                        proof {
                            assert(filtered_items(predicate@, items).skip(1) =~= filtered_items(
                                predicate@,
                                items.skip(1),
                            ));
                        }
                        match item {
                            Err(e) => Some(Err(e)),
                            Ok(batch) => {
                                assert(items[0] is Ok);
                                match evaluate_predicate(*predicate, &batch) {
                                    Err(e) => Some(Err(e)),
                                    Ok(mask) => {
                                        proof {
                                            lemma_mask_len(predicate@, batch@);
                                        }
                                        Some(Ok(filter_batch(&batch, &mask)))
                                    },
                                }
                            },
                        }
                    },
                }
            },
            BatchStream::Project { columns, input } => {
                let ghost items = input.items();
                proof {
                    input.lemma_sound();
                }
                match input.next() {
                    None => None,
                    Some(item) => {
                        proof {
                            assert(projected_items(texts(columns@), items).skip(1)
                                =~= projected_items(texts(columns@), items.skip(1)));
                        }
                        match item {
                            Err(e) => Some(Err(e)),
                            Ok(batch) => {
                                assert(items[0] is Ok);
                                Some(project_batch(&batch, *columns))
                            },
                        }
                    },
                }
            },
            BatchStream::Limit { remaining, input } => {
                // Once the budget is spent, stop without asking for another
                // batch, so that a scan need not decode what is never used.
                if *remaining == 0 {
                    return None;
                }
                let ghost items = input.items();
                let ghost count = *remaining as int;
                proof {
                    input.lemma_sound();
                }
                match input.next() {
                    None => None,
                    Some(Err(e)) => {
                        proof {
                            assert(limited_items(count, items).skip(1) =~= limited_items(
                                count,
                                items.skip(1),
                            ));
                        }
                        Some(Err(e))
                    },
                    Some(Ok(batch)) => {
                        assert(items[0] is Ok);
                        let rows = batch.num_rows();
                        let taken = if *remaining < rows as u64 {
                            *remaining as usize
                        } else {
                            rows
                        };
                        *remaining = *remaining - taken as u64;
                        proof {
                            assert(taken == min_of(count, batch@.num_rows() as int));
                            assert(limited_items(count, items).skip(1) =~= limited_items(
                                count - taken,
                                items.skip(1),
                            ));
                        }
                        Some(Ok(truncate_batch(batch, taken)))
                    },
                }
            },
            BatchStream::Stack(batches) => {
                let ghost before = batches@;
                match batches.pop() {
                    None => None,
                    Some(b) => {
                        proof {
                            lemma_sound_skip(stacked_items(before));
                            assert(stacked_items(batches@) =~= stacked_items(before).skip(1));
                        }
                        Some(Ok(b))
                    },
                }
            },
        }
    }
}

} // verus!
