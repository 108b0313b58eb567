//! The result of running a plan: rows, or a line that says what was done. Rows
//! are shown as an aligned text table.

use vstd::prelude::*;
use vstd::string::*;
use vstd::utf8::*;

use crate::error::{outcome, Error, ErrorV};
use crate::execution::physical::batch::even;
use crate::execution::physical::sort::{row_of, take_row};
use crate::execution::physical::stream::{BatchStream, Items};
use crate::storage::{clone_values, values_view, BatchV, Value, ValueV};
use crate::text::{
    clone_texts, decimal, i64_text, join, joined, pad, padded, repeat, repeated, texts,
};

verus! {

/// What a single executed statement produces.
#[derive(Debug, PartialEq)]
pub enum QueryResult {
    /// Rows of a query: `names` are the output columns in order, and each entry
    /// of `rows` holds one row's values in that order.
    Rows { names: Vec<String>, rows: Vec<Vec<Value>> },
    /// A statement that changed the catalog or data.
    Affected(String),
}

/// The view of a [`QueryResult`].
pub enum QueryResultV {
    Rows { names: Seq<Seq<char>>, rows: Seq<Seq<ValueV>> },
    Affected(Seq<char>),
}

/// The views of a run of rows.
pub open spec fn rows_view(rows: Seq<Vec<Value>>) -> Seq<Seq<ValueV>> {
    Seq::new(rows.len(), |i: int| values_view(rows[i]@))
}

impl View for QueryResult {
    type V = QueryResultV;

    open spec fn view(&self) -> QueryResultV {
        match self {
            QueryResult::Rows { names, rows } => QueryResultV::Rows {
                names: texts(names@),
                rows: rows_view(rows@),
            },
            QueryResult::Affected(message) => QueryResultV::Affected(message@),
        }
    }
}

/// The rows of a batch.
pub open spec fn batch_rows(b: BatchV) -> Seq<Seq<ValueV>> {
    Seq::new(b.num_rows(), |r: int| row_of(b, r))
}

/// The rows of a stream behind those in `done`, or the first error.
pub open spec fn collected(done: Seq<Seq<ValueV>>, items: Items) -> Result<
    Seq<Seq<ValueV>>,
    ErrorV,
>
    decreases items.len(),
{
    if items.len() == 0 {
        Ok(done)
    } else {
        match items[0] {
            Err(e) => Err(e),
            Ok(b) => collected(done + batch_rows(b), items.skip(1)),
        }
    }
}

/// The result of a query whose stream yields `items`.
pub open spec fn rows_result(names: Seq<Seq<char>>, items: Items) -> Result<QueryResultV, ErrorV> {
    match collected(Seq::empty(), items) {
        Err(e) => Err(e),
        Ok(rows) => Ok(QueryResultV::Rows { names, rows }),
    }
}

/// Drain `stream` into rows. The operators have already left out deleted rows
/// and chosen the columns, so that this only turns columns into rows.
#[verifier::loop_isolation(false)]
pub fn collect_rows(names: Vec<String>, stream: BatchStream<'_>) -> (r: Result<QueryResult, Error>)
    requires
        stream.wf(),
    ensures
        outcome(r) == rows_result(texts(names@), stream.items()),
{
    let ghost items = stream.items();
    let mut source = stream;
    let mut rows: Vec<Vec<Value>> = Vec::new();
    assert(rows_view(rows@) =~= Seq::empty());
    loop
        invariant
            source.wf(),
            collected(Seq::empty(), items) == collected(rows_view(rows@), source.items()),
        decreases source.items().len(),
    {
        let ghost here = source.items();
        proof {
            source.lemma_sound();
        }
        match source.next() {
            None => {
                break;
            },
            Some(Err(e)) => {
                return Err(e);
            },
            Some(Ok(batch)) => {
                assert(here[0] is Ok);
                let ghost done = rows_view(rows@);
                let total = batch.num_rows();
                let mut r: usize = 0;
                assert(done + batch_rows(batch@).take(0) =~= done);
                while r < total
                    invariant
                        r <= total,
                        even(batch@),
                        total == batch@.num_rows(),
                        rows_view(rows@) == done + batch_rows(batch@).take(r as int),
                    decreases total - r,
                {
                    let ghost earlier = rows_view(rows@);
                    let row = take_row(&batch, r);
                    let ghost taken = values_view(row@);
                    rows.push(row);
                    r = r + 1;
                    assert(rows_view(rows@) =~= earlier.push(taken));
                    assert(rows_view(rows@) =~= done + batch_rows(batch@).take(r as int));
                }
                assert(batch_rows(batch@).take(r as int) =~= batch_rows(batch@));
            },
        }
    }
    Ok(QueryResult::Rows { names, rows })
}

// ---- text ----

/// A value in a result table.
pub open spec fn value_text(v: ValueV) -> Seq<char> {
    match v {
        ValueV::Int(n) => decimal(n as int),
        ValueV::Text(s) => s,
        ValueV::Null => "NULL"@,
    }
}

/// A value in a result table.
pub fn render_value(v: &Value) -> (r: String)
    ensures
        r@ == value_text(v@),
{
    match v {
        Value::Int(n) => i64_text(*n),
        Value::Text(s) => s.clone(),
        Value::Null => "NULL".to_string(),
    }
}

/// The cells of a row.
pub open spec fn row_texts(row: Seq<ValueV>) -> Seq<Seq<char>> {
    Seq::new(row.len(), |i: int| value_text(row[i]))
}

/// The length of a cell in bytes, by which columns are sized.
pub open spec fn cell_len(s: Seq<char>) -> int {
    encode_utf8(s).len() as int
}

/// The larger of two numbers.
pub open spec fn max_of(a: int, b: int) -> int {
    if a < b {
        b
    } else {
        a
    }
}

/// The width of column `i`: the longest of its header and its cells in the
/// first `n` rows.
pub open spec fn column_width(
    names: Seq<Seq<char>>,
    rows: Seq<Seq<ValueV>>,
    i: int,
    n: int,
) -> int
    decreases n,
{
    if n <= 0 {
        cell_len(names[i])
    } else {
        let before = column_width(names, rows, i, n - 1);
        if i < rows[n - 1].len() {
            max_of(before, cell_len(value_text(rows[n - 1][i])))
        } else {
            before
        }
    }
}

/// The widths of all columns.
pub open spec fn column_widths(names: Seq<Seq<char>>, rows: Seq<Seq<ValueV>>) -> Seq<int> {
    Seq::new(names.len(), |i: int| column_width(names, rows, i, rows.len() as int))
}

/// Cells padded to the widths of their columns, with bars between them. A cell
/// beyond the last column stays as it is.
pub open spec fn line_text(cells: Seq<Seq<char>>, widths: Seq<int>) -> Seq<char> {
    joined(
        Seq::new(
            cells.len(),
            |i: int|
                padded(
                    cells[i],
                    if i < widths.len() {
                        widths[i]
                    } else {
                        0
                    },
                ),
        ),
        " | "@,
    )
}

/// The line under the header.
pub open spec fn rule_text(widths: Seq<int>) -> Seq<char> {
    joined(Seq::new(widths.len(), |i: int| repeated('-', widths[i] as nat)), "-+-"@)
}

/// The lines of a result table.
pub open spec fn table_lines(names: Seq<Seq<char>>, rows: Seq<Seq<ValueV>>) -> Seq<Seq<char>> {
    let widths = column_widths(names, rows);
    seq![line_text(names, widths), rule_text(widths)] + Seq::new(
        rows.len(),
        |i: int| line_text(row_texts(rows[i]), widths),
    )
}

impl QueryResultV {
    /// The text of a result.
    pub open spec fn text(self) -> Seq<char> {
        match self {
            QueryResultV::Affected(message) => message,
            QueryResultV::Rows { names, rows } => joined(table_lines(names, rows), "\n"@),
        }
    }
}

/// The cells of a row.
fn render_row(row: &Vec<Value>) -> (r: Vec<String>)
    ensures
        texts(r@) == row_texts(values_view(row@)),
{
    let mut r: Vec<String> = Vec::new();
    let mut i: usize = 0;
    while i < row.len()
        invariant
            i <= row@.len(),
            r@.len() == i,
            forall|j: int| 0 <= j < i ==> (#[trigger] r@[j])@ == value_text(row@[j]@),
        decreases row.len() - i,
    {
        r.push(render_value(&row[i]));
        i = i + 1;
    }
    assert(texts(r@) =~= row_texts(values_view(row@)));
    r
}

/// The width of column `i`.
fn measure_column(names: &Vec<String>, rows: &Vec<Vec<Value>>, i: usize) -> (w: usize)
    requires
        i < names@.len(),
    ensures
        w == column_width(texts(names@), rows_view(rows@), i as int, rows@.len() as int),
{
    let mut w: usize = names[i].as_str().as_bytes().len();
    let mut n: usize = 0;
    while n < rows.len()
        invariant
            n <= rows@.len(),
            i < names@.len(),
            w == column_width(texts(names@), rows_view(rows@), i as int, n as int),
        decreases rows.len() - n,
    {
        assert(rows_view(rows@)[n as int].len() == rows@[n as int]@.len());
        if i < rows[n].len() {
            let cell = render_value(&rows[n][i]);
            let len = cell.as_str().as_bytes().len();
            if w < len {
                w = len;
            }
        }
        n = n + 1;
    }
    w
}

/// Widths as integers.
spec fn widths_view(widths: Seq<usize>) -> Seq<int> {
    Seq::new(widths.len(), |i: int| widths[i] as int)
}

/// Cells padded to the widths of their columns, with bars between them.
fn pad_join(cells: &Vec<String>, widths: &Vec<usize>) -> (r: String)
    ensures
        r@ == line_text(texts(cells@), widths_view(widths@)),
{
    let ghost ws = widths_view(widths@);
    let mut parts: Vec<String> = Vec::new();
    let mut i: usize = 0;
    while i < cells.len()
        invariant
            i <= cells@.len(),
            parts@.len() == i,
            ws == widths_view(widths@),
            forall|j: int|
                0 <= j < i ==> (#[trigger] parts@[j])@ == padded(
                    cells@[j]@,
                    if j < ws.len() {
                        ws[j]
                    } else {
                        0
                    },
                ),
        decreases cells.len() - i,
    {
        let width = if i < widths.len() {
            widths[i]
        } else {
            0
        };
        parts.push(pad(cells[i].as_str(), width));
        i = i + 1;
    }
    proof {
        let cs = texts(cells@);
        assert(texts(parts@) =~= Seq::new(
            cs.len(),
            |i: int|
                padded(
                    cs[i],
                    if i < ws.len() {
                        ws[i]
                    } else {
                        0
                    },
                ),
        ));
    }
    join(&parts, " | ")
}

/// The line under the header.
fn render_rule(widths: &Vec<usize>) -> (r: String)
    ensures
        r@ == rule_text(widths_view(widths@)),
{
    let ghost ws = widths_view(widths@);
    let mut parts: Vec<String> = Vec::new();
    let mut i: usize = 0;
    while i < widths.len()
        invariant
            i <= widths@.len(),
            parts@.len() == i,
            forall|j: int|
                0 <= j < i ==> (#[trigger] parts@[j])@ == repeated('-', widths@[j] as nat),
        decreases widths.len() - i,
    {
        parts.push(repeat('-', widths[i]));
        i = i + 1;
    }
    assert(texts(parts@) =~= Seq::new(ws.len(), |i: int| repeated('-', ws[i] as nat)));
    join(&parts, "-+-")
}

impl QueryResult {
    /// The text of a result: the message, or an aligned table.
    pub fn to_string(&self) -> (r: String)
        ensures
            r@ == self@.text(),
    {
        match self {
            QueryResult::Affected(message) => message.clone(),
            QueryResult::Rows { names, rows } => {
                let ghost vn = texts(names@);
                let ghost vr = rows_view(rows@);
                let mut widths: Vec<usize> = Vec::new();
                let mut i: usize = 0;
                while i < names.len()
                    invariant
                        i <= names@.len(),
                        widths@.len() == i,
                        vn == texts(names@),
                        vr == rows_view(rows@),
                        forall|j: int|
                            0 <= j < i ==> #[trigger] widths@[j] == column_width(
                                vn,
                                vr,
                                j,
                                vr.len() as int,
                            ),
                    decreases names.len() - i,
                {
                    widths.push(measure_column(names, rows, i));
                    i = i + 1;
                }
                let ghost ws = column_widths(vn, vr);
                assert(widths_view(widths@) =~= ws);
                let mut lines: Vec<String> = Vec::new();
                lines.push(pad_join(names, &widths));
                lines.push(render_rule(&widths));
                let mut n: usize = 0;
                while n < rows.len()
                    invariant
                        n <= rows@.len(),
                        lines@.len() == n + 2,
                        vr == rows_view(rows@),
                        ws == widths_view(widths@),
                        lines@[0]@ == line_text(vn, ws),
                        lines@[1]@ == rule_text(ws),
                        forall|j: int|
                            0 <= j < n ==> (#[trigger] lines@[j + 2])@ == line_text(
                                row_texts(vr[j]),
                                ws,
                            ),
                    decreases rows.len() - n,
                {
                    let cells = render_row(&rows[n]);
                    let ghost before = lines@;
                    lines.push(pad_join(&cells, &widths));
                    assert forall|j: int| 0 <= j < n + 1 implies (#[trigger] lines@[j + 2])@
                        == line_text(row_texts(vr[j]), ws) by {
                        if j < n {
                            assert(lines@[j + 2] == before[j + 2]);
                        }
                    }
                    n = n + 1;
                }
                proof {
                    let wanted = table_lines(vn, vr);
                    assert forall|k: int| 0 <= k < wanted.len() implies texts(lines@)[k]
                        == wanted[k] by {
                        if k >= 2 {
                            let j = k - 2;
                            assert(lines@[j + 2]@ == line_text(row_texts(vr[j]), ws));
                        }
                    }
                    assert(texts(lines@) =~= wanted);
                }
                join(&lines, "\n")
            },
        }
    }
}

impl Clone for QueryResult {
    fn clone(&self) -> (r: Self)
        ensures
            r@ == self@,
    {
        match self {
            QueryResult::Affected(message) => QueryResult::Affected(message.clone()),
            QueryResult::Rows { names, rows } => {
                let mut copy: Vec<Vec<Value>> = Vec::new();
                let mut i: usize = 0;
                while i < rows.len()
                    invariant
                        i <= rows@.len(),
                        copy@.len() == i,
                        forall|j: int|
                            0 <= j < i ==> values_view((#[trigger] copy@[j])@) == values_view(
                                rows@[j]@,
                            ),
                    decreases rows.len() - i,
                {
                    copy.push(clone_values(&rows[i]));
                    i = i + 1;
                }
                assert(rows_view(copy@) =~= rows_view(rows@));
                QueryResult::Rows { names: clone_texts(names), rows: copy }
            },
        }
    }
}

} // verus!
