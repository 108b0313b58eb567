//! Scans over the row groups of a table.

use vstd::prelude::*;
use vstd::string::*;

use crate::catalog::schema::{columns_view, Column};
use crate::disk::Disk;
use crate::error::{outcome, Error, ErrorV};
use crate::steps::{collect, collect_from, lemma_collected};
use crate::storage::column_store::{header_at, load_at, read_at, row_group_dir};
use crate::storage::delete_bitmap::is_deleted;
use crate::storage::model::{
    can_match, column_names, group_batch, group_rows, live_values, loaded_group, pruned_from,
    raw_column, row_at, row_items, scan_items, stored_rows, uneven_from, BatchScanV, RowScanV,
};
use crate::storage::{
    data_view, predicates_view, values_view, BatchV, ColumnBatch, Record, Rid, ScanCompare,
    ScanPredicate, Value, ValueV,
};
use crate::text::{clone_texts, join5, texts, u64_text, usize_text};

verus! {

/// Whether a row group whose live INT range is `[min, max]` could contain a row
/// satisfying `col <op> value`. Conservative: `true` keeps the group, `false`
/// proves it can be skipped.
pub fn group_can_match(op: ScanCompare, value: i64, min: i64, max: i64) -> (r: bool)
    ensures
        r == can_match(op, value as int, min as int, max as int),
{
    match op {
        ScanCompare::Eq => min <= value && value <= max,
        ScanCompare::NotEq => !(min == value && max == value),
        ScanCompare::Lt => min < value,
        ScanCompare::LtEq => min <= value,
        ScanCompare::Gt => max > value,
        ScanCompare::GtEq => max >= value,
    }
}

/// Read the named columns of a row group.
#[verifier::loop_isolation(false)]
fn read_columns(disk: &Disk, dir: &str, group: u32, names: &Vec<String>) -> (r: Result<
    Vec<Vec<Value>>,
    Error,
>)
    ensures
        match r {
            Ok(raw) => collect(
                names@.len() as int,
                raw_column(disk@, dir@, group, texts(names@)),
            ) == Ok::<_, ErrorV>(data_view(raw@)),
            Err(e) => collect(
                names@.len() as int,
                raw_column(disk@, dir@, group, texts(names@)),
            ) == Err::<Seq<Seq<ValueV>>, ErrorV>(e@),
        },
{
    let ghost read = raw_column(disk@, dir@, group, texts(names@));
    let ghost n = names@.len() as int;
    let mut raw: Vec<Vec<Value>> = Vec::new();
    let mut i: usize = 0;
    assert(data_view(raw@) =~= Seq::<Seq<ValueV>>::empty());
    while i < names.len()
        invariant
            i <= names@.len(),
            collect(n, read) == collect_from(data_view(raw@), i as int, n, read),
        decreases names.len() - i,
    {
        let ghost before = raw@;
        assert(texts(names@)[i as int] == names@[i as int]@);
        match read_at(disk, dir, group, names[i].as_str()) {
            Err(e) => {
                return Err(e);
            },
            Ok((_, values)) => {
                assert(read(i as int) == Ok::<_, ErrorV>(values_view(values@)));
                raw.push(values);
                assert(data_view(raw@) =~= data_view(before).push(values_view(values@)));
            },
        }
        i = i + 1;
    }
    Ok(raw)
}

/// The first column whose length is not `rows`.
fn find_uneven(raw: &Vec<Vec<Value>>, rows: usize) -> (r: Option<usize>)
    ensures
        match r {
            Some(i) => i < raw@.len() && uneven_from(data_view(raw@), rows as int, 0) == Some(
                i as int,
            ),
            None => uneven_from(data_view(raw@), rows as int, 0) is None,
        },
{
    let mut i: usize = 0;
    while i < raw.len()
        invariant
            i <= raw@.len(),
            uneven_from(data_view(raw@), rows as int, 0) == uneven_from(
                data_view(raw@),
                rows as int,
                i as int,
            ),
        decreases raw.len() - i,
    {
        if raw[i].len() != rows {
            return Some(i);
        }
        i = i + 1;
    }
    None
}

/// When no column is uneven, all have the same length.
pub proof fn lemma_even(columns: Seq<Seq<ValueV>>, rows: int, i: int)
    requires
        0 <= i,
        uneven_from(columns, rows, i) is None,
    ensures
        forall|c: int| i <= c < columns.len() ==> (#[trigger] columns[c]).len() == rows,
    decreases columns.len() - i,
{
    if i < columns.len() {
        lemma_even(columns, rows, i + 1);
        assert forall|c: int| i <= c < columns.len() implies (#[trigger] columns[c]).len()
            == rows by {
            if c > i {
                assert(i + 1 <= c);
            }
        }
    }
}

/// The live ones among the first `n` values.
fn compact(values: &Vec<Value>, bits: &Vec<u8>, n: usize) -> (r: Vec<Value>)
    requires
        n <= values@.len(),
    ensures
        values_view(r@) == live_values(values_view(values@), bits@, n as int),
{
    let mut r: Vec<Value> = Vec::new();
    let mut i: usize = 0;
    assert(values_view(r@) =~= Seq::<ValueV>::empty());
    while i < n
        invariant
            i <= n <= values@.len(),
            values_view(r@) == live_values(values_view(values@), bits@, i as int),
        decreases n - i,
    {
        if !is_deleted(bits.as_slice(), i) {
            let ghost before = r@;
            r.push(values[i].clone());
            assert(values_view(r@) =~= values_view(before).push(values_view(values@)[i as int]));
        }
        i = i + 1;
    }
    r
}

/// Streaming vectorized scan. For each row group it first asks the INT zone
/// maps whether the group can be skipped wholesale, then decodes only the
/// projected columns and leaves deleted rows out of the batch.
#[derive(Debug)]
pub struct BatchScan<'a> {
    disk: &'a Disk,
    dir: String,
    projected: Vec<String>,
    prune: Vec<ScanPredicate>,
    row_group_size: u32,
    total_rows: u64,
    current_group: u64,
    errored: bool,
}

impl<'a> View for BatchScan<'a> {
    type V = BatchScanV;

    closed spec fn view(&self) -> BatchScanV {
        BatchScanV {
            disk: self.disk@,
            dir: self.dir@,
            projected: texts(self.projected@),
            prune: predicates_view(self.prune@),
            row_group_size: self.row_group_size,
            total_rows: self.total_rows,
        }
    }
}

impl<'a> BatchScan<'a> {
    /// The items that the scan is still going to yield.
    pub closed spec fn items(&self) -> Seq<Result<BatchV, ErrorV>> {
        if self.errored {
            Seq::empty()
        } else {
            scan_items(self@, self.current_group as int)
        }
    }

    /// A scan that has not begun.
    pub fn new(
        disk: &'a Disk,
        dir: String,
        projected: Vec<String>,
        prune: Vec<ScanPredicate>,
        row_group_size: u32,
        total_rows: u64,
    ) -> (r: Self)
        ensures
            r@ == (BatchScanV {
                disk: disk@,
                dir: dir@,
                projected: texts(projected@),
                prune: predicates_view(prune@),
                row_group_size,
                total_rows,
            }),
            r.items() == scan_items(r@, 0),
    {
        BatchScan {
            disk,
            dir,
            projected,
            prune,
            row_group_size,
            total_rows,
            current_group: 0,
            errored: false,
        }
    }

    /// True when the group's INT zone maps prove that no live row can satisfy
    /// every (conjunctive) prune predicate, so the group can be skipped without
    /// decoding any data.
    #[verifier::loop_isolation(false)]
    fn group_pruned(&self, group: u32) -> (r: Result<bool, Error>)
        ensures
            match r {
                Ok(b) => pruned_from(self@.disk, self@.dir, group, self@.prune, 0) == Ok::<
                    _,
                    ErrorV,
                >(b),
                Err(e) => pruned_from(self@.disk, self@.dir, group, self@.prune, 0) == Err::<
                    bool,
                    ErrorV,
                >(e@),
            },
    {
        let mut i: usize = 0;
        while i < self.prune.len()
            invariant
                i <= self.prune@.len(),
                pruned_from(self@.disk, self@.dir, group, self@.prune, 0) == pruned_from(
                    self@.disk,
                    self@.dir,
                    group,
                    self@.prune,
                    i as int,
                ),
            decreases self.prune.len() - i,
        {
            let pred = &self.prune[i];
            assert(self@.prune[i as int] == pred@);
            match header_at(self.disk, self.dir.as_str(), group, pred.column.as_str()) {
                Err(e) => {
                    return Err(e);
                },
                Ok(header) => match header.int_range() {
                    None => {
                        // No live INT value in this group: nothing can match.
                        return Ok(true);
                    },
                    Some((min, max)) => {
                        if !group_can_match(pred.op, pred.value, min, max) {
                            return Ok(true);
                        }
                    },
                },
            }
            i = i + 1;
        }
        Ok(false)
    }

    /// Decode the projected columns of one group and leave out deleted rows.
    /// Returns `None` when the group has no live rows. Rows past the committed
    /// ones are never read, even if a column file physically holds more.
    #[verifier::loop_isolation(false)]
    fn load_group(&self, group: u32, remaining: u64) -> (r: Result<Option<ColumnBatch>, Error>)
        ensures
            ({
                let expected = group_batch(
                    self@.disk,
                    self@.dir,
                    group,
                    self@.projected,
                    remaining as int,
                );
                match r {
                    Ok(Some(batch)) => expected == Ok::<_, ErrorV>(Some(batch@)),
                    Ok(None) => expected == Ok::<Option<BatchV>, ErrorV>(None),
                    Err(e) => expected == Err::<Option<BatchV>, ErrorV>(e@),
                }
            }),
    {
        let dir = self.dir.as_str();
        let raw = match read_columns(self.disk, dir, group, &self.projected) {
            Err(e) => {
                return Err(e);
            },
            Ok(raw) => raw,
        };
        proof {
            lemma_collected(
                self@.projected.len() as int,
                raw_column(self@.disk, self@.dir, group, self@.projected),
            );
            assert(data_view(raw@).len() == self@.projected.len());
        }
        let stored: usize = if raw.len() == 0 {
            0
        } else {
            raw[0].len()
        };
        if let Some(bad) = find_uneven(&raw, stored) {
            let rg_dir = row_group_dir(dir, group);
            let bad_rows = usize_text(raw[bad].len());
            let rows = usize_text(stored);
            let mut message = join5(
                "row group at '",
                rg_dir.as_str(),
                "': column '",
                self.projected[bad].as_str(),
                "' has ",
            );
            message.append(bad_rows.as_str());
            message.append(" rows but '");
            message.append(self.projected[0].as_str());
            message.append("' has ");
            message.append(rows.as_str());
            return Err(Error::corrupt(message.as_str()));
        }
        proof {
            lemma_even(data_view(raw@), stored as int, 0);
        }
        let bits = match load_at(self.disk, dir, group) {
            Err(e) => {
                return Err(e);
            },
            Ok(bits) => bits,
        };
        let rows: usize = if (stored as u64) < remaining {
            stored
        } else {
            remaining as usize
        };
        let ghost wanted = Seq::new(
            data_view(raw@).len(),
            |c: int| live_values(data_view(raw@)[c], bits@, rows as int),
        );
        let mut columns: Vec<Vec<Value>> = Vec::new();
        let mut c: usize = 0;
        while c < raw.len()
            invariant
                c <= raw@.len(),
                columns@.len() == c,
                forall|k: int| 0 <= k < c ==> values_view((#[trigger] columns@[k])@) == wanted[k],
            decreases raw.len() - c,
        {
            assert(data_view(raw@)[c as int].len() == stored);
            columns.push(compact(&raw[c], &bits, rows));
            c = c + 1;
        }
        assert(data_view(columns@) =~= wanted);
        if columns.len() > 0 && columns[0].len() == 0 {
            assert(values_view(columns@[0]@) == wanted[0]);
            return Ok(None);
        }
        assert(columns@.len() > 0 ==> values_view(columns@[0]@) == wanted[0]);
        let names = clone_texts(&self.projected);
        Ok(Some(ColumnBatch { names, columns }))
    }

    /// The next batch: `None` once every group is consumed. After an error the
    /// scan is over, so a caller can't resume past corruption.
    #[verifier::loop_isolation(false)]
    pub fn next(&mut self) -> (r: Option<Result<ColumnBatch, Error>>)
        ensures
            final(self)@ == old(self)@,
            match r {
                None => old(self).items().len() == 0 && final(self).items() == old(self).items(),
                Some(item) => {
                    &&& old(self).items().len() > 0
                    &&& outcome(item) == old(self).items()[0]
                    &&& final(self).items() == old(self).items().skip(1)
                },
            },
    {
        if self.errored {
            return None;
        }
        let ghost start = *self;
        while self.current_group <= u32::MAX as u64
            invariant
                !self.errored,
                self@ == start@,
                self.items() == start.items(),
                self.row_group_size == start.row_group_size,
                self.total_rows == start.total_rows,
            decreases u32::MAX + 1 - self.current_group,
        {
            let ghost at = self.current_group as int;
            assert(at * self.row_group_size <= u32::MAX * u32::MAX) by (nonlinear_arith)
                requires
                    0 <= at <= u32::MAX,
                    0 <= self.row_group_size <= u32::MAX,
            ;
            let first_rid: u64 = self.current_group * self.row_group_size as u64;
            if first_rid >= self.total_rows {
                return None;
            }
            let group: u32 = self.current_group as u32;
            self.current_group = self.current_group + 1;
            assert(self@ == start@);
            match self.group_pruned(group) {
                Err(e) => {
                    self.errored = true;
                    assert(start.items().skip(1) =~= Seq::<Result<BatchV, ErrorV>>::empty());
                    return Some(Err(e));
                },
                Ok(true) => {
                    continue ;
                },
                Ok(false) => {},
            }
            match self.load_group(group, self.total_rows - first_rid) {
                Err(e) => {
                    self.errored = true;
                    assert(start.items().skip(1) =~= Seq::<Result<BatchV, ErrorV>>::empty());
                    return Some(Err(e));
                },
                Ok(None) => {},
                Ok(Some(batch)) => {
                    assert(start.items().skip(1) =~= self.items());
                    return Some(Ok(batch));
                },
            }
        }
        None
    }
}

/// One row group loaded into memory while a row scan walks it.
#[derive(Debug)]
struct LoadedGroup {
    /// Per-column decoded values.
    columns: Vec<Vec<Value>>,
    /// The row group's delete bitmap.
    deletes: Vec<u8>,
    /// Number of rows in every column.
    row_count: usize,
}

/// Streaming row scan. Loads each row group on demand, walks the offsets within
/// it, and stops at the rows that were committed when the scan began.
#[derive(Debug)]
pub struct RowScan<'a> {
    disk: &'a Disk,
    dir: String,
    columns: Vec<Column>,
    names: Vec<String>,
    row_group_size: u32,
    total_rows: u64,
    current_group: u64,
    next_offset: usize,
    loaded: Option<LoadedGroup>,
    finished: bool,
}

impl<'a> View for RowScan<'a> {
    type V = RowScanV;

    closed spec fn view(&self) -> RowScanV {
        RowScanV {
            disk: self.disk@,
            dir: self.dir@,
            columns: columns_view(self.columns@),
            row_group_size: self.row_group_size,
            total_rows: self.total_rows,
        }
    }
}

impl<'a> RowScan<'a> {
    /// The group in memory is the current one.
    pub closed spec fn wf(&self) -> bool {
        &&& texts(self.names@) == column_names(columns_view(self.columns@))
        &&& self.loaded matches Some(g) ==> {
            &&& self.current_group <= u32::MAX
            &&& self.current_group * self.row_group_size < self.total_rows
            &&& loaded_group(self@, self.current_group as int) == Ok::<_, ErrorV>(
                (data_view(g.columns@), g.deletes@),
            )
            &&& g.row_count == stored_rows(data_view(g.columns@))
            &&& forall|c: int|
                0 <= c < g.columns@.len() ==> (#[trigger] g.columns@[c])@.len() == g.row_count
        }
    }

    /// The items that the scan is still going to yield.
    pub closed spec fn items(&self) -> Seq<Result<(u64, Seq<ValueV>), ErrorV>> {
        if self.finished {
            Seq::empty()
        } else {
            match self.loaded {
                None => row_items(self@, self.current_group as int),
                Some(g) => {
                    let first = self.current_group * self.row_group_size;
                    let here = group_rows(
                        data_view(g.columns@),
                        g.deletes@,
                        first,
                        self.total_rows as int,
                        self.next_offset as int,
                    );
                    if first + g.row_count > self.total_rows {
                        here
                    } else {
                        here + row_items(self@, self.current_group + 1)
                    }
                },
            }
        }
    }

    /// A scan that has not begun.
    pub fn new(
        disk: &'a Disk,
        dir: String,
        columns: Vec<Column>,
        row_group_size: u32,
        total_rows: u64,
    ) -> (r: Self)
        ensures
            r@ == (RowScanV {
                disk: disk@,
                dir: dir@,
                columns: columns_view(columns@),
                row_group_size,
                total_rows,
            }),
            r.wf(),
            r.items() == row_items(r@, 0),
    {
        let mut names: Vec<String> = Vec::new();
        let mut i: usize = 0;
        while i < columns.len()
            invariant
                i <= columns@.len(),
                names@.len() == i,
                forall|j: int| 0 <= j < i ==> (#[trigger] names@[j])@ == columns@[j].name@,
            decreases columns.len() - i,
        {
            names.push(columns[i].name.clone());
            i = i + 1;
        }
        assert(texts(names@) =~= column_names(columns_view(columns@)));
        RowScan {
            disk,
            dir,
            columns,
            names,
            row_group_size,
            total_rows,
            current_group: 0,
            next_offset: 0,
            loaded: None,
            finished: false,
        }
    }

    /// Load a row group. All its columns must have the same number of rows: a
    /// mismatch is corruption, or an interrupted write that was not repaired.
    fn load_current_group(&self, group: u32) -> (r: Result<LoadedGroup, Error>)
        requires
            texts(self.names@) == column_names(columns_view(self.columns@)),
        ensures
            match r {
                Ok(g) => {
                    &&& loaded_group(self@, group as int) == Ok::<_, ErrorV>(
                        (data_view(g.columns@), g.deletes@),
                    )
                    &&& g.row_count == stored_rows(data_view(g.columns@))
                    &&& forall|c: int|
                        0 <= c < g.columns@.len() ==> (#[trigger] g.columns@[c])@.len()
                            == g.row_count
                },
                Err(e) => loaded_group(self@, group as int) == Err::<
                    (Seq<Seq<ValueV>>, Seq<u8>),
                    ErrorV,
                >(e@),
            },
    {
        let dir = self.dir.as_str();
        let columns = match read_columns(self.disk, dir, group, &self.names) {
            Err(e) => {
                return Err(e);
            },
            Ok(columns) => columns,
        };
        proof {
            lemma_collected(
                self.names@.len() as int,
                raw_column(self@.disk, self@.dir, group, texts(self.names@)),
            );
            assert(data_view(columns@).len() == texts(self.names@).len());
        }
        let deletes = match load_at(self.disk, dir, group) {
            Err(e) => {
                return Err(e);
            },
            Ok(bits) => bits,
        };
        let row_count: usize = if columns.len() == 0 {
            0
        } else {
            columns[0].len()
        };
        if let Some(bad) = find_uneven(&columns, row_count) {
            let group_shown = u64_text(group as u64);
            let bad_rows = usize_text(columns[bad].len());
            let rows = usize_text(row_count);
            let mut message = join5(
                "row group ",
                group_shown.as_str(),
                " of '",
                dir,
                "': column '",
            );
            message.append(self.names[bad].as_str());
            message.append("' has ");
            message.append(bad_rows.as_str());
            message.append(" rows but '");
            message.append(self.names[0].as_str());
            message.append("' has ");
            message.append(rows.as_str());
            proof {
                assert(texts(self.names@)[bad as int] == self.names@[bad as int]@);
                assert(texts(self.names@)[0] == self.names@[0]@);
            }
            return Err(Error::corrupt(message.as_str()));
        }
        proof {
            lemma_even(data_view(columns@), row_count as int, 0);
            assert forall|c: int| 0 <= c < columns@.len() implies (#[trigger] columns@[c])@.len()
                == row_count by {
                assert(data_view(columns@)[c].len() == row_count);
            }
        }
        Ok(LoadedGroup { columns, deletes, row_count })
    }

    /// Row `offset` of the columns of a group.
    fn take_row(columns: &Vec<Vec<Value>>, offset: usize) -> (r: Record)
        requires
            forall|c: int|
                0 <= c < columns@.len() ==> offset < (#[trigger] columns@[c])@.len(),
        ensures
            r@ == row_at(data_view(columns@), offset as int),
    {
        let mut values: Vec<Value> = Vec::new();
        let mut c: usize = 0;
        while c < columns.len()
            invariant
                c <= columns@.len(),
                values@.len() == c,
                forall|k: int| 0 <= k < columns@.len() ==> offset < (#[trigger] columns@[k])@.len(),
                forall|k: int|
                    0 <= k < c ==> (#[trigger] values@[k])@ == data_view(columns@)[k][offset as int],
            decreases columns.len() - c,
        {
            values.push(columns[c][offset].clone());
            c = c + 1;
        }
        let r = Record { values };
        assert(r@ =~= row_at(data_view(columns@), offset as int));
        r
    }

    /// The next live row with its identifier: `None` once every row is
    /// consumed. After an error the scan is over.
    #[verifier::loop_isolation(false)]
    #[verifier::rlimit(40)]
    pub fn next(&mut self) -> (r: Option<Result<(Rid, Record), Error>>)
        requires
            old(self).wf(),
        ensures
            final(self).wf(),
            final(self)@ == old(self)@,
            match r {
                None => old(self).items().len() == 0 && final(self).items().len() == 0,
                Some(item) => {
                    &&& old(self).items().len() > 0
                    &&& final(self).items() == old(self).items().skip(1)
                    &&& match item {
                        Ok((rid, record)) => old(self).items()[0] == Ok::<_, ErrorV>(
                            (rid.0, record@),
                        ),
                        Err(e) => old(self).items()[0] == Err::<(u64, Seq<ValueV>), ErrorV>(e@),
                    }
                },
            },
    {
        if self.finished {
            return None;
        }
        let ghost start = *self;
        while self.current_group <= u32::MAX as u64
            invariant
                !self.finished,
                self.wf(),
                self@ == start@,
                self.items() == start.items(),
            decreases u32::MAX + 1 - self.current_group,
        {
            let ghost at = self.current_group as int;
            assert(at * self.row_group_size <= u32::MAX * u32::MAX) by (nonlinear_arith)
                requires
                    0 <= at <= u32::MAX,
                    0 <= self.row_group_size <= u32::MAX,
            ;
            let first_rid: u64 = self.current_group * self.row_group_size as u64;
            if first_rid >= self.total_rows {
                self.finished = true;
                return None;
            }
            let group = match self.loaded.take() {
                Some(g) => g,
                None => match self.load_current_group(self.current_group as u32) {
                    Err(e) => {
                        self.finished = true;
                        assert(start.items().skip(1) =~= Seq::<
                            Result<(u64, Seq<ValueV>), ErrorV>,
                        >::empty());
                        return Some(Err(e));
                    },
                    Ok(g) => {
                        self.next_offset = 0;
                        g
                    },
                },
            };
            let ghost cols = data_view(group.columns@);
            let ghost bits = group.deletes@;
            let ghost total = self.total_rows as int;
            let ghost behind = if first_rid + group.row_count > total {
                Seq::empty()
            } else {
                row_items(self@, self.current_group + 1)
            };
            assert(start.items() =~= group_rows(
                cols,
                bits,
                first_rid as int,
                total,
                self.next_offset as int,
            ) + behind);
            let mut offset: usize = self.next_offset;
            while offset < group.row_count && (offset as u64) < self.total_rows - first_rid
                && is_deleted(group.deletes.as_slice(), offset)
                invariant
                    start.items() == group_rows(cols, bits, first_rid as int, total, offset as int)
                        + behind,
                decreases group.row_count - offset,
            {
                offset = offset + 1;
            }
            if offset < group.row_count && (offset as u64) < self.total_rows - first_rid {
                assert forall|c: int| 0 <= c < group.columns@.len() implies offset < (
                #[trigger] group.columns@[c])@.len() by {
                    assert(group.columns@[c]@.len() == group.row_count);
                }
                let record = Self::take_row(&group.columns, offset);
                let rid = Rid(first_rid + offset as u64);
                self.next_offset = offset + 1;
                self.loaded = Some(group);
                assert(start.items().skip(1) =~= group_rows(
                    cols,
                    bits,
                    first_rid as int,
                    total,
                    offset + 1,
                ) + behind);
                assert(self.items() =~= start.items().skip(1));
                return Some(Ok((rid, record)));
            }
            if (group.row_count as u64) > self.total_rows - first_rid {
                // The column files hold rows past the committed ones.
                self.finished = true;
                return None;
            }
            self.current_group = self.current_group + 1;
            assert(self.items() =~= start.items());
        }
        self.finished = true;
        None
    }
}

} // verus!
