//! Rows, batches and the storage interface that the query layers work on.

pub mod bulk_laws;
pub mod column_file;
pub mod column_laws;
pub mod column_store;
pub mod damage_laws;
pub mod definition_laws;
pub mod delete_bitmap;
pub mod format_laws;
pub mod model;
pub mod model_lemmas;
pub mod record_laws;
pub mod recovery_laws;
pub mod scan;
pub mod scan_laws;
pub mod soundness_laws;
pub mod table_laws;
pub mod table_model;
pub mod withdrawal;

use vstd::prelude::*;

use crate::catalog::files::TableId;
use crate::catalog::schema::Schema;
use crate::catalog::tables::{DescriptorV, TableDescriptor, TableOptions};
use crate::error::{Error, ErrorV};
use crate::storage::model::{
    batch_scan_of, create_effects, delete_steps, get_of, insert_steps, next_rid, row_items,
    row_scan_of, scan_items, update_steps, BatchScanV, HandleV, RowScanV, StoreV,
};
use crate::storage::scan::{BatchScan, RowScan};
use crate::text::texts;

verus! {

/// Opaque positional record identifier. Maps to a row group and an offset in
/// it through the table's `row_group_size`. Identifiers never shift and are
/// never reused.
#[derive(Debug, Clone, Copy, PartialEq, Eq, Hash, PartialOrd, Ord)]
pub struct Rid(pub u64);

/// Lightweight reference to a table: what data-plane operations take.
#[derive(Debug)]
pub struct TableHandle {
    pub id: TableId,
    pub name: String,
    pub schema: Schema,
    pub dir: String,
    pub row_group_size: u32,
}

impl View for TableHandle {
    type V = HandleV;

    open spec fn view(&self) -> HandleV {
        HandleV {
            id: self.id,
            name: self.name@,
            schema: self.schema@,
            dir: self.dir@,
            row_group_size: self.row_group_size,
        }
    }
}

/// One typed value. The variant must line up with the column's type; `Null`
/// is allowed only on nullable columns.
#[derive(Debug, PartialEq)]
pub enum Value {
    Int(i64),
    Text(String),
    Null,
}

/// The view of a [`Value`], and of a literal in a query.
pub enum ValueV {
    Int(i64),
    Text(Seq<char>),
    Null,
}

impl View for Value {
    type V = ValueV;

    open spec fn view(&self) -> ValueV {
        match self {
            Value::Int(n) => ValueV::Int(*n),
            Value::Text(s) => ValueV::Text(s@),
            Value::Null => ValueV::Null,
        }
    }
}

impl Clone for Value {
    fn clone(&self) -> (r: Self)
        ensures
            r@ == self@,
    {
        match self {
            Value::Int(n) => Value::Int(*n),
            Value::Text(s) => Value::Text(s.clone()),
            Value::Null => Value::Null,
        }
    }
}

/// The views of a run of values.
pub open spec fn values_view(values: Seq<Value>) -> Seq<ValueV> {
    Seq::new(values.len(), |i: int| values[i]@)
}

/// A copy of `values`.
pub fn clone_values(values: &Vec<Value>) -> (r: Vec<Value>)
    ensures
        values_view(r@) == values_view(values@),
{
    let mut r: Vec<Value> = Vec::new();
    let mut i: usize = 0;
    while i < values.len()
        invariant
            i <= values@.len(),
            values_view(r@) == values_view(values@).take(i as int),
        decreases values.len() - i,
    {
        let ghost before = r@;
        r.push(values[i].clone());
        i = i + 1;
        assert(values_view(r@) =~= values_view(before).push(values@[i - 1]@));
        assert(values_view(r@) =~= values_view(values@).take(i as int));
    }
    assert(values_view(r@) =~= values_view(values@));
    r
}

/// One row, ordered to match the table's columns.
#[derive(Debug, PartialEq)]
pub struct Record {
    pub values: Vec<Value>,
}

impl View for Record {
    type V = Seq<ValueV>;

    open spec fn view(&self) -> Seq<ValueV> {
        values_view(self.values@)
    }
}

impl Clone for Record {
    fn clone(&self) -> (r: Self)
        ensures
            r@ == self@,
    {
        Record { values: clone_values(&self.values) }
    }
}

/// A column-major batch of rows: the unit that a scan produces and that query
/// operators pass on. `columns[c]` holds every value of the column named
/// `names[c]`; all columns share one length, the number of rows.
#[derive(Debug, PartialEq)]
pub struct ColumnBatch {
    pub names: Vec<String>,
    pub columns: Vec<Vec<Value>>,
}

/// The view of a [`ColumnBatch`].
pub struct BatchV {
    pub names: Seq<Seq<char>>,
    pub columns: Seq<Seq<ValueV>>,
}

/// The views of a run of columns.
pub open spec fn data_view(columns: Seq<Vec<Value>>) -> Seq<Seq<ValueV>> {
    Seq::new(columns.len(), |i: int| values_view(columns[i]@))
}

impl View for ColumnBatch {
    type V = BatchV;

    open spec fn view(&self) -> BatchV {
        BatchV { names: texts(self.names@), columns: data_view(self.columns@) }
    }
}

impl BatchV {
    /// Number of rows: the length of the first column.
    pub open spec fn num_rows(self) -> nat {
        if self.columns.len() == 0 {
            0
        } else {
            self.columns[0].len()
        }
    }
}

impl ColumnBatch {
    /// Number of rows in the batch (length of any column vector).
    pub fn num_rows(&self) -> (n: usize)
        ensures
            n == self@.num_rows(),
    {
        if self.columns.len() == 0 {
            0
        } else {
            self.columns[0].len()
        }
    }
}

/// Comparison operator of a [`ScanPredicate`].
#[derive(Debug, Clone, Copy, PartialEq, Eq, Structural)]
pub enum ScanCompare {
    Eq,
    NotEq,
    Lt,
    LtEq,
    Gt,
    GtEq,
}

/// A `column <op> constant` hint by which a scan can skip whole row groups
/// through their INT `min`/`max` zone maps. Only INT columns carry stats, so
/// the constant is an `i64`. Pruning is a pure optimization: callers may pass
/// any conjunctive subset they can extract.
#[derive(Debug, PartialEq)]
pub struct ScanPredicate {
    pub column: String,
    pub op: ScanCompare,
    pub value: i64,
}

/// The view of a [`ScanPredicate`].
pub struct ScanPredicateV {
    pub column: Seq<char>,
    pub op: ScanCompare,
    pub value: i64,
}

impl View for ScanPredicate {
    type V = ScanPredicateV;

    open spec fn view(&self) -> ScanPredicateV {
        ScanPredicateV { column: self.column@, op: self.op, value: self.value }
    }
}

impl Clone for ScanPredicate {
    fn clone(&self) -> (r: Self)
        ensures
            r@ == self@,
    {
        ScanPredicate { column: self.column.clone(), op: self.op, value: self.value }
    }
}

/// The views of a run of predicates.
pub open spec fn predicates_view(predicates: Seq<ScanPredicate>) -> Seq<ScanPredicateV> {
    Seq::new(predicates.len(), |i: int| predicates[i]@)
}

/// A copy of `predicates`.
pub fn clone_predicates(predicates: &Vec<ScanPredicate>) -> (r: Vec<ScanPredicate>)
    ensures
        predicates_view(r@) == predicates_view(predicates@),
{
    let mut r: Vec<ScanPredicate> = Vec::new();
    let mut i: usize = 0;
    while i < predicates.len()
        invariant
            i <= predicates@.len(),
            r@.len() == i,
            forall|j: int| 0 <= j < i ==> (#[trigger] r@[j])@ == predicates@[j]@,
        decreases predicates.len() - i,
    {
        r.push(predicates[i].clone());
        i = i + 1;
    }
    assert(predicates_view(r@) =~= predicates_view(predicates@));
    r
}

/// The projection of a scan over views.
pub open spec fn projection_view(projection: Option<&Vec<String>>) -> Option<Seq<Seq<char>>> {
    match projection {
        None => None,
        Some(names) => Some(texts(names@)),
    }
}

/// The storage interface that the query layers work on.
pub trait Storage {
    /// The index and the files behind the interface.
    spec fn store(&self) -> StoreV;

    /// Create a table with its first row group.
    fn create_table(&mut self, name: &str, schema: Schema, options: TableOptions) -> (r: Result<
        TableId,
        Error,
    >)
        requires
            old(self).store().catalog.next_table_id < u64::MAX,
        ensures
            ({
                let before = old(self).store();
                match r {
                    Err(e) => {
                        &&& before.catalog.create_error(name@, schema@) == Some(e@)
                        &&& final(self).store() == before
                    },
                    Ok(id) => {
                        &&& before.catalog.create_error(name@, schema@) is None
                        &&& id == before.catalog.next_table_id
                        &&& final(self).store() == (StoreV {
                            catalog: before.catalog.with_table(name@),
                            ..before.after(create_effects(before, name@, schema@, options))
                        })
                    },
                }
            }),
    ;

    /// A handle on a table.
    fn open_table(&self, name: &str) -> (r: Result<TableHandle, Error>)
        ensures
            match r {
                Ok(h) => self.store().opened(name@) == Ok::<_, ErrorV>(h@),
                Err(e) => self.store().opened(name@) == Err::<HandleV, ErrorV>(e@),
            },
    ;

    /// The names of the tables, in order.
    fn list_tables(&self) -> (r: Result<Vec<String>, Error>)
        ensures
            r matches Ok(names) && texts(names@) == Seq::new(
                self.store().catalog.tables.len(),
                |i: int| self.store().catalog.tables[i].name,
            ),
    ;

    /// All that is known of a table.
    fn describe_table(&self, name: &str) -> (r: Result<TableDescriptor, Error>)
        ensures
            match r {
                Ok(d) => self.store().described(name@) == Ok::<_, ErrorV>(d@),
                Err(e) => self.store().described(name@) == Err::<DescriptorV, ErrorV>(e@),
            },
    ;

    /// Take a table out of the index and remove its files.
    fn drop_table(&mut self, name: &str) -> (r: Result<(), Error>)
        ensures
            ({
                let before = old(self).store();
                match r {
                    Err(e) => {
                        &&& before.catalog.dir_of(name@) == Err::<Seq<char>, ErrorV>(e@)
                        &&& final(self).store() == before
                    },
                    Ok(_) => {
                        &&& before.catalog.dir_of(name@) is Ok
                        &&& final(self).store() == (StoreV {
                            catalog: before.catalog.without_table(name@),
                            ..before.after(before.catalog.drop_effects(name@))
                        })
                    },
                }
            }),
    ;

    // ---- data plane ----
    /// Append a record and return its identifier.
    fn insert(&mut self, table: &TableHandle, record: Record) -> (r: Result<Rid, Error>)
        requires
            table.row_group_size > 0,
            old(self).store().described(table@.name) matches Ok(d) ==> d.next_rid < u64::MAX,
        ensures
            ({
                let before = old(self).store();
                let steps = insert_steps(before, table@, record@);
                &&& final(self).store() == before.after(steps.1)
                &&& match r {
                    Ok(rid) => steps.0 is None && rid.0 == next_rid(before, table@),
                    Err(e) => steps.0 == Some(e@),
                }
            }),
    ;

    /// Read a record.
    fn get(&self, table: &TableHandle, rid: Rid) -> (r: Result<Option<Record>, Error>)
        requires
            table.row_group_size > 0,
        ensures
            ({
                let found = get_of(self.store().disk, table@, rid.0);
                match r {
                    Ok(None) => found == Ok::<Option<Seq<ValueV>>, ErrorV>(None),
                    Ok(Some(record)) => found == Ok::<_, ErrorV>(Some(record@)),
                    Err(e) => found == Err::<Option<Seq<ValueV>>, ErrorV>(e@),
                }
            }),
    ;

    /// Replace the row at `rid` with `record`. Because updates are `delete`
    /// then `insert`, the row gets a new identifier, which is returned.
    fn update(&mut self, table: &TableHandle, rid: Rid, record: Record) -> (r: Result<Rid, Error>)
        requires
            table.row_group_size > 0,
            old(self).store().described(table@.name) matches Ok(d) ==> d.next_rid < u64::MAX,
        ensures
            ({
                let before = old(self).store();
                let steps = update_steps(before, table@, rid.0, record@);
                &&& final(self).store() == before.after(steps.1)
                &&& match r {
                    Ok(new_rid) => steps.0 is None && new_rid.0 == next_rid(before, table@),
                    Err(e) => steps.0 == Some(e@),
                }
            }),
    ;

    /// Delete the row at `rid`.
    fn delete(&mut self, table: &TableHandle, rid: Rid) -> (r: Result<(), Error>)
        requires
            table.row_group_size > 0,
        ensures
            ({
                let before = old(self).store();
                let steps = delete_steps(before, table@, rid.0);
                &&& final(self).store() == before.after(steps.1)
                &&& match r {
                    Ok(_) => steps.0 is None,
                    Err(e) => steps.0 == Some(e@),
                }
            }),
    ;

    /// Row-oriented full scan: every live row with its identifier.
    fn scan<'a>(&'a self, table: &TableHandle) -> (r: Result<RowScan<'a>, Error>)
        ensures
            match r {
                Ok(s) => {
                    &&& row_scan_of(self.store(), table@) == Ok::<_, ErrorV>(s@)
                    &&& s.wf()
                    &&& s.items() == row_items(s@, 0)
                },
                Err(e) => row_scan_of(self.store(), table@) == Err::<RowScanV, ErrorV>(e@),
            },
    ;

    /// Vectorized scan: one column-major [`ColumnBatch`] per live row group.
    /// `projection` selects which columns to decode (`None` = all, in schema
    /// order); `prune` carries zone-map hints used to skip row groups whose INT
    /// `min`/`max` prove no row can match.
    fn scan_batches<'a>(
        &'a self,
        table: &TableHandle,
        projection: Option<&Vec<String>>,
        prune: &Vec<ScanPredicate>,
    ) -> (r: Result<BatchScan<'a>, Error>)
        ensures
            ({
                let started = batch_scan_of(
                    self.store(),
                    table@,
                    projection_view(projection),
                    predicates_view(prune@),
                );
                match r {
                    Ok(s) => started == Ok::<_, ErrorV>(s@) && s.items() == scan_items(s@, 0),
                    Err(e) => started == Err::<BatchScanV, ErrorV>(e@),
                }
            }),
    ;
}

} // verus!
