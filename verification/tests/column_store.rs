//! The store: tables, rows, scans, bulk loads and recovery.

use balik_db::catalog::files::{CatalogFile, ManifestFile, ManifestImage};
use balik_db::catalog::metadata::Status;
use balik_db::catalog::schema::{Column, ColumnType, Schema};
use balik_db::catalog::tables::TableOptions;
use balik_db::disk::{Disk, Effect, GroupFiles, TableDir};
use balik_db::error::Error;
use balik_db::storage::column_file;
use balik_db::storage::column_store::{col_path, row_group_dir, validate_record, ColumnStore};
use balik_db::storage::delete_bitmap;
use balik_db::storage::withdrawal::withdrawal;
use balik_db::storage::{
    ColumnBatch, Record, Rid, ScanCompare, ScanPredicate, Storage, TableHandle, Value,
};

const DIR: &str = "/db/tables/00000001";

/// The files of a row group, by name.
type GroupContents = Vec<(String, Vec<u8>)>;

/// A table's directory: its path, manifest and row groups.
struct TableFiles {
    dir: String,
    manifest: Option<ManifestFile>,
    groups: Vec<(u32, GroupContents)>,
}

/// The files of a database, kept by carrying out what a store logs.
struct Files {
    catalog: Option<CatalogFile>,
    tables: Vec<TableFiles>,
}

impl Files {
    fn new() -> Files {
        Files { catalog: None, tables: vec![] }
    }

    fn table(&mut self, dir: &str) -> &mut TableFiles {
        let found = self.tables.iter().position(|t| t.dir == dir);
        let i = found.unwrap_or_else(|| {
            self.tables.push(TableFiles { dir: dir.to_string(), manifest: None, groups: vec![] });
            self.tables.len() - 1
        });
        &mut self.tables[i]
    }

    fn group(&mut self, dir: &str, group: u32) -> &mut GroupContents {
        let table = self.table(dir);
        let found = table.groups.iter().position(|(g, _)| *g == group);
        let i = found.unwrap_or_else(|| {
            table.groups.push((group, vec![]));
            table.groups.len() - 1
        });
        &mut table.groups[i].1
    }

    fn put(&mut self, dir: &str, group: u32, file: &str, bytes: Vec<u8>) {
        let files = self.group(dir, group);
        files.retain(|(n, _)| n != file);
        files.push((file.to_string(), bytes));
    }

    fn file(&mut self, dir: &str, group: u32, file: &str) -> Option<Vec<u8>> {
        self.group(dir, group).iter().find(|(n, _)| n == file).map(|(_, b)| b.clone())
    }

    fn has_group(&self, dir: &str, group: u32) -> bool {
        self.tables.iter().any(|t| t.dir == dir && t.groups.iter().any(|(g, _)| *g == group))
    }

    fn apply(&mut self, log: Vec<Effect>) {
        for effect in log {
            match effect {
                Effect::WriteCatalog(file) => self.catalog = Some(file),
                Effect::WriteManifest { dir, manifest } => {
                    self.table(&dir).manifest = Some(manifest)
                }
                Effect::CreateGroup { dir, group } => {
                    self.group(&dir, group);
                }
                Effect::WriteFile { dir, group, file, bytes } => {
                    self.put(&dir, group, &file, bytes)
                }
                Effect::RemoveDir(dir) => self.tables.retain(|t| t.dir != dir),
            }
        }
    }

    /// The image of these files that a store is opened on.
    fn disk(&self) -> Disk {
        let mut disk = Disk::new(self.catalog.clone());
        for t in &self.tables {
            let manifest = match &t.manifest {
                Some(m) => ManifestImage::Loaded(m.clone()),
                None => ManifestImage::Missing,
            };
            let mut table = TableDir::new(manifest);
            for (group, contents) in &t.groups {
                let mut files = GroupFiles::new();
                for (name, bytes) in contents {
                    files.put(name, bytes.clone());
                }
                table.put_group(*group, files);
            }
            disk.put_table(&t.dir, table);
        }
        disk
    }

    fn open(&self) -> ColumnStore {
        let ready = Status::Ready { format_version: 1, created: "unix:0".into() };
        ColumnStore::open("/db", &ready, self.disk()).unwrap()
    }

    /// Carry out what the store logged, close it and open it again.
    fn reopen(&mut self, mut store: ColumnStore) -> ColumnStore {
        self.apply(store.take_log());
        self.open()
    }
}

fn schema_users() -> Schema {
    Schema {
        columns: vec![
            Column { name: "id".to_string(), ty: ColumnType::Int, nullable: false },
            Column { name: "name".to_string(), ty: ColumnType::Text, nullable: true },
        ],
    }
}

fn open(status: Status) -> Result<ColumnStore, Error> {
    ColumnStore::open("/db", &status, Disk::new(None))
}

/// A new database with the table `users`, and a handle on it.
fn users(row_group_size: Option<u32>) -> (ColumnStore, TableHandle) {
    let mut store = Files::new().open();
    store.create_table("users", schema_users(), TableOptions { row_group_size }).unwrap();
    let handle = store.open_table("users").unwrap();
    (store, handle)
}

fn record(values: Vec<Value>) -> Record {
    Record { values }
}

fn text(s: &str) -> Value {
    Value::Text(s.to_string())
}

fn collect_scan(store: &ColumnStore, h: &TableHandle) -> Vec<(Rid, Record)> {
    let mut scan = store.scan(h).unwrap();
    let mut rows = vec![];
    while let Some(row) = scan.next() {
        rows.push(row.unwrap());
    }
    rows
}

fn scanned_rids(store: &ColumnStore, h: &TableHandle) -> Vec<u64> {
    collect_scan(store, h).into_iter().map(|(r, _)| r.0).collect()
}

fn collect_batches(
    store: &ColumnStore,
    h: &TableHandle,
    projection: Option<&Vec<String>>,
    prune: &Vec<ScanPredicate>,
) -> Vec<ColumnBatch> {
    let mut scan = store.scan_batches(h, projection, prune).unwrap();
    let mut batches = vec![];
    while let Some(batch) = scan.next() {
        batches.push(batch.unwrap());
    }
    batches
}

// ---- opening ----

#[test]
fn open_on_initialized_empty_db_returns_empty_store() {
    let store = Files::new().open();
    assert!(store.list_tables().unwrap().is_empty());
}

#[test]
fn open_on_uninitialized_dir_fails() {
    let err = open(Status::Missing).unwrap_err();
    assert!(err.to_string().contains("not an initialized balik database"));
}

#[test]
fn open_on_nonexistent_path_fails() {
    let err = ColumnStore::open("/tmp/nope", &Status::Missing, Disk::new(None)).unwrap_err();
    assert_eq!(
        err.to_string(),
        "'/tmp/nope' is not an initialized balik database — run `init` first"
    );
}

#[test]
fn open_on_wrong_magic_fails() {
    let err = open(Status::WrongMagic).unwrap_err();
    assert!(err.to_string().contains("not a balik database"));
}

/// The remaining states of a directory that cannot be opened.
#[test]
fn open_on_unreadable_or_newer_marker_fails() {
    assert!(open(Status::Unreadable).is_err());
    let err = open(Status::TooNew { found: 2, supported: 1 }).unwrap_err();
    assert!(err.to_string().contains('2') && err.to_string().contains('1'));
}

// ---- tables ----

#[test]
fn create_list_describe_roundtrip() {
    let (store, _) = users(None);
    assert_eq!(store.list_tables().unwrap(), vec!["users".to_string()]);
    let desc = store.describe_table("users").unwrap();
    assert_eq!(desc.name, "users");
    assert_eq!(desc.schema, schema_users());
}

#[test]
fn create_table_materializes_row_group_zero() {
    let (mut store, _) = users(None);
    let mut files = Files::new();
    files.apply(store.take_log());
    assert!(files.has_group(DIR, 0));

    // id.col -> INT, name.col -> TEXT, both empty headers.
    let id = files.file(DIR, 0, "id.col");
    let (id_h, _) = column_file::read_column(id.as_ref(), "id.col").unwrap();
    assert_eq!(id_h.logical_type, ColumnType::Int);
    assert_eq!(id_h.row_count, 0);
    assert_eq!(id_h.null_count, 0);
    assert!(!id_h.has_nulls());

    let name = files.file(DIR, 0, "name.col");
    let (name_h, _) = column_file::read_column(name.as_ref(), "name.col").unwrap();
    assert_eq!(name_h.logical_type, ColumnType::Text);
    assert_eq!(name_h.row_count, 0);

    let bm = files.file(DIR, 0, delete_bitmap::FILE_NAME);
    assert!(bm.is_some(), "deletes.bm should be materialized");
    let (bm_h, _) = delete_bitmap::load(bm.as_ref(), delete_bitmap::FILE_NAME).unwrap();
    assert_eq!(bm_h.deleted_count, 0);
}

#[test]
fn open_table_returns_handle_with_schema() {
    let (_, handle) = users(None);
    assert_eq!(handle.name, "users");
    assert_eq!(handle.schema, schema_users());
    assert!(handle.dir.ends_with("tables/00000001"));
}

#[test]
fn drop_table_works_through_trait() {
    let (mut store, _) = users(None);
    store.drop_table("users").unwrap();
    assert!(store.list_tables().unwrap().is_empty());
}

// ---- rows ----

#[test]
fn insert_then_get_round_trips() {
    let (mut store, h) = users(None);
    let r0 = store.insert(&h, record(vec![Value::Int(1), text("alice")])).unwrap();
    let r1 = store.insert(&h, record(vec![Value::Int(2), Value::Null])).unwrap();
    assert_eq!(r0, Rid(0));
    assert_eq!(r1, Rid(1));

    assert_eq!(
        store.get(&h, Rid(0)).unwrap(),
        Some(record(vec![Value::Int(1), text("alice")]))
    );
    assert_eq!(
        store.get(&h, Rid(1)).unwrap(),
        Some(record(vec![Value::Int(2), Value::Null]))
    );
}

#[test]
fn get_unknown_rid_returns_none() {
    let (mut store, h) = users(None);
    assert_eq!(store.get(&h, Rid(0)).unwrap(), None); // empty table
    store.insert(&h, record(vec![Value::Int(1), Value::Null])).unwrap();
    assert_eq!(store.get(&h, Rid(99)).unwrap(), None); // past the end
}

#[test]
fn insert_rejects_bad_records() {
    let (mut store, h) = users(None);
    // wrong arity
    let err = store.insert(&h, record(vec![Value::Int(1)])).unwrap_err();
    assert!(err.to_string().contains("column(s)"));
    // wrong type for the id column
    let err = store.insert(&h, record(vec![text("x"), Value::Null])).unwrap_err();
    assert!(err.to_string().contains("does not match"));
    // NULL into a NOT NULL column
    let err = store.insert(&h, record(vec![Value::Null, Value::Null])).unwrap_err();
    assert!(err.to_string().contains("NOT NULL"));
}

#[test]
fn insert_rolls_into_new_row_groups() {
    let (mut store, h) = users(Some(2));
    for i in 0..5 {
        store.insert(&h, record(vec![Value::Int(i), Value::Text(format!("n{i}"))])).unwrap();
    }
    // Two rows per group: rids 0-1 in group 0, 2-3 in group 1, 4 opens group 2.
    let mut files = Files::new();
    files.apply(store.take_log());
    assert!(files.has_group(DIR, 1));
    assert!(files.has_group(DIR, 2));

    for i in 0..5u64 {
        let rec = store.get(&h, Rid(i)).unwrap().unwrap();
        assert_eq!(rec.values[0], Value::Int(i as i64));
    }
}

#[test]
fn rows_persist_across_reopen() {
    let (mut store, h) = users(None);
    store.insert(&h, record(vec![Value::Int(7), text("zed")])).unwrap();
    let store = Files::new().reopen(store);
    let h = store.open_table("users").unwrap();
    assert_eq!(
        store.get(&h, Rid(0)).unwrap(),
        Some(record(vec![Value::Int(7), text("zed")]))
    );
}

#[test]
fn update_reassigns_rid_and_returns_new_value() {
    let (mut store, h) = users(None);
    let old = store.insert(&h, record(vec![Value::Int(1), text("alice")])).unwrap();
    let new = store.update(&h, old, record(vec![Value::Int(1), text("alicia")])).unwrap();
    assert_ne!(new, old);
    assert_eq!(store.get(&h, old).unwrap(), None);
    assert_eq!(
        store.get(&h, new).unwrap(),
        Some(record(vec![Value::Int(1), text("alicia")]))
    );
}

#[test]
fn update_replaces_row_in_scan_with_new_rid() {
    let (mut store, h) = users(None);
    let r0 = store.insert(&h, record(vec![Value::Int(1), Value::Null])).unwrap();
    store.insert(&h, record(vec![Value::Int(2), Value::Null])).unwrap();
    let new = store.update(&h, r0, record(vec![Value::Int(99), Value::Null])).unwrap();
    let rows: Vec<(u64, i64)> = collect_scan(&store, &h)
        .into_iter()
        .map(|(rid, rec)| match rec.values[0] {
            Value::Int(n) => (rid.0, n),
            _ => unreachable!(),
        })
        .collect();
    // r0 is tombstoned, the new row sits at the tail with rid `new`.
    assert_eq!(rows, vec![(1, 2), (new.0, 99)]);
}

#[test]
fn update_unknown_rid_returns_error() {
    let (mut store, h) = users(None);
    let err = store.update(&h, Rid(0), record(vec![Value::Int(1), Value::Null])).unwrap_err();
    assert!(err.to_string().contains("no such record"));
}

#[test]
fn update_with_bad_record_does_not_tombstone_old() {
    let (mut store, h) = users(None);
    let rid = store.insert(&h, record(vec![Value::Int(1), text("alice")])).unwrap();
    // Wrong arity — must fail before touching the bitmap.
    let err = store.update(&h, rid, record(vec![Value::Int(1)])).unwrap_err();
    assert!(err.to_string().contains("column(s)"));
    assert!(
        store.get(&h, rid).unwrap().is_some(),
        "old row must remain live when validation rejects the new record"
    );
}

#[test]
fn update_persists_across_reopen() {
    let (mut store, h) = users(None);
    let r0 = store.insert(&h, record(vec![Value::Int(1), text("alice")])).unwrap();
    let new_rid = store.update(&h, r0, record(vec![Value::Int(1), text("alicia")])).unwrap();
    assert_eq!(store.get(&h, r0).unwrap(), None);

    let store = Files::new().reopen(store);
    let h = store.open_table("users").unwrap();
    assert_eq!(store.get(&h, Rid(0)).unwrap(), None);
    assert_eq!(
        store.get(&h, new_rid).unwrap(),
        Some(record(vec![Value::Int(1), text("alicia")]))
    );
}

#[test]
fn delete_then_get_returns_none() {
    let (mut store, h) = users(None);
    let rid = store.insert(&h, record(vec![Value::Int(1), text("alice")])).unwrap();
    store.delete(&h, rid).unwrap();
    assert_eq!(store.get(&h, rid).unwrap(), None);
}

#[test]
fn delete_skips_row_from_scan() {
    let (mut store, h) = users(None);
    for i in 0..3 {
        store.insert(&h, record(vec![Value::Int(i), Value::Null])).unwrap();
    }
    store.delete(&h, Rid(1)).unwrap();
    assert_eq!(scanned_rids(&store, &h), vec![0, 2]);
}

#[test]
fn delete_refreshes_int_min_max_in_column_header() {
    let (mut store, h) = users(None);
    let mut files = Files::new();
    for n in [5i64, 1, 9] {
        store.insert(&h, record(vec![Value::Int(n), Value::Null])).unwrap();
    }
    files.apply(store.take_log());
    let id = files.file(DIR, 0, "id.col");
    let (header, _) = column_file::read_column(id.as_ref(), "id.col").unwrap();
    assert_eq!(header.int_min(), Some(1));
    assert_eq!(header.int_max(), Some(9));

    // Tombstoning the extremes shrinks the live range.
    store.delete(&h, Rid(2)).unwrap(); // 9
    store.delete(&h, Rid(1)).unwrap(); // 1
    files.apply(store.take_log());
    let id = files.file(DIR, 0, "id.col");
    let (header, _) = column_file::read_column(id.as_ref(), "id.col").unwrap();
    assert_eq!(header.int_min(), Some(5));
    assert_eq!(header.int_max(), Some(5));

    // Deleting the last live row collapses the range to the sentinel.
    store.delete(&h, Rid(0)).unwrap();
    files.apply(store.take_log());
    let id = files.file(DIR, 0, "id.col");
    let (header, _) = column_file::read_column(id.as_ref(), "id.col").unwrap();
    assert_eq!(header.int_min(), None);
    assert_eq!(header.int_max(), None);
}

#[test]
fn delete_unknown_rid_returns_error() {
    let (mut store, h) = users(None);
    // No rows yet — every rid is past next_rid.
    let err = store.delete(&h, Rid(0)).unwrap_err();
    assert!(err.to_string().contains("no such record"));
    // One row in; rid 1 is still past next_rid.
    store.insert(&h, record(vec![Value::Int(1), Value::Null])).unwrap();
    let err = store.delete(&h, Rid(1)).unwrap_err();
    assert!(err.to_string().contains("no such record"));
}

#[test]
fn delete_already_deleted_returns_error() {
    let (mut store, h) = users(None);
    let rid = store.insert(&h, record(vec![Value::Int(1), Value::Null])).unwrap();
    store.delete(&h, rid).unwrap();
    let err = store.delete(&h, rid).unwrap_err();
    assert!(err.to_string().contains("no such record"));
}

#[test]
fn delete_persists_across_reopen() {
    let (mut store, h) = users(None);
    store.insert(&h, record(vec![Value::Int(1), Value::Null])).unwrap();
    store.insert(&h, record(vec![Value::Int(2), Value::Null])).unwrap();
    store.delete(&h, Rid(0)).unwrap();

    let store = Files::new().reopen(store);
    let h = store.open_table("users").unwrap();
    assert_eq!(store.get(&h, Rid(0)).unwrap(), None);
    assert_eq!(scanned_rids(&store, &h), vec![1]);
}

// ---- scans ----

#[test]
fn scan_on_empty_table_yields_nothing() {
    let (store, h) = users(None);
    assert!(collect_scan(&store, &h).is_empty());
}

#[test]
fn scan_returns_inserted_rows_in_rid_order() {
    let (mut store, h) = users(None);
    store.insert(&h, record(vec![Value::Int(1), text("alice")])).unwrap();
    store.insert(&h, record(vec![Value::Int(2), Value::Null])).unwrap();
    store.insert(&h, record(vec![Value::Int(3), text("carol")])).unwrap();

    let rows = collect_scan(&store, &h);
    assert_eq!(rows.len(), 3);
    assert_eq!(rows[0].0, Rid(0));
    assert_eq!(rows[2].0, Rid(2));
    assert_eq!(rows[1].1.values, vec![Value::Int(2), Value::Null]);
}

#[test]
fn scan_walks_multiple_row_groups() {
    let (mut store, h) = users(Some(2));
    for i in 0..5 {
        store.insert(&h, record(vec![Value::Int(i), Value::Text(format!("n{i}"))])).unwrap();
    }
    let rows = collect_scan(&store, &h);
    let rids: Vec<u64> = rows.iter().map(|(r, _)| r.0).collect();
    assert_eq!(rids, vec![0, 1, 2, 3, 4]);
    for (i, (_, rec)) in rows.iter().enumerate() {
        assert_eq!(rec.values[0], Value::Int(i as i64));
        assert_eq!(rec.values[1], Value::Text(format!("n{i}")));
    }
}

#[test]
fn scan_skips_offsets_marked_deleted_in_bitmap() {
    // Flip a raw bitmap byte to prove the scan honors a tombstone even
    // when the bit wasn't set through the delete API.
    let (mut store, h) = users(None);
    for i in 0..3 {
        store.insert(&h, record(vec![Value::Int(i), Value::Null])).unwrap();
    }
    let mut files = Files::new();
    files.apply(store.take_log());
    let mut bytes = files.file(DIR, 0, delete_bitmap::FILE_NAME).unwrap();
    // Mark rid 1 deleted: bit 1 of the first bitmap byte (after the 24-byte header).
    bytes[24] |= 0b0000_0010;
    files.put(DIR, 0, delete_bitmap::FILE_NAME, bytes);

    let store = files.open();
    let h = store.open_table("users").unwrap();
    assert_eq!(scanned_rids(&store, &h), vec![0, 2]);
}

#[test]
fn scan_results_survive_reopen() {
    let (mut store, h) = users(None);
    store.insert(&h, record(vec![Value::Int(7), text("zed")])).unwrap();
    store.insert(&h, record(vec![Value::Int(8), Value::Null])).unwrap();

    let store = Files::new().reopen(store);
    let h = store.open_table("users").unwrap();
    let rows = collect_scan(&store, &h);
    assert_eq!(rows.len(), 2);
    assert_eq!(rows[0].1.values[0], Value::Int(7));
    assert_eq!(rows[1].1.values[1], Value::Null);
}

// ---- bulk loads ----

fn scanned_ids(store: &ColumnStore, h: &TableHandle) -> Vec<Value> {
    collect_batches(store, h, Some(&vec!["id".to_string()]), &vec![])
        .into_iter()
        .flat_map(|b| b.columns[0].clone())
        .collect()
}

#[test]
fn bulk_load_spans_row_groups_and_scans_back_in_order() {
    let (mut store, h) = users(Some(2));
    // 5 rows -> groups [0,1], [2,3], [4]; the last group is partially filled,
    // exercising the short final chunk.
    let records: Vec<Record> = (0..5)
        .map(|i| record(vec![Value::Int(i), Value::Text(format!("name{i}"))]))
        .collect();
    store.bulk_load(&h, &records).unwrap();

    // next_rid lands at the row count, so point reads see every row...
    assert_eq!(store.describe_table("users").unwrap().next_rid, 5);
    for i in 0..5 {
        let got = store.get(&h, Rid(i)).unwrap().unwrap();
        assert_eq!(got.values[0], Value::Int(i as i64));
    }

    // ...and a scan returns all rows across all three groups in rid order.
    assert_eq!(
        scanned_ids(&store, &h),
        (0..5).map(Value::Int).collect::<Vec<_>>(),
        "every bulk-loaded row scanned back in order"
    );
}

#[test]
fn bulk_load_appends_across_row_group_aligned_calls() {
    let (mut store, h) = users(Some(2));
    // Two boundary-aligned calls (each a full group of 2) then a final
    // short call, streaming the load instead of buffering all of it.
    let mk = |ids: std::ops::Range<i64>| -> Vec<Record> {
        ids.map(|i| record(vec![Value::Int(i), Value::Null])).collect()
    };
    store.bulk_load(&h, &mk(0..2)).unwrap();
    store.bulk_load(&h, &mk(2..4)).unwrap();
    store.bulk_load(&h, &mk(4..5)).unwrap();

    assert_eq!(store.describe_table("users").unwrap().next_rid, 5);
    assert_eq!(scanned_ids(&store, &h), (0..5).map(Value::Int).collect::<Vec<_>>());
}

#[test]
fn bulk_load_rejects_unaligned_start() {
    let (mut store, h) = users(Some(2));
    // A short first call leaves next_rid mid-group (1 % 2 != 0), so the
    // next bulk_load can't land on a clean group boundary.
    store.bulk_load(&h, &vec![record(vec![Value::Int(0), Value::Null])]).unwrap();
    let err = store.bulk_load(&h, &vec![record(vec![Value::Int(1), Value::Null])]).unwrap_err();
    assert!(err.to_string().contains("row-group boundary"));
}

#[test]
fn insert_after_bulk_load_appends_at_next_rid() {
    let (mut store, h) = users(None);
    let records: Vec<Record> =
        (0..3).map(|i| record(vec![Value::Int(i), Value::Null])).collect();
    store.bulk_load(&h, &records).unwrap();

    // A normal insert after a bulk load continues from the committed
    // next_rid rather than overwriting row 0.
    let rid = store.insert(&h, record(vec![Value::Int(99), text("late")])).unwrap();
    assert_eq!(rid, Rid(3));
    assert_eq!(store.describe_table("users").unwrap().next_rid, 4);
    assert_eq!(store.get(&h, Rid(3)).unwrap().unwrap().values[1], text("late"));
}

// ---- batch scans ----

#[test]
fn scan_batches_yields_compacted_column_major_batch() {
    let (mut store, h) = users(None);
    for (id, name) in [(1, Some("alice")), (2, None), (3, Some("carol"))] {
        let nm = name.map_or(Value::Null, text);
        store.insert(&h, record(vec![Value::Int(id), nm])).unwrap();
    }
    store.delete(&h, Rid(1)).unwrap();

    let batches = collect_batches(&store, &h, None, &vec![]);
    assert_eq!(batches.len(), 1, "single default-sized row group");
    let b = &batches[0];
    assert_eq!(b.names, vec!["id", "name"]);
    assert_eq!(b.num_rows(), 2, "deleted row compacted out");
    assert_eq!(b.columns[0], vec![Value::Int(1), Value::Int(3)]);
    assert_eq!(b.columns[1], vec![text("alice"), text("carol")]);
}

#[test]
fn scan_batches_projection_decodes_only_requested_columns() {
    let (mut store, h) = users(None);
    store.insert(&h, record(vec![Value::Int(1), text("alice")])).unwrap();

    let batches = collect_batches(&store, &h, Some(&vec!["name".to_string()]), &vec![]);
    assert_eq!(batches.len(), 1);
    assert_eq!(batches[0].names, vec!["name"]);
    assert_eq!(batches[0].columns.len(), 1);
    assert_eq!(batches[0].columns[0], vec![text("alice")]);
}

#[test]
fn scan_batches_prunes_row_groups_via_int_min_max() {
    let (mut store, h) = users(Some(2));
    // ids 0,1 in group 0; 2,3 in group 1; 4 in group 2.
    for i in 0..5 {
        store.insert(&h, record(vec![Value::Int(i), Value::Null])).unwrap();
    }
    // `id > 3` can only match group 2 (max id 4); groups 0 and 1 are pruned.
    let prune =
        vec![ScanPredicate { column: "id".into(), op: ScanCompare::Gt, value: 3 }];
    let batches = collect_batches(&store, &h, Some(&vec!["id".to_string()]), &prune);
    let ids: Vec<Value> = batches.iter().flat_map(|b| b.columns[0].clone()).collect();
    assert_eq!(ids, vec![Value::Int(4)]);
}

// ---- recovery ----

#[test]
fn open_recovers_torn_insert_by_truncating_uncommitted_rows() {
    let (mut store, h) = users(None);
    store.insert(&h, record(vec![Value::Int(1), text("alice")])).unwrap();
    let mut files = Files::new();
    files.apply(store.take_log());

    // Simulate a crash partway through the next insert: the id column was
    // rewritten with an extra row, but the process died before name.col was
    // rewritten and before next_rid advanced. The group is now torn — id
    // has 2 rows, name has 1, next_rid is still 1.
    let id = files.file(DIR, 0, "id.col");
    let (_, mut id_vals) = column_file::read_column(id.as_ref(), "id.col").unwrap();
    id_vals.push(Value::Int(999));
    let torn = column_file::write_column(ColumnType::Int, &id_vals, &[]).unwrap();
    files.put(DIR, 0, "id.col", torn);
    let id = files.file(DIR, 0, "id.col");
    assert_eq!(column_file::read_header(id.as_ref(), "id.col").unwrap().row_count, 2);

    // Reopen runs recovery, which truncates id.col back to the committed row.
    let mut store = files.open();
    files.apply(store.take_log());
    let h = store.open_table("users").unwrap();
    let id = files.file(DIR, 0, "id.col");
    assert_eq!(column_file::read_header(id.as_ref(), "id.col").unwrap().row_count, 1);

    // Scan no longer risks indexing past the short column and yields only
    // the committed row.
    let rows = collect_scan(&store, &h);
    assert_eq!(rows.len(), 1);
    assert_eq!(rows[0].0, Rid(0));
    assert_eq!(rows[0].1.values, vec![Value::Int(1), text("alice")]);

    // The next insert reuses the freed rid and stays column-aligned.
    let new = store.insert(&h, record(vec![Value::Int(2), Value::Null])).unwrap();
    assert_eq!(new, Rid(1));
    assert_eq!(
        store.get(&h, Rid(1)).unwrap(),
        Some(record(vec![Value::Int(2), Value::Null]))
    );
}

/// However many effects of an insert were carried out, opening gives the table
/// before it or the table after it.
#[test]
fn every_torn_insert_is_undone_or_complete() {
    let (mut store, h) = users(None);
    store.insert(&h, record(vec![Value::Int(1), text("alice")])).unwrap();
    let before = store.take_log();
    store.insert(&h, record(vec![Value::Int(2), text("bob")])).unwrap();
    let steps = store.take_log();
    let total = steps.len();
    assert_eq!(total, 3, "two column files, then the manifest");

    let mut files = Files::new();
    files.apply(before);
    for (i, effect) in steps.into_iter().enumerate() {
        files.apply(vec![effect]);
        let store = files.open();
        let h = store.open_table("users").unwrap();
        let expected: Vec<u64> = if i + 1 < total { vec![0] } else { vec![0, 1] };
        assert_eq!(scanned_rids(&store, &h), expected);
    }
}

/// Opening a database that was closed in order changes no file and shows the
/// same rows.
#[test]
fn reopening_a_sound_database_writes_nothing() {
    let (mut store, h) = users(Some(2));
    for i in 0..5 {
        store.insert(&h, record(vec![Value::Int(i), Value::Null])).unwrap();
    }
    store.delete(&h, Rid(3)).unwrap();
    let rows = collect_scan(&store, &h);
    let mut again = Files::new().reopen(store);
    assert!(again.take_log().is_empty());
    let h = again.open_table("users").unwrap();
    assert_eq!(collect_scan(&again, &h), rows);
}

// ---- more ----

/// A change to one table leaves every other table as it was.
#[test]
fn changes_stay_in_their_table() {
    let (mut store, h) = users(None);
    store.insert(&h, record(vec![Value::Int(1), Value::Null])).unwrap();
    store.create_table("other", schema_users(), TableOptions::default()).unwrap();
    let other = store.open_table("other").unwrap();
    assert!(collect_scan(&store, &other).is_empty());
    store.insert(&other, record(vec![Value::Int(9), Value::Null])).unwrap();
    store.delete(&h, Rid(0)).unwrap();
    assert_eq!(scanned_rids(&store, &h), Vec::<u64>::new());
    assert_eq!(collect_scan(&store, &other)[0].1.values[0], Value::Int(9));
    store.drop_table("other").unwrap();
    assert!(collect_scan(&store, &h).is_empty());
    assert!(store.open_table("other").is_err());
}

/// The same name can be created again after a drop, and starts out empty.
#[test]
fn dropped_name_is_free_again() {
    let (mut store, h) = users(None);
    store.insert(&h, record(vec![Value::Int(1), Value::Null])).unwrap();
    store.drop_table("users").unwrap();
    store.create_table("users", schema_users(), TableOptions::default()).unwrap();
    let h = store.open_table("users").unwrap();
    assert_eq!(h.dir, "/db/tables/00000002");
    assert!(collect_scan(&store, &h).is_empty());
}

/// A column file of the open group that is gone is an I/O error.
#[test]
fn opening_reports_a_missing_column_file() {
    let (mut store, h) = users(None);
    store.insert(&h, record(vec![Value::Int(1), Value::Null])).unwrap();
    store.insert(&h, record(vec![Value::Int(2), Value::Null])).unwrap();
    let mut files = Files::new();
    files.apply(store.take_log());
    files.group(DIR, 0).retain(|(n, _)| n != "name.col");
    let ready = Status::Ready { format_version: 1, created: "unix:0".into() };
    let err = ColumnStore::open("/db", &ready, files.disk()).unwrap_err();
    assert!(matches!(err, Error::Io { .. }), "got: {}", err.to_string());
}

#[test]
fn records_are_checked_against_the_schema() {
    let schema = schema_users();
    assert!(validate_record(&schema, &record(vec![Value::Int(1), Value::Null])).is_ok());
    assert!(validate_record(&schema, &record(vec![Value::Int(1), Value::Int(2)])).is_err());
    assert!(validate_record(&schema, &record(vec![])).is_err());
}

#[test]
fn row_group_paths_are_six_digits_wide() {
    assert_eq!(row_group_dir("/t", 7), "/t/row_groups/000007");
    assert_eq!(row_group_dir("/t", 12345678), "/t/row_groups/12345678");
    assert_eq!(col_path("/t/row_groups/000007", "id"), "/t/row_groups/000007/id.col");
}

/// However far creating or dropping a table got, no table of the index is
/// without its manifest.
#[test]
fn torn_definitions_leave_no_dangling_table() {
    let (mut store, _) = users(None);
    let mut files = Files::new();
    files.apply(store.take_log());
    store.create_table("other", schema_users(), TableOptions::default()).unwrap();
    let created = store.take_log();
    store.drop_table("users").unwrap();
    let dropped = store.take_log();
    for effect in created.into_iter().chain(dropped) {
        files.apply(vec![effect]);
        for entry in &files.catalog.as_ref().unwrap().tables {
            let dir = format!("/db/{}", entry.dir);
            let found = files.tables.iter().find(|t| t.dir == dir);
            assert!(found.is_some_and(|t| t.manifest.is_some()), "no manifest in {dir}");
        }
    }
    assert_eq!(files.open().list_tables().unwrap(), vec!["other"]);
}

/// What takes a table back whose creation failed: nothing before its manifest is
/// written, its directory before the index lists it, and both behind that.
#[test]
fn withdrawal_undoes_a_creation() {
    let (mut store, _) = users(None);
    let mut files = Files::new();
    files.apply(store.take_log());
    store.create_table("other", schema_users(), TableOptions::default()).unwrap();
    let created = store.take_log();
    assert_eq!(created.len(), 6, "manifest, index, group, two columns, bitmap");
    assert!(withdrawal(&created, 0).is_empty());
    match withdrawal(&created, 1).as_slice() {
        [Effect::RemoveDir(dir)] => assert_eq!(dir, "/db/tables/00000002"),
        other => panic!("unexpected: {other:?}"),
    }
    for failed in 2..6 {
        match withdrawal(&created, failed).as_slice() {
            [Effect::WriteCatalog(file), Effect::RemoveDir(dir)] => {
                let names: Vec<&str> = file.tables.iter().map(|t| t.name.as_str()).collect();
                assert_eq!(names, vec!["users"]);
                assert_eq!(file.next_table_id, 3);
                assert_eq!(dir, "/db/tables/00000002");
            }
            other => panic!("unexpected: {other:?}"),
        }
    }
    assert!(withdrawal(&created, 6).is_empty());

    // Carried out, it leaves the other table alone.
    let undo = withdrawal(&created, 3);
    files.apply(created.into_iter().take(3).collect());
    files.apply(undo);
    assert!(!files.tables.iter().any(|t| t.dir == "/db/tables/00000002"));
    assert_eq!(files.open().list_tables().unwrap(), vec!["users"]);
}

/// Changes to rows and dropped tables are not taken back, nor is a table that is
/// complete when a later change fails.
#[test]
fn withdrawal_leaves_other_changes() {
    let mut store = Files::new().open();
    store.create_table("users", schema_users(), TableOptions::default()).unwrap();
    let h = store.open_table("users").unwrap();
    store.insert(&h, record(vec![Value::Int(1), text("alice")])).unwrap();
    let log = store.take_log();
    for failed in 6..=log.len() {
        assert!(withdrawal(&log, failed).is_empty());
    }
    store.insert(&h, record(vec![Value::Int(2), text("bob")])).unwrap();
    store.delete(&h, Rid(0)).unwrap();
    let log = store.take_log();
    for failed in 0..=log.len() {
        assert!(withdrawal(&log, failed).is_empty());
    }
    store.drop_table("users").unwrap();
    let log = store.take_log();
    for failed in 0..=log.len() {
        assert!(withdrawal(&log, failed).is_empty());
    }
}

/// Opening cuts every column back to the committed rows, however many stand
/// behind them and whatever statistics their files carry.
#[test]
fn opening_cuts_back_any_longer_columns() {
    let (mut store, h) = users(None);
    store.insert(&h, record(vec![Value::Int(1), text("alice")])).unwrap();
    let mut files = Files::new();
    files.apply(store.take_log());
    let ids = [1, 7, 8, 9].map(Value::Int);
    files.put(DIR, 0, "id.col", column_file::write_column(ColumnType::Int, &ids, &[1]).unwrap());
    let names = [text("alice"), text("alice"), Value::Null];
    let mut bytes = column_file::write_column(ColumnType::Text, &names, &[]).unwrap();
    bytes.extend(b"tail");
    files.put(DIR, 0, "name.col", bytes);

    let mut store = files.open();
    assert_eq!(store.take_log().len(), 2);
    let h = store.open_table("users").unwrap();
    let rows = collect_scan(&store, &h);
    assert_eq!(rows, vec![(Rid(0), record(vec![Value::Int(1), text("alice")]))]);
}

/// A scan with hints yields some of the batches of a scan without, in the same
/// order; hints on TEXT columns and on unknown ones drop nothing.
#[test]
fn pruned_scans_are_part_of_full_scans() {
    let (mut store, h) = users(Some(2));
    for i in 0..10 {
        store.insert(&h, record(vec![Value::Int(i), text("x")])).unwrap();
    }
    let hint = |column: &str, op: ScanCompare, value: i64| ScanPredicate {
        column: column.to_string(),
        op,
        value,
    };
    let all = collect_batches(&store, &h, None, &vec![]);
    assert_eq!(all.len(), 5);
    let wanted =
        vec![hint("id", ScanCompare::GtEq, 3), hint("id", ScanCompare::Lt, 7)];
    let some = collect_batches(&store, &h, None, &wanted);
    assert_eq!(some.as_slice(), &all[1..4]);
    let useless = vec![hint("name", ScanCompare::Eq, 3), hint("ghost", ScanCompare::Gt, 100)];
    assert_eq!(collect_batches(&store, &h, None, &useless), all);
}

/// A column with fewer rows than were committed keeps the database from opening,
/// also where another column has more.
#[test]
fn opening_refuses_short_columns() {
    let (mut store, h) = users(None);
    for i in 0..3 {
        store.insert(&h, record(vec![Value::Int(i), text("x")])).unwrap();
    }
    let mut files = Files::new();
    files.apply(store.take_log());
    let ids = [0, 1, 2, 3].map(Value::Int);
    files.put(DIR, 0, "id.col", column_file::write_column(ColumnType::Int, &ids, &[]).unwrap());
    let names = column_file::write_column(ColumnType::Text, &[text("x"), text("x")], &[]).unwrap();
    files.put(DIR, 0, "name.col", names);
    let ready = Status::Ready { format_version: 1, created: "unix:0".into() };
    let err = ColumnStore::open("/db", &ready, files.disk()).unwrap_err();
    assert!(matches!(err, Error::Corrupt(_)), "got: {}", err.to_string());
    assert!(err.to_string().contains("holds 2 rows but the catalog committed 3"));
}

/// Records that were loaded in bulk read as if they had been inserted one by one,
/// and a batch scan lists the live ones in order.
#[test]
fn bulk_load_is_like_inserting() {
    let records: Vec<Record> =
        (0..7).map(|i| record(vec![Value::Int(i * i), Value::Text(format!("n{i}"))])).collect();
    let (mut loaded, a) = users(Some(3));
    loaded.bulk_load(&a, &records).unwrap();
    let (mut inserted, b) = users(Some(3));
    for r in &records {
        inserted.insert(&b, record(r.values.clone())).unwrap();
    }
    assert_eq!(collect_scan(&loaded, &a), collect_scan(&inserted, &b));
    for rid in 0..9 {
        assert_eq!(loaded.get(&a, Rid(rid)).unwrap(), inserted.get(&b, Rid(rid)).unwrap());
    }
    for rid in [0, 3, 4, 5] {
        loaded.delete(&a, Rid(rid)).unwrap();
    }
    let batches = collect_batches(&loaded, &a, Some(&vec!["id".to_string()]), &vec![]);
    let ids: Vec<Vec<Value>> = batches.into_iter().map(|mut b| b.columns.remove(0)).collect();
    assert_eq!(ids, vec![vec![Value::Int(1), Value::Int(4)], vec![Value::Int(36)]]);
}
