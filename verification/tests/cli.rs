//! What the commands of the program do, end to end.

use balik_db::catalog::files::{metadata_text, CatalogFile, ManifestFile, ManifestImage};
use balik_db::catalog::metadata::{initialize, status, MetadataImage, Status, FORMAT_VERSION};
use balik_db::catalog::schema::{Column, ColumnType, Schema};
use balik_db::catalog::tables::TableOptions;
use balik_db::cli::bench::{
    checked_size, fill, gen_record, must_initialize, parse_size, rows_for, wanted_rows,
    EST_BYTES_PER_ROW, FILTER_RANGE, PAYLOAD_LEN, SORT_RANGE,
};
use balik_db::cli::commands::{
    can_run, describe_lines, explain, query, row_delete, row_get, row_insert, row_update,
    table_describe, table_drop, table_list, table_scan, Failure,
};
use balik_db::cli::doctor::{diagnose, verdict};
use balik_db::cli::values::{parse_values, render_record};
use balik_db::disk::{Disk, Effect, GroupFiles, TableDir};
use balik_db::error::Error;
use balik_db::parser::parse;
use balik_db::storage::column_store::ColumnStore;
use balik_db::storage::{Record, Rid, Storage, Value};

const DIR: &str = "/db/tables/00000001";

/// The files of a row group, by name.
type GroupContents = Vec<(String, Vec<u8>)>;

/// A table's directory: its path, manifest and row groups.
struct TableFiles {
    dir: String,
    manifest: Option<ManifestFile>,
    groups: Vec<(u32, GroupContents)>,
}

/// The files of a database, kept by carrying out what a store logs.
struct Files {
    catalog: Option<CatalogFile>,
    tables: Vec<TableFiles>,
}

impl Files {
    fn new() -> Files {
        Files { catalog: None, tables: vec![] }
    }

    fn table(&mut self, dir: &str) -> &mut TableFiles {
        let found = self.tables.iter().position(|t| t.dir == dir);
        let i = found.unwrap_or_else(|| {
            self.tables.push(TableFiles { dir: dir.to_string(), manifest: None, groups: vec![] });
            self.tables.len() - 1
        });
        &mut self.tables[i]
    }

    fn group(&mut self, dir: &str, group: u32) -> &mut GroupContents {
        let table = self.table(dir);
        let found = table.groups.iter().position(|(g, _)| *g == group);
        let i = found.unwrap_or_else(|| {
            table.groups.push((group, vec![]));
            table.groups.len() - 1
        });
        &mut table.groups[i].1
    }

    fn put(&mut self, dir: &str, group: u32, file: &str, bytes: Vec<u8>) {
        let files = self.group(dir, group);
        files.retain(|(n, _)| n != file);
        files.push((file.to_string(), bytes));
    }

    fn file(&mut self, dir: &str, group: u32, file: &str) -> Option<Vec<u8>> {
        self.group(dir, group).iter().find(|(n, _)| n == file).map(|(_, b)| b.clone())
    }

    fn has_group(&self, dir: &str, group: u32) -> bool {
        self.tables.iter().any(|t| t.dir == dir && t.groups.iter().any(|(g, _)| *g == group))
    }

    fn apply(&mut self, log: Vec<Effect>) {
        for effect in log {
            match effect {
                Effect::WriteCatalog(file) => self.catalog = Some(file),
                Effect::WriteManifest { dir, manifest } => {
                    self.table(&dir).manifest = Some(manifest)
                }
                Effect::CreateGroup { dir, group } => {
                    self.group(&dir, group);
                }
                Effect::WriteFile { dir, group, file, bytes } => {
                    self.put(&dir, group, &file, bytes)
                }
                Effect::RemoveDir(dir) => self.tables.retain(|t| t.dir != dir),
            }
        }
    }

    /// The image of these files that a store is opened on.
    fn disk(&self) -> Disk {
        let mut disk = Disk::new(self.catalog.clone());
        for t in &self.tables {
            let manifest = match &t.manifest {
                Some(m) => ManifestImage::Loaded(m.clone()),
                None => ManifestImage::Missing,
            };
            let mut table = TableDir::new(manifest);
            for (group, contents) in &t.groups {
                let mut files = GroupFiles::new();
                for (name, bytes) in contents {
                    files.put(name, bytes.clone());
                }
                table.put_group(*group, files);
            }
            disk.put_table(&t.dir, table);
        }
        disk
    }

    fn open(&self) -> ColumnStore {
        let ready = Status::Ready { format_version: 1, created: "unix:0".into() };
        ColumnStore::open("/db", &ready, self.disk()).unwrap()
    }

    /// Carry out what the store logged, close it and open it again.
    fn reopen(&mut self, mut store: ColumnStore) -> ColumnStore {
        self.apply(store.take_log());
        self.open()
    }
}

/// A database that is opened anew for each command, as the program does.
struct Db {
    files: Files,
}

fn init_db() -> Db {
    Db { files: Files::new() }
}

impl Db {
    /// Run a query: what is printed, or the error line.
    fn run(&mut self, sql: &str) -> Result<String, String> {
        let mut store = self.files.open();
        let result = query(&mut store, sql).expect("identifiers are left");
        self.files.apply(store.take_log());
        match result {
            Ok(text) => Ok(text),
            Err(Failure::Parse(e)) => Err(format!("error: {}", e.to_string())),
            Err(Failure::Engine(e)) => Err(format!("error: {}", e.to_string())),
        }
    }

    fn success(&mut self, sql: &str) -> String {
        self.run(sql).unwrap()
    }

    fn failure(&mut self, sql: &str) -> String {
        self.run(sql).unwrap_err()
    }

    fn explain(&self, sql: &str, optimize: bool) -> Result<String, String> {
        let store = self.files.open();
        let stmt = parse(sql).map_err(|e| format!("error: {}", e.to_string()))?;
        explain(&store, &stmt, optimize).map_err(|e| format!("error: {}", e.to_string()))
    }
}

fn init_db_with_users() -> Db {
    let mut db = init_db();
    db.success("CREATE TABLE users (id INT NOT NULL, name TEXT, age INT)");
    db
}

// ---- parse ----

#[test]
fn parse_select_prints_ast() {
    let stmt = parse("SELECT id, name FROM users WHERE age > 18 ORDER BY name LIMIT 10").unwrap();
    let shown = format!("{stmt:#?}");
    for part in ["Select", "Columns", "Compare", "OrderBy"] {
        assert!(shown.contains(part), "{part} not in {shown}");
    }
}

#[test]
fn parse_create_table_prints_ast() {
    let stmt = parse("CREATE TABLE users (id INT, name TEXT)").unwrap();
    let shown = format!("{stmt:#?}");
    for part in ["CreateTable", "Int", "Text"] {
        assert!(shown.contains(part), "{part} not in {shown}");
    }
}

#[test]
fn parse_invalid_query_fails_with_stderr_message() {
    assert!(init_db().failure("SELEC id FROM users").contains("error:"));
    assert!(parse("SELEC id FROM users").is_err());
}

#[test]
fn parse_unsupported_query_reports_unsupported() {
    let err = parse("SELECT a FROM x JOIN y ON x.id = y.id").unwrap_err();
    assert!(err.to_string().contains("unsupported"));
}

// ---- doctor ----

/// The report on a directory, printed, and whether all is well.
fn run_doctor(
    exists: bool,
    status: &Status,
    opened: &Result<ColumnStore, Error>,
) -> (String, bool) {
    let report = diagnose("0.1.0", "linux", "x86_64", "testdb", exists, status, opened);
    let mut out = String::new();
    for line in report.lines {
        out.push_str(&line);
        out.push('\n');
    }
    (out, report.healthy)
}

/// The status of a directory that was just initialized.
fn ready() -> Status {
    let meta = initialize("testdb", false, &Status::Missing, 0).unwrap();
    status(&MetadataImage::Loaded(meta))
}

fn open_error(status: &Status) -> Result<ColumnStore, Error> {
    ColumnStore::open("testdb", status, Disk::new(None))
}

#[test]
fn doctor_doctor_reports_missing_database() {
    let (output, ok) = run_doctor(false, &Status::Missing, &open_error(&Status::Missing));
    assert!(!ok);
    assert!(output.contains("balik-db doctor"));
    assert!(output.contains("[ok] balik-db version:"));
    assert!(output.contains("[ok] OS:"));
    assert!(output.contains("[!!] database not found"));
    assert!(output.contains("run `balik-cli init --db"));
}

#[test]
fn doctor_doctor_reports_initialized_database() {
    let (output, ok) = run_doctor(true, &ready(), &Ok(Files::new().open()));
    assert!(ok);
    assert!(output.contains("[ok] database found at"));
    assert!(!output.contains("[!!]"));
}

#[test]
fn doctor_doctor_reports_uninitialized_directory() {
    let (output, ok) = run_doctor(true, &Status::Missing, &open_error(&Status::Missing));
    assert!(!ok);
    assert!(output.contains("[!!]"));
    assert!(output.contains("has no balik.meta"));
}

#[test]
fn doctor_reports_too_new_database() {
    let future = FORMAT_VERSION + 1;
    let newer = Status::TooNew { found: future, supported: FORMAT_VERSION };
    let (output, ok) = run_doctor(true, &newer, &open_error(&newer));
    assert!(!ok);
    assert!(output.contains(&format!("uses format version {future}")));
    assert!(output.contains(&format!("this binary supports {FORMAT_VERSION}")));
}

#[test]
fn doctor_shows_format_version_line() {
    let (output, ok) = run_doctor(true, &ready(), &Ok(Files::new().open()));
    assert!(ok);
    assert!(output.contains(&format!("supported format version: {FORMAT_VERSION}")));
    assert!(output.contains(&format!("format version: {FORMAT_VERSION}")));
}

/// A database with the table `users(id INT NOT NULL, name TEXT NOT NULL)`.
fn db_with_users() -> Files {
    let mut files = Files::new();
    let mut store = files.open();
    let column = |name: &str, ty: ColumnType| Column { name: name.into(), ty, nullable: false };
    let schema =
        Schema { columns: vec![column("id", ColumnType::Int), column("name", ColumnType::Text)] };
    store.create_table("users", schema, TableOptions::default()).unwrap();
    files.apply(store.take_log());
    files
}

#[test]
fn doctor_reports_empty_catalog() {
    let (output, ok) = run_doctor(true, &ready(), &Ok(Files::new().open()));
    assert!(ok);
    assert!(output.contains("[ok] catalog: 0 tables"));
    assert!(!output.contains("[!!]"));
}

#[test]
fn doctor_reports_healthy_table() {
    let (output, ok) = run_doctor(true, &ready(), &Ok(db_with_users().open()));
    assert!(ok, "expected ok, got output:\n{output}");
    assert!(output.contains("[ok] catalog: 1 tables"));
    assert!(output.contains("[ok] users: 2 columns"));
    assert!(output.contains("id INT"));
    assert!(output.contains("name TEXT"));
    assert!(!output.contains("[!!]"));
}

#[test]
fn doctor_detects_corrupt_catalog() {
    // Garbage where catalog.toml lives.
    let opened = metadata_text("catalog.toml", b"not toml at all =====");
    let (output, ok) = run_doctor(true, &ready(), &Err(opened.unwrap_err()));
    assert!(!ok);
    assert!(output.contains("[!!] cannot open catalog"));
}

#[test]
fn doctor_detects_corrupt_manifest() {
    // Stomp on the table's manifest.
    let found = match metadata_text("manifest.toml", b"this is not toml").unwrap_err() {
        Error::InvalidSchema(m) => m,
        other => panic!("expected an invalid schema, got {other:?}"),
    };
    let files = db_with_users();
    let mut disk = Disk::new(files.catalog.clone());
    disk.put_table(DIR, TableDir::new(ManifestImage::Invalid(found)));
    let opened = ColumnStore::open("/db", &ready(), disk);
    let (output, ok) = run_doctor(true, &ready(), &opened);
    assert!(!ok);
    assert!(output.contains("[!!] table 'users':"), "got: {output}");
}

#[test]
fn doctor_fails_when_database_missing() {
    let (output, ok) = run_doctor(false, &Status::Missing, &open_error(&Status::Missing));
    assert!(output.contains("[!!] database not found"));
    assert_eq!(
        verdict(ok).unwrap_err().to_string(),
        "one or more diagnostic checks failed"
    );
}

#[test]
fn if_init_done_then_doctor_succeeds() {
    let (output, ok) = run_doctor(true, &ready(), &Ok(Files::new().open()));
    assert!(verdict(ok).is_ok());
    assert!(output.contains("[ok] database found at"));
}

// ---- init ----

#[test]
fn init_creates_directory() {
    assert!(initialize("testdb", false, &Status::Missing, 0).is_ok());
}

#[test]
fn init_init_creates_directory_structure() {
    assert!(initialize("testdb", false, &Status::Missing, 0).is_ok());
    assert!(matches!(ready(), Status::Ready { .. }));
}

#[test]
fn init_init_refuses_existing_database() {
    let result = initialize("testdb", true, &ready(), 0);
    assert!(result.is_err());
    assert!(result.unwrap_err().to_string().contains("already an initialized"));
}

// ---- tables ----

#[test]
fn table_create_then_list_shows_both() {
    let mut db = init_db();
    let out = db.success("CREATE TABLE users (id INT NOT NULL, name TEXT NOT NULL)");
    assert!(out.contains("Created table 'users'"));
    db.success("CREATE TABLE orders (id INT NOT NULL, total INT NOT NULL)");
    let out = db.success("SHOW TABLES");
    assert!(out.contains("orders"));
    assert!(out.contains("users"));
}

#[test]
fn describe_shows_columns() {
    let mut db = init_db();
    db.success("CREATE TABLE users (id INT NOT NULL, name TEXT NOT NULL, age INT)");
    let out = db.success("DESCRIBE users");
    for part in ["column_name", "id", "INT", "NO", "name", "TEXT", "age", "YES"] {
        assert!(out.contains(part), "{part} not in {out}");
    }
}

#[test]
fn describe_extended_shows_storage_metadata() {
    let mut db = init_db();
    db.success("CREATE TABLE users (id INT NOT NULL, name TEXT NOT NULL)");
    let out = db.success("DESCRIBE EXTENDED users");
    for part in ["# table_id", "# storage", "column-store", "# row_group_size", "8192"] {
        assert!(out.contains(part), "{part} not in {out}");
    }
}

#[test]
fn describe_unknown_table_fails() {
    assert!(init_db().failure("DESCRIBE ghosts").contains("no such table"));
}

#[test]
fn table_create_duplicate_name_fails() {
    let mut db = init_db();
    db.success("CREATE TABLE users (id INT NOT NULL)");
    assert!(db.failure("CREATE TABLE users (id INT NOT NULL)").contains("already exists"));
}

#[test]
fn table_create_with_invalid_schema_fails() {
    let mut db = init_db();
    // unknown type
    let err = db.failure("CREATE TABLE users (id BLOB)");
    assert!(err.contains("column type `BLOB`"), "got: {err}");
    // duplicate column
    let err = db.failure("CREATE TABLE users (id INT, id TEXT)");
    assert!(err.contains("duplicate column name"), "got: {err}");
    // invalid table name
    let err = db.failure("CREATE TABLE 1users (id INT)");
    assert!(err.contains("sql parser error"), "got: {err}");
}

#[test]
fn tables_persist_across_restart() {
    let mut db = init_db();
    // First invocation: create tables.
    db.success("CREATE TABLE users (id INT NOT NULL, name TEXT NOT NULL)");
    db.success("CREATE TABLE orders (id INT NOT NULL, total INT NOT NULL)");
    // Second invocation: list + describe must read back what the first wrote.
    let out = db.success("SHOW TABLES");
    assert!(out.contains("orders"));
    assert!(out.contains("users"));
    let out = db.success("DESCRIBE users");
    assert!(out.contains("id"));
    assert!(out.contains("name"));
}

#[test]
fn table_create_writes_expected_layout() {
    let mut db = init_db();
    db.success("CREATE TABLE users (id INT NOT NULL, name TEXT NOT NULL)");
    assert_eq!(db.files.tables.len(), 1);
    assert_eq!(db.files.tables[0].dir, DIR);
    assert!(db.files.tables[0].manifest.is_some(), "manifest.toml should exist");
    assert_eq!(db.files.catalog.as_ref().unwrap().storage_track, "column-store");

    // Row group 000000 is materialized at create time with one empty .col
    // file per column. Each file is exactly the 56-byte header.
    assert!(db.files.has_group(DIR, 0), "row_groups/000000/ should exist");
    for col in ["id.col", "name.col"] {
        let bytes = db.files.file(DIR, 0, col).unwrap();
        assert_eq!(bytes.len(), 56, "{col} should be exactly 56 bytes (header only)");
        assert_eq!(&bytes[0..8], b"BALIKCOL", "{col} should start with magic");
    }

    // The row group's delete bitmap is also materialized at create time:
    // 24-byte header + ceil(row_group_size / 8) bytes of zeroed bitmap.
    // Default row_group_size = 8192, so 24 + 1024 = 1048 bytes.
    let bm_bytes = db.files.file(DIR, 0, "deletes.bm").unwrap();
    assert_eq!(
        bm_bytes.len(),
        1048,
        "deletes.bm should be 24-byte header + 1024 bytes of bitmap"
    );
    assert_eq!(&bm_bytes[0..8], b"BALIKDEL", "deletes.bm should start with magic");
    assert!(
        bm_bytes[24..].iter().all(|&b| b == 0),
        "fresh deletes.bm should have every bit clear"
    );
}

#[test]
fn table_create_without_init_fails() {
    let err = ColumnStore::open("not-a-db", &Status::Missing, Disk::new(None)).unwrap_err();
    assert!(err.to_string().contains("not an initialized balik database"));
}

// ---- rows ----

#[test]
fn row_insert_get_persist_across_restart() {
    let mut db = init_db();
    db.success("CREATE TABLE users (id INT NOT NULL, name TEXT)");
    assert!(db.success("INSERT INTO users VALUES (1, 'Alice')").contains("rid 0"));
    assert!(db.success("INSERT INTO users VALUES (2, NULL)").contains("rid 1"));

    // Each command opens the database anew, so reading back proves durability.
    assert!(db.success("SELECT * FROM users WHERE id = 1").contains("1  | Alice"));
    assert!(db.success("SELECT * FROM users WHERE id = 2").contains("2  | NULL"));

    // A value that matches no row comes back as an empty result, not an error.
    assert_eq!(db.success("SELECT * FROM users WHERE id = 99"), "id | name\n---+-----");
}

#[test]
fn row_insert_null_into_not_null_column_fails() {
    let mut db = init_db();
    db.success("CREATE TABLE users (id INT NOT NULL, name TEXT NOT NULL)");
    assert!(db.failure("INSERT INTO users VALUES (NULL, 'bob')").contains("NOT NULL"));
}

#[test]
fn table_scan_lists_rows_after_restart() {
    let mut db = init_db();
    db.success("CREATE TABLE users (id INT NOT NULL, name TEXT)");
    for sql in [
        "INSERT INTO users VALUES (1, 'alice')",
        "INSERT INTO users VALUES (2, NULL)",
        "INSERT INTO users VALUES (3, 'carol')",
    ] {
        db.success(sql);
    }
    let out = db.success("SELECT * FROM users");
    for part in ["1  | alice", "2  | NULL", "3  | carol"] {
        assert!(out.contains(part), "{part} not in {out}");
    }
}

#[test]
fn table_scan_on_empty_table_reports_no_rows() {
    let mut db = init_db();
    db.success("CREATE TABLE t (id INT NOT NULL)");
    // An empty table prints the header and separator but no data rows.
    assert_eq!(db.success("SELECT * FROM t"), "id\n--");
}

#[test]
fn delete_where_removes_matching_row_across_restart() {
    let mut db = init_db();
    db.success("CREATE TABLE users (id INT NOT NULL, name TEXT NOT NULL)");
    for sql in [
        "INSERT INTO users VALUES (1, 'alice')",
        "INSERT INTO users VALUES (2, 'bob')",
        "INSERT INTO users VALUES (3, 'carol')",
    ] {
        db.success(sql);
    }
    let out = db.success("DELETE FROM users WHERE id = 2");
    assert!(out.contains("Deleted 1 row(s) from 'users'"));

    // The tombstoned row (bob, id 2) no longer matches a lookup.
    assert_eq!(db.success("SELECT * FROM users WHERE id = 2"), "id | name\n---+-----");

    // The deleted row (bob) is gone; the survivors remain.
    let out = db.success("SELECT * FROM users");
    assert!(out.contains("1  | alice"));
    assert!(out.contains("3  | carol"));
    assert!(!out.contains("bob"));
}

#[test]
fn delete_without_where_removes_all_rows_across_restart() {
    let mut db = init_db();
    db.success("CREATE TABLE users (id INT NOT NULL)");
    for sql in [
        "INSERT INTO users VALUES (1)",
        "INSERT INTO users VALUES (2)",
        "INSERT INTO users VALUES (3)",
    ] {
        db.success(sql);
    }
    let out = db.success("DELETE FROM users");
    assert!(out.contains("Deleted 3 row(s) from 'users'"));
    // The table is empty but still present (header only).
    assert_eq!(db.success("SELECT id FROM users"), "id\n--");
}

#[test]
fn update_where_changes_matching_row_across_restart() {
    let mut db = init_db();
    db.success("CREATE TABLE users (id INT NOT NULL, name TEXT NOT NULL)");
    for sql in ["INSERT INTO users VALUES (1, 'alice')", "INSERT INTO users VALUES (2, 'bob')"] {
        db.success(sql);
    }
    let out = db.success("UPDATE users SET name = 'alicia' WHERE id = 1");
    assert!(out.contains("Updated 1 row(s) in 'users'"));

    // A lookup on the updated row reads back the new value.
    let out = db.success("SELECT * FROM users WHERE id = 1");
    assert!(out.contains("alicia"));
    assert!(!out.contains("alice "));
    // The pre-update value (alice) is gone; bob and the updated alicia remain.
    let out = db.success("SELECT * FROM users");
    assert!(out.contains("2  | bob"));
    assert!(out.contains("1  | alicia"));
}

#[test]
fn update_without_where_changes_all_rows() {
    let mut db = init_db();
    db.success("CREATE TABLE t (id INT NOT NULL, age INT)");
    db.success("INSERT INTO t VALUES (1, 10)");
    db.success("INSERT INTO t VALUES (2, 20)");
    assert!(db.success("UPDATE t SET age = 0").contains("Updated 2 row(s) in 't'"));
    let out = db.success("SELECT age FROM t");
    assert!(out.contains("0"));
    assert!(!out.contains("10"));
    assert!(!out.contains("20"));
}

#[test]
fn update_matching_no_rows_reports_zero() {
    let mut db = init_db();
    db.success("CREATE TABLE users (id INT NOT NULL, age INT)");
    db.success("INSERT INTO users VALUES (1, 10)");
    // A predicate that matches nothing is a no-op, not an error.
    let out = db.success("UPDATE users SET age = 99 WHERE id = 5");
    assert!(out.contains("Updated 0 row(s) in 'users'"));
    assert!(db.success("SELECT age FROM users").contains("10"));
}

#[test]
fn update_unknown_table_fails() {
    assert!(init_db().failure("UPDATE ghosts SET id = 0").contains("no such table"));
}

#[test]
fn delete_unknown_table_fails() {
    assert!(init_db().failure("DELETE FROM ghosts WHERE id = 0").contains("no such table"));
}

#[test]
fn delete_matching_no_rows_reports_zero() {
    let mut db = init_db();
    db.success("CREATE TABLE users (id INT NOT NULL)");
    db.success("INSERT INTO users VALUES (1)");
    // A predicate that matches nothing is a no-op, not an error.
    let out = db.success("DELETE FROM users WHERE id = 99");
    assert!(out.contains("Deleted 0 row(s) from 'users'"));
    assert!(db.success("SELECT id FROM users").contains("1"));
}

// ---- queries ----

#[test]
fn query_runs_create_insert_select_pipeline() {
    let mut db = init_db();
    db.success("CREATE TABLE users (id INT, name TEXT, age INT)");
    db.success("INSERT INTO users VALUES (1, 'Alice', 20)");
    db.success("INSERT INTO users VALUES (2, 'Bob', 15)");
    db.success("INSERT INTO users VALUES (3, 'Carol', 30)");

    let out =
        db.success("SELECT id, name FROM users WHERE age >= 18 ORDER BY name LIMIT 10");
    assert!(out.contains("Alice"));
    assert!(out.contains("Carol"));
    assert!(!out.contains("Bob"));
    // WHERE dropped Bob (age 15); ORDER BY put Alice before Carol.
    assert!(out.find("Alice") < out.find("Carol"), "rows not in name order:\n{out}");
}

#[test]
fn query_select_star_returns_all_columns() {
    let mut db = init_db();
    db.success("CREATE TABLE t (id INT, name TEXT, age INT)");
    db.success("INSERT INTO t VALUES (7, 'Zed', 40)");
    let out = db.success("SELECT * FROM t");
    for part in ["id", "name", "age", "Zed", "40"] {
        assert!(out.contains(part), "{part} not in {out}");
    }
}

#[test]
fn query_limit_zero_returns_no_rows() {
    let mut db = init_db();
    db.success("CREATE TABLE t (id INT, name TEXT)");
    db.success("INSERT INTO t VALUES (1, 'Alice')");
    assert!(!db.success("SELECT * FROM t LIMIT 0").contains("Alice"));
}

#[test]
fn query_unknown_table_fails() {
    assert!(init_db().failure("SELECT * FROM ghosts").contains("no such table"));
}

#[test]
fn query_order_by_column_not_in_select_list() {
    let mut db = init_db();
    db.success("CREATE TABLE users (id INT, name TEXT, age INT)");
    // Names sort Alice(2) < Bob(3) < Charlie(1), independently of id.
    db.success("INSERT INTO users VALUES (1, 'Charlie', 20)");
    db.success("INSERT INTO users VALUES (2, 'Alice', 30)");
    db.success("INSERT INTO users VALUES (3, 'Bob', 25)");

    // ORDER BY name though only id is selected: rows come back in name order,
    // and the output carries just the id column.
    assert_eq!(db.success("SELECT id FROM users ORDER BY name"), "id\n--\n2 \n3 \n1 ");
    assert_eq!(db.success("SELECT id FROM users ORDER BY name DESC"), "id\n--\n1 \n3 \n2 ");
    // The same, fused into a TopK by ORDER BY + LIMIT.
    assert_eq!(db.success("SELECT id FROM users ORDER BY name LIMIT 2"), "id\n--\n2 \n3 ");
}

#[test]
fn query_drop_table_removes_table() {
    let mut db = init_db();
    db.success("CREATE TABLE users (id INT NOT NULL)");
    db.success("INSERT INTO users VALUES (1)");
    assert!(db.success("DROP TABLE users").contains("Dropped table 'users'"));
    // The table stays gone when the database is opened again.
    assert!(db.failure("SELECT * FROM users").contains("no such table"));
}

#[test]
fn query_drop_unknown_table_fails() {
    assert!(init_db().failure("DROP TABLE ghosts").contains("no such table"));
}

#[test]
fn query_show_tables_on_empty_db_prints_header_only() {
    assert_eq!(init_db().success("SHOW TABLES"), "table_name\n----------");
}

#[test]
fn query_show_tables_lists_names_in_order() {
    let mut db = init_db();
    db.success("CREATE TABLE users (id INT NOT NULL)");
    db.success("CREATE TABLE orders (id INT NOT NULL)");
    db.success("CREATE TABLE audit (id INT NOT NULL)");
    let out = db.success("SHOW TABLES");
    for part in ["table_name", "audit", "orders", "users"] {
        assert!(out.contains(part), "{part} not in {out}");
    }
    assert!(
        out.find("audit") < out.find("orders") && out.find("orders") < out.find("users"),
        "tables not in sorted order:\n{out}"
    );
}

/// A statement runs as long as identifiers are left.
#[test]
fn statements_can_run_on_a_new_database() {
    let store = Files::new().open();
    assert!(can_run(&store, &parse("CREATE TABLE t (id INT)").unwrap()));
    assert!(can_run(&store, &parse("INSERT INTO ghosts VALUES (1)").unwrap()));
}

/// A condition on a column that does not match its type is no error.
#[test]
fn query_with_a_condition_of_another_type_matches_nothing() {
    let mut db = init_db_with_users();
    db.success("INSERT INTO users VALUES (1, 'a', 2)");
    assert_eq!(db.success("SELECT id FROM users WHERE name = 1"), "id\n--");
}

// ---- explain ----

#[test]
fn explain_optimized_shows_logical_and_physical_plans() {
    // Optimizing fuses ORDER BY + LIMIT into TopK and pushes the needed columns
    // onto the scan; both plans reflect that.
    let out = init_db_with_users()
        .explain("SELECT id, name FROM users WHERE age > 18 ORDER BY name LIMIT 10", true)
        .unwrap();
    for part in [
        "Logical Plan:",
        "TopK [name] 10",
        "Projection [id, name]",
        "Filter [age > 18]",
        "Scan users [id, name, age]",
        "Physical Plan:",
        "TopKExec [name] 10",
        "TableScanExec users [id, name, age] prune=[age > 18]",
    ] {
        assert!(out.contains(part), "{part} not in {out}");
    }
}

#[test]
fn explain_without_optimize_keeps_sort_and_limit_separate() {
    let out = init_db_with_users()
        .explain("SELECT id FROM users ORDER BY id LIMIT 5", false)
        .unwrap();
    for part in ["Sort [id]", "Limit 5", "SortExec [id]", "LimitExec 5"] {
        assert!(out.contains(part), "{part} not in {out}");
    }
    assert!(!out.contains("TopK"));
}

#[test]
fn explain_drop_table_shows_logical_and_physical_plans() {
    let out = init_db_with_users().explain("DROP TABLE users", false).unwrap();
    assert!(out.contains("DropTable users"));
    assert!(out.contains("DropTableExec users"));
}

#[test]
fn explain_delete_shows_logical_and_physical_plans() {
    let out = init_db_with_users().explain("DELETE FROM users WHERE age > 18", false).unwrap();
    assert!(out.contains("Delete users [age > 18]"));
    assert!(out.contains("DeleteExec users [age > 18]"));
}

#[test]
fn explain_update_shows_logical_and_physical_plans() {
    let out =
        init_db_with_users().explain("UPDATE users SET age = 21 WHERE id = 1", false).unwrap();
    assert!(out.contains("Update users [age = 21] WHERE id = 1"));
    assert!(out.contains("UpdateExec users [age = 21] WHERE id = 1"));
}

#[test]
fn explain_update_unknown_set_column_fails() {
    let err = init_db_with_users().explain("UPDATE users SET nope = 1", false).unwrap_err();
    assert!(err.contains("unknown column 'nope'"));
}

#[test]
fn explain_drop_unknown_table_fails() {
    let err = init_db().explain("DROP TABLE ghosts", false).unwrap_err();
    assert!(err.contains("no such table"));
}

#[test]
fn explain_show_tables_shows_logical_and_physical_plans() {
    let out = init_db_with_users().explain("SHOW TABLES", false).unwrap();
    assert!(out.contains("ShowTables"));
    assert!(out.contains("ShowTablesExec"));
}

#[test]
fn explain_unknown_table_fails() {
    let err = init_db().explain("SELECT * FROM ghosts", false).unwrap_err();
    assert!(err.contains("no such table"));
}

#[test]
fn explain_unknown_column_fails() {
    let err = init_db_with_users().explain("SELECT nope FROM users", false).unwrap_err();
    assert!(err.contains("unknown column 'nope'"));
}

#[test]
fn explain_invalid_query_fails() {
    let err = init_db().explain("SELEC id FROM users", false).unwrap_err();
    assert!(err.contains("error:"));
}

// ---- values given on the command line ----

fn schema() -> Schema {
    Schema {
        columns: vec![
            Column { name: "id".to_string(), ty: ColumnType::Int, nullable: false },
            Column { name: "name".to_string(), ty: ColumnType::Text, nullable: true },
        ],
    }
}

#[test]
fn parses_ints_text_and_null() {
    let r = parse_values(&schema(), "1, alice").unwrap();
    assert_eq!(r.values, vec![Value::Int(1), Value::Text("alice".to_string())]);
    let r = parse_values(&schema(), "2,NULL").unwrap();
    assert_eq!(r.values, vec![Value::Int(2), Value::Null]);
}

#[test]
fn rejects_wrong_arity() {
    let err = parse_values(&schema(), "1").unwrap_err();
    assert!(err.to_string().contains("expected 2 value"));
}

#[test]
fn rejects_non_int_for_int_column() {
    let err = parse_values(&schema(), "x,alice").unwrap_err();
    assert!(err.to_string().contains("expects an INT"));
}

#[test]
fn null_literal_parses_to_null_regardless_of_nullability() {
    // Nullability is enforced by the storage layer at insert time, not here:
    // "NULL" parses to Value::Null even for the NOT NULL `id` column.
    let r = parse_values(&schema(), "NULL,alice").unwrap();
    assert_eq!(r.values, vec![Value::Null, Value::Text("alice".to_string())]);
}

#[test]
fn renders_record_in_column_order() {
    let r = parse_values(&schema(), "7,zed").unwrap();
    assert_eq!(render_record(&schema(), &r), "id=7, name=zed");
    let r = parse_values(&schema(), "7,NULL").unwrap();
    assert_eq!(render_record(&schema(), &r), "id=7, name=NULL");
}

// ---- commands on rows and tables ----

#[test]
fn row_commands_report_what_they_did() {
    let mut store = db_with_users().open();
    let out = row_insert(&mut store, "users", "1,alice").unwrap();
    assert_eq!(out, "Inserted into 'users' as rid 0");
    let out = row_insert(&mut store, "users", "2, bob ").unwrap();
    assert_eq!(out, "Inserted into 'users' as rid 1");
    assert_eq!(row_get(&store, "users", 1).unwrap(), "rid 1: id=2, name=bob");
    assert_eq!(row_get(&store, "users", 9).unwrap(), "rid 9: not found");
    let out = row_update(&mut store, "users", 0, "1,alicia").unwrap();
    assert_eq!(out, "rid 0: updated as rid 2");
    assert_eq!(row_delete(&mut store, "users", 1).unwrap(), "rid 1: deleted");
    let err = row_delete(&mut store, "users", 1).unwrap_err();
    assert!(err.to_string().contains("no such record"));
    assert_eq!(table_scan(&store, "users").unwrap(), vec!["rid 2: id=1, name=alicia"]);
    row_delete(&mut store, "users", 2).unwrap();
    assert_eq!(table_scan(&store, "users").unwrap(), vec!["(no rows)"]);
    assert!(row_get(&store, "ghosts", 0).is_err());
}

#[test]
fn table_commands_show_the_catalog() {
    let mut store = db_with_users().open();
    assert_eq!(table_list(&store).unwrap(), vec!["users"]);
    let lines = table_describe(&store, "users").unwrap();
    assert_eq!(lines, describe_lines(&store.describe_table("users").unwrap()));
    assert!(lines.iter().any(|l| l.contains("id") && l.contains("INT")));
    assert_eq!(
        table_drop(&mut store, "users", "/db").unwrap(),
        "Dropped table 'users' from '/db'"
    );
    assert!(table_drop(&mut store, "users", "/db").is_err());
    assert_eq!(table_list(&store).unwrap(), vec!["(no tables)"]);
}

// ---- benchmark data ----

#[test]
fn parse_size_handles_decimal_and_binary_units() {
    assert_eq!(parse_size("1GB").unwrap(), 1_000_000_000);
    assert_eq!(parse_size("1GiB").unwrap(), 1 << 30);
    assert_eq!(parse_size("250MB").unwrap(), 250_000_000);
}

#[test]
fn parse_size_rejects_garbage() {
    assert!(parse_size("nope").is_err());
    let read = Err("bad unit".to_string());
    assert_eq!(
        checked_size("nope", read).unwrap_err().to_string(),
        "invalid size 'nope': bad unit"
    );
    assert_eq!(checked_size("5", Ok(5)).unwrap(), 5);
}

#[test]
fn run_generates_requested_rows_and_is_repeatable() {
    let mut store = Files::new().open();
    let rows = wanted_rows(Some(5), "1GB").unwrap();
    fill(&mut store, "bench", rows, 42).unwrap();
    assert_eq!(store.describe_table("bench").unwrap().next_rid, 5);

    // Re-running drops and recreates the table rather than appending.
    let rows = wanted_rows(Some(3), "1GB").unwrap();
    fill(&mut store, "bench", rows, 42).unwrap();
    assert_eq!(store.describe_table("bench").unwrap().next_rid, 3);
}

#[test]
fn run_derives_row_count_from_size() {
    let mut store = Files::new().open();
    // 1 MB target / ~314 est bytes per row.
    let rows = wanted_rows(None, "1MB").unwrap();
    fill(&mut store, "bench", rows, 7).unwrap();
    let n = store.describe_table("bench").unwrap().next_rid;
    assert_eq!(n, 1_000_000 / EST_BYTES_PER_ROW);
    assert!(n >= 1);
}

#[test]
fn a_size_gives_at_least_one_row() {
    assert_eq!(rows_for(0), 1);
    assert_eq!(rows_for(EST_BYTES_PER_ROW), 1);
    assert_eq!(rows_for(10 * EST_BYTES_PER_ROW), 10);
}

/// A record is a function of its id and the state of the generator, and the same
/// draws as the generator itself makes.
#[test]
fn generated_records_follow_the_generator() {
    let (record, next) = gen_record(4, 42);
    let mut rng = fastrand::Rng::with_seed(42);
    let mut expected = vec![Value::Int(4)];
    expected.push(Value::Int(rng.u64(0..SORT_RANGE) as i64));
    expected.push(Value::Int(rng.u64(0..FILTER_RANGE) as i64));
    expected.push(Value::Int(rng.u64(0..FILTER_RANGE) as i64));
    for _ in 0..3 {
        let payload: String = (0..PAYLOAD_LEN).map(|_| rng.alphanumeric()).collect();
        expected.push(Value::Text(payload));
    }
    assert_eq!(record, Record { values: expected });
    assert_eq!(next, rng.get_seed());
    assert_ne!(gen_record(4, next).0, record);
}

#[test]
fn a_database_is_created_where_none_is() {
    assert!(must_initialize("db", &Status::Missing).unwrap());
    assert!(!must_initialize("db", &ready()).unwrap());
    assert_eq!(
        must_initialize("db", &Status::WrongMagic).unwrap_err().to_string(),
        "'db' is not a usable balik database"
    );
}

/// Two runs with the same number of rows and the same seed store the same rows,
/// numbered from 0.
#[test]
fn benchmark_runs_are_reproducible() {
    let rows_of = |table: &str, seed: u64| {
        let mut store = Files::new().open();
        fill(&mut store, table, 9, seed).unwrap();
        let handle = store.open_table(table).unwrap();
        (0..9u64).map(|i| store.get(&handle, Rid(i)).unwrap().unwrap()).collect::<Vec<Record>>()
    };
    let rows = rows_of("bench", 42);
    assert_eq!(rows, rows_of("again", 42));
    assert_ne!(rows, rows_of("bench", 43));
    for (i, row) in rows.iter().enumerate() {
        assert_eq!(row.values[0], Value::Int(i as i64));
    }
}

/// A WHERE that is no condition fails with and without the optimizer, where a
/// batch is asked for, and gives no rows where none is.
#[test]
fn a_where_that_is_no_condition_fails() {
    let mut db = init_db();
    db.success("CREATE TABLE t (id INT, name TEXT)");
    assert!(db.success("SELECT id FROM t WHERE id").contains("id"));
    db.success("INSERT INTO t VALUES (1, 'Alice')");
    let message = "filter predicate must be a boolean expression";
    assert!(db.failure("SELECT id FROM t WHERE id").contains(message));
    assert!(db.failure("SELECT id FROM t WHERE id ORDER BY name LIMIT 0").contains(message));
    assert!(db.failure("SELECT id FROM t WHERE id = 1 AND name").contains(message));
    assert!(!db.success("SELECT id FROM t WHERE id LIMIT 0").contains('1'));
    assert!(!db.success("SELECT id FROM t WHERE id > 5 AND name").contains('1'));
}
