//! The marker file, the table index and the manifests.

use balik_db::catalog::files::{
    metadata_bytes, metadata_text, CatalogFile, ManifestColumn, ManifestFile, ManifestImage,
    TableEntry,
};
use balik_db::catalog::metadata::{
    initialize, is_initialized, marker_text, status, Metadata, MetadataImage, Status,
    FORMAT_VERSION, METADATA_FILE,
};
use balik_db::catalog::schema::{Column, ColumnType, Schema};
use balik_db::catalog::tables::{join_path, Catalog, TableOptions, DEFAULT_ROW_GROUP_SIZE};
use balik_db::disk::{Disk, Effect, TableDir};
use balik_db::error::Error;

// ---- the marker file ----

#[test]
fn metadata_init_creates_directory_structure() {
    let meta = initialize("testdb", false, &Status::Missing, 7).unwrap();
    assert_eq!(METADATA_FILE, "balik.meta");
    assert!(is_initialized(&MetadataImage::Loaded(meta)));
}

#[test]
fn catalog_init_creates_directory_structure() {
    let result = initialize("testdb", false, &Status::Missing, 0);
    assert!(result.is_ok());
    assert!(is_initialized(&MetadataImage::Loaded(result.unwrap())));
    assert!(!is_initialized(&MetadataImage::Missing));
}

#[test]
fn init_meta_contains_format_version() {
    let meta = initialize("testdb", false, &Status::Missing, 1777213236).unwrap();
    assert_eq!(meta.format_version, FORMAT_VERSION);
    assert_eq!(meta.magic, "balik-db");
    assert_eq!(meta.created, "unix:1777213236");
}

#[test]
fn future_format_version_is_rejected() {
    let future = FORMAT_VERSION + 1;
    let image = MetadataImage::Loaded(Metadata {
        magic: "balik-db".into(),
        format_version: future,
        created: "unix:0".into(),
    });
    assert!(matches!(
        status(&image),
        Status::TooNew { found, supported } if found == future && supported == FORMAT_VERSION
    ));
}

#[test]
fn metadata_init_refuses_existing_database() {
    let meta = initialize("testdb", false, &Status::Missing, 0).unwrap();
    let found = status(&MetadataImage::Loaded(meta));
    let result = initialize("testdb", true, &found, 0);
    assert!(result.is_err());
    assert!(result.unwrap_err().to_string().contains("already an initialized"));
}

#[test]
fn catalog_init_refuses_existing_database() {
    let found = Status::Ready { format_version: 1, created: "unix:0".into() };
    let result = initialize("testdb", true, &found, 0);
    assert_eq!(
        result.unwrap_err().to_string(),
        "directory 'testdb' is already an initialized balik database"
    );
}

#[test]
fn stray_meta_file_without_magic_is_not_recognized() {
    assert!(matches!(status(&MetadataImage::Unreadable), Status::Unreadable));
    assert!(matches!(status(&MetadataImage::Missing), Status::Missing));
}

#[test]
fn meta_file_with_wrong_magic_is_detected() {
    let image = MetadataImage::Loaded(Metadata {
        magic: "sqlite".into(),
        format_version: 1,
        created: "unix:0".into(),
    });
    assert!(matches!(status(&image), Status::WrongMagic));
}

#[test]
fn initialized_db_reports_ok_status() {
    let meta = initialize("testdb", false, &Status::Missing, 5).unwrap();
    match status(&MetadataImage::Loaded(meta)) {
        Status::Ready { format_version, created } => {
            assert_eq!(format_version, 1);
            assert_eq!(created, "unix:5");
        }
        other => panic!("expected a readable database, got {other:?}"),
    }
}

#[test]
fn metadata_init_refuses_existing_non_db_directory() {
    let result = initialize("testdb", true, &Status::Missing, 0);
    assert!(result.is_err());
    assert!(result.unwrap_err().to_string().contains("refusing to overwrite"));
}

#[test]
fn catalog_init_refuses_existing_non_db_directory() {
    for found in [Status::Unreadable, Status::WrongMagic] {
        let result = initialize("testdb", true, &found, 0);
        assert!(result.unwrap_err().to_string().contains("refusing to overwrite"));
    }
}

// ---- tables ----

fn schema_users() -> Schema {
    Schema {
        columns: vec![
            Column { name: "id".to_string(), ty: ColumnType::Int, nullable: false },
            Column { name: "name".to_string(), ty: ColumnType::Text, nullable: true },
        ],
    }
}

/// An empty database at `/db`.
fn empty() -> (Catalog, Disk) {
    (Catalog::load("/db", None).unwrap(), Disk::new(None))
}

/// Open the catalog again from the files that were written.
fn reopen(disk: &Disk) -> Catalog {
    Catalog::load("/db", disk.catalog()).unwrap()
}

#[test]
fn load_on_empty_dir_returns_empty_catalog() {
    let (cat, _) = empty();
    assert!(cat.list_tables().is_empty());
}

#[test]
fn create_table_writes_catalog_layout() {
    let (mut cat, mut disk) = empty();
    let id = cat.create_table(&mut disk, "users", &schema_users(), TableOptions::default());
    assert_eq!(id.unwrap(), 1);
    assert!(matches!(disk.manifest("/db/tables/00000001"), ManifestImage::Loaded(_)));
    assert!(disk.catalog().is_some());
    // The manifest is in place before the index publishes the table.
    let log = disk.take_log();
    assert_eq!(log.len(), 2);
    assert!(matches!(&log[0], Effect::WriteManifest { dir, .. } if dir == "/db/tables/00000001"));
    assert!(matches!(&log[1], Effect::WriteCatalog(_)));
}

#[test]
fn table_dir_returns_absolute_path() {
    let (mut cat, mut disk) = empty();
    cat.create_table(&mut disk, "users", &schema_users(), TableOptions::default()).unwrap();
    assert_eq!(cat.table_dir("users").unwrap(), "/db/tables/00000001");
    assert_eq!(cat.manifest_path("users").unwrap(), "/db/tables/00000001/manifest.toml");
}

#[test]
fn table_dir_for_unknown_table_fails() {
    let (cat, _) = empty();
    let err = cat.table_dir("ghosts").unwrap_err();
    assert!(err.to_string().contains("no such table"));
}

#[test]
fn create_table_persists_storage_track_in_catalog() {
    let (mut cat, mut disk) = empty();
    cat.create_table(&mut disk, "users", &schema_users(), TableOptions::default()).unwrap();
    assert_eq!(disk.catalog().unwrap().storage_track, "column-store");
}

#[test]
fn create_table_rejects_duplicate_name() {
    let (mut cat, mut disk) = empty();
    cat.create_table(&mut disk, "users", &schema_users(), TableOptions::default()).unwrap();
    let err = cat
        .create_table(&mut disk, "users", &schema_users(), TableOptions::default())
        .unwrap_err();
    assert!(err.to_string().contains("already exists"));
    assert!(matches!(err, Error::TableExists(_)));
}

#[test]
fn create_table_rejects_invalid_schema() {
    let (mut cat, mut disk) = empty();
    let bad = Schema { columns: vec![] };
    let err =
        cat.create_table(&mut disk, "users", &bad, TableOptions::default()).unwrap_err();
    assert!(err.to_string().contains("at least one column"));
}

#[test]
fn list_tables_returns_all_created_names() {
    let (mut cat, mut disk) = empty();
    for name in ["orders", "users", "audit"] {
        cat.create_table(&mut disk, name, &schema_users(), TableOptions::default()).unwrap();
    }
    // In the order of their names.
    assert_eq!(cat.list_tables(), vec!["audit", "orders", "users"]);
}

#[test]
fn describe_table_round_trips_schema() {
    let (mut cat, mut disk) = empty();
    cat.create_table(&mut disk, "users", &schema_users(), TableOptions::default()).unwrap();

    let desc = cat.describe_table(&disk, "users").unwrap();
    assert_eq!(desc.name, "users");
    assert_eq!(desc.id, 1);
    assert_eq!(desc.row_group_size, DEFAULT_ROW_GROUP_SIZE);
    assert_eq!(desc.storage_track, "column-store");
    assert_eq!(desc.next_rid, 0);
    assert_eq!(desc.schema, schema_users());
}

#[test]
fn describe_table_for_unknown_table_fails() {
    let (cat, disk) = empty();
    let err = cat.describe_table(&disk, "ghosts").unwrap_err();
    assert!(err.to_string().contains("no such table"));
    assert!(matches!(err, Error::TableNotFound(_)));
}

#[test]
fn next_table_id_survives_reopen() {
    let (mut cat, mut disk) = empty();
    cat.create_table(&mut disk, "a", &schema_users(), TableOptions::default()).unwrap();
    cat.create_table(&mut disk, "b", &schema_users(), TableOptions::default()).unwrap();
    let mut cat = reopen(&disk);
    let id = cat.create_table(&mut disk, "c", &schema_users(), TableOptions::default());
    assert_eq!(id.unwrap(), 3);
}

#[test]
fn schema_persists_across_reopen() {
    let (mut cat, mut disk) = empty();
    cat.create_table(&mut disk, "users", &schema_users(), TableOptions::default()).unwrap();
    let cat = reopen(&disk);
    let desc = cat.describe_table(&disk, "users").unwrap();
    assert_eq!(desc.schema, schema_users());
    assert_eq!(desc.id, 1);
}

#[test]
fn drop_table_removes_entry_and_dir() {
    let (mut cat, mut disk) = empty();
    cat.create_table(&mut disk, "users", &schema_users(), TableOptions::default()).unwrap();
    let dir = "/db/tables/00000001";
    assert!(!matches!(disk.manifest(dir), ManifestImage::Missing));
    disk.take_log();

    cat.drop_table(&mut disk, "users").unwrap();
    assert!(cat.list_tables().is_empty());
    assert!(matches!(disk.manifest(dir), ManifestImage::Missing));
    // The index forgets the table before its directory goes.
    let log = disk.take_log();
    assert!(matches!(&log[0], Effect::WriteCatalog(f) if f.tables.is_empty()));
    assert!(matches!(&log[1], Effect::RemoveDir(d) if d == dir));

    let err = cat.describe_table(&disk, "users").unwrap_err();
    assert!(err.to_string().contains("no such table"));
}

#[test]
fn drop_table_on_unknown_table_fails() {
    let (mut cat, mut disk) = empty();
    let err = cat.drop_table(&mut disk, "ghosts").unwrap_err();
    assert!(err.to_string().contains("no such table"));
}

#[test]
fn drop_table_does_not_recycle_id() {
    let (mut cat, mut disk) = empty();
    cat.create_table(&mut disk, "a", &schema_users(), TableOptions::default()).unwrap();
    cat.drop_table(&mut disk, "a").unwrap();
    let id = cat.create_table(&mut disk, "b", &schema_users(), TableOptions::default());
    assert_eq!(id.unwrap(), 2, "table_id must be monotonic across drops");
}

#[test]
fn row_group_size_override_is_persisted() {
    let (mut cat, mut disk) = empty();
    let options = TableOptions { row_group_size: Some(4096) };
    cat.create_table(&mut disk, "users", &schema_users(), options).unwrap();
    let desc = cat.describe_table(&disk, "users").unwrap();
    assert_eq!(desc.row_group_size, 4096);
}

#[test]
fn load_rejects_wrong_storage_track() {
    let file = CatalogFile {
        format_version: 1,
        storage_track: "row-store".into(),
        next_table_id: 1,
        tables: vec![],
    };
    let err = Catalog::load("/db", Some(file)).unwrap_err();
    assert!(err.to_string().contains("storage_track"));
}

#[test]
fn load_detects_catalog_bit_flip() {
    let text = "format_version = 1\nstorage_track = \"column-store\"\nnext_table_id = 2\n";
    let mut bytes = metadata_bytes(text);
    assert_eq!(metadata_text("catalog.toml", &bytes).unwrap(), text);
    let target = bytes.len() - 5;
    bytes[target] ^= 0x01;
    let err = metadata_text("catalog.toml", &bytes).unwrap_err();
    assert!(err.to_string().contains("checksum"), "got: {}", err.to_string());
    assert!(err.to_string().starts_with("invalid schema: catalog.toml: "));
}

#[test]
fn describe_table_detects_manifest_bit_flip() {
    let mut bytes = metadata_bytes("table_id = 1\n");
    let target = bytes.len() - 5;
    bytes[target] ^= 0x01;
    let found = match metadata_text("manifest.toml", &bytes).unwrap_err() {
        Error::InvalidSchema(m) => m,
        other => panic!("expected an invalid schema, got {other:?}"),
    };
    let file = CatalogFile {
        format_version: 1,
        storage_track: "column-store".into(),
        next_table_id: 2,
        tables: vec![TableEntry { id: 1, name: "users".into(), dir: "tables/00000001".into() }],
    };
    let mut disk = Disk::new(Some(file.clone()));
    disk.put_table("/db/tables/00000001", TableDir::new(ManifestImage::Invalid(found)));
    let cat = Catalog::load("/db", Some(file)).unwrap();
    let err = cat.describe_table(&disk, "users").unwrap_err();
    assert!(err.to_string().contains("checksum"), "got: {}", err.to_string());
}

#[test]
fn set_next_rid_persists_across_reopen() {
    let (mut cat, mut disk) = empty();
    cat.create_table(&mut disk, "users", &schema_users(), TableOptions::default()).unwrap();
    cat.set_next_rid(&mut disk, "users", 5).unwrap();
    assert_eq!(cat.describe_table(&disk, "users").unwrap().next_rid, 5);
    let cat = reopen(&disk);
    assert_eq!(cat.describe_table(&disk, "users").unwrap().next_rid, 5);
}

#[test]
fn set_next_rid_on_unknown_table_fails() {
    let (cat, mut disk) = empty();
    let err = cat.set_next_rid(&mut disk, "ghosts", 1).unwrap_err();
    assert!(err.to_string().contains("no such table"));
}

// ---- more ----

/// A newer index is refused, and so is a metadata file that is not text.
#[test]
fn newer_and_binary_files_are_refused() {
    let file = CatalogFile {
        format_version: 2,
        storage_track: "column-store".into(),
        next_table_id: 1,
        tables: vec![],
    };
    assert_eq!(
        Catalog::load("/db", Some(file)).unwrap_err().to_string(),
        "invalid schema: catalog format_version 2 is newer than supported (1)"
    );
    let bytes = balik_db::checksum::wrap(&[0xff, 0xfe]);
    assert_eq!(
        metadata_text("catalog.toml", &bytes).unwrap_err().to_string(),
        "invalid schema: catalog.toml is not valid UTF-8"
    );
}

/// An index that was written is the one that is opened again, in order.
#[test]
fn written_index_opens_again() {
    let (mut cat, mut disk) = empty();
    for name in ["b", "c", "a"] {
        cat.create_table(&mut disk, name, &schema_users(), TableOptions::default()).unwrap();
    }
    cat.drop_table(&mut disk, "c").unwrap();
    let again = reopen(&disk);
    assert_eq!(again.list_tables(), vec!["a", "b"]);
    assert_eq!(again.table_dir("a").unwrap(), "/db/tables/00000003");
    assert_eq!(again.table_dir("b").unwrap(), "/db/tables/00000001");
    assert_eq!(again.next_table_id(), 4);
    assert_eq!(again.next_dir(), "/db/tables/00000004");
}

/// A table whose manifest is gone is an I/O error, not a missing table.
#[test]
fn missing_manifest_is_an_io_error() {
    let (mut cat, mut disk) = empty();
    cat.create_table(&mut disk, "users", &schema_users(), TableOptions::default()).unwrap();
    let err = cat.describe_table(&Disk::new(None), "users").unwrap_err();
    assert!(matches!(err, Error::Io { .. }));
    assert!(err.to_string().starts_with("read manifest.toml: "));
    assert!(err.to_string().len() > "read manifest.toml: ".len());
}

/// A manifest that the operating system would not read is an error with what it
/// said.
#[test]
fn unreadable_manifest_is_an_io_error() {
    let (mut cat, mut disk) = empty();
    cat.create_table(&mut disk, "users", &schema_users(), TableOptions::default()).unwrap();
    let image = ManifestImage::Unreadable("Permission denied".into());
    disk.put_table("/db/tables/00000001", TableDir::new(image));
    let err = cat.describe_table(&disk, "users").unwrap_err();
    assert!(matches!(err, Error::Io { .. }));
    assert_eq!(err.to_string(), "read manifest.toml: Permission denied");
}

#[test]
fn manifest_records_the_file_of_each_column() {
    let (mut cat, mut disk) = empty();
    cat.create_table(&mut disk, "users", &schema_users(), TableOptions::default()).unwrap();
    let ManifestFile { columns, .. } = cat.read_manifest(&disk, "users").unwrap();
    let files: Vec<&ManifestColumn> = columns.iter().collect();
    assert_eq!(files[0].file, "{row_group}/id.col");
    assert_eq!(files[1].file, "{row_group}/name.col");
    assert!(files[1].nullable && !files[0].nullable);
}

#[test]
fn paths_are_joined_with_one_slash() {
    assert_eq!(join_path("/db", "tables"), "/db/tables");
    assert_eq!(join_path("/db/", "tables"), "/db/tables");
    assert_eq!(join_path("", "tables"), "tables");
    assert_eq!(join_path("/db", "/abs"), "/abs");
}

// ---- damaged files, descriptions, errors ----

/// The marker file carries a checksum where it has a line for it, and none is
/// asked of one without.
#[test]
fn marker_file_is_checked() {
    let text = "magic = \"balik-db\"\nformat_version = 1\n";
    let bytes = metadata_bytes(text);
    assert_eq!(marker_text(&bytes).as_deref(), Some(text));
    assert_eq!(marker_text(text.as_bytes()).as_deref(), Some(text));
    let start = bytes.len() - text.len();
    for at in start..bytes.len() {
        let mut altered = bytes.clone();
        altered[at] ^= 0x20;
        assert_eq!(marker_text(&altered), None);
    }
    assert_eq!(marker_text(b"\xff"), None);
    assert_eq!(marker_text(b"# crc32 = 0x00000000\nabc"), None);
}

/// Every altered byte behind the checksum line makes a metadata file an error
/// that names the file.
#[test]
fn altered_metadata_is_refused() {
    let text = "format_version = 1\nnext_table_id = 3\n";
    let bytes = metadata_bytes(text);
    for at in bytes.len() - text.len()..bytes.len() {
        let mut altered = bytes.clone();
        altered[at] ^= 0x04;
        let shown = metadata_text("catalog.toml", &altered).unwrap_err().to_string();
        assert!(
            shown.starts_with("invalid schema: catalog.toml: checksum mismatch: stored 0x"),
            "{shown}"
        );
    }
}

/// Other tables keep their description while tables come and go.
#[test]
fn descriptions_stay_as_created() {
    let (mut cat, mut disk) = empty();
    let options = || TableOptions { row_group_size: Some(16) };
    let first = cat.create_table(&mut disk, "users", &schema_users(), options()).unwrap();
    let second = cat.create_table(&mut disk, "other", &schema_users(), options()).unwrap();
    assert!(second > first);
    cat.drop_table(&mut disk, "other").unwrap();
    let third = cat.create_table(&mut disk, "third", &schema_users(), options()).unwrap();
    assert!(third > second);
    cat.set_next_rid(&mut disk, "third", 9).unwrap();
    let d = cat.describe_table(&disk, "users").unwrap();
    assert_eq!((d.id, d.row_group_size, d.next_rid), (first, 16, 0));
    assert_eq!(d.schema, schema_users());
    assert_eq!(cat.describe_table(&disk, "third").unwrap().next_rid, 9);
}

/// An operating system error becomes an error of its own kind.
#[test]
fn io_errors_convert() {
    let e = Error::from(std::io::Error::from(std::io::ErrorKind::NotFound));
    assert!(matches!(&e, Error::Io { context, .. } if context == "io error"));
    assert!(e.to_string().starts_with("io error: "));
}
