//! Which names and definitions are allowed, where tables are kept, and what a
//! catalog file is taken for.

use vstd::prelude::*;
use vstd::utf8::*;

use crate::catalog::files::{metadata_text_of, CatalogFileV, EntryV, ManifestV};
use crate::catalog::metadata::{marker_text_of, status_of, Metadata, MetadataImage, StatusV};
use crate::catalog::schema::{
    bad_char, column_error, identifier_error, repeats_earlier, schema_error, type_text, ColumnType,
    ColumnV,
};
use crate::catalog::tables::{
    chosen_size, find_entry, loaded, path_join, put_entry, sorted_entries, CatalogV, TableOptions,
};
use crate::checksum::verified;
use crate::disk::DiskV;
use crate::error::ErrorV;
use crate::steps::lemma_no_failure;
use crate::text::{decimal, is_letter, is_word, lower_text, zero_padded};

verus! {

// ---- identifiers ----

/// The first character that is no word character, from the `i`th on.
proof fn lemma_bad_char(s: Seq<char>, i: int)
    requires
        0 <= i <= s.len(),
    ensures
        bad_char(s, i) is None <==> forall|k: int| i <= k < s.len() ==> is_word(#[trigger] s[k]),
        bad_char(s, i) matches Some(c) ==> exists|k: int|
            i <= k < s.len() && #[trigger] s[k] == c && !is_word(c) && forall|j: int|
                i <= j < k ==> is_word(#[trigger] s[j]),
    decreases s.len() - i,
{
    if i < s.len() {
        if is_word(s[i]) {
            lemma_bad_char(s, i + 1);
            if let Some(c) = bad_char(s, i + 1) {
                let k = choose|k: int|
                    i + 1 <= k < s.len() && #[trigger] s[k] == c && !is_word(c) && forall|j: int|
                        i + 1 <= j < k ==> is_word(#[trigger] s[j]);
                assert(s[k] == c);
            }
        } else {
            assert(s[i] == s[i]);
        }
    }
}

/// An identifier is 1 to 64 characters long, starts with a letter or an
/// underscore, and holds letters, digits and underscores only; anything else is
/// refused.
pub proof fn law_identifiers(kind: Seq<char>, s: Seq<char>)
    ensures
        identifier_error(kind, s) is None <==> 1 <= s.len() <= 64
            && "ABCDEFGHIJKLMNOPQRSTUVWXYZabcdefghijklmnopqrstuvwxyz_"@.contains(s[0]) && forall|
            i: int,
        |
            0 <= i < s.len()
                ==> "ABCDEFGHIJKLMNOPQRSTUVWXYZabcdefghijklmnopqrstuvwxyz_0123456789"@.contains(
                #[trigger] s[i],
            ),
        identifier_error(kind, s) matches Some(e) ==> e is InvalidSchema,
{
    let front = "ABCDEFGHIJKLMNOPQRSTUVWXYZabcdefghijklmnopqrstuvwxyz_"@;
    let all = "ABCDEFGHIJKLMNOPQRSTUVWXYZabcdefghijklmnopqrstuvwxyz_0123456789"@;
    assert forall|c: char| front.contains(c) <==> is_letter(c) || c == '_' by {
        reveal_strlit("ABCDEFGHIJKLMNOPQRSTUVWXYZabcdefghijklmnopqrstuvwxyz_");
        if 'A' <= c && c <= 'Z' {
            assert(front[c as int - 'A' as int] == c);
        }
        if 'a' <= c && c <= 'z' {
            assert(front[26 + (c as int - 'a' as int)] == c);
        }
        if c == '_' {
            assert(front[52] == c);
        }
    }
    assert forall|c: char| all.contains(c) <==> is_word(c) by {
        reveal_strlit("ABCDEFGHIJKLMNOPQRSTUVWXYZabcdefghijklmnopqrstuvwxyz_0123456789");
        if 'A' <= c && c <= 'Z' {
            assert(all[c as int - 'A' as int] == c);
        }
        if 'a' <= c && c <= 'z' {
            assert(all[26 + (c as int - 'a' as int)] == c);
        }
        if c == '_' {
            assert(all[52] == c);
        }
        if '0' <= c && c <= '9' {
            assert(all[53 + (c as int - '0' as int)] == c);
        }
    }
    if s.len() > 0 {
        lemma_bad_char(s, 1);
        if forall|i: int| 0 <= i < s.len() ==> is_word(#[trigger] s[i]) {
            assert(is_ascii_chars(s));
            is_ascii_chars_encode_utf8(s);
        }
        if identifier_error(kind, s) is None {
            assert(is_word(s[0]));
            assert forall|i: int| 0 <= i < s.len() implies is_word(#[trigger] s[i]) by {}
        }
    }
}

/// What is said of a name that is none.
pub proof fn law_identifier_messages(kind: Seq<char>, s: Seq<char>)
    ensures
        s.len() == 0 ==> identifier_error(kind, s) == Some(
            ErrorV::InvalidSchema(kind + " cannot be empty"@),
        ),
        s.len() > 0 && encode_utf8(s).len() > 64 ==> identifier_error(kind, s) == Some(
            ErrorV::InvalidSchema(kind + " '"@ + s + "' exceeds 64 characters"@),
        ),
        0 < encode_utf8(s).len() <= 64 && s.len() > 0 && !is_letter(s[0]) && s[0] != '_'
            ==> identifier_error(kind, s) == Some(
            ErrorV::InvalidSchema(kind + " '"@ + s + "' must start with a letter or underscore"@),
        ),
{
}

/// A table definition is allowed exactly where the table and its columns have
/// identifiers for names, there is a column, and no two columns have the same
/// name, whatever the case of their letters.
pub proof fn law_definitions(table: Seq<char>, columns: Seq<ColumnV>)
    ensures
        schema_error(table, columns) is None <==> {
            &&& identifier_error("table name"@, table) is None
            &&& columns.len() > 0
            &&& forall|i: int|
                0 <= i < columns.len() ==> identifier_error(
                    "column name"@,
                    (#[trigger] columns[i]).name,
                ) is None
            &&& forall|i: int, j: int|
                0 <= i < j < columns.len() ==> lower_text((#[trigger] columns[i]).name)
                    != lower_text((#[trigger] columns[j]).name)
        },
{
    let rule = column_error(columns);
    lemma_no_failure(0, columns.len() as int, rule);
    if schema_error(table, columns) is None {
        assert forall|i: int| 0 <= i < columns.len() implies identifier_error(
            "column name"@,
            (#[trigger] columns[i]).name,
        ) is None by {
            assert(rule(i) is None);
        }
        assert forall|i: int, j: int| 0 <= i < j < columns.len() implies lower_text(
            (#[trigger] columns[i]).name,
        ) != lower_text((#[trigger] columns[j]).name) by {
            assert(rule(j) is None);
            assert(!repeats_earlier(columns, j));
        }
    } else if identifier_error("table name"@, table) is None && columns.len() > 0 {
        let i = choose|i: int| 0 <= i < columns.len() && (#[trigger] rule(i)) is Some;
        let c = columns[i];
        if identifier_error("column name"@, c.name) is None {
            assert(repeats_earlier(columns, i));
            let j = choose|j: int|
                0 <= j < i && lower_text(#[trigger] columns[j].name) == lower_text(columns[i].name);
            assert(lower_text(columns[j].name) == lower_text(columns[i].name));
        }
    }
}

/// The types are called INT and TEXT.
pub proof fn law_type_names()
    ensures
        type_text(ColumnType::Int) == seq!['I', 'N', 'T'],
        type_text(ColumnType::Text) == seq!['T', 'E', 'X', 'T'],
{
    reveal_strlit("INT");
    reveal_strlit("TEXT");
    assert("INT"@ =~= seq!['I', 'N', 'T']);
    assert("TEXT"@ =~= seq!['T', 'E', 'X', 'T']);
}

// ---- places ----

/// A path below another is that path, one slash, and the rest; a path that
/// starts with a slash stays as it is.
pub proof fn law_paths(a: Seq<char>, b: Seq<char>)
    ensures
        b.len() > 0 && b[0] == '/' ==> path_join(a, b) == b,
        !(b.len() > 0 && b[0] == '/') && a.len() > 0 && a.last() != '/' ==> path_join(a, b) == a
            + seq!['/'] + b,
        !(b.len() > 0 && b[0] == '/') && (a.len() == 0 || a.last() == '/') ==> path_join(a, b) == a
            + b,
{
    reveal_strlit("/");
    assert("/"@ =~= seq!['/']);
}

/// A new table gets the next identifier, and a directory under `tables` that is
/// called by it, in eight digits or more; the identifier is used up.
pub proof fn law_new_tables(c: CatalogV, name: Seq<char>)
    requires
        c.next_table_id < u64::MAX,
    ensures
        c.new_entry(name).id == c.next_table_id,
        c.new_entry(name).name == name,
        c.new_entry(name).dir == "tables/"@ + zero_padded(c.next_table_id as nat, 8),
        c.with_table(name).next_table_id == c.next_table_id + 1,
        c.with_table(name).root == c.root,
        c.without_table(name).next_table_id == c.next_table_id,
        c.without_table(name).root == c.root,
{
    reveal_strlit("tables");
    reveal_strlit("/");
    reveal_strlit("tables/");
    assert("tables"@ + "/"@ =~= "tables/"@);
}

/// The manifest of a new table holds its definition, column by column, each with
/// the pattern of its files, and no record identifier is used yet.
pub proof fn law_new_manifests(c: CatalogV, name: Seq<char>, schema: Seq<ColumnV>, size: u32)
    ensures
        ({
            let m = c.new_manifest(name, schema, size);
            &&& m.format_version == 1
            &&& m.table_id == c.next_table_id
            &&& m.name == name
            &&& m.storage_track == "column-store"@
            &&& m.row_group_size == size
            &&& m.next_rid == 0
            &&& m.columns.len() == schema.len()
            &&& forall|i: int|
                0 <= i < schema.len() ==> {
                    let column = #[trigger] m.columns[i];
                    &&& column.name == schema[i].name
                    &&& column.ty == schema[i].ty
                    &&& column.nullable == schema[i].nullable
                    &&& column.file == "{row_group}/"@ + schema[i].name + ".col"@
                }
            &&& m.schema() == schema
        }),
{
    assert(c.new_manifest(name, schema, size).schema() =~= schema);
}

/// Row groups hold 8192 rows unless something else is asked for.
pub proof fn law_row_group_size(n: u32)
    ensures
        chosen_size(TableOptions { row_group_size: None }) == 8192,
        chosen_size(TableOptions { row_group_size: Some(n) }) == n,
{
}

// ---- the catalog file ----

/// Looking up behind an entry that was put in.
proof fn lemma_find_put(tables: Seq<EntryV>, entry: EntryV, name: Seq<char>)
    ensures
        name == entry.name ==> find_entry(put_entry(tables, entry), name) is Some,
        name != entry.name ==> find_entry(put_entry(tables, entry), name) == find_entry(
            tables,
            name,
        ),
    decreases tables.len(),
{
    let put = put_entry(tables, entry);
    if tables.len() == 0 {
        assert(put.skip(1) =~= Seq::<EntryV>::empty());
        assert(find_entry(put.skip(1), name) is None);
    } else if tables[0].name == entry.name {
        assert(put.skip(1) =~= tables.skip(1));
    } else if crate::text::text_less(entry.name, tables[0].name) {
        assert(put.skip(1) =~= tables);
    } else {
        lemma_find_put(tables.skip(1), entry, name);
        assert(put.skip(1) =~= put_entry(tables.skip(1), entry));
    }
}

/// A file that was read keeps every table: a name is found in the catalog
/// exactly where the file lists it.
proof fn lemma_sorted_finds(tables: Seq<EntryV>, name: Seq<char>)
    ensures
        find_entry(sorted_entries(tables), name) is Some <==> exists|i: int|
            0 <= i < tables.len() && (#[trigger] tables[i]).name == name,
    decreases tables.len(),
{
    if tables.len() > 0 {
        let front = tables.drop_last();
        lemma_sorted_finds(front, name);
        lemma_find_put(sorted_entries(front), tables.last(), name);
        assert(tables[tables.len() - 1] == tables.last());
        assert forall|i: int| 0 <= i < front.len() implies front[i] == #[trigger] tables[i] by {}
        if exists|i: int| 0 <= i < front.len() && (#[trigger] front[i]).name == name {
            let i = choose|i: int| 0 <= i < front.len() && (#[trigger] front[i]).name == name;
            assert(tables[i].name == name);
        }
        if name != tables.last().name && exists|i: int|
            0 <= i < tables.len() && (#[trigger] tables[i]).name == name {
            let i = choose|i: int| 0 <= i < tables.len() && (#[trigger] tables[i]).name == name;
            assert(front[i].name == name);
        }
    }
}

/// A database without a catalog file has no tables, and its first identifier is
/// 1. A file of another storage or of a newer format is refused; any other is
/// taken, with every table that it lists and the identifier that comes next.
pub proof fn law_catalog_files(root: Seq<char>, f: CatalogFileV, name: Seq<char>)
    ensures
        loaded(root, None) == Ok::<CatalogV, ErrorV>(
            CatalogV { root, tables: Seq::empty(), next_table_id: 1 },
        ),
        loaded(root, Some(f)) is Ok <==> f.storage_track == "column-store"@ && f.format_version
            <= 1,
        loaded(root, Some(f)) matches Ok(c) ==> c.root == root && c.next_table_id == f.next_table_id
            && (c.dir_of(name) is Ok <==> exists|i: int|
            0 <= i < f.tables.len() && (#[trigger] f.tables[i]).name == name),
{
    lemma_sorted_finds(f.tables, name);
}

/// A catalog is written with its format, its storage, its tables and the
/// identifier that comes next.
pub proof fn law_written_catalogs(c: CatalogV)
    ensures
        c.file().format_version == 1,
        c.file().storage_track == "column-store"@,
        c.file().next_table_id == c.next_table_id,
        c.file().tables == c.tables,
{
}

// ---- the marker of a database ----

/// A directory is a database exactly where its marker can be read, says
/// `balik-db` and is of no format above 1; otherwise the status says what it is
/// instead.
pub proof fn law_database_status(meta: Metadata)
    ensures
        status_of(MetadataImage::Missing) is Missing,
        status_of(MetadataImage::Unreadable) is Unreadable,
        ({
            let status = status_of(MetadataImage::Loaded(meta));
            &&& status is WrongMagic <==> meta.magic@ != "balik-db"@
            &&& status is TooNew <==> meta.magic@ == "balik-db"@ && meta.format_version > 1
            &&& status is Ready <==> meta.magic@ == "balik-db"@ && meta.format_version <= 1
            &&& status matches StatusV::Ready { format_version, created } ==> format_version
                == meta.format_version && created == meta.created@
            &&& status matches StatusV::TooNew { found, supported } ==> found
                == meta.format_version && supported == 1
        }),
{
}

// ---- metadata files ----

/// A metadata file is read as the text behind its checksum; a wrong checksum and
/// bytes that are no text are errors that name the file.
pub proof fn law_metadata_texts(file: Seq<char>, bytes: Seq<u8>)
    ensures
        verified(bytes) matches Err(e) ==> metadata_text_of(file, bytes) == Err::<
            Seq<char>,
            ErrorV,
        >(ErrorV::InvalidSchema(file + ": "@ + e.shown())),
        verified(bytes) matches Ok(body) ==> if valid_utf8(body) {
            metadata_text_of(file, bytes) matches Ok(text) && encode_utf8(text) == body
        } else {
            metadata_text_of(file, bytes) == Err::<Seq<char>, ErrorV>(
                ErrorV::InvalidSchema(file + " is not valid UTF-8"@),
            )
        },
{
    if let Ok(body) = verified(bytes) {
        if valid_utf8(body) {
            decode_utf8_encode_utf8(body);
        }
    }
}

/// A marker without a checksum is read as it stands; one with a checksum only
/// where it is right.
pub proof fn law_markers(bytes: Seq<u8>)
    ensures
        !encode_utf8("# crc32 = 0x"@).is_prefix_of(bytes) && valid_utf8(bytes) ==> (marker_text_of(
            bytes,
        ) matches Some(text) && encode_utf8(text) == bytes),
        encode_utf8("# crc32 = 0x"@).is_prefix_of(bytes) && verified(bytes) is Err
            ==> marker_text_of(bytes) is None,
        encode_utf8("# crc32 = 0x"@).is_prefix_of(bytes) && verified(bytes) is Ok && valid_utf8(
            verified(bytes)->Ok_0,
        ) ==> (marker_text_of(bytes) matches Some(text) && encode_utf8(text) == verified(
            bytes,
        )->Ok_0),
{
    if valid_utf8(bytes) {
        decode_utf8_encode_utf8(bytes);
    }
    if let Ok(body) = verified(bytes) {
        if valid_utf8(body) {
            decode_utf8_encode_utf8(body);
        }
    }
}

/// A table is kept in the directory that its entry says, below the database; a
/// name without an entry is not found.
pub proof fn law_table_directories(c: CatalogV, i: int, name: Seq<char>)
    requires
        0 <= i < c.tables.len(),
        forall|j: int| 0 <= j < i ==> (#[trigger] c.tables[j]).name != c.tables[i].name,
    ensures
        c.dir_of(c.tables[i].name) == Ok::<Seq<char>, ErrorV>(
            path_join(c.root, c.tables[i].dir),
        ),
        (forall|j: int| 0 <= j < c.tables.len() ==> (#[trigger] c.tables[j]).name != name)
            ==> c.dir_of(name) == Err::<Seq<char>, ErrorV>(ErrorV::TableNotFound(name)),
{
    lemma_find_first(c.tables, i);
    if forall|j: int| 0 <= j < c.tables.len() ==> (#[trigger] c.tables[j]).name != name {
        lemma_find_none(c.tables, name);
    }
}

/// The first entry of a name is found.
proof fn lemma_find_first(tables: Seq<EntryV>, i: int)
    requires
        0 <= i < tables.len(),
        forall|j: int| 0 <= j < i ==> (#[trigger] tables[j]).name != tables[i].name,
    ensures
        find_entry(tables, tables[i].name) == Some(tables[i]),
    decreases i,
{
    if i > 0 {
        let rest = tables.skip(1);
        assert(tables[0].name != tables[i].name);
        assert forall|j: int| 0 <= j < i - 1 implies (#[trigger] rest[j]).name
            != rest[i - 1].name by {
            assert(rest[j] == tables[j + 1]);
        }
        lemma_find_first(rest, i - 1);
    }
}

/// Where no entry has a name, none is found.
proof fn lemma_find_none(tables: Seq<EntryV>, name: Seq<char>)
    requires
        forall|j: int| 0 <= j < tables.len() ==> (#[trigger] tables[j]).name != name,
    ensures
        find_entry(tables, name) is None,
    decreases tables.len(),
{
    if tables.len() > 0 {
        let rest = tables.skip(1);
        assert(tables[0].name != name);
        assert forall|j: int| 0 <= j < rest.len() implies (#[trigger] rest[j]).name != name by {
            assert(rest[j] == tables[j + 1]);
        }
        lemma_find_none(rest, name);
    }
}

// ---- what is refused ----

/// A table is created only where its definition is allowed and its name is free;
/// a name that is taken is refused as such.
pub proof fn law_creation(c: CatalogV, name: Seq<char>, schema: Seq<ColumnV>)
    ensures
        c.create_error(name, schema) is None <==> schema_error(name, schema) is None && c.dir_of(
            name,
        ) is Err,
        schema_error(name, schema) is None && c.dir_of(name) is Ok ==> c.create_error(name, schema)
            == Some(ErrorV::TableExists(name)),
        schema_error(name, schema) is Some ==> c.create_error(name, schema) == schema_error(
            name,
            schema,
        ),
{
}

/// What is said of a definition that is refused: the first character that no
/// name may hold, a table without columns, and a column whose name an earlier one
/// has.
pub proof fn law_definition_messages(
    kind: Seq<char>,
    s: Seq<char>,
    k: int,
    table: Seq<char>,
    columns: Seq<ColumnV>,
    i: int,
)
    ensures
        s.len() > 0 && encode_utf8(s).len() <= 64 && (is_letter(s[0]) || s[0] == '_') && 1 <= k
            < s.len() && !is_word(s[k]) && (forall|j: int| 1 <= j < k ==> is_word(#[trigger] s[j]))
            ==> identifier_error(kind, s) == Some(
            ErrorV::InvalidSchema(
                kind + " '"@ + s + "' contains invalid character '"@ + seq![s[k], '\''],
            ),
        ),
        identifier_error("table name"@, table) is None ==> schema_error(table, Seq::empty())
            == Some(ErrorV::InvalidSchema("schema must declare at least one column"@)),
        identifier_error("table name"@, table) is Some ==> schema_error(table, columns)
            == identifier_error("table name"@, table),
        0 <= i < columns.len() && identifier_error("column name"@, columns[i].name) is None
            && repeats_earlier(columns, i) ==> column_error(columns)(i) == Some(
            ErrorV::InvalidSchema("duplicate column name '"@ + columns[i].name + "'"@),
        ),
{
    if s.len() > 0 && 1 <= k < s.len() && !is_word(s[k]) && (forall|j: int|
        1 <= j < k ==> is_word(#[trigger] s[j])) {
        lemma_bad_char(s, 1);
        let c = bad_char(s, 1)->0;
        let m = choose|m: int|
            1 <= m < s.len() && #[trigger] s[m] == c && !is_word(c) && forall|j: int|
                1 <= j < m ==> is_word(#[trigger] s[j]);
        if m < k {
            assert(is_word(s[m]));
        } else if k < m {
            assert(is_word(s[k]));
        }
        assert(seq![c].push('\'') =~= seq![s[k], '\'']);
    }
}

/// A table index of another storage, or of a later format, is refused, each with
/// what it says.
pub proof fn law_refused_catalog_files(root: Seq<char>, f: CatalogFileV)
    ensures
        f.storage_track != "column-store"@ ==> loaded(root, Some(f)) == Err::<CatalogV, ErrorV>(
            ErrorV::InvalidSchema(
                "catalog storage_track is '"@ + f.storage_track + "', expected 'column-store'"@,
            ),
        ),
        f.storage_track == "column-store"@ && f.format_version > 1 ==> loaded(root, Some(f))
            == Err::<CatalogV, ErrorV>(
            ErrorV::InvalidSchema(
                "catalog format_version "@ + decimal(f.format_version as int)
                    + " is newer than supported (1)"@,
            ),
        ),
{
}

/// The manifest of a table is the one in its directory; where there is none, or
/// it cannot be read, or it is not valid, the error says so.
pub proof fn law_manifests(c: CatalogV, disk: DiskV, name: Seq<char>)
    ensures
        c.dir_of(name) matches Err(e) ==> c.manifest_of(disk, name) == Err::<ManifestV, ErrorV>(e),
        c.dir_of(name) is Ok ==> ({
            let found = disk.manifest(c.dir_of(name)->Ok_0);
            let read = c.manifest_of(disk, name);
            &&& found is Loaded ==> read == Ok::<ManifestV, ErrorV>(found->Loaded_0)
            &&& found is Invalid ==> read == Err::<ManifestV, ErrorV>(
                ErrorV::InvalidSchema(found->Invalid_0),
            )
            &&& found is Missing || found is Unreadable ==> read == Err::<ManifestV, ErrorV>(
                ErrorV::Io("read manifest.toml"@),
            )
        }),
{
}

} // verus!
