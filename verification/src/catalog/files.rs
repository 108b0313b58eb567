//! The metadata files of a database: the table index and one manifest per
//! table, as plain values.

use vstd::prelude::*;
use vstd::string::*;
use vstd::utf8::*;

use crate::catalog::schema::{Column, ColumnType, ColumnV};
use crate::checksum::{law_verify_accepts_wrapped, verified, verify, wrap, wrapped};
use crate::error::{Error, ErrorV};
use crate::text::{from_utf8, join2, join3};

verus! {

pub type TableId = u64;

/// One table of the index.
#[derive(Debug)]
pub struct TableEntry {
    pub id: TableId,
    pub name: String,
    /// Relative path from the database root, with forward slashes.
    pub dir: String,
}

/// The view of a [`TableEntry`].
pub struct EntryV {
    pub id: u64,
    pub name: Seq<char>,
    pub dir: Seq<char>,
}

impl View for TableEntry {
    type V = EntryV;

    open spec fn view(&self) -> EntryV {
        EntryV { id: self.id, name: self.name@, dir: self.dir@ }
    }
}

impl Clone for TableEntry {
    fn clone(&self) -> (r: Self)
        ensures
            r@ == self@,
    {
        TableEntry { id: self.id, name: self.name.clone(), dir: self.dir.clone() }
    }
}

/// The views of a run of entries.
pub open spec fn entries_view(entries: Seq<TableEntry>) -> Seq<EntryV> {
    Seq::new(entries.len(), |i: int| entries[i]@)
}

/// A copy of `entries`.
pub fn clone_entries(entries: &Vec<TableEntry>) -> (r: Vec<TableEntry>)
    ensures
        entries_view(r@) == entries_view(entries@),
{
    let mut r: Vec<TableEntry> = Vec::new();
    let mut i: usize = 0;
    while i < entries.len()
        invariant
            i <= entries@.len(),
            r@.len() == i,
            forall|j: int| 0 <= j < i ==> (#[trigger] r@[j])@ == entries@[j]@,
        decreases entries.len() - i,
    {
        r.push(entries[i].clone());
        i = i + 1;
    }
    assert(entries_view(r@) =~= entries_view(entries@));
    r
}

/// The table index, `catalog.toml`.
#[derive(Debug)]
pub struct CatalogFile {
    pub format_version: u32,
    pub storage_track: String,
    pub next_table_id: u64,
    pub tables: Vec<TableEntry>,
}

/// The view of a [`CatalogFile`].
pub struct CatalogFileV {
    pub format_version: u32,
    pub storage_track: Seq<char>,
    pub next_table_id: u64,
    pub tables: Seq<EntryV>,
}

impl View for CatalogFile {
    type V = CatalogFileV;

    open spec fn view(&self) -> CatalogFileV {
        CatalogFileV {
            format_version: self.format_version,
            storage_track: self.storage_track@,
            next_table_id: self.next_table_id,
            tables: entries_view(self.tables@),
        }
    }
}

impl Clone for CatalogFile {
    fn clone(&self) -> (r: Self)
        ensures
            r@ == self@,
    {
        CatalogFile {
            format_version: self.format_version,
            storage_track: self.storage_track.clone(),
            next_table_id: self.next_table_id,
            tables: clone_entries(&self.tables),
        }
    }
}

/// One column of a manifest.
#[derive(Debug)]
pub struct ManifestColumn {
    pub name: String,
    pub ty: ColumnType,
    pub nullable: bool,
    /// Templated path, relative to the table dir. `{row_group}` stands for the
    /// zero-padded row-group id.
    pub file: String,
}

/// The view of a [`ManifestColumn`].
pub struct ManifestColumnV {
    pub name: Seq<char>,
    pub ty: ColumnType,
    pub nullable: bool,
    pub file: Seq<char>,
}

impl View for ManifestColumn {
    type V = ManifestColumnV;

    open spec fn view(&self) -> ManifestColumnV {
        ManifestColumnV {
            name: self.name@,
            ty: self.ty,
            nullable: self.nullable,
            file: self.file@,
        }
    }
}

impl Clone for ManifestColumn {
    fn clone(&self) -> (r: Self)
        ensures
            r@ == self@,
    {
        ManifestColumn {
            name: self.name.clone(),
            ty: self.ty,
            nullable: self.nullable,
            file: self.file.clone(),
        }
    }
}

/// The views of a run of manifest columns.
pub open spec fn manifest_columns_view(columns: Seq<ManifestColumn>) -> Seq<ManifestColumnV> {
    Seq::new(columns.len(), |i: int| columns[i]@)
}

/// A table's manifest, `manifest.toml`: its schema, its layout, and how far
/// its record identifiers have been given out.
#[derive(Debug)]
pub struct ManifestFile {
    pub format_version: u32,
    pub table_id: TableId,
    pub name: String,
    pub storage_track: String,
    pub row_group_size: u32,
    pub next_rid: u64,
    pub columns: Vec<ManifestColumn>,
}

/// The view of a [`ManifestFile`].
pub struct ManifestV {
    pub format_version: u32,
    pub table_id: u64,
    pub name: Seq<char>,
    pub storage_track: Seq<char>,
    pub row_group_size: u32,
    pub next_rid: u64,
    pub columns: Seq<ManifestColumnV>,
}

impl View for ManifestFile {
    type V = ManifestV;

    open spec fn view(&self) -> ManifestV {
        ManifestV {
            format_version: self.format_version,
            table_id: self.table_id,
            name: self.name@,
            storage_track: self.storage_track@,
            row_group_size: self.row_group_size,
            next_rid: self.next_rid,
            columns: manifest_columns_view(self.columns@),
        }
    }
}

impl Clone for ManifestFile {
    fn clone(&self) -> (r: Self)
        ensures
            r@ == self@,
    {
        let mut columns: Vec<ManifestColumn> = Vec::new();
        let mut i: usize = 0;
        while i < self.columns.len()
            invariant
                i <= self.columns@.len(),
                columns@.len() == i,
                forall|j: int| 0 <= j < i ==> (#[trigger] columns@[j])@ == self.columns@[j]@,
            decreases self.columns.len() - i,
        {
            columns.push(self.columns[i].clone());
            i = i + 1;
        }
        assert(manifest_columns_view(columns@) =~= manifest_columns_view(self.columns@));
        ManifestFile {
            format_version: self.format_version,
            table_id: self.table_id,
            name: self.name.clone(),
            storage_track: self.storage_track.clone(),
            row_group_size: self.row_group_size,
            next_rid: self.next_rid,
            columns,
        }
    }
}

impl ManifestV {
    /// The schema that the manifest records.
    pub open spec fn schema(self) -> Seq<ColumnV> {
        Seq::new(
            self.columns.len(),
            |i: int|
                ColumnV {
                    name: self.columns[i].name,
                    ty: self.columns[i].ty,
                    nullable: self.columns[i].nullable,
                },
        )
    }
}

impl ManifestFile {
    /// The columns of the schema that the manifest records.
    pub fn schema_columns(&self) -> (r: Vec<Column>)
        ensures
            crate::catalog::schema::columns_view(r@) == self@.schema(),
    {
        let mut r: Vec<Column> = Vec::new();
        let mut i: usize = 0;
        while i < self.columns.len()
            invariant
                i <= self.columns@.len(),
                r@.len() == i,
                forall|j: int| 0 <= j < i ==> (#[trigger] r@[j])@ == self@.schema()[j],
            decreases self.columns.len() - i,
        {
            let c = &self.columns[i];
            r.push(Column { name: c.name.clone(), ty: c.ty, nullable: c.nullable });
            i = i + 1;
        }
        assert(crate::catalog::schema::columns_view(r@) =~= self@.schema());
        r
    }
}

/// What stands where a table's manifest should: nothing, a file that the
/// operating system would not read (with what it said), a file that could not be
/// read as a manifest (with the reason), or the manifest.
#[derive(Debug)]
pub enum ManifestImage {
    Missing,
    Unreadable(String),
    Invalid(String),
    Loaded(ManifestFile),
}

/// The view of a [`ManifestImage`].
pub enum ManifestImageV {
    Missing,
    Unreadable(Seq<char>),
    Invalid(Seq<char>),
    Loaded(ManifestV),
}

impl View for ManifestImage {
    type V = ManifestImageV;

    open spec fn view(&self) -> ManifestImageV {
        match self {
            ManifestImage::Missing => ManifestImageV::Missing,
            ManifestImage::Unreadable(m) => ManifestImageV::Unreadable(m@),
            ManifestImage::Invalid(m) => ManifestImageV::Invalid(m@),
            ManifestImage::Loaded(m) => ManifestImageV::Loaded(m@),
        }
    }
}

// ---- the files as bytes ----

/// The text of the metadata file `file`: its checksum holds, and what is behind
/// it is UTF-8.
pub open spec fn metadata_text_of(file: Seq<char>, bytes: Seq<u8>) -> Result<Seq<char>, ErrorV> {
    match verified(bytes) {
        Err(e) => Err(ErrorV::InvalidSchema(file + ": "@ + e.shown())),
        Ok(body) => if valid_utf8(body) {
            Ok(decode_utf8(body))
        } else {
            Err(ErrorV::InvalidSchema(file + " is not valid UTF-8"@))
        },
    }
}

/// Check the bytes of the metadata file `file` and give its text.
pub fn metadata_text(file: &str, bytes: &[u8]) -> (r: Result<String, Error>)
    ensures
        match r {
            Ok(text) => metadata_text_of(file@, bytes@) == Ok::<Seq<char>, ErrorV>(text@),
            Err(e) => metadata_text_of(file@, bytes@) == Err::<Seq<char>, ErrorV>(e@),
        },
{
    match verify(bytes) {
        Err(e) => {
            let shown = e.to_string();
            let m = join3(file, ": ", shown.as_str());
            Err(Error::invalid_schema(m.as_str()))
        },
        Ok(body) => match from_utf8(body) {
            Some(text) => Ok(text),
            None => {
                let m = join2(file, " is not valid UTF-8");
                Err(Error::invalid_schema(m.as_str()))
            },
        },
    }
}

/// The bytes of a metadata file with this text.
pub fn metadata_bytes(text: &str) -> (r: Vec<u8>)
    ensures
        r@ == wrapped(encode_utf8(text@)),
{
    wrap(text.as_bytes())
}

/// A metadata file that was written reads back as the text that was written.
pub proof fn law_metadata_round_trip(file: Seq<char>, text: Seq<char>)
    ensures
        metadata_text_of(file, wrapped(encode_utf8(text))) == Ok::<Seq<char>, ErrorV>(text),
{
    law_verify_accepts_wrapped(encode_utf8(text));
    encode_utf8_valid_utf8(text);
    encode_utf8_decode_utf8(text);
}

} // verus!
