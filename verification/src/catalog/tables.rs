//! The catalog of tables of a column-store database.
//!
//! On-disk layout (rooted at the database directory):
//!
//! ```text
//!   catalog.toml            # the index of tables
//!   tables/
//!     00000001/
//!       manifest.toml       # this table's schema and layout
//!       row_groups/         # one directory per row group
//! ```
//!
//! A table is published in the index after its manifest is in place, and taken
//! out of the index before its directory is removed, so a crash in between
//! leaves an orphan directory and never a dangling entry.

use vstd::prelude::*;
use vstd::string::*;

use crate::catalog::files::{
    clone_entries, entries_view, manifest_columns_view, CatalogFile, CatalogFileV, EntryV,
    ManifestColumn, ManifestColumnV, ManifestFile, ManifestImage, ManifestImageV, ManifestV,
    TableEntry, TableId,
};
use crate::catalog::schema::{schema_error, ColumnV, Schema};
use crate::disk::{Disk, DiskV, EffectV};
use crate::error::{Error, ErrorV};
use crate::text::{
    chars_of, decimal, join2, join3, less, same, text_less, texts, u32_text, zero_padded,
    zero_padded_text,
};

verus! {

pub const MANIFEST_FILE: &'static str = "manifest.toml";

pub const CATALOG_FILE: &'static str = "catalog.toml";

pub const TABLES_DIR: &'static str = "tables";

pub const STORAGE_TRACK: &'static str = "column-store";

pub const FORMAT_VERSION: u32 = 1;

pub const DEFAULT_ROW_GROUP_SIZE: u32 = 8192;

#[derive(Debug, Clone, Copy, Default)]
pub struct TableOptions {
    pub row_group_size: Option<u32>,
}

/// The row-group size that options ask for.
pub open spec fn chosen_size(options: TableOptions) -> u32 {
    match options.row_group_size {
        Some(n) => n,
        None => DEFAULT_ROW_GROUP_SIZE,
    }
}

/// Everything that is known of a single table.
#[derive(Debug)]
pub struct TableDescriptor {
    pub id: TableId,
    pub name: String,
    pub schema: Schema,
    pub row_group_size: u32,
    pub storage_track: String,
    /// Path of the table directory.
    pub dir: String,
    /// Next record id to assign. The insert path reads and advances this.
    pub next_rid: u64,
}

/// The view of a [`TableDescriptor`].
pub struct DescriptorV {
    pub id: u64,
    pub name: Seq<char>,
    pub schema: Seq<ColumnV>,
    pub row_group_size: u32,
    pub storage_track: Seq<char>,
    pub dir: Seq<char>,
    pub next_rid: u64,
}

impl View for TableDescriptor {
    type V = DescriptorV;

    open spec fn view(&self) -> DescriptorV {
        DescriptorV {
            id: self.id,
            name: self.name@,
            schema: self.schema@,
            row_group_size: self.row_group_size,
            storage_track: self.storage_track@,
            dir: self.dir@,
            next_rid: self.next_rid,
        }
    }
}

// ---- paths ----

/// `b` below the directory `a`: an absolute `b` stands alone, and no slash is
/// doubled.
pub open spec fn path_join(a: Seq<char>, b: Seq<char>) -> Seq<char> {
    if b.len() > 0 && b[0] == '/' {
        b
    } else if a.len() == 0 || a.last() == '/' {
        a + b
    } else {
        a + "/"@ + b
    }
}

/// `b` below the directory `a`.
pub fn join_path(a: &str, b: &str) -> (r: String)
    ensures
        r@ == path_join(a@, b@),
{
    let left = chars_of(a);
    let right = chars_of(b);
    if right.len() > 0 && right[0] == '/' {
        String::from_str(b)
    } else if left.len() == 0 || left[left.len() - 1] == '/' {
        join2(a, b)
    } else {
        join3(a, "/", b)
    }
}

// ---- the index as a sorted list ----

/// The entry of the table `name`.
pub open spec fn find_entry(tables: Seq<EntryV>, name: Seq<char>) -> Option<EntryV>
    decreases tables.len(),
{
    if tables.len() == 0 {
        None
    } else if tables[0].name == name {
        Some(tables[0])
    } else {
        find_entry(tables.skip(1), name)
    }
}

/// The entries with `entry` in its place by name; it replaces one of the same
/// name.
pub open spec fn put_entry(tables: Seq<EntryV>, entry: EntryV) -> Seq<EntryV>
    decreases tables.len(),
{
    if tables.len() == 0 {
        seq![entry]
    } else if tables[0].name == entry.name {
        seq![entry] + tables.skip(1)
    } else if text_less(entry.name, tables[0].name) {
        seq![entry] + tables
    } else {
        seq![tables[0]] + put_entry(tables.skip(1), entry)
    }
}

/// The entries without that of the table `name`.
pub open spec fn drop_entry(tables: Seq<EntryV>, name: Seq<char>) -> Seq<EntryV>
    decreases tables.len(),
{
    if tables.len() == 0 {
        tables
    } else if tables[0].name == name {
        tables.skip(1)
    } else {
        seq![tables[0]] + drop_entry(tables.skip(1), name)
    }
}

/// The entries of an index file, each put in its place in turn.
pub open spec fn sorted_entries(tables: Seq<EntryV>) -> Seq<EntryV>
    decreases tables.len(),
{
    if tables.len() == 0 {
        Seq::empty()
    } else {
        put_entry(sorted_entries(tables.drop_last()), tables.last())
    }
}

/// Where the entry of `name` stands.
pub fn find_index(tables: &Vec<TableEntry>, name: &str) -> (r: Option<usize>)
    ensures
        match r {
            Some(i) => {
                &&& i < tables@.len()
                &&& tables@[i as int].name@ == name@
                &&& find_entry(entries_view(tables@), name@) == Some(tables@[i as int]@)
                &&& forall|j: int| 0 <= j < i ==> (#[trigger] tables@[j]).name@ != name@
            },
            None => find_entry(entries_view(tables@), name@) is None,
        },
{
    let ghost all = entries_view(tables@);
    let mut i: usize = 0;
    assert(all.skip(0) =~= all);
    while i < tables.len()
        invariant
            all == entries_view(tables@),
            i <= tables@.len(),
            find_entry(all, name@) == find_entry(all.skip(i as int), name@),
            forall|j: int| 0 <= j < i ==> (#[trigger] tables@[j]).name@ != name@,
        decreases tables.len() - i,
    {
        assert(all.skip(i as int)[0] == tables@[i as int]@);
        assert(all.skip(i as int).skip(1) =~= all.skip(i + 1));
        if same(tables[i].name.as_str(), name) {
            return Some(i);
        }
        i = i + 1;
    }
    None
}

/// Put `entry` in its place.
fn put(tables: &mut Vec<TableEntry>, entry: TableEntry)
    ensures
        entries_view(final(tables)@) == put_entry(entries_view(old(tables)@), entry@),
{
    let ghost all = entries_view(tables@);
    let mut i: usize = 0;
    let mut replace = false;
    assert(all.skip(0) =~= all);
    assert(all.take(0) =~= Seq::<EntryV>::empty());
    assert(put_entry(all, entry@) =~= all.take(0) + put_entry(all.skip(0), entry@));
    while i < tables.len()
        invariant_except_break
            !replace,
        invariant
            all == entries_view(tables@),
            i <= tables@.len(),
            put_entry(all, entry@) == all.take(i as int) + put_entry(all.skip(i as int), entry@),
        ensures
            i <= tables@.len(),
            replace ==> i < tables@.len() && tables@[i as int].name@ == entry.name@,
            !replace ==> i == tables@.len() || (tables@[i as int].name@ != entry.name@
                && text_less(entry.name@, tables@[i as int].name@)),
        decreases tables.len() - i,
    {
        let name = tables[i].name.as_str();
        if same(name, entry.name.as_str()) {
            replace = true;
            break ;
        }
        if less(entry.name.as_str(), name) {
            break ;
        }
        proof {
            let tail = all.skip(i as int);
            assert(tail[0] == tables@[i as int]@);
            assert(tail.skip(1) =~= all.skip(i + 1));
            assert(all.take(i as int) + (seq![tail[0]] + put_entry(all.skip(i + 1), entry@))
                =~= all.take(i + 1) + put_entry(all.skip(i + 1), entry@));
        }
        i = i + 1;
    }
    let ghost before = tables@;
    let ghost tail = all.skip(i as int);
    if i < tables.len() {
        assert(tail[0] == tables@[i as int]@);
    }
    if replace {
        tables.set(i, entry);
        assert(entries_view(tables@) =~= all.take(i as int) + (seq![entry@] + tail.skip(1)));
    } else {
        tables.insert(i, entry);
        assert(entries_view(tables@) =~= all.take(i as int) + (seq![entry@] + tail));
        assert(tail.len() == 0 ==> seq![entry@] + tail =~= seq![entry@]);
    }
}

/// The entries before `i` and the entries without `name` from `i` on.
pub proof fn lemma_drop_entry_at(tables: Seq<EntryV>, i: int, name: Seq<char>)
    requires
        0 <= i < tables.len(),
        tables[i].name == name,
        forall|j: int| 0 <= j < i ==> (#[trigger] tables[j]).name != name,
    ensures
        drop_entry(tables, name) == tables.remove(i),
    decreases i,
{
    if i == 0 {
        assert(tables.remove(0) =~= tables.skip(1));
    } else {
        assert(tables[0].name != name);
        lemma_drop_entry_at(tables.skip(1), i - 1, name);
        assert(seq![tables[0]] + tables.skip(1).remove(i - 1) =~= tables.remove(i));
    }
}

// ---- the catalog ----

/// The index of the tables of a database, kept in memory.
#[derive(Debug)]
pub struct Catalog {
    root: String,
    tables: Vec<TableEntry>,
    next_table_id: u64,
}

/// The view of a [`Catalog`].
pub struct CatalogV {
    pub root: Seq<char>,
    /// The entries, sorted by name.
    pub tables: Seq<EntryV>,
    pub next_table_id: u64,
}

impl View for Catalog {
    type V = CatalogV;

    closed spec fn view(&self) -> CatalogV {
        CatalogV {
            root: self.root@,
            tables: entries_view(self.tables@),
            next_table_id: self.next_table_id,
        }
    }
}

/// What opening the catalog gives: an empty one where no index file is there
/// yet, and otherwise what the file says.
pub open spec fn loaded(root: Seq<char>, file: Option<CatalogFileV>) -> Result<CatalogV, ErrorV> {
    match file {
        None => Ok(CatalogV { root, tables: Seq::empty(), next_table_id: 1 }),
        Some(f) => if f.storage_track != STORAGE_TRACK@ {
            Err(
                ErrorV::InvalidSchema(
                    "catalog storage_track is '"@ + f.storage_track
                        + "', expected 'column-store'"@,
                ),
            )
        } else if f.format_version > FORMAT_VERSION {
            Err(
                ErrorV::InvalidSchema(
                    "catalog format_version "@ + decimal(f.format_version as int)
                        + " is newer than supported (1)"@,
                ),
            )
        } else {
            Ok(
                CatalogV {
                    root,
                    tables: sorted_entries(f.tables),
                    next_table_id: f.next_table_id,
                },
            )
        },
    }
}

impl CatalogV {
    /// The index file that records this catalog.
    pub open spec fn file(self) -> CatalogFileV {
        CatalogFileV {
            format_version: FORMAT_VERSION,
            storage_track: STORAGE_TRACK@,
            next_table_id: self.next_table_id,
            tables: self.tables,
        }
    }

    /// The directory of the table `name`.
    pub open spec fn dir_of(self, name: Seq<char>) -> Result<Seq<char>, ErrorV> {
        match find_entry(self.tables, name) {
            None => Err(ErrorV::TableNotFound(name)),
            Some(entry) => Ok(path_join(self.root, entry.dir)),
        }
    }

    /// The manifest of the table `name`.
    pub open spec fn manifest_of(self, disk: DiskV, name: Seq<char>) -> Result<ManifestV, ErrorV> {
        match self.dir_of(name) {
            Err(e) => Err(e),
            Ok(dir) => match disk.manifest(dir) {
                ManifestImageV::Missing => Err(ErrorV::Io("read manifest.toml"@)),
                ManifestImageV::Unreadable(_) => Err(ErrorV::Io("read manifest.toml"@)),
                ManifestImageV::Invalid(m) => Err(ErrorV::InvalidSchema(m)),
                ManifestImageV::Loaded(m) => Ok(m),
            },
        }
    }

    /// All that is known of the table `name`.
    pub open spec fn described(self, disk: DiskV, name: Seq<char>) -> Result<DescriptorV, ErrorV> {
        match self.manifest_of(disk, name) {
            Err(e) => Err(e),
            Ok(m) => Ok(
                DescriptorV {
                    id: m.table_id,
                    name: m.name,
                    schema: m.schema(),
                    row_group_size: m.row_group_size,
                    storage_track: m.storage_track,
                    dir: self.dir_of(name)->Ok_0,
                    next_rid: m.next_rid,
                },
            ),
        }
    }

    /// The entry that a new table gets.
    pub open spec fn new_entry(self, name: Seq<char>) -> EntryV {
        EntryV {
            id: self.next_table_id,
            name,
            dir: TABLES_DIR@ + "/"@ + zero_padded(self.next_table_id as nat, 8),
        }
    }

    /// The manifest that a new table gets.
    pub open spec fn new_manifest(
        self,
        name: Seq<char>,
        schema: Seq<ColumnV>,
        row_group_size: u32,
    ) -> ManifestV {
        ManifestV {
            format_version: FORMAT_VERSION,
            table_id: self.next_table_id,
            name,
            storage_track: STORAGE_TRACK@,
            row_group_size,
            next_rid: 0,
            columns: Seq::new(
                schema.len(),
                |i: int|
                    ManifestColumnV {
                        name: schema[i].name,
                        ty: schema[i].ty,
                        nullable: schema[i].nullable,
                        file: "{row_group}/"@ + schema[i].name + ".col"@,
                    },
            ),
        }
    }

    /// Why a table cannot be created, if so.
    pub open spec fn create_error(self, name: Seq<char>, schema: Seq<ColumnV>) -> Option<ErrorV> {
        match schema_error(name, schema) {
            Some(e) => Some(e),
            None => if find_entry(self.tables, name) is Some {
                Some(ErrorV::TableExists(name))
            } else {
                None
            },
        }
    }

    /// The catalog with a new table in it.
    pub open spec fn with_table(self, name: Seq<char>) -> CatalogV {
        CatalogV {
            root: self.root,
            tables: put_entry(self.tables, self.new_entry(name)),
            next_table_id: (self.next_table_id + 1) as u64,
        }
    }

    /// What creating a table does to the files: its manifest first, then the
    /// index that publishes it.
    pub open spec fn create_effects(
        self,
        name: Seq<char>,
        schema: Seq<ColumnV>,
        options: TableOptions,
    ) -> Seq<EffectV> {
        seq![
            EffectV::WriteManifest {
                dir: path_join(self.root, self.new_entry(name).dir),
                manifest: self.new_manifest(name, schema, chosen_size(options)),
            },
            EffectV::WriteCatalog(self.with_table(name).file()),
        ]
    }

    /// The catalog without the table `name`.
    pub open spec fn without_table(self, name: Seq<char>) -> CatalogV {
        CatalogV {
            root: self.root,
            tables: drop_entry(self.tables, name),
            next_table_id: self.next_table_id,
        }
    }

    /// What dropping a table does to the files: the index first, then the
    /// table's directory.
    pub open spec fn drop_effects(self, name: Seq<char>) -> Seq<EffectV> {
        match self.dir_of(name) {
            Err(e) => Seq::empty(),
            Ok(dir) => seq![
                EffectV::WriteCatalog(self.without_table(name).file()),
                EffectV::RemoveDir(dir),
            ],
        }
    }

    /// What recording a table's next record identifier does to the files.
    pub open spec fn rid_effects(self, disk: DiskV, name: Seq<char>, next_rid: u64) -> Seq<
        EffectV,
    > {
        match self.manifest_of(disk, name) {
            Err(e) => Seq::empty(),
            Ok(m) => seq![
                EffectV::WriteManifest {
                    dir: self.dir_of(name)->Ok_0,
                    manifest: ManifestV { next_rid, ..m },
                },
            ],
        }
    }
}

/// Running `effects` took `before` to `after`, and they were logged in order.
pub open spec fn performed(before: Disk, after: Disk, effects: Seq<EffectV>) -> bool {
    &&& after@ == before@.after_all(effects)
    &&& after.log_view() == before.log_view() + effects
}

impl Catalog {
    /// Open the catalog of the database at `db_root`, given its index file. If
    /// there is none yet (fresh `init`), the catalog is empty; it is written
    /// with the first table.
    pub fn load(db_root: &str, file: Option<CatalogFile>) -> (r: Result<Self, Error>)
        ensures
            match r {
                Ok(c) => loaded(
                    db_root@,
                    match file {
                        Some(f) => Some(f@),
                        None => None,
                    },
                ) == Ok::<_, ErrorV>(c@),
                Err(e) => loaded(
                    db_root@,
                    match file {
                        Some(f) => Some(f@),
                        None => None,
                    },
                ) == Err::<CatalogV, ErrorV>(e@),
            },
    {
        let root = String::from_str(db_root);
        let file = match file {
            None => {
                let c = Catalog { root, tables: Vec::new(), next_table_id: 1 };
                assert(c@.tables =~= Seq::<EntryV>::empty());
                return Ok(c);
            },
            Some(f) => f,
        };
        if !same(file.storage_track.as_str(), STORAGE_TRACK) {
            let message = join3(
                "catalog storage_track is '",
                file.storage_track.as_str(),
                "', expected 'column-store'",
            );
            return Err(Error::invalid_schema(message.as_str()));
        }
        if file.format_version > FORMAT_VERSION {
            let version = u32_text(file.format_version);
            let message = join3(
                "catalog format_version ",
                version.as_str(),
                " is newer than supported (1)",
            );
            return Err(Error::invalid_schema(message.as_str()));
        }
        let ghost all = file@.tables;
        let mut tables: Vec<TableEntry> = Vec::new();
        let mut i: usize = 0;
        assert(all.take(0) =~= Seq::<EntryV>::empty());
        assert(entries_view(tables@) =~= Seq::<EntryV>::empty());
        while i < file.tables.len()
            invariant
                all == entries_view(file.tables@),
                i <= file.tables@.len(),
                entries_view(tables@) == sorted_entries(all.take(i as int)),
            decreases file.tables.len() - i,
        {
            assert(all.take(i + 1).drop_last() =~= all.take(i as int));
            put(&mut tables, file.tables[i].clone());
            i = i + 1;
        }
        assert(all.take(i as int) =~= all);
        Ok(Catalog { root, tables, next_table_id: file.next_table_id })
    }

    /// The index file that records this catalog.
    pub fn to_file(&self) -> (f: CatalogFile)
        ensures
            f@ == self@.file(),
    {
        CatalogFile {
            format_version: FORMAT_VERSION,
            storage_track: String::from_str(STORAGE_TRACK),
            next_table_id: self.next_table_id,
            tables: clone_entries(&self.tables),
        }
    }

    /// The identifier that the next new table gets.
    pub fn next_table_id(&self) -> (r: TableId)
        ensures
            r == self@.next_table_id,
    {
        self.next_table_id
    }

    /// The directory that the next new table gets.
    pub fn next_dir(&self) -> (r: String)
        ensures
            forall|name: Seq<char>|
                r@ == path_join(self@.root, (#[trigger] self@.new_entry(name)).dir),
    {
        let digits = zero_padded_text(self.next_table_id, 8);
        let dir_rel = join3(TABLES_DIR, "/", digits.as_str());
        join_path(self.root.as_str(), dir_rel.as_str())
    }

    /// Create a table: check its definition, write its manifest, and publish it
    /// in the index. Table identifiers are handed out in order and never again.
    pub fn create_table(
        &mut self,
        disk: &mut Disk,
        name: &str,
        schema: &Schema,
        options: TableOptions,
    ) -> (r: Result<TableId, Error>)
        requires
            old(self)@.next_table_id < u64::MAX,
        ensures
            match r {
                Err(e) => {
                    &&& old(self)@.create_error(name@, schema@) == Some(e@)
                    &&& final(self)@ == old(self)@
                    &&& *final(disk) == *old(disk)
                },
                Ok(id) => {
                    &&& old(self)@.create_error(name@, schema@) is None
                    &&& id == old(self)@.next_table_id
                    &&& final(self)@ == old(self)@.with_table(name@)
                    &&& performed(
                        *old(disk),
                        *final(disk),
                        old(self)@.create_effects(name@, schema@, options),
                    )
                },
            },
    {
        match schema.validate(name) {
            Err(e) => {
                return Err(e);
            },
            Ok(_) => {},
        }
        if find_index(&self.tables, name).is_some() {
            return Err(Error::table_exists(name));
        }
        let ghost before = self@;
        let ghost disk_before = *disk;
        let id: u64 = self.next_table_id;
        let digits = zero_padded_text(id, 8);
        let dir_rel = join3(TABLES_DIR, "/", digits.as_str());
        let dir = self.next_dir();
        assert(dir@ == path_join(before.root, before.new_entry(name@).dir));
        let row_group_size: u32 = match options.row_group_size {
            Some(n) => n,
            None => DEFAULT_ROW_GROUP_SIZE,
        };
        let mut columns: Vec<ManifestColumn> = Vec::new();
        let mut i: usize = 0;
        let ghost wanted = before.new_manifest(name@, schema@, row_group_size);
        while i < schema.columns.len()
            invariant
                i <= schema.columns@.len(),
                columns@.len() == i,
                wanted == before.new_manifest(name@, schema@, row_group_size),
                forall|j: int| 0 <= j < i ==> (#[trigger] columns@[j])@ == wanted.columns[j],
            decreases schema.columns.len() - i,
        {
            let c = &schema.columns[i];
            let file = join3("{row_group}/", c.name.as_str(), ".col");
            assert(schema@[i as int] == c@);
            columns.push(
                ManifestColumn { name: c.name.clone(), ty: c.ty, nullable: c.nullable, file },
            );
            i = i + 1;
        }
        assert(manifest_columns_view(columns@) =~= wanted.columns);
        let manifest = ManifestFile {
            format_version: FORMAT_VERSION,
            table_id: id,
            name: String::from_str(name),
            storage_track: String::from_str(STORAGE_TRACK),
            row_group_size,
            next_rid: 0,
            columns,
        };
        disk.write_manifest(dir.as_str(), manifest);
        put(&mut self.tables, TableEntry { id, name: String::from_str(name), dir: dir_rel });
        self.next_table_id = id + 1;
        let file = self.to_file();
        disk.write_catalog(file);
        proof {
            let effects = before.create_effects(name@, schema@, options);
            assert(self@ == before.with_table(name@));
            assert(effects.drop_last() =~= seq![effects[0]]);
            assert(effects.drop_last().drop_last() =~= Seq::<EffectV>::empty());
            reveal_with_fuel(DiskV::after_all, 3);
            assert(disk.log_view() =~= disk_before.log_view() + effects);
        }
        Ok(id)
    }

    /// The names of the tables, in order.
    pub fn list_tables(&self) -> (r: Vec<String>)
        ensures
            texts(r@) == Seq::new(self@.tables.len(), |i: int| self@.tables[i].name),
    {
        let mut r: Vec<String> = Vec::new();
        let mut i: usize = 0;
        while i < self.tables.len()
            invariant
                i <= self.tables@.len(),
                r@.len() == i,
                forall|j: int| 0 <= j < i ==> (#[trigger] r@[j])@ == self@.tables[j].name,
            decreases self.tables.len() - i,
        {
            r.push(self.tables[i].name.clone());
            i = i + 1;
        }
        assert(texts(r@) =~= Seq::new(self@.tables.len(), |i: int| self@.tables[i].name));
        r
    }

    /// Path of a table's directory.
    pub fn table_dir(&self, name: &str) -> (r: Result<String, Error>)
        ensures
            match r {
                Ok(dir) => self@.dir_of(name@) == Ok::<_, ErrorV>(dir@),
                Err(e) => self@.dir_of(name@) == Err::<Seq<char>, ErrorV>(e@),
            },
    {
        match find_index(&self.tables, name) {
            None => Err(Error::no_such_table(name)),
            Some(i) => Ok(join_path(self.root.as_str(), self.tables[i].dir.as_str())),
        }
    }

    /// Path of a table's manifest file.
    pub fn manifest_path(&self, name: &str) -> (r: Result<String, Error>)
        ensures
            match r {
                Ok(path) => self@.dir_of(name@) matches Ok(dir) && path@ == path_join(
                    dir,
                    MANIFEST_FILE@,
                ),
                Err(e) => self@.dir_of(name@) == Err::<Seq<char>, ErrorV>(e@),
            },
    {
        match self.table_dir(name) {
            Err(e) => Err(e),
            Ok(dir) => Ok(join_path(dir.as_str(), MANIFEST_FILE)),
        }
    }

    /// A table's manifest.
    pub fn read_manifest(&self, disk: &Disk, name: &str) -> (r: Result<ManifestFile, Error>)
        ensures
            match r {
                Ok(m) => self@.manifest_of(disk@, name@) == Ok::<_, ErrorV>(m@),
                Err(e) => self@.manifest_of(disk@, name@) == Err::<ManifestV, ErrorV>(e@),
            },
    {
        match self.table_dir(name) {
            Err(e) => Err(e),
            Ok(dir) => match disk.manifest(dir.as_str()) {
                ManifestImage::Missing => Err(Error::missing_file("read manifest.toml")),
                ManifestImage::Unreadable(m) => Err(
                    Error::unreadable_file("read manifest.toml", m.as_str()),
                ),
                ManifestImage::Invalid(m) => Err(Error::invalid_schema(m.as_str())),
                ManifestImage::Loaded(m) => Ok(m.clone()),
            },
        }
    }

    /// All that is known of a table.
    pub fn describe_table(&self, disk: &Disk, name: &str) -> (r: Result<TableDescriptor, Error>)
        ensures
            match r {
                Ok(d) => self@.described(disk@, name@) == Ok::<_, ErrorV>(d@),
                Err(e) => self@.described(disk@, name@) == Err::<DescriptorV, ErrorV>(e@),
            },
    {
        let m = match self.read_manifest(disk, name) {
            Err(e) => {
                return Err(e);
            },
            Ok(m) => m,
        };
        let dir = match self.table_dir(name) {
            Err(e) => {
                return Err(e);
            },
            Ok(dir) => dir,
        };
        let columns = m.schema_columns();
        Ok(
            TableDescriptor {
                id: m.table_id,
                name: m.name,
                schema: Schema { columns },
                row_group_size: m.row_group_size,
                storage_track: m.storage_track,
                dir,
                next_rid: m.next_rid,
            },
        )
    }

    /// Record a table's `next_rid` by rewriting its manifest. The insert path
    /// does so after a row's column data is in place.
    pub fn set_next_rid(&self, disk: &mut Disk, name: &str, next_rid: u64) -> (r: Result<
        (),
        Error,
    >)
        ensures
            match r {
                Ok(_) => self@.manifest_of(old(disk)@, name@) is Ok,
                Err(e) => self@.manifest_of(old(disk)@, name@) == Err::<ManifestV, ErrorV>(e@),
            },
            performed(*old(disk), *final(disk), self@.rid_effects(old(disk)@, name@, next_rid)),
    {
        let ghost before = *disk;
        let mut m = match self.read_manifest(disk, name) {
            Err(e) => {
                assert(before.log_view() + Seq::<EffectV>::empty() =~= before.log_view());
                return Err(e);
            },
            Ok(m) => m,
        };
        m.next_rid = next_rid;
        match self.table_dir(name) {
            Err(e) => Err(e),
            Ok(dir) => {
                disk.write_manifest(dir.as_str(), m);
                proof {
                    let effects = self@.rid_effects(before@, name@, next_rid);
                    assert(effects.drop_last() =~= Seq::<EffectV>::empty());
                    reveal_with_fuel(DiskV::after_all, 2);
                    assert(disk.log_view() =~= before.log_view() + effects);
                }
                Ok(())
            },
        }
    }

    /// At the catalog level, opening a table is the same as describing it.
    pub fn open_table(&self, disk: &Disk, name: &str) -> (r: Result<TableDescriptor, Error>)
        ensures
            match r {
                Ok(d) => self@.described(disk@, name@) == Ok::<_, ErrorV>(d@),
                Err(e) => self@.described(disk@, name@) == Err::<DescriptorV, ErrorV>(e@),
            },
    {
        self.describe_table(disk, name)
    }

    /// Take a table out of the index, then remove its directory.
    pub fn drop_table(&mut self, disk: &mut Disk, name: &str) -> (r: Result<(), Error>)
        ensures
            match r {
                Err(e) => {
                    &&& old(self)@.dir_of(name@) == Err::<Seq<char>, ErrorV>(e@)
                    &&& final(self)@ == old(self)@
                },
                Ok(_) => {
                    &&& old(self)@.dir_of(name@) is Ok
                    &&& final(self)@ == old(self)@.without_table(name@)
                },
            },
            performed(*old(disk), *final(disk), old(self)@.drop_effects(name@)),
    {
        let ghost before = self@;
        let ghost disk_before = *disk;
        let i: usize = match find_index(&self.tables, name) {
            None => {
                assert(disk_before.log_view() + Seq::<EffectV>::empty()
                    =~= disk_before.log_view());
                return Err(Error::no_such_table(name));
            },
            Some(i) => i,
        };
        let ghost all = self.tables@;
        let entry = self.tables.remove(i);
        proof {
            let list = entries_view(all);
            assert forall|j: int| 0 <= j < i implies (#[trigger] list[j]).name != name@ by {
                assert(list[j] == all[j]@);
            }
            lemma_drop_entry_at(list, i as int, name@);
            assert(entries_view(self.tables@) =~= list.remove(i as int));
        }
        let dir = join_path(self.root.as_str(), entry.dir.as_str());
        let file = self.to_file();
        disk.write_catalog(file);
        disk.remove_dir(dir.as_str());
        proof {
            let effects = before.drop_effects(name@);
            assert(effects.drop_last() =~= seq![effects[0]]);
            assert(effects.drop_last().drop_last() =~= Seq::<EffectV>::empty());
            reveal_with_fuel(DiskV::after_all, 3);
            assert(disk.log_view() =~= disk_before.log_view() + effects);
        }
        Ok(())
    }
}

} // verus!
