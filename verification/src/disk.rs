//! The files of a database as an in-memory image, with a log of the changes
//! made to it. Whoever keeps the real files loads the image and carries out
//! the logged effects in order.

use std::collections::HashMap;

use vstd::prelude::*;
use vstd::string::*;

use crate::assoc::Assoc;
use crate::catalog::files::{
    CatalogFile, CatalogFileV, ManifestFile, ManifestImage, ManifestImageV, ManifestV,
};
use crate::storage::delete_bitmap::file_view;

verus! {

broadcast use vstd::std_specs::hash::group_hash_axioms;

/// One change to the files of a database. Each is atomic: it happens as a whole
/// or not at all.
#[derive(Debug)]
pub enum Effect {
    /// Replace the table index.
    WriteCatalog(CatalogFile),
    /// Replace the manifest in a table's directory, which is created if needed.
    WriteManifest { dir: String, manifest: ManifestFile },
    /// Create a row-group directory below a table's directory, if it is not
    /// there yet.
    CreateGroup { dir: String, group: u32 },
    /// Replace a file of a row group.
    WriteFile { dir: String, group: u32, file: String, bytes: Vec<u8> },
    /// Remove a table's directory with all it holds.
    RemoveDir(String),
}

/// The view of an [`Effect`].
pub enum EffectV {
    WriteCatalog(CatalogFileV),
    WriteManifest { dir: Seq<char>, manifest: ManifestV },
    CreateGroup { dir: Seq<char>, group: u32 },
    WriteFile { dir: Seq<char>, group: u32, file: Seq<char>, bytes: Seq<u8> },
    RemoveDir(Seq<char>),
}

impl View for Effect {
    type V = EffectV;

    open spec fn view(&self) -> EffectV {
        match self {
            Effect::WriteCatalog(f) => EffectV::WriteCatalog(f@),
            Effect::WriteManifest { dir, manifest } => EffectV::WriteManifest {
                dir: dir@,
                manifest: manifest@,
            },
            Effect::CreateGroup { dir, group } => EffectV::CreateGroup { dir: dir@, group: *group },
            Effect::WriteFile { dir, group, file, bytes } => EffectV::WriteFile {
                dir: dir@,
                group: *group,
                file: file@,
                bytes: bytes@,
            },
            Effect::RemoveDir(dir) => EffectV::RemoveDir(dir@),
        }
    }
}

/// The views of a run of effects.
pub open spec fn effects_view(effects: Seq<Effect>) -> Seq<EffectV> {
    Seq::new(effects.len(), |i: int| effects[i]@)
}

/// The files of one row group, by name.
pub type FilesV = Map<Seq<char>, Seq<u8>>;

/// A table's directory: its manifest and its row groups.
pub struct TableDirV {
    pub manifest: ManifestImageV,
    pub groups: Map<u32, FilesV>,
}

/// The files of a database.
#[verifier::ext_equal]
pub struct DiskV {
    pub catalog: Option<CatalogFileV>,
    pub tables: Map<Seq<char>, TableDirV>,
}

impl DiskV {
    /// What is in a table's directory; a directory that is not there is empty.
    pub open spec fn dir(self, dir: Seq<char>) -> TableDirV {
        if self.tables.contains_key(dir) {
            self.tables[dir]
        } else {
            TableDirV { manifest: ManifestImageV::Missing, groups: Map::empty() }
        }
    }

    /// The manifest of a table.
    pub open spec fn manifest(self, dir: Seq<char>) -> ManifestImageV {
        self.dir(dir).manifest
    }

    /// Whether a row group's directory is there.
    pub open spec fn has_group(self, dir: Seq<char>, group: u32) -> bool {
        self.dir(dir).groups.contains_key(group)
    }

    /// The files of a row group; a group that is not there has none.
    pub open spec fn files(self, dir: Seq<char>, group: u32) -> FilesV {
        if self.has_group(dir, group) {
            self.dir(dir).groups[group]
        } else {
            Map::empty()
        }
    }

    /// The bytes of a file of a row group, if it is there.
    pub open spec fn file(self, dir: Seq<char>, group: u32, name: Seq<char>) -> Option<Seq<u8>> {
        if self.files(dir, group).contains_key(name) {
            Some(self.files(dir, group)[name])
        } else {
            None
        }
    }

    /// The files after one effect.
    pub open spec fn after(self, effect: EffectV) -> DiskV {
        match effect {
            EffectV::WriteCatalog(f) => DiskV { catalog: Some(f), tables: self.tables },
            EffectV::WriteManifest { dir, manifest } => DiskV {
                catalog: self.catalog,
                tables: self.tables.insert(
                    dir,
                    TableDirV {
                        manifest: ManifestImageV::Loaded(manifest),
                        groups: self.dir(dir).groups,
                    },
                ),
            },
            EffectV::CreateGroup { dir, group } => DiskV {
                catalog: self.catalog,
                tables: self.tables.insert(
                    dir,
                    TableDirV {
                        manifest: self.dir(dir).manifest,
                        groups: self.dir(dir).groups.insert(group, self.files(dir, group)),
                    },
                ),
            },
            EffectV::WriteFile { dir, group, file, bytes } => DiskV {
                catalog: self.catalog,
                tables: self.tables.insert(
                    dir,
                    TableDirV {
                        manifest: self.dir(dir).manifest,
                        groups: self.dir(dir).groups.insert(
                            group,
                            self.files(dir, group).insert(file, bytes),
                        ),
                    },
                ),
            },
            EffectV::RemoveDir(dir) => DiskV {
                catalog: self.catalog,
                tables: self.tables.remove(dir),
            },
        }
    }

    /// The files after a run of effects, in order.
    pub open spec fn after_all(self, effects: Seq<EffectV>) -> DiskV
        decreases effects.len(),
    {
        if effects.len() == 0 {
            self
        } else {
            self.after_all(effects.drop_last()).after(effects.last())
        }
    }
}

/// The files of one row group.
#[derive(Debug)]
pub struct GroupFiles {
    files: Assoc<Vec<u8>>,
}

impl View for GroupFiles {
    type V = FilesV;

    closed spec fn view(&self) -> FilesV {
        self.files@.map_values(|b: Vec<u8>| b@)
    }
}

impl GroupFiles {
    pub fn new() -> (r: Self)
        ensures
            r@ == Map::<Seq<char>, Seq<u8>>::empty(),
    {
        let r = GroupFiles { files: Assoc::new() };
        assert(r@ =~= Map::<Seq<char>, Seq<u8>>::empty());
        r
    }

    /// The bytes of a file, if it is there.
    pub fn get(&self, name: &str) -> (r: Option<&Vec<u8>>)
        ensures
            file_view(r) == if self@.contains_key(name@) {
                Some(self@[name@])
            } else {
                None
            },
    {
        self.files.get(name)
    }

    /// Replace a file.
    pub fn put(&mut self, name: &str, bytes: Vec<u8>)
        ensures
            final(self)@ == old(self)@.insert(name@, bytes@),
    {
        let ghost before = self@;
        self.files.insert(name, bytes);
        assert(self@ =~= before.insert(name@, bytes@));
    }
}

/// A table's directory.
#[derive(Debug)]
pub struct TableDir {
    manifest: ManifestImage,
    groups: HashMap<u32, GroupFiles>,
}

impl View for TableDir {
    type V = TableDirV;

    closed spec fn view(&self) -> TableDirV {
        TableDirV {
            manifest: self.manifest@,
            groups: self.groups@.map_values(|f: GroupFiles| f@),
        }
    }
}

impl TableDir {
    /// A directory with a manifest, or what stands in its place, and no row
    /// group.
    pub fn new(manifest: ManifestImage) -> (r: Self)
        ensures
            r@.manifest == manifest@,
            r@.groups == Map::<u32, FilesV>::empty(),
    {
        let r = TableDir { manifest, groups: HashMap::new() };
        assert(r@.groups =~= Map::<u32, FilesV>::empty());
        r
    }

    /// Add a row group as it was found.
    pub fn put_group(&mut self, group: u32, files: GroupFiles)
        ensures
            final(self)@.manifest == old(self)@.manifest,
            final(self)@.groups == old(self)@.groups.insert(group, files@),
    {
        let ghost before = self@;
        self.groups.insert(group, files);
        assert(self@.groups =~= before.groups.insert(group, files@));
    }
}

/// The files of a database, with the effects applied to them since the log was
/// last taken.
#[derive(Debug)]
pub struct Disk {
    catalog: Option<CatalogFile>,
    tables: Assoc<TableDir>,
    log: Vec<Effect>,
}

impl View for Disk {
    type V = DiskV;

    closed spec fn view(&self) -> DiskV {
        DiskV {
            catalog: match self.catalog {
                Some(f) => Some(f@),
                None => None,
            },
            tables: self.tables@.map_values(|t: TableDir| t@),
        }
    }
}

impl Disk {
    /// The effects applied since the log was last taken.
    pub closed spec fn log_view(&self) -> Seq<EffectV> {
        effects_view(self.log@)
    }

    /// An image with no table and the given table index.
    pub fn new(catalog: Option<CatalogFile>) -> (r: Self)
        ensures
            r@.catalog == (match catalog {
                Some(f) => Some(f@),
                None => None,
            }),
            r@.tables == Map::<Seq<char>, TableDirV>::empty(),
            r.log_view() == Seq::<EffectV>::empty(),
    {
        let r = Disk { catalog, tables: Assoc::new(), log: Vec::new() };
        assert(r@.tables =~= Map::<Seq<char>, TableDirV>::empty());
        assert(r.log_view() =~= Seq::<EffectV>::empty());
        r
    }

    /// Add a table's directory as it was found.
    pub fn put_table(&mut self, dir: &str, table: TableDir)
        ensures
            final(self)@.catalog == old(self)@.catalog,
            final(self)@.tables == old(self)@.tables.insert(dir@, table@),
            final(self).log_view() == old(self).log_view(),
    {
        let ghost before = self@;
        self.tables.insert(dir, table);
        assert(self@.tables =~= before.tables.insert(dir@, table@));
    }

    /// Take the log: the effects in the order in which they were applied.
    pub fn take_log(&mut self) -> (r: Vec<Effect>)
        ensures
            effects_view(r@) == old(self).log_view(),
            final(self).log_view() == Seq::<EffectV>::empty(),
            final(self)@ == old(self)@,
    {
        let mut log: Vec<Effect> = Vec::new();
        std::mem::swap(&mut log, &mut self.log);
        assert(self.log_view() =~= Seq::<EffectV>::empty());
        log
    }

    /// The table index that is on disk.
    pub fn catalog(&self) -> (r: Option<CatalogFile>)
        ensures
            (match r {
                Some(f) => Some(f@),
                None => None,
            }) == self@.catalog,
    {
        match &self.catalog {
            None => None,
            Some(f) => Some(f.clone()),
        }
    }

    /// The manifest of a table.
    pub fn manifest(&self, dir: &str) -> (r: &ManifestImage)
        ensures
            r@ == self@.manifest(dir@),
    {
        match self.tables.get(dir) {
            Some(t) => &t.manifest,
            None => &ManifestImage::Missing,
        }
    }

    /// Whether a row group's directory is there.
    pub fn has_group(&self, dir: &str, group: u32) -> (r: bool)
        ensures
            r == self@.has_group(dir@, group),
    {
        match self.tables.get(dir) {
            Some(t) => t.groups.contains_key(&group),
            None => false,
        }
    }

    /// The bytes of a file of a row group, if it is there.
    pub fn file(&self, dir: &str, group: u32, name: &str) -> (r: Option<&Vec<u8>>)
        ensures
            file_view(r) == self@.file(dir@, group, name@),
    {
        match self.tables.get(dir) {
            Some(t) => match t.groups.get(&group) {
                Some(files) => files.get(name),
                None => None,
            },
            None => None,
        }
    }

    /// Take a table's directory out, an empty one if it is not there.
    fn take_table(&mut self, dir: &str) -> (r: TableDir)
        ensures
            r@ == old(self)@.dir(dir@),
            final(self)@.catalog == old(self)@.catalog,
            final(self)@.tables == old(self)@.tables.remove(dir@),
            final(self).log_view() == old(self).log_view(),
    {
        let ghost before = self@;
        let taken = self.tables.remove(dir);
        assert(self@.tables =~= before.tables.remove(dir@));
        match taken {
            Some(t) => t,
            None => TableDir::new(ManifestImage::Missing),
        }
    }

    /// Take a row group's files out of a directory, none if it is not there.
    fn take_group(t: &mut TableDir, group: u32) -> (r: GroupFiles)
        ensures
            r@ == (if old(t)@.groups.contains_key(group) {
                old(t)@.groups[group]
            } else {
                Map::<Seq<char>, Seq<u8>>::empty()
            }),
            final(t)@.manifest == old(t)@.manifest,
            final(t)@.groups == old(t)@.groups.remove(group),
    {
        let ghost before = t@;
        let taken = t.groups.remove(&group);
        assert(t@.groups =~= before.groups.remove(group));
        match taken {
            Some(files) => files,
            None => GroupFiles::new(),
        }
    }

    /// Put a changed directory back and log the change.
    fn finish(&mut self, dir: &str, table: TableDir, effect: Effect, Ghost(before): Ghost<DiskV>)
        requires
            old(self)@.catalog == before.catalog,
            old(self)@.tables == before.tables.remove(dir@),
            before.after(effect@).catalog == before.catalog,
            before.after(effect@).tables == before.tables.insert(dir@, table@),
        ensures
            final(self)@ == before.after(effect@),
            final(self).log_view() == old(self).log_view().push(effect@),
    {
        let ghost log = self.log_view();
        self.put_table(dir, table);
        self.log.push(effect);
        assert(self.log_view() =~= log.push(effect@));
        assert(self@.tables =~= before.after(effect@).tables);
        assert(self@ =~= before.after(effect@));
    }

    /// Replace the table index.
    pub fn write_catalog(&mut self, file: CatalogFile)
        ensures
            final(self)@ == old(self)@.after(EffectV::WriteCatalog(file@)),
            final(self).log_view() == old(self).log_view().push(EffectV::WriteCatalog(file@)),
    {
        let ghost log = self.log_view();
        let effect = Effect::WriteCatalog(file.clone());
        self.catalog = Some(file);
        self.log.push(effect);
        assert(self.log_view() =~= log.push(EffectV::WriteCatalog(file@)));
    }

    /// Replace a table's manifest.
    pub fn write_manifest(&mut self, dir: &str, manifest: ManifestFile)
        ensures
            ({
                let effect = EffectV::WriteManifest { dir: dir@, manifest: manifest@ };
                &&& final(self)@ == old(self)@.after(effect)
                &&& final(self).log_view() == old(self).log_view().push(effect)
            }),
    {
        let ghost before = self@;
        let effect = Effect::WriteManifest {
            dir: String::from_str(dir),
            manifest: manifest.clone(),
        };
        let mut table = self.take_table(dir);
        table.manifest = ManifestImage::Loaded(manifest);
        self.finish(dir, table, effect, Ghost(before));
    }

    /// Create a row group's directory, if it is not there yet.
    pub fn create_group(&mut self, dir: &str, group: u32)
        ensures
            ({
                let effect = EffectV::CreateGroup { dir: dir@, group };
                &&& final(self)@ == old(self)@.after(effect)
                &&& final(self).log_view() == old(self).log_view().push(effect)
            }),
    {
        let ghost before = self@;
        let effect = Effect::CreateGroup { dir: String::from_str(dir), group };
        let mut table = self.take_table(dir);
        let files = Self::take_group(&mut table, group);
        table.put_group(group, files);
        assert(table@.groups =~= before.dir(dir@).groups.insert(group, before.files(dir@, group)));
        self.finish(dir, table, effect, Ghost(before));
    }

    /// Replace a file of a row group.
    pub fn write_file(&mut self, dir: &str, group: u32, name: &str, bytes: Vec<u8>)
        ensures
            ({
                let effect = EffectV::WriteFile { dir: dir@, group, file: name@, bytes: bytes@ };
                &&& final(self)@ == old(self)@.after(effect)
                &&& final(self).log_view() == old(self).log_view().push(effect)
            }),
    {
        let ghost before = self@;
        let copy = crate::bytes::slice_of(bytes.as_slice(), 0, bytes.len());
        assert(copy@ =~= bytes@);
        let effect = Effect::WriteFile {
            dir: String::from_str(dir),
            group,
            file: String::from_str(name),
            bytes: copy,
        };
        let mut table = self.take_table(dir);
        let mut files = Self::take_group(&mut table, group);
        files.put(name, bytes);
        table.put_group(group, files);
        assert(table@.groups =~= before.dir(dir@).groups.insert(
            group,
            before.files(dir@, group).insert(name@, bytes@),
        ));
        self.finish(dir, table, effect, Ghost(before));
    }

    /// Remove a table's directory with all it holds.
    pub fn remove_dir(&mut self, dir: &str)
        ensures
            final(self)@ == old(self)@.after(EffectV::RemoveDir(dir@)),
            final(self).log_view() == old(self).log_view().push(EffectV::RemoveDir(dir@)),
    {
        let ghost log = self.log_view();
        let _ = self.take_table(dir);
        self.log.push(Effect::RemoveDir(String::from_str(dir)));
        assert(self.log_view() =~= log.push(EffectV::RemoveDir(dir@)));
    }
}

// ---- laws ----

/// Two runs of effects, one after the other, are the joined run.
pub proof fn lemma_after_all_concat(disk: DiskV, a: Seq<EffectV>, b: Seq<EffectV>)
    ensures
        disk.after_all(a + b) == disk.after_all(a).after_all(b),
    decreases b.len(),
{
    if b.len() == 0 {
        assert(a + b =~= a);
    } else {
        assert((a + b).drop_last() =~= a + b.drop_last());
        lemma_after_all_concat(disk, a, b.drop_last());
    }
}

} // verus!
