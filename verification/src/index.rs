//! The index: files and resources by number, and symbol tables over all files.
use crate::model::{
    lemma_allocated_wf, lemma_cleared_wf, lemma_purge_is_enough, lemma_resources_wf,
    lemma_with_file_wf, lemma_without_path_wf, listed, max_files, other_file, other_import, stubs,
    unlisted, IndexView,
};
use crate::paths::{
    drives_stay, host_uses_backslashes, normalize_path_for, path_bytes, path_key,
};
use crate::slots::{add_file_slots, purged, remove_file_slots, texts, without_file};
use crate::symbols::{ResourceView, Table};
use crate::tables::{
    get_path, insert_path, new_paths, new_slots, path_ids, remove_path, slot_lists, Slot,
};
use crate::text::smol_text;
use rustc_hash::FxHashMap;
use smol_str::SmolStr;
use std::path::{Path, PathBuf};
use vstd::prelude::*;

pub use crate::paths::normalize_path;
pub use crate::symbols::{
    AliasDef, ClassDef, EventDef, EventKind, FileEntry, FileIndex, FileOrigin, Language, Member,
    ResourceEntry, Side, Symbol, SymbolKind,
};
pub use crate::tables::{FileId, ResourceId};

pub mod lookup;

verus! {

#[derive(Debug)]
pub struct Index<L: Language> {
    windows: bool,
    files: Vec<Option<FileEntry<L>>>,
    by_path: FxHashMap<PathBuf, FileId>,
    pub resources: Vec<ResourceEntry<L>>,
    globals: FxHashMap<SmolStr, Vec<Slot>>,
    members: FxHashMap<SmolStr, Vec<Slot>>,
    classes: FxHashMap<SmolStr, Vec<Slot>>,
    aliases: FxHashMap<SmolStr, Vec<Slot>>,
}

impl<L: Language> View for Index<L> {
    type V = IndexView<L>;

    closed spec fn view(&self) -> IndexView<L> {
        IndexView {
            windows: self.windows,
            files: self.files@,
            paths: path_ids(self.by_path),
            resources: self.resources@.map_values(|r: ResourceEntry<L>| r@),
            globals: slot_lists(self.globals),
            members: slot_lists(self.members),
            classes: slot_lists(self.classes),
            aliases: slot_lists(self.aliases),
        }
    }
}

/// An entry of a symbol table.
trait TableEntry {
    /// The name that the entry goes by.
    spec fn text(&self) -> Seq<char>;

    /// The name that the entry goes by.
    fn key(&self) -> (name: &SmolStr)
        ensures
            smol_text(*name) == self.text(),
    ;
}

impl<L: Language> TableEntry for Symbol<L> {
    spec fn text(&self) -> Seq<char> {
        smol_text(self.name)
    }

    fn key(&self) -> (name: &SmolStr) {
        &self.name
    }
}

impl<L: Language> TableEntry for Member<L> {
    spec fn text(&self) -> Seq<char> {
        smol_text(self.owner)
    }

    fn key(&self) -> (name: &SmolStr) {
        &self.owner
    }
}

impl<L: Language> TableEntry for ClassDef<L> {
    spec fn text(&self) -> Seq<char> {
        smol_text(self.name)
    }

    fn key(&self) -> (name: &SmolStr) {
        &self.name
    }
}

impl<L: Language> TableEntry for AliasDef<L> {
    spec fn text(&self) -> Seq<char> {
        smol_text(self.name)
    }

    fn key(&self) -> (name: &SmolStr) {
        &self.name
    }
}

/// The names that entries go by, in order.
fn keys_of<T: TableEntry>(entries: &Vec<T>) -> (names: Vec<&SmolStr>)
    ensures
        names.len() == entries.len(),
        forall|i: int| 0 <= i < entries.len() ==> texts(names@)[i] == entries@[i].text(),
{
    let mut names: Vec<&SmolStr> = Vec::new();
    let mut i: usize = 0;
    while i < entries.len()
        invariant
            i <= entries.len(),
            names.len() == i,
            forall|j: int|
                0 <= j < i ==> smol_text(*#[trigger] names@[j]) == entries@[j].text(),
        decreases entries.len() - i,
    {
        names.push(entries[i].key());
        i = i + 1;
    }
    names
}

impl<L: Language> FileIndex<L> {
    fn global_names(&self) -> (names: Vec<&SmolStr>)
        ensures
            names.len() == self.globals.len(),
            texts(names@) == self.names(Table::Globals),
    {
        keys_of(&self.globals)
    }

    fn member_owners(&self) -> (names: Vec<&SmolStr>)
        ensures
            names.len() == self.members.len(),
            texts(names@) == self.names(Table::Members),
    {
        keys_of(&self.members)
    }

    fn class_names(&self) -> (names: Vec<&SmolStr>)
        ensures
            names.len() == self.classes.len(),
            texts(names@) == self.names(Table::Classes),
    {
        keys_of(&self.classes)
    }

    fn alias_names(&self) -> (names: Vec<&SmolStr>)
        ensures
            names.len() == self.aliases.len(),
            texts(names@) == self.names(Table::Aliases),
    {
        keys_of(&self.aliases)
    }
}

/// Whether `id` is among `files`.
fn lists_file(files: &Vec<FileId>, id: FileId) -> (found: bool)
    ensures
        found == files@.contains(id),
{
    let mut i: usize = 0;
    while i < files.len()
        invariant
            i <= files.len(),
            forall|j: int| 0 <= j < i ==> files@[j] != id,
        decreases files.len() - i,
    {
        if files[i] == id {
            assert(files@[i as int] == id);
            return true;
        }
        i = i + 1;
    }
    false
}

/// Takes file `id` out of a resource's lists.
fn unlist_file<L: Language>(resource: &mut ResourceEntry<L>, id: FileId)
    ensures
        final(resource)@ == unlisted(old(resource)@, id),
{
    let mut files: Vec<FileId> = Vec::new();
    let mut i: usize = 0;
    while i < resource.files.len()
        invariant
            i <= resource.files.len(),
            *resource == *old(resource),
            files@ == resource.files@.take(i as int).filter(other_file(id)),
        decreases resource.files.len() - i,
    {
        proof {
            reveal(Seq::filter);
            assert(resource.files@.take(i + 1).drop_last() =~= resource.files@.take(i as int));
        }
        if resource.files[i] != id {
            files.push(resource.files[i]);
        }
        i = i + 1;
    }
    assert(resource.files@.take(resource.files@.len() as int) =~= resource.files@);
    let mut imports: Vec<(FileId, Side)> = Vec::new();
    let mut i: usize = 0;
    while i < resource.imports.len()
        invariant
            i <= resource.imports.len(),
            *resource == *old(resource),
            imports@ == resource.imports@.take(i as int).filter(other_import(id)),
        decreases resource.imports.len() - i,
    {
        proof {
            reveal(Seq::filter);
            assert(resource.imports@.take(i + 1).drop_last() =~= resource.imports@.take(i as int));
        }
        if resource.imports[i].0 != id {
            imports.push(resource.imports[i]);
        }
        i = i + 1;
    }
    assert(resource.imports@.take(resource.imports@.len() as int) =~= resource.imports@);
    resource.files = files;
    resource.imports = imports;
}

impl<L: Language> Default for Index<L> {
    /// An empty index for the platform the crate is built for.
    fn default() -> (index: Self)
        ensures
            index@ == IndexView::<L>::empty(drives_stay()),
            index@.wf(),
    {
        Self::with_paths(host_uses_backslashes())
    }
}

impl<L: Language> Index<L> {
    /// An empty index. Where `windows` is set, paths that differ only in case and slashes are the
    /// same.
    pub fn with_paths(windows: bool) -> (index: Self)
        ensures
            index@ == IndexView::<L>::empty(windows),
            index@.wf(),
    {
        let index = Index {
            windows,
            files: Vec::new(),
            by_path: new_paths(),
            resources: Vec::new(),
            globals: new_slots(),
            members: new_slots(),
            classes: new_slots(),
            aliases: new_slots(),
        };
        assert(index@ =~= IndexView::<L>::empty(windows));
        index
    }

    /// How many resources there are.
    pub fn resource_count(&self) -> (count: usize)
        ensures
            count == self@.resources.len(),
    {
        self.resources.len()
    }

    /// The number of the file at `path`.
    pub fn file_id(&self, path: &Path) -> (id: Option<FileId>)
        ensures
            id == self@.file_id(path_bytes(path)),
    {
        let key = normalize_path_for(self.windows, path);
        get_path(&self.by_path, key.as_path())
    }

    /// The file under `id`.
    pub fn file(&self, id: FileId) -> (file: Option<&FileEntry<L>>)
        ensures
            file matches Some(entry) ==> self@.file(id) == Some(*entry),
            file is None ==> self@.file(id) is None,
    {
        if (id as usize) < self.files.len() {
            self.files[id as usize].as_ref()
        } else {
            None
        }
    }

    /// The resource under `id`.
    pub fn resource(&self, id: ResourceId) -> (resource: Option<&ResourceEntry<L>>)
        ensures
            resource matches Some(entry) ==> self@.resource(id) == Some(entry@),
            resource is None ==> self@.resource(id) is None,
    {
        if (id as usize) < self.resources.len() {
            Some(&self.resources[id as usize])
        } else {
            None
        }
    }

    /// Adds a resource and says its number.
    pub fn add_resource(&mut self, entry: ResourceEntry<L>) -> (id: ResourceId)
        requires
            old(self)@.wf(),
            old(self)@.resources.len() < max_files(),
        ensures
            final(self)@ == (IndexView {
                resources: old(self)@.resources.push(entry@),
                ..old(self)@
            }),
            final(self)@.wf(),
            id == old(self)@.resources.len(),
    {
        let ghost before = self@;
        let id = self.resources.len() as ResourceId;
        self.resources.push(entry);
        assert(self@ =~= (IndexView { resources: before.resources.push(entry@), ..before }));
        proof {
            lemma_resources_wf(before, self@.resources);
        }
        id
    }

    /// Lends the resource under `id` for changes.
    pub fn resource_mut(&mut self, id: ResourceId) -> (resource: Option<&mut ResourceEntry<L>>)
        requires
            old(self)@.wf(),
        ensures
            resource is Some <==> old(self)@.resource(id) is Some,
            resource matches Some(entry) ==> old(self)@.resource(id) == Some(entry@) && final(self)@
                == (IndexView {
                resources: old(self)@.resources.update(id as int, final(entry)@),
                ..old(self)@
            }),
            resource is None ==> final(self)@ == old(self)@,
            final(self)@.wf(),
    {
        let ghost before = self@;
        if (id as usize) < self.resources.len() {
            proof {
                assert forall|changed: ResourceView<L>| (IndexView {
                    resources: #[trigger] before.resources.update(id as int, changed),
                    ..before
                }).wf() by {
                    lemma_resources_wf(before, before.resources.update(id as int, changed));
                }
            }
            Some(&mut self.resources[id as usize])
        } else {
            None
        }
    }

    /// Whether there is a number for `path`, or one left to give it.
    pub fn has_room(&self, path: &Path) -> (room: bool)
        ensures
            room == self@.has_room(path_bytes(path)),
    {
        self.file_id(path).is_some() || (self.files.len() as u64) < 0x1_0000_0000
    }

    /// Reserves an id for `path`, reusing the existing one when the file is already known.
    pub fn allocate(&mut self, path: &Path) -> (id: FileId)
        requires
            old(self)@.wf(),
            old(self)@.has_room(path_bytes(path)),
        ensures
            final(self)@ == old(self)@.allocated(path_key(old(self)@.windows, path_bytes(path))),
            id == old(self)@.id_for(path_key(old(self)@.windows, path_bytes(path))),
            final(self)@.wf(),
            final(self)@.file_id(path_bytes(path)) == Some(id),
    {
        let key = normalize_path_for(self.windows, path);
        let ghost parts = path_key(self@.windows, path_bytes(path));
        proof {
            lemma_allocated_wf(self@, parts);
        }
        if let Some(id) = get_path(&self.by_path, key.as_path()) {
            return id;
        }
        let id = self.files.len() as FileId;
        self.files.push(None);
        insert_path(&mut self.by_path, key, id);
        assert(self@ =~= old(self)@.allocated(parts));
        id
    }

    /// Takes the file under `id` and its symbols out.
    fn clear_slots(&mut self, id: FileId)
        requires
            old(self)@.wf(),
            id < old(self)@.files.len(),
        ensures
            final(self)@ == old(self)@.cleared(id),
            final(self)@.wf(),
    {
        let ghost before = self@;
        proof {
            lemma_cleared_wf(before, id);
            assert forall|table: Table| #[trigger] before.lists(table) == before.lists(
                table,
            ) implies (before.files[id as int] is None ==> without_file(
                before.lists(table),
                id,
            ) == before.lists(table)) && (before.files[id as int] matches Some(entry)
                ==> purged(before.lists(table), entry.index.names(table), id)
                == without_file(before.lists(table), id)) by {
                lemma_purge_is_enough(before.lists(table), before.files, table, id);
            }
            assert(before.lists(Table::Globals) == before.globals);
            assert(before.lists(Table::Members) == before.members);
            assert(before.lists(Table::Classes) == before.classes);
            assert(before.lists(Table::Aliases) == before.aliases);
        }
        let taken = self.files[id as usize].take();
        if let Some(entry) = taken {
            remove_file_slots(&mut self.globals, &entry.index.global_names(), id);
            remove_file_slots(&mut self.members, &entry.index.member_owners(), id);
            remove_file_slots(&mut self.classes, &entry.index.class_names(), id);
            remove_file_slots(&mut self.aliases, &entry.index.alias_names(), id);
        }
        assert(self@ =~= before.cleared(id));
    }

    /// Stores `entry` under `id`, in place of what was there.
    pub fn set_file(&mut self, id: FileId, entry: FileEntry<L>)
        requires
            old(self)@.wf(),
            id < old(self)@.files.len(),
            entry.index.fits(),
        ensures
            final(self)@ == old(self)@.with_file(id, entry),
            final(self)@.wf(),
    {
        let ghost before = self@;
        self.clear_slots(id);
        proof {
            lemma_with_file_wf(before, id, entry);
        }
        let ghost rest = self@;
        add_file_slots(&mut self.globals, &entry.index.global_names(), id);
        add_file_slots(&mut self.members, &entry.index.member_owners(), id);
        add_file_slots(&mut self.classes, &entry.index.class_names(), id);
        add_file_slots(&mut self.aliases, &entry.index.alias_names(), id);
        if let Some(r) = entry.resource {
            if (r as usize) < self.resources.len() {
                let resource = &mut self.resources[r as usize];
                if !lists_file(&resource.files, id) {
                    resource.files.push(id);
                }
            }
        }
        assert(self@.resources =~= listed(rest.resources, entry.resource, id));
        self.files[id as usize] = Some(entry);
        assert(self@ =~= before.with_file(id, entry));
    }

    /// Start a fresh disk scan without discarding the built-in library.
    pub fn clear_workspace(&mut self)
        requires
            old(self)@.wf(),
        ensures
            final(self)@ == IndexView::rebuilt(old(self)@.windows, stubs(old(self)@.files)),
            final(self)@.wf(),
    {
        let ghost before = self@;
        let windows = self.windows;
        let mut kept: Vec<FileEntry<L>> = Vec::new();
        let mut i: usize = 0;
        while i < self.files.len()
            invariant
                i <= self.files.len(),
                self.files@.len() == before.files.len() <= max_files(),
                forall|j: int| i <= j < self.files@.len() ==> self.files@[j] == before.files[j],
                kept@ == stubs(before.files.take(i as int)),
                kept.len() <= i,
                before.wf(),
                forall|j: int| 0 <= j < kept@.len() ==> (#[trigger] kept@[j]).index.fits(),
            decreases self.files.len() - i,
        {
            assert(before.files.take(i + 1).drop_last() =~= before.files.take(i as int));
            let file = self.files[i].take();
            assert(file == before.files[i as int]);
            if let Some(entry) = file {
                if entry.origin == FileOrigin::Stub {
                    kept.push(entry);
                }
            }
            i = i + 1;
        }
        assert(before.files.take(before.files.len() as int) =~= before.files);
        *self = Self::with_paths(windows);
        let ghost entries = kept@;
        for entry in it: kept
            invariant
                it.seq() == entries,
                entries.len() <= max_files(),
                self@ == IndexView::rebuilt(windows, entries.take(it.index() as int)),
                self@.windows == windows,
                self@.wf(),
                self@.files.len() <= it.index(),
                forall|j: int| 0 <= j < entries.len() ==> (#[trigger] entries[j]).index.fits(),
        {
            let ghost done = entries.take(it.index() as int);
            let ghost next = entries.take(it.index() + 1);
            assert(next.drop_last() =~= done);
            assert(next.last() == entry);
            let id = self.allocate(entry.path.as_path());
            self.set_file(id, entry);
        }
        assert(entries.take(entries.len() as int) =~= entries);
    }

    /// Forgets the file at `path`: its number, its symbols, and where resources list it.
    pub fn remove_file(&mut self, path: &Path)
        requires
            old(self)@.wf(),
        ensures
            final(self)@ == old(self)@.without_path(path_key(old(self)@.windows, path_bytes(path))),
            final(self)@.wf(),
    {
        let ghost before = self@;
        let ghost key = path_key(before.windows, path_bytes(path));
        proof {
            lemma_without_path_wf(before, key);
        }
        let normalized = normalize_path_for(self.windows, path);
        let removed = remove_path(&mut self.by_path, normalized.as_path());
        if let Some(id) = removed {
            let ghost mid = self@;
            assert(mid =~= IndexView { paths: before.paths.remove(key), ..before });
            assert forall|table: Table| #[trigger] mid.lists(table) == before.lists(table) by {}
            self.clear_slots(id);
            let ghost cleared = self@;
            let mut i: usize = 0;
            while i < self.resources.len()
                invariant
                    i <= self.resources.len(),
                    self.resources@.len() == cleared.resources.len(),
                    forall|j: int|
                        0 <= j < i ==> (#[trigger] self.resources@[j])@ == unlisted(
                            cleared.resources[j],
                            id,
                        ),
                    forall|j: int|
                        i <= j < self.resources@.len() ==> (#[trigger] self.resources@[j])@
                            == cleared.resources[j],
                    self@ == (IndexView { resources: self@.resources, ..cleared }),
                decreases self.resources.len() - i,
            {
                unlist_file(&mut self.resources[i], id);
                i = i + 1;
            }
            assert(self@.resources =~= before.resources.map_values(
                |r: ResourceView<L>| unlisted(r, id),
            ));
            self.files[id as usize] = None;
            assert(self@ =~= before.without_path(key));
        } else {
            assert(self@.paths =~= before.paths);
            assert(self@ =~= before);
        }
    }
}

} // verus!
