//! The index as a mathematical value: what it holds, what keeps it consistent, and what each
//! change makes of it.
use crate::paths::{buf_bytes, path_key};
use crate::slots::{
    kept, lemma_kept_all, lemma_no_occurrences, occurrences, purged, with_names, without_file,
    SlotLists,
};
use crate::symbols::{FileEntry, FileOrigin, Language, ResourceView, Side, Table};
use crate::tables::{slots_of, FileId, ResourceId, Slot};
use vstd::prelude::*;

verus! {

/// What an index holds.
#[verifier::ext_equal]
pub ghost struct IndexView<L: Language> {
    /// Paths differ in neither case nor slashes, as on Windows.
    pub windows: bool,
    /// The files by number; a number that is reserved or whose file is gone has none.
    pub files: Seq<Option<FileEntry<L>>>,
    /// The number of each known path.
    pub paths: Map<Seq<Seq<u8>>, FileId>,
    pub resources: Seq<ResourceView<L>>,
    pub globals: SlotLists,
    pub members: SlotLists,
    pub classes: SlotLists,
    pub aliases: SlotLists,
}

/// One more than the largest file number.
pub open spec fn max_files() -> int {
    0x1_0000_0000
}

/// Whether entry `slot` of the files' lists for `table` exists and goes by `name`.
pub open spec fn carries<L: Language>(
    files: Seq<Option<FileEntry<L>>>,
    table: Table,
    slot: Slot,
    name: Seq<char>,
) -> bool {
    &&& slot.0 < files.len()
    &&& files[slot.0 as int] matches Some(entry)
    &&& slot.1 < entry.index.names(table).len()
    &&& entry.index.names(table)[slot.1 as int] == name
}

/// A symbol table is in step with the files: it holds each of their entries once, under its name,
/// and nothing else.
pub open spec fn in_step<L: Language>(
    lists: SlotLists,
    files: Seq<Option<FileEntry<L>>>,
    table: Table,
) -> bool {
    &&& forall|name: Seq<char>| #[trigger] lists.contains_key(name) ==> lists[name].len() > 0
    &&& forall|name: Seq<char>| (#[trigger] slots_of(lists, name)).no_duplicates()
    &&& forall|name: Seq<char>, slot: Slot|
        #[trigger] slots_of(lists, name).contains(slot) <==> carries(files, table, slot, name)
}

/// The resources, with file `id` listed under `resource` if that exists.
pub open spec fn listed<L: Language>(
    resources: Seq<ResourceView<L>>,
    resource: Option<ResourceId>,
    id: FileId,
) -> Seq<ResourceView<L>> {
    match resource {
        Some(r) if r < resources.len() && !resources[r as int].files.contains(id) =>
            resources.update(
                r as int,
                ResourceView { files: resources[r as int].files.push(id), ..resources[r as int] },
            ),
        _ => resources,
    }
}

/// Tells the numbers other than `id`.
pub open spec fn other_file(id: FileId) -> spec_fn(FileId) -> bool {
    |file: FileId| file != id
}

/// Tells the imports of other files than `id`.
pub open spec fn other_import(id: FileId) -> spec_fn((FileId, Side)) -> bool {
    |import: (FileId, Side)| import.0 != id
}

/// The resource without file `id`, neither listed nor imported.
pub open spec fn unlisted<L: Language>(resource: ResourceView<L>, id: FileId) -> ResourceView<L> {
    ResourceView {
        files: resource.files.filter(other_file(id)),
        imports: resource.imports.filter(other_import(id)),
        ..resource
    }
}

/// The stub files among `files`, in order.
pub open spec fn stubs<L: Language>(files: Seq<Option<FileEntry<L>>>) -> Seq<FileEntry<L>>
    decreases files.len(),
{
    if files.len() == 0 {
        Seq::empty()
    } else {
        let before = stubs(files.drop_last());
        match files.last() {
            Some(entry) if entry.origin == FileOrigin::Stub => before.push(entry),
            _ => before,
        }
    }
}

impl<L: Language> IndexView<L> {
    /// An index that knows no file.
    pub open spec fn empty(windows: bool) -> Self {
        IndexView {
            windows,
            files: Seq::empty(),
            paths: Map::empty(),
            resources: Seq::empty(),
            globals: Map::empty(),
            members: Map::empty(),
            classes: Map::empty(),
            aliases: Map::empty(),
        }
    }

    /// The symbol table for one of the lists.
    pub open spec fn lists(self, table: Table) -> SlotLists {
        match table {
            Table::Globals => self.globals,
            Table::Members => self.members,
            Table::Classes => self.classes,
            Table::Aliases => self.aliases,
        }
    }

    /// The index is consistent: numbers fit, no two paths share one, and the symbol tables are in
    /// step with the files.
    pub open spec fn wf(self) -> bool {
        &&& self.files.len() <= max_files()
        &&& self.resources.len() <= max_files()
        &&& forall|key: Seq<Seq<u8>>| #[trigger]
            self.paths.contains_key(key) ==> self.paths[key] < self.files.len()
        &&& forall|a: Seq<Seq<u8>>, b: Seq<Seq<u8>>|
            #![trigger self.paths.contains_key(a), self.paths.contains_key(b)]
            self.paths.contains_key(a) && self.paths.contains_key(b) && self.paths[a]
                == self.paths[b] ==> a == b
        &&& forall|id: int|
            0 <= id < self.files.len() ==> (#[trigger] self.files[id] matches Some(entry)
                ==> entry.index.fits())
        &&& forall|table: Table| in_step(#[trigger] self.lists(table), self.files, table)
    }

    /// The number under which the file at `key` goes, or would go once it has one.
    pub open spec fn id_for(self, key: Seq<Seq<u8>>) -> FileId {
        if self.paths.contains_key(key) {
            self.paths[key]
        } else {
            self.files.len() as FileId
        }
    }

    /// The index with a number reserved for `key`.
    pub open spec fn allocated(self, key: Seq<Seq<u8>>) -> Self {
        if self.paths.contains_key(key) {
            self
        } else {
            IndexView {
                files: self.files.push(None),
                paths: self.paths.insert(key, self.files.len() as FileId),
                ..self
            }
        }
    }

    /// The index with no file under `id` and none of its symbols.
    pub open spec fn cleared(self, id: FileId) -> Self {
        IndexView {
            files: self.files.update(id as int, None),
            globals: without_file(self.globals, id),
            members: without_file(self.members, id),
            classes: without_file(self.classes, id),
            aliases: without_file(self.aliases, id),
            ..self
        }
    }

    /// The index with `entry` under `id` in place of what was there.
    pub open spec fn with_file(self, id: FileId, entry: FileEntry<L>) -> Self {
        let rest = self.cleared(id);
        IndexView {
            files: rest.files.update(id as int, Some(entry)),
            globals: with_names(rest.globals, id, entry.index.names(Table::Globals)),
            members: with_names(rest.members, id, entry.index.names(Table::Members)),
            classes: with_names(rest.classes, id, entry.index.names(Table::Classes)),
            aliases: with_names(rest.aliases, id, entry.index.names(Table::Aliases)),
            resources: listed(rest.resources, entry.resource, id),
            ..rest
        }
    }

    /// The index after the file at `key` is gone.
    pub open spec fn without_path(self, key: Seq<Seq<u8>>) -> Self {
        if self.paths.contains_key(key) {
            let id = self.paths[key];
            IndexView {
                paths: self.paths.remove(key),
                resources: self.resources.map_values(|r: ResourceView<L>| unlisted(r, id)),
                ..self.cleared(id)
            }
        } else {
            self
        }
    }

    /// The index that holds `entries`, each under the number of its own path.
    pub open spec fn rebuilt(windows: bool, entries: Seq<FileEntry<L>>) -> Self
        decreases entries.len(),
    {
        if entries.len() == 0 {
            IndexView::empty(windows)
        } else {
            let before = Self::rebuilt(windows, entries.drop_last());
            let entry = entries.last();
            let key = path_key(windows, buf_bytes(entry.path));
            before.allocated(key).with_file(before.id_for(key), entry)
        }
    }
}

// Membership in the derived lists.

/// `occurrences` holds exactly the positions of the name.
pub proof fn lemma_occurrences(names: Seq<Seq<char>>, name: Seq<char>, id: FileId)
    requires
        names.len() <= u32::MAX,
    ensures
        occurrences(names, name, id).no_duplicates(),
        forall|slot: Slot| #[trigger]
            occurrences(names, name, id).contains(slot) <==> (slot.0 == id && slot.1 < names.len()
                && names[slot.1 as int] == name),
    decreases names.len(),
{
    let all = occurrences(names, name, id);
    if names.len() > 0 {
        let front = names.drop_last();
        let before = occurrences(front, name, id);
        lemma_occurrences(front, name, id);
        let last: Slot = (id, (names.len() - 1) as u32);
        assert forall|slot: Slot| #[trigger] all.contains(slot) <==> (slot.0 == id && slot.1
            < names.len() && names[slot.1 as int] == name) by {
            if slot.1 < front.len() {
                assert(front[slot.1 as int] == names[slot.1 as int]);
            }
            if names.last() == name {
                assert(all == before.push(last));
                if before.contains(slot) {
                    let i = choose|i: int| 0 <= i < before.len() && before[i] == slot;
                    assert(all[i] == slot);
                }
                assert(all[before.len() as int] == last);
                if all.contains(slot) {
                    let i = choose|i: int| 0 <= i < all.len() && all[i] == slot;
                    if i < before.len() {
                        assert(before[i] == slot);
                    }
                }
            }
        }
        if names.last() == name {
            assert(!before.contains(last));
            assert forall|i: int, j: int| 0 <= i < all.len() && 0 <= j < all.len() && i
                != j implies all[i] != all[j] by {
                if i == before.len() {
                    assert(before.contains(before[j]));
                } else if j == before.len() {
                    assert(before.contains(before[i]));
                }
            }
        }
    }
}

/// `kept` holds exactly the slots of other files, and repeats none that the list did not.
pub proof fn lemma_kept(slots: Seq<Slot>, id: FileId)
    ensures
        forall|slot: Slot| #[trigger]
            kept(slots, id).contains(slot) <==> slots.contains(slot) && slot.0 != id,
        slots.no_duplicates() ==> kept(slots, id).no_duplicates(),
    decreases slots.len(),
{
    reveal(Seq::filter);
    let all = kept(slots, id);
    if slots.len() > 0 {
        let front = slots.drop_last();
        let before = kept(front, id);
        let last = slots.last();
        lemma_kept(front, id);
        assert(all == if last.0 != id {
            before.push(last)
        } else {
            before
        });
        assert forall|slot: Slot| #[trigger] all.contains(slot) <==> slots.contains(slot) && slot.0
            != id by {
            if all.contains(slot) {
                let i = choose|i: int| 0 <= i < all.len() && all[i] == slot;
                if i < before.len() {
                    assert(before[i] == slot);
                    assert(before.contains(slot));
                    let j = choose|j: int| 0 <= j < front.len() && front[j] == slot;
                    assert(slots[j] == slot);
                } else {
                    assert(slots[slots.len() - 1] == slot);
                }
            }
            if slots.contains(slot) && slot.0 != id {
                let j = choose|j: int| 0 <= j < slots.len() && slots[j] == slot;
                if j < front.len() {
                    assert(front[j] == slot);
                    assert(before.contains(slot));
                    let i = choose|i: int| 0 <= i < before.len() && before[i] == slot;
                    assert(all[i] == slot);
                } else {
                    assert(all[before.len() as int] == slot);
                }
            }
        }
        if slots.no_duplicates() {
            assert(front.no_duplicates());
            assert forall|i: int, j: int| 0 <= i < all.len() && 0 <= j < all.len() && i
                != j implies all[i] != all[j] by {
                if i == before.len() || j == before.len() {
                    let k = if i == before.len() { j } else { i };
                    assert(before.contains(before[k]));
                    let m = choose|m: int| 0 <= m < front.len() && front[m] == before[k];
                    assert(slots[m] != slots[slots.len() - 1]);
                }
            }
        }
    }
}

// How the tables stay in step.

/// Taking a file's slots out keeps a table in step with the files without that file.
pub proof fn lemma_without_file_in_step<L: Language>(
    lists: SlotLists,
    files: Seq<Option<FileEntry<L>>>,
    table: Table,
    id: FileId,
)
    requires
        in_step(lists, files, table),
        id < files.len(),
    ensures
        in_step(without_file(lists, id), files.update(id as int, None), table),
{
    let less = without_file(lists, id);
    assert forall|name: Seq<char>| #[trigger] slots_of(less, name) == kept(
        slots_of(lists, name),
        id,
    ) by {
        assert(kept(slots_of(lists, name), id).len() == 0 ==> kept(slots_of(lists, name), id)
            =~= Seq::empty());
    }
    assert forall|name: Seq<char>| (#[trigger] slots_of(less, name)).no_duplicates() by {
        lemma_kept(slots_of(lists, name), id);
    }
    assert forall|name: Seq<char>, slot: Slot| #[trigger]
        slots_of(less, name).contains(slot) <==> carries(
            files.update(id as int, None),
            table,
            slot,
            name,
        ) by {
        lemma_kept(slots_of(lists, name), id);
        assert(slots_of(lists, name).contains(slot) <==> carries(files, table, slot, name));
    }
}

/// Adding a file's slots keeps a table in step with the files and that file.
pub proof fn lemma_with_names_in_step<L: Language>(
    lists: SlotLists,
    files: Seq<Option<FileEntry<L>>>,
    table: Table,
    id: FileId,
    entry: FileEntry<L>,
)
    requires
        in_step(lists, files, table),
        id < files.len(),
        files[id as int] is None,
        entry.index.fits(),
    ensures
        in_step(
            with_names(lists, id, entry.index.names(table)),
            files.update(id as int, Some(entry)),
            table,
        ),
{
    let names = entry.index.names(table);
    let more = with_names(lists, id, names);
    let after = files.update(id as int, Some(entry));
    assert forall|name: Seq<char>| #[trigger] slots_of(more, name) == slots_of(lists, name)
        + occurrences(names, name, id) by {
        if !more.contains_key(name) {
            lemma_no_occurrences(names, name, id);
            assert(slots_of(lists, name) + occurrences(names, name, id) =~= Seq::empty());
        }
    }
    assert forall|name: Seq<char>, slot: Slot| #[trigger]
        slots_of(more, name).contains(slot) <==> carries(after, table, slot, name) by {
        lemma_occurrences(names, name, id);
        let a = slots_of(lists, name);
        let b = occurrences(names, name, id);
        lemma_add_contains(a, b, slot);
        assert(a.contains(slot) <==> carries(files, table, slot, name));
    }
    assert forall|name: Seq<char>| (#[trigger] slots_of(more, name)).no_duplicates() by {
        lemma_occurrences(names, name, id);
        let a = slots_of(lists, name);
        let b = occurrences(names, name, id);
        assert forall|i: int, j: int| 0 <= i < a.len() && 0 <= j < b.len() implies a[i] != b[j] by {
            assert(a.contains(a[i]));
            assert(carries(files, table, a[i], name));
            assert(b.contains(b[j]));
        }
        assert(a.no_duplicates());
        assert((a + b).no_duplicates());
    }
    assert forall|name: Seq<char>| #[trigger] more.contains_key(name) implies more[name].len()
        > 0 by {
        if lists.contains_key(name) {
            assert(lists[name].len() > 0);
        } else {
            lemma_occurrences(names, name, id);
            let i = choose|i: int| 0 <= i < names.len() && names[i] == name;
            assert(occurrences(names, name, id).contains((id, i as u32)));
        }
    }
}

proof fn lemma_add_contains(a: Seq<Slot>, b: Seq<Slot>, slot: Slot)
    ensures
        (a + b).contains(slot) <==> a.contains(slot) || b.contains(slot),
{
    if a.contains(slot) {
        let i = choose|i: int| 0 <= i < a.len() && a[i] == slot;
        assert((a + b)[i] == slot);
    }
    if b.contains(slot) {
        let i = choose|i: int| 0 <= i < b.len() && b[i] == slot;
        assert((a + b)[a.len() + i] == slot);
    }
    if (a + b).contains(slot) {
        let i = choose|i: int| 0 <= i < (a + b).len() && (a + b)[i] == slot;
        if i < a.len() {
            assert(a[i] == slot);
        } else {
            assert(b[i - a.len()] == slot);
        }
    }
}

/// Purging the names of a file takes all its slots out of a table in step.
pub proof fn lemma_purge_is_enough<L: Language>(
    lists: SlotLists,
    files: Seq<Option<FileEntry<L>>>,
    table: Table,
    id: FileId,
)
    requires
        in_step(lists, files, table),
        id < files.len(),
    ensures
        files[id as int] matches Some(entry) ==> purged(lists, entry.index.names(table), id)
            == without_file(lists, id),
        files[id as int] is None ==> without_file(lists, id) == lists,
{
    let keys = match files[id as int] {
        Some(entry) => entry.index.names(table),
        None => Seq::empty(),
    };
    assert forall|name: Seq<char>| !keys.contains(name) implies #[trigger] kept(
        slots_of(lists, name),
        id,
    ) == slots_of(lists, name) by {
        let slots = slots_of(lists, name);
        assert forall|i: int| 0 <= i < slots.len() implies (#[trigger] slots[i]).0 != id by {
            assert(slots.contains(slots[i]));
            assert(carries(files, table, slots[i], name));
            if slots[i].0 == id {
                assert(keys[slots[i].1 as int] == name);
            }
        }
        lemma_kept_all(slots, id);
    }
    assert forall|name: Seq<char>| #[trigger] lists.contains_key(name) <==> slots_of(
        lists,
        name,
    ).len() > 0 by {}
    assert(purged(lists, keys, id) =~= without_file(lists, id));
    if files[id as int] is None {
        assert(without_file(lists, id) =~= lists);
    }
}

/// Reserving a number leaves a table in step.
pub proof fn lemma_push_none_in_step<L: Language>(
    lists: SlotLists,
    files: Seq<Option<FileEntry<L>>>,
    table: Table,
)
    requires
        in_step(lists, files, table),
    ensures
        in_step(lists, files.push(None), table),
{
    assert forall|name: Seq<char>, slot: Slot| #[trigger]
        slots_of(lists, name).contains(slot) <==> carries(files.push(None), table, slot, name) by {
        assert(slots_of(lists, name).contains(slot) <==> carries(files, table, slot, name));
    }
}

// What every change keeps.

/// Reserving a number keeps the index consistent.
pub proof fn lemma_allocated_wf<L: Language>(index: IndexView<L>, key: Seq<Seq<u8>>)
    requires
        index.wf(),
        index.paths.contains_key(key) || index.files.len() < max_files(),
    ensures
        index.allocated(key).wf(),
        index.id_for(key) < index.allocated(key).files.len(),
{
    let after = index.allocated(key);
    if !index.paths.contains_key(key) {
        assert forall|table: Table| in_step(#[trigger] after.lists(table), after.files, table) by {
            assert(in_step(index.lists(table), index.files, table));
            lemma_push_none_in_step(index.lists(table), index.files, table);
        }
        assert forall|id: int| 0 <= id < after.files.len() implies (#[trigger] after.files[id] matches Some(
            entry,
        ) ==> entry.index.fits()) by {
            if id < index.files.len() {
                assert(after.files[id] == index.files[id]);
            }
        }
    }
}

/// Taking a file out keeps the index consistent.
pub proof fn lemma_cleared_wf<L: Language>(index: IndexView<L>, id: FileId)
    requires
        index.wf(),
        id < index.files.len(),
    ensures
        index.cleared(id).wf(),
{
    let after = index.cleared(id);
    assert forall|table: Table| in_step(#[trigger] after.lists(table), after.files, table) by {
        assert(in_step(index.lists(table), index.files, table));
        lemma_without_file_in_step(index.lists(table), index.files, table, id);
    }
    assert forall|i: int| 0 <= i < after.files.len() implies (#[trigger] after.files[i] matches Some(
        entry,
    ) ==> entry.index.fits()) by {
        if i != id {
            assert(after.files[i] == index.files[i]);
        }
    }
}

/// Storing a file keeps the index consistent.
pub proof fn lemma_with_file_wf<L: Language>(index: IndexView<L>, id: FileId, entry: FileEntry<L>)
    requires
        index.wf(),
        id < index.files.len(),
        entry.index.fits(),
    ensures
        index.with_file(id, entry).wf(),
{
    let rest = index.cleared(id);
    let after = index.with_file(id, entry);
    lemma_cleared_wf(index, id);
    assert forall|table: Table| in_step(#[trigger] after.lists(table), after.files, table) by {
        assert(in_step(rest.lists(table), rest.files, table));
        lemma_with_names_in_step(rest.lists(table), rest.files, table, id, entry);
    }
    assert forall|i: int| 0 <= i < after.files.len() implies (#[trigger] after.files[i] matches Some(
        e,
    ) ==> e.index.fits()) by {
        if i != id {
            assert(after.files[i] == rest.files[i]);
        }
    }
}

/// Whatever the resources are, the index stays consistent as long as their numbers fit.
pub proof fn lemma_resources_wf<L: Language>(
    index: IndexView<L>,
    resources: Seq<ResourceView<L>>,
)
    requires
        index.wf(),
        resources.len() <= max_files(),
    ensures
        (IndexView { resources, ..index }).wf(),
{
    let after = IndexView { resources, ..index };
    assert forall|table: Table| in_step(#[trigger] after.lists(table), after.files, table) by {
        assert(in_step(index.lists(table), index.files, table));
        assert(after.lists(table) == index.lists(table));
    }
}

/// Forgetting a path keeps the index consistent.
pub proof fn lemma_without_path_wf<L: Language>(index: IndexView<L>, key: Seq<Seq<u8>>)
    requires
        index.wf(),
    ensures
        index.without_path(key).wf(),
{
    if index.paths.contains_key(key) {
        let id = index.paths[key];
        let rest = index.cleared(id);
        lemma_cleared_wf(index, id);
        let after = index.without_path(key);
        assert forall|table: Table| in_step(#[trigger] after.lists(table), after.files, table) by {
            assert(in_step(rest.lists(table), rest.files, table));
            assert(after.lists(table) == rest.lists(table));
        }
    }
}

} // verus!
