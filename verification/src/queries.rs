//! What can be asked of an index, as mathematics: which files see which, and which symbols a name
//! stands for.
use crate::model::{max_files, IndexView};
use crate::modules::{
    init_script, is_script, is_tried, leaves_root, required_path, required_resource,
};
use crate::paths::{adjoins, joined, path_key, path_parts};
use crate::symbols::{
    AliasDef, ClassDef, EventDef, FileEntry, FileOrigin, Language, ResourceView, Side, Symbol,
};
use crate::tables::{slots_of, FileId, ResourceId, Slot};
use crate::text::same_ignoring_case;
use vstd::prelude::*;

verus! {

/// Whether code on side `from` can use what side `target` declares. An unknown side excludes
/// nothing.
pub open spec fn sides_match(from: Option<Side>, target: Option<Side>) -> bool {
    match (from, target) {
        (Some(a), Some(b)) => b.reaches(a),
        _ => true,
    }
}

/// The first resource from position `i` on whose name is `name` but for ASCII case; the number of
/// resources where there is none.
pub open spec fn first_named<L: Language>(
    resources: Seq<ResourceView<L>>,
    name: Seq<char>,
    i: int,
) -> int
    decreases resources.len() - i,
{
    if i >= resources.len() || same_ignoring_case(resources[i].name, name) {
        i
    } else {
        first_named(resources, name, i + 1)
    }
}

impl<L: Language> ResourceView<L> {
    /// Whether the resource imports `file`.
    pub open spec fn imports_file(self, file: FileId) -> bool {
        exists|i: int| 0 <= i < self.imports.len() && (#[trigger] self.imports[i]).0 == file
    }

    /// Whether the resource imports `file` on a side available to code on side `from`.
    pub open spec fn imports_file_for(self, file: FileId, from: Option<Side>) -> bool {
        exists|i: int|
            0 <= i < self.imports.len() && (#[trigger] self.imports[i]).0 == file && sides_match(
                from,
                Some(self.imports[i].1),
            )
    }
}

impl<L: Language> IndexView<L> {
    /// The file under `id`.
    pub open spec fn file(self, id: FileId) -> Option<FileEntry<L>> {
        if id < self.files.len() {
            self.files[id as int]
        } else {
            None
        }
    }

    /// The resource under `id`.
    pub open spec fn resource(self, id: ResourceId) -> Option<ResourceView<L>> {
        if id < self.resources.len() {
            Some(self.resources[id as int])
        } else {
            None
        }
    }

    /// The number of the file at a path.
    pub open spec fn file_id(self, bytes: Seq<u8>) -> Option<FileId> {
        let key = path_key(self.windows, bytes);
        if self.paths.contains_key(key) {
            Some(self.paths[key])
        } else {
            None
        }
    }

    /// Whether there is a number for a path, or one left to give it.
    pub open spec fn has_room(self, bytes: Seq<u8>) -> bool {
        self.file_id(bytes) is Some || self.files.len() < max_files()
    }

    /// The number of the resource that goes by `name`, in whatever ASCII case.
    pub open spec fn resource_named(self, name: Seq<char>) -> Option<ResourceId> {
        let i = first_named(self.resources, name, 0);
        if i < self.resources.len() {
            Some(i as ResourceId)
        } else {
            None
        }
    }

    /// The side that a file runs on, where the file and its side are known.
    pub open spec fn side_of(self, file: FileId) -> Option<Side> {
        match self.file(file) {
            Some(entry) => entry.side,
            None => None,
        }
    }

    /// The number of the resource that a file says it belongs to.
    pub open spec fn owner_of(self, file: FileId) -> Option<ResourceId> {
        match self.file(file) {
            Some(entry) => entry.resource,
            None => None,
        }
    }

    /// The resource that a file belongs to.
    pub open spec fn resource_of(self, file: FileId) -> Option<ResourceView<L>> {
        match self.owner_of(file) {
            Some(r) => self.resource(r),
            None => None,
        }
    }

    /// Whether symbols of `target` are in scope for code in `from`: within one file always;
    /// otherwise the sides must match, and `target` is a stub, or both files belong to the same
    /// resource or to none, or the resource of `from` imports `target` on a matching side.
    pub open spec fn visible(self, from: FileId, target: FileId) -> bool {
        from == target || match (self.file(from), self.file(target)) {
            (Some(source), Some(other)) => {
                &&& sides_match(source.side, other.side)
                &&& {
                    ||| other.origin == FileOrigin::Stub
                    ||| source.resource == other.resource
                    ||| match source.resource {
                        Some(a) => match self.resource(a) {
                            Some(r) => r.imports_file_for(target, source.side),
                            None => false,
                        },
                        None => false,
                    }
                }
            },
            _ => false,
        }
    }

    /// Whether a resource imports a file, on whatever side.
    pub open spec fn resource_imports(self, resource: ResourceId, file: FileId) -> bool {
        match self.resource(resource) {
            Some(r) => r.imports_file(file),
            None => false,
        }
    }

    /// Whether two files can share globals at all, regardless of the side either one runs on.
    pub open spec fn related(self, a: FileId, b: FileId) -> bool {
        match (self.file(a), self.file(b)) {
            (Some(first), Some(second)) => {
                ||| first.resource == second.resource
                ||| match (first.resource, second.resource) {
                    (Some(x), Some(y)) => self.resource_imports(x, b) || self.resource_imports(y, a),
                    _ => false,
                }
            },
            _ => false,
        }
    }

    /// Whether the resource of `from` imports any file of the resource of `target`.
    pub open spec fn imports_resource_of(self, from: FileId, target: FileId) -> bool {
        match (self.resource_of(from), self.owner_of(target)) {
            (Some(resource), Some(owner)) => exists|i: int|
                0 <= i < resource.imports.len() && self.owner_of(
                    (#[trigger] resource.imports[i]).0,
                ) == Some(owner),
            _ => false,
        }
    }

    /// Whether members declared in `target` can be reached from `from`: members are looked up per
    /// resource rather than per file.
    pub open spec fn reachable(self, from: FileId, target: FileId) -> bool {
        &&& sides_match(self.side_of(from), self.side_of(target))
        &&& self.visible(from, target) || self.related(from, target) || self.imports_resource_of(
            from,
            target,
        )
    }

    /// Whether `target` is `from` itself or belongs to the same resource.
    pub open spec fn own(self, from: FileId, target: FileId) -> bool {
        target == from || (self.owner_of(from) is Some && self.owner_of(target) == self.owner_of(
            from,
        ))
    }

    /// The slots among `slots` whose file is visible from `from`.
    pub open spec fn visible_slots(self, slots: Seq<Slot>, from: FileId) -> Seq<Slot> {
        slots.filter(|slot: Slot| self.visible(from, slot.0))
    }

    /// The slots of the globals that `name` stands for in file `from`.
    pub open spec fn global_slots(self, name: Seq<char>, from: FileId) -> Seq<Slot> {
        self.visible_slots(slots_of(self.globals, name), from)
    }

    /// The slots of the members of `owner` that code in file `from` may use.
    ///
    /// An owner that starts with `%` names one table of one file, so whoever holds it may use all
    /// of it. A table that the file's own resource fills is its own: only what is visible counts.
    /// Other tables are completed from everything reachable; a class that nothing reachable extends
    /// is looked up everywhere.
    pub open spec fn member_slots(self, owner: Seq<char>, from: FileId) -> Seq<Slot> {
        let slots = slots_of(self.members, owner);
        let in_scope = self.visible_slots(slots, from);
        let reachable = slots.filter(|slot: Slot| self.reachable(from, slot.0));
        if owner.len() > 0 && owner[0] == '%' {
            slots
        } else if exists|i: int|
            0 <= i < in_scope.len() && self.own(from, (#[trigger] in_scope[i]).0) {
            in_scope
        } else if reachable.len() > 0 || !self.classes.contains_key(owner) {
            reachable
        } else {
            slots
        }
    }

    /// The global at a slot.
    pub open spec fn global_at(self, slot: Slot) -> Symbol<L> {
        self.files[slot.0 as int]->0.index.globals@[slot.1 as int]
    }

    /// The member at a slot.
    pub open spec fn member_at(self, slot: Slot) -> Symbol<L> {
        self.files[slot.0 as int]->0.index.members@[slot.1 as int].symbol
    }

    /// The class at a slot.
    pub open spec fn class_at(self, slot: Slot) -> ClassDef<L> {
        self.files[slot.0 as int]->0.index.classes@[slot.1 as int]
    }

    /// The alias at a slot.
    pub open spec fn alias_at(self, slot: Slot) -> AliasDef<L> {
        self.files[slot.0 as int]->0.index.aliases@[slot.1 as int]
    }

    /// The globals at slots, with their files.
    pub open spec fn globals_at(self, slots: Seq<Slot>) -> Seq<(FileId, Symbol<L>)> {
        slots.map_values(|slot: Slot| (slot.0, self.global_at(slot)))
    }

    /// The members at slots, with their files.
    pub open spec fn members_at(self, slots: Seq<Slot>) -> Seq<(FileId, Symbol<L>)> {
        slots.map_values(|slot: Slot| (slot.0, self.member_at(slot)))
    }

    /// The classes at slots, with their files.
    pub open spec fn classes_at(self, slots: Seq<Slot>) -> Seq<(FileId, ClassDef<L>)> {
        slots.map_values(|slot: Slot| (slot.0, self.class_at(slot)))
    }

    /// The known files among the first `n` numbers, with their numbers.
    pub open spec fn known_files(self, n: int) -> Seq<(FileId, FileEntry<L>)>
        decreases n,
    {
        if n <= 0 {
            Seq::empty()
        } else {
            match self.files[n - 1] {
                Some(entry) => self.known_files(n - 1).push(((n - 1) as FileId, entry)),
                None => self.known_files(n - 1),
            }
        }
    }

    /// The globals of the files visible from `from` among the first `n` numbers.
    pub open spec fn visible_globals(self, from: FileId, n: int) -> Seq<(FileId, Symbol<L>)>
        decreases n,
    {
        if n <= 0 {
            Seq::empty()
        } else {
            let before = self.visible_globals(from, n - 1);
            let id = (n - 1) as FileId;
            match self.files[n - 1] {
                Some(entry) if self.visible(from, id) => before + tagged(id, entry.index.globals@),
                _ => before,
            }
        }
    }

    /// The events of the files among the first `n` numbers.
    pub open spec fn events(self, n: int) -> Seq<(FileId, EventDef<L>)>
        decreases n,
    {
        if n <= 0 {
            Seq::empty()
        } else {
            let before = self.events(n - 1);
            match self.files[n - 1] {
                Some(entry) => before + tagged((n - 1) as FileId, entry.index.events@),
                _ => before,
            }
        }
    }

    /// The exports of the listed files that are known, in order.
    pub open spec fn exports(self, listed: Seq<FileId>) -> Seq<(FileId, Symbol<L>)>
        decreases listed.len(),
    {
        if listed.len() == 0 {
            Seq::empty()
        } else {
            let before = self.exports(listed.drop_last());
            match self.file(listed.last()) {
                Some(entry) => before + tagged(listed.last(), entry.index.exports@),
                None => before,
            }
        }
    }

    /// The exports of the resource that goes by `name`.
    pub open spec fn exports_of(self, name: Seq<char>) -> Seq<(FileId, Symbol<L>)> {
        match self.resource_named(name) {
            Some(r) => self.exports(self.resources[r as int].files),
            None => Seq::empty(),
        }
    }

    /// The resource that a required module is looked up in: the one after the `@`, or that of the
    /// requiring file.
    pub open spec fn module_home(self, module: Seq<char>, from: FileId) -> Option<ResourceView<L>> {
        match required_resource(module) {
            Some(name) => match self.resource_named(name) {
                Some(r) => self.resource(r),
                None => None,
            },
            None => self.resource_of(from),
        }
    }

    /// Whether `rest` is the path of a script, relative to a resource root, and leads to file `id`.
    pub open spec fn leads_to(self, home: ResourceView<L>, rest: Seq<char>, id: FileId) -> bool {
        &&& self.file_id(joined(home.root, rest)) == Some(id)
        &&& is_script(self.windows, rest)
    }

    /// Whether file `id` is found below the root of a resource: one of the relative paths that the
    /// argument stands for leads to it, and where that path is adjoined to the root, the components
    /// of the root are in front.
    pub open spec fn lies_below(
        self,
        home: ResourceView<L>,
        module: Seq<char>,
        id: FileId,
    ) -> bool {
        exists|rest: Seq<char>| #[trigger]
            self.leads_to(home, rest, id) && is_tried(module, rest) && (adjoins(home.root, rest)
                ==> path_parts(home.root).is_prefix_of(path_parts(joined(home.root, rest))))
    }

    /// The file that a `require` argument stands for in file `from`: the script of that name below
    /// the resource root, or else the one that the directory of that name is required by.
    pub open spec fn required(self, module: Seq<char>, from: FileId) -> Option<FileId> {
        match (required_path(module), self.module_home(module, from)) {
            (Some(path), Some(home)) if !leaves_root(self.windows, path) => {
                let file = self.file_id(joined(home.root, path + ".lua"@));
                if file is Some {
                    file
                } else {
                    self.file_id(joined(home.root, init_script(path)))
                }
            },
            _ => None,
        }
    }
}

/// Each item next to the number of its file.
pub open spec fn tagged<T>(id: FileId, items: Seq<T>) -> Seq<(FileId, T)> {
    items.map_values(|item: T| (id, item))
}

} // verus!
