//! Questions to the index.
use super::Index;
use crate::model::{carries, in_step, IndexView};
use crate::laws::{law_modules_are_relative, lemma_scripts};
use crate::modules::{init_path, is_outside, split_module};
use crate::paths::join;
use crate::queries::{first_named, sides_match, tagged};
use crate::slots::texts;
use crate::symbols::{
    AliasDef, ClassDef, EventDef, FileEntry, FileOrigin, Language, ResourceEntry, Side, Symbol,
    Table,
};
use crate::tables::{get_slots, slot_names, slots_of, FileId, ResourceId, Slot};
use crate::text::eq_ignore_case;
use smol_str::SmolStr;
use vstd::prelude::*;

verus! {

/// The same items, borrowed.
pub open spec fn lent<'a, T>(items: Seq<(FileId, T)>) -> Seq<(FileId, &'a T)> {
    items.map_values(|item: (FileId, T)| (item.0, &item.1))
}

/// Whether code on side `from` can use what side `target` declares.
fn match_sides(from: Option<Side>, target: Option<Side>) -> (matching: bool)
    ensures
        matching == sides_match(from, target),
{
    match (from, target) {
        (Some(a), Some(b)) => b.is_available_on(a),
        _ => true,
    }
}

fn same_resource(a: Option<ResourceId>, b: Option<ResourceId>) -> (same: bool)
    ensures
        same == (a == b),
{
    match (a, b) {
        (Some(x), Some(y)) => x == y,
        (None, None) => true,
        _ => false,
    }
}

impl<L: Language> ResourceEntry<L> {
    fn imports_file(&self, file: FileId) -> (found: bool)
        ensures
            found == self@.imports_file(file),
    {
        let mut i: usize = 0;
        while i < self.imports.len()
            invariant
                i <= self.imports.len(),
                forall|j: int| 0 <= j < i ==> (#[trigger] self.imports@[j]).0 != file,
            decreases self.imports.len() - i,
        {
            if self.imports[i].0 == file {
                assert(self@.imports[i as int].0 == file);
                return true;
            }
            i = i + 1;
        }
        false
    }

    fn imports_file_for(&self, file: FileId, from: Option<Side>) -> (found: bool)
        ensures
            found == self@.imports_file_for(file, from),
    {
        let mut i: usize = 0;
        while i < self.imports.len()
            invariant
                i <= self.imports.len(),
                forall|j: int|
                    0 <= j < i ==> !((#[trigger] self.imports@[j]).0 == file && sides_match(
                        from,
                        Some(self.imports@[j].1),
                    )),
            decreases self.imports.len() - i,
        {
            if self.imports[i].0 == file && match_sides(from, Some(self.imports[i].1)) {
                assert(self@.imports[i as int].0 == file);
                return true;
            }
            i = i + 1;
        }
        false
    }
}

impl<L: Language> Index<L> {
    /// The known files with their numbers, in the order of the numbers.
    pub fn files(&self) -> (files: Vec<(FileId, &FileEntry<L>)>)
        requires
            self@.wf(),
        ensures
            files@ == lent(self@.known_files(self@.files.len() as int)),
    {
        let mut files: Vec<(FileId, &FileEntry<L>)> = Vec::new();
        let mut i: usize = 0;
        while i < self.files.len()
            invariant
                self@.wf(),
                i <= self.files.len(),
                files@ == lent(self@.known_files(i as int)),
            decreases self.files.len() - i,
        {
            if let Some(entry) = &self.files[i] {
                files.push((i as FileId, entry));
            }
            assert(files@ =~= lent(self@.known_files(i + 1)));
            i = i + 1;
        }
        files
    }

    /// How many files are known.
    pub fn file_count(&self) -> (count: usize)
        requires
            self@.wf(),
        ensures
            count == self@.known_files(self@.files.len() as int).len(),
    {
        let mut count: usize = 0;
        let mut i: usize = 0;
        while i < self.files.len()
            invariant
                self@.wf(),
                count <= i <= self.files.len(),
                count == self@.known_files(i as int).len(),
            decreases self.files.len() - i,
        {
            if self.files[i].is_some() {
                count = count + 1;
            }
            i = i + 1;
        }
        count
    }

    /// The resource that goes by `name`, in whatever ASCII case, with its number.
    pub fn resource_by_name(&self, name: &str) -> (found: Option<(ResourceId, &ResourceEntry<L>)>)
        requires
            self@.wf(),
        ensures
            found matches Some((id, entry)) ==> self@.resource_named(name@) == Some(id)
                && self@.resource(id) == Some(entry@),
            found is None ==> self@.resource_named(name@) is None,
    {
        let mut i: usize = 0;
        while i < self.resources.len()
            invariant
                self@.wf(),
                i <= self.resources.len(),
                first_named(self@.resources, name@, 0) == first_named(
                    self@.resources,
                    name@,
                    i as int,
                ),
            decreases self.resources.len() - i,
        {
            assert(self@.resources[i as int] == self.resources@[i as int]@);
            if eq_ignore_case(self.resources[i].name.as_str(), name) {
                return Some((i as ResourceId, &self.resources[i]));
            }
            i = i + 1;
        }
        None
    }

    /// The resource that a file belongs to.
    pub fn resource_of(&self, file: FileId) -> (resource: Option<&ResourceEntry<L>>)
        ensures
            resource matches Some(entry) ==> self@.resource_of(file) == Some(entry@),
            resource is None ==> self@.resource_of(file) is None,
    {
        match self.owner_of(file) {
            Some(id) => self.resource(id),
            None => None,
        }
    }

    fn owner_of(&self, file: FileId) -> (owner: Option<ResourceId>)
        ensures
            owner == self@.owner_of(file),
    {
        match self.file(file) {
            Some(entry) => entry.resource,
            None => None,
        }
    }

    fn side_of(&self, file: FileId) -> (side: Option<Side>)
        ensures
            side == self@.side_of(file),
    {
        match self.file(file) {
            Some(entry) => entry.side,
            None => None,
        }
    }

    /// Whether symbols of `target` are in scope for code in `from`.
    pub fn is_visible(&self, from: FileId, target: FileId) -> (visible: bool)
        ensures
            visible == self@.visible(from, target),
    {
        if from == target {
            return true;
        }
        match (self.file(from), self.file(target)) {
            (Some(source), Some(other)) => {
                if !match_sides(source.side, other.side) {
                    return false;
                }
                if other.origin == FileOrigin::Stub {
                    return true;
                }
                if same_resource(source.resource, other.resource) {
                    return true;
                }
                match source.resource {
                    Some(a) => match self.resource(a) {
                        Some(r) => r.imports_file_for(target, source.side),
                        None => false,
                    },
                    None => false,
                }
            },
            _ => false,
        }
    }

    fn resource_imports(&self, resource: ResourceId, file: FileId) -> (found: bool)
        ensures
            found == self@.resource_imports(resource, file),
    {
        match self.resource(resource) {
            Some(r) => r.imports_file(file),
            None => false,
        }
    }

    /// Whether two files can share globals at all, regardless of the side either one runs on.
    pub fn is_related(&self, a: FileId, b: FileId) -> (related: bool)
        ensures
            related == self@.related(a, b),
    {
        match (self.file(a), self.file(b)) {
            (Some(first), Some(second)) => {
                if same_resource(first.resource, second.resource) {
                    return true;
                }
                match (first.resource, second.resource) {
                    (Some(x), Some(y)) => self.resource_imports(x, b) || self.resource_imports(y, a),
                    _ => false,
                }
            },
            _ => false,
        }
    }

    fn imports_resource_of(&self, from: FileId, target: FileId) -> (found: bool)
        ensures
            found == self@.imports_resource_of(from, target),
    {
        match (self.resource_of(from), self.owner_of(target)) {
            (Some(resource), Some(owner)) => {
                let mut i: usize = 0;
                while i < resource.imports.len()
                    invariant
                        i <= resource.imports.len(),
                        self@.resource_of(from) == Some(resource@),
                        self@.owner_of(target) == Some(owner),
                        forall|j: int|
                            0 <= j < i ==> self@.owner_of((#[trigger] resource.imports@[j]).0)
                                != Some(owner),
                    decreases resource.imports.len() - i,
                {
                    if same_resource(self.owner_of(resource.imports[i].0), Some(owner)) {
                        assert(self@.owner_of(resource@.imports[i as int].0) == Some(owner));
                        return true;
                    }
                    i = i + 1;
                }
                false
            },
            _ => false,
        }
    }

    /// The slots among `slots` whose file is visible from `from`: strictly what the runtime would
    /// see, for a `Config` of some other resource is a different table.
    fn visible_first(&self, slots: &Vec<Slot>, from: FileId) -> (visible: Vec<Slot>)
        ensures
            visible@ == self@.visible_slots(slots@, from),
    {
        let mut visible: Vec<Slot> = Vec::new();
        let ghost pred = |slot: Slot| self@.visible(from, slot.0);
        let mut i: usize = 0;
        while i < slots.len()
            invariant
                i <= slots.len(),
                pred == (|slot: Slot| self@.visible(from, slot.0)),
                visible@ == slots@.take(i as int).filter(pred),
            decreases slots.len() - i,
        {
            proof {
                reveal(Seq::filter);
                assert(slots@.take(i + 1).drop_last() =~= slots@.take(i as int));
            }
            if self.is_visible(from, slots[i].0) {
                visible.push(slots[i]);
            }
            i = i + 1;
        }
        assert(slots@.take(slots@.len() as int) =~= slots@);
        visible
    }

    fn is_reachable(&self, from: FileId, target: FileId) -> (reachable: bool)
        ensures
            reachable == self@.reachable(from, target),
    {
        match_sides(self.side_of(from), self.side_of(target)) && (self.is_visible(from, target)
            || self.is_related(from, target) || self.imports_resource_of(from, target))
    }

    fn is_own(&self, from: FileId, target: FileId) -> (own: bool)
        ensures
            own == self@.own(from, target),
    {
        let owner = self.owner_of(from);
        target == from || (owner.is_some() && same_resource(self.owner_of(target), owner))
    }
}

impl<L: Language> Index<L> {
    fn global_at(&self, slot: Slot) -> (found: (FileId, &Symbol<L>))
        requires
            exists|name: Seq<char>| carries(self@.files, Table::Globals, slot, name),
        ensures
            found == (slot.0, &self@.global_at(slot)),
    {
        match &self.files[slot.0 as usize] {
            Some(entry) => (slot.0, &entry.index.globals[slot.1 as usize]),
            None => vstd::pervasive::unreached(),
        }
    }

    fn member_at(&self, slot: Slot) -> (found: (FileId, &Symbol<L>))
        requires
            exists|name: Seq<char>| carries(self@.files, Table::Members, slot, name),
        ensures
            found == (slot.0, &self@.member_at(slot)),
    {
        match &self.files[slot.0 as usize] {
            Some(entry) => (slot.0, &entry.index.members[slot.1 as usize].symbol),
            None => vstd::pervasive::unreached(),
        }
    }

    fn class_at(&self, slot: Slot) -> (found: (FileId, &ClassDef<L>))
        requires
            exists|name: Seq<char>| carries(self@.files, Table::Classes, slot, name),
        ensures
            found == (slot.0, &self@.class_at(slot)),
    {
        match &self.files[slot.0 as usize] {
            Some(entry) => (slot.0, &entry.index.classes[slot.1 as usize]),
            None => vstd::pervasive::unreached(),
        }
    }

    fn alias_at(&self, slot: Slot) -> (found: (FileId, &AliasDef<L>))
        requires
            exists|name: Seq<char>| carries(self@.files, Table::Aliases, slot, name),
        ensures
            found == (slot.0, &self@.alias_at(slot)),
    {
        match &self.files[slot.0 as usize] {
            Some(entry) => (slot.0, &entry.index.aliases[slot.1 as usize]),
            None => vstd::pervasive::unreached(),
        }
    }

    /// The globals that `name` stands for in file `from`, with their files.
    pub fn globals_named(&self, name: &str, from: FileId) -> (found: Vec<(FileId, &Symbol<L>)>)
        requires
            self@.wf(),
        ensures
            found@ == lent(self@.globals_at(self@.global_slots(name@, from))),
    {
        let mut found: Vec<(FileId, &Symbol<L>)> = Vec::new();
        let visible = match get_slots(&self.globals, name) {
            Some(slots) => self.visible_first(slots, from),
            None => Vec::new(),
        };
        assert(visible@ == self@.global_slots(name@, from)) by {
            if !self@.globals.contains_key(name@) {
                assert(self@.visible_slots(Seq::empty(), from) =~= Seq::empty()) by {
                    reveal(Seq::filter);
                }
            }
        }
        let mut i: usize = 0;
        while i < visible.len()
            invariant
                self@.wf(),
                i <= visible.len(),
                visible@ == self@.global_slots(name@, from),
                found@ == lent(self@.globals_at(visible@.take(i as int))),
            decreases visible.len() - i,
        {
            proof {
                lemma_filtered(
                    self@,
                    Table::Globals,
                    name@,
                    |slot: Slot| self@.visible(from, slot.0),
                    i as int,
                );
            }
            found.push(self.global_at(visible[i]));
            assert(found@ =~= lent(self@.globals_at(visible@.take(i + 1))));
            i = i + 1;
        }
        assert(visible@.take(visible@.len() as int) =~= visible@);
        found
    }

    /// The members at `slots`.
    fn members_at(&self, owner: &str, slots: &Vec<Slot>) -> (found: Vec<(FileId, &Symbol<L>)>)
        requires
            forall|i: int|
                0 <= i < slots@.len() ==> carries(
                    self@.files,
                    Table::Members,
                    #[trigger] slots@[i],
                    owner@,
                ),
        ensures
            found@ == lent(self@.members_at(slots@)),
    {
        let mut found: Vec<(FileId, &Symbol<L>)> = Vec::new();
        let mut i: usize = 0;
        while i < slots.len()
            invariant
                i <= slots.len(),
                forall|i: int|
                    0 <= i < slots@.len() ==> carries(
                        self@.files,
                        Table::Members,
                        #[trigger] slots@[i],
                        owner@,
                    ),
                found@ == lent(self@.members_at(slots@.take(i as int))),
            decreases slots.len() - i,
        {
            found.push(self.member_at(slots[i]));
            assert(found@ =~= lent(self@.members_at(slots@.take(i + 1))));
            i = i + 1;
        }
        assert(slots@.take(slots@.len() as int) =~= slots@);
        found
    }

    /// Members are looked up per resource rather than per file: libraries such as ox_lib load the
    /// files that extend their table lazily, so importing one file makes all of them reachable.
    pub fn members_of(&self, owner: &str, from: FileId) -> (found: Vec<(FileId, &Symbol<L>)>)
        requires
            self@.wf(),
        ensures
            found@ == lent(self@.members_at(self@.member_slots(owner@, from))),
    {
        let slots = match get_slots(&self.members, owner) {
            Some(slots) => slots,
            None => {
                proof {
                    reveal(Seq::filter);
                    let none = Seq::<Slot>::empty();
                    assert(self@.visible_slots(none, from) =~= none);
                    assert(none.filter(|slot: Slot| self@.reachable(from, slot.0)) =~= none);
                    assert(self@.member_slots(owner@, from) =~= none);
                    assert(lent(self@.members_at(none)) =~= Seq::empty());
                }
                return Vec::new();
            },
        };
        proof {
            assert(in_step(self@.lists(Table::Members), self@.files, Table::Members));
            assert forall|i: int| 0 <= i < slots@.len() implies carries(
                self@.files,
                Table::Members,
                #[trigger] slots@[i],
                owner@,
            ) by {
                assert(slots_of(self@.members, owner@).contains(slots@[i]));
            }
        }
        // `%`-owners name one specific table of one file (a local or a module return), so whoever
        // holds a value of that type may see all of it.
        if !owner.is_empty() && owner.get_char(0) == '%' {
            return self.members_at(owner, slots);
        }
        // A table the resource fills itself (`Config`, `Shared`) is its own; only tables that come
        // from an imported library (`lib`, `qbx`) are completed from that library's other files.
        let in_scope = self.visible_first(slots, from);
        let mut i: usize = 0;
        while i < in_scope.len()
            invariant
                self@.wf(),
                i <= in_scope.len(),
                slots@ == slots_of(self@.members, owner@),
                in_scope@ == self@.visible_slots(slots@, from),
                !(owner@.len() > 0 && owner@[0] == '%'),
                forall|j: int| 0 <= j < i ==> !self@.own(from, (#[trigger] in_scope@[j]).0),
            decreases in_scope.len() - i,
        {
            if self.is_own(from, in_scope[i].0) {
                proof {
                    assert(self@.own(from, self@.visible_slots(slots@, from)[i as int].0));
                    assert forall|j: int| 0 <= j < in_scope@.len() implies carries(
                        self@.files,
                        Table::Members,
                        #[trigger] in_scope@[j],
                        owner@,
                    ) by {
                        lemma_filtered(
                            self@,
                            Table::Members,
                            owner@,
                            |slot: Slot| self@.visible(from, slot.0),
                            j,
                        );
                    }
                }
                return self.members_at(owner, &in_scope);
            }
            i = i + 1;
        }
        let mut reachable: Vec<Slot> = Vec::new();
        let ghost pred = |slot: Slot| self@.reachable(from, slot.0);
        let mut i: usize = 0;
        while i < slots.len()
            invariant
                i <= slots.len(),
                pred == (|slot: Slot| self@.reachable(from, slot.0)),
                reachable@ == slots@.take(i as int).filter(pred),
            decreases slots.len() - i,
        {
            proof {
                reveal(Seq::filter);
                assert(slots@.take(i + 1).drop_last() =~= slots@.take(i as int));
            }
            if self.is_reachable(from, slots[i].0) {
                reachable.push(slots[i]);
            }
            i = i + 1;
        }
        assert(slots@.take(slots@.len() as int) =~= slots@);
        // Classes travel between resources through exports and events, so their members are looked
        // up everywhere; plain tables of unrelated resources are not.
        if reachable.len() > 0 || get_slots(&self.classes, owner).is_none() {
            assert forall|j: int| 0 <= j < reachable@.len() implies carries(
                self@.files,
                Table::Members,
                #[trigger] reachable@[j],
                owner@,
            ) by {
                lemma_filtered(self@, Table::Members, owner@, pred, j);
            }
            return self.members_at(owner, &reachable);
        }
        self.members_at(owner, slots)
    }

    /// Whether any file declares members of `owner`.
    pub fn has_members(&self, owner: &str) -> (found: bool)
        ensures
            found == self@.members.contains_key(owner@),
    {
        get_slots(&self.members, owner).is_some()
    }

    /// The first definition of the class `name`.
    pub fn class(&self, name: &str) -> (found: Option<(FileId, &ClassDef<L>)>)
        requires
            self@.wf(),
        ensures
            found is Some <==> self@.classes.contains_key(name@),
            found matches Some(class) ==> class == (
                self@.classes[name@][0].0,
                &self@.class_at(self@.classes[name@][0]),
            ),
    {
        match get_slots(&self.classes, name) {
            Some(slots) => {
                proof {
                    assert(in_step(self@.lists(Table::Classes), self@.files, Table::Classes));
                    assert(self@.classes.contains_key(name@));
                    assert(slots_of(self@.classes, name@).contains(slots@[0]));
                }
                Some(self.class_at(slots[0]))
            },
            None => None,
        }
    }

    /// Every definition of the class `name`.
    pub fn class_defs(&self, name: &str) -> (found: Vec<(FileId, &ClassDef<L>)>)
        requires
            self@.wf(),
        ensures
            found@ == lent(self@.classes_at(slots_of(self@.classes, name@))),
    {
        let mut found: Vec<(FileId, &ClassDef<L>)> = Vec::new();
        if let Some(slots) = get_slots(&self.classes, name) {
            let mut i: usize = 0;
            while i < slots.len()
                invariant
                    self@.wf(),
                    i <= slots.len(),
                    slots@ == slots_of(self@.classes, name@),
                    found@ == lent(self@.classes_at(slots@.take(i as int))),
                decreases slots.len() - i,
            {
                proof {
                    assert(in_step(self@.lists(Table::Classes), self@.files, Table::Classes));
                    assert(slots_of(self@.classes, name@).contains(slots@[i as int]));
                }
                found.push(self.class_at(slots[i]));
                assert(found@ =~= lent(self@.classes_at(slots@.take(i + 1))));
                i = i + 1;
            }
            assert(slots@.take(slots@.len() as int) =~= slots@);
        }
        found
    }

    /// The first definition of the alias `name`.
    pub fn alias(&self, name: &str) -> (found: Option<(FileId, &AliasDef<L>)>)
        requires
            self@.wf(),
        ensures
            found is Some <==> self@.aliases.contains_key(name@),
            found matches Some(alias) ==> alias == (
                self@.aliases[name@][0].0,
                &self@.alias_at(self@.aliases[name@][0]),
            ),
    {
        match get_slots(&self.aliases, name) {
            Some(slots) => {
                proof {
                    assert(in_step(self@.lists(Table::Aliases), self@.files, Table::Aliases));
                    assert(self@.aliases.contains_key(name@));
                    assert(slots_of(self@.aliases, name@).contains(slots@[0]));
                }
                Some(self.alias_at(slots[0]))
            },
            None => None,
        }
    }

    /// The names of all classes, then of all aliases; each part in no stated order.
    pub fn class_names(&self) -> (names: Vec<&SmolStr>)
        ensures
            exists|classes: Seq<Seq<char>>, aliases: Seq<Seq<char>>|
                #![trigger classes.to_set(), aliases.to_set()]
                texts(names@) == classes + aliases && classes.no_duplicates()
                    && aliases.no_duplicates() && classes.to_set() == self@.classes.dom()
                    && aliases.to_set() == self@.aliases.dom(),
    {
        let mut names = slot_names(&self.classes);
        let mut aliases = slot_names(&self.aliases);
        let ghost first = texts(names@);
        let ghost second = texts(aliases@);
        names.append(&mut aliases);
        assert(texts(names@) =~= first + second);
        proof {
            let _ = (first.to_set(), second.to_set());
        }
        names
    }

    /// Every global visible from `from`, for completion.
    pub fn visible_globals(&self, from: FileId) -> (found: Vec<(FileId, &Symbol<L>)>)
        requires
            self@.wf(),
        ensures
            found@ == lent(self@.visible_globals(from, self@.files.len() as int)),
    {
        let mut found: Vec<(FileId, &Symbol<L>)> = Vec::new();
        let mut i: usize = 0;
        while i < self.files.len()
            invariant
                self@.wf(),
                i <= self.files.len(),
                found@ == lent(self@.visible_globals(from, i as int)),
            decreases self.files.len() - i,
        {
            let id = i as FileId;
            if let Some(entry) = &self.files[i] {
                if self.is_visible(from, id) {
                    push_all(&mut found, id, &entry.index.globals);
                }
            }
            assert(found@ =~= lent(self@.visible_globals(from, i + 1)));
            i = i + 1;
        }
        found
    }

    /// The exports of the resource that goes by `resource`, in whatever ASCII case.
    pub fn exports_of(&self, resource: &str) -> (found: Vec<(FileId, &Symbol<L>)>)
        requires
            self@.wf(),
        ensures
            found@ == lent(self@.exports_of(resource@)),
    {
        let mut found: Vec<(FileId, &Symbol<L>)> = Vec::new();
        if let Some((_, entry)) = self.resource_by_name(resource) {
            let ghost listed = entry@.files;
            let mut i: usize = 0;
            assert(lent(self@.exports(listed.take(0))) =~= Seq::empty());
            while i < entry.files.len()
                invariant
                    i <= entry.files.len(),
                    listed == entry.files@,
                    found@ == lent(self@.exports(listed.take(i as int))),
                decreases entry.files.len() - i,
            {
                assert(listed.take(i + 1).drop_last() =~= listed.take(i as int));
                let id = entry.files[i];
                if let Some(file) = self.file(id) {
                    push_all(&mut found, id, &file.index.exports);
                }
                assert(found@ =~= lent(self@.exports(listed.take(i + 1))));
                i = i + 1;
            }
            assert(listed.take(listed.len() as int) =~= listed);
        } else {
            assert(lent(self@.exports_of(resource@)) =~= Seq::empty());
        }
        found
    }

    /// The events that all files register or trigger.
    pub fn events(&self) -> (found: Vec<(FileId, &EventDef<L>)>)
        requires
            self@.wf(),
        ensures
            found@ == lent(self@.events(self@.files.len() as int)),
    {
        let mut found: Vec<(FileId, &EventDef<L>)> = Vec::new();
        let mut i: usize = 0;
        while i < self.files.len()
            invariant
                self@.wf(),
                i <= self.files.len(),
                found@ == lent(self@.events(i as int)),
            decreases self.files.len() - i,
        {
            if let Some(entry) = &self.files[i] {
                push_all(&mut found, i as FileId, &entry.index.events);
            }
            assert(found@ =~= lent(self@.events(i + 1)));
            i = i + 1;
        }
        found
    }

    /// Resolves a `require` argument the way ox_lib does: dotted or slashed, relative to the
    /// resource root, optionally prefixed with `@resource`.
    pub fn resolve_require(&self, module: &str, from: FileId) -> (file: Option<FileId>)
        requires
            self@.wf(),
        ensures
            file == self@.required(module@, from),
            file matches Some(id) ==> self@.module_home(module@, from) is Some && self@.lies_below(
                self@.module_home(module@, from)->0,
                module@,
                id,
            ),
    {
        let name = split_module(module);
        let path = match name.path {
            Some(path) => path,
            None => return None,
        };
        if is_outside(self.windows, path.as_str()) {
            return None;
        }
        let home = match name.resource {
            Some(resource) => match self.resource_by_name(resource.as_str()) {
                Some((_, entry)) => entry,
                None => return None,
            },
            None => match self.resource_of(from) {
                Some(entry) => entry,
                None => return None,
            },
        };
        proof {
            law_modules_are_relative(module@);
            lemma_scripts(self@.windows, path@);
        }
        let script = path.clone().concat(".lua");
        let file = self.file_id(join(home.root.as_path(), script.as_str()).as_path());
        if let Some(id) = file {
            assert(self@.leads_to(home@, script@, id));
            return file;
        }
        let script = init_path(path.as_str());
        let file = self.file_id(join(home.root.as_path(), script.as_str()).as_path());
        if let Some(id) = file {
            assert(self@.leads_to(home@, script@, id));
        }
        file
    }
}

/// Appends each item next to the number of its file.
fn push_all<'a, T>(found: &mut Vec<(FileId, &'a T)>, id: FileId, items: &'a Vec<T>)
    ensures
        final(found)@ == old(found)@ + lent(tagged(id, items@)),
{
    let ghost before = found@;
    let mut i: usize = 0;
    while i < items.len()
        invariant
            i <= items.len(),
            found@ == before + lent(tagged(id, items@)).take(i as int),
        decreases items.len() - i,
    {
        found.push((id, &items[i]));
        assert(found@ =~= before + lent(tagged(id, items@)).take(i + 1));
        i = i + 1;
    }
    assert(lent(tagged(id, items@)).take(items@.len() as int) =~= lent(tagged(id, items@)));
}

/// A slot that a filter leaves under a name is carried by the files.
proof fn lemma_filtered<L: Language>(
    index: IndexView<L>,
    table: Table,
    name: Seq<char>,
    pred: spec_fn(Slot) -> bool,
    i: int,
)
    requires
        index.wf(),
        0 <= i < slots_of(index.lists(table), name).filter(pred).len(),
    ensures
        carries(index.files, table, slots_of(index.lists(table), name).filter(pred)[i], name),
{
    let slots = slots_of(index.lists(table), name);
    let left = slots.filter(pred);
    assert(left.contains(left[i]));
    slots.lemma_filter_contains_rev(pred, left[i]);
    assert(in_step(index.lists(table), index.files, table));
}

} // verus!
