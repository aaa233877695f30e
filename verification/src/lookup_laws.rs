//! What the answers of the index mean, in terms of the files and resources that it holds.
use crate::index::lookup::lent;
use crate::laws::{law_files_are_the_known, lemma_filter_all, lemma_filter_members};
use crate::model::{carries, in_step, IndexView};
use crate::paths::buf_bytes;
use crate::queries::{first_named, sides_match, tagged};
use crate::slots::texts;
use crate::symbols::{FileEntry, FileOrigin, Language, ResourceEntry, ResourceView, Side, Table};
use crate::tables::{slots_of, FileId, ResourceId, Slot};
use crate::text::{same_ignoring_case, smol_text};
use smol_str::SmolStr;
use vstd::prelude::*;

verus! {

/// Whether code on one side can use what another declares: an unknown side excludes nothing, and
/// otherwise the declaring side has the other's bit among those it is available on.
pub open spec fn sides_meet(from: Option<Side>, target: Option<Side>) -> bool {
    from is None || target is None || (target->0).available_on & (from->0).code != 0
}

/// Code can use what a side declares exactly where that side says so, or where one is unknown.
pub proof fn law_sides_meet(from: Option<Side>, target: Option<Side>)
    ensures
        sides_match(from, target) == sides_meet(from, target),
{
}

/// A number leads to the file stored under it, and through it to its side, its resource's number and
/// its resource; an unused number leads to nothing.
pub proof fn law_numbers_lead_to_what_is_stored<L: Language>(
    index: IndexView<L>,
    id: FileId,
    r: ResourceId,
)
    ensures
        id >= index.files.len() ==> index.file(id) is None,
        id < index.files.len() ==> index.file(id) == index.files[id as int],
        r >= index.resources.len() ==> index.resource(r) is None,
        r < index.resources.len() ==> index.resource(r) == Some(index.resources[r as int]),
        index.file(id) is None ==> index.side_of(id) is None && index.owner_of(id) is None
            && index.resource_of(id) is None,
        index.file(id) matches Some(entry) ==> index.side_of(id) == entry.side && index.owner_of(id)
            == entry.resource && index.resource_of(id) == match entry.resource {
            Some(owner) => index.resource(owner),
            None => None,
        },
{
}

/// There is room for a path that has a number, and for any other while numbers are left.
pub proof fn law_room_is_a_number_left<L: Language>(index: IndexView<L>, bytes: Seq<u8>)
    ensures
        index.has_room(bytes) <==> index.file_id(bytes) is Some || index.files.len()
            < 0x1_0000_0000,
{
}

// Who sees whom.

/// Files of one resource, and files of none, see each other wherever their sides meet.
pub proof fn law_one_resource_is_seen<L: Language>(
    index: IndexView<L>,
    from: FileId,
    target: FileId,
    source: FileEntry<L>,
    other: FileEntry<L>,
)
    requires
        index.file(from) == Some(source),
        index.file(target) == Some(other),
        source.resource == other.resource,
        sides_meet(source.side, other.side),
    ensures
        index.visible(from, target),
{
}

/// A file that the own resource imports on a side that meets is seen wherever the sides meet.
pub proof fn law_imports_are_seen<L: Language>(
    index: IndexView<L>,
    from: FileId,
    target: FileId,
    source: FileEntry<L>,
    other: FileEntry<L>,
    r: ResourceId,
    i: int,
)
    requires
        index.file(from) == Some(source),
        index.file(target) == Some(other),
        source.resource == Some(r),
        r < index.resources.len(),
        0 <= i < index.resources[r as int].imports.len(),
        index.resources[r as int].imports[i].0 == target,
        sides_meet(source.side, Some(index.resources[r as int].imports[i].1)),
        sides_meet(source.side, other.side),
    ensures
        index.visible(from, target),
{
    assert(index.resources[r as int].imports_file_for(target, source.side));
}

/// The built-in library is seen by every known file whose side meets its own.
pub proof fn law_built_ins_are_seen<L: Language>(
    index: IndexView<L>,
    from: FileId,
    target: FileId,
    source: FileEntry<L>,
    other: FileEntry<L>,
)
    requires
        index.file(from) == Some(source),
        index.file(target) == Some(other),
        other.origin == FileOrigin::Stub,
        sides_meet(source.side, other.side),
    ensures
        index.visible(from, target),
{
}

/// Another file is seen only for a reason: both files are known, their sides meet, and it is built
/// in, of the same resource, or imported on a side that meets.
pub proof fn law_what_is_seen_has_a_reason<L: Language>(
    index: IndexView<L>,
    from: FileId,
    target: FileId,
)
    requires
        index.visible(from, target),
        from != target,
    ensures
        index.file(from) is Some,
        index.file(target) is Some,
        sides_meet((index.file(from)->0).side, (index.file(target)->0).side),
        ({
            let source = index.file(from)->0;
            let other = index.file(target)->0;
            ||| other.origin == FileOrigin::Stub
            ||| source.resource == other.resource
            ||| source.resource is Some && source.resource->0 < index.resources.len() && exists|
                i: int,
            |
                0 <= i < index.resources[source.resource->0 as int].imports.len() && (
                #[trigger] index.resources[source.resource->0 as int].imports[i]).0 == target
                    && sides_meet(
                    source.side,
                    Some(index.resources[source.resource->0 as int].imports[i].1),
                )
        }),
{
    let source = index.file(from)->0;
    let other = index.file(target)->0;
    if other.origin != FileOrigin::Stub && source.resource != other.resource {
        let r = index.resource(source.resource->0)->0;
        let i = choose|i: int|
            0 <= i < r.imports.len() && (#[trigger] r.imports[i]).0 == target && sides_match(
                source.side,
                Some(r.imports[i].1),
            );
        assert(index.resources[source.resource->0 as int].imports[i].0 == target);
    }
}

/// Whether a resource imports a file, on whatever side.
pub open spec fn has_import<L: Language>(
    index: IndexView<L>,
    resource: Option<ResourceId>,
    file: FileId,
) -> bool {
    &&& resource is Some
    &&& resource->0 < index.resources.len()
    &&& exists|i: int|
        0 <= i < index.resources[resource->0 as int].imports.len() && (
        #[trigger] index.resources[resource->0 as int].imports[i]).0 == file
}

/// Two known files can share globals exactly if they belong to the same resource or to none, or if
/// both belong to one and one of these imports the other file.
pub proof fn law_related_means_shared_or_imported<L: Language>(
    index: IndexView<L>,
    a: FileId,
    b: FileId,
)
    ensures
        index.related(a, b) <==> index.file(a) is Some && index.file(b) is Some && ((index.file(
            a,
        )->0).resource == (index.file(b)->0).resource || ((index.file(a)->0).resource is Some && (
        index.file(b)->0).resource is Some && (has_import(index, (index.file(a)->0).resource, b)
            || has_import(index, (index.file(b)->0).resource, a)))),
{
    if index.file(a) is Some && index.file(b) is Some {
        let x = (index.file(a)->0).resource;
        let y = (index.file(b)->0).resource;
        if x is Some && y is Some {
            lemma_has_import(index, x->0, b);
            lemma_has_import(index, y->0, a);
        }
    }
}

proof fn lemma_has_import<L: Language>(index: IndexView<L>, r: ResourceId, file: FileId)
    ensures
        index.resource_imports(r, file) == has_import(index, Some(r), file),
{
    if r < index.resources.len() {
        let resource = index.resources[r as int];
        if resource.imports_file(file) {
            let i = choose|i: int|
                0 <= i < resource.imports.len() && (#[trigger] resource.imports[i]).0 == file;
            assert(index.resources[r as int].imports[i].0 == file);
        }
        if has_import(index, Some(r), file) {
            let i = choose|i: int|
                0 <= i < index.resources[r as int].imports.len() && (
                #[trigger] index.resources[r as int].imports[i]).0 == file;
            assert(resource.imports[i].0 == file);
        }
    }
}

/// A resource imports that of a file exactly if one of its imports is a file of that resource.
pub proof fn law_one_import_imports_the_resource<L: Language>(
    index: IndexView<L>,
    from: FileId,
    target: FileId,
)
    ensures
        index.imports_resource_of(from, target) <==> index.resource_of(from) is Some
            && index.owner_of(target) is Some && exists|i: int|
            0 <= i < (index.resource_of(from)->0).imports.len() && index.owner_of(
                (#[trigger] (index.resource_of(from)->0).imports[i]).0,
            ) == index.owner_of(target),
{
    if index.resource_of(from) is Some && index.owner_of(target) is Some {
        let resource = index.resource_of(from)->0;
        if index.imports_resource_of(from, target) {
            let i = choose|i: int|
                0 <= i < resource.imports.len() && index.owner_of(
                    (#[trigger] resource.imports[i]).0,
                ) == Some(index.owner_of(target)->0);
            assert(index.owner_of(resource.imports[i].0) == index.owner_of(target));
        }
    }
}

/// Members of a file can be reached exactly where the sides meet and the file is seen, related, or
/// of a resource that the own one imports.
pub proof fn law_reach_goes_by_resource<L: Language>(
    index: IndexView<L>,
    from: FileId,
    target: FileId,
)
    ensures
        index.reachable(from, target) <==> sides_meet(index.side_of(from), index.side_of(target))
            && (index.visible(from, target) || index.related(from, target)
            || index.imports_resource_of(from, target)),
        index.own(from, target) <==> from == target || (index.owner_of(from) is Some
            && index.owner_of(from) == index.owner_of(target)),
{
}

// Members.

/// Whether entry `i` of a known file's members belongs to a table.
pub open spec fn declares_member<L: Language>(
    index: IndexView<L>,
    id: FileId,
    i: u32,
    owner: Seq<char>,
) -> bool {
    &&& id < index.files.len()
    &&& index.files[id as int] is Some
    &&& i < (index.files[id as int]->0).index.members.len()
    &&& smol_text((index.files[id as int]->0).index.members[i as int].owner) == owner
}

/// Whether an owner names one table of one file.
pub open spec fn names_one_table(owner: Seq<char>) -> bool {
    owner.len() > 0 && owner[0] == '%'
}

/// Whether a file that is seen, and is the own one or of the own resource, fills a table.
pub open spec fn fills_itself<L: Language>(
    index: IndexView<L>,
    owner: Seq<char>,
    from: FileId,
) -> bool {
    exists|id: FileId, i: u32| #[trigger]
        declares_member(index, id, i, owner) && index.visible(from, id) && index.own(from, id)
}

/// Whether any member of a table can be reached.
pub open spec fn reaches_some<L: Language>(
    index: IndexView<L>,
    owner: Seq<char>,
    from: FileId,
) -> bool {
    exists|id: FileId, i: u32| #[trigger]
        declares_member(index, id, i, owner) && index.reachable(from, id)
}

proof fn lemma_members<L: Language>(index: IndexView<L>, owner: Seq<char>)
    requires
        index.wf(),
    ensures
        slots_of(index.members, owner).no_duplicates(),
        forall|slot: Slot| #[trigger]
            slots_of(index.members, owner).contains(slot) <==> declares_member(
                index,
                slot.0,
                slot.1,
                owner,
            ),
{
    assert(in_step(index.lists(Table::Members), index.files, Table::Members));
    assert forall|slot: Slot| #[trigger]
        slots_of(index.members, owner).contains(slot) <==> declares_member(
            index,
            slot.0,
            slot.1,
            owner,
        ) by {
        assert(slots_of(index.members, owner).contains(slot) <==> carries(
            index.files,
            Table::Members,
            slot,
            owner,
        ));
    }
}

proof fn lemma_own_in_scope<L: Language>(index: IndexView<L>, owner: Seq<char>, from: FileId)
    requires
        index.wf(),
    ensures
        ({
            let in_scope = index.visible_slots(slots_of(index.members, owner), from);
            fills_itself(index, owner, from) <==> exists|i: int|
                0 <= i < in_scope.len() && index.own(from, (#[trigger] in_scope[i]).0)
        }),
{
    let slots = slots_of(index.members, owner);
    let in_scope = index.visible_slots(slots, from);
    lemma_members(index, owner);
    lemma_filter_members(slots, |slot: Slot| index.visible(from, slot.0));
    if fills_itself(index, owner, from) {
        let (id, i) = choose|id: FileId, i: u32| #[trigger]
            declares_member(index, id, i, owner) && index.visible(from, id) && index.own(from, id);
        assert(slots.contains((id, i)));
        assert(in_scope.contains((id, i)));
        let k = choose|k: int| 0 <= k < in_scope.len() && in_scope[k] == (id, i);
        assert(index.own(from, in_scope[k].0));
    }
    if exists|i: int| 0 <= i < in_scope.len() && index.own(from, (#[trigger] in_scope[i]).0) {
        let k = choose|k: int|
            0 <= k < in_scope.len() && index.own(from, (#[trigger] in_scope[k]).0);
        assert(in_scope.contains(in_scope[k]));
        assert(declares_member(index, in_scope[k].0, in_scope[k].1, owner));
    }
}

proof fn lemma_some_reached<L: Language>(index: IndexView<L>, owner: Seq<char>, from: FileId)
    requires
        index.wf(),
    ensures
        reaches_some(index, owner, from) <==> slots_of(index.members, owner).filter(
            |slot: Slot| index.reachable(from, slot.0),
        ).len() > 0,
{
    let slots = slots_of(index.members, owner);
    let pred = |slot: Slot| index.reachable(from, slot.0);
    let left = slots.filter(pred);
    lemma_members(index, owner);
    lemma_filter_members(slots, pred);
    if reaches_some(index, owner, from) {
        let (id, i) = choose|id: FileId, i: u32| #[trigger]
            declares_member(index, id, i, owner) && index.reachable(from, id);
        assert(slots.contains((id, i)));
        assert(left.contains((id, i)));
    }
    if left.len() > 0 {
        assert(left.contains(left[0]));
        assert(declares_member(index, left[0].0, left[0].1, owner));
    }
}

/// Of an owner that names one table, every declared member is found, once, from everywhere.
pub proof fn law_private_members_are_complete<L: Language>(
    index: IndexView<L>,
    owner: Seq<char>,
    from: FileId,
    id: FileId,
    i: u32,
)
    requires
        index.wf(),
        names_one_table(owner),
    ensures
        index.member_slots(owner, from).contains((id, i)) <==> declares_member(index, id, i, owner),
        index.member_slots(owner, from).no_duplicates(),
{
    lemma_members(index, owner);
}

/// Of a table that the own resource fills, every declared member in a file that is seen is found,
/// once, and no other.
pub proof fn law_own_members_are_the_seen<L: Language>(
    index: IndexView<L>,
    owner: Seq<char>,
    from: FileId,
    id: FileId,
    i: u32,
)
    requires
        index.wf(),
        !names_one_table(owner),
        fills_itself(index, owner, from),
    ensures
        index.member_slots(owner, from).contains((id, i)) <==> declares_member(index, id, i, owner)
            && index.visible(from, id),
        index.member_slots(owner, from).no_duplicates(),
{
    lemma_members(index, owner);
    lemma_own_in_scope(index, owner, from);
    lemma_filter_members(
        slots_of(index.members, owner),
        |slot: Slot| index.visible(from, slot.0),
    );
}

/// Of a table from elsewhere, every declared member that can be reached is found, once, and no other:
/// where any can be reached, and where the table is no class.
pub proof fn law_library_members_are_the_reachable<L: Language>(
    index: IndexView<L>,
    owner: Seq<char>,
    from: FileId,
    id: FileId,
    i: u32,
)
    requires
        index.wf(),
        !names_one_table(owner),
        !fills_itself(index, owner, from),
        reaches_some(index, owner, from) || !index.classes.contains_key(owner),
    ensures
        index.member_slots(owner, from).contains((id, i)) <==> declares_member(index, id, i, owner)
            && index.reachable(from, id),
        index.member_slots(owner, from).no_duplicates(),
{
    lemma_members(index, owner);
    lemma_own_in_scope(index, owner, from);
    lemma_some_reached(index, owner, from);
    lemma_filter_members(
        slots_of(index.members, owner),
        |slot: Slot| index.reachable(from, slot.0),
    );
}

/// Of a class that the own resource does not fill and none of whose members can be reached, every
/// declared member is found, once: classes travel between resources.
pub proof fn law_class_members_are_complete<L: Language>(
    index: IndexView<L>,
    owner: Seq<char>,
    from: FileId,
    id: FileId,
    i: u32,
)
    requires
        index.wf(),
        !names_one_table(owner),
        !fills_itself(index, owner, from),
        !reaches_some(index, owner, from),
        index.classes.contains_key(owner),
    ensures
        index.member_slots(owner, from).contains((id, i)) <==> declares_member(index, id, i, owner),
        index.member_slots(owner, from).no_duplicates(),
{
    lemma_members(index, owner);
    lemma_own_in_scope(index, owner, from);
    lemma_some_reached(index, owner, from);
}

/// What a filter leaves stands in the order of the list.
pub proof fn lemma_filter_order<A>(items: Seq<A>, pred: spec_fn(A) -> bool, i: int, j: int)
    requires
        0 <= i < j < items.filter(pred).len(),
    ensures
        exists|a: int, b: int|
            #![trigger items[a], items[b]]
            0 <= a < b < items.len() && items[a] == items.filter(pred)[i] && items[b]
                == items.filter(pred)[j],
    decreases items.len(),
{
    reveal(Seq::filter);
    if items.len() > 0 {
        let front = items.drop_last();
        let before = front.filter(pred);
        let all = items.filter(pred);
        if j < before.len() {
            lemma_filter_order(front, pred, i, j);
            let (a, b) = choose|a: int, b: int|
                #![trigger front[a], front[b]]
                0 <= a < b < front.len() && front[a] == before[i] && front[b] == before[j];
            assert(items[a] == all[i] && items[b] == all[j]);
        } else {
            assert(before.contains(before[i]));
            front.lemma_filter_contains_rev(pred, before[i]);
            let a = choose|a: int| 0 <= a < front.len() && front[a] == before[i];
            assert(items[a] == all[i] && items[items.len() - 1] == all[j]);
        }
    }
}

/// Whether two items stand in a list, the first in front of the second.
pub open spec fn in_order<A>(items: Seq<A>, first: A, second: A) -> bool {
    exists|a: int, b: int|
        #![trigger items[a], items[b]]
        0 <= a < b < items.len() && items[a] == first && items[b] == second
}

/// Members and globals are found in the order in which their table holds them.
pub proof fn law_answers_keep_the_order<L: Language>(
    index: IndexView<L>,
    name: Seq<char>,
    from: FileId,
    i: int,
    j: int,
)
    requires
        0 <= i < j,
    ensures
        j < index.member_slots(name, from).len() ==> in_order(
            slots_of(index.members, name),
            index.member_slots(name, from)[i],
            index.member_slots(name, from)[j],
        ),
        j < index.global_slots(name, from).len() ==> in_order(
            slots_of(index.globals, name),
            index.global_slots(name, from)[i],
            index.global_slots(name, from)[j],
        ),
{
    let seen = |slot: Slot| index.visible(from, slot.0);
    let reached = |slot: Slot| index.reachable(from, slot.0);
    let members = slots_of(index.members, name);
    if j < index.global_slots(name, from).len() {
        lemma_filter_order(slots_of(index.globals, name), seen, i, j);
    }
    let found = index.member_slots(name, from);
    if j < found.len() {
        if found == members.filter(seen) {
            lemma_filter_order(members, seen, i, j);
        } else if found == members.filter(reached) {
            lemma_filter_order(members, reached, i, j);
        } else {
            assert(members[i] == found[i] && members[j] == found[j]);
        }
    }
}

// Symbol tables.

/// A name has the slots that its table holds under it; a name that the table lacks has none.
pub proof fn law_slots_are_those_under_the_name(
    lists: Map<Seq<char>, Seq<Slot>>,
    name: Seq<char>,
    names: Seq<&SmolStr>,
    i: int,
)
    ensures
        lists.contains_key(name) ==> slots_of(lists, name) == lists[name],
        !lists.contains_key(name) ==> slots_of(lists, name).len() == 0,
        texts(names).len() == names.len(),
        0 <= i < names.len() ==> texts(names)[i] == smol_text(*names[i]),
{
}

/// What is said of a resource is what its entry holds.
pub proof fn law_resources_are_what_they_hold<L: Language>(entry: ResourceEntry<L>)
    ensures
        entry@.name == smol_text(entry.name),
        entry@.root == buf_bytes(entry.root),
        entry@.manifest_path == buf_bytes(entry.manifest_path),
        entry@.manifest == entry.manifest,
        entry@.files == entry.files@,
        entry@.imports == entry.imports@,
        entry@.escrowed == entry.escrowed,
{
}

/// The globals of a name are exactly those that known files declare, each once, seen or not.
pub proof fn law_tables_hold_what_files_declare<L: Language>(
    index: IndexView<L>,
    name: Seq<char>,
    id: FileId,
    i: u32,
)
    requires
        index.wf(),
    ensures
        ({
            let known = id < index.files.len() && index.files[id as int] is Some;
            let file = (index.files[id as int]->0).index;
            &&& slots_of(index.globals, name).contains((id, i)) <==> known && i
                < file.globals.len() && smol_text(file.globals[i as int].name) == name
            &&& slots_of(index.members, name).contains((id, i)) <==> known && i
                < file.members.len() && smol_text(file.members[i as int].owner) == name
            &&& slots_of(index.classes, name).contains((id, i)) <==> known && i
                < file.classes.len() && smol_text(file.classes[i as int].name) == name
            &&& slots_of(index.aliases, name).contains((id, i)) <==> known && i
                < file.aliases.len() && smol_text(file.aliases[i as int].name) == name
        }),
        slots_of(index.globals, name).no_duplicates(),
        slots_of(index.members, name).no_duplicates(),
        slots_of(index.classes, name).no_duplicates(),
        slots_of(index.aliases, name).no_duplicates(),
        index.globals.contains_key(name) <==> slots_of(index.globals, name).len() > 0,
        index.members.contains_key(name) <==> slots_of(index.members, name).len() > 0,
        index.classes.contains_key(name) <==> slots_of(index.classes, name).len() > 0,
        index.aliases.contains_key(name) <==> slots_of(index.aliases, name).len() > 0,
{
    let slot: Slot = (id, i);
    assert(in_step(index.lists(Table::Globals), index.files, Table::Globals));
    assert(in_step(index.lists(Table::Members), index.files, Table::Members));
    assert(in_step(index.lists(Table::Classes), index.files, Table::Classes));
    assert(in_step(index.lists(Table::Aliases), index.files, Table::Aliases));
    assert(slots_of(index.globals, name).contains(slot) <==> carries(
        index.files,
        Table::Globals,
        slot,
        name,
    ));
    assert(slots_of(index.members, name).contains(slot) <==> carries(
        index.files,
        Table::Members,
        slot,
        name,
    ));
    assert(slots_of(index.classes, name).contains(slot) <==> carries(
        index.files,
        Table::Classes,
        slot,
        name,
    ));
    assert(slots_of(index.aliases, name).contains(slot) <==> carries(
        index.files,
        Table::Aliases,
        slot,
        name,
    ));
}

/// A slot leads to the entry at its position in its file's list, and answers come with their file.
pub proof fn law_slots_lead_to_their_entries<L: Language>(
    index: IndexView<L>,
    slots: Seq<Slot>,
    k: int,
)
    requires
        0 <= k < slots.len(),
        slots[k].0 < index.files.len(),
        index.files[slots[k].0 as int] is Some,
    ensures
        ({
            let file = (index.files[slots[k].0 as int]->0).index;
            let i = slots[k].1 as int;
            &&& index.globals_at(slots)[k] == (slots[k].0, file.globals[i])
            &&& index.members_at(slots)[k] == (slots[k].0, file.members[i].symbol)
            &&& index.classes_at(slots)[k] == (slots[k].0, file.classes[i])
            &&& index.class_at(slots[k]) == file.classes[i]
            &&& index.alias_at(slots[k]) == file.aliases[i]
        }),
        index.globals_at(slots).len() == slots.len(),
        index.members_at(slots).len() == slots.len(),
        index.classes_at(slots).len() == slots.len(),
{
}

/// The globals of a name that are found are those that a file declares which is seen, each once.
pub proof fn law_globals_found_are_the_seen<L: Language>(
    index: IndexView<L>,
    name: Seq<char>,
    from: FileId,
    id: FileId,
    i: u32,
)
    requires
        index.wf(),
    ensures
        index.global_slots(name, from).contains((id, i)) <==> index.visible(from, id) && id
            < index.files.len() && index.files[id as int] is Some && i < (
        index.files[id as int]->0).index.globals.len() && smol_text(
            (index.files[id as int]->0).index.globals[i as int].name,
        ) == name,
        index.global_slots(name, from).no_duplicates(),
{
    law_tables_hold_what_files_declare(index, name, id, i);
    lemma_filter_members(
        slots_of(index.globals, name),
        |slot: Slot| index.visible(from, slot.0),
    );
}

// Lists over all files.

/// Lending a list changes nothing in it.
pub proof fn law_lending_keeps_the_list<T>(items: Seq<(FileId, T)>, i: int)
    ensures
        lent(items).len() == items.len(),
        0 <= i < items.len() ==> lent(items)[i] == (items[i].0, &items[i].1),
{
}

/// Files are listed in the order of their numbers.
pub proof fn law_files_are_listed_in_order<L: Language>(index: IndexView<L>, n: int, i: int, j: int)
    requires
        0 <= n <= index.files.len() <= 0x1_0000_0000,
        0 <= i < j < index.known_files(n).len(),
    ensures
        index.known_files(n)[i].0 < index.known_files(n)[j].0,
    decreases n,
{
    if n > 0 {
        let before = index.known_files(n - 1);
        if j < before.len() {
            law_files_are_listed_in_order(index, n - 1, i, j);
        } else {
            law_files_are_the_known(index, n - 1, before[i].0, before[i].1);
            assert(before.contains(before[i]));
        }
    }
}

/// Tells the items of one file.
pub open spec fn of_file<T>(id: FileId) -> spec_fn((FileId, T)) -> bool {
    |item: (FileId, T)| item.0 == id
}

proof fn lemma_of_file<T>(before: Seq<(FileId, T)>, new: FileId, items: Seq<T>, id: FileId)
    ensures
        (before + tagged(new, items)).filter(of_file(id)) == before.filter(of_file(id)) + (if new
            == id {
            tagged(new, items)
        } else {
            Seq::empty()
        }),
{
    let more = tagged(new, items);
    Seq::filter_distributes_over_add(before, more, of_file(id));
    if new == id {
        lemma_filter_all(more, of_file::<T>(id));
    } else {
        let left = more.filter(of_file::<T>(id));
        if left.len() > 0 {
            more.lemma_filter_pred(of_file::<T>(id), 0);
            assert(left.contains(left[0]));
            more.lemma_filter_contains_rev(of_file::<T>(id), left[0]);
        }
        assert(left =~= Seq::empty());
    }
}

/// Whether items stand in the order of their files' numbers, all below `n`.
pub open spec fn by_file<T>(items: Seq<(FileId, T)>, n: int) -> bool {
    &&& forall|i: int, j: int| 0 <= i < j < items.len() ==> items[i].0 <= items[j].0
    &&& forall|i: int| 0 <= i < items.len() ==> (#[trigger] items[i]).0 < n
}

/// The globals offered from a file come by file, in the order of numbers, and of each file that is
/// seen in the order of the file, all of them; of no other file comes any.
pub proof fn law_offer_goes_file_by_file<L: Language>(
    index: IndexView<L>,
    from: FileId,
    n: int,
    id: FileId,
)
    requires
        0 <= n <= index.files.len() <= 0x1_0000_0000,
    ensures
        by_file(index.visible_globals(from, n), n),
        ({
            let part = index.visible_globals(from, n).filter(of_file(id));
            if id < n && index.files[id as int] is Some && index.visible(from, id) {
                let globals = (index.files[id as int]->0).index.globals@;
                &&& part.len() == globals.len()
                &&& forall|k: int| 0 <= k < globals.len() ==> part[k] == (id, globals[k])
            } else {
                part.len() == 0
            }
        }),
    decreases n,
{
    reveal(Seq::filter);
    if n > 0 {
        law_offer_goes_file_by_file(index, from, n - 1, id);
        let new = (n - 1) as FileId;
        if index.files[n - 1] is Some && index.visible(from, new) {
            lemma_of_file(
                index.visible_globals(from, n - 1),
                new,
                (index.files[n - 1]->0).index.globals@,
                id,
            );
        }
    }
}

/// The events come by file, in the order of numbers, and of each known file in the order of the
/// file, all of them.
pub proof fn law_events_go_file_by_file<L: Language>(index: IndexView<L>, n: int, id: FileId)
    requires
        0 <= n <= index.files.len() <= 0x1_0000_0000,
    ensures
        by_file(index.events(n), n),
        ({
            let part = index.events(n).filter(of_file(id));
            if id < n && index.files[id as int] is Some {
                let events = (index.files[id as int]->0).index.events@;
                &&& part.len() == events.len()
                &&& forall|k: int| 0 <= k < events.len() ==> part[k] == (id, events[k])
            } else {
                part.len() == 0
            }
        }),
    decreases n,
{
    reveal(Seq::filter);
    if n > 0 {
        law_events_go_file_by_file(index, n - 1, id);
        if index.files[n - 1] is Some {
            lemma_of_file(
                index.events(n - 1),
                (n - 1) as FileId,
                (index.files[n - 1]->0).index.events@,
                id,
            );
        }
    }
}

/// The exports of a list of files are those of its parts, one after the other.
pub proof fn law_exports_go_file_by_file<L: Language>(
    index: IndexView<L>,
    a: Seq<FileId>,
    b: Seq<FileId>,
)
    ensures
        index.exports(a + b) == index.exports(a) + index.exports(b),
    decreases b.len(),
{
    if b.len() == 0 {
        assert(a + b =~= a);
        assert(index.exports(a) + index.exports(b) =~= index.exports(a));
    } else {
        law_exports_go_file_by_file(index, a, b.drop_last());
        assert((a + b).drop_last() =~= a + b.drop_last());
        assert(index.exports(a + b) =~= index.exports(a) + index.exports(b));
    }
}

/// The exports of one file are all that it declares, in order; an unknown file has none.
pub proof fn law_exports_are_those_declared<L: Language>(index: IndexView<L>, id: FileId, k: int)
    ensures
        index.file(id) is None ==> index.exports(seq![id]).len() == 0,
        index.file(id) matches Some(entry) ==> {
            &&& index.exports(seq![id]).len() == entry.index.exports.len()
            &&& 0 <= k < entry.index.exports.len() ==> index.exports(seq![id])[k] == (
                id,
                entry.index.exports[k],
            )
        },
        index.exports(Seq::empty()).len() == 0,
{
    assert(seq![id].drop_last() =~= Seq::empty());
    assert(index.exports(seq![id].drop_last()).len() == 0);
}

/// A resource's exports are those of the files that it lists; an unknown resource has none.
pub proof fn law_exports_are_of_the_named_resource<L: Language>(index: IndexView<L>, name: Seq<char>)
    ensures
        index.resource_named(name) matches Some(r) ==> index.exports_of(name) == index.exports(
            index.resources[r as int].files,
        ),
        index.resource_named(name) is None ==> index.exports_of(name).len() == 0,
{
}

/// A name stands for the first resource that goes by it but for the case of ASCII letters.
pub proof fn law_names_stand_for_the_first<L: Language>(
    index: IndexView<L>,
    name: Seq<char>,
    j: int,
)
    requires
        index.resources.len() <= 0x1_0000_0000,
    ensures
        index.resource_named(name) matches Some(r) ==> r < index.resources.len()
            && same_ignoring_case(index.resources[r as int].name, name) && (0 <= j < r
            ==> !same_ignoring_case(index.resources[j].name, name)),
        index.resource_named(name) is None ==> (0 <= j < index.resources.len()
            ==> !same_ignoring_case(index.resources[j].name, name)),
{
    lemma_first_named(index.resources, name, 0, j);
}

proof fn lemma_first_named<L: Language>(
    resources: Seq<ResourceView<L>>,
    name: Seq<char>,
    i: int,
    j: int,
)
    requires
        0 <= i <= resources.len(),
    ensures
        i <= first_named(resources, name, i) <= resources.len(),
        i <= j < first_named(resources, name, i) ==> !same_ignoring_case(
            resources[j].name,
            name,
        ),
        first_named(resources, name, i) < resources.len() ==> same_ignoring_case(
            resources[first_named(resources, name, i)].name,
            name,
        ),
    decreases resources.len() - i,
{
    if i < resources.len() && !same_ignoring_case(resources[i].name, name) {
        lemma_first_named(resources, name, i + 1, j);
    }
}

} // verus!
