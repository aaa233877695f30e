//! What holds of the index whatever it went through.
use crate::model::{
    carries, in_step, lemma_allocated_wf, lemma_cleared_wf, lemma_occurrences, lemma_purge_is_enough,
    lemma_with_file_wf, lemma_without_path_wf, max_files, other_file, other_import, stubs, unlisted,
    IndexView,
};
use crate::modules::{
    below, first_separator, init_script, is_script, is_separator, is_tried, leaves_root, names_resource,
    relative, required_path, trimmed,
};
use crate::paths::{
    adjoins, backslashes_part, buf_bytes, drives_stay, folded, is_folded, joined, lemma_folded,
    lossy_text, normalized, path_key, starts_doubled,
};
use crate::queries::{first_named, sides_match, tagged};
use crate::slots::{
    elsewhere, kept, lemma_no_occurrences, occurrences, with_names, without_file, SlotLists,
};
use crate::symbols::{FileEntry, FileOrigin, Language, ResourceView, Symbol, Table};
use crate::tables::{slots_of, FileId, Slot};
use crate::text::{replaced, smol_text};
use vstd::prelude::*;

verus! {

/// Reserving a number is done once: the second time gives the same number and changes nothing, and
/// every path known before keeps its number.
pub proof fn law_allocate_once<L: Language>(
    index: IndexView<L>,
    key: Seq<Seq<u8>>,
    other: Seq<Seq<u8>>,
)
    ensures
        index.allocated(key).id_for(key) == index.id_for(key),
        index.allocated(key).allocated(key) == index.allocated(key),
        index.paths.contains_key(other) ==> index.allocated(key).paths.contains_key(other)
            && index.allocated(key).paths[other] == index.paths[other],
{
}

/// The number of a forgotten path is not handed out again: the path gets a new one.
pub proof fn law_numbers_are_not_reused<L: Language>(index: IndexView<L>, key: Seq<Seq<u8>>)
    requires
        index.wf(),
        index.paths.contains_key(key),
        index.files.len() < max_files(),
    ensures
        index.without_path(key).id_for(key) != index.id_for(key),
        index.without_path(key).id_for(key) == index.files.len(),
{
}

/// A stored file is read back as it was stored, and every other number keeps its file.
pub proof fn law_stored_file_is_read_back<L: Language>(
    index: IndexView<L>,
    id: FileId,
    entry: FileEntry<L>,
    other: FileId,
)
    requires
        id < index.files.len(),
    ensures
        index.with_file(id, entry).file(id) == Some(entry),
        other != id ==> index.with_file(id, entry).file(other) == index.file(other),
{
}

/// Every global of a stored file is found by its name from every file that sees the file, and from
/// the file itself.
pub proof fn law_stored_globals_are_found<L: Language>(
    index: IndexView<L>,
    id: FileId,
    entry: FileEntry<L>,
    i: int,
    from: FileId,
)
    requires
        index.wf(),
        id < index.files.len(),
        entry.index.fits(),
        0 <= i < entry.index.globals.len(),
    ensures
        index.with_file(id, entry).visible(id, id),
        index.with_file(id, entry).visible(from, id) ==> index.with_file(id, entry).globals_at(
            index.with_file(id, entry).global_slots(smol_text(entry.index.globals[i].name), from),
        ).contains((id, entry.index.globals[i])),
{
    let after = index.with_file(id, entry);
    lemma_with_file_wf(index, id, entry);
    if after.visible(from, id) {
        law_lookup_finds_the_visible(
            after,
            smol_text(entry.index.globals[i].name),
            from,
            id,
            i,
        );
    }
}

/// Every entry of a stored file is in its symbol table, under its name.
pub proof fn law_stored_entries_are_in_their_tables<L: Language>(
    index: IndexView<L>,
    id: FileId,
    entry: FileEntry<L>,
    table: Table,
    i: int,
)
    requires
        index.wf(),
        id < index.files.len(),
        entry.index.fits(),
        0 <= i < entry.index.names(table).len(),
    ensures
        slots_of(
            index.with_file(id, entry).lists(table),
            entry.index.names(table)[i],
        ).contains((id, i as u32)),
{
    let after = index.with_file(id, entry);
    lemma_with_file_wf(index, id, entry);
    assert(in_step(after.lists(table), after.files, table));
    assert(carries(after.files, table, (id, i as u32), entry.index.names(table)[i]));
}

/// The exports of a stored file are among those of the resource it belongs to.
pub proof fn law_stored_exports_are_found<L: Language>(
    index: IndexView<L>,
    id: FileId,
    entry: FileEntry<L>,
    name: Seq<char>,
    i: int,
)
    requires
        index.wf(),
        id < index.files.len(),
        index.resource_named(name) is Some,
        entry.resource == index.resource_named(name),
        0 <= i < entry.index.exports.len(),
    ensures
        index.with_file(id, entry).exports_of(name).contains((id, entry.index.exports[i])),
{
    let after = index.with_file(id, entry);
    let r = index.resource_named(name)->0;
    lemma_first_named_bounds(index.resources, name, 0);
    lemma_same_names(index.resources, after.resources, name, 0);
    let files = after.resources[r as int].files;
    assert(files.contains(id)) by {
        let before = index.resources[r as int].files;
        if before.contains(id) {
        } else {
            assert(files == before.push(id));
            assert(files[before.len() as int] == id);
        }
    }
    let at = choose|at: int| 0 <= at < files.len() && files[at] == id;
    lemma_exports_hold(after, files, at, i);
}

proof fn lemma_first_named_bounds<L: Language>(
    resources: Seq<ResourceView<L>>,
    name: Seq<char>,
    i: int,
)
    requires
        0 <= i <= resources.len(),
    ensures
        i <= first_named(resources, name, i) <= resources.len(),
    decreases resources.len() - i,
{
    if i < resources.len() {
        lemma_first_named_bounds(resources, name, i + 1);
    }
}

proof fn lemma_same_names<L: Language>(
    a: Seq<ResourceView<L>>,
    b: Seq<ResourceView<L>>,
    name: Seq<char>,
    i: int,
)
    requires
        a.len() == b.len(),
        forall|k: int| 0 <= k < a.len() ==> (#[trigger] a[k]).name == b[k].name,
        0 <= i <= a.len(),
    ensures
        first_named(a, name, i) == first_named(b, name, i),
    decreases a.len() - i,
{
    if i < a.len() {
        lemma_same_names(a, b, name, i + 1);
    }
}

proof fn lemma_exports_hold<L: Language>(
    index: IndexView<L>,
    listed: Seq<FileId>,
    at: int,
    i: int,
)
    requires
        0 <= at < listed.len(),
        index.file(listed[at]) is Some,
        0 <= i < index.file(listed[at])->0.index.exports.len(),
    ensures
        index.exports(listed).contains((listed[at], index.file(listed[at])->0.index.exports[i])),
    decreases listed.len(),
{
    let item = (listed[at], index.file(listed[at])->0.index.exports[i]);
    let front = listed.drop_last();
    let before = index.exports(front);
    let all = index.exports(listed);
    if at < front.len() {
        lemma_exports_hold(index, front, at, i);
        let k = choose|k: int| 0 <= k < before.len() && before[k] == item;
        assert(all[k] == item);
    } else {
        assert(all[before.len() + i] == item);
    }
}

/// A resource lists no file twice by storing files.
pub proof fn law_files_are_listed_once<L: Language>(
    index: IndexView<L>,
    id: FileId,
    entry: FileEntry<L>,
    r: int,
)
    requires
        0 <= r < index.resources.len(),
        index.resources[r].files.no_duplicates(),
    ensures
        index.with_file(id, entry).resources[r].files.no_duplicates(),
{
    let before = index.resources[r].files;
    let after = index.with_file(id, entry).resources[r].files;
    if after != before {
        assert(after == before.push(id));
        assert(!before.contains(id));
        assert forall|i: int, j: int| 0 <= i < after.len() && 0 <= j < after.len() && i
            != j implies after[i] != after[j] by {
            if i == before.len() {
                assert(before.contains(before[j]));
            } else if j == before.len() {
                assert(before.contains(before[i]));
            }
        }
    }
}

/// A lookup finds every visible global of that name.
pub proof fn law_lookup_finds_the_visible<L: Language>(
    index: IndexView<L>,
    name: Seq<char>,
    from: FileId,
    id: FileId,
    i: int,
)
    requires
        index.wf(),
        index.file(id) is Some,
        index.visible(from, id),
        0 <= i < index.file(id)->0.index.globals.len(),
        smol_text(index.file(id)->0.index.globals[i].name) == name,
    ensures
        index.globals_at(index.global_slots(name, from)).contains(
            (id, index.file(id)->0.index.globals[i]),
        ),
{
    let entry = index.file(id)->0;
    let slot: Slot = (id, i as u32);
    let slots = slots_of(index.globals, name);
    let pred = |slot: Slot| index.visible(from, slot.0);
    assert(in_step(index.lists(Table::Globals), index.files, Table::Globals));
    assert(index.files[id as int] is Some);
    assert(entry.index.fits());
    assert(carries(index.files, Table::Globals, slot, name));
    assert(slots.contains(slot));
    let at = choose|at: int| 0 <= at < slots.len() && slots[at] == slot;
    slots.lemma_filter_contains(pred, at);
    let left = index.global_slots(name, from);
    assert(left.contains(slot));
    let found = choose|k: int| 0 <= k < left.len() && left[k] == slot;
    assert(index.globals_at(left)[found] == (id, entry.index.globals[i]));
}

/// A lookup finds nothing else: what it finds is a global of that name in a known file that is
/// visible.
pub proof fn law_lookup_finds_only_the_visible<L: Language>(
    index: IndexView<L>,
    name: Seq<char>,
    from: FileId,
    k: int,
)
    requires
        index.wf(),
        0 <= k < index.global_slots(name, from).len(),
    ensures
        ({
            let (id, symbol) = index.globals_at(index.global_slots(name, from))[k];
            &&& index.visible(from, id)
            &&& index.file(id) is Some
            &&& index.file(id)->0.index.globals@.contains(symbol)
            &&& smol_text(symbol.name) == name
        }),
{
    let slots = slots_of(index.globals, name);
    let pred = |slot: Slot| index.visible(from, slot.0);
    let left = index.global_slots(name, from);
    assert(left.contains(left[k]));
    slots.lemma_filter_contains_rev(pred, left[k]);
    slots.lemma_filter_pred(pred, k);
    assert(in_step(index.lists(Table::Globals), index.files, Table::Globals));
    assert(carries(index.files, Table::Globals, left[k], name));
    let entry = index.files[left[k].0 as int]->0;
    assert(entry.index.globals@[left[k].1 as int] == index.global_at(left[k]));
}

/// The globals offered from a file are those of the known files it sees, all of them.
pub proof fn law_offered_globals_are_the_visible<L: Language>(
    index: IndexView<L>,
    from: FileId,
    n: int,
    item: (FileId, Symbol<L>),
)
    requires
        0 <= n <= index.files.len() <= max_files(),
    ensures
        index.visible_globals(from, n).contains(item) <==> (item.0 < n && index.visible(
            from,
            item.0,
        ) && index.files[item.0 as int] is Some
            && index.files[item.0 as int]->0.index.globals@.contains(item.1)),
    decreases n,
{
    if n > 0 {
        law_offered_globals_are_the_visible(index, from, n - 1, item);
        let before = index.visible_globals(from, n - 1);
        let id = (n - 1) as FileId;
        if index.files[n - 1] is Some && index.visible(from, id) {
            let globals = index.files[n - 1]->0.index.globals@;
            let more = tagged(id, globals);
            let all = before + more;
            assert(index.visible_globals(from, n) == all);
            if all.contains(item) {
                let k = choose|k: int| 0 <= k < all.len() && all[k] == item;
                if k < before.len() {
                    assert(before[k] == item);
                } else {
                    assert(more[k - before.len()] == item);
                    assert(globals[k - before.len()] == item.1);
                }
            }
            if before.contains(item) {
                let k = choose|k: int| 0 <= k < before.len() && before[k] == item;
                assert(all[k] == item);
            }
            if item.0 == id && globals.contains(item.1) {
                let k = choose|k: int| 0 <= k < globals.len() && globals[k] == item.1;
                assert(all[before.len() + k] == item);
            }
        }
    }
}

/// Looking a name up and offering everything agree: a lookup finds exactly the offered globals of
/// that name.
pub proof fn law_lookup_agrees_with_offer<L: Language>(
    index: IndexView<L>,
    name: Seq<char>,
    from: FileId,
    item: (FileId, Symbol<L>),
)
    requires
        index.wf(),
        smol_text(item.1.name) == name,
    ensures
        index.globals_at(index.global_slots(name, from)).contains(item)
            <==> index.visible_globals(from, index.files.len() as int).contains(item),
{
    let found = index.globals_at(index.global_slots(name, from));
    law_offered_globals_are_the_visible(index, from, index.files.len() as int, item);
    if found.contains(item) {
        let k = choose|k: int| 0 <= k < found.len() && found[k] == item;
        law_lookup_finds_only_the_visible(index, name, from, k);
    }
    if index.visible_globals(from, index.files.len() as int).contains(item) {
        let globals = index.files[item.0 as int]->0.index.globals@;
        let i = choose|i: int| 0 <= i < globals.len() && globals[i] == item.1;
        law_lookup_finds_the_visible(index, name, from, item.0, i);
    }
}

/// Tells the globals that go by a name.
pub open spec fn named<L: Language>(name: Seq<char>) -> spec_fn((FileId, Symbol<L>)) -> bool {
    |item: (FileId, Symbol<L>)| smol_text(item.1.name) == name
}

/// A lookup finds the offered globals of that name, each as often as it is offered: one is a
/// permutation of the other.
pub proof fn law_lookup_permutes_the_offer<L: Language>(
    index: IndexView<L>,
    name: Seq<char>,
    from: FileId,
)
    requires
        index.wf(),
    ensures
        index.globals_at(index.global_slots(name, from)).to_multiset() == index.visible_globals(
            from,
            index.files.len() as int,
        ).filter(named(name)).to_multiset(),
{
    let n = index.files.len() as int;
    let offered = offered_slots(index, from, n);
    let item_at = |slot: Slot| (slot.0, index.global_at(slot));
    let goes_by = |slot: Slot| named(name)(item_at(slot));
    let visible = |slot: Slot| index.visible(from, slot.0);
    let slots = slots_of(index.globals, name);
    let found = index.global_slots(name, from);
    lemma_offered_slots(index, from, n);
    lemma_filter_map(offered, item_at, named(name));
    lemma_filter_members(offered, goes_by);
    assert(in_step(index.lists(Table::Globals), index.files, Table::Globals));
    lemma_filter_members(slots, visible);
    assert forall|slot: Slot| found.contains(slot) <==> offered.filter(goes_by).contains(slot) by {
        assert(slots.contains(slot) <==> carries(index.files, Table::Globals, slot, name));
    }
    lemma_same_members(found, offered.filter(goes_by), item_at);
    assert(index.globals_at(found) =~= found.map_values(item_at));
}

/// The slots of the globals of the files visible from `from` among the first `n` numbers.
spec fn offered_slots<L: Language>(index: IndexView<L>, from: FileId, n: int) -> Seq<Slot>
    decreases n,
{
    if n <= 0 {
        Seq::empty()
    } else {
        let before = offered_slots(index, from, n - 1);
        let id = (n - 1) as FileId;
        match index.files[n - 1] {
            Some(entry) if index.visible(from, id) => before + Seq::new(
                entry.index.globals@.len(),
                |i: int| (id, i as u32),
            ),
            _ => before,
        }
    }
}

proof fn lemma_offered_slots<L: Language>(index: IndexView<L>, from: FileId, n: int)
    requires
        index.wf(),
        0 <= n <= index.files.len(),
    ensures
        offered_slots(index, from, n).map_values(|slot: Slot| (slot.0, index.global_at(slot)))
            == index.visible_globals(from, n),
        offered_slots(index, from, n).no_duplicates(),
        forall|slot: Slot| #[trigger]
            offered_slots(index, from, n).contains(slot) <==> slot.0 < n && index.visible(
                from,
                slot.0,
            ) && index.files[slot.0 as int] is Some && slot.1
                < index.files[slot.0 as int]->0.index.globals.len(),
    decreases n,
{
    if n > 0 {
        lemma_offered_slots(index, from, n - 1);
        let before = offered_slots(index, from, n - 1);
        let all = offered_slots(index, from, n);
        let id = (n - 1) as FileId;
        let item_at = |slot: Slot| (slot.0, index.global_at(slot));
        if index.files[n - 1] is Some && index.visible(from, id) {
            let entry = index.files[n - 1]->0;
            let more = Seq::new(entry.index.globals@.len(), |i: int| (id, i as u32));
            assert(entry.index.fits());
            assert(all == before + more);
            assert(all.map_values(item_at) =~= before.map_values(item_at) + tagged(
                id,
                entry.index.globals@,
            ));
            assert forall|slot: Slot| #[trigger] all.contains(slot) <==> slot.0 < n
                && index.visible(from, slot.0) && index.files[slot.0 as int] is Some && slot.1
                < index.files[slot.0 as int]->0.index.globals.len() by {
                if all.contains(slot) {
                    let k = choose|k: int| 0 <= k < all.len() && all[k] == slot;
                    if k < before.len() {
                        assert(before[k] == slot);
                        assert(before.contains(slot));
                    } else {
                        assert(more[k - before.len()] == slot);
                    }
                }
                if before.contains(slot) {
                    let k = choose|k: int| 0 <= k < before.len() && before[k] == slot;
                    assert(all[k] == slot);
                }
                if slot.0 == id && slot.1 < more.len() {
                    assert(all[before.len() + slot.1] == slot);
                }
            }
            assert forall|i: int, j: int| 0 <= i < all.len() && 0 <= j < all.len() && i
                != j implies all[i] != all[j] by {
                if i < before.len() {
                    assert(before.contains(all[i]));
                } else {
                    assert(all[i] == more[i - before.len()]);
                }
                if j < before.len() {
                    assert(before.contains(all[j]));
                } else {
                    assert(all[j] == more[j - before.len()]);
                }
            }
        }
    }
}

/// Filtering what a list is mapped to is mapping what is left of the list.
proof fn lemma_filter_map<A, B>(items: Seq<A>, f: spec_fn(A) -> B, pred: spec_fn(B) -> bool)
    ensures
        items.map_values(f).filter(pred) == items.filter(|a: A| pred(f(a))).map_values(f),
    decreases items.len(),
{
    reveal(Seq::filter);
    let mapped = items.map_values(f);
    if items.len() > 0 {
        lemma_filter_map(items.drop_last(), f, pred);
        assert(mapped.drop_last() =~= items.drop_last().map_values(f));
        assert(mapped.filter(pred) =~= items.filter(|a: A| pred(f(a))).map_values(f));
    } else {
        assert(mapped.filter(pred) =~= items.filter(|a: A| pred(f(a))).map_values(f));
    }
}

/// A filter keeps exactly the members that pass it, and repeats none.
pub proof fn lemma_filter_members(items: Seq<Slot>, pred: spec_fn(Slot) -> bool)
    requires
        items.no_duplicates(),
    ensures
        items.filter(pred).no_duplicates(),
        forall|slot: Slot| #[trigger]
            items.filter(pred).contains(slot) <==> items.contains(slot) && pred(slot),
    decreases items.len(),
{
    reveal(Seq::filter);
    let all = items.filter(pred);
    if items.len() > 0 {
        let front = items.drop_last();
        let before = front.filter(pred);
        let last = items.last();
        lemma_filter_members(front, pred);
        assert(!front.contains(last)) by {
            if front.contains(last) {
                let k = choose|k: int| 0 <= k < front.len() && front[k] == last;
                assert(items[k] == items[items.len() - 1]);
            }
        }
        assert forall|slot: Slot| #[trigger] all.contains(slot) <==> items.contains(slot) && pred(
            slot,
        ) by {
            lemma_push_has(front, last, slot);
            lemma_push_has(before, last, slot);
            assert(front.push(last) =~= items);
        }
        if pred(last) {
            assert(all == before.push(last));
            assert forall|i: int, j: int| 0 <= i < all.len() && 0 <= j < all.len() && i
                != j implies all[i] != all[j] by {
                if i == before.len() {
                    assert(before.contains(before[j]));
                } else if j == before.len() {
                    assert(before.contains(before[i]));
                }
            }
        }
    }
}

proof fn lemma_push_has(items: Seq<Slot>, last: Slot, slot: Slot)
    ensures
        items.push(last).contains(slot) <==> items.contains(slot) || slot == last,
{
    let all = items.push(last);
    if items.contains(slot) {
        let k = choose|k: int| 0 <= k < items.len() && items[k] == slot;
        assert(all[k] == slot);
    }
    assert(all[items.len() as int] == last);
    if all.contains(slot) {
        let k = choose|k: int| 0 <= k < all.len() && all[k] == slot;
        if k < items.len() {
            assert(items[k] == slot);
        }
    }
}

/// Two lists without repetition that have the same members are mapped to the same items, each as
/// often.
proof fn lemma_same_members<B>(a: Seq<Slot>, b: Seq<Slot>, f: spec_fn(Slot) -> B)
    requires
        a.no_duplicates(),
        b.no_duplicates(),
        forall|slot: Slot| a.contains(slot) <==> b.contains(slot),
    ensures
        a.map_values(f).to_multiset() == b.map_values(f).to_multiset(),
    decreases a.len(),
{
    if a.len() == 0 {
        if b.len() > 0 {
            assert(b.contains(b[0]));
        }
        assert(a.map_values(f) =~= b.map_values(f));
    } else {
        let last = a.last();
        let front = a.drop_last();
        assert(a.contains(a[a.len() - 1]));
        let j = choose|j: int| 0 <= j < b.len() && b[j] == last;
        let rest = b.remove(j);
        assert forall|i: int, k: int| 0 <= i < rest.len() && 0 <= k < rest.len() && i
            != k implies rest[i] != rest[k] by {}
        assert forall|slot: Slot| front.contains(slot) <==> rest.contains(slot) by {
            if front.contains(slot) {
                let i = choose|i: int| 0 <= i < front.len() && front[i] == slot;
                assert(a[i] == slot && a[i] != a[a.len() - 1]);
                assert(b.contains(slot));
                let k = choose|k: int| 0 <= k < b.len() && b[k] == slot;
                assert(rest[if k < j { k } else { k - 1 }] == slot);
            }
            if rest.contains(slot) {
                let k = choose|k: int| 0 <= k < rest.len() && rest[k] == slot;
                let m = if k < j { k } else { k + 1 };
                assert(b[m] == slot && b[m] != b[j]);
                assert(a.contains(slot));
                let i = choose|i: int| 0 <= i < a.len() && a[i] == slot;
                assert(front[i] == slot);
            }
        }
        lemma_same_members(front, rest, f);
        let mapped = b.map_values(f);
        assert(a.map_values(f) =~= front.map_values(f).push(f(last)));
        assert(rest.map_values(f) =~= mapped.remove(j));
        front.map_values(f).to_multiset_ensures();
        mapped.to_multiset_ensures();
        assert(mapped.contains(mapped[j]));
        assert(mapped.to_multiset() =~= mapped.to_multiset().remove(f(last)).insert(f(last)));
    }
}

/// A table has members exactly when some known file declares one of its members.
pub proof fn law_members_are_declared<L: Language>(index: IndexView<L>, owner: Seq<char>)
    requires
        index.wf(),
    ensures
        index.members.contains_key(owner) <==> exists|id: FileId, i: int|
            #![trigger index.file(id)->0.index.members@[i]]
            index.file(id) is Some && 0 <= i < index.file(id)->0.index.members.len() && smol_text(
                index.file(id)->0.index.members@[i].owner,
            ) == owner,
{
    assert(in_step(index.lists(Table::Members), index.files, Table::Members));
    let slots = slots_of(index.members, owner);
    if index.members.contains_key(owner) {
        assert(slots.contains(slots[0]));
        assert(carries(index.files, Table::Members, slots[0], owner));
        let entry = index.file(slots[0].0)->0;
        assert(smol_text(entry.index.members@[slots[0].1 as int].owner) == owner);
    }
    if exists|id: FileId, i: int|
        #![trigger index.file(id)->0.index.members@[i]]
        index.file(id) is Some && 0 <= i < index.file(id)->0.index.members.len() && smol_text(
            index.file(id)->0.index.members@[i].owner,
        ) == owner {
        let (id, i) = choose|id: FileId, i: int|
            #![trigger index.file(id)->0.index.members@[i]]
            index.file(id) is Some && 0 <= i < index.file(id)->0.index.members.len() && smol_text(
                index.file(id)->0.index.members@[i].owner,
            ) == owner;
        assert(index.files[id as int] is Some);
        assert(carries(index.files, Table::Members, (id, i as u32), owner));
        assert(slots.contains((id, i as u32)));
    }
}

/// The members of a `%` owner are the same from everywhere: all of them.
pub proof fn law_private_tables_are_seen_whole<L: Language>(
    index: IndexView<L>,
    owner: Seq<char>,
    from: FileId,
)
    requires
        owner.len() > 0,
        owner[0] == '%',
    ensures
        index.member_slots(owner, from) == slots_of(index.members, owner),
{
}

/// A table that a visible file of the own resource fills is not completed from elsewhere: all its
/// members are visible ones.
pub proof fn law_own_tables_stay_own<L: Language>(
    index: IndexView<L>,
    owner: Seq<char>,
    from: FileId,
    at: int,
)
    requires
        !(owner.len() > 0 && owner[0] == '%'),
        0 <= at < slots_of(index.members, owner).len(),
        index.visible(from, slots_of(index.members, owner)[at].0),
        index.own(from, slots_of(index.members, owner)[at].0),
    ensures
        forall|k: int|
            0 <= k < index.member_slots(owner, from).len() ==> index.visible(
                from,
                (#[trigger] index.member_slots(owner, from)[k]).0,
            ),
{
    let slots = slots_of(index.members, owner);
    let pred = |slot: Slot| index.visible(from, slot.0);
    let in_scope = index.visible_slots(slots, from);
    slots.lemma_filter_contains(pred, at);
    assert(in_scope.contains(slots[at]));
    let i = choose|i: int| 0 <= i < in_scope.len() && in_scope[i] == slots[at];
    assert(index.own(from, in_scope[i].0));
    assert forall|k: int| 0 <= k < index.member_slots(owner, from).len() implies index.visible(
        from,
        (#[trigger] index.member_slots(owner, from)[k]).0,
    ) by {
        slots.lemma_filter_pred(pred, k);
    }
}

/// Importing one file of a resource makes all of that resource's members reachable: each member that
/// one of its files declares on a matching side is found, unless the table is the own resource's.
pub proof fn law_one_import_reaches_the_library<L: Language>(
    index: IndexView<L>,
    owner: Seq<char>,
    from: FileId,
    at: int,
)
    requires
        !(owner.len() > 0 && owner[0] == '%'),
        0 <= at < slots_of(index.members, owner).len(),
        index.imports_resource_of(from, slots_of(index.members, owner)[at].0),
        sides_match(
            index.side_of(from),
            index.side_of(slots_of(index.members, owner)[at].0),
        ),
        forall|k: int|
            0 <= k < slots_of(index.members, owner).len() ==> !(index.visible(
                from,
                (#[trigger] slots_of(index.members, owner)[k]).0,
            ) && index.own(from, slots_of(index.members, owner)[k].0)),
    ensures
        index.member_slots(owner, from).contains(slots_of(index.members, owner)[at]),
{
    let slots = slots_of(index.members, owner);
    let visible = |slot: Slot| index.visible(from, slot.0);
    let in_scope = index.visible_slots(slots, from);
    assert forall|i: int| 0 <= i < in_scope.len() implies !index.own(
        from,
        (#[trigger] in_scope[i]).0,
    ) by {
        slots.lemma_filter_pred(visible, i);
        assert(in_scope.contains(in_scope[i]));
        slots.lemma_filter_contains_rev(visible, in_scope[i]);
        let k = choose|k: int| 0 <= k < slots.len() && slots[k] == in_scope[i];
        assert(slots[k].0 == in_scope[i].0);
    }
    let reachable = |slot: Slot| index.reachable(from, slot.0);
    slots.lemma_filter_contains(reachable, at);
    assert(slots.filter(reachable).contains(slots[at]));
}

/// Classes travel between resources: the members of a class are found from everywhere, if any file
/// declares one.
pub proof fn law_class_members_are_found<L: Language>(
    index: IndexView<L>,
    owner: Seq<char>,
    from: FileId,
)
    requires
        index.wf(),
        index.classes.contains_key(owner),
        index.members.contains_key(owner),
    ensures
        index.member_slots(owner, from).len() > 0,
{
    assert(in_step(index.lists(Table::Members), index.files, Table::Members));
}

/// Plain tables of unrelated resources stay apart: where no class goes by the name, every member
/// found lies in a file that is visible or reachable.
pub proof fn law_plain_tables_stay_apart<L: Language>(
    index: IndexView<L>,
    owner: Seq<char>,
    from: FileId,
    k: int,
)
    requires
        !(owner.len() > 0 && owner[0] == '%'),
        !index.classes.contains_key(owner),
        0 <= k < index.member_slots(owner, from).len(),
    ensures
        index.visible(from, index.member_slots(owner, from)[k].0) || index.reachable(
            from,
            index.member_slots(owner, from)[k].0,
        ),
{
    let slots = slots_of(index.members, owner);
    let visible = |slot: Slot| index.visible(from, slot.0);
    let reachable = |slot: Slot| index.reachable(from, slot.0);
    if index.member_slots(owner, from) == slots.filter(visible) {
        slots.lemma_filter_pred(visible, k);
    } else {
        slots.lemma_filter_pred(reachable, k);
    }
}

/// Taking a file out undoes storing it, but for where resources list it.
pub proof fn law_clearing_undoes_storing<L: Language>(
    index: IndexView<L>,
    id: FileId,
    entry: FileEntry<L>,
)
    requires
        index.wf(),
        id < index.files.len(),
        entry.index.fits(),
    ensures
        index.with_file(id, entry).cleared(id) == (IndexView {
            resources: index.with_file(id, entry).resources,
            ..index.cleared(id)
        }),
{
    let stored = index.with_file(id, entry);
    assert forall|table: Table| #[trigger] stored.lists(table) == with_names(
        without_file(index.lists(table), id),
        id,
        entry.index.names(table),
    ) by {}
    assert forall|table: Table| without_file(#[trigger] stored.lists(table), id) == without_file(
        index.lists(table),
        id,
    ) by {
        lemma_added_names_go(
            without_file(index.lists(table), id),
            id,
            entry.index.names(table),
        );
        lemma_cleared_wf(index, id);
        assert(index.cleared(id).lists(table) == without_file(index.lists(table), id));
        assert(in_step(index.cleared(id).lists(table), index.cleared(id).files, table));
        lemma_purge_is_enough(
            index.cleared(id).lists(table),
            index.cleared(id).files,
            table,
            id,
        );
    }
    assert(stored.lists(Table::Globals) == stored.globals);
    assert(stored.lists(Table::Members) == stored.members);
    assert(stored.lists(Table::Classes) == stored.classes);
    assert(stored.lists(Table::Aliases) == stored.aliases);
    assert(stored.cleared(id).files =~= index.cleared(id).files);
}

/// Slots that were added for a file leave with it.
proof fn lemma_added_names_go(lists: SlotLists, id: FileId, names: Seq<Seq<char>>)
    requires
        names.len() <= u32::MAX,
    ensures
        without_file(with_names(lists, id, names), id) == without_file(lists, id),
{
    let more = with_names(lists, id, names);
    assert forall|name: Seq<char>| #[trigger] kept(slots_of(more, name), id) == kept(
        slots_of(lists, name),
        id,
    ) by {
        let a = slots_of(lists, name);
        let b = occurrences(names, name, id);
        lemma_occurrences(names, name, id);
        if !more.contains_key(name) {
            lemma_no_occurrences(names, name, id);
        }
        assert(slots_of(more, name) =~= a + b);
        let pred = elsewhere(id);
        Seq::filter_distributes_over_add(a, b, pred);
        assert(b.filter(pred) =~= Seq::empty()) by {
            let left = b.filter(pred);
            if left.len() > 0 {
                b.lemma_filter_pred(pred, 0);
                assert(left.contains(left[0]));
                b.lemma_filter_contains_rev(pred, left[0]);
                assert(b.contains(left[0]));
            }
        }
    }
    assert(without_file(more, id) =~= without_file(lists, id));
}

/// A removed file leaves nothing behind: its path has no number, its number no file, no symbol
/// table a slot of it, and no resource lists or imports it.
pub proof fn law_removed_file_leaves_nothing<L: Language>(
    index: IndexView<L>,
    bytes: Seq<u8>,
    table: Table,
    name: Seq<char>,
    slot: Slot,
    r: int,
)
    requires
        index.wf(),
        index.file_id(bytes) is Some,
        0 <= r < index.resources.len(),
    ensures
        ({
            let id = index.file_id(bytes)->0;
            let after = index.without_path(path_key(index.windows, bytes));
            &&& after.file_id(bytes) is None
            &&& after.file(id) is None
            &&& slots_of(after.lists(table), name).contains(slot) ==> slot.0 != id
            &&& !after.resources[r].files.contains(id)
            &&& !after.resources[r].imports_file(id)
        }),
{
    let key = path_key(index.windows, bytes);
    let id = index.paths[key];
    let after = index.without_path(key);
    lemma_without_path_wf(index, key);
    assert(in_step(after.lists(table), after.files, table));
    let resource = index.resources[r];
    assert(after.resources[r] == unlisted(resource, id));
    let files = resource.files;
    let pred = other_file(id);
    if files.filter(pred).contains(id) {
        files.lemma_filter_contains_rev(pred, id);
    }
    let imports = resource.imports;
    let pred = other_import(id);
    assert forall|i: int| 0 <= i < imports.filter(pred).len() implies (#[trigger] imports.filter(
        pred,
    )[i]).0 != id by {
        imports.lemma_filter_pred(pred, i);
    }
}

/// Removing a file undoes storing one under its number: the index is as if the file had been removed
/// without that.
pub proof fn law_removing_undoes_storing<L: Language>(
    index: IndexView<L>,
    key: Seq<Seq<u8>>,
    entry: FileEntry<L>,
)
    requires
        index.wf(),
        index.paths.contains_key(key),
        entry.index.fits(),
    ensures
        index.with_file(index.paths[key], entry).without_path(key) == index.without_path(key),
{
    let id = index.paths[key];
    let stored = index.with_file(id, entry);
    law_clearing_undoes_storing(index, id, entry);
    assert forall|r: int| 0 <= r < index.resources.len() implies unlisted(
        #[trigger] stored.resources[r],
        id,
    ) == unlisted(index.resources[r], id) by {
        let before = index.resources[r].files;
        let after = stored.resources[r].files;
        if after != before {
            assert(after == before.push(id));
            reveal(Seq::filter);
            assert(after.drop_last() =~= before);
        }
    }
    assert(stored.without_path(key).resources =~= index.without_path(key).resources);
    assert(stored.without_path(key) =~= index.without_path(key));
}

/// A file that comes and goes leaves every answer as it was: where no resource speaks of the number
/// it gets, all that stays of it is that the number is used up.
pub proof fn law_passing_files_leave_no_trace<L: Language>(
    index: IndexView<L>,
    key: Seq<Seq<u8>>,
    entry: FileEntry<L>,
)
    requires
        index.wf(),
        index.files.len() < max_files(),
        !index.paths.contains_key(key),
        entry.index.fits(),
        forall|r: int|
            0 <= r < index.resources.len() ==> !(#[trigger] index.resources[r]).files.contains(
                index.id_for(key),
            ) && !index.resources[r].imports_file(index.id_for(key)),
    ensures
        index.allocated(key).with_file(index.id_for(key), entry).without_path(key) == (IndexView {
            files: index.files.push(None),
            ..index
        }),
{
    let id = index.id_for(key);
    let reserved = index.allocated(key);
    lemma_allocated_wf(index, key);
    law_removing_undoes_storing(reserved, key, entry);
    let after = reserved.without_path(key);
    assert(after.paths =~= index.paths);
    assert(after.files =~= index.files.push(None));
    assert forall|table: Table| without_file(#[trigger] reserved.lists(table), id) == reserved.lists(
        table,
    ) by {
        assert(in_step(reserved.lists(table), reserved.files, table));
        lemma_purge_is_enough(reserved.lists(table), reserved.files, table, id);
    }
    assert(reserved.lists(Table::Globals) == index.globals);
    assert(reserved.lists(Table::Members) == index.members);
    assert(reserved.lists(Table::Classes) == index.classes);
    assert(reserved.lists(Table::Aliases) == index.aliases);
    assert forall|r: int| 0 <= r < index.resources.len() implies unlisted(
        #[trigger] index.resources[r],
        id,
    ) == index.resources[r] by {
        let resource = index.resources[r];
        assert forall|i: int| 0 <= i < resource.files.len() implies resource.files[i] != id by {
            assert(resource.files.contains(resource.files[i]));
        }
        lemma_filter_all(resource.files, other_file(id));
        assert forall|i: int| 0 <= i < resource.imports.len() implies other_import(id)(
            resource.imports[i],
        ) by {
            assert(!resource.imports_file(id));
        }
        lemma_filter_all(resource.imports, other_import(id));
    }
    assert(after.resources =~= index.resources);
}

pub proof fn lemma_filter_all<T>(items: Seq<T>, pred: spec_fn(T) -> bool)
    requires
        forall|i: int| 0 <= i < items.len() ==> pred(#[trigger] items[i]),
    ensures
        items.filter(pred) == items,
    decreases items.len(),
{
    reveal(Seq::filter);
    if items.len() > 0 {
        lemma_filter_all(items.drop_last(), pred);
        assert(items.drop_last().push(items.last()) =~= items);
    }
}

/// Being related goes both ways.
pub proof fn law_related_is_symmetric<L: Language>(index: IndexView<L>, a: FileId, b: FileId)
    ensures
        index.related(a, b) == index.related(b, a),
{
}

/// A file sees itself, known or not.
pub proof fn law_file_sees_itself<L: Language>(index: IndexView<L>, id: FileId)
    ensures
        index.visible(id, id),
{
}

/// A stub is seen by every known file whose side matches, and only by those.
pub proof fn law_stubs_are_seen_everywhere<L: Language>(
    index: IndexView<L>,
    from: FileId,
    stub: FileId,
)
    requires
        from != stub,
        index.file(stub) is Some,
        index.file(stub)->0.origin == FileOrigin::Stub,
    ensures
        index.visible(from, stub) <==> index.file(from) is Some && sides_match(
            index.side_of(from),
            index.side_of(stub),
        ),
{
}

/// The files of a resource are hidden from files outside it that do not import them, stubs apart:
/// a table of the same name there is a different table.
pub proof fn law_resources_do_not_leak<L: Language>(
    index: IndexView<L>,
    from: FileId,
    target: FileId,
)
    requires
        from != target,
        index.file(target) is Some,
        index.file(target)->0.origin != FileOrigin::Stub,
        index.owner_of(target) != index.owner_of(from),
        index.resource_of(from) matches Some(resource) ==> !resource.imports_file(target),
    ensures
        !index.visible(from, target),
{
    if index.resource_of(from) is Some {
        let resource = index.resource_of(from)->0;
        assert forall|i: int| 0 <= i < resource.imports.len() implies (#[trigger] resource.imports[i]).0
            != target by {
            assert(!resource.imports_file(target));
        }
    }
}

/// What is visible to a known file on a side is on a matching side, or is the file itself.
pub proof fn law_visible_means_sides_match<L: Language>(
    index: IndexView<L>,
    from: FileId,
    target: FileId,
)
    requires
        index.visible(from, target),
        from != target,
    ensures
        sides_match(index.side_of(from), index.side_of(target)),
{
}

/// The first definition of a class is the first of all its definitions.
pub proof fn law_class_is_first_definition<L: Language>(index: IndexView<L>, name: Seq<char>)
    requires
        index.wf(),
    ensures
        index.classes.contains_key(name) <==> index.classes_at(
            slots_of(index.classes, name),
        ).len() > 0,
        index.classes.contains_key(name) ==> index.classes_at(slots_of(index.classes, name))[0]
            == (index.classes[name][0].0, index.class_at(index.classes[name][0])),
{
    assert(in_step(index.lists(Table::Classes), index.files, Table::Classes));
}

/// Every known file is listed once, under its number.
pub proof fn law_files_are_the_known<L: Language>(
    index: IndexView<L>,
    n: int,
    id: FileId,
    entry: FileEntry<L>,
)
    requires
        0 <= n <= index.files.len() <= max_files(),
    ensures
        index.known_files(n).contains((id, entry)) <==> id < n && index.files[id as int] == Some(
            entry,
        ),
        index.known_files(n).no_duplicates(),
    decreases n,
{
    if n > 0 {
        law_files_are_the_known(index, n - 1, id, entry);
        let before = index.known_files(n - 1);
        let all = index.known_files(n);
        if index.files[n - 1] is Some {
            let last = ((n - 1) as FileId, index.files[n - 1]->0);
            assert(all == before.push(last));
            if before.contains((id, entry)) {
                let k = choose|k: int| 0 <= k < before.len() && before[k] == (id, entry);
                assert(all[k] == (id, entry));
            }
            assert(all[before.len() as int] == last);
            if all.contains((id, entry)) {
                let k = choose|k: int| 0 <= k < all.len() && all[k] == (id, entry);
                if k < before.len() {
                    assert(before[k] == (id, entry));
                }
            }
            assert forall|i: int, j: int| 0 <= i < all.len() && 0 <= j < all.len() && i
                != j implies all[i] != all[j] by {
                if i == before.len() || j == before.len() {
                    let k = if i == before.len() { j } else { i };
                    law_files_are_the_known(index, n - 1, before[k].0, before[k].1);
                    assert(before.contains(before[k]));
                }
            }
        }
    }
}

/// Starting over keeps the built-in library: where no two stubs share a path, the index holds
/// exactly the stubs, numbered anew in their order, and each path leads to its stub.
pub proof fn law_clear_keeps_stubs<L: Language>(windows: bool, entries: Seq<FileEntry<L>>)
    requires
        entries.len() <= max_files(),
        forall|i: int, j: int|
            0 <= i < j < entries.len() ==> path_key(windows, buf_bytes(#[trigger] entries[i].path))
                != path_key(windows, buf_bytes(#[trigger] entries[j].path)),
    ensures
        IndexView::rebuilt(windows, entries).files == entries.map_values(
            |entry: FileEntry<L>| Some(entry),
        ),
        IndexView::<L>::rebuilt(windows, entries).windows == windows,
        IndexView::<L>::rebuilt(windows, entries).resources.len() == 0,
        forall|key: Seq<Seq<u8>>| #[trigger]
            IndexView::<L>::rebuilt(windows, entries).paths.contains_key(key) ==> exists|i: int|
                0 <= i < entries.len() && path_key(windows, buf_bytes(#[trigger] entries[i].path))
                    == key,
        forall|i: int|
            0 <= i < entries.len() ==> IndexView::<L>::rebuilt(windows, entries).file_id(
                buf_bytes(#[trigger] entries[i].path),
            ) == Some(i as FileId),
    decreases entries.len(),
{
    if entries.len() > 0 {
        let front = entries.drop_last();
        assert forall|i: int, j: int| 0 <= i < j < front.len() implies path_key(
            windows,
            buf_bytes(#[trigger] front[i].path),
        ) != path_key(windows, buf_bytes(#[trigger] front[j].path)) by {
            assert(front[i] == entries[i] && front[j] == entries[j]);
        }
        law_clear_keeps_stubs(windows, front);
        let before = IndexView::rebuilt(windows, front);
        let entry = entries.last();
        let key = path_key(windows, buf_bytes(entry.path));
        let after = IndexView::rebuilt(windows, entries);
        if before.paths.contains_key(key) {
            let i = choose|i: int|
                0 <= i < front.len() && path_key(windows, buf_bytes(#[trigger] front[i].path))
                    == key;
            assert(entries[i] == front[i]);
            assert(entries[entries.len() - 1] == entry);
        }
        assert(after.files =~= entries.map_values(|entry: FileEntry<L>| Some(entry)));
        assert forall|k: Seq<Seq<u8>>| #[trigger] after.paths.contains_key(k) implies exists|i: int|
            0 <= i < entries.len() && path_key(windows, buf_bytes(#[trigger] entries[i].path))
                == k by {
            if k == key {
                assert(path_key(windows, buf_bytes(entries[entries.len() - 1].path)) == k);
            } else {
                assert(before.paths.contains_key(k));
                let i = choose|i: int|
                    0 <= i < front.len() && path_key(windows, buf_bytes(#[trigger] front[i].path))
                        == k;
                assert(path_key(windows, buf_bytes(entries[i].path)) == k);
            }
        }
        assert forall|i: int| 0 <= i < entries.len() implies after.file_id(
            buf_bytes(#[trigger] entries[i].path),
        ) == Some(i as FileId) by {
            if i < front.len() {
                assert(front[i] == entries[i]);
                assert(before.file_id(buf_bytes(front[i].path)) == Some(i as FileId));
                assert(path_key(windows, buf_bytes(entries[i].path)) != path_key(
                    windows,
                    buf_bytes(entries[entries.len() - 1].path),
                ));
            }
        }
    }
}

/// Only stubs survive starting over.
pub proof fn law_only_stubs_are_kept<L: Language>(files: Seq<Option<FileEntry<L>>>, i: int)
    requires
        0 <= i < stubs(files).len(),
    ensures
        stubs(files)[i].origin == FileOrigin::Stub,
        files.contains(Some(stubs(files)[i])),
    decreases files.len(),
{
    if files.len() > 0 {
        let front = files.drop_last();
        if i < stubs(front).len() {
            law_only_stubs_are_kept(front, i);
            let k = choose|k: int| 0 <= k < front.len() && front[k] == Some(stubs(front)[i]);
            assert(files[k] == Some(stubs(files)[i]));
        } else {
            assert(files[files.len() - 1] == Some(stubs(files)[i]));
        }
    }
}

/// A module may be written with dots or with slashes: both stand for the same file.
pub proof fn law_dots_or_slashes<L: Language>(
    index: IndexView<L>,
    module: Seq<char>,
    from: FileId,
)
    requires
        !names_resource(module),
        !module.contains('/'),
    ensures
        index.required(module, from) == index.required(replaced(module, '.', '/'), from),
{
    let slashed = replaced(module, '.', '/');
    assert(!names_resource(slashed)) by {
        if slashed.len() > 0 {
            assert(slashed[0] == if module[0] == '.' { '/' } else { module[0] });
        }
    }
    assert(relative(module) == relative(slashed)) by {
        if !slashed.contains('/') {
            assert(replaced(slashed, '.', '/') =~= slashed) by {
                assert forall|i: int| 0 <= i < slashed.len() implies slashed[i] != '.' by {
                    assert(slashed[i] == if module[i] == '.' { '/' } else { module[i] });
                    if slashed[i] == '.' {
                        assert(module[i] == '.');
                    }
                }
            }
        }
    }
}

/// A module is taken relative to the root of its resource: its path does not start at the root of the
/// file system.
pub proof fn law_modules_are_relative(module: Seq<char>)
    ensures
        required_path(module) matches Some(path) ==> !(path.len() > 0 && path[0] == '/'),
{
    if names_resource(module) {
        let at = first_separator(module, 1);
        if at < module.len() {
            lemma_relative(module.subrange(at + 1, module.len() as int));
        }
    } else {
        lemma_relative(module);
    }
}

proof fn lemma_relative(module: Seq<char>)
    ensures
        !(relative(module).len() > 0 && relative(module)[0] == '/'),
{
    let text = if module.contains('/') {
        module
    } else {
        replaced(module, '.', '/')
    };
    lemma_below(text);
    lemma_trimmed(below(text));
}

proof fn lemma_below(text: Seq<char>)
    ensures
        !(below(text).len() > 0 && below(text)[0] == '/'),
    decreases text.len(),
{
    if text.len() > 0 && text[0] == '/' {
        lemma_below(text.subrange(1, text.len() as int));
    }
}

/// Trimming leaves the front as it is.
proof fn lemma_trimmed(text: Seq<char>)
    ensures
        trimmed(text).is_prefix_of(text),
    decreases text.len(),
{
    if trimmed(text) != text {
        let front = text.subrange(0, text.len() - 4);
        lemma_trimmed(front);
        assert(trimmed(text) == trimmed(front));
    }
}

/// A required file belongs below the root of the resource that the argument names, or else of the
/// requiring file's: the path of a script, relative to that root, leads to it.
pub proof fn law_required_files_are_scripts_of_the_resource<L: Language>(
    index: IndexView<L>,
    module: Seq<char>,
    from: FileId,
    id: FileId,
)
    requires
        index.required(module, from) == Some(id),
    ensures
        index.module_home(module, from) is Some,
        exists|rest: Seq<char>| #[trigger]
            index.leads_to(index.module_home(module, from)->0, rest, id) && is_tried(module, rest),
{
    let home = index.module_home(module, from)->0;
    let path = required_path(module)->0;
    law_modules_are_relative(module);
    lemma_scripts(index.windows, path);
    if index.file_id(joined(home.root, path + ".lua"@)) is Some {
        assert(index.leads_to(home, path + ".lua"@, id));
    } else {
        assert(index.leads_to(home, init_script(path), id));
    }
}

/// Where an index goes by the path rules of its own platform, the path that leads to a required file
/// is adjoined to the root, so that by `resolve_require` the root stays in front. On Windows this
/// leaves out roots that start with two separators.
pub proof fn law_required_paths_are_adjoined<L: Language>(
    index: IndexView<L>,
    home: ResourceView<L>,
    rest: Seq<char>,
    id: FileId,
)
    requires
        index.leads_to(home, rest, id),
        index.windows == drives_stay(),
        drives_stay() ==> !starts_doubled(home.root),
        !drives_stay() ==> !backslashes_part(),
    ensures
        adjoins(home.root, rest),
{
}

/// The two scripts that a relative path stands for are relative paths too, and end as scripts do.
pub proof fn lemma_scripts(windows: bool, path: Seq<char>)
    requires
        !(path.len() > 0 && path[0] == '/'),
        !leaves_root(windows, path),
    ensures
        is_script(windows, path + ".lua"@),
        is_script(windows, init_script(path)),
{
    reveal_strlit(".lua");
    reveal_strlit("init.lua");
    reveal_strlit("/init.lua");
    let script = path + ".lua"@;
    assert(script.subrange(script.len() - 4, script.len() as int) =~= ".lua"@);
    let init = init_script(path);
    assert(init.subrange(init.len() - 4, init.len() as int) =~= ".lua"@);
}

/// `@resource/module` stands, in every file, for what `module` stands for in a file of that
/// resource.
pub proof fn law_prefix_names_the_resource<L: Language>(
    index: IndexView<L>,
    name: Seq<char>,
    separator: char,
    module: Seq<char>,
    from: FileId,
    inside: FileId,
)
    requires
        forall|i: int| 0 <= i < name.len() ==> !is_separator(#[trigger] name[i]),
        is_separator(separator),
        !names_resource(module),
        index.resource_named(name) is Some,
        index.owner_of(inside) == index.resource_named(name),
    ensures
        index.required(seq!['@'] + name + seq![separator] + module, from) == index.required(
            module,
            inside,
        ),
{
    let full = seq!['@'] + name + seq![separator] + module;
    let at = name.len() as int + 1;
    assert(full[0] == '@');
    assert(full[at] == separator);
    assert forall|i: int| 1 <= i < at implies !is_separator(#[trigger] full[i]) by {
        assert(full[i] == name[i - 1]);
    }
    lemma_first_separator(full, 1, at);
    assert(full.subrange(1, at) =~= name);
    assert(full.subrange(at + 1, full.len() as int) =~= module);
}

proof fn lemma_first_separator(text: Seq<char>, i: int, at: int)
    requires
        0 <= i <= at < text.len(),
        is_separator(text[at]),
        forall|j: int| i <= j < at ==> !is_separator(#[trigger] text[j]),
    ensures
        first_separator(text, i) == at,
    decreases at - i,
{
    if i < at {
        lemma_first_separator(text, i + 1, at);
    }
}

/// Normalizing a path twice is normalizing it once. On Windows this rests on two facts of the text
/// that normalizing makes: the normalized path shows it as it is, which `normalize_path_for` states,
/// and lower-casing leaves it as it is, without a slash.
pub proof fn law_normalizing_twice_is_once(windows: bool, bytes: Seq<u8>)
    requires
        windows ==> lossy_text(normalized(windows, bytes)) == folded(bytes),
        windows ==> is_folded(folded(bytes)),
    ensures
        normalized(windows, normalized(windows, bytes)) == normalized(windows, bytes),
{
    lemma_folded(windows, bytes);
}

/// Under Windows rules two paths whose texts differ only in slashes and case are one file.
pub proof fn law_windows_paths_fold<L: Language>(index: IndexView<L>, a: Seq<u8>, b: Seq<u8>)
    requires
        index.windows,
        folded(a) == folded(b),
    ensures
        index.file_id(a) == index.file_id(b),
{
}

} // verus!
