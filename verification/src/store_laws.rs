//! What each change to the index changes, and what it leaves.
use crate::lookup_laws::{in_order, lemma_filter_order};
use crate::model::{other_file, other_import, stubs, unlisted, IndexView};
use crate::paths::{buf_bytes, path_key};
use crate::slots::{
    elsewhere, kept, lemma_no_occurrences, occurrences, with_names, without_file, SlotLists,
};
use crate::symbols::{FileEntry, FileOrigin, Language, Side, Table};
use crate::tables::{slots_of, FileId, Slot};
use vstd::prelude::*;

verus! {

/// An empty index holds nothing.
pub proof fn law_empty_index_holds_nothing<L: Language>(
    windows: bool,
    key: Seq<Seq<u8>>,
    name: Seq<char>,
)
    ensures
        ({
            let empty = IndexView::<L>::empty(windows);
            &&& empty.windows == windows
            &&& empty.files.len() == 0
            &&& empty.resources.len() == 0
            &&& !empty.paths.contains_key(key)
            &&& !empty.globals.contains_key(name)
            &&& !empty.members.contains_key(name)
            &&& !empty.classes.contains_key(name)
            &&& !empty.aliases.contains_key(name)
        }),
{
}

/// Reserving a number for a known path changes nothing; for another path it takes the next number,
/// under which there is no file yet, and changes nothing else.
pub proof fn law_reserving_takes_the_next_number<L: Language>(
    index: IndexView<L>,
    key: Seq<Seq<u8>>,
    other: Seq<Seq<u8>>,
    i: int,
)
    requires
        index.files.len() < 0x1_0000_0000,
    ensures
        index.paths.contains_key(key) ==> index.allocated(key) == index && index.id_for(key)
            == index.paths[key],
        !index.paths.contains_key(key) ==> {
            let after = index.allocated(key);
            &&& index.id_for(key) == index.files.len()
            &&& after.files.len() == index.files.len() + 1
            &&& after.files[index.files.len() as int] is None
            &&& 0 <= i < index.files.len() ==> after.files[i] == index.files[i]
            &&& after.paths.contains_key(key) && after.paths[key] == index.files.len()
            &&& other != key ==> after.paths.contains_key(other) == index.paths.contains_key(other)
                && (index.paths.contains_key(other) ==> after.paths[other] == index.paths[other])
            &&& after.windows == index.windows && after.resources == index.resources
            &&& after.globals == index.globals && after.members == index.members
            &&& after.classes == index.classes && after.aliases == index.aliases
        },
{
}

/// Storing a file puts it under its number and lists it with its resource, behind the files listed
/// there, unless it is listed already; it changes no other file, path or resource.
pub proof fn law_storing_changes_one_file<L: Language>(
    index: IndexView<L>,
    id: FileId,
    entry: FileEntry<L>,
    i: int,
    r: int,
)
    requires
        id < index.files.len(),
        0 <= r < index.resources.len(),
    ensures
        ({
            let after = index.with_file(id, entry);
            let had = index.resources[r];
            let has = after.resources[r];
            &&& after.windows == index.windows && after.paths == index.paths
            &&& after.files.len() == index.files.len()
            &&& after.files[id as int] == Some(entry)
            &&& 0 <= i < index.files.len() && i != id ==> after.files[i] == index.files[i]
            &&& after.resources.len() == index.resources.len()
            &&& has.name == had.name && has.root == had.root && has.manifest_path
                == had.manifest_path && has.manifest == had.manifest && has.imports == had.imports
                && has.escrowed == had.escrowed
            &&& entry.resource is Some && entry.resource->0 == r && !had.files.contains(id)
                ==> has.files == had.files.push(id)
            &&& !(entry.resource is Some && entry.resource->0 == r && !had.files.contains(id))
                ==> has.files == had.files
        }),
{
}

/// Tells the slots of other files.
pub open spec fn not_in(id: FileId) -> spec_fn(Slot) -> bool {
    |slot: Slot| slot.0 != id
}

/// Whether a list is another without the slots of a file, with slots of that file behind in the order
/// of their positions.
pub open spec fn refilled(before: Seq<Slot>, after: Seq<Slot>, id: FileId) -> bool {
    let rest = before.filter(not_in(id));
    &&& rest.is_prefix_of(after)
    &&& forall|j: int| rest.len() <= j < after.len() ==> (#[trigger] after[j]).0 == id
    &&& forall|j: int, k: int| rest.len() <= j < k < after.len() ==> after[j].1 < after[k].1
}

/// Storing a file takes its old symbols out of the tables and puts the new ones behind all others, in
/// the order of the file.
pub proof fn law_storing_puts_symbols_behind<L: Language>(
    index: IndexView<L>,
    id: FileId,
    entry: FileEntry<L>,
    name: Seq<char>,
)
    requires
        entry.index.fits(),
    ensures
        ({
            let after = index.with_file(id, entry);
            &&& refilled(slots_of(index.globals, name), slots_of(after.globals, name), id)
            &&& refilled(slots_of(index.members, name), slots_of(after.members, name), id)
            &&& refilled(slots_of(index.classes, name), slots_of(after.classes, name), id)
            &&& refilled(slots_of(index.aliases, name), slots_of(after.aliases, name), id)
        }),
{
    lemma_refilled(index.globals, id, entry.index.names(Table::Globals), name);
    lemma_refilled(index.members, id, entry.index.names(Table::Members), name);
    lemma_refilled(index.classes, id, entry.index.names(Table::Classes), name);
    lemma_refilled(index.aliases, id, entry.index.names(Table::Aliases), name);
}

proof fn lemma_refilled(
    lists: SlotLists,
    id: FileId,
    names: Seq<Seq<char>>,
    name: Seq<char>,
)
    requires
        names.len() <= u32::MAX,
    ensures
        refilled(
            slots_of(lists, name),
            slots_of(with_names(without_file(lists, id), id, names), name),
            id,
        ),
{
    let less = without_file(lists, id);
    let rest = kept(slots_of(lists, name), id);
    let own = occurrences(names, name, id);
    assert(slots_of(less, name) =~= rest);
    if !with_names(less, id, names).contains_key(name) {
        lemma_no_occurrences(names, name, id);
    }
    let after = slots_of(with_names(less, id, names), name);
    assert(after =~= rest + own);
    lemma_same_filter(slots_of(lists, name), elsewhere(id), not_in(id));
    lemma_occurrences_ascend(names, name, id);
    assert forall|j: int| rest.len() <= j < after.len() implies (#[trigger] after[j]).0 == id by {
        assert(after[j] == own[j - rest.len()]);
    }
    assert forall|j: int, k: int| rest.len() <= j < k < after.len() implies after[j].1
        < after[k].1 by {
        assert(after[j] == own[j - rest.len()] && after[k] == own[k - rest.len()]);
    }
}

proof fn lemma_occurrences_ascend(names: Seq<Seq<char>>, name: Seq<char>, id: FileId)
    requires
        names.len() <= u32::MAX,
    ensures
        forall|j: int|
            0 <= j < occurrences(names, name, id).len() ==> (#[trigger] occurrences(
                names,
                name,
                id,
            )[j]).0 == id && occurrences(names, name, id)[j].1 < names.len(),
        forall|j: int, k: int|
            0 <= j < k < occurrences(names, name, id).len() ==> occurrences(names, name, id)[j].1
                < occurrences(names, name, id)[k].1,
    decreases names.len(),
{
    if names.len() > 0 {
        let before = occurrences(names.drop_last(), name, id);
        let all = occurrences(names, name, id);
        lemma_occurrences_ascend(names.drop_last(), name, id);
        assert forall|j: int| 0 <= j < all.len() implies (#[trigger] all[j]).0 == id && all[j].1
            < names.len() by {
            if j < before.len() {
                assert(all[j] == before[j]);
            }
        }
        assert forall|j: int, k: int| 0 <= j < k < all.len() implies all[j].1 < all[k].1 by {
            assert(all[j] == before[j]);
            if k < before.len() {
                assert(all[k] == before[k]);
            }
        }
    }
}

/// Filters that tell the same items leave the same.
pub proof fn lemma_same_filter<A>(items: Seq<A>, p: spec_fn(A) -> bool, q: spec_fn(A) -> bool)
    requires
        forall|a: A| #[trigger] p(a) == q(a),
    ensures
        items.filter(p) == items.filter(q),
    decreases items.len(),
{
    reveal(Seq::filter);
    if items.len() > 0 {
        lemma_same_filter(items.drop_last(), p, q);
        assert(p(items.last()) == q(items.last()));
    }
}

/// Removing a path takes its number, its file, and every mention of it in resources, and changes no
/// other file, path or part of a resource; an unknown path changes nothing.
pub proof fn law_removing_changes_one_file<L: Language>(
    index: IndexView<L>,
    key: Seq<Seq<u8>>,
    other: Seq<Seq<u8>>,
    i: int,
    r: int,
    file: FileId,
    import: (FileId, Side),
)
    requires
        index.wf(),
        0 <= r < index.resources.len(),
    ensures
        !index.paths.contains_key(key) ==> index.without_path(key) == index,
        index.paths.contains_key(key) ==> {
            let id = index.paths[key];
            let after = index.without_path(key);
            let had = index.resources[r];
            let has = after.resources[r];
            &&& after.windows == index.windows
            &&& !after.paths.contains_key(key)
            &&& other != key ==> after.paths.contains_key(other) == index.paths.contains_key(other)
                && (index.paths.contains_key(other) ==> after.paths[other] == index.paths[other])
            &&& after.files.len() == index.files.len()
            &&& after.files[id as int] is None
            &&& 0 <= i < index.files.len() && i != id ==> after.files[i] == index.files[i]
            &&& after.resources.len() == index.resources.len()
            &&& has.name == had.name && has.root == had.root && has.manifest_path
                == had.manifest_path && has.manifest == had.manifest && has.escrowed
                == had.escrowed
            &&& has.files.contains(file) <==> had.files.contains(file) && file != id
            &&& has.imports.contains(import) <==> had.imports.contains(import) && import.0 != id
        },
{
    if index.paths.contains_key(key) {
        let id = index.paths[key];
        let had = index.resources[r];
        lemma_filter_has(had.files, other_file(id), file);
        lemma_filter_has(had.imports, other_import(id), import);
    }
}

proof fn lemma_filter_has<A>(items: Seq<A>, pred: spec_fn(A) -> bool, a: A)
    ensures
        items.filter(pred).contains(a) <==> items.contains(a) && pred(a),
{
    let left = items.filter(pred);
    if left.contains(a) {
        items.lemma_filter_contains_rev(pred, a);
        let k = choose|k: int| 0 <= k < left.len() && left[k] == a;
        items.lemma_filter_pred(pred, k);
    }
    if items.contains(a) && pred(a) {
        let k = choose|k: int| 0 <= k < items.len() && items[k] == a;
        items.lemma_filter_contains(pred, k);
    }
}

/// What a resource still lists and imports after a file left stands in the order it had.
pub proof fn law_removing_keeps_the_order<L: Language>(
    index: IndexView<L>,
    key: Seq<Seq<u8>>,
    r: int,
    i: int,
    j: int,
)
    requires
        index.paths.contains_key(key),
        0 <= r < index.resources.len(),
        0 <= i < j,
    ensures
        ({
            let had = index.resources[r];
            let has = index.without_path(key).resources[r];
            &&& j < has.files.len() ==> in_order(had.files, has.files[i], has.files[j])
            &&& j < has.imports.len() ==> in_order(had.imports, has.imports[i], has.imports[j])
        }),
{
    let id = index.paths[key];
    let had = index.resources[r];
    let has = index.without_path(key).resources[r];
    assert(has == unlisted(had, id));
    if j < has.files.len() {
        lemma_filter_order(had.files, other_file(id), i, j);
    }
    if j < has.imports.len() {
        lemma_filter_order(had.imports, other_import(id), i, j);
    }
}

/// Removing a path takes the file's symbols out of the tables and leaves all others in their order.
pub proof fn law_removing_takes_the_symbols<L: Language>(
    index: IndexView<L>,
    key: Seq<Seq<u8>>,
    name: Seq<char>,
)
    requires
        index.paths.contains_key(key),
    ensures
        ({
            let id = index.paths[key];
            let after = index.without_path(key);
            &&& slots_of(after.globals, name) == slots_of(index.globals, name).filter(not_in(id))
            &&& slots_of(after.members, name) == slots_of(index.members, name).filter(not_in(id))
            &&& slots_of(after.classes, name) == slots_of(index.classes, name).filter(not_in(id))
            &&& slots_of(after.aliases, name) == slots_of(index.aliases, name).filter(not_in(id))
        }),
{
    let id = index.paths[key];
    lemma_taken_out(index.globals, id, name);
    lemma_taken_out(index.members, id, name);
    lemma_taken_out(index.classes, id, name);
    lemma_taken_out(index.aliases, id, name);
}

proof fn lemma_taken_out(lists: SlotLists, id: FileId, name: Seq<char>)
    ensures
        slots_of(without_file(lists, id), name) == slots_of(lists, name).filter(not_in(id)),
{
    lemma_same_filter(slots_of(lists, name), elsewhere(id), not_in(id));
    assert(slots_of(without_file(lists, id), name) =~= kept(slots_of(lists, name), id));
}

// Starting over.

/// The stubs of a list of files are those of its parts, one after the other; of one file it is the
/// file itself, if that is a stub.
pub proof fn law_stubs_go_file_by_file<L: Language>(
    a: Seq<Option<FileEntry<L>>>,
    b: Seq<Option<FileEntry<L>>>,
    file: Option<FileEntry<L>>,
)
    ensures
        stubs(a + b) == stubs(a) + stubs(b),
        stubs(seq![file]) == if file is Some && (file->0).origin == FileOrigin::Stub {
            seq![file->0]
        } else {
            Seq::empty()
        },
        stubs(Seq::<Option<FileEntry<L>>>::empty()).len() == 0,
    decreases b.len(),
{
    assert(seq![file].drop_last() =~= Seq::empty());
    assert(stubs(seq![file].drop_last()) =~= Seq::empty());
    assert(stubs(seq![file]) =~= if file is Some && (file->0).origin == FileOrigin::Stub {
        seq![file->0]
    } else {
        Seq::empty()
    });
    if b.len() == 0 {
        assert(a + b =~= a);
        assert(stubs(a) + stubs(b) =~= stubs(a));
    } else {
        law_stubs_go_file_by_file(a, b.drop_last(), file);
        assert((a + b).drop_last() =~= a + b.drop_last());
        assert(stubs(a + b) =~= stubs(a) + stubs(b));
    }
}

proof fn lemma_rebuilt<L: Language>(windows: bool, entries: Seq<FileEntry<L>>)
    requires
        entries.len() <= 0x1_0000_0000,
    ensures
        ({
            let built = IndexView::<L>::rebuilt(windows, entries);
            &&& built.windows == windows
            &&& built.resources.len() == 0
            &&& built.files.len() <= entries.len()
            &&& forall|key: Seq<Seq<u8>>| #[trigger]
                built.paths.contains_key(key) ==> built.paths[key] < built.files.len()
            &&& forall|a: Seq<Seq<u8>>, b: Seq<Seq<u8>>|
                #![trigger built.paths.contains_key(a), built.paths.contains_key(b)]
                built.paths.contains_key(a) && built.paths.contains_key(b) && built.paths[a]
                    == built.paths[b] ==> a == b
        }),
    decreases entries.len(),
{
    if entries.len() > 0 {
        lemma_rebuilt(windows, entries.drop_last());
    }
}

/// Starting over keeps of the stubs that share a path the last one: the path leads to it.
pub proof fn law_last_stub_of_a_path_is_kept<L: Language>(
    windows: bool,
    entries: Seq<FileEntry<L>>,
    i: int,
)
    requires
        entries.len() <= 0x1_0000_0000,
        0 <= i < entries.len(),
        forall|j: int|
            i < j < entries.len() ==> path_key(windows, buf_bytes(#[trigger] entries[j].path))
                != path_key(windows, buf_bytes(entries[i].path)),
    ensures
        ({
            let built = IndexView::<L>::rebuilt(windows, entries);
            let id = built.file_id(buf_bytes(entries[i].path));
            &&& id is Some
            &&& built.file(id->0) == Some(entries[i])
        }),
    decreases entries.len(),
{
    let front = entries.drop_last();
    let built = IndexView::<L>::rebuilt(windows, entries);
    let before = IndexView::<L>::rebuilt(windows, front);
    let last = entries.last();
    let last_key = path_key(windows, buf_bytes(last.path));
    let key = path_key(windows, buf_bytes(entries[i].path));
    lemma_rebuilt(windows, front);
    if i < front.len() {
        assert forall|j: int| i < j < front.len() implies path_key(
            windows,
            buf_bytes(#[trigger] front[j].path),
        ) != path_key(windows, buf_bytes(front[i].path)) by {
            assert(front[j] == entries[j]);
        }
        law_last_stub_of_a_path_is_kept(windows, front, i);
        assert(front[i] == entries[i]);
        assert(path_key(windows, buf_bytes(entries[entries.len() - 1].path)) != key);
        assert(before.paths.contains_key(key));
        assert(before.paths.contains_key(last_key) ==> before.paths[last_key]
            != before.paths[key]);
    }
}

/// Starting over keeps nothing but the stubs, and no resource.
pub proof fn law_starting_over_keeps_only_stubs<L: Language>(
    windows: bool,
    entries: Seq<FileEntry<L>>,
    id: FileId,
)
    requires
        entries.len() <= 0x1_0000_0000,
    ensures
        ({
            let built = IndexView::<L>::rebuilt(windows, entries);
            &&& built.windows == windows
            &&& built.resources.len() == 0
            &&& built.file(id) is Some ==> entries.contains(built.file(id)->0)
        }),
    decreases entries.len(),
{
    lemma_rebuilt(windows, entries);
    if entries.len() > 0 {
        let front = entries.drop_last();
        let built = IndexView::<L>::rebuilt(windows, entries);
        let before = IndexView::<L>::rebuilt(windows, front);
        lemma_rebuilt(windows, front);
        law_starting_over_keeps_only_stubs(windows, front, id);
        if built.file(id) is Some {
            if before.file(id) is Some && built.file(id) == before.file(id) {
                let k = choose|k: int| 0 <= k < front.len() && front[k] == before.file(id)->0;
                assert(entries[k] == built.file(id)->0);
            } else {
                assert(entries[entries.len() - 1] == built.file(id)->0);
            }
        }
    }
}

} // verus!
