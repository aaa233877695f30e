//! Symbol tables as mathematical maps, and the two operations that keep them in step with a file.
use crate::tables::{
    get_slots_mut, remove_slots, slot_lists, slots_entry, slots_of, FileId, Slot,
};
use crate::text::smol_text;
use rustc_hash::FxHashMap;
use smol_str::SmolStr;
use vstd::prelude::*;

verus! {

/// From each name to the slots that carry it.
pub type SlotLists = Map<Seq<char>, Seq<Slot>>;

/// The texts of a list of names.
pub open spec fn texts(names: Seq<&SmolStr>) -> Seq<Seq<char>> {
    names.map_values(|name: &SmolStr| smol_text(*name))
}

/// Tells the slots that lie in another file than `id`.
pub open spec fn elsewhere(id: FileId) -> spec_fn(Slot) -> bool {
    |slot: Slot| slot.0 != id
}

/// The slots that lie in another file than `id`.
pub open spec fn kept(slots: Seq<Slot>, id: FileId) -> Seq<Slot> {
    slots.filter(elsewhere(id))
}

/// The slots of file `id` at which `names` holds `name`, in order.
pub open spec fn occurrences(names: Seq<Seq<char>>, name: Seq<char>, id: FileId) -> Seq<Slot>
    decreases names.len(),
{
    if names.len() == 0 {
        Seq::empty()
    } else {
        let before = occurrences(names.drop_last(), name, id);
        if names.last() == name {
            before.push((id, (names.len() - 1) as u32))
        } else {
            before
        }
    }
}

/// The table without the slots of file `id`; a name that loses its last slot is gone.
pub open spec fn without_file(lists: SlotLists, id: FileId) -> SlotLists {
    Map::new(
        |name: Seq<char>| kept(slots_of(lists, name), id).len() > 0,
        |name: Seq<char>| kept(slots_of(lists, name), id),
    )
}

/// The table with one slot of file `id` added for each of `names`, behind those already there.
pub open spec fn with_names(lists: SlotLists, id: FileId, names: Seq<Seq<char>>) -> SlotLists {
    Map::new(
        |name: Seq<char>| lists.contains_key(name) || names.contains(name),
        |name: Seq<char>| slots_of(lists, name) + occurrences(names, name, id),
    )
}

/// The table without the slots of file `id` under the names in `keys`.
pub open spec fn purged(lists: SlotLists, keys: Seq<Seq<char>>, id: FileId) -> SlotLists {
    Map::new(
        |name: Seq<char>|
            if keys.contains(name) {
                kept(slots_of(lists, name), id).len() > 0
            } else {
                lists.contains_key(name)
            },
        |name: Seq<char>|
            if keys.contains(name) {
                kept(slots_of(lists, name), id)
            } else {
                lists[name]
            },
    )
}

/// Keeps the slots that lie in another file than `file`.
fn retain_others(slots: &mut Vec<Slot>, file: FileId)
    ensures
        final(slots)@ == kept(old(slots)@, file),
{
    let mut others: Vec<Slot> = Vec::new();
    let mut i: usize = 0;
    while i < slots.len()
        invariant
            i <= slots.len(),
            slots@ == old(slots)@,
            others@ == slots@.take(i as int).filter(elsewhere(file)),
        decreases slots.len() - i,
    {
        proof {
            reveal(Seq::filter);
            assert(slots@.take(i + 1).drop_last() =~= slots@.take(i as int));
        }
        let slot = slots[i];
        if slot.0 != file {
            others.push(slot);
        }
        i = i + 1;
    }
    assert(slots@.take(slots@.len() as int) =~= slots@);
    *slots = others;
}

/// Takes the slots of `file` out of the lists under `keys`, and drops the lists left empty.
pub(crate) fn remove_file_slots(
    table: &mut FxHashMap<SmolStr, Vec<Slot>>,
    keys: &Vec<&SmolStr>,
    file: FileId,
)
    ensures
        slot_lists(*final(table)) == purged(slot_lists(*old(table)), texts(keys@), file),
{
    let ghost start = slot_lists(*table);
    let mut i: usize = 0;
    assert(slot_lists(*table) =~= purged(start, texts(keys@).take(0), file));
    while i < keys.len()
        invariant
            i <= keys.len(),
            slot_lists(*table) == purged(start, texts(keys@).take(i as int), file),
        decreases keys.len() - i,
    {
        let ghost done = texts(keys@).take(i as int);
        let ghost next = texts(keys@).take(i + 1);
        let name = keys[i].as_str();
        proof {
            assert(next =~= done.push(name@));
            assert forall|k: Seq<char>| next.contains(k) <==> (done.contains(k) || k == name@) by {
                lemma_push_contains(done, name@, k);
            }
            if done.contains(name@) {
                lemma_kept_twice(slots_of(start, name@), file);
            }
        }
        let mut emptied = false;
        if let Some(slots) = get_slots_mut(table, name) {
            retain_others(slots, file);
            emptied = slots.len() == 0;
        } else {
            assert(kept(Seq::<Slot>::empty(), file) =~= Seq::empty()) by {
                reveal(Seq::filter);
            }
        }
        if emptied {
            remove_slots(table, name);
        }
        assert(slot_lists(*table) =~= purged(start, next, file)) by {
            let empty_kept = kept(Seq::<Slot>::empty(), file);
            assert(empty_kept =~= Seq::empty()) by {
                reveal(Seq::filter);
            }
        }
        i = i + 1;
    }
    assert(texts(keys@).take(keys@.len() as int) =~= texts(keys@));
}

proof fn lemma_push_contains(s: Seq<Seq<char>>, x: Seq<char>, k: Seq<char>)
    ensures
        s.push(x).contains(k) <==> (s.contains(k) || k == x),
{
    if s.contains(k) {
        let i = choose|i: int| 0 <= i < s.len() && s[i] == k;
        assert(s.push(x)[i] == k);
    }
    if k == x {
        assert(s.push(x)[s.len() as int] == k);
    }
    if s.push(x).contains(k) {
        let i = choose|i: int| 0 <= i < s.push(x).len() && s.push(x)[i] == k;
        if i < s.len() {
            assert(s[i] == k);
        }
    }
}

/// Nothing is left to take out the second time.
proof fn lemma_kept_twice(slots: Seq<Slot>, id: FileId)
    ensures
        kept(kept(slots, id), id) == kept(slots, id),
{
    let once = kept(slots, id);
    assert forall|i: int| 0 <= i < once.len() implies #[trigger] once[i].0 != id by {
        slots.lemma_filter_pred(elsewhere(id), i);
    }
    lemma_kept_all(once, id);
}

/// A list without slots of file `id` is kept whole.
pub proof fn lemma_kept_all(slots: Seq<Slot>, id: FileId)
    requires
        forall|i: int| 0 <= i < slots.len() ==> (#[trigger] slots[i]).0 != id,
    ensures
        kept(slots, id) == slots,
    decreases slots.len(),
{
    reveal(Seq::filter);
    if slots.len() > 0 {
        lemma_kept_all(slots.drop_last(), id);
        assert(slots.drop_last().push(slots.last()) =~= slots);
    }
}

/// Adds a slot of `file` under each of `names`.
pub(crate) fn add_file_slots(
    table: &mut FxHashMap<SmolStr, Vec<Slot>>,
    names: &Vec<&SmolStr>,
    file: FileId,
)
    requires
        names.len() <= u32::MAX,
    ensures
        slot_lists(*final(table)) == with_names(slot_lists(*old(table)), file, texts(names@)),
{
    let ghost start = slot_lists(*table);
    let mut i: usize = 0;
    assert(slot_lists(*table) =~= with_names(start, file, texts(names@).take(0)));
    while i < names.len()
        invariant
            i <= names.len() <= u32::MAX,
            slot_lists(*table) == with_names(start, file, texts(names@).take(i as int)),
        decreases names.len() - i,
    {
        let ghost done = texts(names@).take(i as int);
        let ghost next = texts(names@).take(i + 1);
        let ghost name = texts(names@)[i as int];
        proof {
            assert(next =~= done.push(name));
            assert(next.drop_last() =~= done);
            assert forall|k: Seq<char>| next.contains(k) <==> (done.contains(k) || k == name) by {
                lemma_push_contains(done, name, k);
            }
            if !done.contains(name) {
                lemma_no_occurrences(done, name, file);
            }
        }
        slots_entry(table, names[i].clone()).push((file, i as u32));
        assert(slot_lists(*table) =~= with_names(start, file, next));
        i = i + 1;
    }
    assert(texts(names@).take(names@.len() as int) =~= texts(names@));
}

pub proof fn lemma_no_occurrences(names: Seq<Seq<char>>, name: Seq<char>, id: FileId)
    requires
        !names.contains(name),
    ensures
        occurrences(names, name, id) == Seq::<Slot>::empty(),
    decreases names.len(),
{
    if names.len() > 0 {
        assert(names[names.len() - 1] == names.last());
        assert forall|i: int| 0 <= i < names.drop_last().len() implies names.drop_last()[i]
            != name by {
            assert(names[i] == names.drop_last()[i]);
        }
        lemma_no_occurrences(names.drop_last(), name, id);
    }
}

} // verus!
