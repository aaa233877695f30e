//! The hash tables of the index and the server, each with a name for what it holds.
use crate::paths::{buf_bytes, path_bytes, path_parts};
use crate::text::smol_text;
use rustc_hash::{FxBuildHasher, FxHashMap};
use smol_str::SmolStr;
use std::path::{Path, PathBuf};
use vstd::prelude::*;

verus! {

/// Number of an indexed file.
pub type FileId = u32;

/// Number of a resource: its position in the list of resources.
pub type ResourceId = u32;

/// Where a symbol is found: its file, and its position in one of the file's lists.
pub type Slot = (FileId, u32);

/// The hasher that the tables are built with.
#[verifier::external_type_specification]
#[verifier::external_body]
pub struct ExFxBuildHasher(FxBuildHasher);

// Symbol tables: from a name to the slots that carry it.

/// The slots that a symbol table holds under each name, in the order they were added.
pub uninterp spec fn slot_lists(table: FxHashMap<SmolStr, Vec<Slot>>) -> Map<Seq<char>, Seq<Slot>>;

/// The slots under `name`; none where the table has no such name.
pub open spec fn slots_of(lists: Map<Seq<char>, Seq<Slot>>, name: Seq<char>) -> Seq<Slot> {
    if lists.contains_key(name) {
        lists[name]
    } else {
        Seq::empty()
    }
}

/// `FxHashMap::default`: an empty table.
#[verifier::external_body]
pub(crate) fn new_slots() -> (table: FxHashMap<SmolStr, Vec<Slot>>)
    ensures
        slot_lists(table).dom() == Set::<Seq<char>>::empty(),
{
    FxHashMap::default()
}

/// `HashMap::get` by the text of a name: `SmolStr` is hashed and compared by its text.
#[verifier::external_body]
pub(crate) fn get_slots<'a>(table: &'a FxHashMap<SmolStr, Vec<Slot>>, name: &str) -> (found: Option<
    &'a Vec<Slot>,
>)
    ensures
        found is Some <==> slot_lists(*table).contains_key(name@),
        found matches Some(slots) ==> slots@ == slot_lists(*table)[name@],
{
    table.get(name)
}

/// `HashMap::get_mut` by the text of a name: what the caller leaves in the list stays in the table.
#[verifier::external_body]
pub(crate) fn get_slots_mut<'a>(
    table: &'a mut FxHashMap<SmolStr, Vec<Slot>>,
    name: &str,
) -> (found: Option<&'a mut Vec<Slot>>)
    ensures
        found is Some <==> slot_lists(*old(table)).contains_key(name@),
        found matches Some(slots) ==> slots@ == slot_lists(*old(table))[name@] && slot_lists(
            *final(table),
        ) == slot_lists(*old(table)).insert(name@, final(slots)@),
        found is None ==> slot_lists(*final(table)) == slot_lists(*old(table)),
{
    table.get_mut(name)
}

/// `HashMap::entry` with `or_default`: the list under `name`, made empty where there was none.
#[verifier::external_body]
pub(crate) fn slots_entry<'a>(
    table: &'a mut FxHashMap<SmolStr, Vec<Slot>>,
    name: SmolStr,
) -> (slots: &'a mut Vec<Slot>)
    ensures
        slots@ == slots_of(slot_lists(*old(table)), smol_text(name)),
        slot_lists(*final(table)) == slot_lists(*old(table)).insert(
            smol_text(name),
            final(slots)@,
        ),
{
    table.entry(name).or_default()
}

/// `HashMap::remove` by the text of a name: leaves no list under it.
#[verifier::external_body]
pub(crate) fn remove_slots(table: &mut FxHashMap<SmolStr, Vec<Slot>>, name: &str)
    ensures
        slot_lists(*final(table)) == slot_lists(*old(table)).remove(name@),
{
    table.remove(name);
}

/// `HashMap::keys`, collected: every name once, in no stated order.
#[verifier::external_body]
pub(crate) fn slot_names<'a>(table: &'a FxHashMap<SmolStr, Vec<Slot>>) -> (names: Vec<&'a SmolStr>)
    ensures
        names@.map_values(|name: &SmolStr| smol_text(*name)).no_duplicates(),
        names@.map_values(|name: &SmolStr| smol_text(*name)).to_set() == slot_lists(*table).dom(),
{
    table.keys().collect()
}

// The path table: from the components of a path to the file's number.

/// The file numbers that the path table holds, keyed by what `PathBuf` compares and hashes by.
pub uninterp spec fn path_ids(table: FxHashMap<PathBuf, FileId>) -> Map<Seq<Seq<u8>>, FileId>;

/// `FxHashMap::default`: an empty table.
#[verifier::external_body]
pub(crate) fn new_paths() -> (table: FxHashMap<PathBuf, FileId>)
    ensures
        path_ids(table).dom() == Set::<Seq<Seq<u8>>>::empty(),
{
    FxHashMap::default()
}

/// `HashMap::get`, copying the number: the one kept for the path, where there is one.
#[verifier::external_body]
pub(crate) fn get_path(table: &FxHashMap<PathBuf, FileId>, path: &Path) -> (found: Option<FileId>)
    ensures
        found is Some <==> path_ids(*table).contains_key(path_parts(path_bytes(path))),
        found matches Some(id) ==> id == path_ids(*table)[path_parts(path_bytes(path))],
{
    table.get(path).copied()
}

/// `HashMap::insert`: keeps the number for the path, in place of what was there.
#[verifier::external_body]
pub(crate) fn insert_path(table: &mut FxHashMap<PathBuf, FileId>, path: PathBuf, id: FileId)
    ensures
        path_ids(*final(table)) == path_ids(*old(table)).insert(path_parts(buf_bytes(path)), id),
{
    table.insert(path, id);
}

/// `HashMap::remove`: hands out the number kept for the path, where there is one, and drops it.
#[verifier::external_body]
pub(crate) fn remove_path(table: &mut FxHashMap<PathBuf, FileId>, path: &Path) -> (removed: Option<
    FileId,
>)
    ensures
        removed is Some <==> path_ids(*old(table)).contains_key(path_parts(path_bytes(path))),
        removed matches Some(id) ==> id == path_ids(*old(table))[path_parts(path_bytes(path))],
        path_ids(*final(table)) == path_ids(*old(table)).remove(path_parts(path_bytes(path))),
{
    table.remove(path)
}

// The rule table: from a rule's code to the text of its level.

/// The level texts that a rule table holds, by code.
pub uninterp spec fn rule_texts(table: FxHashMap<String, String>) -> Map<Seq<char>, Seq<char>>;

/// `FxHashMap::default`: an empty table.
#[verifier::external_body]
pub(crate) fn new_rules() -> (table: FxHashMap<String, String>)
    ensures
        rule_texts(table).dom() == Set::<Seq<char>>::empty(),
{
    FxHashMap::default()
}

/// `HashMap::iter`, collected: every code once with its text, in no stated order.
#[verifier::external_body]
pub(crate) fn rule_entries<'a>(table: &'a FxHashMap<String, String>) -> (entries: Vec<
    (&'a String, &'a String),
>)
    ensures
        entries@.map_values(|entry: (&String, &String)| entry.0@).no_duplicates(),
        entries@.map_values(|entry: (&String, &String)| entry.0@).to_set() == rule_texts(
            *table,
        ).dom(),
        forall|i: int|
            0 <= i < entries@.len() ==> rule_texts(*table)[(#[trigger] entries@[i]).0@]
                == entries@[i].1@,
{
    table.iter().collect()
}

} // verus!
