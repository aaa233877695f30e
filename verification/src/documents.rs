//! The server's tables: open documents, and sets of documents and resources.
use crate::tables::{FileId, ResourceId};
use lsp_types::Url;
use rustc_hash::{FxHashMap, FxHashSet};
use std::path::PathBuf;
use vstd::prelude::*;

verus! {

/// The text of an address.
pub uninterp spec fn url_text(url: Url) -> Seq<char>;

/// `Url::as_str` lends the text of the address.
pub assume_specification[ Url::as_str ](url: &Url) -> (text: &str)
    ensures
        text@ == url_text(*url),
;

/// Cloning an address copies it.
pub assume_specification[ <Url as Clone>::clone ](url: &Url) -> (copy: Url)
    ensures
        url_text(copy) == url_text(*url),
;

/// What the server knows of an open document, apart from its text.
#[derive(Debug)]
pub struct Document {
    pub path: PathBuf,
    pub version: i32,
    /// The document's number in the index, once it has been indexed or reserved.
    pub file: Option<FileId>,
    /// The document is a resource manifest.
    pub manifest: bool,
    /// The text is Lua source and not, say, an encrypted file.
    pub source: bool,
}

/// Open documents by address.
pub type Documents = FxHashMap<Url, Document>;

/// The texts of a list of addresses.
pub open spec fn urls(list: Seq<Url>) -> Seq<Seq<char>> {
    list.map_values(|url: Url| url_text(url))
}

/// A list holds each member of a set once, in no stated order.
pub open spec fn enumerates(list: Seq<Url>, set: Set<Seq<char>>) -> bool {
    &&& urls(list).no_duplicates()
    &&& urls(list).to_set() == set
}

/// Appending to a list inserts into its set.
pub proof fn lemma_push_to_set<A>(list: Seq<A>, x: A)
    ensures
        list.push(x).to_set() == list.to_set().insert(x),
{
    broadcast use vstd::seq_lib::group_seq_properties;

    assert(list.push(x).to_set() =~= list.to_set().insert(x));
}

/// One more item of a list is one more member of its set.
pub proof fn lemma_take_to_set<A>(list: Seq<A>, i: int)
    requires
        0 <= i < list.len(),
    ensures
        list.take(i + 1) == list.take(i).push(list[i]),
        list.take(i + 1).to_set() == list.take(i).to_set().insert(list[i]),
{
    assert(list.take(i + 1) =~= list.take(i).push(list[i]));
    lemma_push_to_set(list.take(i), list[i]);
}

// Open documents.

/// The documents that the table holds, by the text of their address: `Url` is hashed and compared
/// by it.
pub uninterp spec fn open_docs(table: FxHashMap<Url, Document>) -> Map<Seq<char>, Document>;

/// `FxHashMap::default`: an empty table.
#[verifier::external_body]
pub(crate) fn new_docs() -> (table: Documents)
    ensures
        open_docs(table).dom() == Set::<Seq<char>>::empty(),
{
    FxHashMap::default()
}

/// `HashMap::get`: the document under the address, where there is one.
#[verifier::external_body]
pub(crate) fn get_doc<'a>(table: &'a Documents, url: &Url) -> (found: Option<&'a Document>)
    ensures
        found is Some <==> open_docs(*table).contains_key(url_text(*url)),
        found matches Some(doc) ==> *doc == open_docs(*table)[url_text(*url)],
{
    table.get(url)
}

/// `HashMap::get_mut`: what the caller leaves in the document stays in the table.
#[verifier::external_body]
pub(crate) fn get_doc_mut<'a>(table: &'a mut Documents, url: &Url) -> (found: Option<
    &'a mut Document,
>)
    ensures
        found is Some <==> open_docs(*old(table)).contains_key(url_text(*url)),
        found matches Some(doc) ==> *doc == open_docs(*old(table))[url_text(*url)] && open_docs(
            *final(table),
        ) == open_docs(*old(table)).insert(url_text(*url), *final(doc)),
        found is None ==> open_docs(*final(table)) == open_docs(*old(table)),
{
    table.get_mut(url)
}

/// `HashMap::insert`: puts the document under the address, in place of what was there.
#[verifier::external_body]
pub(crate) fn insert_doc(table: &mut Documents, url: Url, doc: Document)
    ensures
        open_docs(*final(table)) == open_docs(*old(table)).insert(url_text(url), doc),
{
    table.insert(url, doc);
}

/// `HashMap::remove`: leaves no document under the address.
#[verifier::external_body]
pub(crate) fn remove_doc(table: &mut Documents, url: &Url)
    ensures
        open_docs(*final(table)) == open_docs(*old(table)).remove(url_text(*url)),
{
    table.remove(url);
}

/// `HashMap::keys`, cloned and collected: every address once, in no stated order.
#[verifier::external_body]
pub(crate) fn doc_urls(table: &Documents) -> (list: Vec<Url>)
    ensures
        enumerates(list@, open_docs(*table).dom()),
{
    table.keys().cloned().collect()
}

// Sets of documents.

/// The addresses in a set, by their text: `Url` is hashed and compared by it.
pub uninterp spec fn url_set(set: FxHashSet<Url>) -> Set<Seq<char>>;

/// `FxHashSet::default`: an empty set.
#[verifier::external_body]
pub(crate) fn new_urls() -> (set: FxHashSet<Url>)
    ensures
        url_set(set) == Set::<Seq<char>>::empty(),
{
    FxHashSet::default()
}

/// `HashSet::insert`: the set afterwards holds the address too.
#[verifier::external_body]
pub(crate) fn insert_url(set: &mut FxHashSet<Url>, url: Url)
    ensures
        url_set(*final(set)) == url_set(*old(set)).insert(url_text(url)),
{
    set.insert(url);
}

/// `HashSet::remove`: the set afterwards lacks the address.
#[verifier::external_body]
pub(crate) fn remove_url(set: &mut FxHashSet<Url>, url: &Url)
    ensures
        url_set(*final(set)) == url_set(*old(set)).remove(url_text(*url)),
{
    set.remove(url);
}

/// `HashSet::contains`: whether the set holds the address.
#[verifier::external_body]
pub(crate) fn has_url(set: &FxHashSet<Url>, url: &Url) -> (found: bool)
    ensures
        found == url_set(*set).contains(url_text(*url)),
{
    set.contains(url)
}

/// `HashSet::iter`, cloned and collected: every address once, in no stated order.
#[verifier::external_body]
pub(crate) fn list_urls(set: &FxHashSet<Url>) -> (list: Vec<Url>)
    ensures
        enumerates(list@, url_set(*set)),
{
    set.iter().cloned().collect()
}

// Sets of resources, with `None` for the files that belong to no resource.

/// The resources in a set.
pub uninterp spec fn resource_set(set: FxHashSet<Option<ResourceId>>) -> Set<Option<ResourceId>>;

/// `FxHashSet::default`: an empty set.
#[verifier::external_body]
pub(crate) fn new_resources() -> (set: FxHashSet<Option<ResourceId>>)
    ensures
        resource_set(set) == Set::<Option<ResourceId>>::empty(),
{
    FxHashSet::default()
}

/// `HashSet::insert`: the set afterwards holds the resource too.
#[verifier::external_body]
pub(crate) fn insert_resource(set: &mut FxHashSet<Option<ResourceId>>, id: Option<ResourceId>)
    ensures
        resource_set(*final(set)) == resource_set(*old(set)).insert(id),
{
    set.insert(id);
}

/// `HashSet::contains`: whether the set holds the resource.
#[verifier::external_body]
pub(crate) fn has_resource(set: &FxHashSet<Option<ResourceId>>, id: Option<ResourceId>) -> (found:
    bool)
    ensures
        found == resource_set(*set).contains(id),
{
    set.contains(&id)
}

/// `HashSet::is_empty`: whether the set holds nothing.
#[verifier::external_body]
pub(crate) fn no_resources(set: &FxHashSet<Option<ResourceId>>) -> (empty: bool)
    ensures
        empty == (resource_set(*set) == Set::<Option<ResourceId>>::empty()),
{
    set.is_empty()
}

// Positions grouped by resource.

/// The positions that the table holds under each resource, in the order they were added.
pub uninterp spec fn grouped(table: FxHashMap<ResourceId, Vec<usize>>) -> Map<ResourceId, Seq<usize>>;

/// `FxHashMap::default`: an empty table.
#[verifier::external_body]
pub(crate) fn new_groups() -> (table: FxHashMap<ResourceId, Vec<usize>>)
    ensures
        grouped(table).dom() == Set::<ResourceId>::empty(),
{
    FxHashMap::default()
}

/// `HashMap::entry` with `or_default`: the list under `id`, made empty where there was none.
#[verifier::external_body]
pub(crate) fn group_entry<'a>(
    table: &'a mut FxHashMap<ResourceId, Vec<usize>>,
    id: ResourceId,
) -> (list: &'a mut Vec<usize>)
    ensures
        list@ == (if grouped(*old(table)).contains_key(id) {
            grouped(*old(table))[id]
        } else {
            Seq::empty()
        }),
        grouped(*final(table)) == grouped(*old(table)).insert(id, final(list)@),
{
    table.entry(id).or_default()
}

/// `HashMap::into_iter`, collected: every resource once with its list, in no stated order.
#[verifier::external_body]
pub(crate) fn into_groups(table: FxHashMap<ResourceId, Vec<usize>>) -> (list: Vec<
    (ResourceId, Vec<usize>),
>)
    ensures
        list@.map_values(|group: (ResourceId, Vec<usize>)| group.0).no_duplicates(),
        list@.map_values(|group: (ResourceId, Vec<usize>)| group.0).to_set() == grouped(
            table,
        ).dom(),
        forall|i: int|
            0 <= i < list@.len() ==> grouped(table)[(#[trigger] list@[i]).0] == list@[i].1@,
{
    table.into_iter().collect()
}

} // verus!
