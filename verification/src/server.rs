//! The state of the language server and what each event makes of it. The connection, the parser and
//! the linter are the caller's: the functions here say what to ask of them and take the answers.
use crate::documents::{
    doc_urls, enumerates, get_doc, get_doc_mut, insert_doc, insert_resource, insert_url,
    lemma_take_to_set, list_urls, new_docs, new_resources, new_urls, open_docs, remove_doc,
    remove_url, resource_set, url_set, url_text, urls,
};
use crate::index::Index;
use crate::model::IndexView;
use crate::paths::{
    buf_bytes, drives_stay, path_bytes, path_from_text, path_key, path_parts, same_path,
};
use crate::settings::strings;
use crate::symbols::{Language, ResourceView};
use crate::tables::{FileId, ResourceId};
use lsp_types::Url;
use rustc_hash::FxHashSet;
use std::path::{Path, PathBuf};
use vstd::prelude::*;
use vstd::utf8::encode_utf8;

pub use crate::capabilities::capabilities;
pub use crate::documents::{Document, Documents};
pub use crate::settings::{DiagnosticSettings, Settings, ToggleSettings};

pub mod pass;
pub mod requests;
pub mod watch;

verus! {

/// The bytes of a list of paths.
pub open spec fn path_list(paths: Seq<PathBuf>) -> Seq<Seq<u8>> {
    paths.map_values(|path: PathBuf| buf_bytes(path))
}

/// The indexed workspace.
#[derive(Debug)]
pub struct Workspace<L: Language> {
    pub index: Index<L>,
    /// The folders that the user works in.
    pub roots: Vec<PathBuf>,
    /// Folders with further sources to index.
    pub library: Vec<PathBuf>,
}

#[derive(Debug)]
pub struct Server<L: Language> {
    ws: Workspace<L>,
    docs: Documents,
    settings: Settings,
    snippet_support: bool,
    watched_files_registration: bool,
    dirty: FxHashSet<Url>,
    diagnostics_pending: bool,
    /// Closed files that currently have diagnostics published, so they can be cleared again.
    workspace_reported: FxHashSet<Url>,
    workspace_stale: bool,
    /// Resources to re-lint after a save or close, which is much cheaper than the whole workspace.
    stale_resources: FxHashSet<Option<ResourceId>>,
    next_request_id: i32,
}

/// What a server holds.
#[verifier::ext_equal]
pub ghost struct ServerView<L: Language> {
    pub index: IndexView<L>,
    pub roots: Seq<Seq<u8>>,
    pub library: Seq<Seq<u8>>,
    /// The open documents by the text of their address.
    pub docs: Map<Seq<char>, Document>,
    pub settings: Settings,
    pub snippet_support: bool,
    pub watched_files_registration: bool,
    /// The documents whose index may be out of date.
    pub dirty: Set<Seq<char>>,
    /// The open documents' diagnostics are to be published.
    pub pending: bool,
    /// The closed files that have diagnostics published.
    pub reported: Set<Seq<char>>,
    /// All closed files are to be linted again.
    pub stale: bool,
    /// The resources whose closed files are to be linted again.
    pub stale_resources: Set<Option<ResourceId>>,
    pub next_request_id: i32,
}

impl<L: Language> View for Server<L> {
    type V = ServerView<L>;

    closed spec fn view(&self) -> ServerView<L> {
        ServerView {
            index: self.ws.index@,
            roots: path_list(self.ws.roots@),
            library: path_list(self.ws.library@),
            docs: open_docs(self.docs),
            settings: self.settings,
            snippet_support: self.snippet_support,
            watched_files_registration: self.watched_files_registration,
            dirty: url_set(self.dirty),
            pending: self.diagnostics_pending,
            reported: url_set(self.workspace_reported),
            stale: self.workspace_stale,
            stale_resources: resource_set(self.stale_resources),
            next_request_id: self.next_request_id,
        }
    }
}

/// The first resource from position `i` on whose manifest lies at a path; the number of resources
/// where there is none.
pub open spec fn first_manifest<L: Language>(
    resources: Seq<ResourceView<L>>,
    bytes: Seq<u8>,
    i: int,
) -> int
    decreases resources.len() - i,
{
    if i >= resources.len() || path_parts(resources[i].manifest_path) == path_parts(bytes) {
        i
    } else {
        first_manifest(resources, bytes, i + 1)
    }
}

/// The resource that a path belongs to: that of the file there if it is indexed, otherwise the one
/// whose manifest lies there.
pub open spec fn resource_at<L: Language>(index: IndexView<L>, bytes: Seq<u8>) -> Option<
    ResourceId,
> {
    let file = match index.file_id(bytes) {
        Some(id) => index.file(id),
        None => None,
    };
    match file {
        Some(entry) => entry.resource,
        None => {
            let i = first_manifest(index.resources, bytes, 0);
            if i < index.resources.len() {
                Some(i as ResourceId)
            } else {
                None
            }
        },
    }
}

/// What the editor tells about its documents and settings.
#[derive(Debug)]
pub enum Notification {
    DidOpen { uri: Url, path: Option<PathBuf>, version: i32, manifest: bool, source: bool },
    DidChange { uri: Url, version: i32, source: bool },
    DidSave { uri: Url, path: Option<PathBuf>, manifest: bool },
    DidClose { uri: Url, path: Option<PathBuf> },
    DidChangeConfiguration { settings: Settings },
}

/// What the workspace has to do before the server takes a notification in.
#[derive(Clone, Copy, Debug, PartialEq, Eq, Structural)]
pub enum Preparation {
    Nothing,
    /// Find the side and the resource of the opened manifest.
    ResolveManifest,
    /// Apply the edits to the document's text.
    ApplyChanges,
    /// Read the saved manifest again.
    ReloadManifest,
    /// Index the closed document from disk.
    IndexFile,
}

impl<L: Language> ServerView<L> {
    /// Every open document is to be indexed again.
    pub open spec fn with_open_dirty(self) -> Self {
        ServerView { dirty: self.dirty.union(self.docs.dom()), ..self }
    }

    /// The changed documents were handed out for indexing: none is marked, and if there were any,
    /// diagnostics are to be published.
    pub open spec fn flushed(self) -> Self {
        ServerView {
            dirty: Set::empty(),
            pending: self.pending || self.dirty != Set::<Seq<char>>::empty(),
            ..self
        }
    }

    /// The diagnostics of open documents were published.
    pub open spec fn published(self) -> Self {
        ServerView { pending: false, ..self }
    }

    /// The work in hand was dropped.
    pub open spec fn recovered(self) -> Self {
        ServerView { dirty: Set::empty(), pending: false, ..self }
    }

    /// A document was given its number in the index, if it is open.
    pub open spec fn numbered(self, uri: Seq<char>) -> Self {
        if self.docs.contains_key(uri) {
            let doc = self.docs[uri];
            let key = path_key(self.index.windows, buf_bytes(doc.path));
            ServerView {
                index: self.index.allocated(key),
                docs: self.docs.insert(
                    uri,
                    Document { file: Some(self.index.id_for(key)), ..doc },
                ),
                ..self
            }
        } else {
            self
        }
    }

    /// The resource of a path is to be linted again; a document without a path belongs to none.
    pub open spec fn with_stale(self, path: Option<PathBuf>) -> Self {
        match path {
            Some(path) => ServerView {
                stale_resources: self.stale_resources.insert(
                    resource_at(self.index, buf_bytes(path)),
                ),
                ..self
            },
            None => self,
        }
    }

    /// What is to be done before a notification.
    pub open spec fn preparation(self, notification: Notification) -> Preparation {
        match notification {
            Notification::DidOpen { uri, path, version, manifest, source } => {
                if path is Some && manifest {
                    Preparation::ResolveManifest
                } else {
                    Preparation::Nothing
                }
            },
            Notification::DidChange { uri, version, source } => {
                if self.docs.contains_key(url_text(uri)) {
                    Preparation::ApplyChanges
                } else {
                    Preparation::Nothing
                }
            },
            Notification::DidSave { uri, path, manifest } => {
                if path is Some && manifest {
                    Preparation::ReloadManifest
                } else {
                    Preparation::Nothing
                }
            },
            Notification::DidClose { uri, path } => {
                if self.docs.contains_key(url_text(uri)) && !self.docs[url_text(uri)].manifest {
                    Preparation::IndexFile
                } else {
                    Preparation::Nothing
                }
            },
            Notification::DidChangeConfiguration { settings } => Preparation::Nothing,
        }
    }

    /// The server after a notification.
    pub open spec fn notified(self, notification: Notification) -> Self {
        match notification {
            Notification::DidOpen { uri, path, version, manifest, source } => match path {
                Some(path) => {
                    let key = path_key(self.index.windows, buf_bytes(path));
                    let doc = Document {
                        path,
                        version,
                        file: if manifest {
                            Some(self.index.id_for(key))
                        } else {
                            None
                        },
                        manifest,
                        source,
                    };
                    ServerView {
                        index: if manifest {
                            self.index.allocated(key)
                        } else {
                            self.index
                        },
                        docs: self.docs.insert(url_text(uri), doc),
                        dirty: self.dirty.insert(url_text(uri)),
                        ..self
                    }
                },
                None => self,
            },
            Notification::DidChange { uri, version, source } => {
                if self.docs.contains_key(url_text(uri)) {
                    let doc = Document { version, source, ..self.docs[url_text(uri)] };
                    ServerView {
                        docs: self.docs.insert(url_text(uri), doc),
                        dirty: self.dirty.insert(url_text(uri)),
                        ..self
                    }
                } else {
                    self
                }
            },
            Notification::DidSave { uri, path, manifest } => {
                let marked = self.with_stale(path);
                ServerView { dirty: marked.dirty.insert(url_text(uri)), ..marked }
            },
            Notification::DidClose { uri, path } => {
                let marked = self.with_stale(path);
                ServerView {
                    docs: marked.docs.remove(url_text(uri)),
                    dirty: marked.dirty.remove(url_text(uri)),
                    reported: marked.reported.insert(url_text(uri)),
                    ..marked
                }
            },
            Notification::DidChangeConfiguration { settings } => ServerView {
                settings,
                stale: true,
                ..self.with_open_dirty()
            },
        }
    }
}

/// What the client says it can do, as far as the server asks.
#[derive(Debug)]
pub struct CompletionItemCapabilities {
    pub snippet_support: Option<bool>,
}

#[derive(Debug)]
pub struct CompletionCapabilities {
    pub completion_item: Option<CompletionItemCapabilities>,
}

#[derive(Debug)]
pub struct TextDocumentCapabilities {
    pub completion: Option<CompletionCapabilities>,
}

#[derive(Debug)]
pub struct WatchedFilesCapabilities {
    pub dynamic_registration: Option<bool>,
}

#[derive(Debug)]
pub struct WorkspaceCapabilities {
    pub did_change_watched_files: Option<WatchedFilesCapabilities>,
}

/// What the client sends to start a session. Folders come as their paths, where they have one.
#[derive(Debug)]
pub struct InitializeParams {
    pub workspace_folders: Option<Vec<Option<PathBuf>>>,
    pub root: Option<PathBuf>,
    /// The initialization options, where they are settings.
    pub settings: Option<Settings>,
    pub text_document: Option<TextDocumentCapabilities>,
    pub workspace: Option<WorkspaceCapabilities>,
}

impl InitializeParams {
    /// Whether the client takes snippets in completions. Silence means no.
    pub open spec fn takes_snippets(self) -> bool {
        &&& self.text_document matches Some(text)
        &&& text.completion matches Some(completion)
        &&& completion.completion_item matches Some(item)
        &&& item.snippet_support == Some(true)
    }

    /// Whether the client lets the server register file watchers. Silence means no.
    pub open spec fn takes_watchers(self) -> bool {
        &&& self.workspace matches Some(workspace)
        &&& workspace.did_change_watched_files matches Some(watched)
        &&& watched.dynamic_registration == Some(true)
    }
}

/// The paths in a list that has gaps.
pub open spec fn known_paths(folders: Seq<Option<PathBuf>>) -> Seq<Seq<u8>>
    decreases folders.len(),
{
    if folders.len() == 0 {
        Seq::empty()
    } else {
        match folders.last() {
            Some(path) => known_paths(folders.drop_last()).push(buf_bytes(path)),
            None => known_paths(folders.drop_last()),
        }
    }
}

/// The folders that the user works in: the workspace folders with a path, or else the root.
pub open spec fn roots_of(
    folders: Option<Vec<Option<PathBuf>>>,
    root: Option<PathBuf>,
) -> Seq<Seq<u8>> {
    let named = match folders {
        Some(list) => known_paths(list@),
        None => Seq::empty(),
    };
    if named.len() > 0 {
        named
    } else {
        match root {
            Some(path) => seq![buf_bytes(path)],
            None => Seq::empty(),
        }
    }
}

/// The folders that the user works in: the workspace folders with a path, or else the root.
pub fn workspace_roots(
    folders: Option<Vec<Option<PathBuf>>>,
    root: Option<PathBuf>,
) -> (roots: Vec<PathBuf>)
    ensures
        path_list(roots@) == roots_of(folders, root),
{
    let mut roots: Vec<PathBuf> = Vec::new();
    if let Some(list) = folders {
        let ghost all = list@;
        for folder in it: list
            invariant
                it.seq() == all,
                path_list(roots@) == known_paths(all.take(it.index() as int)),
        {
            let ghost before = roots@;
            assert(all.take(it.index() + 1).drop_last() =~= all.take(it.index() as int));
            if let Some(path) = folder {
                roots.push(path);
                assert(path_list(roots@) =~= path_list(before).push(buf_bytes(path)));
            }
        }
        assert(all.take(all.len() as int) =~= all);
    }
    assert(path_list(roots@).len() == roots@.len());
    if roots.len() == 0 {
        if let Some(path) = root {
            roots.push(path);
        }
        assert(path_list(roots@) =~= roots_of(folders, root));
    }
    roots
}

/// The request that has the client watch files.
#[derive(Debug)]
pub struct WatchRegistration {
    /// The number of the request.
    pub request: i32,
    /// The name of the registration.
    pub id: String,
    /// What to watch.
    pub globs: Vec<String>,
}

/// What to watch: sources, lint settings, locales and server start-up files.
pub open spec fn watched_globs() -> Seq<Seq<char>> {
    seq![
        "**/*.lua"@,
        "**/qbxlint.toml"@,
        "**/.qbxlint.toml"@,
        "**/locales/*.json"@,
        "**/*.cfg"@,
    ]
}

/// What is left to do for a document that was dirty.
#[derive(Clone, Copy, Debug, PartialEq, Eq, Structural)]
pub enum FlushStep {
    /// Nothing: the document is closed, or is not to be indexed.
    Done,
    /// Index the document's text and say under which number it went.
    Reindex,
}

/// How to publish the diagnostics of an open document.
#[derive(Clone, Copy, Debug, PartialEq, Eq, Structural)]
pub struct Publication {
    pub version: i32,
    /// Lint the document; otherwise publish that there is nothing to say.
    pub lint: bool,
}

impl<L: Language> Server<L> {
    /// A server that has indexed nothing yet.
    pub fn new(params: InitializeParams) -> (server: Self)
        ensures
            server@.index == IndexView::<L>::empty(drives_stay()),
            server@.index.wf(),
            server@.roots == roots_of(params.workspace_folders, params.root),
            params.settings matches Some(settings) ==> server@.settings == settings,
            params.settings is None ==> server@.settings.says_nothing(),
            server@.library == strings(server@.settings.library@).map_values(
                |text: Seq<char>| encode_utf8(text),
            ),
            server@.snippet_support == params.takes_snippets(),
            server@.watched_files_registration == params.takes_watchers(),
            server@.docs.dom() == Set::<Seq<char>>::empty(),
            server@.dirty == Set::<Seq<char>>::empty(),
            !server@.pending,
            server@.reported == Set::<Seq<char>>::empty(),
            server@.stale,
            server@.stale_resources == Set::<Option<ResourceId>>::empty(),
            server@.next_request_id == 0,
    {
        let snippet_support = match &params.text_document {
            Some(text) => match &text.completion {
                Some(completion) => match &completion.completion_item {
                    Some(item) => item.snippet_support.unwrap_or(false),
                    None => false,
                },
                None => false,
            },
            None => false,
        };
        let watched_files_registration = match &params.workspace {
            Some(workspace) => match &workspace.did_change_watched_files {
                Some(watched) => watched.dynamic_registration.unwrap_or(false),
                None => false,
            },
            None => false,
        };
        let settings = match params.settings {
            Some(settings) => settings,
            None => Settings::default(),
        };
        let roots = workspace_roots(params.workspace_folders, params.root);
        let mut library: Vec<PathBuf> = Vec::new();
        let ghost expected = strings(settings.library@).map_values(
            |text: Seq<char>| encode_utf8(text),
        );
        let mut i: usize = 0;
        while i < settings.library.len()
            invariant
                i <= settings.library.len(),
                expected == strings(settings.library@).map_values(
                    |text: Seq<char>| encode_utf8(text),
                ),
                library.len() == i,
                forall|j: int| 0 <= j < i ==> buf_bytes(#[trigger] library@[j]) == expected[j],
            decreases settings.library.len() - i,
        {
            library.push(path_from_text(settings.library[i].clone()));
            i = i + 1;
        }
        assert(path_list(library@) =~= expected);
        Server {
            ws: Workspace { index: Index::default(), roots, library },
            docs: new_docs(),
            settings,
            snippet_support,
            watched_files_registration,
            dirty: new_urls(),
            diagnostics_pending: false,
            workspace_reported: new_urls(),
            workspace_stale: true,
            stale_resources: new_resources(),
            next_request_id: 0,
        }
    }

    /// The indexed workspace.
    pub fn workspace(&self) -> (ws: &Workspace<L>)
        ensures
            ws.index@ == self@.index,
            path_list(ws.roots@) == self@.roots,
            path_list(ws.library@) == self@.library,
    {
        &self.ws
    }

    /// Lends the indexed workspace for changes.
    pub fn workspace_mut(&mut self) -> (ws: &mut Workspace<L>)
        ensures
            ws.index@ == old(self)@.index,
            path_list(ws.roots@) == old(self)@.roots,
            path_list(ws.library@) == old(self)@.library,
            final(self)@ == (ServerView {
                index: final(ws).index@,
                roots: path_list(final(ws).roots@),
                library: path_list(final(ws).library@),
                ..old(self)@
            }),
    {
        &mut self.ws
    }

    /// The user's settings.
    pub fn settings(&self) -> (settings: &Settings)
        ensures
            *settings == self@.settings,
    {
        &self.settings
    }

    /// Whether completions may hold snippets.
    pub fn snippet_support(&self) -> (support: bool)
        ensures
            support == self@.snippet_support,
    {
        self.snippet_support
    }

    /// The request that has the client watch files, if the client takes one.
    pub fn register_watchers(&mut self) -> (registration: Option<WatchRegistration>)
        requires
            old(self)@.next_request_id < i32::MAX,
        ensures
            !old(self)@.watched_files_registration ==> registration is None && final(self)@
                == old(self)@,
            old(self)@.watched_files_registration ==> final(self)@ == (ServerView {
                next_request_id: (old(self)@.next_request_id + 1) as i32,
                ..old(self)@
            }) && (registration matches Some(r) && r.request == old(self)@.next_request_id + 1
                && r.id@ == "qbx-watch-lua"@ && strings(r.globs@) == watched_globs()),
    {
        if !self.watched_files_registration {
            return None;
        }
        let mut globs: Vec<String> = Vec::new();
        globs.push("**/*.lua".to_owned());
        globs.push("**/qbxlint.toml".to_owned());
        globs.push("**/.qbxlint.toml".to_owned());
        globs.push("**/locales/*.json".to_owned());
        globs.push("**/*.cfg".to_owned());
        assert(strings(globs@) =~= watched_globs());
        self.next_request_id = self.next_request_id + 1;
        Some(
            WatchRegistration {
                request: self.next_request_id,
                id: "qbx-watch-lua".to_owned(),
                globs,
            },
        )
    }

    /// Drops the work in hand after a request failed half-way: a bug in one request must not take
    /// the editor's language server down with it.
    pub fn recover(&mut self)
        ensures
            final(self)@ == old(self)@.recovered(),
    {
        self.dirty = new_urls();
        self.diagnostics_pending = false;
    }

    /// The open document at an address.
    pub fn document(&self, uri: &Url) -> (doc: Option<&Document>)
        ensures
            doc is Some <==> self@.docs.contains_key(url_text(*uri)),
            doc matches Some(found) ==> *found == self@.docs[url_text(*uri)],
    {
        get_doc(&self.docs, uri)
    }

    /// Every open document is to be indexed again.
    pub fn mark_open_dirty(&mut self)
        ensures
            final(self)@ == old(self)@.with_open_dirty(),
    {
        let open = doc_urls(&self.docs);
        let ghost before = self@;
        let mut i: usize = 0;
        while i < open.len()
            invariant
                i <= open.len(),
                enumerates(open@, before.docs.dom()),
                self@ == (ServerView {
                    dirty: before.dirty.union(urls(open@).take(i as int).to_set()),
                    ..before
                }),
            decreases open.len() - i,
        {
            insert_url(&mut self.dirty, open[i].clone());
            proof {
                lemma_take_to_set(urls(open@), i as int);
                assert(self@.dirty =~= before.dirty.union(urls(open@).take(i + 1).to_set()));
            }
            i = i + 1;
        }
        assert(urls(open@).take(open@.len() as int) =~= urls(open@));
        assert(self@ =~= before.with_open_dirty());
    }

    /// Open documents are reparsed on every edit but only reindexed once something needs the index:
    /// hands out the documents that changed, each to be taken through `flush_document`.
    pub fn flush_index(&mut self) -> (changed: Vec<Url>)
        ensures
            enumerates(changed@, old(self)@.dirty),
            final(self)@ == old(self)@.flushed(),
    {
        let changed = list_urls(&self.dirty);
        proof {
            if changed@.len() > 0 {
                assert(urls(changed@).contains(urls(changed@)[0]));
                assert(urls(changed@).to_set().contains(urls(changed@)[0]));
            } else {
                assert(urls(changed@).to_set() =~= Set::<Seq<char>>::empty());
            }
        }
        self.dirty = new_urls();
        self.diagnostics_pending = self.diagnostics_pending || changed.len() > 0;
        changed
    }

    /// Gives a changed document its number in the index, and says whether its text is to be indexed.
    pub fn flush_document(&mut self, uri: &Url) -> (step: FlushStep)
        requires
            old(self)@.index.wf(),
            old(self)@.docs.contains_key(url_text(*uri)) ==> old(self)@.index.has_room(
                buf_bytes(old(self)@.docs[url_text(*uri)].path),
            ),
        ensures
            final(self)@ == old(self)@.numbered(url_text(*uri)),
            final(self)@.index.wf(),
            step == FlushStep::Reindex <==> old(self)@.docs.contains_key(url_text(*uri))
                && !old(self)@.docs[url_text(*uri)].manifest
                && old(self)@.docs[url_text(*uri)].source,
    {
        let ghost before = self@;
        if let Some(doc) = get_doc_mut(&mut self.docs, uri) {
            // A full scan reallocates file numbers, including the reserved ones of manifests.
            let id = self.ws.index.allocate(doc.path.as_path());
            doc.file = Some(id);
            if !doc.manifest && doc.source {
                FlushStep::Reindex
            } else {
                FlushStep::Done
            }
        } else {
            assert(self@ =~= before);
            FlushStep::Done
        }
    }

    /// Notes the number under which an open document was indexed.
    pub fn document_indexed(&mut self, uri: &Url, id: FileId)
        ensures
            !old(self)@.docs.contains_key(url_text(*uri)) ==> final(self)@ == old(self)@,
            old(self)@.docs.contains_key(url_text(*uri)) ==> final(self)@ == (ServerView {
                docs: old(self)@.docs.insert(
                    url_text(*uri),
                    (Document { file: Some(id), ..old(self)@.docs[url_text(*uri)] }),
                ),
                ..old(self)@
            }),
    {
        let ghost before = self@;
        if let Some(doc) = get_doc_mut(&mut self.docs, uri) {
            doc.file = Some(id);
        } else {
            assert(self@ =~= before);
        }
    }

    /// The open documents to publish diagnostics for: all of them if anything changed, otherwise
    /// none. What changed is to be indexed first, by `flush_index`.
    pub fn publish_dirty(&mut self) -> (open: Vec<Url>)
        requires
            old(self)@.dirty == Set::<Seq<char>>::empty(),
        ensures
            old(self)@.pending ==> enumerates(open@, old(self)@.docs.dom()),
            !old(self)@.pending ==> open@.len() == 0,
            final(self)@ == old(self)@.published(),
    {
        if self.diagnostics_pending {
            self.diagnostics_pending = false;
            doc_urls(&self.docs)
        } else {
            Vec::new()
        }
    }

    /// How to publish the diagnostics of a document, if it is open.
    pub fn publish(&self, uri: &Url) -> (publication: Option<Publication>)
        ensures
            publication is Some <==> self@.docs.contains_key(url_text(*uri)),
            publication matches Some(p) ==> p == (Publication {
                version: self@.docs[url_text(*uri)].version,
                lint: self@.settings.diagnostics.lints_open(),
            }),
    {
        match get_doc(&self.docs, uri) {
            Some(doc) => Some(
                Publication {
                    version: doc.version,
                    lint: self.settings.diagnostics.enable.unwrap_or(true),
                },
            ),
            None => None,
        }
    }

    /// The resource that a path belongs to.
    fn resource_at(&self, path: &Path) -> (resource: Option<ResourceId>)
        requires
            self@.index.wf(),
        ensures
            resource == resource_at(self@.index, path_bytes(path)),
    {
        if let Some(id) = self.ws.index.file_id(path) {
            if let Some(entry) = self.ws.index.file(id) {
                return entry.resource;
            }
        }
        let count = self.ws.index.resource_count();
        let mut i: usize = 0;
        while i < count
            invariant
                i <= count == self@.index.resources.len(),
                self@.index.wf(),
                self@.index == self.ws.index@,
                self@.index.file_id(path_bytes(path)) is None || self@.index.file(
                    self@.index.file_id(path_bytes(path))->0,
                ) is None,
                first_manifest(self@.index.resources, path_bytes(path), 0) == first_manifest(
                    self@.index.resources,
                    path_bytes(path),
                    i as int,
                ),
            decreases count - i,
        {
            let id = i as ResourceId;
            if let Some(resource) = self.ws.index.resource(id) {
                if same_path(resource.manifest_path.as_path(), path) {
                    return Some(id);
                }
            }
            i = i + 1;
        }
        None
    }

    /// The resource of a path is to be linted again; a document without a path belongs to none.
    pub fn mark_resource_stale(&mut self, path: &Option<PathBuf>)
        requires
            old(self)@.index.wf(),
        ensures
            final(self)@ == old(self)@.with_stale(*path),
    {
        if let Some(path) = path {
            let resource = self.resource_at(path.as_path());
            insert_resource(&mut self.stale_resources, resource);
        }
    }

    /// What the workspace has to do before `handle_notification`.
    pub fn prepare_notification(&self, notification: &Notification) -> (preparation: Preparation)
        ensures
            preparation == self@.preparation(*notification),
    {
        match notification {
            Notification::DidOpen { path, manifest, .. } => {
                if path.is_some() && *manifest {
                    Preparation::ResolveManifest
                } else {
                    Preparation::Nothing
                }
            },
            Notification::DidChange { uri, .. } => {
                if get_doc(&self.docs, uri).is_some() {
                    Preparation::ApplyChanges
                } else {
                    Preparation::Nothing
                }
            },
            Notification::DidSave { path, manifest, .. } => {
                if path.is_some() && *manifest {
                    Preparation::ReloadManifest
                } else {
                    Preparation::Nothing
                }
            },
            Notification::DidClose { uri, .. } => match get_doc(&self.docs, uri) {
                Some(doc) => if doc.manifest {
                    Preparation::Nothing
                } else {
                    Preparation::IndexFile
                },
                None => Preparation::Nothing,
            },
            Notification::DidChangeConfiguration { .. } => Preparation::Nothing,
        }
    }

    /// Takes a notification in, after what `prepare_notification` asked for was done.
    pub fn handle_notification(&mut self, notification: Notification)
        requires
            old(self)@.index.wf(),
            notification matches Notification::DidOpen { path: Some(path), manifest: true, .. }
                ==> old(self)@.index.has_room(buf_bytes(path)),
        ensures
            final(self)@ == old(self)@.notified(notification),
            final(self)@.index.wf(),
    {
        let ghost before = self@;
        match notification {
            Notification::DidOpen { uri, path, version, manifest, source } => {
                if let Some(path) = path {
                    let file = if manifest {
                        Some(self.ws.index.allocate(path.as_path()))
                    } else {
                        None
                    };
                    insert_url(&mut self.dirty, uri.clone());
                    insert_doc(
                        &mut self.docs,
                        uri,
                        Document { path, version, file, manifest, source },
                    );
                }
            },
            Notification::DidChange { uri, version, source } => {
                let open = if let Some(doc) = get_doc_mut(&mut self.docs, &uri) {
                    doc.version = version;
                    doc.source = source;
                    true
                } else {
                    false
                };
                if open {
                    insert_url(&mut self.dirty, uri);
                }
            },
            Notification::DidSave { uri, path, .. } => {
                self.mark_resource_stale(&path);
                insert_url(&mut self.dirty, uri);
            },
            Notification::DidClose { uri, path } => {
                remove_doc(&mut self.docs, &uri);
                remove_url(&mut self.dirty, &uri);
                self.mark_resource_stale(&path);
                insert_url(&mut self.workspace_reported, uri);
            },
            Notification::DidChangeConfiguration { settings } => {
                self.settings = settings;
                self.workspace_stale = true;
                self.mark_open_dirty();
            },
        }
        assert(self@ =~= before.notified(notification));
    }
}

} // verus!
