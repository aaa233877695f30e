//! What each event makes of the server, in terms of what it holds.
use crate::documents::url_text;
use crate::model::IndexView;
use crate::paths::{buf_bytes, extension_of, path_key, path_parts};
use crate::server::requests::{
    is_outcome, NotificationKind, Params, Request, RequestKind, Task,
};
use crate::server::watch::{
    reindex_plan, steps_after, FileChange, ManifestChanges, WatchStep, WorkspaceStep,
};
use crate::server::{
    first_manifest, known_paths, path_list, resource_at, roots_of, watched_globs, InitializeParams,
    Notification, Preparation, ServerView,
};
use crate::settings::Settings;
use crate::symbols::{Language, ResourceView};
use crate::tables::ResourceId;
use lsp_types::Url;
use std::path::PathBuf;
use vstd::prelude::*;
use vstd::utf8::{encode_utf8, encode_utf8_decode_utf8};

verus! {

// The start of a session.

/// The paths of a list of folders are those of its parts, one after the other; a folder without a path
/// has none.
pub proof fn law_folders_go_one_by_one(
    a: Seq<Option<PathBuf>>,
    b: Seq<Option<PathBuf>>,
    folder: Option<PathBuf>,
)
    ensures
        known_paths(a + b) == known_paths(a) + known_paths(b),
        known_paths(seq![folder]) == if folder is Some {
            seq![buf_bytes(folder->0)]
        } else {
            Seq::empty()
        },
        known_paths(Seq::empty()).len() == 0,
    decreases b.len(),
{
    assert(seq![folder].drop_last() =~= Seq::empty());
    assert(known_paths(seq![folder].drop_last()) =~= Seq::empty());
    assert(known_paths(seq![folder]) =~= if folder is Some {
        seq![buf_bytes(folder->0)]
    } else {
        Seq::empty()
    });
    if b.len() == 0 {
        assert(a + b =~= a);
        assert(known_paths(a) + known_paths(b) =~= known_paths(a));
    } else {
        law_folders_go_one_by_one(a, b.drop_last(), folder);
        assert((a + b).drop_last() =~= a + b.drop_last());
        assert(known_paths(a + b) =~= known_paths(a) + known_paths(b));
    }
}

/// The user works in the workspace folders; where none of them has a path, in the root; without a
/// root, nowhere.
pub proof fn law_work_is_in_the_folders_or_the_root(
    folders: Vec<Option<PathBuf>>,
    root: PathBuf,
)
    ensures
        known_paths(folders@).len() > 0 ==> roots_of(Some(folders), Some(root)) == known_paths(
            folders@,
        ) && roots_of(Some(folders), None) == known_paths(folders@),
        known_paths(folders@).len() == 0 ==> roots_of(Some(folders), Some(root)) == seq![
            buf_bytes(root),
        ] && roots_of(Some(folders), None).len() == 0,
        roots_of(None, Some(root)) == seq![buf_bytes(root)],
        roots_of(None, None).len() == 0,
{
}

/// What a client does not say it can, it cannot.
pub proof fn law_silence_means_no(params: InitializeParams)
    ensures
        params.takes_snippets() <==> params.text_document is Some && (
        params.text_document->0).completion is Some && ((
        params.text_document->0).completion->0).completion_item is Some && (((
        params.text_document->0).completion->0).completion_item->0).snippet_support is Some && (((
        params.text_document->0).completion->0).completion_item->0).snippet_support->0,
        params.takes_watchers() <==> params.workspace is Some && (
        params.workspace->0).did_change_watched_files is Some && ((
        params.workspace->0).did_change_watched_files->0).dynamic_registration is Some && ((
        params.workspace->0).did_change_watched_files->0).dynamic_registration->0,
{
}

/// The bytes of a list of paths are theirs, one for one.
pub proof fn law_path_lists_are_their_paths(paths: Seq<PathBuf>, i: int)
    ensures
        path_list(paths).len() == paths.len(),
        0 <= i < paths.len() ==> path_list(paths)[i] == buf_bytes(paths[i]),
{
}

// Documents to index and to publish.

/// Marking the open documents marks exactly these, next to what was marked, and changes nothing else.
pub proof fn law_marking_marks_the_open<L: Language>(server: ServerView<L>, uri: Seq<char>)
    ensures
        server.with_open_dirty().dirty.contains(uri) <==> server.dirty.contains(uri)
            || server.docs.contains_key(uri),
        server.with_open_dirty() == (ServerView {
            dirty: server.with_open_dirty().dirty,
            ..server
        }),
{
}

/// Handing out what is marked leaves nothing marked, has diagnostics published if anything was marked
/// or they were due before, and changes nothing else.
pub proof fn law_handing_out_leaves_nothing_marked<L: Language>(
    server: ServerView<L>,
    uri: Seq<char>,
)
    ensures
        !server.flushed().dirty.contains(uri),
        server.flushed().pending <==> server.pending || exists|marked: Seq<char>| #[trigger]
            server.dirty.contains(marked),
        server.flushed() == (ServerView {
            dirty: server.flushed().dirty,
            pending: server.flushed().pending,
            ..server
        }),
{
    if server.dirty != Set::<Seq<char>>::empty() {
        if !(exists|marked: Seq<char>| #[trigger] server.dirty.contains(marked)) {
            assert(server.dirty =~= Set::<Seq<char>>::empty());
        }
    }
}

/// Publishing settles what was due, and a failure drops what was due and marked; neither changes
/// anything else.
pub proof fn law_publishing_and_failing_settle<L: Language>(server: ServerView<L>, uri: Seq<char>)
    ensures
        !server.published().pending,
        server.published() == (ServerView { pending: false, ..server }),
        !server.recovered().pending,
        !server.recovered().dirty.contains(uri),
        server.recovered() == (ServerView {
            pending: false,
            dirty: server.recovered().dirty,
            ..server
        }),
{
}

/// Numbering an open document gives it the number of its path, reserved if need be, and changes
/// neither anything else of it nor another document; a closed one is left alone.
pub proof fn law_numbering_changes_one_document<L: Language>(
    server: ServerView<L>,
    uri: Seq<char>,
    other: Seq<char>,
)
    ensures
        !server.docs.contains_key(uri) ==> server.numbered(uri) == server,
        server.docs.contains_key(uri) ==> {
            let after = server.numbered(uri);
            let had = server.docs[uri];
            let has = after.docs[uri];
            &&& after.docs.contains_key(uri)
            &&& has.path == had.path && has.version == had.version && has.manifest == had.manifest
                && has.source == had.source
            &&& has.file is Some && has.file == after.index.file_id(buf_bytes(had.path))
            &&& after.index == server.index.allocated(
                path_key(server.index.windows, buf_bytes(had.path)),
            )
            &&& other != uri ==> after.docs.contains_key(other) == server.docs.contains_key(other)
                && after.docs[other] == server.docs[other]
            &&& after == (ServerView { index: after.index, docs: after.docs, ..server })
        },
{
}

// Resources to lint again.

/// A path belongs to the resource of the file there; where no file is known, to the first resource
/// whose manifest lies there; otherwise to none.
pub proof fn law_paths_belong_to_resources<L: Language>(
    index: IndexView<L>,
    bytes: Seq<u8>,
    j: int,
)
    requires
        index.resources.len() <= 0x1_0000_0000,
    ensures
        index.file_id(bytes) is Some && index.file(index.file_id(bytes)->0) is Some ==> resource_at(
            index,
            bytes,
        ) == (index.file(index.file_id(bytes)->0)->0).resource,
        !(index.file_id(bytes) is Some && index.file(index.file_id(bytes)->0) is Some) ==> match (
        resource_at(index, bytes)) {
            Some(r) => r < index.resources.len() && path_parts(
                index.resources[r as int].manifest_path,
            ) == path_parts(bytes) && (0 <= j < r ==> path_parts(index.resources[j].manifest_path)
                != path_parts(bytes)),
            None => 0 <= j < index.resources.len() ==> path_parts(index.resources[j].manifest_path)
                != path_parts(bytes),
        },
{
    lemma_first_manifest(index.resources, bytes, 0, j);
}

proof fn lemma_first_manifest<L: Language>(
    resources: Seq<ResourceView<L>>,
    bytes: Seq<u8>,
    i: int,
    j: int,
)
    requires
        0 <= i <= resources.len(),
    ensures
        i <= first_manifest(resources, bytes, i) <= resources.len(),
        i <= j < first_manifest(resources, bytes, i) ==> path_parts(resources[j].manifest_path)
            != path_parts(bytes),
        first_manifest(resources, bytes, i) < resources.len() ==> path_parts(
            resources[first_manifest(resources, bytes, i)].manifest_path,
        ) == path_parts(bytes),
    decreases resources.len() - i,
{
    if i < resources.len() && path_parts(resources[i].manifest_path) != path_parts(bytes) {
        lemma_first_manifest(resources, bytes, i + 1, j);
    }
}

/// Marking a path's resource marks exactly that, next to what was marked, and changes nothing else;
/// without a path nothing changes.
pub proof fn law_marking_a_path_marks_its_resource<L: Language>(
    server: ServerView<L>,
    path: PathBuf,
    resource: Option<ResourceId>,
)
    ensures
        server.with_stale(None) == server,
        server.with_stale(Some(path)).stale_resources.contains(resource)
            <==> server.stale_resources.contains(resource) || resource == resource_at(
            server.index,
            buf_bytes(path),
        ),
        server.with_stale(Some(path)) == (ServerView {
            stale_resources: server.with_stale(Some(path)).stale_resources,
            ..server
        }),
{
}

// Notifications.

/// A document that is opened at a path is open with what the editor sent, and marked; a manifest has
/// its number at once. No other document changes, and nothing else of the server. Without a path
/// nothing changes.
pub proof fn law_opening<L: Language>(
    server: ServerView<L>,
    uri: Url,
    path: PathBuf,
    version: i32,
    manifest: bool,
    source: bool,
    other: Seq<char>,
)
    ensures
        server.notified(Notification::DidOpen { uri, path: None, version, manifest, source })
            == server,
        ({
            let after = server.notified(
                Notification::DidOpen { uri, path: Some(path), version, manifest, source },
            );
            let doc = after.docs[url_text(uri)];
            &&& after.docs.contains_key(url_text(uri))
            &&& doc.path == path && doc.version == version && doc.manifest == manifest && doc.source
                == source
            &&& manifest ==> after.index == server.index.allocated(
                path_key(server.index.windows, buf_bytes(path)),
            ) && doc.file is Some && doc.file == after.index.file_id(buf_bytes(path))
            &&& !manifest ==> after.index == server.index && doc.file is None
            &&& other != url_text(uri) ==> after.docs.contains_key(other)
                == server.docs.contains_key(other) && after.docs[other] == server.docs[other]
            &&& after.dirty.contains(other) <==> server.dirty.contains(other) || other == url_text(
                uri,
            )
            &&& after == (ServerView {
                index: after.index,
                docs: after.docs,
                dirty: after.dirty,
                ..server
            })
        }),
{
}

/// An edit gives an open document its new version, says anew whether it is source, and marks it; no
/// other document changes, and nothing else of the server. A closed document is left alone.
pub proof fn law_editing<L: Language>(
    server: ServerView<L>,
    uri: Url,
    version: i32,
    source: bool,
    other: Seq<char>,
)
    ensures
        ({
            let after = server.notified(Notification::DidChange { uri, version, source });
            let had = server.docs[url_text(uri)];
            let has = after.docs[url_text(uri)];
            &&& !server.docs.contains_key(url_text(uri)) ==> after == server
            &&& server.docs.contains_key(url_text(uri)) ==> {
                &&& after.docs.contains_key(url_text(uri))
                &&& has.version == version && has.source == source
                &&& has.path == had.path && has.file == had.file && has.manifest == had.manifest
                &&& other != url_text(uri) ==> after.docs.contains_key(other)
                    == server.docs.contains_key(other) && after.docs[other] == server.docs[other]
                &&& after.dirty.contains(other) <==> server.dirty.contains(other) || other
                    == url_text(uri)
                &&& after == (ServerView { docs: after.docs, dirty: after.dirty, ..server })
            }
        }),
{
}

/// A save marks the document and the resource of its path, and changes nothing else.
pub proof fn law_saving<L: Language>(
    server: ServerView<L>,
    uri: Url,
    path: Option<PathBuf>,
    manifest: bool,
    other: Seq<char>,
    resource: Option<ResourceId>,
)
    ensures
        ({
            let after = server.notified(Notification::DidSave { uri, path, manifest });
            &&& after.dirty.contains(other) <==> server.dirty.contains(other) || other == url_text(
                uri,
            )
            &&& after.stale_resources.contains(resource) <==> server.stale_resources.contains(
                resource,
            ) || (path is Some && resource == resource_at(server.index, buf_bytes(path->0)))
            &&& after == (ServerView {
                dirty: after.dirty,
                stale_resources: after.stale_resources,
                ..server
            })
        }),
{
}

/// A closed document is no longer open or marked; its resource is linted again, and its problems can
/// be cleared. No other document changes, and nothing else of the server.
pub proof fn law_closing<L: Language>(
    server: ServerView<L>,
    uri: Url,
    path: Option<PathBuf>,
    other: Seq<char>,
    resource: Option<ResourceId>,
)
    ensures
        ({
            let after = server.notified(Notification::DidClose { uri, path });
            &&& after.docs.contains_key(other) <==> server.docs.contains_key(other) && other
                != url_text(uri)
            &&& other != url_text(uri) ==> after.docs[other] == server.docs[other]
            &&& after.dirty.contains(other) <==> server.dirty.contains(other) && other != url_text(
                uri,
            )
            &&& after.reported.contains(other) <==> server.reported.contains(other) || other
                == url_text(uri)
            &&& after.stale_resources.contains(resource) <==> server.stale_resources.contains(
                resource,
            ) || (path is Some && resource == resource_at(server.index, buf_bytes(path->0)))
            &&& after == (ServerView {
                docs: after.docs,
                dirty: after.dirty,
                reported: after.reported,
                stale_resources: after.stale_resources,
                ..server
            })
        }),
{
}

/// New settings are taken as they are, have all closed files linted again, and mark the open
/// documents; nothing else changes.
pub proof fn law_configuring<L: Language>(
    server: ServerView<L>,
    settings: Settings,
    other: Seq<char>,
)
    ensures
        ({
            let after = server.notified(Notification::DidChangeConfiguration { settings });
            &&& after.settings == settings
            &&& after.stale
            &&& after.dirty.contains(other) <==> server.dirty.contains(other)
                || server.docs.contains_key(other)
            &&& after == (ServerView { settings, stale: true, dirty: after.dirty, ..server })
        }),
{
}

/// What is done before a notification: an opened manifest is resolved and a saved one read again, an
/// open document is edited, and one that is closed is indexed from disk unless it is a manifest.
pub proof fn law_preparing<L: Language>(
    server: ServerView<L>,
    uri: Url,
    path: Option<PathBuf>,
    version: i32,
    manifest: bool,
    source: bool,
    settings: Settings,
)
    ensures
        server.preparation(Notification::DidOpen { uri, path, version, manifest, source })
            == if manifest && path is Some {
            Preparation::ResolveManifest
        } else {
            Preparation::Nothing
        },
        server.preparation(Notification::DidSave { uri, path, manifest }) == if manifest
            && path is Some {
            Preparation::ReloadManifest
        } else {
            Preparation::Nothing
        },
        server.preparation(Notification::DidChange { uri, version, source })
            == if server.docs.contains_key(url_text(uri)) {
            Preparation::ApplyChanges
        } else {
            Preparation::Nothing
        },
        server.preparation(Notification::DidClose { uri, path }) == if server.docs.contains_key(
            url_text(uri),
        ) && !server.docs[url_text(uri)].manifest {
            Preparation::IndexFile
        } else {
            Preparation::Nothing
        },
        server.preparation(Notification::DidChangeConfiguration { settings })
            == Preparation::Nothing,
{
}

// Changes on disk.

/// Endings that differ as texts differ as bytes.
proof fn lemma_endings_differ()
    ensures
        encode_utf8("cfg"@) != encode_utf8("toml"@),
        encode_utf8("cfg"@) != encode_utf8("lua"@),
        encode_utf8("toml"@) != encode_utf8("lua"@),
{
    reveal_strlit("cfg");
    reveal_strlit("toml");
    reveal_strlit("lua");
    encode_utf8_decode_utf8("cfg"@);
    encode_utf8_decode_utf8("toml"@);
    encode_utf8_decode_utf8("lua"@);
    assert("cfg"@[0] == 'c' && "lua"@[0] == 'l');
    assert("cfg"@.len() == 3 && "toml"@.len() == 4 && "lua"@.len() == 3);
}

/// A script that changed or appeared and that nobody has open is indexed from disk, whatever the index
/// holds.
pub proof fn law_changed_scripts_are_indexed<L: Language>(server: ServerView<L>, change: FileChange)
    requires
        change.path is Some,
        extension_of(buf_bytes(change.path->0)) == Some(encode_utf8("lua"@)),
        !change.manifest,
        !change.deleted,
        !server.docs.contains_key(url_text(change.uri)),
    ensures
        server.watch_step(change) == WatchStep::IndexFile,
{
    lemma_endings_differ();
}

/// A file that is gone leaves the index, unless it is a manifest, a start-up file or lint settings.
pub proof fn law_deleted_files_are_forgotten<L: Language>(server: ServerView<L>, change: FileChange)
    requires
        change.path is Some,
        extension_of(buf_bytes(change.path->0)) != Some(encode_utf8("cfg"@)),
        extension_of(buf_bytes(change.path->0)) != Some(encode_utf8("toml"@)),
        !change.manifest,
        change.deleted,
    ensures
        server.watch_step(change) == WatchStep::Forgotten,
{
}

/// A manifest that is gone or changed is seen as such, whatever is open.
pub proof fn law_manifests_are_seen<L: Language>(server: ServerView<L>, change: FileChange)
    requires
        change.path is Some,
        extension_of(buf_bytes(change.path->0)) != Some(encode_utf8("cfg"@)),
        extension_of(buf_bytes(change.path->0)) != Some(encode_utf8("toml"@)),
        change.manifest,
    ensures
        change.deleted ==> server.watch_step(change) == WatchStep::ForgetManifest,
        !change.deleted ==> server.watch_step(change) == WatchStep::ReloadManifest,
{
}

/// Start-up files and lint settings are read anew however they changed; lint settings only if there is
/// a root to look below.
pub proof fn law_settings_files_are_seen<L: Language>(server: ServerView<L>, change: FileChange)
    requires
        change.path is Some,
    ensures
        extension_of(buf_bytes(change.path->0)) == Some(encode_utf8("cfg"@)) ==> server.watch_step(
            change,
        ) == WatchStep::ClearCache,
        extension_of(buf_bytes(change.path->0)) == Some(encode_utf8("toml"@)) ==> server.watch_step(
            change,
        ) == if server.roots.len() == 0 {
            WatchStep::Skip
        } else {
            WatchStep::DiscoverConfig
        },
{
    lemma_endings_differ();
}

/// Every other change is none of the server's business: one without a path, to an open script, or to
/// a file that is no script.
pub proof fn law_other_changes_are_skipped<L: Language>(server: ServerView<L>, change: FileChange)
    requires
        change.path is Some ==> !change.manifest && !change.deleted && extension_of(
            buf_bytes(change.path->0),
        ) != Some(encode_utf8("cfg"@)) && extension_of(buf_bytes(change.path->0)) != Some(
            encode_utf8("toml"@),
        ) && (extension_of(buf_bytes(change.path->0)) != Some(encode_utf8("lua"@))
            || server.docs.contains_key(url_text(change.uri))),
    ensures
        server.watch_step(change) == WatchStep::Skip,
{
}

/// What a change takes does not depend on what is indexed.
pub proof fn law_changes_ignore_the_index<L: Language>(
    server: ServerView<L>,
    index: IndexView<L>,
    change: FileChange,
)
    ensures
        server.watch_step(change) == (ServerView { index, ..server }).watch_step(change),
{
}

/// A changed manifest has imports linked, at the very end; one that is gone has the workspace scanned
/// before, and after that the open documents indexed again. Without either nothing is done.
pub proof fn law_manifests_have_imports_linked(manifests: ManifestChanges)
    ensures
        ({
            let steps = steps_after(manifests);
            &&& !manifests.changed ==> steps.len() == 0
            &&& manifests.changed ==> steps.len() > 0 && steps.last() == WorkspaceStep::LinkImports
            &&& manifests.changed && !manifests.deleted ==> steps.len() == 1
            &&& manifests.changed && manifests.deleted ==> steps.len() == 4 && steps[0]
                == WorkspaceStep::Rescan && steps[1] == WorkspaceStep::MarkOpenDirty && steps[2]
                == WorkspaceStep::Flush
        }),
{
}

/// A fresh look forgets what was read and scans; then the open documents are indexed before and after
/// imports are linked.
pub proof fn law_fresh_look_settles_open_documents()
    ensures
        reindex_plan().len() == 7,
        reindex_plan()[0] == WorkspaceStep::ClearCache,
        reindex_plan()[1] == WorkspaceStep::Rescan,
        reindex_plan()[4] == WorkspaceStep::LinkImports,
        reindex_plan()[2] == WorkspaceStep::MarkOpenDirty,
        reindex_plan()[3] == WorkspaceStep::Flush,
        reindex_plan()[5] == WorkspaceStep::MarkOpenDirty,
        reindex_plan()[6] == WorkspaceStep::Flush,
{
}

// Requests.

/// Which requests check their parameters, and which are about an open document.
pub proof fn law_kinds_of_requests(kind: RequestKind)
    ensures
        !kind.checks_params() <==> kind == RequestKind::Status || kind == RequestKind::Reindex
            || kind == RequestKind::Snippets,
        kind.about_document() <==> kind == RequestKind::Completion || kind == RequestKind::Hover
            || kind == RequestKind::SignatureHelp || kind == RequestKind::GotoDefinition || kind
            == RequestKind::References || kind == RequestKind::DocumentHighlight || kind
            == RequestKind::PrepareRename || kind == RequestKind::Rename || kind
            == RequestKind::DocumentSymbol || kind == RequestKind::CodeAction || kind
            == RequestKind::FoldingRange || kind == RequestKind::InlayHint || kind
            == RequestKind::SemanticTokensFull || kind == RequestKind::Formatting,
{
}

/// Whether the user switched a kind of request off.
pub open spec fn is_off<L: Language>(server: ServerView<L>, kind: RequestKind) -> bool {
    ||| kind == RequestKind::InlayHint && server.settings.inlay_hints.enable is Some
        && !server.settings.inlay_hints.enable->0
    ||| kind == RequestKind::SemanticTokensFull && server.settings.semantic_tokens.enable is Some
        && !server.settings.semantic_tokens.enable->0
}

/// A request about an open document is worked on unless it is switched off; about a closed one it is
/// refused, by its address.
pub proof fn law_requests_about_documents<L: Language>(
    server: ServerView<L>,
    kind: RequestKind,
    uri: Url,
)
    requires
        kind.about_document(),
    ensures
        !is_off(server, kind) && server.docs.contains_key(url_text(uri)) ==> server.dispatched(
            kind,
            Params::Document { uri },
        ) == Ok::<Task, Seq<char>>(Task::Run(kind)),
        !is_off(server, kind) && !server.docs.contains_key(url_text(uri)) ==> server.dispatched(
            kind,
            Params::Document { uri },
        ) == Err::<Task, Seq<char>>("document is not open: "@ + url_text(uri)),
        is_off(server, kind) && kind == RequestKind::InlayHint ==> server.dispatched(
            kind,
            Params::Document { uri },
        ) == Ok::<Task, Seq<char>>(Task::NoInlayHints),
        is_off(server, kind) && kind == RequestKind::SemanticTokensFull ==> server.dispatched(
            kind,
            Params::Document { uri },
        ) == Ok::<Task, Seq<char>>(Task::NoSemanticTokens),
{
}

/// A request with parameters of another shape is refused with what is wrong, where its parameters are
/// checked; every other request is worked on.
pub proof fn law_other_requests<L: Language>(
    server: ServerView<L>,
    kind: RequestKind,
    message: String,
    uri: Url,
)
    ensures
        kind.checks_params() ==> server.dispatched(kind, Params::Malformed { message }) == Err::<
            Task,
            Seq<char>,
        >(message@),
        !kind.checks_params() ==> server.dispatched(kind, Params::Malformed { message }) == Ok::<
            Task,
            Seq<char>,
        >(Task::Run(kind)),
        !kind.about_document() ==> server.dispatched(kind, Params::Document { uri }) == Ok::<
            Task,
            Seq<char>,
        >(Task::Run(kind)),
        server.dispatched(kind, Params::Other) == Ok::<Task, Seq<char>>(Task::Run(kind)),
{
}

/// An outcome is the expected one exactly if both are the same task, or both errors with the same text.
pub proof fn law_outcomes_are_compared_whole(
    outcome: Result<Task, String>,
    expected: Result<Task, Seq<char>>,
)
    ensures
        is_outcome(outcome, expected) <==> (outcome is Ok && expected is Ok && outcome->Ok_0
            == expected->Ok_0) || (outcome is Err && expected is Err && outcome->Err_0@
            == expected->Err_0),
{
}

/// A request fits unless it is about a document, has parameters of the right shape, and names none.
pub proof fn law_fitting_requests_name_their_document(request: Request, kind: RequestKind)
    ensures
        request.fits() && request.method@ == kind.method() && kind.about_document()
            ==> !(request.params is Other),
        request.params is Malformed || request.params is Document ==> request.fits(),
{
}

/// Each request comes under the method that the protocol, or this server, gives it.
pub proof fn law_methods_of_requests()
    ensures
        RequestKind::Completion.method() == "textDocument/completion"@,
        RequestKind::ResolveCompletionItem.method() == "completionItem/resolve"@,
        RequestKind::Hover.method() == "textDocument/hover"@,
        RequestKind::SignatureHelp.method() == "textDocument/signatureHelp"@,
        RequestKind::GotoDefinition.method() == "textDocument/definition"@,
        RequestKind::References.method() == "textDocument/references"@,
        RequestKind::DocumentHighlight.method() == "textDocument/documentHighlight"@,
        RequestKind::PrepareRename.method() == "textDocument/prepareRename"@,
        RequestKind::Rename.method() == "textDocument/rename"@,
        RequestKind::DocumentSymbol.method() == "textDocument/documentSymbol"@,
        RequestKind::WorkspaceSymbol.method() == "workspace/symbol"@,
        RequestKind::CodeAction.method() == "textDocument/codeAction"@,
        RequestKind::FoldingRange.method() == "textDocument/foldingRange"@,
        RequestKind::InlayHint.method() == "textDocument/inlayHint"@,
        RequestKind::SemanticTokensFull.method() == "textDocument/semanticTokens/full"@,
        RequestKind::Formatting.method() == "textDocument/formatting"@,
        RequestKind::Status.method() == "qbx/status"@,
        RequestKind::Reindex.method() == "qbx/reindex"@,
        RequestKind::FileInfo.method() == "qbx/fileInfo"@,
        RequestKind::Snippets.method() == "qbx/snippets"@,
{
}

/// Each notification comes under the method that the protocol gives it.
pub proof fn law_methods_of_notifications()
    ensures
        NotificationKind::DidOpen.method() == "textDocument/didOpen"@,
        NotificationKind::DidChange.method() == "textDocument/didChange"@,
        NotificationKind::DidSave.method() == "textDocument/didSave"@,
        NotificationKind::DidClose.method() == "textDocument/didClose"@,
        NotificationKind::DidChangeWatchedFiles.method() == "workspace/didChangeWatchedFiles"@,
        NotificationKind::DidChangeConfiguration.method() == "workspace/didChangeConfiguration"@,
{
}

/// Sources, lint settings, locales and start-up files are watched.
pub proof fn law_what_is_watched()
    ensures
        watched_globs().len() == 5,
        watched_globs().contains("**/*.lua"@),
        watched_globs().contains("**/qbxlint.toml"@),
        watched_globs().contains("**/.qbxlint.toml"@),
        watched_globs().contains("**/locales/*.json"@),
        watched_globs().contains("**/*.cfg"@),
{
    let globs = watched_globs();
    assert(globs[0] == "**/*.lua"@);
    assert(globs[1] == "**/qbxlint.toml"@);
    assert(globs[2] == "**/.qbxlint.toml"@);
    assert(globs[3] == "**/locales/*.json"@);
    assert(globs[4] == "**/*.cfg"@);
}

} // verus!
