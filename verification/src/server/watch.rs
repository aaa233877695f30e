//! Changes on disk that the client saw.
use super::{Server, ServerView};
use crate::documents::{get_doc, new_resources, url_text};
use crate::paths::{buf_bytes, extension, extension_of, path_key};
use crate::symbols::Language;
use crate::tables::ResourceId;
use lsp_types::Url;
use std::path::PathBuf;
use vstd::prelude::*;
use vstd::utf8::encode_utf8;

verus! {

/// A file that changed on disk.
#[derive(Debug)]
pub struct FileChange {
    pub uri: Url,
    pub path: Option<PathBuf>,
    /// The path is that of a resource manifest.
    pub manifest: bool,
    pub deleted: bool,
}

/// What the changes so far mean for the resources.
#[derive(Clone, Copy, Debug, PartialEq, Eq, Structural)]
pub struct ManifestChanges {
    pub changed: bool,
    pub deleted: bool,
}

/// What the workspace has to do about a change.
#[derive(Clone, Copy, Debug, PartialEq, Eq, Structural)]
pub enum WatchStep {
    Skip,
    /// A start-up file changed: forget what was read of it.
    ClearCache,
    /// Lint settings changed: look for them again below the first root.
    DiscoverConfig,
    /// A manifest vanished: forget which resources count as installed.
    ForgetManifest,
    /// A manifest changed or appeared: forget which resources count as installed, and read it.
    ReloadManifest,
    /// The file is gone, and out of the index.
    Forgotten,
    /// Index the file from disk.
    IndexFile,
}

/// Work on the whole workspace.
#[derive(Clone, Copy, Debug, PartialEq, Eq, Structural)]
pub enum WorkspaceStep {
    /// Forget what was read of start-up files and installed resources.
    ClearCache,
    /// Scan the workspace from disk.
    Rescan,
    /// Mark every open document for indexing.
    MarkOpenDirty,
    /// Index the marked documents.
    Flush,
    /// Link the files that manifests import.
    LinkImports,
}

/// Whether a path ends in an extension.
pub open spec fn has_extension(bytes: Seq<u8>, ending: Seq<char>) -> bool {
    extension_of(bytes) == Some(encode_utf8(ending))
}

fn same_bytes(a: &[u8], b: &[u8]) -> (same: bool)
    ensures
        same == (a@ == b@),
{
    if a.len() != b.len() {
        return false;
    }
    let mut i: usize = 0;
    while i < a.len()
        invariant
            i <= a.len() == b.len(),
            forall|j: int| 0 <= j < i ==> a@[j] == b@[j],
        decreases a.len() - i,
    {
        if a[i] != b[i] {
            return false;
        }
        i = i + 1;
    }
    assert(a@ =~= b@);
    true
}

fn ends_in(path: &PathBuf, ending: &str) -> (ends: bool)
    ensures
        ends == has_extension(buf_bytes(*path), ending@),
{
    match extension(path.as_path()) {
        Some(found) => same_bytes(found, ending.as_bytes()),
        None => false,
    }
}

impl<L: Language> ServerView<L> {
    /// What is to be done about a change.
    pub open spec fn watch_step(self, change: FileChange) -> WatchStep {
        match change.path {
            None => WatchStep::Skip,
            Some(path) => {
                if has_extension(buf_bytes(path), "cfg"@) {
                    WatchStep::ClearCache
                } else if has_extension(buf_bytes(path), "toml"@) {
                    if self.roots.len() > 0 {
                        WatchStep::DiscoverConfig
                    } else {
                        WatchStep::Skip
                    }
                } else if change.manifest {
                    if change.deleted {
                        WatchStep::ForgetManifest
                    } else {
                        WatchStep::ReloadManifest
                    }
                } else if change.deleted {
                    WatchStep::Forgotten
                } else if has_extension(buf_bytes(path), "lua"@) && !self.docs.contains_key(
                    url_text(change.uri),
                ) {
                    WatchStep::IndexFile
                } else {
                    WatchStep::Skip
                }
            },
        }
    }
}

/// What is to be done once all changes were seen: a manifest that vanished takes a new scan, after
/// which the unsaved text of open documents is restored; any changed manifest takes linking.
pub open spec fn steps_after(manifests: ManifestChanges) -> Seq<WorkspaceStep> {
    if !manifests.changed {
        Seq::empty()
    } else if manifests.deleted {
        seq![
            WorkspaceStep::Rescan,
            WorkspaceStep::MarkOpenDirty,
            WorkspaceStep::Flush,
            WorkspaceStep::LinkImports,
        ]
    } else {
        seq![WorkspaceStep::LinkImports]
    }
}

/// What is to be done once all changes were seen.
pub fn after_changes(manifests: ManifestChanges) -> (steps: Vec<WorkspaceStep>)
    ensures
        steps@ == steps_after(manifests),
{
    let mut steps: Vec<WorkspaceStep> = Vec::new();
    if manifests.changed {
        if manifests.deleted {
            steps.push(WorkspaceStep::Rescan);
            steps.push(WorkspaceStep::MarkOpenDirty);
            steps.push(WorkspaceStep::Flush);
        }
        steps.push(WorkspaceStep::LinkImports);
    }
    assert(steps@ =~= steps_after(manifests));
    steps
}

/// What a fresh look at the workspace takes: open documents are indexed before any request or
/// diagnostic can see the new index, and once more when the types they share have settled.
pub open spec fn reindex_plan() -> Seq<WorkspaceStep> {
    seq![
        WorkspaceStep::ClearCache,
        WorkspaceStep::Rescan,
        WorkspaceStep::MarkOpenDirty,
        WorkspaceStep::Flush,
        WorkspaceStep::LinkImports,
        WorkspaceStep::MarkOpenDirty,
        WorkspaceStep::Flush,
    ]
}

/// What a fresh look at the workspace takes.
pub fn reindex_steps() -> (steps: Vec<WorkspaceStep>)
    ensures
        steps@ == reindex_plan(),
{
    let mut steps: Vec<WorkspaceStep> = Vec::new();
    steps.push(WorkspaceStep::ClearCache);
    steps.push(WorkspaceStep::Rescan);
    steps.push(WorkspaceStep::MarkOpenDirty);
    steps.push(WorkspaceStep::Flush);
    steps.push(WorkspaceStep::LinkImports);
    steps.push(WorkspaceStep::MarkOpenDirty);
    steps.push(WorkspaceStep::Flush);
    assert(steps@ =~= reindex_plan());
    steps
}

impl<L: Language> Server<L> {
    /// Takes a change in and says what the workspace has to do about it. A deleted file leaves the
    /// index at once.
    pub fn watch_step(&mut self, change: &FileChange, manifests: &mut ManifestChanges) -> (step:
        WatchStep)
        requires
            old(self)@.index.wf(),
        ensures
            step == old(self)@.watch_step(*change),
            final(self)@.index.wf(),
            final(self)@ == (ServerView {
                index: if step == WatchStep::Forgotten {
                    old(self)@.index.without_path(
                        path_key(old(self)@.index.windows, buf_bytes(change.path->0)),
                    )
                } else {
                    old(self)@.index
                },
                ..old(self)@
            }),
            final(manifests).changed == (old(manifests).changed || step
                == WatchStep::ForgetManifest || step == WatchStep::ReloadManifest),
            final(manifests).deleted == (old(manifests).deleted || step
                == WatchStep::ForgetManifest),
    {
        let ghost before = self@;
        let path = match &change.path {
            Some(path) => path,
            None => return WatchStep::Skip,
        };
        if ends_in(path, "cfg") {
            return WatchStep::ClearCache;
        }
        if ends_in(path, "toml") {
            assert(before.roots.len() == self.ws.roots@.len());
            if self.ws.roots.len() > 0 {
                return WatchStep::DiscoverConfig;
            }
            return WatchStep::Skip;
        }
        if change.manifest {
            manifests.changed = true;
            if change.deleted {
                manifests.deleted = true;
                return WatchStep::ForgetManifest;
            }
            return WatchStep::ReloadManifest;
        }
        if change.deleted {
            self.ws.index.remove_file(path.as_path());
            return WatchStep::Forgotten;
        }
        if ends_in(path, "lua") && get_doc(&self.docs, &change.uri).is_none() {
            return WatchStep::IndexFile;
        }
        WatchStep::Skip
    }

    /// Changes on disk may show in any file: all closed files are to be linted again, and every
    /// open document indexed.
    pub fn watched_files_changed(&mut self)
        ensures
            final(self)@ == (ServerView { stale: true, ..old(self)@.with_open_dirty() }),
    {
        self.workspace_stale = true;
        self.mark_open_dirty();
    }

    /// Ends a fresh look at the workspace: all closed files are to be linted again.
    pub fn finish_reindex(&mut self)
        ensures
            final(self)@ == (ServerView {
                stale: true,
                stale_resources: Set::<Option<ResourceId>>::empty(),
                ..old(self)@
            }),
    {
        self.stale_resources = new_resources();
        self.workspace_stale = true;
    }
}

} // verus!
