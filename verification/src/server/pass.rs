//! Linting the files nobody has open, so that the editor's problem list covers the workspace.
use super::{Server, ServerView};
use crate::documents::{
    enumerates, get_doc, group_entry, grouped, has_resource, has_url, insert_url, into_groups,
    lemma_push_to_set, lemma_take_to_set, list_urls, new_groups, new_resources, new_urls,
    no_resources, remove_url, url_set, url_text, urls,
};
use crate::index::lookup::lent;
use crate::paths::{buf_bytes, path_bytes, path_key, path_parts, starts_with};
use crate::symbols::{FileEntry, FileOrigin, Language};
use crate::tables::{FileId, ResourceId};
use lsp_types::Url;
use rustc_hash::{FxHashMap, FxHashSet};
use std::path::{Path, PathBuf};
use vstd::prelude::*;

verus! {

/// Opening the file shows everything; the workspace overview only needs to say "look here".
pub const MAX_PROBLEMS_PER_CLOSED_FILE: usize = 100;

/// How grave a problem is.
#[derive(Clone, Copy, Debug, PartialEq, Eq, Structural)]
pub enum Severity {
    Error,
    Warning,
    Information,
    Hint,
}

/// Where a problem stands in the overview: errors first, then the others, then those of unstated
/// gravity. Hints are left out.
#[derive(Clone, Copy, Debug, PartialEq, Eq, Structural)]
pub enum Rank {
    First,
    Second,
    Last,
    Left,
}

/// The rank of a problem.
pub open spec fn rank(severity: Option<Severity>) -> Rank {
    match severity {
        Some(Severity::Error) => Rank::First,
        Some(Severity::Hint) => Rank::Left,
        Some(_) => Rank::Second,
        None => Rank::Last,
    }
}

/// The positions of the problems of one rank, in order.
pub open spec fn of_rank(severities: Seq<Option<Severity>>, wanted: Rank) -> Seq<usize>
    decreases severities.len(),
{
    if severities.len() == 0 {
        Seq::empty()
    } else {
        let before = of_rank(severities.drop_last(), wanted);
        if rank(severities.last()) == wanted {
            before.push((severities.len() - 1) as usize)
        } else {
            before
        }
    }
}

/// The positions of all problems but hints, by rank, and within a rank in order.
pub open spec fn by_rank(severities: Seq<Option<Severity>>) -> Seq<usize> {
    of_rank(severities, Rank::First) + of_rank(severities, Rank::Second) + of_rank(
        severities,
        Rank::Last,
    )
}

/// The positions of the problems that the overview shows, in the order it shows them.
pub open spec fn shown(severities: Seq<Option<Severity>>) -> Seq<usize> {
    let all = by_rank(severities);
    if all.len() <= MAX_PROBLEMS_PER_CLOSED_FILE {
        all
    } else {
        all.take(MAX_PROBLEMS_PER_CLOSED_FILE as int)
    }
}

fn rank_of(severity: Option<Severity>) -> (found: Rank)
    ensures
        found == rank(severity),
{
    match severity {
        Some(Severity::Error) => Rank::First,
        Some(Severity::Hint) => Rank::Left,
        Some(_) => Rank::Second,
        None => Rank::Last,
    }
}

fn push_rank(positions: &mut Vec<usize>, severities: &Vec<Option<Severity>>, wanted: Rank)
    ensures
        final(positions)@ == old(positions)@ + of_rank(severities@, wanted),
{
    let ghost start = positions@;
    let mut i: usize = 0;
    assert(start + of_rank(severities@.take(0), wanted) =~= start);
    while i < severities.len()
        invariant
            i <= severities.len(),
            positions@ == start + of_rank(severities@.take(i as int), wanted),
        decreases severities.len() - i,
    {
        assert(severities@.take(i + 1).drop_last() =~= severities@.take(i as int));
        if rank_of(severities[i]) == wanted {
            positions.push(i);
        }
        assert(positions@ =~= start + of_rank(severities@.take(i + 1), wanted));
        i = i + 1;
    }
    assert(severities@.take(severities@.len() as int) =~= severities@);
}

/// The problems of a closed file that the overview shows, by position, in the order it shows them:
/// no hints, errors first, and not too many.
pub fn select_problems(severities: &Vec<Option<Severity>>) -> (positions: Vec<usize>)
    ensures
        positions@ == shown(severities@),
{
    let mut positions: Vec<usize> = Vec::new();
    push_rank(&mut positions, severities, Rank::First);
    push_rank(&mut positions, severities, Rank::Second);
    push_rank(&mut positions, severities, Rank::Last);
    assert(positions@ =~= by_rank(severities@));
    if positions.len() > MAX_PROBLEMS_PER_CLOSED_FILE {
        positions.truncate(MAX_PROBLEMS_PER_CLOSED_FILE);
        assert(positions@ =~= shown(severities@));
    }
    positions
}

/// A file to lint.
#[derive(Debug)]
pub struct Target {
    pub uri: Url,
    pub path: PathBuf,
    /// The number of the file; a manifest has none of its own.
    pub file: Option<FileId>,
}

/// What a target holds.
pub ghost struct TargetView {
    pub uri: Seq<char>,
    pub path: Seq<u8>,
    pub file: Option<FileId>,
}

impl View for Target {
    type V = TargetView;

    open spec fn view(&self) -> TargetView {
        TargetView { uri: url_text(self.uri), path: buf_bytes(self.path), file: self.file }
    }
}

/// A pass over the closed files.
#[derive(Debug)]
pub struct WorkspacePass {
    targets: Vec<Target>,
    reported: FxHashSet<Url>,
    usage: FxHashMap<ResourceId, Vec<usize>>,
}

/// What a pass holds.
#[verifier::ext_equal]
pub ghost struct PassView {
    pub targets: Seq<TargetView>,
    /// The files that have diagnostics published when the pass ends.
    pub reported: Set<Seq<char>>,
    /// The targets whose locale keys count for each resource.
    pub usage: Map<ResourceId, Seq<usize>>,
}

impl View for WorkspacePass {
    type V = PassView;

    closed spec fn view(&self) -> PassView {
        PassView {
            targets: self.targets@.map_values(|target: Target| target@),
            reported: url_set(self.reported),
            usage: grouped(self.usage),
        }
    }
}

/// What to do about a target.
#[derive(Clone, Copy, Debug, PartialEq, Eq, Structural)]
pub enum TargetStep {
    /// Somebody has it open: its own diagnostics are published, only its locale keys count here.
    Open,
    /// Read and lint it.
    Read,
}

/// The groups with position `i` added for a resource, if there is one.
pub open spec fn with_usage(
    usage: Map<ResourceId, Seq<usize>>,
    resource: Option<ResourceId>,
    i: usize,
) -> Map<ResourceId, Seq<usize>> {
    match resource {
        Some(r) => usage.insert(
            r,
            if usage.contains_key(r) {
                usage[r].push(i)
            } else {
                seq![i]
            },
        ),
        None => usage,
    }
}

impl PassView {
    /// The pass after a file was linted: with problems it is reported, otherwise as it was.
    pub open spec fn linted(self, uri: Seq<char>, found: bool) -> Self {
        PassView {
            reported: if found {
                self.reported.insert(uri)
            } else {
                self.reported
            },
            ..self
        }
    }

    /// The pass after a locale file was linted: it is reported exactly if it has problems.
    pub open spec fn locale_linted(self, uri: Seq<char>, found: bool) -> Self {
        PassView {
            reported: if found {
                self.reported.insert(uri)
            } else {
                self.reported.remove(uri)
            },
            ..self
        }
    }
}

/// A file or locale file that a pass linted, and whether it has problems.
pub ghost struct Linted {
    pub uri: Seq<char>,
    pub found: bool,
    /// It is a locale file.
    pub locale: bool,
}

impl PassView {
    /// The pass after these files were linted.
    pub open spec fn after(self, linted: Seq<Linted>) -> Self
        decreases linted.len(),
    {
        if linted.len() == 0 {
            self
        } else {
            let before = self.after(linted.drop_last());
            let last = linted.last();
            if last.locale {
                before.locale_linted(last.uri, last.found)
            } else {
                before.linted(last.uri, last.found)
            }
        }
    }
}

impl<L: Language> ServerView<L> {
    /// Whether any closed file is to be linted again.
    pub open spec fn pass_due(self) -> bool {
        self.stale || self.stale_resources != Set::<Option<ResourceId>>::empty()
    }

    /// Whether the files of a resource are to be linted again.
    pub open spec fn in_scope(self, resource: Option<ResourceId>) -> bool {
        self.stale || self.stale_resources.contains(resource)
    }

    /// Whether a path lies in a folder that the user works in.
    pub open spec fn in_workspace(self, bytes: Seq<u8>) -> bool {
        exists|i: int|
            0 <= i < self.roots.len() && path_parts(#[trigger] self.roots[i]).is_prefix_of(
                path_parts(bytes),
            )
    }

    /// The indexed files among the first `n` numbers to lint again.
    pub open spec fn file_targets(self, n: int) -> Seq<TargetView>
        decreases n,
    {
        if n <= 0 {
            Seq::empty()
        } else {
            let before = self.file_targets(n - 1);
            match self.index.files[n - 1] {
                Some(entry) if entry.origin == FileOrigin::Workspace && self.in_scope(
                    entry.resource,
                ) => before.push(
                    TargetView {
                        uri: url_text(entry.uri),
                        path: buf_bytes(entry.path),
                        file: Some((n - 1) as FileId),
                    },
                ),
                _ => before,
            }
        }
    }

    /// The manifests of the first `n` resources to lint again, at their addresses.
    pub open spec fn manifest_targets(self, uris: Seq<Url>, n: int) -> Seq<TargetView>
        decreases n,
    {
        if n <= 0 {
            Seq::empty()
        } else {
            let before = self.manifest_targets(uris, n - 1);
            let path = self.index.resources[n - 1].manifest_path;
            if self.in_workspace(path) && self.in_scope(Some((n - 1) as ResourceId)) {
                before.push(TargetView { uri: url_text(uris[n - 1]), path, file: None })
            } else {
                before
            }
        }
    }

    /// The files to lint again: none where linting closed files is switched off.
    pub open spec fn targets(self, uris: Seq<Url>) -> Seq<TargetView> {
        if self.settings.diagnostics.lints_closed() {
            self.file_targets(self.index.files.len() as int) + self.manifest_targets(
                uris,
                self.index.resources.len() as int,
            )
        } else {
            Seq::empty()
        }
    }

    /// The addresses of targets.
    pub open spec fn checked(targets: Seq<TargetView>) -> Set<Seq<char>> {
        targets.map_values(|target: TargetView| target.uri).to_set()
    }

    /// A pass at its start. A pass over everything forgets what was reported; one over some
    /// resources keeps what it does not check.
    pub open spec fn pass(self, uris: Seq<Url>) -> PassView {
        PassView {
            targets: self.targets(uris),
            reported: if self.stale {
                Set::empty()
            } else {
                self.reported.difference(Self::checked(self.targets(uris)))
            },
            usage: Map::empty(),
        }
    }

    /// The resource that a target's file says it belongs to.
    pub open spec fn target_resource(self, target: TargetView) -> Option<ResourceId> {
        match target.file {
            Some(id) => self.index.owner_of(id),
            None => None,
        }
    }
}

impl WorkspacePass {
    /// How many files there are to lint.
    pub fn len(&self) -> (count: usize)
        ensures
            count == self@.targets.len(),
    {
        self.targets.len()
    }

    /// A file to lint.
    pub fn target(&self, i: usize) -> (target: &Target)
        requires
            i < self@.targets.len(),
        ensures
            target@ == self@.targets[i as int],
    {
        &self.targets[i]
    }

    fn note_usage(&mut self, resource: Option<ResourceId>, i: usize)
        ensures
            final(self)@ == (PassView {
                usage: with_usage(old(self)@.usage, resource, i),
                ..old(self)@
            }),
    {
        let ghost before = self@;
        if let Some(r) = resource {
            group_entry(&mut self.usage, r).push(i);
            assert(self@.usage =~= with_usage(before.usage, resource, i)) by {
                assert(Seq::<usize>::empty().push(i) =~= seq![i]);
            }
        }
    }

    /// Hands out the targets whose locale keys count for each resource, in no stated order of
    /// resources, and forgets them.
    pub fn take_usage(&mut self) -> (usage: Vec<(ResourceId, Vec<usize>)>)
        ensures
            usage@.map_values(|group: (ResourceId, Vec<usize>)| group.0).no_duplicates(),
            usage@.map_values(|group: (ResourceId, Vec<usize>)| group.0).to_set() == old(
                self,
            )@.usage.dom(),
            forall|i: int|
                0 <= i < usage@.len() ==> old(self)@.usage[(#[trigger] usage@[i]).0]
                    == usage@[i].1@,
            final(self)@ == (PassView { usage: Map::empty(), ..old(self)@ }),
    {
        let mut taken = new_groups();
        std::mem::swap(&mut taken, &mut self.usage);
        assert(self@.usage =~= Map::empty());
        into_groups(taken)
    }
}

impl<L: Language> Server<L> {
    fn in_workspace(&self, path: &Path) -> (inside: bool)
        ensures
            inside == self@.in_workspace(path_bytes(path)),
    {
        let mut i: usize = 0;
        while i < self.ws.roots.len()
            invariant
                i <= self.ws.roots.len(),
                forall|j: int|
                    0 <= j < i ==> !path_parts(#[trigger] self@.roots[j]).is_prefix_of(
                        path_parts(path_bytes(path)),
                    ),
            decreases self.ws.roots.len() - i,
        {
            assert(self@.roots[i as int] == buf_bytes(self.ws.roots@[i as int]));
            if starts_with(path, self.ws.roots[i].as_path()) {
                return true;
            }
            i = i + 1;
        }
        false
    }

    fn in_scope(&self, resource: Option<ResourceId>) -> (inside: bool)
        ensures
            inside == self@.in_scope(resource),
    {
        self.workspace_stale || has_resource(&self.stale_resources, resource)
    }

    /// The files to lint again. `uris` gives the address of each resource's manifest.
    fn targets(&self, uris: &Vec<Url>) -> (targets: Vec<Target>)
        requires
            self@.index.wf(),
            uris.len() == self@.index.resources.len(),
        ensures
            targets@.map_values(|target: Target| target@) == self@.targets(uris@),
    {
        let mut targets: Vec<Target> = Vec::new();
        let ghost view = |target: Target| target@;
        if !(self.settings.diagnostics.enable.unwrap_or(true)
            && self.settings.diagnostics.workspace.unwrap_or(true)) {
            assert(targets@.map_values(view) =~= Seq::empty());
            return targets;
        }
        let files = self.ws.index.files();
        let ghost known = self@.index.known_files(self@.index.files.len() as int);
        let mut i: usize = 0;
        assert(targets@.map_values(view) =~= picked(self@, known.take(0)));
        while i < files.len()
            invariant
                i <= files.len(),
                view == (|target: Target| target@),
                files@ == lent(known),
                targets@.map_values(view) == picked(self@, known.take(i as int)),
            decreases files.len() - i,
        {
            let ghost before = targets@;
            assert(known.take(i + 1).drop_last() =~= known.take(i as int));
            let (id, entry) = files[i];
            assert((id, *entry) == known[i as int]);
            if entry.origin == FileOrigin::Workspace && self.in_scope(entry.resource) {
                let target = Target {
                    uri: entry.uri.clone(),
                    path: entry.path.clone(),
                    file: Some(id),
                };
                targets.push(target);
                assert(targets@.map_values(view) =~= before.map_values(view).push(target@));
            }
            i = i + 1;
        }
        assert(known.take(known.len() as int) =~= known);
        proof {
            lemma_picked(self@, self@.index.files.len() as int);
        }
        let ghost listed = targets@.map_values(view);
        let count = self.ws.index.resource_count();
        let mut i: usize = 0;
        assert(listed + self@.manifest_targets(uris@, 0) =~= listed);
        while i < count
            invariant
                i <= count == self@.index.resources.len() == uris.len(),
                self@.index.wf(),
                self@.index == self.ws.index@,
                view == (|target: Target| target@),
                targets@.map_values(view) == listed + self@.manifest_targets(uris@, i as int),
            decreases count - i,
        {
            let ghost before = targets@;
            let id = i as ResourceId;
            if let Some(resource) = self.ws.index.resource(id) {
                if self.in_workspace(resource.manifest_path.as_path()) && self.in_scope(Some(id)) {
                    let target = Target {
                        uri: uris[i].clone(),
                        path: resource.manifest_path.clone(),
                        file: None,
                    };
                    targets.push(target);
                    assert(targets@.map_values(view) =~= before.map_values(view).push(target@));
                }
            }
            assert(targets@.map_values(view) =~= listed + self@.manifest_targets(uris@, i + 1));
            i = i + 1;
        }
        targets
    }

    /// Starts a pass over the files nobody has open, if one is due. `uris` gives the address of each
    /// resource's manifest.
    pub fn publish_workspace(&mut self, uris: &Vec<Url>) -> (pass: Option<WorkspacePass>)
        requires
            old(self)@.index.wf(),
            uris.len() == old(self)@.index.resources.len(),
        ensures
            pass is Some <==> old(self)@.pass_due(),
            pass matches Some(pass) ==> pass@ == old(self)@.pass(uris@),
            final(self)@ == (ServerView {
                stale: false,
                stale_resources: Set::<Option<ResourceId>>::empty(),
                ..old(self)@
            }),
    {
        let ghost before = self@;
        if !self.workspace_stale && no_resources(&self.stale_resources) {
            assert(self@ =~= (ServerView {
                stale: false,
                stale_resources: Set::<Option<ResourceId>>::empty(),
                ..before
            }));
            return None;
        }
        let targets = self.targets(uris);
        let everything = self.workspace_stale;
        self.workspace_stale = false;
        self.stale_resources = new_resources();
        let mut reported = new_urls();
        if !everything {
            let checked = self.target_uris(&targets);
            let listed = list_urls(&self.workspace_reported);
            let mut i: usize = 0;
            while i < listed.len()
                invariant
                    i <= listed.len(),
                    enumerates(listed@, before.reported),
                    url_set(reported) == urls(listed@).take(i as int).to_set().difference(
                        url_set(checked),
                    ),
                decreases listed.len() - i,
            {
                if !has_url(&checked, &listed[i]) {
                    insert_url(&mut reported, listed[i].clone());
                }
                proof {
                    lemma_take_to_set(urls(listed@), i as int);
                    assert(url_set(reported) =~= urls(listed@).take(i + 1).to_set().difference(
                        url_set(checked),
                    ));
                }
                i = i + 1;
            }
            assert(urls(listed@).take(listed@.len() as int) =~= urls(listed@));
        }
        let pass = WorkspacePass { targets, reported, usage: new_groups() };
        assert(pass@ =~= before.pass(uris@));
        Some(pass)
    }

    fn target_uris(&self, targets: &Vec<Target>) -> (checked: FxHashSet<Url>)
        ensures
            url_set(checked) == ServerView::<L>::checked(
                targets@.map_values(|target: Target| target@),
            ),
    {
        let mut checked = new_urls();
        let ghost all = targets@.map_values(|target: Target| target@).map_values(
            |target: TargetView| target.uri,
        );
        let mut i: usize = 0;
        assert(url_set(checked) =~= all.take(0).to_set());
        while i < targets.len()
            invariant
                i <= targets.len(),
                all == targets@.map_values(|target: Target| target@).map_values(
                    |target: TargetView| target.uri,
                ),
                url_set(checked) == all.take(i as int).to_set(),
            decreases targets.len() - i,
        {
            insert_url(&mut checked, targets[i].uri.clone());
            proof {
                lemma_take_to_set(all, i as int);
            }
            i = i + 1;
        }
        assert(all.take(all.len() as int) =~= all);
        checked
    }

    fn target_resource(&self, target: &Target) -> (resource: Option<ResourceId>)
        ensures
            resource == self@.target_resource(target@),
    {
        match target.file {
            Some(id) => match self.ws.index.file(id) {
                Some(entry) => entry.resource,
                None => None,
            },
            None => None,
        }
    }

    /// What to do about a target. The locale keys of an open document count for its resource.
    pub fn target_step(&self, pass: &mut WorkspacePass, i: usize) -> (step: TargetStep)
        requires
            i < old(pass)@.targets.len(),
        ensures
            step == if self@.docs.contains_key(old(pass)@.targets[i as int].uri) {
                TargetStep::Open
            } else {
                TargetStep::Read
            },
            final(pass)@ == (PassView {
                usage: if step == TargetStep::Open {
                    with_usage(
                        old(pass)@.usage,
                        self@.target_resource(old(pass)@.targets[i as int]),
                        i,
                    )
                } else {
                    old(pass)@.usage
                },
                ..old(pass)@
            }),
    {
        if get_doc(&self.docs, &pass.targets[i].uri).is_some() {
            let resource = self.target_resource(&pass.targets[i]);
            pass.note_usage(resource, i);
            TargetStep::Open
        } else {
            TargetStep::Read
        }
    }

    /// Gives a target that could be read the number to lint it under: its own, or for a manifest the
    /// one reserved for its path. Its locale keys count for its resource.
    pub fn target_read(&mut self, pass: &mut WorkspacePass, i: usize) -> (file: FileId)
        requires
            old(self)@.index.wf(),
            i < old(pass)@.targets.len(),
            old(pass)@.targets[i as int].file is None ==> old(self)@.index.has_room(
                old(pass)@.targets[i as int].path,
            ),
        ensures
            final(self)@.index.wf(),
            ({
                let target = old(pass)@.targets[i as int];
                let key = path_key(old(self)@.index.windows, target.path);
                &&& target.file matches Some(id) ==> file == id && final(self)@ == old(self)@
                &&& target.file is None ==> file == old(self)@.index.id_for(key) && final(self)@
                    == (ServerView { index: old(self)@.index.allocated(key), ..old(self)@ })
                &&& final(pass)@ == (PassView {
                    usage: with_usage(old(pass)@.usage, old(self)@.target_resource(target), i),
                    ..old(pass)@
                })
            }),
    {
        let resource = self.target_resource(&pass.targets[i]);
        let file = match pass.targets[i].file {
            Some(id) => id,
            None => self.ws.index.allocate(pass.targets[i].path.as_path()),
        };
        pass.note_usage(resource, i);
        file
    }

    /// Notes whether a target has problems to show, and says whether to publish them: also when
    /// there are none, if there were some before.
    pub fn target_linted(&self, pass: &mut WorkspacePass, i: usize, found: bool) -> (publish: bool)
        requires
            i < old(pass)@.targets.len(),
        ensures
            final(pass)@ == old(pass)@.linted(old(pass)@.targets[i as int].uri, found),
            publish == (found || self@.reported.contains(old(pass)@.targets[i as int].uri)),
    {
        let uri = pass.targets[i].uri.clone();
        let before = has_url(&self.workspace_reported, &uri);
        if found {
            insert_url(&mut pass.reported, uri);
        }
        found || before
    }

    /// Whether to look for unused locale keys of a resource. Encrypted scripts may use any key, so
    /// "unused" cannot be decided for a resource that has some.
    pub fn locale_wanted(&self, resource: ResourceId) -> (wanted: bool)
        ensures
            wanted == (self@.index.resource(resource) matches Some(entry) && !entry.escrowed),
    {
        match self.ws.index.resource(resource) {
            Some(entry) => !entry.escrowed,
            None => false,
        }
    }

    /// Notes whether a locale file has problems, and says whether to publish them: also when there
    /// are none, if there were some before.
    pub fn locale_linted(&self, pass: &mut WorkspacePass, uri: &Url, found: bool) -> (publish: bool)
        ensures
            final(pass)@ == old(pass)@.locale_linted(url_text(*uri), found),
            publish == (found || self@.reported.contains(url_text(*uri))),
    {
        let ghost before = pass@;
        remove_url(&mut pass.reported, uri);
        if found {
            insert_url(&mut pass.reported, uri.clone());
        }
        assert(pass@ =~= before.locale_linted(url_text(*uri), found));
        found || has_url(&self.workspace_reported, uri)
    }

    /// Ends a pass: hands out the closed files whose old problems are to be cleared, in no stated
    /// order.
    pub fn finish_workspace(&mut self, pass: WorkspacePass) -> (cleared: Vec<Url>)
        ensures
            enumerates(
                cleared@,
                old(self)@.reported.difference(pass@.reported).difference(old(self)@.docs.dom()),
            ),
            final(self)@ == (ServerView { reported: pass@.reported, ..old(self)@ }),
    {
        let ghost before = self@;
        let listed = list_urls(&self.workspace_reported);
        let ghost all = urls(listed@);
        let mut cleared: Vec<Url> = Vec::new();
        let mut i: usize = 0;
        assert(urls(cleared@).to_set() =~= all.take(0).to_set().difference(pass@.reported).difference(
            before.docs.dom(),
        ));
        while i < listed.len()
            invariant
                i <= listed.len(),
                self@ == before,
                all == urls(listed@),
                enumerates(listed@, before.reported),
                enumerates(
                    cleared@,
                    all.take(i as int).to_set().difference(pass@.reported).difference(
                        before.docs.dom(),
                    ),
                ),
            decreases listed.len() - i,
        {
            let ghost done = all.take(i as int);
            let ghost next = all.take(i + 1);
            let ghost now = cleared@;
            let ghost uri = all[i as int];
            proof {
                lemma_take_to_set(all, i as int);
                assert(!done.contains(uri)) by {
                    if done.contains(uri) {
                        let j = choose|j: int| 0 <= j < done.len() && done[j] == uri;
                        assert(all[j] == all[i as int]);
                    }
                }
            }
            if !has_url(&pass.reported, &listed[i]) && get_doc(&self.docs, &listed[i]).is_none() {
                cleared.push(listed[i].clone());
                proof {
                    assert(urls(cleared@) =~= urls(now).push(uri));
                    assert(!urls(now).contains(uri)) by {
                        if urls(now).contains(uri) {
                            assert(urls(now).to_set().contains(uri));
                        }
                    }
                    lemma_push_to_set(urls(now), uri);
                    lemma_push_unique(urls(now), uri);
                }
            }
            assert(urls(cleared@).to_set() =~= next.to_set().difference(pass@.reported).difference(
                before.docs.dom(),
            ));
            i = i + 1;
        }
        assert(all.take(all.len() as int) =~= all);
        self.workspace_reported = pass.reported;
        cleared
    }
}

proof fn lemma_push_unique(list: Seq<Seq<char>>, x: Seq<char>)
    requires
        list.no_duplicates(),
        !list.contains(x),
    ensures
        list.push(x).no_duplicates(),
{
    assert forall|i: int, j: int|
        0 <= i < list.push(x).len() && 0 <= j < list.push(x).len() && i != j implies list.push(x)[i]
        != list.push(x)[j] by {
        if i == list.len() {
            assert(list.contains(list[j]));
        } else if j == list.len() {
            assert(list.contains(list[i]));
        }
    }
}

/// The targets among known files.
spec fn picked<L: Language>(
    server: ServerView<L>,
    known: Seq<(FileId, FileEntry<L>)>,
) -> Seq<TargetView>
    decreases known.len(),
{
    if known.len() == 0 {
        Seq::empty()
    } else {
        let before = picked(server, known.drop_last());
        let (id, entry) = known.last();
        if entry.origin == FileOrigin::Workspace && server.in_scope(entry.resource) {
            before.push(
                TargetView {
                    uri: url_text(entry.uri),
                    path: buf_bytes(entry.path),
                    file: Some(id),
                },
            )
        } else {
            before
        }
    }
}

proof fn lemma_picked<L: Language>(server: ServerView<L>, n: int)
    requires
        0 <= n <= server.index.files.len(),
    ensures
        picked(server, server.index.known_files(n)) == server.file_targets(n),
    decreases n,
{
    if n > 0 {
        lemma_picked(server, n - 1);
        let known = server.index.known_files(n);
        if server.index.files[n - 1] is Some {
            assert(known.drop_last() =~= server.index.known_files(n - 1));
        }
    }
}

} // verus!
