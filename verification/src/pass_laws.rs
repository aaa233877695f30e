//! What a pass over the closed files covers, shows and reports.
use crate::documents::url_text;
use crate::paths::{buf_bytes, path_parts};
use crate::server::pass::{
    by_rank, of_rank, shown, with_usage, PassView, Rank, Severity, Target, TargetView,
};
use crate::server::ServerView;
use crate::server_laws::{lemma_of_rank, lemma_ranked};
use crate::symbols::{FileOrigin, Language};
use crate::tables::{FileId, ResourceId};
use lsp_types::Url;
use vstd::prelude::*;

verus! {

// What is due.

/// A pass is due exactly if everything or some resource is to be linted again.
pub proof fn law_pass_is_due_when_something_is_stale<L: Language>(server: ServerView<L>)
    ensures
        server.pass_due() <==> server.stale || exists|resource: Option<ResourceId>| #[trigger]
            server.stale_resources.contains(resource),
{
    if server.stale_resources != Set::<Option<ResourceId>>::empty() {
        if !(exists|resource: Option<ResourceId>| #[trigger]
            server.stale_resources.contains(resource)) {
            assert(server.stale_resources =~= Set::<Option<ResourceId>>::empty());
        }
    }
}

/// Whether the files of a resource are to be linted again.
pub open spec fn is_stale<L: Language>(
    server: ServerView<L>,
    resource: Option<ResourceId>,
) -> bool {
    server.stale || server.stale_resources.contains(resource)
}

/// Whether closed files are linted at all: unless either switch is off.
pub open spec fn lints<L: Language>(server: ServerView<L>) -> bool {
    let settings = server.settings.diagnostics;
    &&& !(settings.enable is Some && !settings.enable->0)
    &&& !(settings.workspace is Some && !settings.workspace->0)
}

/// Whether the file under a number is one that the user works on, and to be linted again.
pub open spec fn is_covered<L: Language>(server: ServerView<L>, id: FileId) -> bool {
    &&& id < server.index.files.len()
    &&& server.index.files[id as int] is Some
    &&& (server.index.files[id as int]->0).origin == FileOrigin::Workspace
    &&& is_stale(server, (server.index.files[id as int]->0).resource)
}

/// Whether a path lies below a folder that the user works in.
pub open spec fn is_worked_on<L: Language>(server: ServerView<L>, bytes: Seq<u8>) -> bool {
    exists|i: int|
        0 <= i < server.roots.len() && path_parts(#[trigger] server.roots[i]).is_prefix_of(
            path_parts(bytes),
        )
}

/// Whether a resource's manifest is to be linted again.
pub open spec fn is_manifest_covered<L: Language>(server: ServerView<L>, r: int) -> bool {
    &&& 0 <= r < server.index.resources.len()
    &&& is_worked_on(server, server.index.resources[r].manifest_path)
    &&& is_stale(server, Some(r as ResourceId))
}

/// Whether a target is the manifest of a resource, at its address.
pub open spec fn is_manifest_of<L: Language>(
    server: ServerView<L>,
    uris: Seq<Url>,
    target: TargetView,
    r: int,
) -> bool {
    &&& target.file is None
    &&& target.uri == url_text(uris[r])
    &&& target.path == server.index.resources[r].manifest_path
}

// What is covered.

/// What is said of a target is what it holds.
pub proof fn law_targets_are_what_they_hold(target: Target)
    ensures
        target@.uri == url_text(target.uri),
        target@.path == buf_bytes(target.path),
        target@.file == target.file,
{
}

proof fn lemma_file_targets<L: Language>(server: ServerView<L>, n: int)
    requires
        0 <= n <= server.index.files.len() <= 0x1_0000_0000,
    ensures
        ({
            let targets = server.file_targets(n);
            &&& forall|k: int|
                0 <= k < targets.len() ==> (#[trigger] targets[k]).file is Some
                    && targets[k].file->0 < n && is_covered(server, targets[k].file->0)
                    && targets[k].uri == url_text(
                    (server.index.files[targets[k].file->0 as int]->0).uri,
                ) && targets[k].path == buf_bytes(
                    (server.index.files[targets[k].file->0 as int]->0).path,
                )
            &&& forall|j: int, k: int|
                0 <= j < k < targets.len() ==> targets[j].file->0 < targets[k].file->0
            &&& forall|id: FileId|
                id < n && #[trigger] is_covered(server, id) ==> exists|k: int|
                    0 <= k < targets.len() && (#[trigger] targets[k]).file == Some(id)
        }),
    decreases n,
{
    if n > 0 {
        lemma_file_targets(server, n - 1);
        let before = server.file_targets(n - 1);
        let targets = server.file_targets(n);
        let last = (n - 1) as FileId;
        assert forall|id: FileId| id < n && #[trigger] is_covered(server, id) implies exists|k: int|
            0 <= k < targets.len() && (#[trigger] targets[k]).file == Some(id) by {
            if id < n - 1 {
                let k = choose|k: int|
                    0 <= k < before.len() && (#[trigger] before[k]).file == Some(id);
                assert(targets[k] == before[k]);
            } else {
                assert(targets[before.len() as int].file == Some(last));
            }
        }
        assert forall|j: int, k: int| 0 <= j < k < targets.len() implies targets[j].file->0
            < targets[k].file->0 by {
            assert(targets[j] == before[j]);
            assert(before[j].file->0 < n - 1);
            if k < before.len() {
                assert(targets[k] == before[k]);
            }
        }
        assert forall|k: int| 0 <= k < targets.len() implies (#[trigger] targets[k]).file is Some
            && targets[k].file->0 < n && is_covered(server, targets[k].file->0) && targets[k].uri
            == url_text((server.index.files[targets[k].file->0 as int]->0).uri) && targets[k].path
            == buf_bytes((server.index.files[targets[k].file->0 as int]->0).path) by {
            if k < before.len() {
                assert(targets[k] == before[k]);
            }
        }
    }
}

/// Whether a target is a manifest to be linted again, of one of the first `n` resources.
pub open spec fn is_some_manifest<L: Language>(
    server: ServerView<L>,
    uris: Seq<Url>,
    target: TargetView,
    n: int,
) -> bool {
    exists|r: int| #[trigger]
        is_manifest_covered(server, r) && r < n && is_manifest_of(server, uris, target, r)
}

/// Whether two targets are such manifests, the first of an earlier resource than the second.
pub open spec fn are_manifests_in_order<L: Language>(
    server: ServerView<L>,
    uris: Seq<Url>,
    a: TargetView,
    b: TargetView,
    n: int,
) -> bool {
    exists|r: int, s: int|
        #![trigger is_manifest_covered(server, r), is_manifest_covered(server, s)]
        r < s < n && is_manifest_covered(server, r) && is_manifest_covered(server, s)
            && is_manifest_of(server, uris, a, r) && is_manifest_of(server, uris, b, s)
}

proof fn lemma_manifest_targets<L: Language>(server: ServerView<L>, uris: Seq<Url>, n: int)
    requires
        0 <= n <= server.index.resources.len() <= 0x1_0000_0000,
    ensures
        ({
            let targets = server.manifest_targets(uris, n);
            &&& forall|k: int|
                0 <= k < targets.len() ==> is_some_manifest(server, uris, #[trigger] targets[k], n)
            &&& forall|j: int, k: int|
                0 <= j < k < targets.len() ==> are_manifests_in_order(
                    server,
                    uris,
                    #[trigger] targets[j],
                    #[trigger] targets[k],
                    n,
                )
            &&& forall|r: int|
                0 <= r < n && #[trigger] is_manifest_covered(server, r) ==> exists|k: int|
                    0 <= k < targets.len() && is_manifest_of(server, uris, #[trigger] targets[k], r)
        }),
    decreases n,
{
    if n > 0 {
        lemma_manifest_targets(server, uris, n - 1);
        let before = server.manifest_targets(uris, n - 1);
        let targets = server.manifest_targets(uris, n);
        let path = server.index.resources[n - 1].manifest_path;
        assert(server.in_workspace(path) == is_worked_on(server, path));
        assert(is_manifest_covered(server, n - 1) == (targets.len() > before.len()));
        assert forall|k: int| 0 <= k < targets.len() implies is_some_manifest(
            server,
            uris,
            #[trigger] targets[k],
            n,
        ) by {
            if k < before.len() {
                assert(targets[k] == before[k]);
                assert(is_some_manifest(server, uris, before[k], n - 1));
            } else {
                assert(is_manifest_covered(server, n - 1));
            }
        }
        assert forall|j: int, k: int| 0 <= j < k < targets.len() implies are_manifests_in_order(
            server,
            uris,
            #[trigger] targets[j],
            #[trigger] targets[k],
            n,
        ) by {
            assert(targets[j] == before[j]);
            if k < before.len() {
                assert(targets[k] == before[k]);
                assert(are_manifests_in_order(server, uris, before[j], before[k], n - 1));
            } else {
                assert(is_some_manifest(server, uris, before[j], n - 1));
                let r = choose|r: int| #[trigger]
                    is_manifest_covered(server, r) && r < n - 1 && is_manifest_of(
                        server,
                        uris,
                        before[j],
                        r,
                    );
                assert(is_manifest_covered(server, r) && is_manifest_covered(server, n - 1));
            }
        }
        assert forall|r: int| 0 <= r < n && #[trigger] is_manifest_covered(
            server,
            r,
        ) implies exists|k: int|
            0 <= k < targets.len() && is_manifest_of(server, uris, #[trigger] targets[k], r) by {
            if r < n - 1 {
                let k = choose|k: int|
                    0 <= k < before.len() && is_manifest_of(server, uris, #[trigger] before[k], r);
                assert(targets[k] == before[k]);
            } else {
                assert(is_manifest_of(server, uris, targets[before.len() as int], r));
            }
        }
    }
}

/// A pass covers exactly the known files that the user works on and that are to be linted again, each
/// at its address and path, in the order of their numbers.
pub proof fn law_pass_covers_the_stale_files<L: Language>(
    server: ServerView<L>,
    uris: Seq<Url>,
    id: FileId,
    j: int,
    k: int,
)
    requires
        server.index.wf(),
        lints(server),
    ensures
        ({
            let targets = server.pass(uris).targets;
            &&& is_covered(server, id) <==> exists|m: int|
                0 <= m < targets.len() && (#[trigger] targets[m]).file == Some(id)
            &&& 0 <= k < targets.len() && targets[k].file == Some(id) ==> targets[k].uri
                == url_text((server.index.files[id as int]->0).uri) && targets[k].path == buf_bytes(
                (server.index.files[id as int]->0).path,
            )
            &&& 0 <= j < k < targets.len() && targets[j].file is Some && targets[k].file is Some
                ==> targets[j].file->0 < targets[k].file->0
            &&& 0 <= j < k < targets.len() && targets[k].file is Some ==> targets[j].file is Some
        }),
{
    let n = server.index.files.len() as int;
    let m = server.index.resources.len() as int;
    let files = server.file_targets(n);
    let manifests = server.manifest_targets(uris, m);
    let targets = server.pass(uris).targets;
    lemma_file_targets(server, n);
    lemma_manifest_targets(server, uris, m);
    assert(targets == files + manifests);
    assert forall|i: int| 0 <= i < manifests.len() implies (#[trigger] manifests[i]).file is None by {
        assert(is_some_manifest(server, uris, manifests[i], m));
    }
    assert forall|i: int| 0 <= i < targets.len() implies #[trigger] targets[i] == if i
        < files.len() {
        files[i]
    } else {
        manifests[i - files.len()]
    } by {}
    if is_covered(server, id) {
        let i = choose|i: int| 0 <= i < files.len() && (#[trigger] files[i]).file == Some(id);
        assert(targets[i].file == Some(id));
    }
    if exists|i: int| 0 <= i < targets.len() && (#[trigger] targets[i]).file == Some(id) {
        let i = choose|i: int| 0 <= i < targets.len() && (#[trigger] targets[i]).file == Some(id);
        if i < files.len() {
            assert(files[i].file == Some(id));
        } else {
            assert(manifests[i - files.len()].file is None);
        }
    }
    if 0 <= j < targets.len() {
        if j < files.len() {
            assert(files[j].file is Some);
        } else {
            assert(manifests[j - files.len()].file is None);
        }
    }
    if 0 <= k < targets.len() {
        if k < files.len() {
            assert(files[k].file is Some);
        } else {
            assert(manifests[k - files.len()].file is None);
        }
    }
}

/// A pass covers exactly the manifests, in folders that the user works in, of the resources that are
/// to be linted again, in the order of the resources.
pub proof fn law_pass_covers_the_stale_manifests<L: Language>(
    server: ServerView<L>,
    uris: Seq<Url>,
    r: int,
    j: int,
    k: int,
)
    requires
        server.index.wf(),
        lints(server),
    ensures
        ({
            let targets = server.pass(uris).targets;
            &&& is_manifest_covered(server, r) ==> exists|m: int|
                0 <= m < targets.len() && is_manifest_of(server, uris, #[trigger] targets[m], r)
            &&& 0 <= k < targets.len() && targets[k].file is None ==> is_some_manifest(
                server,
                uris,
                targets[k],
                server.index.resources.len() as int,
            )
            &&& 0 <= j < k < targets.len() && targets[j].file is None && targets[k].file is None
                ==> are_manifests_in_order(
                server,
                uris,
                targets[j],
                targets[k],
                server.index.resources.len() as int,
            )
        }),
{
    let n = server.index.files.len() as int;
    let m = server.index.resources.len() as int;
    let files = server.file_targets(n);
    let manifests = server.manifest_targets(uris, m);
    let targets = server.pass(uris).targets;
    lemma_file_targets(server, n);
    lemma_manifest_targets(server, uris, m);
    assert(targets == files + manifests);
    if is_manifest_covered(server, r) {
        let i = choose|i: int|
            0 <= i < manifests.len() && is_manifest_of(server, uris, #[trigger] manifests[i], r);
        assert(targets[files.len() + i] == manifests[i]);
    }
    if 0 <= k < targets.len() && targets[k].file is None {
        if k < files.len() {
            assert(targets[k] == files[k]);
        }
        assert(targets[k] == manifests[k - files.len()]);
        if 0 <= j < k && targets[j].file is None {
            if j < files.len() {
                assert(targets[j] == files[j]);
            }
            assert(targets[j] == manifests[j - files.len()]);
        }
    }
}

/// Where linting closed files is off, a pass covers nothing.
pub proof fn law_pass_covers_nothing_when_off<L: Language>(server: ServerView<L>, uris: Seq<Url>)
    requires
        !lints(server),
    ensures
        server.pass(uris).targets.len() == 0,
{
}

/// A pass over everything starts with nothing reported; one over some resources with what was
/// reported and is not covered. No locale keys count yet.
pub proof fn law_pass_starts_with_the_rest<L: Language>(
    server: ServerView<L>,
    uris: Seq<Url>,
    uri: Seq<char>,
    r: ResourceId,
)
    ensures
        ({
            let pass = server.pass(uris);
            let covered = exists|k: int|
                0 <= k < pass.targets.len() && (#[trigger] pass.targets[k]).uri == uri;
            &&& pass.reported.contains(uri) <==> !server.stale && server.reported.contains(uri)
                && !covered
            &&& !pass.usage.contains_key(r)
        }),
{
    let targets = server.pass(uris).targets;
    let all = targets.map_values(|target: TargetView| target.uri);
    if all.to_set().contains(uri) {
        let k = choose|k: int| 0 <= k < all.len() && all[k] == uri;
        assert(targets[k].uri == uri);
    }
    if exists|k: int| 0 <= k < targets.len() && (#[trigger] targets[k]).uri == uri {
        let k = choose|k: int| 0 <= k < targets.len() && (#[trigger] targets[k]).uri == uri;
        assert(all[k] == uri);
        assert(all.to_set().contains(uri));
    }
}

/// Linting a file reports it if it has problems and otherwise changes nothing; linting a locale file
/// reports it exactly if it has problems. Neither changes what is said of any other file.
pub proof fn law_linting_reports_one_file(
    pass: PassView,
    uri: Seq<char>,
    found: bool,
    other: Seq<char>,
)
    ensures
        pass.linted(uri, found).reported.contains(other) <==> pass.reported.contains(other) || (found
            && other == uri),
        pass.locale_linted(uri, found).reported.contains(other) <==> if other == uri {
            found
        } else {
            pass.reported.contains(other)
        },
        pass.linted(uri, found) == (PassView {
            reported: pass.linted(uri, found).reported,
            ..pass
        }),
        pass.locale_linted(uri, found) == (PassView {
            reported: pass.locale_linted(uri, found).reported,
            ..pass
        }),
{
}

/// A target's locale keys count for the resource of its file, next to those that count already, and
/// for no other resource; a manifest's count for none.
pub proof fn law_locale_keys_count_for_the_resource<L: Language>(
    server: ServerView<L>,
    target: TargetView,
    usage: Map<ResourceId, Seq<usize>>,
    i: usize,
    other: ResourceId,
)
    ensures
        ({
            let resource = server.target_resource(target);
            let after = with_usage(usage, resource, i);
            &&& target.file is None ==> resource is None
            &&& target.file is Some ==> resource == server.index.owner_of(target.file->0)
            &&& resource is None ==> after == usage
            &&& resource is Some ==> {
                let r = resource->0;
                &&& after.contains_key(r)
                &&& after[r] == if usage.contains_key(r) {
                    usage[r].push(i)
                } else {
                    Seq::<usize>::empty().push(i)
                }
                &&& other != r ==> after.contains_key(other) == usage.contains_key(other)
                    && after[other] == usage[other]
            }
        }),
{
    assert(Seq::<usize>::empty().push(i) =~= seq![i]);
}

// What is shown.

/// Whether a problem is shown before another for its gravity: errors before all others, and stated
/// gravity before unstated.
pub open spec fn is_graver(a: Option<Severity>, b: Option<Severity>) -> bool {
    ||| a == Some(Severity::Error) && b != Some(Severity::Error)
    ||| a is Some && b is None
}

/// Whether a problem at one position is shown before that at another: it is graver, or as grave and
/// comes first.
pub open spec fn is_before(severities: Seq<Option<Severity>>, i: usize, j: usize) -> bool {
    ||| is_graver(severities[i as int], severities[j as int])
    ||| !is_graver(severities[j as int], severities[i as int]) && i < j
}

proof fn lemma_by_rank_order(severities: Seq<Option<Severity>>, j: int, k: int)
    requires
        severities.len() <= usize::MAX,
        0 <= j < k < by_rank(severities).len(),
    ensures
        is_before(severities, by_rank(severities)[j], by_rank(severities)[k]),
{
    let all = by_rank(severities);
    let first = of_rank(severities, Rank::First);
    let second = of_rank(severities, Rank::Second);
    let last = of_rank(severities, Rank::Last);
    lemma_ranked(severities, j);
    lemma_ranked(severities, k);
    lemma_of_rank(severities, Rank::First, 0);
    lemma_of_rank(severities, Rank::Second, 0);
    lemma_of_rank(severities, Rank::Last, 0);
    if k < first.len() {
        assert(all[j] == first[j] && all[k] == first[k]);
    } else if first.len() <= j && k < first.len() + second.len() {
        assert(all[j] == second[j - first.len()] && all[k] == second[k - first.len()]);
    } else if first.len() + second.len() <= j {
        assert(all[j] == last[j - first.len() - second.len()]);
        assert(all[k] == last[k - first.len() - second.len()]);
    }
}

/// The overview shows a hundred problems at most, no hint, and each before all that are less grave or
/// as grave and come later.
pub proof fn law_overview_goes_by_gravity(severities: Seq<Option<Severity>>, j: int, k: int)
    requires
        severities.len() <= usize::MAX,
    ensures
        shown(severities).len() <= 100,
        0 <= k < shown(severities).len() ==> shown(severities)[k] < severities.len()
            && severities[shown(severities)[k] as int] != Some(Severity::Hint),
        0 <= j < k < shown(severities).len() ==> is_before(
            severities,
            shown(severities)[j],
            shown(severities)[k],
        ),
{
    let all = by_rank(severities);
    if 0 <= k < shown(severities).len() {
        assert(shown(severities)[k] == all[k]);
        lemma_ranked(severities, k);
        if 0 <= j < k {
            assert(shown(severities)[j] == all[j]);
            lemma_by_rank_order(severities, j, k);
        }
    }
}

/// A problem that is no hint is left out of the overview only for a hundred others that are shown
/// before it.
pub proof fn law_overview_leaves_out_the_least(severities: Seq<Option<Severity>>, i: usize, k: int)
    requires
        severities.len() <= usize::MAX,
        i < severities.len(),
        severities[i as int] != Some(Severity::Hint),
        !shown(severities).contains(i),
    ensures
        shown(severities).len() == 100,
        0 <= k < 100 ==> is_before(severities, shown(severities)[k], i),
{
    let all = by_rank(severities);
    let first = of_rank(severities, Rank::First);
    let second = of_rank(severities, Rank::Second);
    let last = of_rank(severities, Rank::Last);
    lemma_of_rank(severities, Rank::First, i);
    lemma_of_rank(severities, Rank::Second, i);
    lemma_of_rank(severities, Rank::Last, i);
    let at = if first.contains(i) {
        let m = choose|m: int| 0 <= m < first.len() && first[m] == i;
        m
    } else if second.contains(i) {
        let m = choose|m: int| 0 <= m < second.len() && second[m] == i;
        first.len() + m
    } else {
        let m = choose|m: int| 0 <= m < last.len() && last[m] == i;
        first.len() + second.len() + m
    };
    assert(all[at] == i);
    if at < shown(severities).len() {
        assert(shown(severities)[at] == i);
    }
    if 0 <= k < 100 {
        assert(shown(severities)[k] == all[k]);
        lemma_by_rank_order(severities, k, at);
    }
}

} // verus!
