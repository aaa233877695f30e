//! What holds of the server whatever it went through.
use crate::documents::url_text;
use crate::paths::buf_bytes;
use crate::server::pass::{
    by_rank, of_rank, rank, shown, Linted, Rank, Severity, TargetView,
    MAX_PROBLEMS_PER_CLOSED_FILE,
};
use crate::server::requests::{NotificationKind, RequestKind};
use crate::server::{resource_at, Notification, ServerView};
use crate::symbols::Language;
use crate::tables::ResourceId;
use lsp_types::Url;
use vstd::prelude::*;

verus! {

/// No two kinds of request come under one method.
pub proof fn law_request_methods_are_distinct(a: RequestKind, b: RequestKind)
    requires
        a.method() == b.method(),
    ensures
        a == b,
{
    lemma_request_by_method(a);
    lemma_request_by_method(b);
}

/// The kind of request that a method's length and a few of its characters tell.
spec fn request_by_method(method: Seq<char>) -> RequestKind {
    if method.len() == 10 {
        RequestKind::Status
    } else if method.len() == 11 {
        RequestKind::Reindex
    } else if method.len() == 12 {
        if method[4] == 'f' {
            RequestKind::FileInfo
        } else {
            RequestKind::Snippets
        }
    } else if method.len() == 16 {
        RequestKind::WorkspaceSymbol
    } else if method.len() == 18 {
        RequestKind::Hover
    } else if method.len() == 19 {
        RequestKind::Rename
    } else if method.len() == 22 {
        if method[0] == 'c' {
            RequestKind::ResolveCompletionItem
        } else {
            RequestKind::InlayHint
        }
    } else if method.len() == 23 {
        if method[15] == 'm' {
            RequestKind::Completion
        } else {
            if method[13] == 'd' {
                RequestKind::GotoDefinition
            } else {
                if method[13] == 'r' {
                    RequestKind::References
                } else {
                    if method[13] == 'c' {
                        RequestKind::CodeAction
                    } else {
                        RequestKind::Formatting
                    }
                }
            }
        }
    } else if method.len() == 25 {
        RequestKind::FoldingRange
    } else if method.len() == 26 {
        if method[13] == 's' {
            RequestKind::SignatureHelp
        } else {
            RequestKind::PrepareRename
        }
    } else if method.len() == 27 {
        RequestKind::DocumentSymbol
    } else if method.len() == 30 {
        RequestKind::DocumentHighlight
    } else {
        RequestKind::SemanticTokensFull
    }
}

proof fn lemma_request_by_method(kind: RequestKind)
    ensures
        request_by_method(kind.method()) == kind,
{
    match kind {
        RequestKind::Completion => {
            reveal_strlit("textDocument/completion");
        },
        RequestKind::ResolveCompletionItem => {
            reveal_strlit("completionItem/resolve");
        },
        RequestKind::Hover => {
            reveal_strlit("textDocument/hover");
        },
        RequestKind::SignatureHelp => {
            reveal_strlit("textDocument/signatureHelp");
        },
        RequestKind::GotoDefinition => {
            reveal_strlit("textDocument/definition");
        },
        RequestKind::References => {
            reveal_strlit("textDocument/references");
        },
        RequestKind::DocumentHighlight => {
            reveal_strlit("textDocument/documentHighlight");
        },
        RequestKind::PrepareRename => {
            reveal_strlit("textDocument/prepareRename");
        },
        RequestKind::Rename => {
            reveal_strlit("textDocument/rename");
        },
        RequestKind::DocumentSymbol => {
            reveal_strlit("textDocument/documentSymbol");
        },
        RequestKind::WorkspaceSymbol => {
            reveal_strlit("workspace/symbol");
        },
        RequestKind::CodeAction => {
            reveal_strlit("textDocument/codeAction");
        },
        RequestKind::FoldingRange => {
            reveal_strlit("textDocument/foldingRange");
        },
        RequestKind::InlayHint => {
            reveal_strlit("textDocument/inlayHint");
        },
        RequestKind::SemanticTokensFull => {
            reveal_strlit("textDocument/semanticTokens/full");
        },
        RequestKind::Formatting => {
            reveal_strlit("textDocument/formatting");
        },
        RequestKind::Status => {
            reveal_strlit("qbx/status");
        },
        RequestKind::Reindex => {
            reveal_strlit("qbx/reindex");
        },
        RequestKind::FileInfo => {
            reveal_strlit("qbx/fileInfo");
        },
        RequestKind::Snippets => {
            reveal_strlit("qbx/snippets");
        },
    }
}

/// No two kinds of notification come under one method.
pub proof fn law_notification_methods_are_distinct(a: NotificationKind, b: NotificationKind)
    requires
        a.method() == b.method(),
    ensures
        a == b,
{
    lemma_notification_by_method(a);
    lemma_notification_by_method(b);
}

/// The kind of notification that a method's length and a character of it tell.
spec fn notification_by_method(method: Seq<char>) -> NotificationKind {
    if method.len() == 20 {
        if method[16] == 'O' {
            NotificationKind::DidOpen
        } else {
            NotificationKind::DidSave
        }
    } else if method.len() == 21 {
        NotificationKind::DidClose
    } else if method.len() == 22 {
        NotificationKind::DidChange
    } else if method.len() == 31 {
        NotificationKind::DidChangeWatchedFiles
    } else {
        NotificationKind::DidChangeConfiguration
    }
}

proof fn lemma_notification_by_method(kind: NotificationKind)
    ensures
        notification_by_method(kind.method()) == kind,
{
    match kind {
        NotificationKind::DidOpen => {
            reveal_strlit("textDocument/didOpen");
        },
        NotificationKind::DidChange => {
            reveal_strlit("textDocument/didChange");
        },
        NotificationKind::DidSave => {
            reveal_strlit("textDocument/didSave");
        },
        NotificationKind::DidClose => {
            reveal_strlit("textDocument/didClose");
        },
        NotificationKind::DidChangeWatchedFiles => {
            reveal_strlit("workspace/didChangeWatchedFiles");
        },
        NotificationKind::DidChangeConfiguration => {
            reveal_strlit("workspace/didChangeConfiguration");
        },
    }
}

/// An edit to an open document marks it for indexing, and an edit to a closed one changes nothing.
pub proof fn law_edits_mark_open_documents<L: Language>(
    server: ServerView<L>,
    uri: Url,
    version: i32,
    source: bool,
)
    ensures
        server.docs.contains_key(url_text(uri)) ==> server.notified(
            Notification::DidChange { uri, version, source },
        ).dirty.contains(url_text(uri)),
        !server.docs.contains_key(url_text(uri)) ==> server.notified(
            Notification::DidChange { uri, version, source },
        ) == server,
{
}

/// Edits are handed out for indexing once, and published once even if a request had them indexed
/// in between.
pub proof fn law_edits_are_published_once<L: Language>(server: ServerView<L>, uri: Seq<char>)
    requires
        server.dirty.contains(uri),
    ensures
        server.flushed().dirty == Set::<Seq<char>>::empty(),
        server.flushed().pending,
        server.flushed().flushed() == server.flushed(),
        !server.flushed().published().flushed().pending,
{
}

/// Nothing is published for edits that nobody made.
pub proof fn law_nothing_to_publish<L: Language>(server: ServerView<L>)
    requires
        server.dirty == Set::<Seq<char>>::empty(),
        !server.pending,
    ensures
        !server.flushed().pending,
{
}

/// After a failure the server goes on without the work it had in hand, and keeps the documents and
/// the index.
pub proof fn law_failures_cost_only_pending_work<L: Language>(server: ServerView<L>)
    ensures
        !server.recovered().flushed().pending,
        server.recovered().docs == server.docs,
        server.recovered().index == server.index,
        server.recovered().settings == server.settings,
{
}

/// A document that was indexed or reserved goes by the number that its path has in the index.
pub proof fn law_flushed_documents_have_their_number<L: Language>(
    server: ServerView<L>,
    uri: Seq<char>,
)
    requires
        server.docs.contains_key(uri),
    ensures
        server.numbered(uri).docs[uri].file == server.numbered(uri).index.file_id(
            buf_bytes(server.docs[uri].path),
        ),
        server.numbered(uri).docs[uri].file is Some,
{
}

/// Closing undoes opening: the document is neither open nor marked, and its problems are among
/// those that a pass will clear.
pub proof fn law_closing_undoes_opening<L: Language>(
    server: ServerView<L>,
    opened: Notification,
    closed: Notification,
)
    requires
        opened is DidOpen,
        closed is DidClose,
        url_text(opened->DidOpen_uri) == url_text(closed->DidClose_uri),
        !server.docs.contains_key(url_text(opened->DidOpen_uri)),
        !server.dirty.contains(url_text(opened->DidOpen_uri)),
    ensures
        server.notified(opened).notified(closed).docs == server.docs,
        server.notified(opened).notified(closed).dirty == server.dirty,
        server.notified(opened).notified(closed).reported.contains(url_text(opened->DidOpen_uri)),
{
    let after = server.notified(opened).notified(closed);
    assert(after.docs =~= server.docs);
    assert(after.dirty =~= server.dirty);
}

/// Saving or closing a file has the closed files of its resource linted again.
pub proof fn law_saving_and_closing_mark_the_resource<L: Language>(
    server: ServerView<L>,
    saved: Notification,
    closed: Notification,
)
    requires
        saved is DidSave,
        saved->DidSave_path is Some,
        closed is DidClose,
        closed->DidClose_path is Some,
    ensures
        server.notified(saved).pass_due(),
        server.notified(saved).in_scope(
            resource_at(server.index, buf_bytes(saved->DidSave_path->0)),
        ),
        server.notified(closed).pass_due(),
        server.notified(closed).in_scope(
            resource_at(server.index, buf_bytes(closed->DidClose_path->0)),
        ),
{
    let resource = resource_at(server.index, buf_bytes(saved->DidSave_path->0));
    assert(server.notified(saved).stale_resources.contains(resource));
    let resource = resource_at(server.index, buf_bytes(closed->DidClose_path->0));
    assert(server.notified(closed).stale_resources.contains(resource));
}

/// New settings take effect everywhere: all closed files are linted again, and every open document
/// is indexed and so published again.
pub proof fn law_settings_reach_every_file<L: Language>(
    server: ServerView<L>,
    notification: Notification,
    uri: Seq<char>,
    resource: Option<ResourceId>,
)
    requires
        notification is DidChangeConfiguration,
    ensures
        server.notified(notification).in_scope(resource),
        server.docs.contains_key(uri) ==> server.notified(notification).dirty.contains(uri),
{
}

/// A notification leaves the documents that it does not name as they are.
pub proof fn law_other_documents_stay<L: Language>(
    server: ServerView<L>,
    notification: Notification,
    other: Seq<char>,
)
    requires
        notification matches Notification::DidOpen { uri, .. } ==> url_text(uri) != other,
        notification matches Notification::DidChange { uri, .. } ==> url_text(uri) != other,
        notification matches Notification::DidClose { uri, .. } ==> url_text(uri) != other,
    ensures
        server.notified(notification).docs.contains_key(other) == server.docs.contains_key(other),
        server.docs.contains_key(other) ==> server.notified(notification).docs[other]
            == server.docs[other],
{
}

/// A position is of a rank exactly when the problem there is.
pub proof fn lemma_of_rank(severities: Seq<Option<Severity>>, wanted: Rank, i: usize)
    requires
        severities.len() <= usize::MAX,
    ensures
        of_rank(severities, wanted).contains(i) <==> i < severities.len() && rank(
            severities[i as int],
        ) == wanted,
        forall|j: int, k: int|
            0 <= j < k < of_rank(severities, wanted).len() ==> of_rank(severities, wanted)[j]
                < of_rank(severities, wanted)[k],
        forall|j: int|
            0 <= j < of_rank(severities, wanted).len() ==> (#[trigger] of_rank(
                severities,
                wanted,
            )[j]) < severities.len(),
    decreases severities.len(),
{
    if severities.len() > 0 {
        let front = severities.drop_last();
        lemma_of_rank(front, wanted, i);
        let before = of_rank(front, wanted);
        let all = of_rank(severities, wanted);
        if rank(severities.last()) == wanted {
            let last = (severities.len() - 1) as usize;
            assert(all == before.push(last));
            if before.contains(i) {
                let k = choose|k: int| 0 <= k < before.len() && before[k] == i;
                assert(all[k] == i);
            }
            assert(all[before.len() as int] == last);
            if all.contains(i) {
                let k = choose|k: int| 0 <= k < all.len() && all[k] == i;
                if k < before.len() {
                    assert(before[k] == i);
                }
            }
        }
    }
}

/// The overview shows no hint and no more than its limit.
pub proof fn law_overview_is_short(severities: Seq<Option<Severity>>, k: int)
    requires
        severities.len() <= usize::MAX,
        0 <= k < shown(severities).len(),
    ensures
        shown(severities).len() <= MAX_PROBLEMS_PER_CLOSED_FILE,
        shown(severities)[k] < severities.len(),
        severities[shown(severities)[k] as int] != Some(Severity::Hint),
{
    let i = shown(severities)[k];
    assert(by_rank(severities)[k] == i);
    lemma_ranked(severities, k);
}

pub proof fn lemma_ranked(severities: Seq<Option<Severity>>, k: int)
    requires
        severities.len() <= usize::MAX,
        0 <= k < by_rank(severities).len(),
    ensures
        ({
            let a = of_rank(severities, Rank::First).len();
            let b = of_rank(severities, Rank::Second).len();
            let i = by_rank(severities)[k];
            &&& i < severities.len()
            &&& rank(severities[i as int]) == if k < a {
                Rank::First
            } else if k < a + b {
                Rank::Second
            } else {
                Rank::Last
            }
        }),
{
    let first = of_rank(severities, Rank::First);
    let second = of_rank(severities, Rank::Second);
    let last = of_rank(severities, Rank::Last);
    let i = by_rank(severities)[k];
    if k < first.len() {
        assert(first[k] == i);
        assert(first.contains(i));
        lemma_of_rank(severities, Rank::First, i);
    } else if k < first.len() + second.len() {
        assert(second[k - first.len()] == i);
        assert(second.contains(i));
        lemma_of_rank(severities, Rank::Second, i);
    } else {
        assert(last[k - first.len() - second.len()] == i);
        assert(last.contains(i));
        lemma_of_rank(severities, Rank::Last, i);
    }
}

/// In the overview errors come before everything else, and problems of one rank keep their order.
pub proof fn law_overview_is_ordered(severities: Seq<Option<Severity>>, j: int, k: int)
    requires
        severities.len() <= usize::MAX,
        0 <= j < k < shown(severities).len(),
    ensures
        severities[shown(severities)[k] as int] == Some(Severity::Error)
            ==> severities[shown(severities)[j] as int] == Some(Severity::Error),
        rank(severities[shown(severities)[j] as int]) == rank(
            severities[shown(severities)[k] as int],
        ) ==> shown(severities)[j] < shown(severities)[k],
{
    let all = by_rank(severities);
    assert(all[j] == shown(severities)[j]);
    assert(all[k] == shown(severities)[k]);
    lemma_ranked(severities, j);
    lemma_ranked(severities, k);
    let first = of_rank(severities, Rank::First);
    let second = of_rank(severities, Rank::Second);
    let last = of_rank(severities, Rank::Last);
    lemma_of_rank(severities, Rank::First, 0);
    lemma_of_rank(severities, Rank::Second, 0);
    lemma_of_rank(severities, Rank::Last, 0);
    if k < first.len() {
        assert(all[j] == first[j] && all[k] == first[k]);
    } else if first.len() <= j && k < first.len() + second.len() {
        assert(all[j] == second[j - first.len()] && all[k] == second[k - first.len()]);
    } else if first.len() + second.len() <= j {
        assert(all[j] == last[j - first.len() - second.len()]);
        assert(all[k] == last[k - first.len() - second.len()]);
    }
}

/// The overview leaves a problem out only if it is a hint or the limit is reached.
pub proof fn law_overview_is_full(severities: Seq<Option<Severity>>, i: usize)
    requires
        severities.len() <= usize::MAX,
        i < severities.len(),
        severities[i as int] != Some(Severity::Hint),
    ensures
        shown(severities).contains(i) || shown(severities).len() == MAX_PROBLEMS_PER_CLOSED_FILE,
{
    let all = by_rank(severities);
    let first = of_rank(severities, Rank::First);
    let second = of_rank(severities, Rank::Second);
    let last = of_rank(severities, Rank::Last);
    lemma_of_rank(severities, Rank::First, i);
    lemma_of_rank(severities, Rank::Second, i);
    lemma_of_rank(severities, Rank::Last, i);
    assert(all.contains(i)) by {
        if first.contains(i) {
            let k = choose|k: int| 0 <= k < first.len() && first[k] == i;
            assert(all[k] == i);
        } else if second.contains(i) {
            let k = choose|k: int| 0 <= k < second.len() && second[k] == i;
            assert(all[first.len() + k] == i);
        } else {
            let k = choose|k: int| 0 <= k < last.len() && last[k] == i;
            assert(all[first.len() + second.len() + k] == i);
        }
    }
}

/// Where linting closed files is switched off, a pass lints nothing, and a pass over everything
/// clears all that was reported for closed files.
pub proof fn law_switching_off_clears<L: Language>(
    server: ServerView<L>,
    uris: Seq<Url>,
    uri: Seq<char>,
)
    requires
        !server.settings.diagnostics.lints_closed(),
        server.stale,
        server.reported.contains(uri),
        !server.docs.contains_key(uri),
    ensures
        server.pass(uris).targets.len() == 0,
        server.reported.difference(server.pass(uris).reported).difference(
            server.docs.dom(),
        ).contains(uri),
{
}

/// A pass over some resources leaves alone what it does not check: what was reported there stays
/// reported and is not cleared.
pub proof fn law_partial_pass_keeps_the_rest<L: Language>(
    server: ServerView<L>,
    uris: Seq<Url>,
    uri: Seq<char>,
)
    requires
        !server.stale,
        server.reported.contains(uri),
        forall|i: int|
            0 <= i < server.targets(uris).len() ==> (#[trigger] server.targets(uris)[i]).uri != uri,
    ensures
        server.pass(uris).reported.contains(uri),
        !server.reported.difference(server.pass(uris).reported).difference(
            server.docs.dom(),
        ).contains(uri),
{
    let all = server.targets(uris).map_values(|target: TargetView| target.uri);
    assert forall|i: int| 0 <= i < all.len() implies all[i] != uri by {
        assert(all[i] == server.targets(uris)[i].uri);
    }
}

/// A file that a pass checks and finds clean has its old problems cleared: it is not reported any
/// more.
pub proof fn law_clean_files_are_not_reported<L: Language>(
    server: ServerView<L>,
    uris: Seq<Url>,
    i: int,
)
    requires
        0 <= i < server.targets(uris).len(),
    ensures
        !server.pass(uris).linted(server.targets(uris)[i].uri, false).reported.contains(
            server.targets(uris)[i].uri,
        ),
{
    let all = server.targets(uris).map_values(|target: TargetView| target.uri);
    assert(all[i] == server.targets(uris)[i].uri);
    assert(all.contains(server.targets(uris)[i].uri));
}

/// Whether linting these files leaves one reported: problems were found in it, and no later look at
/// it as a locale file found it clean.
pub open spec fn left_reported(linted: Seq<Linted>, uri: Seq<char>) -> bool {
    exists|i: int|
        0 <= i < linted.len() && (#[trigger] linted[i]).uri == uri && linted[i].found && forall|
            j: int,
        |
            i < j < linted.len() && (#[trigger] linted[j]).uri == uri && linted[j].locale
                ==> linted[j].found
}

/// A pass over everything ends with exactly those files reported that it found problems in; a pass
/// over some resources keeps what was reported elsewhere too.
pub proof fn law_pass_reports_what_it_found<L: Language>(
    server: ServerView<L>,
    uris: Seq<Url>,
    linted: Seq<Linted>,
    uri: Seq<char>,
)
    ensures
        server.stale ==> (server.pass(uris).after(linted).reported.contains(uri) <==> left_reported(
            linted,
            uri,
        )),
        left_reported(linted, uri) ==> server.pass(uris).after(linted).reported.contains(uri),
        (forall|i: int| 0 <= i < linted.len() ==> (#[trigger] linted[i]).uri != uri) ==> (
        server.pass(uris).after(linted).reported.contains(uri) <==> server.pass(
            uris,
        ).reported.contains(uri)),
    decreases linted.len(),
{
    if linted.len() > 0 {
        let front = linted.drop_last();
        let last = linted.last();
        law_pass_reports_what_it_found(server, uris, front, uri);
        if left_reported(linted, uri) {
            let i = choose|i: int|
                0 <= i < linted.len() && (#[trigger] linted[i]).uri == uri && linted[i].found
                    && forall|j: int|
                    i < j < linted.len() && (#[trigger] linted[j]).uri == uri && linted[j].locale
                        ==> linted[j].found;
            if i < front.len() {
                assert(front[i] == linted[i]);
                assert forall|j: int|
                    i < j < front.len() && (#[trigger] front[j]).uri == uri
                        && front[j].locale implies front[j].found by {
                    assert(front[j] == linted[j]);
                }
                assert(left_reported(front, uri));
                assert(linted[linted.len() - 1] == last);
            }
        }
        if last.uri == uri && last.found {
            assert(linted[linted.len() - 1] == last);
            assert(left_reported(linted, uri));
        } else if left_reported(front, uri) && !(last.uri == uri && last.locale) {
            let i = choose|i: int|
                0 <= i < front.len() && (#[trigger] front[i]).uri == uri && front[i].found
                    && forall|j: int|
                    i < j < front.len() && (#[trigger] front[j]).uri == uri && front[j].locale
                        ==> front[j].found;
            assert(linted[i] == front[i]);
            assert forall|j: int|
                i < j < linted.len() && (#[trigger] linted[j]).uri == uri
                    && linted[j].locale implies linted[j].found by {
                if j < front.len() {
                    assert(front[j] == linted[j]);
                }
            }
            assert(left_reported(linted, uri));
        }
        if forall|i: int| 0 <= i < linted.len() ==> (#[trigger] linted[i]).uri != uri {
            assert forall|i: int| 0 <= i < front.len() implies (#[trigger] front[i]).uri != uri by {
                assert(front[i] == linted[i]);
            }
            assert(linted[linted.len() - 1] == last);
        }
    }
}

/// Where a pass over everything looks at no file twice, a file is reported in the end exactly if the
/// list that was sent for it is not empty.
pub proof fn law_full_pass_reports_what_it_sent<L: Language>(
    server: ServerView<L>,
    uris: Seq<Url>,
    linted: Seq<Linted>,
    uri: Seq<char>,
)
    requires
        server.stale,
        forall|i: int, j: int|
            0 <= i < j < linted.len() ==> (#[trigger] linted[i]).uri != (#[trigger] linted[j]).uri,
    ensures
        server.pass(uris).after(linted).reported.contains(uri) <==> exists|i: int|
            0 <= i < linted.len() && (#[trigger] linted[i]).uri == uri && linted[i].found,
{
    law_pass_reports_what_it_found(server, uris, linted, uri);
    if exists|i: int|
        0 <= i < linted.len() && (#[trigger] linted[i]).uri == uri && linted[i].found {
        let i = choose|i: int|
            0 <= i < linted.len() && (#[trigger] linted[i]).uri == uri && linted[i].found;
        assert forall|j: int|
            i < j < linted.len() && (#[trigger] linted[j]).uri == uri
                && linted[j].locale implies linted[j].found by {
            assert(linted[i].uri != linted[j].uri);
        }
        assert(left_reported(linted, uri));
    }
}

/// Publishing follows indexing: once what changed was handed out, publishing can begin, and all open
/// documents are published if anything had changed.
pub proof fn law_publishing_follows_indexing<L: Language>(server: ServerView<L>, uri: Seq<char>)
    ensures
        server.flushed().dirty == Set::<Seq<char>>::empty(),
        server.flushed().numbered(uri).dirty == Set::<Seq<char>>::empty(),
        server.dirty != Set::<Seq<char>>::empty() ==> server.flushed().numbered(uri).pending,
{
}

} // verus!
