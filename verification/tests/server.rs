use lsp_types::notification::Notification as _;
use lsp_types::request::Request as _;
use lsp_types::{notification, request, Url};
use qbx_lua_ls::capabilities::{capabilities, SyncKind};
use qbx_lua_ls::index::{FileEntry, FileIndex, FileOrigin, Language, ResourceEntry, Side};
use qbx_lua_ls::messages::{recovery_message, start_message};
use qbx_lua_ls::server::pass::{select_problems, Severity, TargetStep};
use qbx_lua_ls::server::requests::{
    error_reply, format_reply, indentation, notification_kind, request_kind, Failure, FileSide,
    FormatReply, Indentation, NotificationKind, Params, Request, RequestKind, Task,
};
use qbx_lua_ls::server::watch::{
    after_changes, reindex_steps, FileChange, ManifestChanges, WatchStep, WorkspaceStep,
};
use qbx_lua_ls::server::{
    workspace_roots, CompletionCapabilities, CompletionItemCapabilities, FlushStep,
    InitializeParams, Notification, Preparation, Server, Settings, TextDocumentCapabilities,
    WatchedFilesCapabilities, WorkspaceCapabilities,
};
use qbx_lua_ls::session::{Incoming, Session, SessionAction, SessionEvent};
use qbx_lua_ls::settings::{parse_level, Level};
use smol_str::SmolStr;
use std::path::{Path, PathBuf};

#[derive(Clone, Debug)]
struct Lua;

impl Language for Lua {
    type Type = ();
    type FunType = ();
    type Manifest = ();
    type Summary = ();
}

fn quiet() -> InitializeParams {
    InitializeParams {
        workspace_folders: None,
        root: None,
        settings: None,
        text_document: None,
        workspace: None,
    }
}

fn server() -> Server<Lua> {
    let mut params = quiet();
    params.root = Some(PathBuf::from("/work"));
    Server::new(params)
}

fn uri(path: &str) -> Url {
    Url::from_file_path(path).unwrap()
}

fn open(server: &mut Server<Lua>, path: &str, version: i32) {
    server.handle_notification(Notification::DidOpen {
        uri: uri(path),
        path: Some(PathBuf::from(path)),
        version,
        manifest: false,
        source: true,
    });
}

fn store(server: &mut Server<Lua>, path: &str, resource: Option<u32>) -> u32 {
    let id = server.workspace_mut().index.allocate(Path::new(path));
    server.workspace_mut().index.set_file(
        id,
        FileEntry {
            path: PathBuf::from(path),
            uri: uri(path),
            origin: FileOrigin::Workspace,
            resource,
            side: None,
            index: FileIndex::default(),
        },
    );
    id
}

fn resource(server: &mut Server<Lua>, name: &str, root: &str) {
    server.workspace_mut().index.add_resource(ResourceEntry {
        name: SmolStr::new(name),
        root: PathBuf::from(root),
        manifest_path: PathBuf::from(root).join("fxmanifest.lua"),
        manifest: (),
        files: Vec::new(),
        imports: Vec::new(),
        escrowed: false,
    });
}

fn manifest_uris(server: &Server<Lua>) -> Vec<Url> {
    server
        .workspace()
        .index
        .resources
        .iter()
        .map(|resource| Url::from_file_path(&resource.manifest_path).unwrap())
        .collect()
}

fn sorted(uris: Vec<Url>) -> Vec<String> {
    let mut texts: Vec<String> = uris.iter().map(|uri| uri.to_string()).collect();
    texts.sort();
    texts
}

#[test]
fn requests_index_edits_once_and_idle_time_still_publishes_them() {
    let mut server: Server<Lua> = Server::new(quiet());
    let path = PathBuf::from("/tmp/qbx-lua-ls-dirty.lua");
    let uri = Url::from_file_path(&path).unwrap();
    server.handle_notification(Notification::DidOpen {
        uri: uri.clone(),
        path: Some(path.clone()),
        version: 1,
        manifest: false,
        source: true,
    });
    let changed = server.flush_index();
    assert_eq!(changed, vec![uri.clone()]);
    for uri in &changed {
        assert_eq!(server.flush_document(uri), FlushStep::Reindex);
        let id = server.workspace().index.file_id(&path).unwrap();
        server.document_indexed(uri, id);
    }
    assert!(server.flush_index().is_empty());
    let published = server
        .publish_dirty()
        .iter()
        .filter(|uri| server.publish(uri).is_some())
        .count();
    assert_eq!(published, 1);
    assert!(server.publish_dirty().is_empty());
}

#[test]
fn roots_are_the_folders_or_else_the_root() {
    let folders = vec![Some(PathBuf::from("/a")), None, Some(PathBuf::from("/b"))];
    assert_eq!(
        workspace_roots(Some(folders), Some(PathBuf::from("/root"))),
        vec![PathBuf::from("/a"), PathBuf::from("/b")]
    );
    assert_eq!(
        workspace_roots(Some(vec![None]), Some(PathBuf::from("/root"))),
        vec![PathBuf::from("/root")]
    );
    assert_eq!(
        workspace_roots(None, Some(PathBuf::from("/root"))),
        vec![PathBuf::from("/root")]
    );
    assert!(workspace_roots(None, None).is_empty());
}

#[test]
fn a_session_starts_from_what_the_client_says() {
    let mut settings = Settings::default();
    settings.library.push("/lib/one".to_string());
    settings.library.push("two".to_string());
    let server: Server<Lua> = Server::new(InitializeParams {
        workspace_folders: Some(vec![Some(PathBuf::from("/work"))]),
        root: None,
        settings: Some(settings),
        text_document: Some(TextDocumentCapabilities {
            completion: Some(CompletionCapabilities {
                completion_item: Some(CompletionItemCapabilities { snippet_support: Some(true) }),
            }),
        }),
        workspace: Some(WorkspaceCapabilities {
            did_change_watched_files: Some(WatchedFilesCapabilities {
                dynamic_registration: None,
            }),
        }),
    });
    assert!(server.snippet_support());
    assert_eq!(server.workspace().roots, vec![PathBuf::from("/work")]);
    assert_eq!(server.workspace().library, vec![PathBuf::from("/lib/one"), PathBuf::from("two")]);
    assert_eq!(server.settings().library.len(), 2);
    let status = server.status();
    assert_eq!((status.files, status.resources, status.open_documents), (0, 0, 0));
    let silent: Server<Lua> = Server::new(quiet());
    assert!(!silent.snippet_support());
    assert!(silent.settings().library.is_empty());
}

#[test]
fn watchers_are_registered_where_the_client_takes_them() {
    let mut silent = server();
    assert!(silent.register_watchers().is_none());
    let mut params = quiet();
    params.workspace = Some(WorkspaceCapabilities {
        did_change_watched_files: Some(WatchedFilesCapabilities {
            dynamic_registration: Some(true),
        }),
    });
    let mut server: Server<Lua> = Server::new(params);
    let registration = server.register_watchers().unwrap();
    assert_eq!(registration.request, 1);
    assert_eq!(registration.id, "qbx-watch-lua");
    assert_eq!(
        registration.globs,
        vec!["**/*.lua", "**/qbxlint.toml", "**/.qbxlint.toml", "**/locales/*.json", "**/*.cfg"]
    );
    assert_eq!(server.register_watchers().unwrap().request, 2);
}

#[test]
fn levels_have_names() {
    assert_eq!(parse_level("off"), Some(Level::Off));
    assert_eq!(parse_level("hint"), Some(Level::Hint));
    assert_eq!(parse_level("info"), Some(Level::Info));
    assert_eq!(parse_level("warning"), Some(Level::Warning));
    assert_eq!(parse_level("warn"), Some(Level::Warning));
    assert_eq!(parse_level("error"), Some(Level::Error));
    assert_eq!(parse_level("Error"), None);
    assert_eq!(parse_level(""), None);
}

#[test]
fn overrides_are_those_of_known_rules() {
    let mut settings = Settings::default();
    for (code, level) in
        [("unused", "off"), ("shadow", "loud"), ("other", "error"), ("global", "warn")]
    {
        settings.diagnostics.rules.insert(code.to_string(), level.to_string());
    }
    let known = vec!["unused".to_string(), "shadow".to_string(), "global".to_string()];
    let mut levels = settings.rule_overrides(&known);
    levels.sort_by(|a, b| a.0.cmp(&b.0));
    assert_eq!(
        levels,
        vec![("global".to_string(), Level::Warning), ("unused".to_string(), Level::Off)]
    );
    assert!(Settings::default().rule_overrides(&known).is_empty());
}

#[test]
fn opening_a_manifest_reserves_its_number() {
    let mut server = server();
    let path = "/work/app/fxmanifest.lua";
    let opened = Notification::DidOpen {
        uri: uri(path),
        path: Some(PathBuf::from(path)),
        version: 3,
        manifest: true,
        source: true,
    };
    assert_eq!(server.prepare_notification(&opened), Preparation::ResolveManifest);
    server.handle_notification(opened);
    let doc = server.document(&uri(path)).unwrap();
    assert_eq!((doc.version, doc.file, doc.manifest), (3, Some(0), true));
    assert_eq!(server.workspace().index.file_id(Path::new(path)), Some(0));
    assert_eq!(server.flush_index().len(), 1);
    assert_eq!(server.flush_document(&uri(path)), FlushStep::Done);
    assert_eq!(server.status().open_documents, 1);
    assert_eq!(server.status().files, 0);
}

#[test]
fn documents_without_a_path_are_ignored() {
    let mut server = server();
    let opened = Notification::DidOpen {
        uri: Url::parse("untitled:one").unwrap(),
        path: None,
        version: 1,
        manifest: true,
        source: true,
    };
    assert_eq!(server.prepare_notification(&opened), Preparation::Nothing);
    server.handle_notification(opened);
    assert!(server.document(&Url::parse("untitled:one").unwrap()).is_none());
    assert!(server.flush_index().is_empty());
}

#[test]
fn edits_count_only_in_open_documents() {
    let mut server = server();
    let edit = |version| Notification::DidChange {
        uri: uri("/work/a.lua"),
        version,
        source: version < 9,
    };
    assert_eq!(server.prepare_notification(&edit(2)), Preparation::Nothing);
    server.handle_notification(edit(2));
    assert!(server.flush_index().is_empty());
    open(&mut server, "/work/a.lua", 1);
    assert_eq!(server.flush_index().len(), 1);
    assert_eq!(server.prepare_notification(&edit(2)), Preparation::ApplyChanges);
    server.handle_notification(edit(2));
    assert_eq!(server.document(&uri("/work/a.lua")).unwrap().version, 2);
    assert_eq!(server.flush_index().len(), 1);
    assert_eq!(server.flush_document(&uri("/work/a.lua")), FlushStep::Reindex);
    // What is no source is not indexed.
    server.handle_notification(edit(9));
    assert_eq!(server.flush_document(&uri("/work/a.lua")), FlushStep::Done);
    assert_eq!(server.document(&uri("/work/a.lua")).unwrap().file, Some(0));
    assert_eq!(server.flush_document(&uri("/work/closed.lua")), FlushStep::Done);
}

#[test]
fn closing_indexes_from_disk_and_forgets_the_document() {
    let mut server = server();
    open(&mut server, "/work/a.lua", 1);
    let closed = Notification::DidClose {
        uri: uri("/work/a.lua"),
        path: Some(PathBuf::from("/work/a.lua")),
    };
    assert_eq!(server.prepare_notification(&closed), Preparation::IndexFile);
    server.handle_notification(closed);
    assert!(server.document(&uri("/work/a.lua")).is_none());
    assert!(server.flush_index().is_empty());
    assert!(server.publish(&uri("/work/a.lua")).is_none());
    let closed = Notification::DidClose { uri: uri("/work/a.lua"), path: None };
    assert_eq!(server.prepare_notification(&closed), Preparation::Nothing);
}

#[test]
fn saving_a_manifest_reads_it_again() {
    let mut server = server();
    let saved = Notification::DidSave {
        uri: uri("/work/app/fxmanifest.lua"),
        path: Some(PathBuf::from("/work/app/fxmanifest.lua")),
        manifest: true,
    };
    assert_eq!(server.prepare_notification(&saved), Preparation::ReloadManifest);
    let saved = Notification::DidSave {
        uri: uri("/work/a.lua"),
        path: Some(PathBuf::from("/work/a.lua")),
        manifest: false,
    };
    assert_eq!(server.prepare_notification(&saved), Preparation::Nothing);
    server.handle_notification(saved);
    assert_eq!(sorted(server.flush_index()), vec!["file:///work/a.lua"]);
}

#[test]
fn new_settings_reach_every_document() {
    let mut server = server();
    open(&mut server, "/work/a.lua", 1);
    open(&mut server, "/work/b.lua", 1);
    server.flush_index();
    assert!(server.publish(&uri("/work/a.lua")).unwrap().lint);
    let mut settings = Settings::default();
    settings.diagnostics.enable = Some(false);
    server.handle_notification(Notification::DidChangeConfiguration { settings });
    assert_eq!(
        sorted(server.flush_index()),
        vec!["file:///work/a.lua", "file:///work/b.lua"]
    );
    let publication = server.publish(&uri("/work/a.lua")).unwrap();
    assert_eq!((publication.version, publication.lint), (1, false));
    assert_eq!(sorted(server.publish_dirty()).len(), 2);
}

#[test]
fn a_failure_drops_the_work_in_hand() {
    let mut server = server();
    open(&mut server, "/work/a.lua", 1);
    server.recover();
    assert!(server.flush_index().is_empty());
    assert!(server.publish_dirty().is_empty());
    assert!(server.document(&uri("/work/a.lua")).is_some());
}

fn change(path: &str, manifest: bool, deleted: bool) -> FileChange {
    FileChange { uri: uri(path), path: Some(PathBuf::from(path)), manifest, deleted }
}

#[test]
fn changes_on_disk_are_told_apart() {
    let mut server = server();
    let mut manifests = ManifestChanges { changed: false, deleted: false };
    let gone = store(&mut server, "/work/gone.lua", None);
    open(&mut server, "/work/open.lua", 1);
    let steps = [
        (change("/work/server.cfg", false, true), WatchStep::ClearCache),
        (change("/work/qbxlint.toml", false, false), WatchStep::DiscoverConfig),
        (change("/work/gone.lua", false, true), WatchStep::Forgotten),
        (change("/work/new.lua", false, false), WatchStep::IndexFile),
        (change("/work/open.lua", false, false), WatchStep::Skip),
        (change("/work/locales/en.json", false, false), WatchStep::Skip),
    ];
    for (change, expected) in &steps {
        assert_eq!(server.watch_step(change, &mut manifests), *expected);
    }
    let nowhere =
        FileChange { uri: uri("/work/x.lua"), path: None, manifest: true, deleted: true };
    assert_eq!(server.watch_step(&nowhere, &mut manifests), WatchStep::Skip);
    assert!(server.workspace().index.file(gone).is_none());
    assert_eq!(manifests, ManifestChanges { changed: false, deleted: false });
    assert!(after_changes(manifests).is_empty());
    let changed = change("/work/app/fxmanifest.lua", true, false);
    assert_eq!(server.watch_step(&changed, &mut manifests), WatchStep::ReloadManifest);
    assert_eq!(after_changes(manifests), vec![WorkspaceStep::LinkImports]);
    let deleted = change("/work/app/fxmanifest.lua", true, true);
    assert_eq!(server.watch_step(&deleted, &mut manifests), WatchStep::ForgetManifest);
    assert_eq!(
        after_changes(manifests),
        vec![
            WorkspaceStep::Rescan,
            WorkspaceStep::MarkOpenDirty,
            WorkspaceStep::Flush,
            WorkspaceStep::LinkImports,
        ]
    );
    server.flush_index();
    server.watched_files_changed();
    assert_eq!(sorted(server.flush_index()), vec!["file:///work/open.lua"]);
}

#[test]
fn lint_settings_are_looked_for_below_a_root() {
    let mut server: Server<Lua> = Server::new(quiet());
    let mut manifests = ManifestChanges { changed: false, deleted: false };
    let changed = change("/work/qbxlint.toml", false, false);
    assert_eq!(server.watch_step(&changed, &mut manifests), WatchStep::Skip);
}

#[test]
fn reindexing_settles_open_documents_twice() {
    let steps = reindex_steps();
    assert_eq!(steps.len(), 7);
    assert_eq!(steps[0], WorkspaceStep::ClearCache);
    assert_eq!(steps[1], WorkspaceStep::Rescan);
    assert_eq!(steps.iter().filter(|step| **step == WorkspaceStep::Flush).count(), 2);
    let mut server = server();
    assert!(server.publish_workspace(&Vec::new()).is_some());
    assert!(server.publish_workspace(&Vec::new()).is_none());
    server.finish_reindex();
    assert!(server.publish_workspace(&Vec::new()).is_some());
}

#[test]
fn the_overview_shows_errors_first_and_no_hints() {
    let severities = vec![
        Some(Severity::Warning),
        None,
        Some(Severity::Error),
        Some(Severity::Hint),
        Some(Severity::Information),
        Some(Severity::Error),
    ];
    assert_eq!(select_problems(&severities), vec![2, 5, 0, 4, 1]);
    assert!(select_problems(&vec![Some(Severity::Hint)]).is_empty());
    let mut many = vec![Some(Severity::Warning); 120];
    many[119] = Some(Severity::Error);
    let shown = select_problems(&many);
    assert_eq!(shown.len(), 100);
    assert_eq!((shown[0], shown[1], shown[99]), (119, 0, 98));
}

#[test]
fn a_pass_lints_the_workspace_and_clears_what_became_clean() {
    let mut server = server();
    resource(&mut server, "app", "/work/app");
    resource(&mut server, "far", "/elsewhere/far");
    let a = store(&mut server, "/work/app/a.lua", Some(0));
    let b = store(&mut server, "/work/app/b.lua", Some(0));
    let uris = manifest_uris(&server);
    open(&mut server, "/work/app/b.lua", 1);
    let mut pass = server.publish_workspace(&uris).unwrap();
    assert_eq!(pass.len(), 3);
    assert_eq!(pass.target(0).file, Some(a));
    assert_eq!(pass.target(1).uri, uri("/work/app/b.lua"));
    assert_eq!(pass.target(2).path, PathBuf::from("/work/app/fxmanifest.lua"));
    assert_eq!(pass.target(2).file, None);
    assert_eq!(server.target_step(&mut pass, 0), TargetStep::Read);
    assert_eq!(server.target_step(&mut pass, 1), TargetStep::Open);
    assert_eq!(server.target_step(&mut pass, 2), TargetStep::Read);
    assert_eq!(server.target_read(&mut pass, 0), a);
    assert_eq!(server.target_read(&mut pass, 2), 2);
    assert_eq!(server.workspace().index.file_id(Path::new("/work/app/fxmanifest.lua")), Some(2));
    assert!(server.target_linted(&mut pass, 0, true));
    assert!(!server.target_linted(&mut pass, 2, false));
    let usage = pass.take_usage();
    assert_eq!(usage, vec![(0, vec![1, 0])]);
    assert!(pass.take_usage().is_empty());
    let locale = uri("/work/app/locales/en.json");
    assert!(server.locale_linted(&mut pass, &locale, true));
    assert!(server.finish_workspace(pass).is_empty());
    assert_eq!(b, 1);
    // The next pass over everything finds nothing and clears both.
    server.finish_reindex();
    let mut pass = server.publish_workspace(&uris).unwrap();
    assert!(server.target_linted(&mut pass, 0, false));
    assert!(server.locale_linted(&mut pass, &locale, false));
    assert_eq!(
        sorted(server.finish_workspace(pass)),
        vec!["file:///work/app/a.lua", "file:///work/app/locales/en.json"]
    );
}

#[test]
fn a_save_lints_only_its_resource() {
    let mut server = server();
    resource(&mut server, "one", "/work/one");
    resource(&mut server, "two", "/work/two");
    store(&mut server, "/work/one/a.lua", Some(0));
    store(&mut server, "/work/two/b.lua", Some(1));
    store(&mut server, "/work/loose.lua", None);
    let uris = manifest_uris(&server);
    let mut pass = server.publish_workspace(&uris).unwrap();
    assert_eq!(pass.len(), 5);
    assert!(server.target_linted(&mut pass, 0, true));
    assert!(server.target_linted(&mut pass, 1, true));
    server.finish_workspace(pass);
    let save = |path: &str| Notification::DidSave {
        uri: uri(path),
        path: Some(PathBuf::from(path)),
        manifest: false,
    };
    server.handle_notification(save("/work/one/a.lua"));
    let pass = server.publish_workspace(&uris).unwrap();
    assert_eq!(pass.len(), 2);
    assert_eq!(pass.target(0).uri, uri("/work/one/a.lua"));
    // What is not checked stays reported.
    assert_eq!(sorted(server.finish_workspace(pass)), vec!["file:///work/one/a.lua"]);
    // A manifest belongs to the resource that it describes, any other file to none.
    server.handle_notification(save("/work/two/fxmanifest.lua"));
    server.handle_notification(save("/work/other.txt"));
    let pass = server.publish_workspace(&uris).unwrap();
    let files: Vec<String> =
        (0..pass.len()).map(|i| pass.target(i).uri.to_string()).collect();
    assert_eq!(
        files,
        vec![
            "file:///work/two/b.lua",
            "file:///work/loose.lua",
            "file:///work/two/fxmanifest.lua",
        ]
    );
}

#[test]
fn switching_diagnostics_off_clears_them() {
    let mut server = server();
    store(&mut server, "/work/a.lua", None);
    let mut pass = server.publish_workspace(&Vec::new()).unwrap();
    assert!(server.target_linted(&mut pass, 0, true));
    server.finish_workspace(pass);
    let mut settings = Settings::default();
    settings.diagnostics.workspace = Some(false);
    server.handle_notification(Notification::DidChangeConfiguration { settings });
    let pass = server.publish_workspace(&Vec::new()).unwrap();
    assert_eq!(pass.len(), 0);
    assert_eq!(sorted(server.finish_workspace(pass)), vec!["file:///work/a.lua"]);
}

#[test]
fn locale_keys_are_not_decided_for_encrypted_resources() {
    let mut server = server();
    resource(&mut server, "one", "/work/one");
    resource(&mut server, "two", "/work/two");
    server.workspace_mut().index.resource_mut(1).unwrap().escrowed = true;
    assert!(server.locale_wanted(0));
    assert!(!server.locale_wanted(1));
    assert!(!server.locale_wanted(2));
}

#[test]
fn methods_are_those_of_the_protocol() {
    let known = [
        (request::Completion::METHOD, RequestKind::Completion),
        (request::ResolveCompletionItem::METHOD, RequestKind::ResolveCompletionItem),
        (request::HoverRequest::METHOD, RequestKind::Hover),
        (request::SignatureHelpRequest::METHOD, RequestKind::SignatureHelp),
        (request::GotoDefinition::METHOD, RequestKind::GotoDefinition),
        (request::References::METHOD, RequestKind::References),
        (request::DocumentHighlightRequest::METHOD, RequestKind::DocumentHighlight),
        (request::PrepareRenameRequest::METHOD, RequestKind::PrepareRename),
        (request::Rename::METHOD, RequestKind::Rename),
        (request::DocumentSymbolRequest::METHOD, RequestKind::DocumentSymbol),
        (request::WorkspaceSymbolRequest::METHOD, RequestKind::WorkspaceSymbol),
        (request::CodeActionRequest::METHOD, RequestKind::CodeAction),
        (request::FoldingRangeRequest::METHOD, RequestKind::FoldingRange),
        (request::InlayHintRequest::METHOD, RequestKind::InlayHint),
        (request::SemanticTokensFullRequest::METHOD, RequestKind::SemanticTokensFull),
        (request::Formatting::METHOD, RequestKind::Formatting),
        ("qbx/status", RequestKind::Status),
        ("qbx/reindex", RequestKind::Reindex),
        ("qbx/fileInfo", RequestKind::FileInfo),
        ("qbx/snippets", RequestKind::Snippets),
    ];
    for (method, kind) in known {
        assert_eq!(request_kind(method), Some(kind));
    }
    assert_eq!(request_kind("textDocument/declaration"), None);
    let known = [
        (notification::DidOpenTextDocument::METHOD, NotificationKind::DidOpen),
        (notification::DidChangeTextDocument::METHOD, NotificationKind::DidChange),
        (notification::DidSaveTextDocument::METHOD, NotificationKind::DidSave),
        (notification::DidCloseTextDocument::METHOD, NotificationKind::DidClose),
        (
            notification::DidChangeWatchedFiles::METHOD,
            NotificationKind::DidChangeWatchedFiles,
        ),
        (
            notification::DidChangeConfiguration::METHOD,
            NotificationKind::DidChangeConfiguration,
        ),
    ];
    for (method, kind) in known {
        assert_eq!(notification_kind(method), Some(kind));
    }
    assert_eq!(notification_kind("initialized"), None);
}

fn about(method: &str, path: &str) -> Request {
    Request { method: method.to_string(), params: Params::Document { uri: uri(path) } }
}

fn malformed(method: &str) -> Request {
    let message = "missing field `position`".to_string();
    Request { method: method.to_string(), params: Params::Malformed { message } }
}

#[test]
fn requests_are_refused_with_a_reason() {
    let mut server = server();
    open(&mut server, "/work/a.lua", 1);
    let unknown =
        Request { method: "textDocument/declaration".to_string(), params: Params::Other };
    assert_eq!(
        server.dispatch(&unknown),
        Err("unsupported request: textDocument/declaration".to_string())
    );
    // That the method is unknown is found before anything about its parameters.
    assert_eq!(
        server.dispatch(&malformed("textDocument/declaration")),
        Err("unsupported request: textDocument/declaration".to_string())
    );
    assert_eq!(
        server.dispatch(&malformed("textDocument/hover")),
        Err("missing field `position`".to_string())
    );
    assert_eq!(
        server.dispatch(&malformed("qbx/fileInfo")),
        Err("missing field `position`".to_string())
    );
    assert_eq!(
        server.dispatch(&about("textDocument/hover", "/work/b.lua")),
        Err("document is not open: file:///work/b.lua".to_string())
    );
    assert_eq!(
        server.doc(&uri("/work/b.lua")).err(),
        Some("document is not open: file:///work/b.lua".to_string())
    );
    assert_eq!(server.doc(&uri("/work/a.lua")).unwrap().path, PathBuf::from("/work/a.lua"));
    assert_eq!(
        server.dispatch(&about("textDocument/hover", "/work/a.lua")),
        Ok(Task::Run(RequestKind::Hover))
    );
    let symbols = Request { method: "workspace/symbol".to_string(), params: Params::Other };
    assert_eq!(server.dispatch(&symbols), Ok(Task::Run(RequestKind::WorkspaceSymbol)));
}

#[test]
fn some_requests_make_do_without_parameters() {
    let server = server();
    for (method, kind) in [
        ("qbx/status", RequestKind::Status),
        ("qbx/reindex", RequestKind::Reindex),
        ("qbx/snippets", RequestKind::Snippets),
    ] {
        assert_eq!(server.dispatch(&malformed(method)), Ok(Task::Run(kind)));
    }
    // Neither of these needs its document to be open.
    assert_eq!(
        server.dispatch(&about("qbx/fileInfo", "/work/a.lua")),
        Ok(Task::Run(RequestKind::FileInfo))
    );
    assert_eq!(
        server.dispatch(&about("qbx/snippets", "/work/a.lua")),
        Ok(Task::Run(RequestKind::Snippets))
    );
    assert!(RequestKind::Rename.concerns_document());
    assert!(!RequestKind::ResolveCompletionItem.concerns_document());
    assert!(RequestKind::ResolveCompletionItem.refuses_other_params());
}

#[test]
fn hints_and_tokens_can_be_switched_off() {
    let mut server = server();
    let hints = about("textDocument/inlayHint", "/work/a.lua");
    let tokens = about("textDocument/semanticTokens/full", "/work/a.lua");
    assert!(server.dispatch(&hints).is_err());
    assert!(server.dispatch(&tokens).is_err());
    let mut settings = Settings::default();
    settings.inlay_hints.enable = Some(false);
    settings.semantic_tokens.enable = Some(false);
    server.handle_notification(Notification::DidChangeConfiguration { settings });
    assert_eq!(server.dispatch(&hints), Ok(Task::NoInlayHints));
    assert_eq!(server.dispatch(&tokens), Ok(Task::NoSemanticTokens));
    // The parameters are still read.
    assert!(server.dispatch(&malformed("textDocument/inlayHint")).is_err());
    let mut settings = Settings::default();
    settings.inlay_hints.enable = Some(true);
    server.handle_notification(Notification::DidChangeConfiguration { settings });
    open(&mut server, "/work/a.lua", 1);
    assert_eq!(server.dispatch(&hints), Ok(Task::Run(RequestKind::InlayHint)));
}

#[test]
fn notifications_leave_other_documents_alone() {
    let mut server = server();
    open(&mut server, "/work/a.lua", 1);
    open(&mut server, "/work/b.lua", 5);
    server.handle_notification(Notification::DidChange {
        uri: uri("/work/a.lua"),
        version: 2,
        source: false,
    });
    server.handle_notification(Notification::DidClose { uri: uri("/work/a.lua"), path: None });
    let doc = server.document(&uri("/work/b.lua")).unwrap();
    assert_eq!((doc.version, doc.source, doc.file), (5, true, None));
}

#[test]
fn file_info_tells_side_and_resource() {
    let mut server = server();
    resource(&mut server, "one", "/work/one");
    let module = store(&mut server, "/work/one/module.lua", Some(0));
    store(&mut server, "/work/loose.lua", None);
    let info = server.file_info(Some(Path::new("/work/one/module.lua")), false).unwrap();
    assert_eq!((info.side, info.resource.as_deref()), (FileSide::Module, Some("one")));
    let info = server.file_info(Some(Path::new("/work/one/module.lua")), true).unwrap();
    assert_eq!(info.side, FileSide::Manifest);
    let info = server.file_info(Some(Path::new("/work/loose.lua")), false).unwrap();
    assert_eq!((info.side, info.resource), (FileSide::Standalone, None));
    let info = server.file_info(Some(Path::new("/work/unknown.lua")), false).unwrap();
    assert_eq!(info.side, FileSide::Standalone);
    assert_eq!(server.file_info(None, false).err(), Some("not a file uri".to_string()));
    let side = Side { code: 1, available_on: 1 };
    server.workspace_mut().index.set_file(
        module,
        FileEntry {
            path: PathBuf::from("/work/one/module.lua"),
            uri: uri("/work/one/module.lua"),
            origin: FileOrigin::Workspace,
            resource: Some(0),
            side: Some(side),
            index: FileIndex::default(),
        },
    );
    let info = server.file_info(Some(Path::new("/work/one/module.lua")), false).unwrap();
    assert_eq!((info.side, info.resource.as_deref()), (FileSide::Side(side), Some("one")));
}

#[test]
fn the_editor_decides_indentation_without_lint_settings() {
    let configured = Indentation { width: 2, use_tabs: true };
    assert_eq!(indentation(Some(configured), 8, true), configured);
    assert_eq!(indentation(None, 8, true), Indentation { width: 8, use_tabs: false });
    assert_eq!(indentation(None, 0, false), Indentation { width: 1, use_tabs: true });
}

#[test]
fn formatting_replaces_only_what_differs() {
    assert!(matches!(
        format_reply("a = 1\n", Ok("a = 1\n".to_string())),
        FormatReply::Unchanged
    ));
    match format_reply("a=1", Ok("a = 1\n".to_string())) {
        FormatReply::Replace { text } => assert_eq!(text, "a = 1\n"),
        other => panic!("{:?}", other),
    }
    match format_reply("a=", Err("unexpected end".to_string())) {
        FormatReply::Warn { message } => {
            assert_eq!(message, "Qbox Lua could not format this file: unexpected end")
        }
        other => panic!("{:?}", other),
    }
}

#[test]
fn the_server_offers_its_features() {
    let offered = capabilities();
    assert!(offered.open_close && offered.save && offered.completion_resolve && offered.hover);
    assert_eq!(offered.change, SyncKind::Incremental);
    assert_eq!(offered.completion_triggers, vec![".", ":", "'", "\"", "@", "{"]);
    assert_eq!(offered.signature_triggers, vec!["(", ","]);
    assert!(offered.semantic_tokens_full && !offered.semantic_tokens_range);
}

#[test]
fn sessions_answer_and_publish_in_order() {
    let mut session: Session<&str> = Session::new();
    let steps = [
        (SessionEvent::Received(Incoming::Request { id: "one" }), SessionAction::CheckShutdown),
        (SessionEvent::ShutdownChecked { shutdown: false }, SessionAction::Work),
        (SessionEvent::Worked { completed: true }, SessionAction::Reply { id: "one" }),
        (SessionEvent::Replied, SessionAction::SeeQueue),
        (SessionEvent::QueueSeen { empty: false }, SessionAction::Receive),
        (SessionEvent::Received(Incoming::Request { id: "two" }), SessionAction::CheckShutdown),
        (SessionEvent::ShutdownChecked { shutdown: false }, SessionAction::Work),
        (
            SessionEvent::Worked { completed: false },
            SessionAction::ReplyInternalError { id: "two" },
        ),
        (SessionEvent::Replied, SessionAction::SeeQueue),
        (SessionEvent::QueueSeen { empty: true }, SessionAction::Publish),
        (SessionEvent::Published, SessionAction::Receive),
        (SessionEvent::Received(Incoming::Notification), SessionAction::TakeIn),
        (SessionEvent::TakenIn, SessionAction::SeeQueue),
        (SessionEvent::QueueSeen { empty: false }, SessionAction::Receive),
        (SessionEvent::Received(Incoming::Response), SessionAction::SeeQueue),
        (SessionEvent::QueueSeen { empty: false }, SessionAction::Receive),
        (SessionEvent::Received(Incoming::Request { id: "bye" }), SessionAction::CheckShutdown),
        (SessionEvent::ShutdownChecked { shutdown: true }, SessionAction::Stop),
    ];
    for (event, action) in steps {
        assert_eq!(session.next_action(event), action);
    }
    let mut session: Session<i32> = Session::new();
    let gone = SessionEvent::Received(Incoming::Closed);
    assert_eq!(session.next_action(gone), SessionAction::Stop);
    // Where no request waits, there is nothing to answer.
    let worked = SessionEvent::Worked { completed: true };
    assert_eq!(session.next_action(worked), SessionAction::SeeQueue);
}

#[test]
fn failures_have_the_codes_of_the_protocol() {
    let refused = error_reply(Failure::Refused { message: "not a file uri".to_string() });
    assert_eq!((refused.code, refused.message.as_str()), (-32602, "not a file uri"));
    let broken = error_reply(Failure::Broken);
    assert_eq!((broken.code, broken.message.as_str()), (-32603, "internal error"));
}

#[test]
fn messages_count_in_decimal() {
    assert_eq!(
        start_message(0, 10, 1234567890123456789012, 907),
        "indexed 0 files in 10 resources in 1234567890123456789012 ms (907 natives available)"
    );
    assert_eq!(
        recovery_message(),
        "recovered from an internal error; please report it with the file that triggered it"
    );
}
