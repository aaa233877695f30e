use lsp_types::{Position, Range, Url};
use qbx_lua_ls::index::{
    AliasDef, ClassDef, EventDef, EventKind, FileEntry, FileIndex, FileOrigin, Index, Language,
    Member, ResourceEntry, Side, Symbol, SymbolKind,
};
use qbx_lua_ls::paths::{normalize_path, normalize_path_for};
use smol_str::SmolStr;
use std::path::{Path, PathBuf};
use std::sync::Arc;

#[derive(Clone, Debug)]
struct Lua;

impl Language for Lua {
    type Type = String;
    type FunType = String;
    type Manifest = String;
    type Summary = u32;
}

const CLIENT: Side = Side { code: 1, available_on: 1 };
const SERVER: Side = Side { code: 2, available_on: 2 };
const SHARED: Side = Side { code: 4, available_on: 7 };

fn range() -> Range {
    Range::new(Position::new(1, 2), Position::new(3, 4))
}

fn symbol(name: &str) -> Symbol<Lua> {
    Symbol {
        name: SmolStr::new(name),
        kind: SymbolKind::Variable,
        ty: format!("type of {}", name),
        doc: Some(Arc::from("documented")),
        deprecated: false,
        literal: Some(SmolStr::new("1")),
        range: range(),
    }
}

fn member(owner: &str, name: &str) -> Member<Lua> {
    Member { owner: SmolStr::new(owner), symbol: symbol(name) }
}

fn class(name: &str, doc: &str) -> ClassDef<Lua> {
    ClassDef {
        name: SmolStr::new(name),
        parents: Vec::new(),
        fields: Vec::new(),
        index: None,
        call: None,
        doc: Some(Arc::from(doc)),
        range: range(),
    }
}

fn alias(name: &str, ty: &str) -> AliasDef<Lua> {
    AliasDef { name: SmolStr::new(name), ty: ty.to_string(), doc: None, range: range() }
}

fn event(name: &str) -> EventDef<Lua> {
    EventDef {
        name: SmolStr::new(name),
        kind: EventKind::NetEvent,
        side: None,
        handler: None,
        range: range(),
    }
}

fn entry(path: &str) -> FileEntry<Lua> {
    FileEntry {
        path: PathBuf::from(path),
        uri: Url::from_file_path(path).unwrap(),
        origin: FileOrigin::Workspace,
        resource: None,
        side: None,
        index: FileIndex::default(),
    }
}

fn with_globals(path: &str, names: &[&str]) -> FileEntry<Lua> {
    let mut file = entry(path);
    file.index.globals = names.iter().map(|name| symbol(name)).collect();
    file
}

fn resource(name: &str, root: &str) -> ResourceEntry<Lua> {
    ResourceEntry {
        name: SmolStr::new(name),
        root: PathBuf::from(root),
        manifest_path: PathBuf::from(root).join("fxmanifest.lua"),
        manifest: String::new(),
        files: Vec::new(),
        imports: Vec::new(),
        escrowed: false,
    }
}

fn put(index: &mut Index<Lua>, file: FileEntry<Lua>) -> u32 {
    let path = file.path.clone();
    let id = index.allocate(&path);
    index.set_file(id, file);
    id
}

fn names(found: &[(u32, &Symbol<Lua>)]) -> Vec<(u32, String)> {
    found.iter().map(|(id, symbol)| (*id, symbol.name.to_string())).collect()
}

#[test]
fn allocate_reuses_the_number_of_a_known_path() {
    let mut index: Index<Lua> = Index::with_paths(false);
    assert!(index.has_room(Path::new("/r/a.lua")));
    let a = index.allocate(Path::new("/r/a.lua"));
    let b = index.allocate(Path::new("/r/b.lua"));
    assert_eq!((a, b), (0, 1));
    assert_eq!(index.allocate(Path::new("/r/a.lua")), 0);
    assert_eq!(index.file_id(Path::new("/r/b.lua")), Some(1));
    assert_eq!(index.file_id(Path::new("/r/c.lua")), None);
    // Paths are the same when their components are.
    assert_eq!(index.file_id(Path::new("/r//b.lua")), Some(1));
    assert_eq!(index.file_id(Path::new("/r/./b.lua")), Some(1));
    assert_eq!(index.file_id(Path::new("/r/B.lua")), None);
    // A reserved number has no file yet.
    assert!(index.file(a).is_none());
    assert_eq!(index.file_count(), 0);
}

#[test]
fn windows_paths_differ_in_neither_case_nor_slashes() {
    let mut index: Index<Lua> = Index::with_paths(true);
    let id = index.allocate(Path::new("C:/Res/A.lua"));
    assert_eq!(index.file_id(Path::new("c:\\res\\a.LUA")), Some(id));
    assert_eq!(index.file_id(Path::new("c:/res/b.lua")), None);
}

#[test]
fn normalizing_lowers_and_turns_slashes_on_windows_only() {
    assert_eq!(
        normalize_path_for(true, Path::new("C:/Res/\u{c4}.lua")),
        PathBuf::from("c:\\res\\\u{e4}.lua")
    );
    assert_eq!(normalize_path_for(false, Path::new("/Res/A.lua")), PathBuf::from("/Res/A.lua"));
    let windows = std::path::MAIN_SEPARATOR == '\\';
    let path = Path::new("/Res/A.lua");
    assert_eq!(normalize_path(path), normalize_path_for(windows, path));
}

#[test]
fn an_index_follows_the_paths_of_its_platform() {
    let windows = std::path::MAIN_SEPARATOR == '\\';
    let mut index: Index<Lua> = Index::default();
    let id = index.allocate(Path::new("/Res/A.lua"));
    let folded = if windows { Some(id) } else { None };
    assert_eq!(index.file_id(Path::new("/res/a.lua")), folded);
    assert_eq!(index.file_id(Path::new("/Res/A.lua")), Some(id));
}

#[test]
fn stored_files_are_read_back() {
    let mut index: Index<Lua> = Index::default();
    let id = put(&mut index, with_globals("/r/a.lua", &["Config", "Shared", "Config"]));
    let file = index.file(id).unwrap();
    assert_eq!(file.path, PathBuf::from("/r/a.lua"));
    assert_eq!(file.uri.as_str(), "file:///r/a.lua");
    assert_eq!(file.index.globals.len(), 3);
    assert_eq!(file.index.globals[1].ty, "type of Shared");
    assert_eq!(file.index.globals[1].range, range());
    let found = index.globals_named("Config", id);
    assert_eq!(names(&found), vec![(id, "Config".to_string()), (id, "Config".to_string())]);
    assert_eq!(found[0].1.doc.as_deref(), Some("documented"));
    assert!(index.globals_named("config", id).is_empty());
    assert!(index.file(7).is_none());
}

#[test]
fn replacing_a_file_replaces_its_symbols() {
    let mut index: Index<Lua> = Index::with_paths(false);
    let a = put(&mut index, with_globals("/r/a.lua", &["One", "Two"]));
    let b = put(&mut index, with_globals("/r/b.lua", &["One"]));
    assert_eq!(
        names(&index.globals_named("One", b)),
        vec![(a, "One".to_string()), (b, "One".to_string())]
    );
    index.set_file(a, with_globals("/r/a.lua", &["Three", "One"]));
    assert!(index.globals_named("Two", a).is_empty());
    assert_eq!(names(&index.globals_named("Three", a)), vec![(a, "Three".to_string())]);
    // What is stored anew comes behind what was there.
    assert_eq!(
        names(&index.globals_named("One", b)),
        vec![(b, "One".to_string()), (a, "One".to_string())]
    );
}

#[test]
fn removed_files_leave_nothing_behind() {
    let mut index: Index<Lua> = Index::with_paths(false);
    index.resources.push(resource("one", "/one"));
    index.resources.push(resource("two", "/two"));
    let mut file = with_globals("/one/a.lua", &["Config"]);
    file.resource = Some(0);
    file.index.members.push(member("lib", "call"));
    file.index.classes.push(class("Player", "first"));
    file.index.aliases.push(alias("Id", "number"));
    let id = put(&mut index, file);
    index.resources[1].imports.push((id, SHARED));
    assert_eq!(index.resource(0).unwrap().files, vec![id]);
    assert!(index.has_members("lib"));
    assert!(index.class("Player").is_some());
    assert!(index.alias("Id").is_some());
    index.remove_file(Path::new("/one/none.lua"));
    assert_eq!(index.file_count(), 1);
    index.remove_file(Path::new("/one/a.lua"));
    assert_eq!(index.file_id(Path::new("/one/a.lua")), None);
    assert!(index.file(id).is_none());
    assert!(index.resource(0).unwrap().files.is_empty());
    assert!(index.resource(1).unwrap().imports.is_empty());
    assert!(index.globals_named("Config", id).is_empty());
    assert!(!index.has_members("lib"));
    assert!(index.class("Player").is_none());
    assert!(index.alias("Id").is_none());
    assert!(index.class_names().is_empty());
    // The number is not handed out again.
    assert_eq!(index.allocate(Path::new("/one/a.lua")), id + 1);
}

#[test]
fn storing_lists_the_file_with_its_resource_once() {
    let mut index: Index<Lua> = Index::with_paths(false);
    index.resources.push(resource("one", "/one"));
    let mut file = entry("/one/a.lua");
    file.resource = Some(0);
    let id = put(&mut index, file);
    let mut file = entry("/one/a.lua");
    file.resource = Some(0);
    index.set_file(id, file);
    assert_eq!(index.resource(0).unwrap().files, vec![id]);
    // A resource that does not exist lists nothing.
    let mut file = entry("/x/b.lua");
    file.resource = Some(9);
    let other = put(&mut index, file);
    assert!(index.resource_of(other).is_none());
    assert_eq!(index.resource_of(id).unwrap().name.as_str(), "one");
    assert!(index.resource(9).is_none());
    assert_eq!(index.resource_count(), 1);
}

#[test]
fn clearing_keeps_only_the_built_in_library() {
    let mut index: Index<Lua> = Index::with_paths(false);
    index.resources.push(resource("one", "/one"));
    put(&mut index, with_globals("/one/a.lua", &["Config"]));
    let mut stub = with_globals("/stubs/b.lua", &["print"]);
    stub.origin = FileOrigin::Stub;
    put(&mut index, stub);
    let mut library = with_globals("/lib/c.lua", &["lib"]);
    library.origin = FileOrigin::Library;
    put(&mut index, library);
    let mut stub = with_globals("/stubs/d.lua", &["type"]);
    stub.origin = FileOrigin::Stub;
    put(&mut index, stub);
    index.clear_workspace();
    assert_eq!(index.resource_count(), 0);
    let files: Vec<(u32, PathBuf)> =
        index.files().into_iter().map(|(id, file)| (id, file.path.clone())).collect();
    assert_eq!(
        files,
        vec![(0, PathBuf::from("/stubs/b.lua")), (1, PathBuf::from("/stubs/d.lua"))]
    );
    assert_eq!(index.file_id(Path::new("/stubs/d.lua")), Some(1));
    assert_eq!(index.file_id(Path::new("/one/a.lua")), None);
    assert_eq!(names(&index.globals_named("type", 0)), vec![(1, "type".to_string())]);
    assert!(index.globals_named("Config", 0).is_empty());
}

#[test]
fn stubs_that_share_a_path_end_up_as_the_last_one() {
    let mut index: Index<Lua> = Index::with_paths(false);
    let a = index.allocate(Path::new("/stubs/a.lua"));
    let b = index.allocate(Path::new("/stubs/b.lua"));
    let mut first = with_globals("/stubs/same.lua", &["one"]);
    first.origin = FileOrigin::Stub;
    let mut second = with_globals("/stubs/same.lua", &["two"]);
    second.origin = FileOrigin::Stub;
    index.set_file(a, first);
    index.set_file(b, second);
    index.clear_workspace();
    assert_eq!(index.file_count(), 1);
    assert_eq!(index.file_id(Path::new("/stubs/same.lua")), Some(0));
    assert!(index.globals_named("one", 0).is_empty());
    assert_eq!(names(&index.globals_named("two", 0)), vec![(0, "two".to_string())]);
}

#[test]
fn files_of_one_resource_see_each_other_where_sides_match() {
    let mut index: Index<Lua> = Index::with_paths(false);
    index.resources.push(resource("one", "/one"));
    index.resources.push(resource("two", "/two"));
    let mut ids = Vec::new();
    for (path, owner, side) in [
        ("/one/client.lua", Some(0), Some(CLIENT)),
        ("/one/server.lua", Some(0), Some(SERVER)),
        ("/one/shared.lua", Some(0), Some(SHARED)),
        ("/one/module.lua", Some(0), None),
        ("/two/client.lua", Some(1), Some(CLIENT)),
        ("/loose/a.lua", None, None),
        ("/loose/b.lua", None, None),
    ] {
        let mut file = entry(path);
        file.resource = owner;
        file.side = side;
        ids.push(put(&mut index, file));
    }
    let (client, server, shared, module, other, a, b) =
        (ids[0], ids[1], ids[2], ids[3], ids[4], ids[5], ids[6]);
    assert!(!index.is_visible(client, server));
    assert!(index.is_visible(client, shared));
    assert!(!index.is_visible(shared, client));
    assert!(index.is_visible(client, module));
    assert!(index.is_visible(module, server));
    assert!(!index.is_visible(client, other));
    assert!(index.is_visible(a, b));
    assert!(!index.is_visible(a, client));
    assert!(!index.is_visible(client, a));
    assert!(index.is_visible(client, client));
    assert!(index.is_visible(99, 99));
    assert!(!index.is_visible(99, client));
    assert!(!index.is_visible(client, 99));
    // Being related does not ask for sides.
    assert!(index.is_related(client, server));
    assert!(index.is_related(a, b));
    assert!(!index.is_related(client, other));
    assert!(!index.is_related(client, a));
    assert!(!index.is_related(client, 99));
}

#[test]
fn imports_make_single_files_visible() {
    let mut index: Index<Lua> = Index::with_paths(false);
    index.resources.push(resource("app", "/app"));
    index.resources.push(resource("lib", "/lib"));
    let mut file = entry("/app/client.lua");
    file.resource = Some(0);
    file.side = Some(CLIENT);
    let from = put(&mut index, file);
    let mut file = entry("/lib/init.lua");
    file.resource = Some(1);
    let init = put(&mut index, file);
    let mut file = entry("/lib/extra.lua");
    file.resource = Some(1);
    let extra = put(&mut index, file);
    index.resources[0].imports.push((init, SERVER));
    assert!(!index.is_visible(from, init));
    assert!(index.is_related(from, init));
    assert!(index.is_related(init, from));
    index.resources[0].imports.push((init, SHARED));
    assert!(index.is_visible(from, init));
    assert!(!index.is_visible(init, from));
    assert!(!index.is_visible(from, extra));
    assert!(!index.is_related(from, extra));
}

#[test]
fn stubs_are_seen_from_everywhere_on_their_side() {
    let mut index: Index<Lua> = Index::with_paths(false);
    index.resources.push(resource("one", "/one"));
    let mut stub = with_globals("/stubs/natives.lua", &["Wait"]);
    stub.origin = FileOrigin::Stub;
    stub.side = Some(CLIENT);
    let stub = put(&mut index, stub);
    let mut file = entry("/one/client.lua");
    file.resource = Some(0);
    file.side = Some(CLIENT);
    let client = put(&mut index, file);
    let mut file = entry("/one/server.lua");
    file.resource = Some(0);
    file.side = Some(SERVER);
    let server = put(&mut index, file);
    let loose = put(&mut index, entry("/loose.lua"));
    assert!(index.is_visible(client, stub));
    assert!(!index.is_visible(server, stub));
    assert!(index.is_visible(loose, stub));
    assert!(!index.is_visible(stub, client));
    assert_eq!(names(&index.visible_globals(client)), vec![(stub, "Wait".to_string())]);
    assert!(index.visible_globals(server).is_empty());
}

#[test]
fn offered_globals_agree_with_lookups() {
    let mut index: Index<Lua> = Index::with_paths(false);
    let a = put(&mut index, with_globals("/a.lua", &["One", "Two"]));
    let b = put(&mut index, with_globals("/b.lua", &["Three", "One"]));
    index.resources.push(resource("one", "/one"));
    let mut hidden = with_globals("/one/c.lua", &["One"]);
    hidden.resource = Some(0);
    put(&mut index, hidden);
    assert_eq!(
        names(&index.visible_globals(a)),
        vec![
            (a, "One".to_string()),
            (a, "Two".to_string()),
            (b, "Three".to_string()),
            (b, "One".to_string()),
        ]
    );
    assert_eq!(
        names(&index.globals_named("One", a)),
        vec![(a, "One".to_string()), (b, "One".to_string())]
    );
}

#[test]
fn private_tables_are_seen_whole() {
    let mut index: Index<Lua> = Index::with_paths(false);
    index.resources.push(resource("one", "/one"));
    let mut file = entry("/one/a.lua");
    file.resource = Some(0);
    file.index.members.push(member("%one:1", "hidden"));
    file.index.members.push(member("plain", "hidden"));
    let id = put(&mut index, file);
    let loose = put(&mut index, entry("/loose.lua"));
    assert_eq!(names(&index.members_of("%one:1", loose)), vec![(id, "hidden".to_string())]);
    assert_eq!(names(&index.members_of("%one:1", 99)), vec![(id, "hidden".to_string())]);
    assert!(index.members_of("plain", loose).is_empty());
    assert!(index.members_of("none", loose).is_empty());
    assert!(index.members_of("", loose).is_empty());
}

#[test]
fn own_tables_are_not_completed_from_libraries() {
    let mut index: Index<Lua> = Index::with_paths(false);
    index.resources.push(resource("app", "/app"));
    index.resources.push(resource("lib", "/lib"));
    let mut file = entry("/app/main.lua");
    file.resource = Some(0);
    let from = put(&mut index, file);
    let mut file = entry("/lib/init.lua");
    file.resource = Some(1);
    file.index.members.push(member("lib", "init"));
    file.index.members.push(member("Config", "theirs"));
    let init = put(&mut index, file);
    let mut file = entry("/lib/extra.lua");
    file.resource = Some(1);
    file.index.members.push(member("lib", "extra"));
    file.index.members.push(member("Config", "more"));
    let extra = put(&mut index, file);
    index.resources[0].imports.push((init, SHARED));
    // A library's table is completed from all its files.
    assert_eq!(
        names(&index.members_of("lib", from)),
        vec![(init, "init".to_string()), (extra, "extra".to_string())]
    );
    // Once the resource fills a table itself, only what is visible counts.
    let mut file = entry("/app/config.lua");
    file.resource = Some(0);
    file.index.members.push(member("Config", "own"));
    let config = put(&mut index, file);
    assert_eq!(
        names(&index.members_of("Config", from)),
        vec![(init, "theirs".to_string()), (config, "own".to_string())]
    );
}

#[test]
fn members_on_other_sides_are_not_reachable() {
    let mut index: Index<Lua> = Index::with_paths(false);
    index.resources.push(resource("one", "/one"));
    let mut file = entry("/one/client.lua");
    file.resource = Some(0);
    file.side = Some(CLIENT);
    let client = put(&mut index, file);
    let mut file = entry("/one/server.lua");
    file.resource = Some(0);
    file.side = Some(SERVER);
    file.index.members.push(member("qbx", "save"));
    let server = put(&mut index, file);
    assert!(index.members_of("qbx", client).is_empty());
    assert_eq!(names(&index.members_of("qbx", server)), vec![(server, "save".to_string())]);
}

#[test]
fn classes_are_looked_up_everywhere() {
    let mut index: Index<Lua> = Index::with_paths(false);
    index.resources.push(resource("one", "/one"));
    let mut file = entry("/one/a.lua");
    file.resource = Some(0);
    file.index.members.push(member("Player", "name"));
    let id = put(&mut index, file);
    let loose = put(&mut index, entry("/loose.lua"));
    assert!(index.members_of("Player", loose).is_empty());
    let mut file = entry("/b.lua");
    file.index.classes.push(class("Player", "first"));
    let b = put(&mut index, file);
    let mut file = entry("/c.lua");
    file.index.classes.push(class("Player", "second"));
    let c = put(&mut index, file);
    assert_eq!(names(&index.members_of("Player", loose)), vec![(id, "name".to_string())]);
    let (file, found) = index.class("Player").unwrap();
    assert_eq!((file, found.doc.as_deref()), (b, Some("first")));
    let all: Vec<(u32, Option<String>)> = index
        .class_defs("Player")
        .into_iter()
        .map(|(id, class)| (id, class.doc.as_deref().map(str::to_string)))
        .collect();
    assert_eq!(
        all,
        vec![(b, Some("first".to_string())), (c, Some("second".to_string()))]
    );
    assert!(index.class_defs("player").is_empty());
}

#[test]
fn aliases_and_class_names() {
    let mut index: Index<Lua> = Index::with_paths(false);
    let mut file = entry("/a.lua");
    file.index.aliases.push(alias("Id", "number"));
    file.index.classes.push(class("Player", "p"));
    file.index.classes.push(class("Vehicle", "v"));
    let a = put(&mut index, file);
    let mut file = entry("/b.lua");
    file.index.aliases.push(alias("Id", "string"));
    put(&mut index, file);
    let (id, found) = index.alias("Id").unwrap();
    assert_eq!((id, found.ty.as_str()), (a, "number"));
    assert!(index.alias("Player").is_none());
    let mut names: Vec<String> =
        index.class_names().into_iter().map(|name| name.to_string()).collect();
    assert_eq!(names[2], "Id");
    names.sort();
    assert_eq!(names, vec!["Id", "Player", "Vehicle"]);
}

#[test]
fn resources_go_by_name_in_any_case() {
    let mut index: Index<Lua> = Index::with_paths(false);
    index.resources.push(resource("ox_lib", "/ox"));
    index.resources.push(resource("OX_LIB", "/other"));
    index.resources.push(resource("stra\u{df}e", "/street"));
    let (id, found) = index.resource_by_name("Ox_Lib").unwrap();
    assert_eq!((id, found.root.as_path()), (0, Path::new("/ox")));
    assert_eq!(index.resource_by_name("STRA\u{df}E").unwrap().0, 2);
    assert!(index.resource_by_name("ox_li").is_none());
    assert!(index.resource_by_name("STRASSE").is_none());
}

#[test]
fn exports_and_events_come_in_order() {
    let mut index: Index<Lua> = Index::with_paths(false);
    index.resources.push(resource("one", "/one"));
    let mut file = entry("/one/a.lua");
    file.resource = Some(0);
    file.index.exports.push(symbol("first"));
    file.index.exports.push(symbol("second"));
    file.index.events.push(event("one:started"));
    let a = put(&mut index, file);
    let mut file = entry("/one/b.lua");
    file.resource = Some(0);
    file.index.exports.push(symbol("third"));
    file.index.events.push(event("one:stopped"));
    let b = put(&mut index, file);
    assert_eq!(
        names(&index.exports_of("ONE")),
        vec![(a, "first".to_string()), (a, "second".to_string()), (b, "third".to_string())]
    );
    assert!(index.exports_of("two").is_empty());
    let events: Vec<(u32, String)> =
        index.events().into_iter().map(|(id, event)| (id, event.name.to_string())).collect();
    assert_eq!(
        events,
        vec![(a, "one:started".to_string()), (b, "one:stopped".to_string())]
    );
}

fn library() -> (Index<Lua>, u32, u32) {
    let mut index: Index<Lua> = Index::with_paths(false);
    index.resources.push(resource("app", "/app"));
    index.resources.push(resource("ox_lib", "/ox"));
    let mut file = entry("/app/main.lua");
    file.resource = Some(0);
    let from = put(&mut index, file);
    let loose = put(&mut index, entry("/loose.lua"));
    for path in [
        "/app/shared/config.lua",
        "/app/shared/init.lua",
        "/app/tools.lua",
        "/app/odd.name.lua",
        "/ox/imports/table.lua",
        "/ox/imports/math/init.lua",
    ] {
        put(&mut index, entry(path));
    }
    (index, from, loose)
}

#[test]
fn modules_are_dotted_or_slashed() {
    let (index, from, loose) = library();
    let config = index.file_id(Path::new("/app/shared/config.lua"));
    assert!(config.is_some());
    assert_eq!(index.resolve_require("shared.config", from), config);
    assert_eq!(index.resolve_require("shared/config", from), config);
    assert_eq!(index.resolve_require("shared/config.lua", from), config);
    assert_eq!(index.resolve_require("shared/config.lua.lua", from), config);
    assert_eq!(
        index.resolve_require("shared", from),
        index.file_id(Path::new("/app/shared/init.lua"))
    );
    assert_eq!(index.resolve_require("tools", from), index.file_id(Path::new("/app/tools.lua")));
    // Without a slash every dot parts directories, also that of an ending.
    assert_eq!(index.resolve_require("tools.lua", from), None);
    assert_eq!(index.resolve_require("odd.name", from), None);
    assert_eq!(index.resolve_require("shared.config", loose), None);
    assert_eq!(index.resolve_require("", from), None);
}

#[test]
fn modules_of_other_resources_are_prefixed() {
    let (index, from, loose) = library();
    let table = index.file_id(Path::new("/ox/imports/table.lua"));
    assert!(table.is_some());
    assert_eq!(index.resolve_require("@ox_lib/imports/table", from), table);
    assert_eq!(index.resolve_require("@ox_lib.imports.table", from), table);
    assert_eq!(index.resolve_require("@OX_LIB/imports.table", loose), table);
    assert_eq!(
        index.resolve_require("@ox_lib/imports/math", from),
        index.file_id(Path::new("/ox/imports/math/init.lua"))
    );
    assert_eq!(index.resolve_require("@ox_lib", from), None);
    assert_eq!(index.resolve_require("@none/imports/table", from), None);
    assert_eq!(index.resolve_require("@", from), None);
}

#[test]
fn copies_of_symbols_hold_the_same() {
    let original = member("lib", "call");
    let copy = original.clone();
    assert_eq!(copy.owner.as_str(), "lib");
    assert_eq!(copy.symbol.name.as_str(), "call");
    assert_eq!(copy.symbol.range, range());
    assert_eq!(copy.symbol.kind, SymbolKind::Variable);
    assert_eq!(copy.symbol.literal.as_deref(), Some("1"));
}

#[test]
fn plain_tables_of_unrelated_resources_stay_apart() {
    let mut index: Index<Lua> = Index::with_paths(false);
    index.resources.push(resource("one", "/one"));
    index.resources.push(resource("two", "/two"));
    let mut file = entry("/one/a.lua");
    file.resource = Some(0);
    let from = put(&mut index, file);
    let mut file = entry("/two/config.lua");
    file.resource = Some(1);
    file.index.members.push(member("Config", "theirs"));
    let theirs = put(&mut index, file);
    assert!(index.members_of("Config", from).is_empty());
    assert!(index.has_members("Config"));
    // A class of that name makes them found everywhere.
    let mut file = entry("/one/class.lua");
    file.resource = Some(0);
    file.index.classes.push(class("Config", "typed"));
    put(&mut index, file);
    assert_eq!(names(&index.members_of("Config", from)), vec![(theirs, "theirs".to_string())]);
}

#[test]
fn resources_are_added_and_changed() {
    let mut index: Index<Lua> = Index::with_paths(false);
    assert_eq!(index.add_resource(resource("one", "/one")), 0);
    assert_eq!(index.add_resource(resource("two", "/two")), 1);
    let mut file = entry("/one/a.lua");
    file.resource = Some(0);
    let from = put(&mut index, file);
    let mut file = entry("/two/b.lua");
    file.resource = Some(1);
    let other = put(&mut index, file);
    assert!(!index.is_visible(from, other));
    index.resource_mut(0).unwrap().imports.push((other, SHARED));
    assert!(index.is_visible(from, other));
    assert_eq!(index.resource(0).unwrap().files, vec![from]);
    assert!(index.resource_mut(2).is_none());
    assert_eq!(index.resource_count(), 2);
}

#[test]
fn modules_stay_below_the_resource_root() {
    let (mut index, from, loose) = library();
    let table = index.file_id(Path::new("/ox/imports/table.lua"));
    assert!(table.is_some());
    // A slash in front does not lead to the file system's root.
    assert_eq!(index.resolve_require("/ox/imports/table", from), None);
    assert_eq!(index.resolve_require(".ox.imports.table", from), None);
    assert_eq!(index.resolve_require("@app//ox/imports/table", loose), None);
    assert_eq!(index.resolve_require("@ox_lib//imports/table", from), table);
    assert_eq!(index.resolve_require("//tools", from), index.file_id(Path::new("/app/tools.lua")));
    assert_eq!(index.resolve_require(".tools", from), index.file_id(Path::new("/app/tools.lua")));
    // The resource itself is required by its own script, not by one at the file system's root.
    let outside = put(&mut index, entry("/init.lua"));
    assert_eq!(index.resolve_require("", from), None);
    assert_eq!(index.resolve_require("@ox_lib/", from), None);
    let own = put(&mut index, entry("/app/init.lua"));
    assert_eq!(index.resolve_require("", from), Some(own));
    assert_eq!(index.resolve_require("/", from), Some(own));
    assert_ne!(own, outside);
}

#[test]
fn windows_modules_name_no_drive() {
    for windows in [true, false] {
        let mut index: Index<Lua> = Index::with_paths(windows);
        index.add_resource(resource("app", "/app"));
        let mut file = entry("/app/main.lua");
        file.resource = Some(0);
        let from = put(&mut index, file);
        let tools = put(&mut index, entry("/app/tools.lua"));
        let drive = put(&mut index, entry("/app/c:x.lua"));
        // A colon further on names no drive.
        let inner = put(&mut index, entry("/app/sub/x:y.lua"));
        assert_eq!(index.resolve_require("sub/x:y", from), Some(inner));
        let number = put(&mut index, entry("/app/1:x.lua"));
        assert_eq!(index.resolve_require("1:x", from), Some(number));
        let back = put(&mut index, entry("/app/\\x.lua"));
        assert_eq!(index.resolve_require("tools", from), Some(tools));
        let found = index.resolve_require("c:x", from);
        assert_eq!(found, if windows { None } else { Some(drive) });
        let found = index.resolve_require("\\x", from);
        assert_eq!(found, if windows { None } else { Some(back) });
    }
}

#[test]
fn files_that_come_and_go_leave_no_trace() {
    let mut index: Index<Lua> = Index::with_paths(false);
    index.add_resource(resource("one", "/one"));
    let stays = put(&mut index, with_globals("/one/a.lua", &["Config", "Config"]));
    let before = names(&index.globals_named("Config", stays));
    let mut passing = with_globals("/one/b.lua", &["Config", "Other"]);
    passing.resource = Some(0);
    put(&mut index, passing);
    index.remove_file(Path::new("/one/b.lua"));
    assert_eq!(names(&index.globals_named("Config", stays)), before);
    assert!(index.globals_named("Other", stays).is_empty());
    assert!(index.resource(0).unwrap().files.is_empty());
    assert_eq!(index.file_count(), 1);
}

#[test]
fn normalizing_twice_is_normalizing_once() {
    for windows in [true, false] {
        for path in ["/Res/A.lua", "C:\\Res/\u{c4}\u{3a3}.LUA", ""] {
            let once = normalize_path_for(windows, Path::new(path));
            assert_eq!(normalize_path_for(windows, &once), once);
        }
    }
}
