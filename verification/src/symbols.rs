//! What the index stores about a file and a resource.
use crate::paths::buf_bytes;
use crate::tables::{FileId, ResourceId};
use crate::text::smol_text;
use lsp_types::{Range, Url};
use smol_str::SmolStr;
use std::fmt::Debug;
use std::path::PathBuf;
use std::sync::Arc;
use vstd::prelude::*;

verus! {

/// A stretch of text in a document, as the editor counts it. The index only carries it.
#[verifier::external_type_specification]
#[verifier::external_body]
pub struct ExRange(Range);

/// Cloning a `Range` copies it.
pub assume_specification[ <Range as Clone>::clone ](range: &Range) -> (copy: Range)
    ensures
        copy == *range,
;

/// The address of a document, as the editor names it.
#[verifier::external_type_specification]
#[verifier::external_body]
pub struct ExUrl(Url);

/// The types that the Lua front end attaches to what it finds. The index stores them and hands
/// them back; it never looks inside.
pub trait Language {
    /// The type of a Lua value.
    type Type: Clone + Debug;

    /// The signature of a Lua function.
    type FunType: Clone + Debug;

    /// A parsed resource manifest.
    type Manifest: Debug;

    /// What the linter remembers about a file.
    type Summary: Clone + Debug + Default;
}

/// A side of the game that a script loads on. Which sides there are, and which is available on
/// which, is the natives database's to say: a side is one bit here, next to the bits of the sides
/// that what it declares is available on.
#[derive(Clone, Copy, Debug, PartialEq, Eq, Structural)]
pub struct Side {
    pub code: u64,
    pub available_on: u64,
}

impl Side {
    /// Whether what is declared on this side is available on `side`.
    pub open spec fn reaches(self, side: Side) -> bool {
        self.available_on & side.code != 0
    }

    /// Whether what is declared on this side is available on `side`.
    pub fn is_available_on(self, side: Side) -> (available: bool)
        ensures
            available == self.reaches(side),
    {
        self.available_on & side.code != 0
    }
}

#[derive(Clone, Copy, Debug, PartialEq, Eq, Structural)]
pub enum SymbolKind {
    Function,
    Method,
    Variable,
    Table,
    Field,
    Class,
    Alias,
    Export,
}

#[derive(Clone, Debug)]
pub struct Symbol<L: Language> {
    pub name: SmolStr,
    pub kind: SymbolKind,
    pub ty: L::Type,
    pub doc: Option<Arc<str>>,
    pub deprecated: bool,
    /// Source text of a short literal value, shown in hovers as `name: type = value`.
    pub literal: Option<SmolStr>,
    pub range: Range,
}

#[derive(Clone, Debug)]
pub struct Member<L: Language> {
    pub owner: SmolStr,
    pub symbol: Symbol<L>,
}

#[derive(Clone, Debug)]
pub struct ClassDef<L: Language> {
    pub name: SmolStr,
    pub parents: Vec<SmolStr>,
    pub fields: Vec<Symbol<L>>,
    pub index: Option<(L::Type, L::Type)>,
    pub call: Option<Arc<L::FunType>>,
    pub doc: Option<Arc<str>>,
    pub range: Range,
}

#[derive(Clone, Debug)]
pub struct AliasDef<L: Language> {
    pub name: SmolStr,
    pub ty: L::Type,
    pub doc: Option<Arc<str>>,
    pub range: Range,
}

#[derive(Clone, Copy, Debug, PartialEq, Eq, Structural)]
pub enum EventKind {
    NetEvent,
    Handler,
    Callback,
    Trigger,
}

#[derive(Clone, Debug)]
pub struct EventDef<L: Language> {
    pub name: SmolStr,
    pub kind: EventKind,
    /// The manifest side narrowed by the guard around this registration or trigger.
    pub side: Option<Side>,
    pub handler: Option<Arc<L::FunType>>,
    pub range: Range,
}

#[derive(Clone, Debug)]
pub struct FileIndex<L: Language> {
    pub globals: Vec<Symbol<L>>,
    pub members: Vec<Member<L>>,
    pub classes: Vec<ClassDef<L>>,
    pub aliases: Vec<AliasDef<L>>,
    pub exports: Vec<Symbol<L>>,
    pub events: Vec<EventDef<L>>,
    pub module_return: Option<L::Type>,
    pub convars: Vec<SmolStr>,
    pub state_keys: Vec<SmolStr>,
    /// The file registers exports under names computed at runtime, so the listed ones are not all.
    pub dynamic_exports: bool,
    pub summary: L::Summary,
}

impl<L: Language> Default for FileIndex<L> {
    /// The index of a file that declares nothing. Its summary is the front end's default.
    fn default() -> (empty: Self)
        ensures
            empty.globals.len() == 0,
            empty.members.len() == 0,
            empty.classes.len() == 0,
            empty.aliases.len() == 0,
            empty.exports.len() == 0,
            empty.events.len() == 0,
            empty.module_return is None,
            empty.convars.len() == 0,
            empty.state_keys.len() == 0,
            !empty.dynamic_exports,
            call_ensures(<L::Summary as Default>::default, (), empty.summary),
    {
        FileIndex {
            globals: Vec::new(),
            members: Vec::new(),
            classes: Vec::new(),
            aliases: Vec::new(),
            exports: Vec::new(),
            events: Vec::new(),
            module_return: None,
            convars: Vec::new(),
            state_keys: Vec::new(),
            dynamic_exports: false,
            summary: L::Summary::default(),
        }
    }
}

#[derive(Clone, Copy, Debug, PartialEq, Eq, Structural)]
pub enum FileOrigin {
    Stub,
    Workspace,
    Library,
}

#[derive(Debug)]
pub struct FileEntry<L: Language> {
    pub path: PathBuf,
    pub uri: Url,
    pub origin: FileOrigin,
    pub resource: Option<ResourceId>,
    pub side: Option<Side>,
    pub index: FileIndex<L>,
}

#[derive(Debug)]
pub struct ResourceEntry<L: Language> {
    pub name: SmolStr,
    pub root: PathBuf,
    pub manifest_path: PathBuf,
    pub manifest: L::Manifest,
    pub files: Vec<FileId>,
    /// Files pulled in through `@resource/file.lua` manifest entries, with the side they load on.
    pub imports: Vec<(FileId, Side)>,
    /// Ships a `.fxap` marker or an encrypted file, so part of its code cannot be read.
    pub escrowed: bool,
}

/// What a resource entry holds.
pub ghost struct ResourceView<L: Language> {
    pub name: Seq<char>,
    pub root: Seq<u8>,
    pub manifest_path: Seq<u8>,
    pub manifest: L::Manifest,
    pub files: Seq<FileId>,
    pub imports: Seq<(FileId, Side)>,
    pub escrowed: bool,
}

impl<L: Language> View for ResourceEntry<L> {
    type V = ResourceView<L>;

    open spec fn view(&self) -> ResourceView<L> {
        ResourceView {
            name: smol_text(self.name),
            root: buf_bytes(self.root),
            manifest_path: buf_bytes(self.manifest_path),
            manifest: self.manifest,
            files: self.files@,
            imports: self.imports@,
            escrowed: self.escrowed,
        }
    }
}

/// The lists of a file that have a symbol table.
pub ghost enum Table {
    Globals,
    Members,
    Classes,
    Aliases,
}

impl<L: Language> FileIndex<L> {
    /// The names that the file's entries in a symbol table go by: a member goes by its owner.
    pub open spec fn names(self, table: Table) -> Seq<Seq<char>> {
        match table {
            Table::Globals => self.globals@.map_values(|s: Symbol<L>| smol_text(s.name)),
            Table::Members => self.members@.map_values(|m: Member<L>| smol_text(m.owner)),
            Table::Classes => self.classes@.map_values(|c: ClassDef<L>| smol_text(c.name)),
            Table::Aliases => self.aliases@.map_values(|a: AliasDef<L>| smol_text(a.name)),
        }
    }

    /// The lists are short enough for a slot to number their entries.
    pub open spec fn fits(self) -> bool {
        &&& self.globals.len() <= u32::MAX
        &&& self.members.len() <= u32::MAX
        &&& self.classes.len() <= u32::MAX
        &&& self.aliases.len() <= u32::MAX
    }
}

} // verus!
