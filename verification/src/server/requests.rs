//! What the client asks, and what the server can say without the parser and the linter.
use super::{Server, ServerView};
use crate::documents::{doc_urls, get_doc, url_text, urls, Document};
use crate::paths::path_bytes;
use crate::server_laws::{
    law_notification_methods_are_distinct, law_request_methods_are_distinct,
};
use crate::symbols::{Language, Side};
use crate::text::same_text;
use lsp_types::Url;
use std::path::Path;
use vstd::prelude::*;

verus! {

/// The requests that the server answers.
#[derive(Clone, Copy, Debug, PartialEq, Eq, Structural)]
pub enum RequestKind {
    Completion,
    ResolveCompletionItem,
    Hover,
    SignatureHelp,
    GotoDefinition,
    References,
    DocumentHighlight,
    PrepareRename,
    Rename,
    DocumentSymbol,
    WorkspaceSymbol,
    CodeAction,
    FoldingRange,
    InlayHint,
    SemanticTokensFull,
    Formatting,
    Status,
    Reindex,
    FileInfo,
    Snippets,
}

impl RequestKind {
    /// The method that a request of this kind comes under.
    pub open spec fn method(self) -> Seq<char> {
        match self {
            RequestKind::Completion => "textDocument/completion"@,
            RequestKind::ResolveCompletionItem => "completionItem/resolve"@,
            RequestKind::Hover => "textDocument/hover"@,
            RequestKind::SignatureHelp => "textDocument/signatureHelp"@,
            RequestKind::GotoDefinition => "textDocument/definition"@,
            RequestKind::References => "textDocument/references"@,
            RequestKind::DocumentHighlight => "textDocument/documentHighlight"@,
            RequestKind::PrepareRename => "textDocument/prepareRename"@,
            RequestKind::Rename => "textDocument/rename"@,
            RequestKind::DocumentSymbol => "textDocument/documentSymbol"@,
            RequestKind::WorkspaceSymbol => "workspace/symbol"@,
            RequestKind::CodeAction => "textDocument/codeAction"@,
            RequestKind::FoldingRange => "textDocument/foldingRange"@,
            RequestKind::InlayHint => "textDocument/inlayHint"@,
            RequestKind::SemanticTokensFull => "textDocument/semanticTokens/full"@,
            RequestKind::Formatting => "textDocument/formatting"@,
            RequestKind::Status => "qbx/status"@,
            RequestKind::Reindex => "qbx/reindex"@,
            RequestKind::FileInfo => "qbx/fileInfo"@,
            RequestKind::Snippets => "qbx/snippets"@,
        }
    }

    /// Whether parameters of another shape are refused. The other kinds make do without any.
    pub open spec fn checks_params(self) -> bool {
        !(self is Status || self is Reindex || self is Snippets)
    }

    /// Whether a request of this kind is about a document that has to be open.
    pub open spec fn about_document(self) -> bool {
        &&& self.checks_params()
        &&& !(self is ResolveCompletionItem || self is WorkspaceSymbol || self is FileInfo)
    }

    /// Whether parameters of another shape are refused.
    pub fn refuses_other_params(self) -> (refuses: bool)
        ensures
            refuses == self.checks_params(),
    {
        match self {
            RequestKind::Status | RequestKind::Reindex | RequestKind::Snippets => false,
            _ => true,
        }
    }

    /// Whether a request of this kind is about a document that has to be open.
    pub fn concerns_document(self) -> (concerns: bool)
        ensures
            concerns == self.about_document(),
    {
        match self {
            RequestKind::ResolveCompletionItem
            | RequestKind::WorkspaceSymbol
            | RequestKind::FileInfo => false,
            _ => self.refuses_other_params(),
        }
    }
}

/// The kind of a request, by its method; none for a method that the server does not know.
pub fn request_kind(method: &str) -> (kind: Option<RequestKind>)
    ensures
        kind matches Some(k) ==> method@ == k.method(),
        forall|k: RequestKind| method@ == #[trigger] k.method() ==> kind == Some(k),
{
    let kind = if same_text(method, "textDocument/completion") {
        Some(RequestKind::Completion)
    } else if same_text(method, "completionItem/resolve") {
        Some(RequestKind::ResolveCompletionItem)
    } else if same_text(method, "textDocument/hover") {
        Some(RequestKind::Hover)
    } else if same_text(method, "textDocument/signatureHelp") {
        Some(RequestKind::SignatureHelp)
    } else if same_text(method, "textDocument/definition") {
        Some(RequestKind::GotoDefinition)
    } else if same_text(method, "textDocument/references") {
        Some(RequestKind::References)
    } else if same_text(method, "textDocument/documentHighlight") {
        Some(RequestKind::DocumentHighlight)
    } else if same_text(method, "textDocument/prepareRename") {
        Some(RequestKind::PrepareRename)
    } else if same_text(method, "textDocument/rename") {
        Some(RequestKind::Rename)
    } else if same_text(method, "textDocument/documentSymbol") {
        Some(RequestKind::DocumentSymbol)
    } else if same_text(method, "workspace/symbol") {
        Some(RequestKind::WorkspaceSymbol)
    } else if same_text(method, "textDocument/codeAction") {
        Some(RequestKind::CodeAction)
    } else if same_text(method, "textDocument/foldingRange") {
        Some(RequestKind::FoldingRange)
    } else if same_text(method, "textDocument/inlayHint") {
        Some(RequestKind::InlayHint)
    } else if same_text(method, "textDocument/semanticTokens/full") {
        Some(RequestKind::SemanticTokensFull)
    } else if same_text(method, "textDocument/formatting") {
        Some(RequestKind::Formatting)
    } else if same_text(method, "qbx/status") {
        Some(RequestKind::Status)
    } else if same_text(method, "qbx/reindex") {
        Some(RequestKind::Reindex)
    } else if same_text(method, "qbx/fileInfo") {
        Some(RequestKind::FileInfo)
    } else if same_text(method, "qbx/snippets") {
        Some(RequestKind::Snippets)
    } else {
        None
    };
    proof {
        if let Some(found) = kind {
            assert forall|k: RequestKind| method@ == #[trigger] k.method() implies k == found by {
                law_request_methods_are_distinct(k, found);
            }
        }
    }
    kind
}

/// The notifications that the server takes in.
#[derive(Clone, Copy, Debug, PartialEq, Eq, Structural)]
pub enum NotificationKind {
    DidOpen,
    DidChange,
    DidSave,
    DidClose,
    DidChangeWatchedFiles,
    DidChangeConfiguration,
}

impl NotificationKind {
    /// The method that a notification of this kind comes under.
    pub open spec fn method(self) -> Seq<char> {
        match self {
            NotificationKind::DidOpen => "textDocument/didOpen"@,
            NotificationKind::DidChange => "textDocument/didChange"@,
            NotificationKind::DidSave => "textDocument/didSave"@,
            NotificationKind::DidClose => "textDocument/didClose"@,
            NotificationKind::DidChangeWatchedFiles => "workspace/didChangeWatchedFiles"@,
            NotificationKind::DidChangeConfiguration => "workspace/didChangeConfiguration"@,
        }
    }
}

/// The kind of a notification, by its method; none for a method that the server ignores.
pub fn notification_kind(method: &str) -> (kind: Option<NotificationKind>)
    ensures
        kind matches Some(k) ==> method@ == k.method(),
        forall|k: NotificationKind| method@ == #[trigger] k.method() ==> kind == Some(k),
{
    let kind = if same_text(method, "textDocument/didOpen") {
        Some(NotificationKind::DidOpen)
    } else if same_text(method, "textDocument/didChange") {
        Some(NotificationKind::DidChange)
    } else if same_text(method, "textDocument/didSave") {
        Some(NotificationKind::DidSave)
    } else if same_text(method, "textDocument/didClose") {
        Some(NotificationKind::DidClose)
    } else if same_text(method, "workspace/didChangeWatchedFiles") {
        Some(NotificationKind::DidChangeWatchedFiles)
    } else if same_text(method, "workspace/didChangeConfiguration") {
        Some(NotificationKind::DidChangeConfiguration)
    } else {
        None
    };
    proof {
        if let Some(found) = kind {
            assert forall|k: NotificationKind| method@
                == #[trigger] k.method() implies k == found by {
                law_notification_methods_are_distinct(k, found);
            }
        }
    }
    kind
}

/// The parameters of a request, as far as the server has to read them.
#[derive(Debug)]
pub enum Params {
    /// They are not those of the method.
    Malformed { message: String },
    /// They are those of the method, and name a document.
    Document { uri: Url },
    /// They are those of the method, and name none.
    Other,
}

/// A request, as far as the server has to read it.
#[derive(Debug)]
pub struct Request {
    pub method: String,
    pub params: Params,
}

impl Request {
    /// Well-formed parameters of a request about a document name one.
    pub open spec fn fits(self) -> bool {
        forall|k: RequestKind|
            self.method@ == #[trigger] k.method() && k.about_document() ==> !(self.params is Other)
    }
}

/// What answers a request.
#[derive(Clone, Copy, Debug, PartialEq, Eq, Structural)]
pub enum Task {
    /// The feature of this kind.
    Run(RequestKind),
    /// An empty list of hints: the user switched them off.
    NoInlayHints,
    /// An empty list of tokens: the user switched them off.
    NoSemanticTokens,
}

impl<L: Language> ServerView<L> {
    /// Whether the user switched a kind of request off.
    pub open spec fn switched_off(self, kind: RequestKind) -> bool {
        ||| kind is InlayHint && self.settings.inlay_hints.enable == Some(false)
        ||| kind is SemanticTokensFull && self.settings.semantic_tokens.enable == Some(false)
    }

    /// What answers a request of a known kind, or the text of the error that does.
    pub open spec fn dispatched(self, kind: RequestKind, params: Params) -> Result<Task, Seq<char>> {
        match params {
            Params::Malformed { message } if kind.checks_params() => Err(message@),
            Params::Document { uri } if kind.about_document() => {
                if self.switched_off(kind) {
                    if kind is InlayHint {
                        Ok(Task::NoInlayHints)
                    } else {
                        Ok(Task::NoSemanticTokens)
                    }
                } else if self.docs.contains_key(url_text(uri)) {
                    Ok(Task::Run(kind))
                } else {
                    Err("document is not open: "@ + url_text(uri))
                }
            },
            _ => Ok(Task::Run(kind)),
        }
    }
}

/// The outcome is the expected one, an error by its text.
pub open spec fn is_outcome(
    outcome: Result<Task, String>,
    expected: Result<Task, Seq<char>>,
) -> bool {
    match (outcome, expected) {
        (Ok(task), Ok(wanted)) => task == wanted,
        (Err(message), Err(wanted)) => message@ == wanted,
        _ => false,
    }
}

/// Why a request has no result.
#[derive(Debug)]
pub enum Failure {
    /// The server does not answer it, for this reason.
    Refused { message: String },
    /// The work on it failed half-way.
    Broken,
}

/// What the client is told of a request without a result.
#[derive(Debug)]
pub struct ErrorReply {
    pub code: i32,
    pub message: String,
}

/// The protocol's code for parameters that a request cannot be answered with.
pub const INVALID_PARAMS: i32 = -32602;

/// The protocol's code for a fault of the server.
pub const INTERNAL_ERROR: i32 = -32603;

/// What the client is told of a request without a result.
pub fn error_reply(failure: Failure) -> (reply: ErrorReply)
    ensures
        match failure {
            Failure::Refused { message } => reply.code == INVALID_PARAMS && reply.message@
                == message@,
            Failure::Broken => reply.code == INTERNAL_ERROR && reply.message@ == "internal error"@,
        },
{
    match failure {
        Failure::Refused { message } => ErrorReply { code: INVALID_PARAMS, message },
        Failure::Broken => ErrorReply {
            code: INTERNAL_ERROR,
            message: "internal error".to_owned(),
        },
    }
}

/// What there is to say about the server.
#[derive(Clone, Copy, Debug, PartialEq, Eq, Structural)]
pub struct Status {
    pub files: usize,
    pub resources: usize,
    pub open_documents: usize,
}

/// Where a file runs.
#[derive(Clone, Copy, Debug, PartialEq, Eq, Structural)]
pub enum FileSide {
    /// It is a manifest.
    Manifest,
    /// On a side that its manifest states.
    Side(Side),
    /// Wherever its resource requires it.
    Module,
    /// It belongs to no resource.
    Standalone,
}

/// What there is to say about a file.
#[derive(Debug)]
pub struct FileInfo {
    pub side: FileSide,
    pub resource: Option<String>,
}

/// How a document is indented.
#[derive(Clone, Copy, Debug, PartialEq, Eq, Structural)]
pub struct Indentation {
    pub width: usize,
    pub use_tabs: bool,
}

/// How to indent a document: as the lint settings say; without any, the editor's own indentation
/// settings decide.
pub fn indentation(
    configured: Option<Indentation>,
    tab_size: u32,
    insert_spaces: bool,
) -> (chosen: Indentation)
    ensures
        chosen == match configured {
            Some(found) => found,
            None => Indentation {
                width: if tab_size == 0 {
                    1
                } else {
                    tab_size as usize
                },
                use_tabs: !insert_spaces,
            },
        },
{
    match configured {
        Some(found) => found,
        None => Indentation {
            width: if tab_size == 0 {
                1
            } else {
                tab_size as usize
            },
            use_tabs: !insert_spaces,
        },
    }
}

/// What answers a request to format a document.
#[derive(Debug)]
pub enum FormatReply {
    /// The document is formatted already.
    Unchanged,
    /// Put this in place of the whole document.
    Replace { text: String },
    /// Warn the user, and answer with nothing.
    Warn { message: String },
}

/// What answers a request to format a document, by what the formatter made of it.
pub fn format_reply(current: &str, formatted: Result<String, String>) -> (reply: FormatReply)
    ensures
        match formatted {
            Ok(text) => if text@ == current@ {
                reply is Unchanged
            } else {
                reply matches FormatReply::Replace { text: new } && new@ == text@
            },
            Err(error) => reply matches FormatReply::Warn { message } && message@
                == "Qbox Lua could not format this file: "@ + error@,
        },
{
    match formatted {
        Ok(text) => {
            if same_text(text.as_str(), current) {
                FormatReply::Unchanged
            } else {
                FormatReply::Replace { text }
            }
        },
        Err(error) => FormatReply::Warn {
            message: "Qbox Lua could not format this file: ".to_owned().concat(error.as_str()),
        },
    }
}

impl<L: Language> Server<L> {
    /// The open document at an address, or the text of the error that there is none.
    pub fn doc(&self, uri: &Url) -> (doc: Result<&Document, String>)
        ensures
            doc is Ok <==> self@.docs.contains_key(url_text(*uri)),
            doc matches Ok(found) ==> *found == self@.docs[url_text(*uri)],
            doc matches Err(message) ==> message@ == "document is not open: "@ + url_text(*uri),
    {
        match get_doc(&self.docs, uri) {
            Some(doc) => Ok(doc),
            None => Err("document is not open: ".to_owned().concat(uri.as_str())),
        }
    }

    /// What answers a request, or the text of the error that does.
    pub fn dispatch(&self, request: &Request) -> (task: Result<Task, String>)
        requires
            request.fits(),
        ensures
            forall|k: RequestKind|
                request.method@ == #[trigger] k.method() ==> is_outcome(
                    task,
                    self@.dispatched(k, request.params),
                ),
            (forall|k: RequestKind| request.method@ != #[trigger] k.method()) ==> is_outcome(
                task,
                Err("unsupported request: "@ + request.method@),
            ),
    {
        let kind = match request_kind(request.method.as_str()) {
            Some(kind) => kind,
            None => return Err(
                "unsupported request: ".to_owned().concat(request.method.as_str()),
            ),
        };
        match &request.params {
            Params::Malformed { message } => {
                if kind.refuses_other_params() {
                    return Err(message.clone());
                }
            },
            Params::Document { uri } => {
                if kind.concerns_document() {
                    return self.document_task(kind, uri);
                }
            },
            Params::Other => {},
        }
        Ok(Task::Run(kind))
    }

    /// What answers a request about a document.
    fn document_task(&self, kind: RequestKind, uri: &Url) -> (task: Result<Task, String>)
        requires
            kind.about_document(),
        ensures
            is_outcome(task, self@.dispatched(kind, (Params::Document { uri: *uri }))),
    {
        if kind == RequestKind::InlayHint {
            if let Some(enable) = self.settings.inlay_hints.enable {
                if !enable {
                    return Ok(Task::NoInlayHints);
                }
            }
        }
        if kind == RequestKind::SemanticTokensFull {
            if let Some(enable) = self.settings.semantic_tokens.enable {
                if !enable {
                    return Ok(Task::NoSemanticTokens);
                }
            }
        }
        match self.doc(uri) {
            Ok(_) => Ok(Task::Run(kind)),
            Err(message) => Err(message),
        }
    }

    /// How many files and resources are indexed, and how many documents are open.
    pub fn status(&self) -> (status: Status)
        requires
            self@.index.wf(),
        ensures
            status.files == self@.index.known_files(self@.index.files.len() as int).len(),
            status.resources == self@.index.resources.len(),
            status.open_documents == self@.docs.dom().len(),
    {
        let open = doc_urls(&self.docs);
        proof {
            urls(open@).unique_seq_to_set();
        }
        Status {
            files: self.ws.index.file_count(),
            resources: self.ws.index.resource_count(),
            open_documents: open.len(),
        }
    }

    /// Where a file runs and which resource it belongs to. A document that is no file has neither.
    pub fn file_info(&self, path: Option<&Path>, manifest: bool) -> (info: Result<FileInfo, String>)
        ensures
            info is Ok <==> path is Some,
            info matches Err(message) ==> message@ == "not a file uri"@,
            info matches Ok(info) ==> {
                let id = self@.index.file_id(path_bytes(path->0));
                let side = match id {
                    Some(id) => self@.index.side_of(id),
                    None => None,
                };
                let resource = match id {
                    Some(id) => self@.index.resource_of(id),
                    None => None,
                };
                &&& info.side == if manifest {
                    FileSide::Manifest
                } else if side is Some {
                    FileSide::Side(side->0)
                } else if resource is Some {
                    FileSide::Module
                } else {
                    FileSide::Standalone
                }
                &&& info.resource is Some <==> resource is Some
                &&& info.resource matches Some(name) ==> name@ == (resource->0).name
            },
    {
        let path = match path {
            Some(path) => path,
            None => return Err("not a file uri".to_owned()),
        };
        let mut side: Option<Side> = None;
        let mut name: Option<String> = None;
        if let Some(id) = self.ws.index.file_id(path) {
            if let Some(entry) = self.ws.index.file(id) {
                side = entry.side;
            }
            if let Some(resource) = self.ws.index.resource_of(id) {
                name = Some(resource.name.as_str().to_owned());
            }
        }
        let side = if manifest {
            FileSide::Manifest
        } else {
            match side {
                Some(side) => FileSide::Side(side),
                None => if name.is_some() {
                    FileSide::Module
                } else {
                    FileSide::Standalone
                },
            }
        };
        Ok(FileInfo { side, resource: name })
    }
}

} // verus!
