//! What the server offers the client.
use crate::settings::strings;
use vstd::prelude::*;

verus! {

/// How the client sends edits.
#[derive(Clone, Copy, Debug, PartialEq, Eq, Structural)]
pub enum SyncKind {
    /// The whole text each time.
    Full,
    /// Only what changed.
    Incremental,
}

/// What the server offers the client. The legend of its semantic tokens is the highlighter's to
/// say.
#[derive(Debug)]
pub struct Capabilities {
    pub open_close: bool,
    pub change: SyncKind,
    pub save: bool,
    /// Completion items are completed on demand.
    pub completion_resolve: bool,
    /// The characters that ask for completion.
    pub completion_triggers: Vec<String>,
    pub hover: bool,
    /// The characters that ask for signature help.
    pub signature_triggers: Vec<String>,
    pub definition: bool,
    pub references: bool,
    pub document_highlight: bool,
    pub document_symbol: bool,
    pub workspace_symbol: bool,
    /// Renaming can be tried first.
    pub rename_prepare: bool,
    pub code_action: bool,
    pub folding_range: bool,
    pub inlay_hint: bool,
    pub document_formatting: bool,
    pub semantic_tokens_full: bool,
    pub semantic_tokens_range: bool,
}

/// What the server offers the client.
pub fn capabilities() -> (offered: Capabilities)
    ensures
        offered.open_close,
        offered.change == SyncKind::Incremental,
        offered.save,
        offered.completion_resolve,
        strings(offered.completion_triggers@) == seq!["."@, ":"@, "'"@, "\""@, "@"@, "{"@],
        offered.hover,
        strings(offered.signature_triggers@) == seq!["("@, ","@],
        offered.definition,
        offered.references,
        offered.document_highlight,
        offered.document_symbol,
        offered.workspace_symbol,
        offered.rename_prepare,
        offered.code_action,
        offered.folding_range,
        offered.inlay_hint,
        offered.document_formatting,
        offered.semantic_tokens_full,
        !offered.semantic_tokens_range,
{
    let mut completion_triggers: Vec<String> = Vec::new();
    completion_triggers.push(".".to_owned());
    completion_triggers.push(":".to_owned());
    completion_triggers.push("'".to_owned());
    completion_triggers.push("\"".to_owned());
    completion_triggers.push("@".to_owned());
    completion_triggers.push("{".to_owned());
    assert(strings(completion_triggers@) =~= seq!["."@, ":"@, "'"@, "\""@, "@"@, "{"@]);
    let mut signature_triggers: Vec<String> = Vec::new();
    signature_triggers.push("(".to_owned());
    signature_triggers.push(",".to_owned());
    assert(strings(signature_triggers@) =~= seq!["("@, ","@]);
    Capabilities {
        open_close: true,
        change: SyncKind::Incremental,
        save: true,
        completion_resolve: true,
        completion_triggers,
        hover: true,
        signature_triggers,
        definition: true,
        references: true,
        document_highlight: true,
        document_symbol: true,
        workspace_symbol: true,
        rename_prepare: true,
        code_action: true,
        folding_range: true,
        inlay_hint: true,
        document_formatting: true,
        semantic_tokens_full: true,
        semantic_tokens_range: false,
    }
}

} // verus!
