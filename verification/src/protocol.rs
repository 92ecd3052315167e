//! Plain records of what the language server exchanges with its client.

use crate::syntax_tree::TextRange;
use vstd::prelude::*;

verus! {

/// A position in a document as the client counts it: a line and a
/// character in it, from zero.
#[derive(Clone, Copy, Debug, PartialEq, Eq, Structural)]
pub struct Position {
    pub line: u32,
    pub character: u32,
}

/// A range of a document between two positions.
#[derive(Clone, Copy, Debug, PartialEq, Eq, Structural)]
pub struct PositionRange {
    pub start: Position,
    pub end: Position,
}

/// One change of the content of a document: the text that takes the place
/// of a range. A change without a range cannot be applied.
#[derive(Debug)]
pub struct TextDocumentContentChangeEvent {
    pub range: Option<PositionRange>,
    pub text: String,
}

/// A change, with the characters of its text.
pub struct ChangeFacts {
    pub range: Option<PositionRange>,
    pub text: Seq<char>,
}

impl View for TextDocumentContentChangeEvent {
    type V = ChangeFacts;

    open spec fn view(&self) -> ChangeFacts {
        ChangeFacts { range: self.range, text: self.text@ }
    }
}

/// The changes that a sequence of change events stands for.
pub open spec fn changes_view(s: Seq<TextDocumentContentChangeEvent>) -> Seq<ChangeFacts> {
    s.map_values(|c: TextDocumentContentChangeEvent| c@)
}

/// How severe a diagnostic is.
#[derive(Clone, Copy, Debug, PartialEq, Eq, Structural)]
pub enum DiagnosticSeverity {
    Error,
    Warning,
    Information,
    Hint,
}

/// A problem that is reported to the client.
#[derive(Debug)]
pub struct Diagnostic {
    /// Where the problem stands in the document.
    pub range: TextRange,
    pub severity: DiagnosticSeverity,
    /// The number of the problem; see `DiagnosticsCode`.
    pub code: i32,
    /// Who found the problem.
    pub source: String,
    pub message: String,
}

/// What a [`Diagnostic`] holds, with the characters of its texts.
pub struct DiagnosticFacts {
    pub range: TextRange,
    pub severity: DiagnosticSeverity,
    pub code: int,
    pub source: Seq<char>,
    pub message: Seq<char>,
}

impl View for Diagnostic {
    type V = DiagnosticFacts;

    open spec fn view(&self) -> DiagnosticFacts {
        DiagnosticFacts {
            range: self.range,
            severity: self.severity,
            code: self.code as int,
            source: self.source@,
            message: self.message@,
        }
    }
}

/// The problems that a sequence of diagnostics stands for.
pub open spec fn diagnostics_view(s: Seq<Diagnostic>) -> Seq<DiagnosticFacts> {
    s.map_values(|d: Diagnostic| d@)
}

/// What kind of thing a completion item proposes.
#[derive(Clone, Copy, Debug, PartialEq, Eq, Structural)]
pub enum CompletionItemKind {
    Keyword,
    Field,
    Variable,
}

/// How the text of a completion item is to be read.
#[derive(Clone, Copy, Debug, PartialEq, Eq, Structural)]
pub enum InsertTextFormat {
    PlainText,
    /// The text is a template with numbered places to fill in.
    Snippet,
}

/// How a completion was asked for.
#[derive(Clone, Copy, Debug, PartialEq, Eq, Structural)]
pub enum CompletionTriggerKind {
    /// The user asked for it.
    Invoked,
    /// A character was typed that asks for it.
    TriggerCharacter,
    /// An earlier list of items was incomplete.
    TriggerForIncompleteCompletions,
}

/// How a completion was asked for.
#[derive(Debug)]
pub struct CompletionContext {
    pub trigger_kind: CompletionTriggerKind,
    /// The character that was typed, if one was.
    pub trigger_character: Option<String>,
}

/// One proposal of a completion.
#[derive(Debug)]
pub struct CompletionItem {
    /// What the user sees.
    pub label: String,
    /// What is inserted; the label where this is absent.
    pub insert_text: Option<String>,
    pub insert_text_format: Option<InsertTextFormat>,
    pub kind: Option<CompletionItemKind>,
    pub documentation: Option<String>,
    pub detail: Option<String>,
}

/// The characters of an optional text.
pub open spec fn text_view(text: Option<String>) -> Option<Seq<char>> {
    match text {
        Some(t) => Some(t@),
        None => None,
    }
}

/// What a [`CompletionItem`] holds, with the characters of its texts.
pub struct CompletionFacts {
    pub label: Seq<char>,
    pub insert_text: Option<Seq<char>>,
    pub insert_text_format: Option<InsertTextFormat>,
    pub kind: Option<CompletionItemKind>,
    pub documentation: Option<Seq<char>>,
    pub detail: Option<Seq<char>>,
}

impl View for CompletionItem {
    type V = CompletionFacts;

    open spec fn view(&self) -> CompletionFacts {
        CompletionFacts {
            label: self.label@,
            insert_text: text_view(self.insert_text),
            insert_text_format: self.insert_text_format,
            kind: self.kind,
            documentation: text_view(self.documentation),
            detail: text_view(self.detail),
        }
    }
}

/// The proposals that a sequence of completion items stands for.
pub open spec fn items_view(s: Seq<CompletionItem>) -> Seq<CompletionFacts> {
    s.map_values(|i: CompletionItem| i@)
}

/// A place in a document.
#[derive(Debug)]
pub struct Location {
    /// The address of the document.
    pub uri: String,
    pub range: TextRange,
}

/// What a [`Location`] holds, with the characters of its address.
pub struct LocationFacts {
    pub uri: Seq<char>,
    pub range: TextRange,
}

impl View for Location {
    type V = LocationFacts;

    open spec fn view(&self) -> LocationFacts {
        LocationFacts { uri: self.uri@, range: self.range }
    }
}

/// The places that a sequence of locations stands for.
pub open spec fn locations_view(s: Seq<Location>) -> Seq<LocationFacts> {
    s.map_values(|l: Location| l@)
}

} // verus!
