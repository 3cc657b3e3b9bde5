//! The event vocabulary a tokenizer produces and the walker consumes.
//!
//! The tokenizer names syntax, never meaning: a `ContainerDirectiveStart`
//! says a `:::name[…]{…}` opener was seen, not that any handler exists for
//! `name`. The shape follows CommonMark's `Start(Tag)` / `End(TagEnd)` plus
//! leaf events, extended with directives and whole code blocks.

use vstd::prelude::*;
use crate::backend::{AlertKind, Alignment};
use crate::code_block::FenceAttrs;
use crate::directive::args::DirectiveArgs;

verus! {

/// Which of the two link shapes the walker renders.
#[derive(Debug, Clone, Copy, PartialEq, Eq)]
pub enum LinkKind {
    /// `[[target]]`; `has_pothole` for `[[target|display]]`, whose display
    /// text arrives as ordinary text.
    Wiki { has_pothole: bool },
    /// Any other link.
    Other,
}

/// The start of a nesting construct.
#[derive(Debug)]
pub enum Tag {
    Paragraph,
    /// Level 1..=6.
    Heading { level: u8 },
    /// `Some(n)` for an ordered list starting at `n`, `None` for unordered.
    List(Option<u64>),
    Item,
    /// `Some(kind)` for a GitHub-style alert, `None` for a plain blockquote.
    BlockQuote(Option<AlertKind>),
    Table(Vec<Alignment>),
    TableHead,
    TableRow,
    TableCell,
    DefinitionList,
    DefinitionListTitle,
    DefinitionListDefinition,
    Emphasis,
    Strong,
    Strikethrough,
    Superscript,
    Subscript,
    Link { kind: LinkKind, dest_url: String },
    Image { dest_url: String, title: String },
}

/// The end of a nesting construct. `List` carries whether it was ordered.
#[derive(Debug, Clone, Copy, PartialEq, Eq)]
pub enum TagEnd {
    Paragraph,
    Heading,
    List(bool),
    Item,
    BlockQuote,
    Table,
    TableHead,
    TableRow,
    TableCell,
    DefinitionList,
    DefinitionListTitle,
    DefinitionListDefinition,
    Emphasis,
    Strong,
    Strikethrough,
    Superscript,
    Subscript,
    Link,
    Image,
}

/// One inline directive occurrence: its name, its arguments and the exact
/// source it was written as.
#[derive(Debug)]
pub struct InlineDirectivePayload {
    pub name: String,
    pub args: DirectiveArgs,
    /// What an unclaimed directive is written back as.
    pub raw: String,
}

/// One leaf or container-opening directive occurrence.
#[derive(Debug)]
pub struct BlockDirectivePayload {
    pub name: String,
    pub args: DirectiveArgs,
}

/// A code block and its body.
#[derive(Debug)]
pub struct CodeBlockPayload {
    /// The fence language; `None` for a bare fence.
    pub language: Option<String>,
    pub attrs: FenceAttrs,
    pub source: String,
}

/// A single syntactic event.
#[derive(Debug)]
pub enum Event {
    Start(Tag),
    End(TagEnd),
    Text(String),
    Code(String),
    /// Raw HTML, block or inline.
    RawHtml(String),
    SoftBreak,
    HardBreak,
    Rule,
    TaskListMarker(bool),
    /// `:name[content]{attrs}` seen in a text run.
    InlineDirective(InlineDirectivePayload),
    /// `::name[content]{attrs}` occupying a whole paragraph.
    LeafDirective(BlockDirectivePayload),
    /// `:::name[content]{attrs}` opening a container.
    ContainerDirectiveStart(BlockDirectivePayload),
    /// The close of a container: written (`implicit` false) or supplied at
    /// a block or document boundary for one left open (`implicit` true).
    /// `name` is the directive it closes, when known; `colon_count` is how
    /// many colons a written close had.
    ContainerDirectiveEnd { name: Option<String>, colon_count: usize, implicit: bool },
    /// A fenced or indented code block, body included.
    CodeBlock(CodeBlockPayload),
}

} // verus!
