//! The input data model: structural markdown events, produced by an upstream
//! parser. The renderer treats the sequence as opaque, finite, and possibly
//! adversarial. All text payloads are UTF-8 byte strings.

use vstd::prelude::*;

verus! {

/// Column alignment of one table column.
#[derive(Clone, Copy, PartialEq, Eq, Structural)]
pub enum Align {
    /// No alignment was declared for the column.
    Unset,
    Left,
    Center,
    Right,
}

/// The structural construct a start or end event opens or closes. Start/end
/// pairs are assumed well formed and properly nested by the upstream producer;
/// the renderer does not validate this beyond a depth counter.
pub enum Tag {
    Paragraph,
    Rule,
    /// Heading with its level (1 to 6).
    Header(u8),
    /// Table with its column alignment list.
    Table(Vec<Align>),
    TableHead,
    TableRow,
    TableCell,
    BlockQuote,
    /// Fenced code block with its info string.
    CodeBlock(Vec<u8>),
    /// A list: `Some(n)` for an ordered list starting at `n`, `None` for an
    /// unordered list.
    List(Option<u64>),
    Item,
    Emphasis,
    Strong,
    Code,
    /// Link with destination and title (an empty title is omitted).
    Link(Vec<u8>, Vec<u8>),
    /// Image with destination and title (an empty title is omitted).
    Image(Vec<u8>, Vec<u8>),
    /// Footnote definition block, by footnote name.
    FootnoteDefinition(Vec<u8>),
}

/// One structural token from the upstream parsing stage.
pub enum Event {
    Start(Tag),
    End(Tag),
    /// A run of literal text; the producer may split a logical run over
    /// several adjacent events.
    Text(Vec<u8>),
    /// Trusted raw HTML, block form; appended to the output verbatim.
    Html(Vec<u8>),
    /// Trusted raw HTML, inline form; appended to the output verbatim.
    InlineHtml(Vec<u8>),
    SoftBreak,
    HardBreak,
    /// Reference to a footnote, by footnote name.
    FootnoteReference(Vec<u8>),
}

} // verus!
