//! The markdown events that the layout logic reads, and the parser that
//! produces them from a document's text.

use vstd::prelude::*;
use pulldown_cmark::{Alignment, CodeBlockKind, Event, HeadingLevel, Options, Parser, Tag, TagEnd};

verus! {

/// Heading level, `H1` the largest.
#[derive(Clone, Copy, Debug, PartialEq, Eq)]
pub enum MdHeadingLevel {
    H1,
    H2,
    H3,
    H4,
    H5,
    H6,
}

/// Alignment of a table column.
#[derive(Clone, Copy, Debug, PartialEq, Eq)]
pub enum ColumnAlignment {
    /// No alignment given for the column.
    Unspecified,
    Left,
    Center,
    Right,
}

/// The start of a block or inline element.
#[derive(Clone, Debug)]
pub enum MdTag {
    Paragraph,
    Heading(MdHeadingLevel),
    BlockQuote,
    /// A code block; the language of a fenced block, `None` for an indented one.
    CodeBlock(Option<String>),
    /// A list; the number of the first item of an ordered list.
    List(Option<u64>),
    Item,
    Emphasis,
    Strong,
    Strikethrough,
    /// A link to the destination.
    Link(String),
    Image { url: String, title: String },
    /// A table with the alignment of each column.
    Table(Vec<ColumnAlignment>),
    TableHead,
    TableRow,
    TableCell,
    /// Any element the layout does not treat.
    Other,
}

/// The end of a block or inline element.
#[derive(Clone, Copy, Debug, PartialEq, Eq)]
pub enum MdTagEnd {
    Paragraph,
    Heading,
    BlockQuote,
    CodeBlock,
    List,
    Item,
    Emphasis,
    Strong,
    Strikethrough,
    Link,
    Table,
    TableHead,
    TableRow,
    TableCell,
    /// Any element the layout does not treat.
    Other,
}

/// One markdown event, in document order.
#[derive(Clone, Debug)]
pub enum MdEvent {
    Start(MdTag),
    End(MdTagEnd),
    Text(String),
    /// Inline code.
    Code(String),
    InlineMath(String),
    DisplayMath(String),
    InlineHtml(String),
    SoftBreak,
    HardBreak,
    /// A horizontal rule.
    Rule,
    /// Any event the layout does not treat.
    Other,
}

#[verifier::external_type_specification]
#[verifier::external_body]
pub struct ExEvent<'a>(Event<'a>);

#[verifier::external_type_specification]
#[verifier::external_body]
pub struct ExTag<'a>(Tag<'a>);

#[verifier::external_type_specification]
#[verifier::external_body]
pub struct ExTagEnd(TagEnd);

#[verifier::external_type_specification]
#[verifier::external_body]
pub struct ExAlignment(Alignment);

#[verifier::external_type_specification]
#[verifier::external_body]
pub struct ExHeadingLevel(HeadingLevel);

/// The events that `pulldown_cmark` produces for `text` with tables and math
/// enabled, each converted to the library's event type. The parser is
/// deterministic, so the result is a function of the text; it is named here,
/// not stated.
pub uninterp spec fn markdown_events_of(text: Seq<char>) -> Seq<MdEvent>;

/// `pulldown_cmark::Parser::new_ext` with `ENABLE_TABLES | ENABLE_MATH`, all
/// events collected and converted one for one.
#[verifier::external_body]
pub(crate) fn parse_markdown(text: &str) -> (events: Vec<MdEvent>)
    ensures
        events@ == markdown_events_of(text@),
{
    Parser::new_ext(text, Options::ENABLE_TABLES | Options::ENABLE_MATH).map(md_event).collect()
}

/// Converts one `pulldown_cmark::Event`, variant for variant.
#[verifier::external_body]
fn md_event(e: Event<'_>) -> MdEvent {
    match e {
        Event::Start(t) => MdEvent::Start(md_tag(t)),
        Event::End(t) => MdEvent::End(md_tag_end(t)),
        Event::Text(s) => MdEvent::Text(s.into_string()),
        Event::Code(s) => MdEvent::Code(s.into_string()),
        Event::InlineMath(s) => MdEvent::InlineMath(s.into_string()),
        Event::DisplayMath(s) => MdEvent::DisplayMath(s.into_string()),
        Event::InlineHtml(s) => MdEvent::InlineHtml(s.into_string()),
        Event::SoftBreak => MdEvent::SoftBreak,
        Event::HardBreak => MdEvent::HardBreak,
        Event::Rule => MdEvent::Rule,
        _ => MdEvent::Other,
    }
}

/// Converts one `pulldown_cmark::Tag` that carries data the layout reads,
/// variant for variant; the others go to `md_plain_tag`.
#[verifier::external_body]
fn md_tag(t: Tag<'_>) -> MdTag {
    match t {
        Tag::Heading { level, .. } => MdTag::Heading(md_level(level)),
        Tag::CodeBlock(CodeBlockKind::Fenced(l)) => MdTag::CodeBlock(Some(l.into_string())),
        Tag::CodeBlock(CodeBlockKind::Indented) => MdTag::CodeBlock(None),
        Tag::List(n) => MdTag::List(n),
        Tag::Link { dest_url, .. } => MdTag::Link(dest_url.into_string()),
        Tag::Image { dest_url, title, .. } => MdTag::Image { url: dest_url.into_string(), title: title.into_string() },
        Tag::Table(a) => MdTag::Table(a.into_iter().map(md_alignment).collect()),
        other => md_plain_tag(other),
    }
}

/// Converts one `pulldown_cmark::Tag` without data, variant for variant.
#[verifier::external_body]
fn md_plain_tag(t: Tag<'_>) -> MdTag {
    match t {
        Tag::Paragraph => MdTag::Paragraph,
        Tag::BlockQuote(_) => MdTag::BlockQuote,
        Tag::Item => MdTag::Item,
        Tag::Emphasis => MdTag::Emphasis,
        Tag::Strong => MdTag::Strong,
        Tag::Strikethrough => MdTag::Strikethrough,
        Tag::TableHead => MdTag::TableHead,
        Tag::TableRow => MdTag::TableRow,
        Tag::TableCell => MdTag::TableCell,
        _ => MdTag::Other,
    }
}

/// Converts one `pulldown_cmark::TagEnd` of a block, variant for variant.
#[verifier::external_body]
fn md_tag_end(t: TagEnd) -> MdTagEnd {
    match t {
        TagEnd::Paragraph => MdTagEnd::Paragraph,
        TagEnd::Heading(_) => MdTagEnd::Heading,
        TagEnd::BlockQuote(_) => MdTagEnd::BlockQuote,
        TagEnd::CodeBlock => MdTagEnd::CodeBlock,
        TagEnd::List(_) => MdTagEnd::List,
        TagEnd::Item => MdTagEnd::Item,
        TagEnd::Link => MdTagEnd::Link,
        other => md_inline_or_table_end(other),
    }
}

/// Converts one `pulldown_cmark::TagEnd` of an inline element or a table,
/// variant for variant.
#[verifier::external_body]
fn md_inline_or_table_end(t: TagEnd) -> MdTagEnd {
    match t {
        TagEnd::Emphasis => MdTagEnd::Emphasis,
        TagEnd::Strong => MdTagEnd::Strong,
        TagEnd::Strikethrough => MdTagEnd::Strikethrough,
        TagEnd::Table => MdTagEnd::Table,
        TagEnd::TableHead => MdTagEnd::TableHead,
        TagEnd::TableRow => MdTagEnd::TableRow,
        TagEnd::TableCell => MdTagEnd::TableCell,
        _ => MdTagEnd::Other,
    }
}

/// Converts a `pulldown_cmark::Alignment`, variant for variant.
#[verifier::external_body]
fn md_alignment(a: Alignment) -> ColumnAlignment {
    match a {
        Alignment::None => ColumnAlignment::Unspecified,
        Alignment::Left => ColumnAlignment::Left,
        Alignment::Center => ColumnAlignment::Center,
        Alignment::Right => ColumnAlignment::Right,
    }
}

/// Converts a `pulldown_cmark::HeadingLevel`, variant for variant.
#[verifier::external_body]
fn md_level(l: HeadingLevel) -> MdHeadingLevel {
    match l {
        HeadingLevel::H1 => MdHeadingLevel::H1,
        HeadingLevel::H2 => MdHeadingLevel::H2,
        HeadingLevel::H3 => MdHeadingLevel::H3,
        HeadingLevel::H4 => MdHeadingLevel::H4,
        HeadingLevel::H5 => MdHeadingLevel::H5,
        HeadingLevel::H6 => MdHeadingLevel::H6,
    }
}

} // verus!
