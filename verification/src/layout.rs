//! The decisions of the markdown layout: for each markdown event, which text
//! flow operations to perform and how the document state changes (block
//! spacing, list numbering, heading anchors, code and splash blocks, table
//! cells, inline HTML).
//!
//! The text flow itself draws; it is reached through [`LayoutSurface`]. The
//! layout is generic over the coordinate type `P` of heading positions.

use vstd::prelude::*;
use crate::events::{ColumnAlignment, MdEvent, MdHeadingLevel, MdTag, MdTagEnd};
use crate::slug::{
    assigned_suffix, decimal, heading_slug, lemma_assign_keeps_consistent,
    lemma_consistent_counters_bounded, push_decimal, registry_consistent, slug_base,
    slug_candidate, slug_call, slug_run, EmittedSlugs, SlugCounters,
};
use crate::text::{
    ascii_lower_char, ascii_lowercase, is_ascii_upper, is_white_space, string_push, to_ascii_lowercase, trim_end_white_space, trim_start_white_space,
    trim_trailing_newlines, trim_white_space, without_trailing_newlines,
};

verus! {

/// The gap left before a block that is not the first of the document.
#[derive(Clone, Copy, Debug, PartialEq, Eq)]
pub enum BlockSpacing {
    /// The paragraph spacing.
    Paragraph,
    /// The spacing before a code block.
    PreCode,
}

/// A raised or lowered script.
#[derive(Clone, Copy, Debug, PartialEq, Eq)]
pub enum ScriptShift {
    Sub,
    Sup,
}

/// A text style that is pushed and popped.
#[derive(Clone, Copy, Debug, PartialEq, Eq)]
pub enum TextStyle {
    Bold,
    Italic,
    Underline,
    Fixed,
    InlineCode,
}

/// A widget embedded in the text flow.
#[derive(Clone, Copy, Debug, PartialEq, Eq)]
pub enum EmbeddedWidget {
    /// A `runsplash` block, given its source.
    SplashBlock,
    /// A code view, given its code; also registered for selection.
    CodeBlock,
    InlineMath,
    DisplayMath,
}

/// A text flow operation without text.
#[derive(Clone, Copy, Debug, PartialEq, Eq)]
pub enum PlainOp {
    /// Break the line; with a spacing, also leave that gap.
    NewLine(Option<BlockSpacing>),
    PushStyle(TextStyle),
    PopStyle(TextStyle),
    /// Push the absolute font size of a heading.
    PushHeadingSize(MdHeadingLevel),
    /// Push the relative font size of code.
    PushCodeSize,
    /// Pop the last font size.
    PopFontSize,
    /// Push the font size and baseline shift of a script.
    PushScript(ScriptShift),
    /// Pop the font size and baseline shift of a script.
    PopScript,
    PushCombineSpaces(bool),
    PopCombineSpaces,
    BeginQuote,
    EndQuote,
    EndListItem,
    BeginCode,
    EndCode,
    /// A horizontal separator.
    Separator,
    /// Begin a table with this many columns.
    BeginTable(usize),
    EndTable,
    /// Begin the header row; the flow is in its header until `EndTableRow`
    /// of the header.
    BeginTableHeaderRow,
    BeginTableRow,
    EndTableRow,
    BeginTableCell(ColumnAlignment),
    EndTableCell,
}

/// One text flow operation.
#[derive(Clone, Debug)]
pub enum LayoutOp {
    Plain(PlainOp),
    /// Draw text.
    Text(String),
    /// Begin a list item with this marker.
    ListItem(String),
    /// Draw a link item with this id and destination.
    Link(u64, String),
    /// Draw an embedded widget with this text.
    Widget(EmbeddedWidget, String),
}

/// A text flow operation, with its text as a sequence of chars.
pub enum OpView {
    Plain(PlainOp),
    Text(Seq<char>),
    ListItem(Seq<char>),
    Link(u64, Seq<char>),
    Widget(EmbeddedWidget, Seq<char>),
}

impl View for LayoutOp {
    type V = OpView;

    open spec fn view(&self) -> OpView {
        match self {
            LayoutOp::Plain(p) => OpView::Plain(*p),
            LayoutOp::Text(s) => OpView::Text(s@),
            LayoutOp::ListItem(s) => OpView::ListItem(s@),
            LayoutOp::Link(id, s) => OpView::Link(*id, s@),
            LayoutOp::Widget(w, s) => OpView::Widget(*w, s@),
        }
    }
}

/// The operations a list of layout operations stands for.
pub open spec fn ops_view(ops: Seq<LayoutOp>) -> Seq<OpView> {
    ops.map_values(|o: LayoutOp| o@)
}

/// The state of a list at a given nesting level.
#[derive(Clone, Copy, Debug, PartialEq, Eq)]
pub struct ListState {
    /// Current item number for ordered lists.
    pub current_number: u64,
    /// Start number for ordered lists, `None` for unordered.
    pub start_number: Option<u64>,
}

/// The widget options the layout reads.
#[derive(Clone, Copy, Debug, PartialEq, Eq)]
pub struct LayoutConfig {
    /// Draw code blocks as code view widgets.
    pub use_code_block_widget: bool,
    /// Draw math as math widgets.
    pub use_math_widget: bool,
}

/// The state of the layout of one document.
pub struct LayoutState<P> {
    config: LayoutConfig,
    list_stack: Vec<ListState>,
    is_first_block: bool,
    heading: Option<(String, Option<P>)>,
    prior: SlugCounters,
    emitted: EmittedSlugs,
    anchors: Vec<(String, P)>,
    table_alignments: Vec<ColumnAlignment>,
    table_cell_index: usize,
    in_table_header: bool,
    in_code_block: bool,
    code_block_string: String,
    in_splash_block: bool,
    splash_block_string: String,
    auto_id: u64,
}

/// The state of the layout of one document, as values.
#[verifier::ext_equal]
pub struct LayoutModel<P> {
    pub config: LayoutConfig,
    pub list_stack: Seq<ListState>,
    pub is_first_block: bool,
    /// The heading being laid out: its text so far and its position once known.
    pub heading: Option<(Seq<char>, Option<P>)>,
    pub counters: Map<Seq<char>, usize>,
    pub emitted: Set<Seq<char>>,
    /// The anchor of each heading laid out: its slug and position.
    pub anchors: Seq<(Seq<char>, P)>,
    pub table_alignments: Seq<ColumnAlignment>,
    pub table_cell_index: nat,
    pub in_table_header: bool,
    pub in_code_block: bool,
    pub code_block: Seq<char>,
    pub in_splash_block: bool,
    pub splash_block: Seq<char>,
    /// The id of the last link drawn.
    pub auto_id: nat,
}

/// The plain operation `p`.
pub open spec fn plain(p: PlainOp) -> OpView {
    OpView::Plain(p)
}

/// The gap before a block: none before the first block of the document.
pub open spec fn block_gap<P>(m: LayoutModel<P>, s: BlockSpacing) -> Seq<OpView> {
    if m.is_first_block {
        Seq::empty()
    } else {
        seq![plain(PlainOp::NewLine(Some(s)))]
    }
}

/// The heading being laid out, with `t` appended to its text.
pub open spec fn heading_with<P>(h: Option<(Seq<char>, Option<P>)>, t: Seq<char>) -> Option<(Seq<char>, Option<P>)> {
    match h {
        Some((x, y)) => Some((x + t, y)),
        None => None,
    }
}

/// Whether the innermost list is ordered.
pub open spec fn in_ordered_list(stack: Seq<ListState>) -> bool {
    stack.len() > 0 && stack.last().start_number is Some
}

/// The marker of the next item: its number and a dot in an ordered list, a
/// bullet otherwise.
pub open spec fn item_marker(stack: Seq<ListState>) -> Seq<char> {
    if in_ordered_list(stack) {
        decimal(stack.last().current_number as nat) + seq!['.']
    } else {
        seq!['•']
    }
}

/// The list stack after an item: an ordered list counts one up.
pub open spec fn stack_after_item(stack: Seq<ListState>) -> Seq<ListState> {
    if in_ordered_list(stack) {
        stack.update(
            stack.len() - 1,
            ListState { current_number: (stack.last().current_number + 1) as u64, ..stack.last() },
        )
    } else {
        stack
    }
}

/// The operations that draw inline code.
pub open spec fn inline_code_ops(t: Seq<char>) -> Seq<OpView> {
    seq![
        plain(PlainOp::PushCodeSize),
        plain(PlainOp::PushStyle(TextStyle::Fixed)),
        plain(PlainOp::PushStyle(TextStyle::InlineCode)),
        OpView::Text(t),
        plain(PlainOp::PopFontSize),
        plain(PlainOp::PopStyle(TextStyle::Fixed)),
        plain(PlainOp::PopStyle(TextStyle::InlineCode)),
    ]
}

/// The normalized form of an inline HTML tag: trimmed and ASCII-lowercased.
pub open spec fn html_tag(t: Seq<char>) -> Seq<char> {
    ascii_lowercase(trim_start_white_space(trim_end_white_space(t)))
}

/// The alignment of the current table cell; unspecified past the last column.
pub open spec fn cell_alignment<P>(m: LayoutModel<P>) -> ColumnAlignment {
    if m.table_cell_index < m.table_alignments.len() {
        m.table_alignments[m.table_cell_index as int]
    } else {
        ColumnAlignment::Unspecified
    }
}

/// What the start of an element does.
pub open spec fn step_start<P>(m: LayoutModel<P>, tag: MdTag) -> (LayoutModel<P>, Seq<OpView>) {
    match tag {
        MdTag::Heading(level) => (
            LayoutModel { is_first_block: false, heading: Some((Seq::empty(), None)), ..m },
            block_gap(m, BlockSpacing::Paragraph) + seq![
                plain(PlainOp::PushHeadingSize(level)),
                plain(PlainOp::PushStyle(TextStyle::Bold)),
            ],
        ),
        MdTag::Paragraph => (
            LayoutModel { is_first_block: false, ..m },
            block_gap(m, BlockSpacing::Paragraph),
        ),
        MdTag::BlockQuote => (
            LayoutModel { is_first_block: false, ..m },
            block_gap(m, BlockSpacing::Paragraph) + seq![plain(PlainOp::BeginQuote)],
        ),
        MdTag::List(first) => (
            LayoutModel {
                list_stack: m.list_stack.push(
                    ListState {
                        start_number: first,
                        current_number: match first {
                            Some(n) => n,
                            None => 1,
                        },
                    },
                ),
                ..m
            },
            Seq::empty(),
        ),
        MdTag::Item => (
            LayoutModel { is_first_block: false, list_stack: stack_after_item(m.list_stack), ..m },
            (if m.is_first_block {
                Seq::empty()
            } else {
                seq![plain(PlainOp::NewLine(None))]
            }) + seq![OpView::ListItem(item_marker(m.list_stack))],
        ),
        MdTag::Emphasis => (m, seq![plain(PlainOp::PushStyle(TextStyle::Italic))]),
        MdTag::Strong => (m, seq![plain(PlainOp::PushStyle(TextStyle::Bold))]),
        MdTag::Strikethrough => (m, seq![plain(PlainOp::PushStyle(TextStyle::Underline))]),
        MdTag::Link(url) => (
            LayoutModel { auto_id: m.auto_id + 1, ..m },
            seq![OpView::Link((m.auto_id + 1) as u64, url@)],
        ),
        MdTag::Image { url, title } => (
            m,
            seq![
                OpView::Text("Image[name:"@),
                OpView::Text(title@),
                OpView::Text(", url:"@),
                OpView::Text(url@),
                OpView::Text("]"@),
            ],
        ),
        MdTag::CodeBlock(lang) => {
            let gap = block_gap(m, BlockSpacing::PreCode);
            let m1 = LayoutModel { is_first_block: false, ..m };
            if lang matches Some(l) && l@ == "runsplash"@ {
                (LayoutModel { in_splash_block: true, splash_block: Seq::empty(), ..m1 }, gap)
            } else if m.config.use_code_block_widget {
                (LayoutModel { in_code_block: true, code_block: Seq::empty(), ..m1 }, gap)
            } else {
                (
                    m1,
                    gap + seq![
                        plain(PlainOp::PushCodeSize),
                        plain(PlainOp::PushCombineSpaces(false)),
                        plain(PlainOp::PushStyle(TextStyle::Fixed)),
                        plain(PlainOp::BeginCode),
                    ],
                )
            }
        },
        MdTag::Table(aligns) => (
            LayoutModel { is_first_block: false, table_alignments: aligns@, table_cell_index: 0, ..m },
            block_gap(m, BlockSpacing::Paragraph) + seq![plain(PlainOp::BeginTable(aligns@.len() as usize))],
        ),
        MdTag::TableHead => (
            LayoutModel { table_cell_index: 0, in_table_header: true, ..m },
            seq![plain(PlainOp::BeginTableHeaderRow)],
        ),
        MdTag::TableRow => (
            LayoutModel { table_cell_index: 0, ..m },
            seq![plain(PlainOp::BeginTableRow)],
        ),
        MdTag::TableCell => (
            m,
            seq![plain(PlainOp::BeginTableCell(cell_alignment(m)))] + if m.in_table_header {
                seq![plain(PlainOp::PushStyle(TextStyle::Bold))]
            } else {
                Seq::empty()
            },
        ),
        MdTag::Other => (m, Seq::empty()),
    }
}

/// What the end of a heading does to the anchors and the slug registry: the
/// heading's text gets the next free anchor, recorded with its position.
pub open spec fn close_heading<P>(m: LayoutModel<P>) -> LayoutModel<P> {
    match m.heading {
        Some((text, y)) => {
            let base = slug_base(text);
            let k = assigned_suffix(base, m.counters, m.emitted);
            let slug = slug_candidate(base, k);
            LayoutModel {
                heading: None,
                counters: m.counters.insert(base, (k + 1) as usize),
                emitted: m.emitted.insert(slug),
                anchors: match y {
                    Some(y) => m.anchors.push((slug, y)),
                    None => m.anchors,
                },
                ..m
            }
        },
        None => m,
    }
}

/// What the end of an element does.
pub open spec fn step_end<P>(m: LayoutModel<P>, tag: MdTagEnd) -> (LayoutModel<P>, Seq<OpView>) {
    match tag {
        MdTagEnd::Heading => (
            close_heading(m),
            seq![
                plain(PlainOp::PopStyle(TextStyle::Bold)),
                plain(PlainOp::PopFontSize),
                plain(PlainOp::NewLine(None)),
            ],
        ),
        MdTagEnd::BlockQuote => (m, seq![plain(PlainOp::EndQuote)]),
        MdTagEnd::List => (
            LayoutModel {
                list_stack: if m.list_stack.len() > 0 {
                    m.list_stack.drop_last()
                } else {
                    m.list_stack
                },
                ..m
            },
            Seq::empty(),
        ),
        MdTagEnd::Item => (m, seq![plain(PlainOp::EndListItem)]),
        MdTagEnd::Emphasis => (m, seq![plain(PlainOp::PopStyle(TextStyle::Italic))]),
        MdTagEnd::Strong => (m, seq![plain(PlainOp::PopStyle(TextStyle::Bold))]),
        MdTagEnd::Strikethrough => (m, seq![plain(PlainOp::PopStyle(TextStyle::Underline))]),
        MdTagEnd::CodeBlock => {
            if m.in_splash_block {
                (
                    LayoutModel { in_splash_block: false, ..m },
                    seq![OpView::Widget(EmbeddedWidget::SplashBlock, m.splash_block)],
                )
            } else if m.in_code_block {
                (
                    LayoutModel { in_code_block: false, ..m },
                    seq![OpView::Widget(EmbeddedWidget::CodeBlock, m.code_block)],
                )
            } else {
                (
                    m,
                    seq![
                        plain(PlainOp::PopFontSize),
                        plain(PlainOp::PopStyle(TextStyle::Fixed)),
                        plain(PlainOp::PopCombineSpaces),
                        plain(PlainOp::EndCode),
                    ],
                )
            }
        },
        MdTagEnd::Table => (
            LayoutModel { table_alignments: Seq::empty(), table_cell_index: 0, ..m },
            seq![plain(PlainOp::EndTable), plain(PlainOp::NewLine(Some(BlockSpacing::Paragraph)))],
        ),
        MdTagEnd::TableHead => (
            LayoutModel { in_table_header: false, ..m },
            seq![plain(PlainOp::EndTableRow)],
        ),
        MdTagEnd::TableRow => (m, seq![plain(PlainOp::EndTableRow)]),
        MdTagEnd::TableCell => (
            LayoutModel { table_cell_index: m.table_cell_index + 1, ..m },
            (if m.in_table_header {
                seq![plain(PlainOp::PopStyle(TextStyle::Bold))]
            } else {
                Seq::empty()
            }) + seq![plain(PlainOp::EndTableCell)],
        ),
        _ => (m, Seq::empty()),
    }
}

/// What a line break does inside a splash or code block (a newline), or
/// elsewhere (`outside`).
pub open spec fn step_break<P>(m: LayoutModel<P>, outside: OpView) -> (LayoutModel<P>, Seq<OpView>) {
    let m1 = LayoutModel { heading: heading_with(m.heading, seq![' ']), ..m };
    if m.in_splash_block {
        (LayoutModel { splash_block: m.splash_block.push('\n'), ..m1 }, Seq::empty())
    } else if m.in_code_block {
        (LayoutModel { code_block: m.code_block.push('\n'), ..m1 }, Seq::empty())
    } else {
        (m1, seq![outside])
    }
}

/// What one markdown event does: the next layout state and the text flow
/// operations to perform, in order.
pub open spec fn layout_step<P>(m: LayoutModel<P>, ev: MdEvent) -> (LayoutModel<P>, Seq<OpView>) {
    match ev {
        MdEvent::Start(tag) => step_start(m, tag),
        MdEvent::End(tag) => step_end(m, tag),
        MdEvent::Code(t) => (
            LayoutModel { heading: heading_with(m.heading, t@), ..m },
            inline_code_ops(t@),
        ),
        MdEvent::InlineMath(t) => (
            m,
            if m.config.use_math_widget {
                seq![OpView::Widget(EmbeddedWidget::InlineMath, t@)]
            } else {
                inline_code_ops(t@)
            },
        ),
        MdEvent::DisplayMath(t) => (
            LayoutModel { is_first_block: false, ..m },
            block_gap(m, BlockSpacing::Paragraph) + if m.config.use_math_widget {
                seq![OpView::Widget(EmbeddedWidget::DisplayMath, t@)]
            } else {
                seq![
                    plain(PlainOp::BeginCode),
                    plain(PlainOp::PushStyle(TextStyle::Fixed)),
                    OpView::Text(t@),
                    plain(PlainOp::PopStyle(TextStyle::Fixed)),
                    plain(PlainOp::EndCode),
                ]
            },
        ),
        MdEvent::Text(t) => {
            let m1 = LayoutModel { heading: heading_with(m.heading, t@), ..m };
            if m.in_splash_block {
                (LayoutModel { splash_block: m.splash_block + t@, ..m1 }, Seq::empty())
            } else if m.in_code_block {
                (LayoutModel { code_block: m.code_block + t@, ..m1 }, Seq::empty())
            } else {
                (m1, seq![OpView::Text(without_trailing_newlines(t@))])
            }
        },
        MdEvent::SoftBreak => step_break(m, OpView::Text(seq![' '])),
        MdEvent::HardBreak => step_break(m, plain(PlainOp::NewLine(None))),
        MdEvent::Rule => (
            LayoutModel { is_first_block: false, ..m },
            block_gap(m, BlockSpacing::Paragraph) + seq![
                plain(PlainOp::Separator),
                plain(PlainOp::NewLine(Some(BlockSpacing::Paragraph))),
            ],
        ),
        MdEvent::InlineHtml(t) => {
            let tag = html_tag(t@);
            (
                m,
                if tag == "<sub>"@ {
                    seq![plain(PlainOp::PushScript(ScriptShift::Sub))]
                } else if tag == "<sup>"@ {
                    seq![plain(PlainOp::PushScript(ScriptShift::Sup))]
                } else if tag == "</sub>"@ || tag == "</sup>"@ {
                    seq![plain(PlainOp::PopScript)]
                } else {
                    Seq::empty()
                },
            )
        },
        MdEvent::Other => (m, Seq::empty()),
    }
}

/// Whether an event can be laid out without a counter overflowing: the item
/// number of an ordered list, the link id, the table cell index, and the
/// slug counters (bounded by the number of emitted anchors).
pub open spec fn steppable<P>(m: LayoutModel<P>, ev: MdEvent) -> bool {
    match ev {
        MdEvent::Start(MdTag::Item) => in_ordered_list(m.list_stack) ==> m.list_stack.last().current_number < u64::MAX,
        MdEvent::Start(MdTag::Link(_)) => m.auto_id < u64::MAX,
        MdEvent::End(MdTagEnd::TableCell) => m.table_cell_index < usize::MAX,
        MdEvent::End(MdTagEnd::Heading) => m.heading is Some ==> 2 * m.emitted.len() + 1 < usize::MAX,
        _ => true,
    }
}

/// A state at the start of a document.
pub open spec fn initial_model<P>(config: LayoutConfig, auto_id: nat) -> LayoutModel<P> {
    LayoutModel {
        config,
        list_stack: Seq::empty(),
        is_first_block: true,
        heading: None,
        counters: Map::empty(),
        emitted: Set::empty(),
        anchors: Seq::empty(),
        table_alignments: Seq::empty(),
        table_cell_index: 0,
        in_table_header: false,
        in_code_block: false,
        code_block: Seq::empty(),
        in_splash_block: false,
        splash_block: Seq::empty(),
        auto_id,
    }
}

/// Appends one operation.
fn emit(ops: &mut Vec<LayoutOp>, op: LayoutOp)
    ensures
        ops_view(final(ops)@) == ops_view(old(ops)@).push(op@),
{
    let ghost before = ops@;
    ops.push(op);
    assert(ops_view(ops@) =~= ops_view(before).push(op@));
}

/// Appends one plain operation.
fn emit_plain(ops: &mut Vec<LayoutOp>, p: PlainOp)
    ensures
        ops_view(final(ops)@) == ops_view(old(ops)@).push(plain(p)),
{
    emit(ops, LayoutOp::Plain(p));
}

/// Copies a list of column alignments.
fn copy_alignments(a: &Vec<ColumnAlignment>) -> (r: Vec<ColumnAlignment>)
    ensures
        r@ == a@,
{
    let mut r: Vec<ColumnAlignment> = Vec::new();
    let mut i: usize = 0;
    while i < a.len()
        invariant
            i <= a@.len(),
            r@ == a@.take(i as int),
        decreases a@.len() - i,
    {
        r.push(a[i]);
        i = i + 1;
        assert(r@ =~= a@.take(i as int));
    }
    assert(a@.take(a@.len() as int) =~= a@);
    r
}

/// A string holding `s`.
fn string_of(s: &str) -> (r: String)
    ensures
        r@ == s@,
{
    String::from_str(s)
}

impl<P> LayoutState<P> {
    /// The layout state as values.
    pub closed spec fn model(&self) -> LayoutModel<P> {
        LayoutModel {
            config: self.config,
            list_stack: self.list_stack@,
            is_first_block: self.is_first_block,
            heading: match self.heading {
                Some((t, y)) => Some((t@, y)),
                None => None,
            },
            counters: self.prior.counters(),
            emitted: self.emitted.slugs(),
            anchors: self.anchors@.map_values(|a: (String, P)| (a.0@, a.1)),
            table_alignments: self.table_alignments@,
            table_cell_index: self.table_cell_index as nat,
            in_table_header: self.in_table_header,
            in_code_block: self.in_code_block,
            code_block: self.code_block_string@,
            in_splash_block: self.in_splash_block,
            splash_block: self.splash_block_string@,
            auto_id: self.auto_id as nat,
        }
    }

    /// The slug registry is consistent.
    pub closed spec fn wf(&self) -> bool {
        registry_consistent(self.prior.counters(), self.emitted.slugs())
    }

    /// The state at the start of a document whose last link id is `auto_id`.
    pub fn new(config: LayoutConfig, auto_id: u64) -> (r: Self)
        ensures
            r.wf(),
            r.model() == initial_model::<P>(config, auto_id as nat),
    {
        let r = LayoutState {
            config,
            list_stack: Vec::new(),
            is_first_block: true,
            heading: None,
            prior: SlugCounters::new(),
            emitted: EmittedSlugs::new(),
            anchors: Vec::new(),
            table_alignments: Vec::new(),
            table_cell_index: 0,
            in_table_header: false,
            in_code_block: false,
            code_block_string: String::new(),
            in_splash_block: false,
            splash_block_string: String::new(),
            auto_id,
        };
        assert(r.anchors@.map_values(|a: (String, P)| (a.0@, a.1)) =~= Seq::<(Seq<char>, P)>::empty());
        assert(r.model() =~= initial_model::<P>(config, auto_id as nat));
        r
    }

    /// Whether `ev` can be laid out without a counter overflowing.
    pub fn can_step(&self, ev: &MdEvent) -> (r: bool)
        requires
            self.wf(),
        ensures
            r == steppable(self.model(), *ev),
    {
        match ev {
            MdEvent::Start(MdTag::Item) => {
                let n = self.list_stack.len();
                if n > 0 {
                    match self.list_stack[n - 1].start_number {
                        Some(_) => self.list_stack[n - 1].current_number < u64::MAX,
                        None => true,
                    }
                } else {
                    true
                }
            },
            MdEvent::Start(MdTag::Link(_)) => self.auto_id < u64::MAX,
            MdEvent::End(MdTagEnd::TableCell) => self.table_cell_index < usize::MAX,
            MdEvent::End(MdTagEnd::Heading) => {
                if self.heading.is_some() {
                    let n = self.emitted.len();
                    n < (usize::MAX - 1) / 2
                } else {
                    true
                }
            },
            _ => true,
        }
    }

    /// Whether a heading was started whose position is not yet known.
    pub fn awaits_heading_position(&self) -> (r: bool)
        ensures
            r == (self.model().heading matches Some((_, None))),
    {
        match &self.heading {
            Some((_, None)) => true,
            _ => false,
        }
    }

    /// Records the position of the heading being laid out.
    pub fn place_heading(&mut self, y: P)
        requires
            old(self).wf(),
        ensures
            final(self).wf(),
            final(self).model() == (LayoutModel {
                heading: match old(self).model().heading {
                    Some((t, _)) => Some((t, Some(y))),
                    None => None,
                },
                ..old(self).model()
            }),
    {
        let h = self.heading.take();
        self.heading = match h {
            Some((t, _)) => Some((t, Some(y))),
            None => None,
        };
        assert(self.model() =~= (LayoutModel {
            heading: match old(self).model().heading {
                Some((t, _)) => Some((t, Some(y))),
                None => None,
            },
            ..old(self).model()
        }));
    }

    /// The id of the last link drawn.
    pub fn auto_id(&self) -> (r: u64)
        ensures
            r == self.model().auto_id,
    {
        self.auto_id
    }

    /// The anchors of the headings laid out.
    pub fn into_anchors(self) -> (r: Vec<(String, P)>)
        ensures
            r@.map_values(|a: (String, P)| (a.0@, a.1)) == self.model().anchors,
    {
        self.anchors
    }

    /// Appends `t` to the text of the heading being laid out.
    fn append_heading_text(&mut self, t: &str)
        ensures
            final(self).model() == (LayoutModel { heading: heading_with(old(self).model().heading, t@), ..old(self).model() }),
            final(self).wf() == old(self).wf(),
    {
        let h = self.heading.take();
        self.heading = match h {
            Some((mut s, y)) => {
                s.append(t);
                Some((s, y))
            },
            None => None,
        };
        assert(self.model() =~= (LayoutModel { heading: heading_with(old(self).model().heading, t@), ..old(self).model() }));
    }

    /// Emits the gap before a block and marks that a block was laid out.
    fn open_block(&mut self, ops: &mut Vec<LayoutOp>, spacing: BlockSpacing)
        ensures
            ops_view(final(ops)@) == ops_view(old(ops)@) + block_gap(old(self).model(), spacing),
            final(self).model() == (LayoutModel { is_first_block: false, ..old(self).model() }),
            final(self).wf() == old(self).wf(),
    {
        if !self.is_first_block {
            emit_plain(ops, PlainOp::NewLine(Some(spacing)));
        }
        self.is_first_block = false;
        assert(ops_view(ops@) =~= ops_view(old(ops)@) + block_gap(old(self).model(), spacing));
        assert(self.model() =~= (LayoutModel { is_first_block: false, ..old(self).model() }));
    }
}


impl<P> LayoutState<P> {
    /// Lays out the start of an element.
    fn start_tag(&mut self, tag: &MdTag, ops: &mut Vec<LayoutOp>)
        requires
            old(self).wf(),
            steppable(old(self).model(), MdEvent::Start(*tag)),
        ensures
            final(self).wf(),
            final(self).model() == step_start(old(self).model(), *tag).0,
            ops_view(final(ops)@) == ops_view(old(ops)@) + step_start(old(self).model(), *tag).1,
    {
        let ghost m = self.model();
        let ghost before = ops_view(ops@);
        match tag {
            MdTag::Heading(level) => {
                self.open_block(ops, BlockSpacing::Paragraph);
                emit_plain(ops, PlainOp::PushHeadingSize(*level));
                emit_plain(ops, PlainOp::PushStyle(TextStyle::Bold));
                self.heading = Some((String::new(), None));
            },
            MdTag::Paragraph => {
                self.open_block(ops, BlockSpacing::Paragraph);
            },
            MdTag::BlockQuote => {
                self.open_block(ops, BlockSpacing::Paragraph);
                emit_plain(ops, PlainOp::BeginQuote);
            },
            MdTag::List(first) => {
                let current_number = match first {
                    Some(n) => *n,
                    None => 1,
                };
                self.list_stack.push(ListState { start_number: *first, current_number });
            },
            MdTag::Item => {
                if !self.is_first_block {
                    emit_plain(ops, PlainOp::NewLine(None));
                }
                self.is_first_block = false;
                let n = self.list_stack.len();
                let mut marker = String::new();
                if n > 0 && self.list_stack[n - 1].start_number.is_some() {
                    let st = self.list_stack[n - 1];
                    push_decimal(&mut marker, st.current_number);
                    string_push(&mut marker, '.');
                    self.list_stack.set(n - 1, ListState { current_number: st.current_number + 1, ..st });
                } else {
                    string_push(&mut marker, '•');
                }
                assert(marker@ =~= item_marker(m.list_stack));
                emit(ops, LayoutOp::ListItem(marker));
                assert(self.list_stack@ =~= stack_after_item(m.list_stack));
            },
            MdTag::Emphasis => {
                emit_plain(ops, PlainOp::PushStyle(TextStyle::Italic));
            },
            MdTag::Strong => {
                emit_plain(ops, PlainOp::PushStyle(TextStyle::Bold));
            },
            MdTag::Strikethrough => {
                emit_plain(ops, PlainOp::PushStyle(TextStyle::Underline));
            },
            MdTag::Link(url) => {
                self.auto_id = self.auto_id + 1;
                emit(ops, LayoutOp::Link(self.auto_id, url.clone()));
            },
            MdTag::Image { url, title } => {
                emit(ops, LayoutOp::Text(string_of("Image[name:")));
                emit(ops, LayoutOp::Text(title.clone()));
                emit(ops, LayoutOp::Text(string_of(", url:")));
                emit(ops, LayoutOp::Text(url.clone()));
                emit(ops, LayoutOp::Text(string_of("]")));
            },
            MdTag::CodeBlock(lang) => {
                self.open_block(ops, BlockSpacing::PreCode);
                let is_runsplash = match lang {
                    Some(l) => *l == string_of("runsplash"),
                    None => false,
                };
                if is_runsplash {
                    self.in_splash_block = true;
                    self.splash_block_string = String::new();
                } else if self.config.use_code_block_widget {
                    self.in_code_block = true;
                    self.code_block_string = String::new();
                } else {
                    emit_plain(ops, PlainOp::PushCodeSize);
                    emit_plain(ops, PlainOp::PushCombineSpaces(false));
                    emit_plain(ops, PlainOp::PushStyle(TextStyle::Fixed));
                    emit_plain(ops, PlainOp::BeginCode);
                }
            },
            MdTag::Table(aligns) => {
                self.open_block(ops, BlockSpacing::Paragraph);
                emit_plain(ops, PlainOp::BeginTable(aligns.len()));
                self.table_alignments = copy_alignments(aligns);
                self.table_cell_index = 0;
            },
            MdTag::TableHead => {
                emit_plain(ops, PlainOp::BeginTableHeaderRow);
                self.table_cell_index = 0;
                self.in_table_header = true;
            },
            MdTag::TableRow => {
                emit_plain(ops, PlainOp::BeginTableRow);
                self.table_cell_index = 0;
            },
            MdTag::TableCell => {
                let align = if self.table_cell_index < self.table_alignments.len() {
                    self.table_alignments[self.table_cell_index]
                } else {
                    ColumnAlignment::Unspecified
                };
                emit_plain(ops, PlainOp::BeginTableCell(align));
                if self.in_table_header {
                    emit_plain(ops, PlainOp::PushStyle(TextStyle::Bold));
                }
            },
            MdTag::Other => {},
        }
        assert(ops_view(ops@) =~= before + step_start(m, *tag).1);
        assert(self.model() =~= step_start(m, *tag).0);
    }
}

impl<P> LayoutState<P> {
    /// Lays out the end of a heading: its text gets the next free anchor,
    /// recorded with its position.
    fn end_heading(&mut self)
        requires
            old(self).wf(),
            old(self).model().heading is Some ==> 2 * old(self).model().emitted.len() + 1 < usize::MAX,
        ensures
            final(self).wf(),
            final(self).model() == close_heading(old(self).model()),
    {
        let ghost m = self.model();
        let h = self.heading.take();
        match h {
            Some((text, y)) => {
                proof {
                    self.emitted.lemma_finite();
                    lemma_consistent_counters_bounded(m.counters, m.emitted);
                    let base = slug_base(text@);
                    crate::slug::lemma_free_suffix_exists(
                        base,
                        crate::slug::start_suffix(base, m.counters),
                        m.emitted,
                    );
                    lemma_assign_keeps_consistent(base, m.counters, m.emitted);
                }
                let slug = heading_slug(text.as_str(), &mut self.prior, &mut self.emitted);
                match y {
                    Some(y) => {
                        let ghost before = self.anchors@;
                        self.anchors.push((slug, y));
                        assert(self.anchors@.map_values(|a: (String, P)| (a.0@, a.1)) =~= before.map_values(
                            |a: (String, P)| (a.0@, a.1),
                        ).push((slug@, y)));
                    },
                    None => {},
                }
            },
            None => {},
        }
        assert(self.model() =~= close_heading(m));
    }

    /// Lays out the end of an element.
    fn end_tag(&mut self, tag: MdTagEnd, ops: &mut Vec<LayoutOp>)
        requires
            old(self).wf(),
            steppable(old(self).model(), MdEvent::End(tag)),
        ensures
            final(self).wf(),
            final(self).model() == step_end(old(self).model(), tag).0,
            ops_view(final(ops)@) == ops_view(old(ops)@) + step_end(old(self).model(), tag).1,
    {
        let ghost m = self.model();
        let ghost before = ops_view(ops@);
        match tag {
            MdTagEnd::Heading => {
                self.end_heading();
                emit_plain(ops, PlainOp::PopStyle(TextStyle::Bold));
                emit_plain(ops, PlainOp::PopFontSize);
                emit_plain(ops, PlainOp::NewLine(None));
            },
            MdTagEnd::BlockQuote => {
                emit_plain(ops, PlainOp::EndQuote);
            },
            MdTagEnd::List => {
                self.list_stack.pop();
                assert(self.list_stack@ =~= (if m.list_stack.len() > 0 {
                    m.list_stack.drop_last()
                } else {
                    m.list_stack
                }));
            },
            MdTagEnd::Item => {
                emit_plain(ops, PlainOp::EndListItem);
            },
            MdTagEnd::Emphasis => {
                emit_plain(ops, PlainOp::PopStyle(TextStyle::Italic));
            },
            MdTagEnd::Strong => {
                emit_plain(ops, PlainOp::PopStyle(TextStyle::Bold));
            },
            MdTagEnd::Strikethrough => {
                emit_plain(ops, PlainOp::PopStyle(TextStyle::Underline));
            },
            MdTagEnd::CodeBlock => {
                if self.in_splash_block {
                    self.in_splash_block = false;
                    emit(ops, LayoutOp::Widget(EmbeddedWidget::SplashBlock, self.splash_block_string.clone()));
                } else if self.in_code_block {
                    self.in_code_block = false;
                    emit(ops, LayoutOp::Widget(EmbeddedWidget::CodeBlock, self.code_block_string.clone()));
                } else {
                    emit_plain(ops, PlainOp::PopFontSize);
                    emit_plain(ops, PlainOp::PopStyle(TextStyle::Fixed));
                    emit_plain(ops, PlainOp::PopCombineSpaces);
                    emit_plain(ops, PlainOp::EndCode);
                }
            },
            MdTagEnd::Table => {
                emit_plain(ops, PlainOp::EndTable);
                emit_plain(ops, PlainOp::NewLine(Some(BlockSpacing::Paragraph)));
                self.table_alignments = Vec::new();
                self.table_cell_index = 0;
            },
            MdTagEnd::TableHead => {
                emit_plain(ops, PlainOp::EndTableRow);
                self.in_table_header = false;
            },
            MdTagEnd::TableRow => {
                emit_plain(ops, PlainOp::EndTableRow);
            },
            MdTagEnd::TableCell => {
                if self.in_table_header {
                    emit_plain(ops, PlainOp::PopStyle(TextStyle::Bold));
                }
                emit_plain(ops, PlainOp::EndTableCell);
                self.table_cell_index = self.table_cell_index + 1;
            },
            _ => {},
        }
        assert(ops_view(ops@) =~= before + step_end(m, tag).1);
        assert(self.model() =~= step_end(m, tag).0);
    }

    /// Lays out a line break: a newline inside a splash or code block, the
    /// operation `outside` elsewhere.
    fn line_break(&mut self, outside: LayoutOp, ops: &mut Vec<LayoutOp>)
        requires
            old(self).wf(),
        ensures
            final(self).wf(),
            final(self).model() == step_break(old(self).model(), outside@).0,
            ops_view(final(ops)@) == ops_view(old(ops)@) + step_break(old(self).model(), outside@).1,
    {
        let ghost m = self.model();
        let ghost before = ops_view(ops@);
        self.append_heading_text(" ");
        proof {
            reveal_strlit(" ");
        }
        if self.in_splash_block {
            string_push(&mut self.splash_block_string, '\n');
        } else if self.in_code_block {
            string_push(&mut self.code_block_string, '\n');
        } else {
            emit(ops, outside);
        }
        assert(ops_view(ops@) =~= before + step_break(m, outside@).1);
        assert(self.model() =~= step_break(m, outside@).0);
    }

    /// Lays out inline code.
    fn inline_code(t: &String, ops: &mut Vec<LayoutOp>)
        ensures
            ops_view(final(ops)@) == ops_view(old(ops)@) + inline_code_ops(t@),
    {
        let ghost before = ops_view(ops@);
        emit_plain(ops, PlainOp::PushCodeSize);
        emit_plain(ops, PlainOp::PushStyle(TextStyle::Fixed));
        emit_plain(ops, PlainOp::PushStyle(TextStyle::InlineCode));
        emit(ops, LayoutOp::Text(t.clone()));
        emit_plain(ops, PlainOp::PopFontSize);
        emit_plain(ops, PlainOp::PopStyle(TextStyle::Fixed));
        emit_plain(ops, PlainOp::PopStyle(TextStyle::InlineCode));
        assert(ops_view(ops@) =~= before + inline_code_ops(t@));
    }

    /// Lays out one markdown event: updates the state and returns the text
    /// flow operations to perform, in order.
    pub fn step(&mut self, ev: &MdEvent) -> (ops: Vec<LayoutOp>)
        requires
            old(self).wf(),
            steppable(old(self).model(), *ev),
        ensures
            final(self).wf(),
            final(self).model() == layout_step(old(self).model(), *ev).0,
            ops_view(ops@) == layout_step(old(self).model(), *ev).1,
    {
        let ghost m = self.model();
        let mut ops: Vec<LayoutOp> = Vec::new();
        assert(ops_view(ops@) =~= Seq::<OpView>::empty());
        match ev {
            MdEvent::Start(tag) => {
                self.start_tag(tag, &mut ops);
            },
            MdEvent::End(tag) => {
                self.end_tag(*tag, &mut ops);
            },
            MdEvent::Code(t) => {
                self.append_heading_text(t.as_str());
                Self::inline_code(t, &mut ops);
            },
            MdEvent::InlineMath(t) => {
                if self.config.use_math_widget {
                    emit(&mut ops, LayoutOp::Widget(EmbeddedWidget::InlineMath, t.clone()));
                } else {
                    Self::inline_code(t, &mut ops);
                }
            },
            MdEvent::DisplayMath(t) => {
                self.open_block(&mut ops, BlockSpacing::Paragraph);
                if self.config.use_math_widget {
                    emit(&mut ops, LayoutOp::Widget(EmbeddedWidget::DisplayMath, t.clone()));
                } else {
                    emit_plain(&mut ops, PlainOp::BeginCode);
                    emit_plain(&mut ops, PlainOp::PushStyle(TextStyle::Fixed));
                    emit(&mut ops, LayoutOp::Text(t.clone()));
                    emit_plain(&mut ops, PlainOp::PopStyle(TextStyle::Fixed));
                    emit_plain(&mut ops, PlainOp::EndCode);
                }
            },
            MdEvent::Text(t) => {
                self.append_heading_text(t.as_str());
                if self.in_splash_block {
                    self.splash_block_string.append(t.as_str());
                } else if self.in_code_block {
                    self.code_block_string.append(t.as_str());
                } else {
                    emit(&mut ops, LayoutOp::Text(trim_trailing_newlines(t.as_str())));
                }
            },
            MdEvent::SoftBreak => {
                let mut space = String::new();
                string_push(&mut space, ' ');
                assert(space@ =~= seq![' ']);
                self.line_break(LayoutOp::Text(space), &mut ops);
            },
            MdEvent::HardBreak => {
                self.line_break(LayoutOp::Plain(PlainOp::NewLine(None)), &mut ops);
            },
            MdEvent::Rule => {
                self.open_block(&mut ops, BlockSpacing::Paragraph);
                emit_plain(&mut ops, PlainOp::Separator);
                emit_plain(&mut ops, PlainOp::NewLine(Some(BlockSpacing::Paragraph)));
            },
            MdEvent::InlineHtml(t) => {
                let trimmed = trim_white_space(t.as_str());
                let tag = to_ascii_lowercase(trimmed.as_str());
                if tag == string_of("<sub>") {
                    emit_plain(&mut ops, PlainOp::PushScript(ScriptShift::Sub));
                } else if tag == string_of("<sup>") {
                    emit_plain(&mut ops, PlainOp::PushScript(ScriptShift::Sup));
                } else if tag == string_of("</sub>") || tag == string_of("</sup>") {
                    emit_plain(&mut ops, PlainOp::PopScript);
                }
            },
            MdEvent::Other => {},
        }
        assert(ops_view(ops@) =~= layout_step(m, *ev).1);
        assert(self.model() =~= layout_step(m, *ev).0);
        ops
    }
}

/// The state with the heading being laid out placed at `y`.
pub open spec fn placed<P>(m: LayoutModel<P>, y: P) -> LayoutModel<P> {
    LayoutModel {
        heading: match m.heading {
            Some((t, _)) => Some((t, Some(y))),
            None => None,
        },
        ..m
    }
}

/// Whether an event starts a heading.
pub open spec fn starts_heading(ev: MdEvent) -> bool {
    ev matches MdEvent::Start(MdTag::Heading(_))
}

/// The layout state after the events `evs`, from `m`, where each heading is
/// placed, right after its start, at the next position of `ys`.
pub open spec fn layout_run<P>(m: LayoutModel<P>, evs: Seq<MdEvent>, ys: Seq<P>) -> LayoutModel<P>
    decreases evs.len(),
{
    if evs.len() == 0 {
        m
    } else if starts_heading(evs.last()) && ys.len() > 0 {
        placed(layout_step(layout_run(m, evs.drop_last(), ys.drop_last()), evs.last()).0, ys.last())
    } else {
        layout_step(layout_run(m, evs.drop_last(), ys), evs.last()).0
    }
}

/// The anchors of a layout are well kept: their slugs are pairwise distinct
/// and all emitted, and the registry of emitted slugs is finite and consistent.
pub open spec fn anchors_kept<P>(m: LayoutModel<P>) -> bool {
    &&& m.emitted.finite()
    &&& registry_consistent(m.counters, m.emitted)
    &&& forall|i: int| 0 <= i < m.anchors.len() ==> m.emitted.contains(#[trigger] m.anchors[i].0)
    &&& forall|i: int, j: int| 0 <= i < j < m.anchors.len() ==> m.anchors[i].0 != m.anchors[j].0
}

proof fn lemma_step_keeps_anchors<P>(m: LayoutModel<P>, ev: MdEvent)
    requires
        anchors_kept(m),
        steppable(m, ev),
    ensures
        anchors_kept(layout_step(m, ev).0),
{
    let m2 = layout_step(m, ev).0;
    if ev matches MdEvent::End(MdTagEnd::Heading) {
        if let Some((text, _y)) = m.heading {
            let base = slug_base(text);
            lemma_consistent_counters_bounded(m.counters, m.emitted);
            crate::slug::lemma_free_suffix_exists(base, crate::slug::start_suffix(base, m.counters), m.emitted);
            lemma_assign_keeps_consistent(base, m.counters, m.emitted);
            let k = assigned_suffix(base, m.counters, m.emitted);
            let slug = slug_candidate(base, k);
            assert(!m.emitted.contains(slug));
            assert forall|i: int| 0 <= i < m2.anchors.len() implies m2.emitted.contains(#[trigger] m2.anchors[i].0) by {
                if i < m.anchors.len() {
                    assert(m2.anchors[i] == m.anchors[i]);
                }
            }
            assert forall|i: int, j: int| 0 <= i < j < m2.anchors.len() implies m2.anchors[i].0 != m2.anchors[j].0 by {
                assert(m2.anchors[i] == m.anchors[i]);
                if j < m.anchors.len() {
                    assert(m2.anchors[j] == m.anchors[j]);
                } else {
                    assert(m.emitted.contains(m.anchors[i].0));
                }
            }
        }
    }
}

/// The positions used by the run before its last event.
pub open spec fn ys_before_last<P>(evs: Seq<MdEvent>, ys: Seq<P>) -> Seq<P> {
    if evs.len() > 0 && starts_heading(evs.last()) && ys.len() > 0 {
        ys.drop_last()
    } else {
        ys
    }
}

/// Every event of the run can be laid out without a counter overflowing.
pub open spec fn run_steppable<P>(m: LayoutModel<P>, evs: Seq<MdEvent>, ys: Seq<P>) -> bool
    decreases evs.len(),
{
    if evs.len() == 0 {
        true
    } else {
        let ys0 = ys_before_last(evs, ys);
        run_steppable(m, evs.drop_last(), ys0) && steppable(layout_run(m, evs.drop_last(), ys0), evs.last())
    }
}

/// The anchors of a document's headings never collide: laying out any events
/// from a state whose anchors are well kept (such as the start of a
/// document) keeps every anchor slug distinct and emitted.
pub proof fn law_layout_keeps_anchor_slugs_distinct<P>(m: LayoutModel<P>, evs: Seq<MdEvent>, ys: Seq<P>)
    requires
        anchors_kept(m),
        run_steppable(m, evs, ys),
    ensures
        anchors_kept(layout_run(m, evs, ys)),
    decreases evs.len(),
{
    if evs.len() > 0 {
        let ys0 = ys_before_last(evs, ys);
        law_layout_keeps_anchor_slugs_distinct(m, evs.drop_last(), ys0);
        lemma_step_keeps_anchors(layout_run(m, evs.drop_last(), ys0), evs.last());
    }
}

/// The start of a document keeps its anchors well.
pub proof fn lemma_initial_anchors_kept<P>(config: LayoutConfig, auto_id: nat)
    ensures
        anchors_kept(initial_model::<P>(config, auto_id)),
{
}

/// Link ids only grow: every link drawn gets the id after the last one, so
/// the links of one draw have distinct, increasing ids.
pub proof fn law_link_ids_increase<P>(m: LayoutModel<P>, ev: MdEvent)
    requires
        steppable(m, ev),
    ensures
        layout_step(m, ev).0.auto_id >= m.auto_id,
        forall|i: int| 0 <= i < layout_step(m, ev).1.len() ==> (#[trigger] layout_step(m, ev).1[i] matches OpView::Link(id, _)
            ==> id == layout_step(m, ev).0.auto_id && id > m.auto_id),
{
    let r = layout_step(m, ev);
    assert forall|i: int| 0 <= i < r.1.len() implies (#[trigger] r.1[i] matches OpView::Link(id, _)
        ==> id == r.0.auto_id && id > m.auto_id) by {
        if r.1[i] matches OpView::Link(id, _) {
            match ev {
                MdEvent::Start(tag) => {
                    match tag {
                        MdTag::Link(_) => {
                            assert(r.1.len() == 1);
                        },
                        _ => {},
                    }
                },
                _ => {},
            }
        }
    }
}

impl LayoutOp {
    /// A copy of the operation.
    pub fn duplicate(&self) -> (r: LayoutOp)
        ensures
            r@ == self@,
    {
        match self {
            LayoutOp::Plain(p) => LayoutOp::Plain(*p),
            LayoutOp::Text(t) => LayoutOp::Text(t.clone()),
            LayoutOp::ListItem(t) => LayoutOp::ListItem(t.clone()),
            LayoutOp::Link(id, t) => LayoutOp::Link(*id, t.clone()),
            LayoutOp::Widget(w, t) => LayoutOp::Widget(*w, t.clone()),
        }
    }
}

/// One call a layout makes on the surface it draws on.
pub enum SurfaceCall<P> {
    /// An operation was performed.
    Applied(OpView),
    /// The position of the heading just begun was asked for, and this was the answer.
    Measured(P),
}

/// The calls made on a surface, in order. It exists for specifications only:
/// a surface implemented outside verified code has nothing to compute for it.
pub type CallLog<P> = Seq<SurfaceCall<P>>;

/// The calls that perform the operations `ops`, in order.
pub open spec fn applied_calls<P>(ops: Seq<OpView>) -> Seq<SurfaceCall<P>> {
    ops.map_values(|o: OpView| SurfaceCall::<P>::Applied(o))
}

/// The number of headings that the events start.
pub open spec fn heading_starts(evs: Seq<MdEvent>) -> nat
    decreases evs.len(),
{
    if evs.len() == 0 {
        0
    } else {
        heading_starts(evs.drop_last()) + if starts_heading(evs.last()) { 1nat } else { 0nat }
    }
}

/// The calls that laying out `evs` from `m` makes on its surface: for each
/// event, its operations in order, and after the start of a heading the
/// question for its position, answered by the next position of `ys`.
pub open spec fn run_calls<P>(m: LayoutModel<P>, evs: Seq<MdEvent>, ys: Seq<P>) -> Seq<SurfaceCall<P>>
    decreases evs.len(),
{
    if evs.len() == 0 {
        Seq::empty()
    } else {
        let ys0 = ys_before_last(evs, ys);
        run_calls(m, evs.drop_last(), ys0) + applied_calls(
            layout_step(layout_run(m, evs.drop_last(), ys0), evs.last()).1,
        ) + if starts_heading(evs.last()) && ys.len() > 0 {
            seq![SurfaceCall::Measured(ys.last())]
        } else {
            Seq::empty()
        }
    }
}

/// No heading waits for its position.
pub open spec fn placement_settled<P>(m: LayoutModel<P>) -> bool {
    !(m.heading matches Some((_, None)))
}

/// The texts of the headings that the events close, in order: for each end
/// of a heading, the text collected since its start.
pub open spec fn closed_heading_texts<P>(m: LayoutModel<P>, evs: Seq<MdEvent>, ys: Seq<P>) -> Seq<Seq<char>>
    decreases evs.len(),
{
    if evs.len() == 0 {
        Seq::empty()
    } else {
        let ys0 = ys_before_last(evs, ys);
        let prev = layout_run(m, evs.drop_last(), ys0);
        let rest = closed_heading_texts(m, evs.drop_last(), ys0);
        match prev.heading {
            Some((t, _)) => if evs.last() matches MdEvent::End(MdTagEnd::Heading) {
                rest.push(t)
            } else {
                rest
            },
            None => rest,
        }
    }
}

/// The slugs of a list of anchors.
pub open spec fn anchor_slugs<P>(anchors: Seq<(Seq<char>, P)>) -> Seq<Seq<char>> {
    anchors.map_values(|a: (Seq<char>, P)| a.0)
}

proof fn lemma_step_frame<P>(m: LayoutModel<P>, ev: MdEvent)
    requires
        !starts_heading(ev),
        !(ev matches MdEvent::End(MdTagEnd::Heading)),
        placement_settled(m),
    ensures
        layout_step(m, ev).0.counters == m.counters,
        layout_step(m, ev).0.emitted == m.emitted,
        layout_step(m, ev).0.anchors == m.anchors,
        placement_settled(layout_step(m, ev).0),
        (layout_step(m, ev).0.heading is Some) == (m.heading is Some),
{
}

/// Drawing a document gives each heading its anchor, in order: when every
/// heading start gets its position, the anchors recorded are one per closed
/// heading, named by successive `heading_slug` calls on the headings' texts,
/// and the slug registry is the one those calls leave.
pub proof fn law_anchors_follow_heading_slugs<P>(m: LayoutModel<P>, evs: Seq<MdEvent>, ys: Seq<P>)
    requires
        ys.len() == heading_starts(evs),
        placement_settled(m),
    ensures
        placement_settled(layout_run(m, evs, ys)),
        layout_run(m, evs, ys).counters == slug_run(closed_heading_texts(m, evs, ys), m.counters, m.emitted).1,
        layout_run(m, evs, ys).emitted == slug_run(closed_heading_texts(m, evs, ys), m.counters, m.emitted).2,
        anchor_slugs(layout_run(m, evs, ys).anchors) == anchor_slugs(m.anchors) + slug_run(
            closed_heading_texts(m, evs, ys),
            m.counters,
            m.emitted,
        ).0,
    decreases evs.len(),
{
    let texts = closed_heading_texts(m, evs, ys);
    if evs.len() == 0 {
        assert(anchor_slugs(m.anchors) + Seq::<Seq<char>>::empty() =~= anchor_slugs(m.anchors));
    } else {
        let ys0 = ys_before_last(evs, ys);
        let ev = evs.last();
        assert(ys0.len() == heading_starts(evs.drop_last()));
        law_anchors_follow_heading_slugs(m, evs.drop_last(), ys0);
        let prev = layout_run(m, evs.drop_last(), ys0);
        let texts0 = closed_heading_texts(m, evs.drop_last(), ys0);
        let sr0 = slug_run(texts0, m.counters, m.emitted);
        let r = layout_run(m, evs, ys);
        if starts_heading(ev) {
            assert(texts == texts0);
        } else if ev matches MdEvent::End(MdTagEnd::Heading) {
            match prev.heading {
                Some((t, y)) => {
                    assert(texts == texts0.push(t));
                    assert(texts.drop_last() =~= texts0);
                    let call = slug_call(t, sr0.1, sr0.2);
                    let sr = slug_run(texts, m.counters, m.emitted);
                    assert(sr.0 == sr0.0.push(call.0));
                    assert(r == close_heading(prev));
                    let yy = y.unwrap();
                    assert(r.anchors == prev.anchors.push((call.0, yy)));
                    assert(anchor_slugs(r.anchors) =~= anchor_slugs(prev.anchors).push(call.0));
                    assert(anchor_slugs(r.anchors) =~= anchor_slugs(m.anchors) + sr.0);
                },
                None => {
                    assert(texts == texts0);
                },
            }
        } else {
            lemma_step_frame(prev, ev);
            match prev.heading {
                Some(_) => {
                    assert(texts == texts0);
                },
                None => {
                    assert(texts == texts0);
                },
            }
        }
    }
}

/// How many times the operation `o` is performed among `calls`.
pub open spec fn applied_count<P>(calls: Seq<SurfaceCall<P>>, o: OpView) -> nat
    decreases calls.len(),
{
    if calls.len() == 0 {
        0
    } else {
        applied_count(calls.drop_last(), o) + if calls.last() == SurfaceCall::<P>::Applied(o) {
            1nat
        } else {
            0nat
        }
    }
}

/// How many of the events `evs` are `e`.
pub open spec fn event_count(evs: Seq<MdEvent>, e: MdEvent) -> nat
    decreases evs.len(),
{
    if evs.len() == 0 {
        0
    } else {
        event_count(evs.drop_last(), e) + if evs.last() == e { 1nat } else { 0nat }
    }
}

/// The operations that only one kind of event performs, and that event: a
/// separator for a rule, the frame of a block quote, and the styles of
/// emphasis (italic) and strikethrough (underline).
pub open spec fn marker_event(o: OpView) -> Option<MdEvent> {
    if o == OpView::Plain(PlainOp::Separator) {
        Some(MdEvent::Rule)
    } else if o == OpView::Plain(PlainOp::BeginQuote) {
        Some(MdEvent::Start(MdTag::BlockQuote))
    } else if o == OpView::Plain(PlainOp::EndQuote) {
        Some(MdEvent::End(MdTagEnd::BlockQuote))
    } else if o == OpView::Plain(PlainOp::PushStyle(TextStyle::Italic)) {
        Some(MdEvent::Start(MdTag::Emphasis))
    } else if o == OpView::Plain(PlainOp::PopStyle(TextStyle::Italic)) {
        Some(MdEvent::End(MdTagEnd::Emphasis))
    } else if o == OpView::Plain(PlainOp::PushStyle(TextStyle::Underline)) {
        Some(MdEvent::Start(MdTag::Strikethrough))
    } else if o == OpView::Plain(PlainOp::PopStyle(TextStyle::Underline)) {
        Some(MdEvent::End(MdTagEnd::Strikethrough))
    } else {
        None
    }
}

proof fn lemma_count_concat<P>(a: Seq<SurfaceCall<P>>, b: Seq<SurfaceCall<P>>, o: OpView)
    ensures
        applied_count(a + b, o) == applied_count(a, o) + applied_count(b, o),
    decreases b.len(),
{
    if b.len() == 0 {
        assert(a + b =~= a);
    } else {
        assert((a + b).drop_last() =~= a + b.drop_last());
        assert((a + b).last() == b.last());
        lemma_count_concat(a, b.drop_last(), o);
    }
}

proof fn lemma_count_absent<P>(c: Seq<SurfaceCall<P>>, o: OpView)
    requires
        forall|i: int| 0 <= i < c.len() ==> #[trigger] c[i] != SurfaceCall::<P>::Applied(o),
    ensures
        applied_count(c, o) == 0,
    decreases c.len(),
{
    if c.len() > 0 {
        assert(c[c.len() - 1] != SurfaceCall::<P>::Applied(o));
        lemma_count_absent(c.drop_last(), o);
    }
}

proof fn lemma_count_once<P>(c: Seq<SurfaceCall<P>>, o: OpView, k: int)
    requires
        0 <= k < c.len(),
        c[k] == SurfaceCall::<P>::Applied(o),
        forall|i: int| 0 <= i < c.len() && i != k ==> #[trigger] c[i] != SurfaceCall::<P>::Applied(o),
    ensures
        applied_count(c, o) == 1,
    decreases c.len(),
{
    if k == c.len() - 1 {
        lemma_count_absent(c.drop_last(), o);
    } else {
        assert(c[c.len() - 1] != SurfaceCall::<P>::Applied(o));
        lemma_count_once(c.drop_last(), o, k);
    }
}

/// No step performs a marker operation but the marker's own event.
proof fn lemma_marker_absent<P>(m: LayoutModel<P>, ev: MdEvent, o: OpView)
    requires
        marker_event(o) is Some,
        ev != marker_event(o)->0,
    ensures
        forall|i: int| 0 <= i < layout_step(m, ev).1.len() ==> #[trigger] layout_step(m, ev).1[i] != o,
{
}

proof fn lemma_marker_count<P>(m: LayoutModel<P>, ev: MdEvent, o: OpView)
    requires
        marker_event(o) is Some,
    ensures
        applied_count(applied_calls::<P>(layout_step(m, ev).1), o) == if ev == marker_event(o)->0 {
            1nat
        } else {
            0nat
        },
{
    let ops = layout_step(m, ev).1;
    let c = applied_calls::<P>(ops);
    if ev == marker_event(o)->0 {
        let k: int = match ev {
            MdEvent::Rule => block_gap(m, BlockSpacing::Paragraph).len() as int,
            MdEvent::Start(MdTag::BlockQuote) => block_gap(m, BlockSpacing::Paragraph).len() as int,
            _ => 0,
        };
        assert(ops[k] == o);
        assert forall|i: int| 0 <= i < c.len() && i != k implies #[trigger] c[i] != SurfaceCall::<P>::Applied(o) by {
            assert(c[i] == SurfaceCall::<P>::Applied(ops[i]));
        }
        lemma_count_once(c, o, k);
    } else {
        lemma_marker_absent(m, ev, o);
        assert forall|i: int| 0 <= i < c.len() implies #[trigger] c[i] != SurfaceCall::<P>::Applied(o) by {
            assert(c[i] == SurfaceCall::<P>::Applied(ops[i]));
        }
        lemma_count_absent(c, o);
    }
}

proof fn lemma_run_marker_count<P>(m: LayoutModel<P>, evs: Seq<MdEvent>, ys: Seq<P>, o: OpView)
    requires
        marker_event(o) is Some,
    ensures
        applied_count(run_calls(m, evs, ys), o) == event_count(evs, marker_event(o)->0),
    decreases evs.len(),
{
    if evs.len() > 0 {
        let ys0 = ys_before_last(evs, ys);
        let prev = layout_run(m, evs.drop_last(), ys0);
        let a = run_calls(m, evs.drop_last(), ys0);
        let b = applied_calls::<P>(layout_step(prev, evs.last()).1);
        let q: Seq<SurfaceCall<P>> = if starts_heading(evs.last()) && ys.len() > 0 {
            seq![SurfaceCall::Measured(ys.last())]
        } else {
            Seq::empty()
        };
        lemma_run_marker_count(m, evs.drop_last(), ys0, o);
        lemma_marker_count(prev, evs.last(), o);
        lemma_count_concat(a, b, o);
        lemma_count_concat(a + b, q, o);
        lemma_count_absent(q, o);
    }
}

/// A horizontal rule draws one separator between its gaps, and a document's
/// separators are exactly one per rule, at whatever layout state.
pub proof fn law_rules_draw_separators<P>(m: LayoutModel<P>, evs: Seq<MdEvent>, ys: Seq<P>)
    ensures
        layout_step(m, MdEvent::Rule).1 == block_gap(m, BlockSpacing::Paragraph) + seq![
            OpView::Plain(PlainOp::Separator),
            OpView::Plain(PlainOp::NewLine(Some(BlockSpacing::Paragraph))),
        ],
        applied_count(applied_calls::<P>(layout_step(m, MdEvent::Rule).1), OpView::Plain(PlainOp::Separator)) == 1,
        applied_count(run_calls(m, evs, ys), OpView::Plain(PlainOp::Separator)) == event_count(evs, MdEvent::Rule),
{
    lemma_marker_count(m, MdEvent::Rule, OpView::Plain(PlainOp::Separator));
    lemma_run_marker_count(m, evs, ys, OpView::Plain(PlainOp::Separator));
}

/// A block quote is framed: its start opens a quote after the block gap, its
/// end closes it, and a document's quote openings and closings are exactly
/// one per start and one per end of a block quote.
pub proof fn law_block_quotes_are_framed<P>(m: LayoutModel<P>, evs: Seq<MdEvent>, ys: Seq<P>)
    ensures
        layout_step(m, MdEvent::Start(MdTag::BlockQuote)).1 == block_gap(m, BlockSpacing::Paragraph) + seq![
            OpView::Plain(PlainOp::BeginQuote),
        ],
        layout_step(m, MdEvent::End(MdTagEnd::BlockQuote)).1 == seq![OpView::Plain(PlainOp::EndQuote)],
        applied_count(run_calls(m, evs, ys), OpView::Plain(PlainOp::BeginQuote)) == event_count(
            evs,
            MdEvent::Start(MdTag::BlockQuote),
        ),
        applied_count(run_calls(m, evs, ys), OpView::Plain(PlainOp::EndQuote)) == event_count(
            evs,
            MdEvent::End(MdTagEnd::BlockQuote),
        ),
{
    lemma_run_marker_count(m, evs, ys, OpView::Plain(PlainOp::BeginQuote));
    lemma_run_marker_count(m, evs, ys, OpView::Plain(PlainOp::EndQuote));
}

/// Inline styles follow a fixed table at any layout state: emphasis is
/// italic, strong is bold, strikethrough is underlined, each pushed by the
/// start and popped by the end; and a document's italic and underline pushes
/// and pops are exactly one per start and end of emphasis and strikethrough.
pub proof fn law_inline_styles<P>(m: LayoutModel<P>, evs: Seq<MdEvent>, ys: Seq<P>)
    ensures
        layout_step(m, MdEvent::Start(MdTag::Emphasis)).1 == seq![
            OpView::Plain(PlainOp::PushStyle(TextStyle::Italic)),
        ],
        layout_step(m, MdEvent::End(MdTagEnd::Emphasis)).1 == seq![
            OpView::Plain(PlainOp::PopStyle(TextStyle::Italic)),
        ],
        layout_step(m, MdEvent::Start(MdTag::Strong)).1 == seq![
            OpView::Plain(PlainOp::PushStyle(TextStyle::Bold)),
        ],
        layout_step(m, MdEvent::End(MdTagEnd::Strong)).1 == seq![
            OpView::Plain(PlainOp::PopStyle(TextStyle::Bold)),
        ],
        layout_step(m, MdEvent::Start(MdTag::Strikethrough)).1 == seq![
            OpView::Plain(PlainOp::PushStyle(TextStyle::Underline)),
        ],
        layout_step(m, MdEvent::End(MdTagEnd::Strikethrough)).1 == seq![
            OpView::Plain(PlainOp::PopStyle(TextStyle::Underline)),
        ],
        applied_count(run_calls(m, evs, ys), OpView::Plain(PlainOp::PushStyle(TextStyle::Italic)))
            == event_count(evs, MdEvent::Start(MdTag::Emphasis)),
        applied_count(run_calls(m, evs, ys), OpView::Plain(PlainOp::PopStyle(TextStyle::Italic)))
            == event_count(evs, MdEvent::End(MdTagEnd::Emphasis)),
        applied_count(run_calls(m, evs, ys), OpView::Plain(PlainOp::PushStyle(TextStyle::Underline)))
            == event_count(evs, MdEvent::Start(MdTag::Strikethrough)),
        applied_count(run_calls(m, evs, ys), OpView::Plain(PlainOp::PopStyle(TextStyle::Underline)))
            == event_count(evs, MdEvent::End(MdTagEnd::Strikethrough)),
{
    lemma_run_marker_count(m, evs, ys, OpView::Plain(PlainOp::PushStyle(TextStyle::Italic)));
    lemma_run_marker_count(m, evs, ys, OpView::Plain(PlainOp::PopStyle(TextStyle::Italic)));
    lemma_run_marker_count(m, evs, ys, OpView::Plain(PlainOp::PushStyle(TextStyle::Underline)));
    lemma_run_marker_count(m, evs, ys, OpView::Plain(PlainOp::PopStyle(TextStyle::Underline)));
}

/// A link is drawn as one link item with the next id and the destination
/// exactly as written (relative paths and fragments untouched).
pub proof fn law_links_keep_their_href<P>(m: LayoutModel<P>, url: String)
    ensures
        layout_step(m, MdEvent::Start(MdTag::Link(url))).1 == seq![OpView::Link((m.auto_id + 1) as u64, url@)],
        layout_step(m, MdEvent::Start(MdTag::Link(url))).0.auto_id == m.auto_id + 1,
        layout_step(m, MdEvent::End(MdTagEnd::Link)).1 == Seq::<OpView>::empty(),
{
}

/// Every char of `w` is whitespace.
pub open spec fn all_white_space(w: Seq<char>) -> bool {
    forall|i: int| 0 <= i < w.len() ==> is_white_space(#[trigger] w[i])
}

proof fn lemma_trim_end_padded(x: Seq<char>, w: Seq<char>)
    requires
        x.len() > 0,
        !is_white_space(x.last()),
        all_white_space(w),
    ensures
        trim_end_white_space(x + w) == x,
    decreases w.len(),
{
    if w.len() == 0 {
        assert(x + w =~= x);
    } else {
        assert(is_white_space(w[w.len() - 1]));
        assert((x + w).drop_last() =~= x + w.drop_last());
        assert((x + w).last() == w.last());
        lemma_trim_end_padded(x, w.drop_last());
    }
}

proof fn lemma_trim_start_padded(w: Seq<char>, x: Seq<char>)
    requires
        x.len() > 0,
        !is_white_space(x[0]),
        all_white_space(w),
    ensures
        trim_start_white_space(w + x) == x,
    decreases w.len(),
{
    if w.len() == 0 {
        assert(w + x =~= x);
    } else {
        assert(is_white_space(w[0]));
        assert((w + x).drop_first() =~= w.drop_first() + x);
        assert((w + x)[0] == w[0]);
        lemma_trim_start_padded(w.drop_first(), x);
    }
}

proof fn lemma_html_tag_padded(w1: Seq<char>, core: Seq<char>, w2: Seq<char>)
    requires
        all_white_space(w1),
        all_white_space(w2),
        core.len() > 0,
        ascii_lower_char(core[0]) == '<',
        ascii_lower_char(core.last()) == '>',
    ensures
        html_tag(w1 + core + w2) == ascii_lowercase(core),
{
    assert(!is_ascii_upper(core[0]));
    assert(!is_ascii_upper(core.last()));
    assert((w1 + core).last() == core.last());
    lemma_trim_end_padded(w1 + core, w2);
    lemma_trim_start_padded(w1, core);
}

/// Inline `<sub>` and `<sup>` tags, in any ASCII case and with any
/// whitespace around them, lower and raise the text until `</sub>` or
/// `</sup>`; any other inline HTML draws nothing.
pub proof fn law_script_tags<P>(m: LayoutModel<P>, t: String, w1: Seq<char>, core: Seq<char>, w2: Seq<char>)
    requires
        t@ == w1 + core + w2,
        all_white_space(w1),
        all_white_space(w2),
    ensures
        ascii_lowercase(core) == "<sub>"@ ==> layout_step(m, MdEvent::InlineHtml(t)).1 == seq![
            OpView::Plain(PlainOp::PushScript(ScriptShift::Sub)),
        ],
        ascii_lowercase(core) == "<sup>"@ ==> layout_step(m, MdEvent::InlineHtml(t)).1 == seq![
            OpView::Plain(PlainOp::PushScript(ScriptShift::Sup)),
        ],
        ascii_lowercase(core) == "</sub>"@ || ascii_lowercase(core) == "</sup>"@ ==> layout_step(
            m,
            MdEvent::InlineHtml(t),
        ).1 == seq![OpView::Plain(PlainOp::PopScript)],
        layout_step(m, MdEvent::InlineHtml(t)).0 == m,
        layout_step(m, MdEvent::InlineHtml(t)).1.len() <= 1,
{
    reveal_strlit("<sub>");
    reveal_strlit("<sup>");
    reveal_strlit("</sub>");
    reveal_strlit("</sup>");
    let lc = ascii_lowercase(core);
    assert("<sub>"@.len() == 5 && "<sup>"@.len() == 5 && "</sub>"@.len() == 6 && "</sup>"@.len() == 6);
    assert("<sub>"@ != "<sup>"@) by {
        assert("<sub>"@[3] != "<sup>"@[3]);
    }
    assert(lc.len() == core.len());
    if lc == "<sub>"@ || lc == "<sup>"@ || lc == "</sub>"@ || lc == "</sup>"@ {
        assert(core.len() > 0);
        assert(lc[0] == ascii_lower_char(core[0]));
        assert(lc[lc.len() - 1] == ascii_lower_char(core[core.len() - 1]));
        lemma_html_tag_padded(w1, core, w2);
        assert(html_tag(t@) == lc);
    }
}

/// A heading is drawn bold at its level's size after the block gap, and its
/// end pops both and breaks the line.
pub proof fn law_heading_ops<P>(m: LayoutModel<P>, level: MdHeadingLevel)
    ensures
        layout_step(m, MdEvent::Start(MdTag::Heading(level))).1 == block_gap(m, BlockSpacing::Paragraph)
            + seq![
            OpView::Plain(PlainOp::PushHeadingSize(level)),
            OpView::Plain(PlainOp::PushStyle(TextStyle::Bold)),
        ],
        layout_step(m, MdEvent::End(MdTagEnd::Heading)).1 == seq![
            OpView::Plain(PlainOp::PopStyle(TextStyle::Bold)),
            OpView::Plain(PlainOp::PopFontSize),
            OpView::Plain(PlainOp::NewLine(None)),
        ],
{
}

/// The first block of a document gets no gap; every later block gets the
/// paragraph gap (the spacing before code for a code block).
pub proof fn law_block_gaps<P>(m: LayoutModel<P>)
    ensures
        m.is_first_block ==> block_gap(m, BlockSpacing::Paragraph) == Seq::<OpView>::empty(),
        !m.is_first_block ==> block_gap(m, BlockSpacing::Paragraph) == seq![
            OpView::Plain(PlainOp::NewLine(Some(BlockSpacing::Paragraph))),
        ],
        layout_step(m, MdEvent::Start(MdTag::Paragraph)).1 == block_gap(m, BlockSpacing::Paragraph),
        !layout_step(m, MdEvent::Start(MdTag::Paragraph)).0.is_first_block,
        !layout_step(m, MdEvent::Rule).0.is_first_block,
{
}

/// List items are numbered from the list's start number up, one per item,
/// and bulleted in an unordered list; a nested list keeps its own counter and
/// the outer list's numbering is as it was once the nested list ends.
pub proof fn law_list_numbering<P>(m: LayoutModel<P>, first: Option<u64>)
    ensures
        ({
            let m1 = layout_step(m, MdEvent::Start(MdTag::List(first))).0;
            let item = layout_step(m1, MdEvent::Start(MdTag::Item));
            &&& item.1.last() == OpView::ListItem(match first {
                Some(n) => decimal(n as nat) + seq!['.'],
                None => seq!['•'],
            })
            &&& (first matches Some(n) ==> (n < u64::MAX ==> item.0.list_stack.last().current_number == n + 1))
            &&& item.0.list_stack.drop_last() == m.list_stack
            &&& layout_step(m1, MdEvent::End(MdTagEnd::List)).0.list_stack == m.list_stack
        }),
        m.list_stack.len() > 0 && m.list_stack.last().start_number is Some && m.list_stack.last().current_number
            < u64::MAX ==> {
            let item = layout_step(m, MdEvent::Start(MdTag::Item));
            &&& item.1.last() == OpView::ListItem(decimal(m.list_stack.last().current_number as nat) + seq!['.'])
            &&& item.0.list_stack.last().current_number == m.list_stack.last().current_number + 1
            &&& item.0.list_stack.drop_last() == m.list_stack.drop_last()
        },
{
    let m1 = layout_step(m, MdEvent::Start(MdTag::List(first))).0;
    assert(m1.list_stack.drop_last() =~= m.list_stack);
    assert(m1.list_stack.last().start_number == first);
    let item = layout_step(m1, MdEvent::Start(MdTag::Item));
    let lead: Seq<OpView> = if m1.is_first_block { Seq::empty() } else { seq![plain(PlainOp::NewLine(None))] };
    assert(item.1 == lead + seq![OpView::ListItem(item_marker(m1.list_stack))]);
    assert(item.1.last() == OpView::ListItem(item_marker(m1.list_stack)));
    assert(item.0.list_stack.drop_last() =~= m.list_stack);
    if m.list_stack.len() > 0 && m.list_stack.last().start_number is Some && m.list_stack.last().current_number
        < u64::MAX {
        let item2 = layout_step(m, MdEvent::Start(MdTag::Item));
        let lead2: Seq<OpView> = if m.is_first_block { Seq::empty() } else { seq![plain(PlainOp::NewLine(None))] };
        assert(item2.1 == lead2 + seq![OpView::ListItem(item_marker(m.list_stack))]);
        assert(item2.1.last() == OpView::ListItem(item_marker(m.list_stack)));
        assert(item2.0.list_stack.drop_last() =~= m.list_stack.drop_last());
    }
}

/// Table cells take their column's alignment, counted from the row's first
/// cell, and are unspecified past the last column; header cells are bold.
pub proof fn law_table_cells<P>(m: LayoutModel<P>, aligns: Vec<ColumnAlignment>)
    ensures
        ({
            let t = layout_step(m, MdEvent::Start(MdTag::Table(aligns))).0;
            let r = layout_step(t, MdEvent::Start(MdTag::TableRow)).0;
            let h = layout_step(t, MdEvent::Start(MdTag::TableHead)).0;
            &&& !m.in_table_header ==> layout_step(r, MdEvent::Start(MdTag::TableCell)).1 == seq![
                OpView::Plain(PlainOp::BeginTableCell(
                    if aligns@.len() > 0 { aligns@[0] } else { ColumnAlignment::Unspecified },
                )),
            ]
            &&& layout_step(h, MdEvent::Start(MdTag::TableCell)).1 == seq![
                OpView::Plain(PlainOp::BeginTableCell(
                    if aligns@.len() > 0 { aligns@[0] } else { ColumnAlignment::Unspecified },
                )),
                OpView::Plain(PlainOp::PushStyle(TextStyle::Bold)),
            ]
        }),
        !m.in_table_header ==> layout_step(m, MdEvent::Start(MdTag::TableCell)).1 == seq![
            OpView::Plain(PlainOp::BeginTableCell(
                if m.table_cell_index < m.table_alignments.len() {
                    m.table_alignments[m.table_cell_index as int]
                } else {
                    ColumnAlignment::Unspecified
                },
            )),
        ],
        layout_step(m, MdEvent::End(MdTagEnd::TableCell)).0.table_cell_index == m.table_cell_index + 1,
        layout_step(m, MdEvent::End(MdTagEnd::TableCell)).0.table_alignments == m.table_alignments,
        layout_step(m, MdEvent::Start(MdTag::TableRow)).0.table_cell_index == 0,
{
}

/// A `runsplash` block draws nothing while its text arrives and then one
/// splash widget with that text; with code widgets on, any other fenced
/// block does the same with a code widget.
pub proof fn law_collected_blocks<P>(m: LayoutModel<P>, lang: String, t: String)
    requires
        !m.in_splash_block,
        !m.in_code_block,
    ensures
        lang@ == "runsplash"@ ==> {
            let s = layout_step(m, MdEvent::Start(MdTag::CodeBlock(Some(lang)))).0;
            let s2 = layout_step(s, MdEvent::Text(t));
            &&& s2.1 == Seq::<OpView>::empty()
            &&& layout_step(s2.0, MdEvent::End(MdTagEnd::CodeBlock)).1 == seq![
                OpView::Widget(EmbeddedWidget::SplashBlock, t@),
            ]
        },
        lang@ != "runsplash"@ && m.config.use_code_block_widget ==> {
            let s = layout_step(m, MdEvent::Start(MdTag::CodeBlock(Some(lang)))).0;
            let s2 = layout_step(s, MdEvent::Text(t));
            &&& s2.1 == Seq::<OpView>::empty()
            &&& layout_step(s2.0, MdEvent::End(MdTagEnd::CodeBlock)).1 == seq![
                OpView::Widget(EmbeddedWidget::CodeBlock, t@),
            ]
        },
{
    assert(Seq::<char>::empty() + t@ =~= t@);
}

/// Inline code is drawn in the fixed inline-code style at code size, and
/// inline math the same way unless math widgets are on; an image is drawn as
/// its description text.
pub proof fn law_inline_code_math_and_images<P>(m: LayoutModel<P>, t: String, url: String, title: String)
    ensures
        layout_step(m, MdEvent::Code(t)).1 == seq![
            OpView::Plain(PlainOp::PushCodeSize),
            OpView::Plain(PlainOp::PushStyle(TextStyle::Fixed)),
            OpView::Plain(PlainOp::PushStyle(TextStyle::InlineCode)),
            OpView::Text(t@),
            OpView::Plain(PlainOp::PopFontSize),
            OpView::Plain(PlainOp::PopStyle(TextStyle::Fixed)),
            OpView::Plain(PlainOp::PopStyle(TextStyle::InlineCode)),
        ],
        m.config.use_math_widget ==> layout_step(m, MdEvent::InlineMath(t)).1 == seq![
            OpView::Widget(EmbeddedWidget::InlineMath, t@),
        ],
        !m.config.use_math_widget ==> layout_step(m, MdEvent::InlineMath(t)).1 == layout_step(
            m,
            MdEvent::Code(t),
        ).1,
        layout_step(m, MdEvent::Start(MdTag::Image { url, title })).1 == seq![
            OpView::Text("Image[name:"@),
            OpView::Text(title@),
            OpView::Text(", url:"@),
            OpView::Text(url@),
            OpView::Text("]"@),
        ],
{
}

} // verus!
