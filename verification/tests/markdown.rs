use touch_markdown::events::{ColumnAlignment, MdEvent, MdHeadingLevel, MdTag, MdTagEnd};
use touch_markdown::layout::{
    BlockSpacing, CallLog, EmbeddedWidget, LayoutConfig, LayoutOp, LayoutState, PlainOp, ScriptShift,
    TextStyle,
};
use touch_markdown::markdown::{
    fragment_scroll_y, LayoutSurface, Markdown, MarkdownAction, MarkdownLink, MarkdownLinkRef,
    MarkdownRef, RecordingSurface, SurfaceRecord,
};

#[test]
fn fragment_lookup_uses_the_recorded_slug() {
    let anchors = vec![("overview".to_string(), 12.0), ("overview-1".to_string(), 84.0)];
    assert_eq!(fragment_scroll_y(&anchors, "overview-1"), Some(84.0));
    assert_eq!(fragment_scroll_y(&anchors, "missing"), None);
}

#[test]
fn fragment_scroll_finds_anchor_and_missing_anchor_is_harmless() {
    let anchors = vec![("intro".to_string(), 0.0), ("details".to_string(), 140.0)];
    assert_eq!(fragment_scroll_y(&anchors, "details"), Some(140.0));
    assert_eq!(fragment_scroll_y(&anchors, "unknown"), None);
}

#[test]
fn markdown_link_action_preserves_the_original_href() {
    let action = MarkdownAction::LinkNavigated("../customer.md#orders".into());
    assert!(matches!(
        action,
        MarkdownAction::LinkNavigated(href) if href == "../customer.md#orders"
    ));
}

#[test]
fn fragment_scroll_on_an_empty_markdown_ref_is_harmless() {
    let mut markdown: MarkdownRef<f64> = MarkdownRef::empty();
    assert!(!markdown.scroll_to_fragment("missing"));
}

/// A surface that records the operations and hands out heading positions
/// 10, 20, 30, ...
struct Recorder {
    ops: Vec<String>,
    headings: u32,
}

impl Recorder {
    fn new() -> Self {
        Recorder { ops: Vec::new(), headings: 0 }
    }
}

impl LayoutSurface<f64> for Recorder {
    fn calls(&self) -> CallLog<f64> {
        unreachable!("the call log is a specification and is never computed")
    }

    fn apply(&mut self, op: &LayoutOp) {
        self.ops.push(format!("{:?}", op));
    }

    fn heading_y(&mut self) -> f64 {
        f64::from(self.headings * 10 + 10)
    }
}

impl Recorder {
    fn next_heading(&mut self) {
        self.headings += 1;
    }
}

struct CountingRecorder(Recorder);

impl LayoutSurface<f64> for CountingRecorder {
    fn calls(&self) -> CallLog<f64> {
        unreachable!("the call log is a specification and is never computed")
    }

    fn apply(&mut self, op: &LayoutOp) {
        if let LayoutOp::Plain(PlainOp::PushHeadingSize(_)) = op {
            self.0.next_heading();
        }
        self.0.apply(op);
    }

    fn heading_y(&mut self) -> f64 {
        self.0.heading_y()
    }
}

fn config() -> LayoutConfig {
    LayoutConfig { use_code_block_widget: false, use_math_widget: false }
}

#[test]
fn drawing_records_distinct_anchors_and_scroll_to_fragment_uses_them() {
    let mut md = Markdown::new("# Intro\n\nText\n\n# Intro\n\n## Details\n", config(), (0.0, 0.0));
    let mut surface = CountingRecorder(Recorder::new());
    md.draw(&mut surface);
    assert_eq!(md.fragment_y("intro"), Some(20.0));
    assert_eq!(md.fragment_y("intro-1"), Some(30.0));
    assert_eq!(md.fragment_y("details"), Some(40.0));
    assert_eq!(md.fragment_y("missing"), None);

    let mut handle = MarkdownRef::new(md);
    assert!(handle.scroll_to_fragment("details"));
    assert_eq!(handle.borrow().unwrap().scroll_pos(), (0.0, 40.0));
    assert!(!handle.scroll_to_fragment("nowhere"));
    assert_eq!(handle.borrow().unwrap().scroll_pos(), (0.0, 40.0));
}

#[test]
fn link_ids_start_over_on_each_draw() {
    let mut md: Markdown<f64> = Markdown::new("[a](x) and [b](y)", config(), (0.0, 0.0));
    let mut surface = Recorder::new();
    md.draw(&mut surface);
    md.draw(&mut surface);
    let links: Vec<&String> = surface.ops.iter().filter(|o| o.starts_with("Link")).collect();
    assert_eq!(links.len(), 4);
    assert_eq!(links[0], "Link(1, \"x\")");
    assert_eq!(links[1], "Link(2, \"y\")");
    assert_eq!(links[2], "Link(1, \"x\")");
}

#[test]
fn set_text_requests_a_redraw_only_on_change() {
    let mut md: Markdown<f64> = Markdown::new("a", config(), (0.0, 0.0));
    md.set_text("a");
    assert!(!md.take_redraw_request());
    md.set_text("b");
    assert_eq!(md.text(), "b");
    assert!(md.take_redraw_request());
    assert!(!md.take_redraw_request());

    let mut handle = MarkdownRef::new(md);
    handle.set_text("c");
    assert_eq!(handle.borrow().unwrap().text(), "c");
    let mut empty: MarkdownRef<f64> = MarkdownRef::empty();
    empty.set_text("c");
    assert!(empty.borrow().is_none());
}

#[test]
fn streaming_animation_through_handles() {
    let mut handle = MarkdownRef::new(Markdown::<f64>::new("", config(), (0.0, 0.0)));
    assert!(handle.is_streaming_animation_done());
    handle.start_streaming_animation();
    assert!(!handle.is_streaming_animation_done());
    handle.stop_streaming_animation();
    assert!(handle.is_streaming_animation_done());
    handle.reset_streaming_animation();
    assert!(!handle.is_streaming_animation_done());
    handle.reset_all_streaming_animations();
    assert!(handle.is_streaming_animation_done());

    let mut empty: MarkdownRef<f64> = MarkdownRef::empty();
    empty.start_streaming_animation();
    empty.reset_streaming_animation();
    empty.stop_streaming_animation();
    empty.reset_all_streaming_animations();
    assert!(empty.is_streaming_animation_done());
}

#[test]
fn a_stopped_animation_waits_for_its_fade() {
    let mut md = Markdown::<f64>::new("", config(), (0.0, 0.0));
    md.start_streaming_animation();
    md.set_fading(true);
    md.stop_streaming_animation();
    assert!(!md.is_streaming_animation_done());
    md.set_fading(false);
    assert!(md.is_streaming_animation_done());
}

#[test]
fn link_handle_sets_the_href_and_clicks_report_it() {
    let mut handle = MarkdownLinkRef::new(MarkdownLink::new("orders", "a.md"));
    handle.set_href("../customer.md#orders");
    let link = handle.borrow().unwrap();
    assert_eq!(link.text(), "orders");
    assert!(matches!(
        link.handle_actions(true),
        Some(MarkdownAction::LinkNavigated(href)) if href == "../customer.md#orders"
    ));
    assert!(link.handle_actions(false).is_none());
    let mut empty = MarkdownLinkRef::empty();
    empty.set_href("x");
    assert!(empty.borrow().is_none());
    assert!(matches!(MarkdownAction::default(), MarkdownAction::Nothing));
}

#[test]
fn markdown_is_not_interactive() {
    let md = Markdown::<f64>::new("", config(), (0.0, 0.0));
    assert!(!md.is_interactive());
}

fn ops_of(state: &mut LayoutState<f64>, ev: MdEvent) -> Vec<String> {
    state.step(&ev).iter().map(|o| format!("{:?}", o)).collect()
}

fn plain(p: PlainOp) -> String {
    format!("{:?}", LayoutOp::Plain(p))
}

#[test]
fn blocks_after_the_first_get_a_gap() {
    let mut s: LayoutState<f64> = LayoutState::new(config(), 0);
    assert!(ops_of(&mut s, MdEvent::Start(MdTag::Paragraph)).is_empty());
    assert_eq!(
        ops_of(&mut s, MdEvent::Start(MdTag::Paragraph)),
        vec![plain(PlainOp::NewLine(Some(BlockSpacing::Paragraph)))]
    );
    assert_eq!(
        ops_of(&mut s, MdEvent::Start(MdTag::CodeBlock(None))),
        vec![
            plain(PlainOp::NewLine(Some(BlockSpacing::PreCode))),
            plain(PlainOp::PushCodeSize),
            plain(PlainOp::PushCombineSpaces(false)),
            plain(PlainOp::PushStyle(TextStyle::Fixed)),
            plain(PlainOp::BeginCode),
        ]
    );
}

#[test]
fn ordered_list_items_count_up_from_the_start_number() {
    let mut s: LayoutState<f64> = LayoutState::new(config(), 0);
    ops_of(&mut s, MdEvent::Start(MdTag::List(Some(7))));
    assert_eq!(ops_of(&mut s, MdEvent::Start(MdTag::Item)), vec![format!("{:?}", LayoutOp::ListItem("7.".into()))]);
    ops_of(&mut s, MdEvent::End(MdTagEnd::Item));
    assert_eq!(
        ops_of(&mut s, MdEvent::Start(MdTag::Item)),
        vec![plain(PlainOp::NewLine(None)), format!("{:?}", LayoutOp::ListItem("8.".into()))]
    );
    ops_of(&mut s, MdEvent::Start(MdTag::List(None)));
    assert_eq!(
        ops_of(&mut s, MdEvent::Start(MdTag::Item)),
        vec![plain(PlainOp::NewLine(None)), format!("{:?}", LayoutOp::ListItem("•".into()))]
    );
    ops_of(&mut s, MdEvent::End(MdTagEnd::List));
    assert_eq!(
        ops_of(&mut s, MdEvent::Start(MdTag::Item)),
        vec![plain(PlainOp::NewLine(None)), format!("{:?}", LayoutOp::ListItem("9.".into()))]
    );
}

#[test]
fn runsplash_and_widget_code_blocks_collect_their_text() {
    let mut s: LayoutState<f64> =
        LayoutState::new(LayoutConfig { use_code_block_widget: true, use_math_widget: true }, 0);
    ops_of(&mut s, MdEvent::Start(MdTag::CodeBlock(Some("runsplash".into()))));
    assert!(ops_of(&mut s, MdEvent::Text("a".into())).is_empty());
    assert!(ops_of(&mut s, MdEvent::SoftBreak).is_empty());
    ops_of(&mut s, MdEvent::Text("b".into()));
    assert_eq!(
        ops_of(&mut s, MdEvent::End(MdTagEnd::CodeBlock)),
        vec![format!("{:?}", LayoutOp::Widget(EmbeddedWidget::SplashBlock, "a\nb".into()))]
    );
    ops_of(&mut s, MdEvent::Start(MdTag::CodeBlock(Some("rust".into()))));
    ops_of(&mut s, MdEvent::Text("fn x()\n".into()));
    assert_eq!(
        ops_of(&mut s, MdEvent::End(MdTagEnd::CodeBlock)),
        vec![format!("{:?}", LayoutOp::Widget(EmbeddedWidget::CodeBlock, "fn x()\n".into()))]
    );
    assert_eq!(
        ops_of(&mut s, MdEvent::InlineMath("x^2".into())),
        vec![format!("{:?}", LayoutOp::Widget(EmbeddedWidget::InlineMath, "x^2".into()))]
    );
}

#[test]
fn text_drops_trailing_newlines_and_breaks_render() {
    let mut s: LayoutState<f64> = LayoutState::new(config(), 0);
    assert_eq!(ops_of(&mut s, MdEvent::Text("hi\n\n".into())), vec![format!("{:?}", LayoutOp::Text("hi".into()))]);
    assert_eq!(ops_of(&mut s, MdEvent::SoftBreak), vec![format!("{:?}", LayoutOp::Text(" ".into()))]);
    assert_eq!(ops_of(&mut s, MdEvent::HardBreak), vec![plain(PlainOp::NewLine(None))]);
}

#[test]
fn inline_html_sub_and_sup_are_recognized() {
    let mut s: LayoutState<f64> = LayoutState::new(config(), 0);
    assert_eq!(ops_of(&mut s, MdEvent::InlineHtml(" <SUB> ".into())), vec![plain(PlainOp::PushScript(ScriptShift::Sub))]);
    assert_eq!(ops_of(&mut s, MdEvent::InlineHtml("</sub>".into())), vec![plain(PlainOp::PopScript)]);
    assert_eq!(ops_of(&mut s, MdEvent::InlineHtml("<sup>".into())), vec![plain(PlainOp::PushScript(ScriptShift::Sup))]);
    assert!(ops_of(&mut s, MdEvent::InlineHtml("<b>".into())).is_empty());
}

#[test]
fn table_cells_take_their_column_alignment() {
    let mut s: LayoutState<f64> = LayoutState::new(config(), 0);
    ops_of(&mut s, MdEvent::Start(MdTag::Table(vec![ColumnAlignment::Center])));
    ops_of(&mut s, MdEvent::Start(MdTag::TableHead));
    assert_eq!(
        ops_of(&mut s, MdEvent::Start(MdTag::TableCell)),
        vec![plain(PlainOp::BeginTableCell(ColumnAlignment::Center)), plain(PlainOp::PushStyle(TextStyle::Bold))]
    );
    ops_of(&mut s, MdEvent::End(MdTagEnd::TableCell));
    assert_eq!(
        ops_of(&mut s, MdEvent::Start(MdTag::TableCell)),
        vec![plain(PlainOp::BeginTableCell(ColumnAlignment::Unspecified)), plain(PlainOp::PushStyle(TextStyle::Bold))]
    );
    ops_of(&mut s, MdEvent::End(MdTagEnd::TableCell));
    ops_of(&mut s, MdEvent::End(MdTagEnd::TableHead));
    ops_of(&mut s, MdEvent::Start(MdTag::TableRow));
    assert_eq!(
        ops_of(&mut s, MdEvent::Start(MdTag::TableCell)),
        vec![plain(PlainOp::BeginTableCell(ColumnAlignment::Center))]
    );
}

#[test]
fn headings_collect_text_and_record_an_anchor() {
    let mut s: LayoutState<f64> = LayoutState::new(config(), 0);
    assert_eq!(
        ops_of(&mut s, MdEvent::Start(MdTag::Heading(MdHeadingLevel::H2))),
        vec![plain(PlainOp::PushHeadingSize(MdHeadingLevel::H2)), plain(PlainOp::PushStyle(TextStyle::Bold))]
    );
    assert!(s.awaits_heading_position());
    s.place_heading(5.0);
    assert!(!s.awaits_heading_position());
    ops_of(&mut s, MdEvent::Text("API: ".into()));
    ops_of(&mut s, MdEvent::Code("create()".into()));
    ops_of(&mut s, MdEvent::End(MdTagEnd::Heading));
    assert_eq!(s.into_anchors(), vec![("api-create".to_string(), 5.0)]);
}

#[test]
fn drawing_parses_the_document_into_layout_operations() {
    let mut md: Markdown<f64> = Markdown::new("# T\n\n- a\n\n| a |\n|:-:|\n| b |\n", config(), (0.0, 0.0));
    let mut surface = Recorder::new();
    md.draw(&mut surface);
    let expected: Vec<String> = vec![
        plain(PlainOp::PushHeadingSize(MdHeadingLevel::H1)),
        plain(PlainOp::PushStyle(TextStyle::Bold)),
        format!("{:?}", LayoutOp::Text("T".into())),
        plain(PlainOp::PopStyle(TextStyle::Bold)),
        plain(PlainOp::PopFontSize),
        plain(PlainOp::NewLine(None)),
        plain(PlainOp::NewLine(None)),
        format!("{:?}", LayoutOp::ListItem("•".into())),
        format!("{:?}", LayoutOp::Text("a".into())),
        plain(PlainOp::EndListItem),
        plain(PlainOp::NewLine(Some(BlockSpacing::Paragraph))),
        plain(PlainOp::BeginTable(1)),
        plain(PlainOp::BeginTableHeaderRow),
        plain(PlainOp::BeginTableCell(ColumnAlignment::Center)),
        plain(PlainOp::PushStyle(TextStyle::Bold)),
        format!("{:?}", LayoutOp::Text("a".into())),
        plain(PlainOp::PopStyle(TextStyle::Bold)),
        plain(PlainOp::EndTableCell),
        plain(PlainOp::EndTableRow),
        plain(PlainOp::BeginTableRow),
        plain(PlainOp::BeginTableCell(ColumnAlignment::Center)),
        format!("{:?}", LayoutOp::Text("b".into())),
        plain(PlainOp::EndTableCell),
        plain(PlainOp::EndTableRow),
        plain(PlainOp::EndTable),
        plain(PlainOp::NewLine(Some(BlockSpacing::Paragraph))),
    ];
    assert_eq!(surface.ops, expected);
    assert_eq!(md.fragment_y("t"), Some(10.0));
}

/// A text flow scrolled by `scroll`: its cursor moves down 20 units per new
/// line and 30 per heading, in content coordinates, and is drawn at
/// `origin + content_y - scroll` on screen. It answers a heading's position
/// in content coordinates, from the on-screen cursor.
struct ScrolledFlow {
    origin: f64,
    scroll: f64,
    content_y: f64,
}

impl ScrolledFlow {
    fn new(origin: f64, scroll: f64) -> Self {
        ScrolledFlow { origin, scroll, content_y: 0.0 }
    }

    fn turtle_y(&self) -> f64 {
        self.origin + self.content_y - self.scroll
    }
}

impl LayoutSurface<f64> for ScrolledFlow {
    fn calls(&self) -> CallLog<f64> {
        unreachable!("the call log is a specification and is never computed")
    }

    fn apply(&mut self, op: &LayoutOp) {
        match op {
            LayoutOp::Plain(PlainOp::NewLine(_)) => self.content_y += 20.0,
            LayoutOp::Plain(PlainOp::PopFontSize) => self.content_y += 30.0,
            _ => {}
        }
    }

    fn heading_y(&mut self) -> f64 {
        self.turtle_y() + self.scroll - self.origin
    }
}

#[test]
fn heading_anchor_stays_stable_after_real_scrolled_redraw() {
    let body = "# Intro\n\n\
                Paragraph one.\n\n\
                Paragraph two.\n\n\
                Paragraph three.\n\n\
                Paragraph four.\n\n\
                Paragraph five.\n\n\
                # Details\n";
    let mut md: Markdown<f64> = Markdown::new(body, config(), (0.0, 0.0));
    let mut surface = ScrolledFlow::new(16.0, md.scroll_pos().1);
    md.draw(&mut surface);
    assert_eq!(md.fragment_y("intro"), Some(0.0));
    let first_y = md.fragment_y("details").expect("first draw should record the details anchor");
    assert!(first_y > 0.0);

    let mut markdown_ref = MarkdownRef::new(md);
    assert!(markdown_ref.scroll_to_fragment("details"));
    let first_scroll_y = markdown_ref.scroll_pos().expect("markdown should remain borrowable").1;
    assert!(first_scroll_y > 0.0);

    let mut md = match markdown_ref.borrow() {
        Some(m) => Markdown::new(&m.text(), config(), m.scroll_pos()),
        None => unreachable!(),
    };
    let mut surface = ScrolledFlow::new(16.0, md.scroll_pos().1);
    assert!(surface.turtle_y() < 16.0);
    md.draw(&mut surface);
    let redrawn_y = md.fragment_y("details").expect("redraw should preserve the details anchor");
    assert!((redrawn_y - first_y).abs() < 0.001);

    let mut markdown_ref = MarkdownRef::new(md);
    assert!(markdown_ref.scroll_to_fragment("details"));
    let second_scroll_y = markdown_ref.scroll_pos().expect("markdown should remain borrowable").1;
    assert!((second_scroll_y - first_scroll_y).abs() < 0.001);
}

#[test]
fn a_recording_surface_keeps_every_call_in_order() {
    let mut md: Markdown<u32> = Markdown::new("## A\n\n[l](b.md#x)\n\n## A\n", config(), (0, 0));
    let mut surface: RecordingSurface<u32> = RecordingSurface::new(7);
    md.draw(&mut surface);
    assert_eq!(md.fragment_y("a"), Some(7));
    assert_eq!(md.fragment_y("a-1"), Some(7));
    let records: Vec<String> = surface.into_records().iter().map(|r| format!("{:?}", r)).collect();
    let applied = |op: LayoutOp| format!("{:?}", SurfaceRecord::<u32>::Applied(op));
    let measured = format!("{:?}", SurfaceRecord::<u32>::Measured(7));
    assert_eq!(
        records,
        vec![
            applied(LayoutOp::Plain(PlainOp::PushHeadingSize(MdHeadingLevel::H2))),
            applied(LayoutOp::Plain(PlainOp::PushStyle(TextStyle::Bold))),
            measured.clone(),
            applied(LayoutOp::Text("A".into())),
            applied(LayoutOp::Plain(PlainOp::PopStyle(TextStyle::Bold))),
            applied(LayoutOp::Plain(PlainOp::PopFontSize)),
            applied(LayoutOp::Plain(PlainOp::NewLine(None))),
            applied(LayoutOp::Plain(PlainOp::NewLine(Some(BlockSpacing::Paragraph)))),
            applied(LayoutOp::Link(1, "b.md#x".into())),
            applied(LayoutOp::Text("l".into())),
            applied(LayoutOp::Plain(PlainOp::NewLine(Some(BlockSpacing::Paragraph)))),
            applied(LayoutOp::Plain(PlainOp::PushHeadingSize(MdHeadingLevel::H2))),
            applied(LayoutOp::Plain(PlainOp::PushStyle(TextStyle::Bold))),
            measured,
            applied(LayoutOp::Text("A".into())),
            applied(LayoutOp::Plain(PlainOp::PopStyle(TextStyle::Bold))),
            applied(LayoutOp::Plain(PlainOp::PopFontSize)),
            applied(LayoutOp::Plain(PlainOp::NewLine(None))),
        ]
    );
}

#[test]
fn set_scroll_y_keeps_the_horizontal_position() {
    let mut handle = MarkdownRef::new(Markdown::<f64>::new("", config(), (3.0, 0.0)));
    handle.set_scroll_y(24.0);
    assert_eq!(handle.scroll_pos(), Some((3.0, 24.0)));
    let mut empty: MarkdownRef<f64> = MarkdownRef::empty();
    empty.set_scroll_y(24.0);
    assert_eq!(empty.scroll_pos(), None);
}
