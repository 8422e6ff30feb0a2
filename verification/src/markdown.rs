//! The markdown widget as values: its text, the anchors of its headings, its
//! scroll position and streaming animation; the handles through which an app
//! reaches it, which may be empty; and its links.
//!
//! Drawing goes through [`LayoutSurface`], implemented by the text flow. The
//! widget is generic over the coordinate type `P` of positions.

use vstd::prelude::*;
use crate::events::{markdown_events_of, parse_markdown, MdEvent, MdTag};
use crate::slug::slug_run;
use crate::layout::{
    anchor_slugs, applied_calls, closed_heading_texts, heading_starts, law_anchors_follow_heading_slugs,
    ops_view, run_calls, CallLog, OpView, SurfaceCall, anchors_kept, initial_model, law_layout_keeps_anchor_slugs_distinct, layout_run,
    lemma_initial_anchors_kept, run_steppable, starts_heading, steppable, ys_before_last,
    LayoutConfig, LayoutModel, LayoutOp, LayoutState,
};

verus! {

/// What a markdown link reports when it is clicked.
#[derive(Clone, Debug)]
pub enum MarkdownAction {
    /// Nothing happened.
    Nothing,
    /// The link with this destination was followed; the destination is the
    /// href exactly as the document wrote it.
    LinkNavigated(String),
}

impl Default for MarkdownAction {
    fn default() -> (r: Self)
        ensures
            r is Nothing,
    {
        MarkdownAction::Nothing
    }
}

/// The text flow that a markdown document is laid out on.
pub trait LayoutSurface<P> {
    /// The calls made on the surface so far, in order.
    spec fn calls(&self) -> CallLog<P>;

    /// Performs one layout operation.
    fn apply(&mut self, op: &LayoutOp)
        ensures
            final(self).calls() == old(self).calls().push(SurfaceCall::Applied(op@)),
    ;

    /// The position of the heading that was just begun, in content
    /// coordinates (independent of the current scroll position).
    fn heading_y(&mut self) -> (y: P)
        ensures
            final(self).calls() == old(self).calls().push(SurfaceCall::Measured(y)),
    ;
}

/// The first anchor of `anchors` with slug `fragment`, from index `from` on:
/// its position.
pub open spec fn anchor_y_from<P>(anchors: Seq<(Seq<char>, P)>, fragment: Seq<char>, from: int) -> Option<P>
    decreases anchors.len() - from,
{
    if from < 0 || from >= anchors.len() {
        None
    } else if anchors[from].0 == fragment {
        Some(anchors[from].1)
    } else {
        anchor_y_from(anchors, fragment, from + 1)
    }
}

/// The position of the first anchor with slug `fragment`.
pub open spec fn anchor_y<P>(anchors: Seq<(Seq<char>, P)>, fragment: Seq<char>) -> Option<P> {
    anchor_y_from(anchors, fragment, 0)
}

/// A fragment finds only the heading whose anchor is exactly the fragment:
/// the lookup gives nothing when no anchor equals it, and otherwise the
/// position of the first anchor equal to it (never one that merely starts or
/// ends with it).
pub proof fn law_fragment_lookup_is_exact<P>(anchors: Seq<(Seq<char>, P)>, fragment: Seq<char>)
    ensures
        anchor_y(anchors, fragment) is None <==> forall|i: int|
            0 <= i < anchors.len() ==> #[trigger] anchors[i].0 != fragment,
        anchor_y(anchors, fragment) matches Some(y) ==> exists|i: int|
            0 <= i < anchors.len() && #[trigger] anchors[i].0 == fragment && anchors[i].1 == y
                && forall|j: int| 0 <= j < i ==> anchors[j].0 != fragment,
{
    lemma_lookup_from_is_exact(anchors, fragment, 0);
}

proof fn lemma_lookup_from_is_exact<P>(anchors: Seq<(Seq<char>, P)>, fragment: Seq<char>, from: int)
    requires
        0 <= from <= anchors.len(),
    ensures
        anchor_y_from(anchors, fragment, from) is None <==> forall|i: int|
            from <= i < anchors.len() ==> #[trigger] anchors[i].0 != fragment,
        anchor_y_from(anchors, fragment, from) matches Some(y) ==> exists|i: int|
            from <= i < anchors.len() && #[trigger] anchors[i].0 == fragment && anchors[i].1 == y
                && forall|j: int| from <= j < i ==> anchors[j].0 != fragment,
    decreases anchors.len() - from,
{
    if from < anchors.len() {
        lemma_lookup_from_is_exact(anchors, fragment, from + 1);
        if anchors[from].0 == fragment {
            assert(anchors[from].0 == fragment);
        } else {
            match anchor_y_from(anchors, fragment, from) {
                Some(y) => {
                    let i = choose|i: int|
                        from + 1 <= i < anchors.len() && #[trigger] anchors[i].0 == fragment && anchors[i].1 == y
                            && forall|j: int| from + 1 <= j < i ==> anchors[j].0 != fragment;
                    assert(forall|j: int| from <= j < i ==> anchors[j].0 != fragment);
                },
                None => {},
            }
        }
    }
}

/// Anchors as values.
pub open spec fn anchors_view<P>(anchors: Seq<(String, P)>) -> Seq<(Seq<char>, P)> {
    anchors.map_values(|a: (String, P)| (a.0@, a.1))
}

/// The position recorded for the heading whose anchor is `fragment`.
pub fn fragment_scroll_y<P: Copy>(anchors: &[(String, P)], fragment: &str) -> (r: Option<P>)
    ensures
        r == anchor_y(anchors_view(anchors@), fragment@),
        r is None <==> forall|i: int| 0 <= i < anchors@.len() ==> #[trigger] anchors@[i].0@ != fragment@,
        r matches Some(y) ==> exists|i: int|
            0 <= i < anchors@.len() && #[trigger] anchors@[i].0@ == fragment@ && anchors@[i].1 == y
                && forall|j: int| 0 <= j < i ==> anchors@[j].0@ != fragment@,
{
    proof {
        let av = anchors_view(anchors@);
        let f = fragment@;
        law_fragment_lookup_is_exact(av, f);
        assert forall|i: int| 0 <= i < anchors@.len() implies #[trigger] av[i] == (anchors@[i].0@, anchors@[i].1) by {}
        assert((anchor_y(av, f) is None) <==> forall|i: int| 0 <= i < anchors@.len() ==> #[trigger] anchors@[i].0@ != f) by {
            if anchor_y(av, f) is None {
                assert forall|i: int| 0 <= i < anchors@.len() implies #[trigger] anchors@[i].0@ != f by {
                    assert(av[i].0 != f);
                }
            } else {
                let y = anchor_y(av, f)->0;
                let i = choose|i: int| 0 <= i < av.len() && #[trigger] av[i].0 == f && av[i].1 == y
                    && forall|j: int| 0 <= j < i ==> av[j].0 != f;
                assert(anchors@[i].0@ == f);
            }
        }
        match anchor_y(av, f) {
            Some(y) => {
                let i = choose|i: int| 0 <= i < av.len() && #[trigger] av[i].0 == f && av[i].1 == y
                    && forall|j: int| 0 <= j < i ==> av[j].0 != f;
                assert(anchors@[i].0@ == f && anchors@[i].1 == y);
                assert forall|j: int| 0 <= j < i implies anchors@[j].0@ != f by {
                    assert(av[j].0 != f);
                }
                assert(exists|k: int|
                    0 <= k < anchors@.len() && #[trigger] anchors@[k].0@ == f && anchors@[k].1 == y
                        && forall|j: int| 0 <= j < k ==> anchors@[j].0@ != f);
            },
            None => {},
        }
    }
    let wanted = String::from_str(fragment);
    let ghost av = anchors_view(anchors@);
    let mut i: usize = 0;
    while i < anchors.len()
        invariant
            i <= anchors@.len(),
            av == anchors_view(anchors@),
            wanted@ == fragment@,
            anchor_y(av, fragment@) == anchor_y_from(av, fragment@, i as int),
            anchor_y(av, fragment@) matches Some(y) ==> exists|k: int|
                0 <= k < anchors@.len() && #[trigger] anchors@[k].0@ == fragment@ && anchors@[k].1 == y
                    && forall|j: int| 0 <= j < k ==> anchors@[j].0@ != fragment@,
        decreases anchors@.len() - i,
    {
        assert(av[i as int] == (anchors@[i as int].0@, anchors@[i as int].1));
        if anchors[i].0 == wanted {
            return Some(anchors[i].1);
        }
        i = i + 1;
    }
    None
}

/// The fade-in of streamed text in the text flow.
pub struct StreamingAnimation {
    /// New text fades in as it arrives.
    streaming: bool,
    /// Some text is still fading in.
    fading: bool,
}

impl StreamingAnimation {
    /// New text fades in as it arrives.
    pub closed spec fn is_streaming(&self) -> bool {
        self.streaming
    }

    /// Some text is still fading in.
    pub closed spec fn is_fading(&self) -> bool {
        self.fading
    }

    /// No animation.
    pub fn new() -> (r: Self)
        ensures
            !r.is_streaming(),
            !r.is_fading(),
    {
        StreamingAnimation { streaming: false, fading: false }
    }

    /// New text fades in from now on.
    pub fn start(&mut self)
        ensures
            final(self).is_streaming(),
            final(self).is_fading() == old(self).is_fading(),
    {
        self.streaming = true;
    }

    /// Forgets the fades in progress and starts streaming anew.
    pub fn reset(&mut self)
        ensures
            final(self).is_streaming(),
            !final(self).is_fading(),
    {
        self.streaming = true;
        self.fading = false;
    }

    /// Stops streaming; fades in progress complete naturally.
    pub fn stop(&mut self)
        ensures
            !final(self).is_streaming(),
            final(self).is_fading() == old(self).is_fading(),
    {
        self.streaming = false;
    }

    /// Streaming stopped and no text is fading any more.
    pub fn is_done(&self) -> (r: bool)
        ensures
            r == (!self.is_streaming() && !self.is_fading()),
    {
        !self.streaming && !self.fading
    }

    /// Ends every animation: nothing streams or fades.
    pub fn reset_all(&mut self)
        ensures
            !final(self).is_streaming(),
            !final(self).is_fading(),
    {
        self.streaming = false;
        self.fading = false;
    }

    /// Records, after a frame, whether text is still fading in.
    pub fn set_fading(&mut self, fading: bool)
        ensures
            final(self).is_streaming() == old(self).is_streaming(),
            final(self).is_fading() == fading,
    {
        self.fading = fading;
    }
}

/// A markdown widget.
pub struct Markdown<P> {
    body: String,
    config: LayoutConfig,
    auto_id: u64,
    heading_anchors: Vec<(String, P)>,
    scroll: (P, P),
    redraw: bool,
    animation: StreamingAnimation,
}

impl<P> Markdown<P> {
    /// The markdown text.
    pub closed spec fn body(&self) -> Seq<char> {
        self.body@
    }

    /// The widget options of the layout.
    pub closed spec fn config(&self) -> LayoutConfig {
        self.config
    }

    /// The id of the last link drawn.
    pub closed spec fn last_link_id(&self) -> u64 {
        self.auto_id
    }

    /// The anchor of each heading drawn: its slug and position.
    pub closed spec fn anchors(&self) -> Seq<(Seq<char>, P)> {
        anchors_view(self.heading_anchors@)
    }

    /// The scroll position `(x, y)`.
    pub closed spec fn scroll(&self) -> (P, P) {
        self.scroll
    }

    /// A redraw was requested and not yet taken.
    pub closed spec fn redraw_requested(&self) -> bool {
        self.redraw
    }

    /// The streaming animation of the text flow.
    pub closed spec fn animation(&self) -> StreamingAnimation {
        self.animation
    }

    /// A widget showing `body`, scrolled to `scroll`, not yet drawn.
    pub fn new(body: &str, config: LayoutConfig, scroll: (P, P)) -> (r: Self)
        ensures
            r.body() == body@,
            r.config() == config,
            r.last_link_id() == 0,
            r.anchors() == Seq::<(Seq<char>, P)>::empty(),
            r.scroll() == scroll,
            !r.redraw_requested(),
            !r.animation().is_streaming(),
            !r.animation().is_fading(),
    {
        let r = Markdown {
            body: String::from_str(body),
            config,
            auto_id: 0,
            heading_anchors: Vec::new(),
            scroll,
            redraw: false,
            animation: StreamingAnimation::new(),
        };
        assert(r.anchors() =~= Seq::<(Seq<char>, P)>::empty());
        r
    }

    /// The markdown widget only shows text.
    pub fn is_interactive(&self) -> (r: bool)
        ensures
            !r,
    {
        false
    }

    /// The markdown text.
    pub fn text(&self) -> (r: String)
        ensures
            r@ == self.body(),
    {
        self.body.clone()
    }

    /// Replaces the markdown text; requests a redraw only where it changed.
    pub fn set_text(&mut self, v: &str)
        ensures
            final(self).body() == v@,
            final(self).redraw_requested() == (old(self).redraw_requested() || old(self).body() != v@),
            final(self).anchors() == old(self).anchors(),
            final(self).scroll() == old(self).scroll(),
            final(self).config() == old(self).config(),
            final(self).last_link_id() == old(self).last_link_id(),
            final(self).animation() == old(self).animation(),
    {
        let new_body = String::from_str(v);
        if self.body != new_body {
            self.body = new_body;
            self.redraw = true;
        }
    }

    /// Takes the pending redraw request, if any.
    pub fn take_redraw_request(&mut self) -> (r: bool)
        ensures
            r == old(self).redraw_requested(),
            !final(self).redraw_requested(),
            final(self).body() == old(self).body(),
            final(self).anchors() == old(self).anchors(),
            final(self).scroll() == old(self).scroll(),
            final(self).config() == old(self).config(),
            final(self).last_link_id() == old(self).last_link_id(),
            final(self).animation() == old(self).animation(),
    {
        let r = self.redraw;
        self.redraw = false;
        r
    }

    /// The position of the heading whose anchor is `fragment`.
    pub fn fragment_y(&self, fragment: &str) -> (r: Option<P>)
        where
            P: Copy,
        ensures
            r == anchor_y(self.anchors(), fragment@),
    {
        fragment_scroll_y(self.heading_anchors.as_slice(), fragment)
    }
}

/// `result` is the layout of the first `n` events of `evs` from `init`, with
/// the headings placed at `ys`, where layout stopped either at the end or at
/// the first event whose counters would overflow.
pub open spec fn laid_out<P>(init: LayoutModel<P>, evs: Seq<MdEvent>, n: nat, ys: Seq<P>, result: LayoutModel<P>) -> bool {
    &&& n <= evs.len()
    &&& run_steppable(init, evs.take(n as int), ys)
    &&& (n < evs.len() ==> !steppable(layout_run(init, evs.take(n as int), ys), evs[n as int]))
    &&& result == layout_run(init, evs.take(n as int), ys)
}

/// Drawing the first `n` events of `evs` from `init`, with the headings
/// placed at `ys`, gave `result` and turned the surface's calls from
/// `before` into `after`: every heading start got a position, the surface
/// saw exactly the run's operations and position questions, and the anchors
/// are named by successive `heading_slug` calls on the closed headings.
pub open spec fn drawn<P>(
    init: LayoutModel<P>,
    evs: Seq<MdEvent>,
    n: nat,
    ys: Seq<P>,
    result: LayoutModel<P>,
    before: Seq<SurfaceCall<P>>,
    after: Seq<SurfaceCall<P>>,
) -> bool {
    &&& laid_out(init, evs, n, ys, result)
    &&& ys.len() == heading_starts(evs.take(n as int))
    &&& after == before + run_calls(init, evs.take(n as int), ys)
    &&& anchor_slugs(result.anchors) == slug_run(
        closed_heading_texts(init, evs.take(n as int), ys),
        init.counters,
        init.emitted,
    ).0
}

impl<P> Markdown<P> {
    /// Lays the document out on `surface`: parses the text, performs the
    /// layout operations of each event in order, asks the surface for the
    /// position of each heading right after its start, and records one
    /// anchor per heading and the last link id. Layout stops early only at an
    /// event whose counters would overflow.
    pub fn process_markdown_doc<S: LayoutSurface<P>>(&mut self, surface: &mut S)
        ensures
            exists|n: nat, ys: Seq<P>, result: LayoutModel<P>|
                #[trigger] drawn(
                    initial_model::<P>(old(self).config(), old(self).last_link_id() as nat),
                    markdown_events_of(old(self).body()),
                    n,
                    ys,
                    result,
                    old(surface).calls(),
                    final(surface).calls(),
                ) && final(self).anchors() == result.anchors
                    && final(self).last_link_id() == result.auto_id,
            forall|i: int, j: int|
                0 <= i < j < final(self).anchors().len() ==> final(self).anchors()[i].0
                    != final(self).anchors()[j].0,
            final(self).body() == old(self).body(),
            final(self).config() == old(self).config(),
            final(self).scroll() == old(self).scroll(),
            final(self).redraw_requested() == old(self).redraw_requested(),
            final(self).animation() == old(self).animation(),
    {
        let events = parse_markdown(self.body.as_str());
        let ghost init = initial_model::<P>(self.config, self.auto_id as nat);
        let ghost calls0 = surface.calls();
        let mut state: LayoutState<P> = LayoutState::new(self.config, self.auto_id);
        let ghost mut ys: Seq<P> = Seq::empty();
        proof {
            lemma_initial_anchors_kept::<P>(self.config, self.auto_id as nat);
            assert(events@.take(0) =~= Seq::<MdEvent>::empty());
            assert(calls0 + run_calls(init, events@.take(0), ys) =~= calls0);
        }
        let mut i: usize = 0;
        while i < events.len()
            invariant_except_break
                i <= events@.len(),
                state.wf(),
                run_steppable(init, events@.take(i as int), ys),
                state.model() == layout_run(init, events@.take(i as int), ys),
                ys.len() == heading_starts(events@.take(i as int)),
                surface.calls() == calls0 + run_calls(init, events@.take(i as int), ys),
            ensures
                i <= events@.len(),
                state.wf(),
                laid_out(init, events@, i as nat, ys, state.model()),
                ys.len() == heading_starts(events@.take(i as int)),
                surface.calls() == calls0 + run_calls(init, events@.take(i as int), ys),
            decreases events@.len() - i,
        {
            if !state.can_step(&events[i]) {
                break;
            }
            let ghost before = events@.take(i as int);
            let ghost m_before = state.model();
            let ghost calls_before = surface.calls();
            let ops = state.step(&events[i]);
            let ghost opv = ops_view(ops@);
            let mut j: usize = 0;
            assert(applied_calls::<P>(opv.take(0)) =~= Seq::<SurfaceCall<P>>::empty());
            assert(calls_before + applied_calls::<P>(opv.take(0)) =~= calls_before);
            while j < ops.len()
                invariant
                    j <= ops@.len(),
                    opv == ops_view(ops@),
                    surface.calls() == calls_before + applied_calls::<P>(opv.take(j as int)),
                decreases ops@.len() - j,
            {
                surface.apply(&ops[j]);
                proof {
                    assert(opv[j as int] == ops@[j as int]@);
                    assert(applied_calls::<P>(opv.take(j + 1)) =~= applied_calls::<P>(opv.take(j as int)).push(
                        SurfaceCall::Applied(opv[j as int]),
                    ));
                    assert(surface.calls() =~= calls_before + applied_calls::<P>(opv.take(j + 1)));
                }
                j = j + 1;
            }
            assert(opv.take(ops@.len() as int) =~= opv);
            let ghost calls_ops = surface.calls();
            let heading_start = match &events[i] {
                MdEvent::Start(MdTag::Heading(_)) => true,
                _ => false,
            };
            let ghost ys0 = ys;
            if heading_start {
                let y = surface.heading_y();
                state.place_heading(y);
                proof {
                    ys = ys.push(y);
                }
            }
            proof {
                let after = events@.take(i + 1);
                assert(after.drop_last() =~= before);
                assert(after.last() == events@[i as int]);
                assert(starts_heading(events@[i as int]) == heading_start);
                if heading_start {
                    assert(ys.drop_last() =~= ys0);
                }
                assert(ys_before_last(after, ys) == ys0);
                assert(opv == crate::layout::layout_step(m_before, events@[i as int]).1);
                assert(run_calls(init, after, ys) == run_calls(init, before, ys0) + applied_calls(opv) + if heading_start {
                    seq![SurfaceCall::Measured(ys.last())]
                } else {
                    Seq::empty()
                });
                assert(surface.calls() =~= calls0 + run_calls(init, after, ys));
            }
            i = i + 1;
        }
        proof {
            if i == events@.len() {
                assert(events@.take(i as int) =~= events@);
            }
            law_layout_keeps_anchor_slugs_distinct(init, events@.take(i as int), ys);
            law_anchors_follow_heading_slugs(init, events@.take(i as int), ys);
            assert(anchor_slugs(init.anchors) =~= Seq::<Seq<char>>::empty());
            assert(laid_out(init, events@, i as nat, ys, state.model()));
        }
        let ghost result = state.model();
        self.auto_id = state.auto_id();
        self.heading_anchors = state.into_anchors();
        proof {
            assert(self.anchors() =~= result.anchors);
            assert(anchor_slugs(result.anchors) =~= slug_run(
                closed_heading_texts(init, events@.take(i as int), ys),
                init.counters,
                init.emitted,
            ).0);
            assert(drawn(
                initial_model::<P>(old(self).config(), old(self).last_link_id() as nat),
                markdown_events_of(old(self).body()),
                i as nat,
                ys,
                result,
                old(surface).calls(),
                final(surface).calls(),
            ));
        }
    }

    /// Draws the widget: link ids start over, then the document is laid out.
    pub fn draw<S: LayoutSurface<P>>(&mut self, surface: &mut S)
        ensures
            exists|n: nat, ys: Seq<P>, result: LayoutModel<P>|
                #[trigger] drawn(
                    initial_model::<P>(old(self).config(), 0),
                    markdown_events_of(old(self).body()),
                    n,
                    ys,
                    result,
                    old(surface).calls(),
                    final(surface).calls(),
                ) && final(self).anchors() == result.anchors
                    && final(self).last_link_id() == result.auto_id,
            forall|i: int, j: int|
                0 <= i < j < final(self).anchors().len() ==> final(self).anchors()[i].0
                    != final(self).anchors()[j].0,
            final(self).body() == old(self).body(),
            final(self).config() == old(self).config(),
            final(self).scroll() == old(self).scroll(),
            final(self).redraw_requested() == old(self).redraw_requested(),
            final(self).animation() == old(self).animation(),
    {
        self.auto_id = 0;
        assert(initial_model::<P>(self.config(), self.last_link_id() as nat) == initial_model::<P>(
            old(self).config(),
            0,
        ));
        assert(self.body() == old(self).body());
        self.process_markdown_doc(surface);
    }
}

impl<P> Markdown<P> {
    /// The widget scrolled to `pos`, with a redraw requested.
    pub closed spec fn scrolled_to(self, pos: (P, P)) -> Markdown<P> {
        Markdown { scroll: pos, redraw: true, ..self }
    }

    /// The widget with its streaming animation replaced.
    pub closed spec fn with_animation(self, animation: StreamingAnimation) -> Markdown<P> {
        Markdown { animation, ..self }
    }

    /// Scrolling sets the scroll position and requests a redraw; the text,
    /// anchors, options, last link id and animation stay.
    pub proof fn lemma_scrolled_to(self, pos: (P, P))
        ensures
            self.scrolled_to(pos).scroll() == pos,
            self.scrolled_to(pos).redraw_requested(),
            self.scrolled_to(pos).body() == self.body(),
            self.scrolled_to(pos).anchors() == self.anchors(),
            self.scrolled_to(pos).config() == self.config(),
            self.scrolled_to(pos).last_link_id() == self.last_link_id(),
            self.scrolled_to(pos).animation() == self.animation(),
    {
    }

    /// Replacing the animation changes nothing else.
    pub proof fn lemma_with_animation(self, animation: StreamingAnimation)
        ensures
            self.with_animation(animation).animation() == animation,
            self.with_animation(animation).scroll() == self.scroll(),
            self.with_animation(animation).redraw_requested() == self.redraw_requested(),
            self.with_animation(animation).body() == self.body(),
            self.with_animation(animation).anchors() == self.anchors(),
            self.with_animation(animation).config() == self.config(),
            self.with_animation(animation).last_link_id() == self.last_link_id(),
    {
    }

    /// The scroll position `(x, y)`.
    pub fn scroll_pos(&self) -> (r: (P, P))
        where
            P: Copy,
        ensures
            r == self.scroll(),
    {
        self.scroll
    }

    /// Scrolls to `pos` and requests a redraw.
    pub fn set_scroll_pos(&mut self, pos: (P, P))
        ensures
            *final(self) == old(self).scrolled_to(pos),
            final(self).scroll() == pos,
            final(self).redraw_requested(),
            final(self).body() == old(self).body(),
            final(self).anchors() == old(self).anchors(),
            final(self).config() == old(self).config(),
            final(self).last_link_id() == old(self).last_link_id(),
            final(self).animation() == old(self).animation(),
    {
        self.scroll = pos;
        self.redraw = true;
    }

    /// Starts the streaming animation of the text flow.
    pub fn start_streaming_animation(&mut self)
        ensures
            final(self).animation().is_streaming(),
            final(self).animation().is_fading() == old(self).animation().is_fading(),
            *final(self) == old(self).with_animation(final(self).animation()),
    {
        self.animation.start();
    }

    /// Resets and starts the streaming animation of the text flow.
    pub fn reset_streaming_animation(&mut self)
        ensures
            final(self).animation().is_streaming(),
            !final(self).animation().is_fading(),
            *final(self) == old(self).with_animation(final(self).animation()),
    {
        self.animation.reset();
    }

    /// Stops the streaming animation of the text flow; fades complete naturally.
    pub fn stop_streaming_animation(&mut self)
        ensures
            !final(self).animation().is_streaming(),
            final(self).animation().is_fading() == old(self).animation().is_fading(),
            *final(self) == old(self).with_animation(final(self).animation()),
    {
        self.animation.stop();
    }

    /// Ends every animation of the text flow.
    pub fn reset_all_streaming_animations(&mut self)
        ensures
            !final(self).animation().is_streaming(),
            !final(self).animation().is_fading(),
            *final(self) == old(self).with_animation(final(self).animation()),
    {
        self.animation.reset_all();
    }

    /// Records, after a frame of the text flow, whether text is still fading in.
    pub fn set_fading(&mut self, fading: bool)
        ensures
            final(self).animation().is_streaming() == old(self).animation().is_streaming(),
            final(self).animation().is_fading() == fading,
            *final(self) == old(self).with_animation(final(self).animation()),
    {
        self.animation.set_fading(fading);
    }

    /// Streaming stopped and no text is fading any more.
    pub fn is_streaming_animation_done(&self) -> (r: bool)
        ensures
            r == (!self.animation().is_streaming() && !self.animation().is_fading()),
    {
        self.animation.is_done()
    }
}

/// A handle to a markdown widget, which may be empty.
pub struct MarkdownRef<P> {
    inner: Option<Markdown<P>>,
}

impl<P> MarkdownRef<P> {
    /// The widget the handle reaches, if any.
    pub closed spec fn widget(&self) -> Option<Markdown<P>> {
        self.inner
    }

    /// A handle that reaches no widget.
    pub fn empty() -> (r: Self)
        ensures
            r.widget() is None,
    {
        MarkdownRef { inner: None }
    }

    /// A handle to `markdown`.
    pub fn new(markdown: Markdown<P>) -> (r: Self)
        ensures
            r.widget() == Some(markdown),
    {
        MarkdownRef { inner: Some(markdown) }
    }

    /// The widget, if the handle reaches one.
    pub fn borrow(&self) -> (r: Option<&Markdown<P>>)
        ensures
            match self.widget() {
                Some(m) => r matches Some(b) && *b == m,
                None => r is None,
            },
    {
        match &self.inner {
            Some(m) => Some(m),
            None => None,
        }
    }

    /// Scrolls to the heading whose anchor is `fragment`, keeping the
    /// horizontal position, and requests a redraw. False, and nothing
    /// changes, where the handle is empty or no heading has that anchor.
    pub fn scroll_to_fragment(&mut self, fragment: &str) -> (r: bool)
        where
            P: Copy,
        ensures
            match old(self).widget() {
                Some(m) => match anchor_y(m.anchors(), fragment@) {
                    Some(y) => r && final(self).widget() == Some(m.scrolled_to((m.scroll().0, y))),
                    None => !r && final(self).widget() == old(self).widget(),
                },
                None => !r && final(self).widget() is None,
            },
    {
        match &mut self.inner {
            Some(inner) => {
                match inner.fragment_y(fragment) {
                    Some(y) => {
                        let x = inner.scroll_pos().0;
                        inner.set_scroll_pos((x, y));
                        true
                    },
                    None => false,
                }
            },
            None => false,
        }
    }

    /// The scroll position `(x, y)` of the widget, if the handle reaches one.
    pub fn scroll_pos(&self) -> (r: Option<(P, P)>)
        where
            P: Copy,
        ensures
            r == match self.widget() {
                Some(m) => Some(m.scroll()),
                None => None::<(P, P)>,
            },
    {
        match &self.inner {
            Some(inner) => Some(inner.scroll_pos()),
            None => None,
        }
    }

    /// Scrolls the widget vertically to `y`, keeping the horizontal position,
    /// and requests a redraw, if the handle reaches a widget. The position is
    /// stored as given: clamping a floating-point position to the top (and a
    /// position that is not finite to 0) is left to the caller that has one.
    pub fn set_scroll_y(&mut self, y: P)
        where
            P: Copy,
        ensures
            match old(self).widget() {
                Some(m) => final(self).widget() == Some(m.scrolled_to((m.scroll().0, y))),
                None => final(self).widget() is None,
            },
    {
        match &mut self.inner {
            Some(inner) => {
                let x = inner.scroll_pos().0;
                inner.set_scroll_pos((x, y));
            },
            None => {},
        }
    }

    /// Replaces the text of the widget, if the handle reaches one.
    pub fn set_text(&mut self, v: &str)
        ensures
            match old(self).widget() {
                Some(m) => final(self).widget() matches Some(m2) && {
                    &&& m2.body() == v@
                    &&& m2.redraw_requested() == (m.redraw_requested() || m.body() != v@)
                    &&& m2.anchors() == m.anchors()
                    &&& m2.scroll() == m.scroll()
                    &&& m2.config() == m.config()
                    &&& m2.last_link_id() == m.last_link_id()
                    &&& m2.animation() == m.animation()
                },
                None => final(self).widget() is None,
            },
    {
        match &mut self.inner {
            Some(inner) => inner.set_text(v),
            None => {},
        }
    }

    /// Starts the streaming animation, if the handle reaches a widget.
    pub fn start_streaming_animation(&mut self)
        ensures
            match old(self).widget() {
                Some(m) => final(self).widget() matches Some(m2) && {
                    &&& m2.animation().is_streaming()
                    &&& m2.animation().is_fading() == m.animation().is_fading()
                    &&& m2 == m.with_animation(m2.animation())
                },
                None => final(self).widget() is None,
            },
    {
        match &mut self.inner {
            Some(inner) => inner.start_streaming_animation(),
            None => {},
        }
    }

    /// Resets and starts the streaming animation, if the handle reaches a widget.
    pub fn reset_streaming_animation(&mut self)
        ensures
            match old(self).widget() {
                Some(m) => final(self).widget() matches Some(m2) && {
                    &&& m2.animation().is_streaming()
                    &&& !m2.animation().is_fading()
                    &&& m2 == m.with_animation(m2.animation())
                },
                None => final(self).widget() is None,
            },
    {
        match &mut self.inner {
            Some(inner) => inner.reset_streaming_animation(),
            None => {},
        }
    }

    /// Stops the streaming animation, if the handle reaches a widget; fades
    /// in progress complete naturally.
    pub fn stop_streaming_animation(&mut self)
        ensures
            match old(self).widget() {
                Some(m) => final(self).widget() matches Some(m2) && {
                    &&& !m2.animation().is_streaming()
                    &&& m2.animation().is_fading() == m.animation().is_fading()
                    &&& m2 == m.with_animation(m2.animation())
                },
                None => final(self).widget() is None,
            },
    {
        match &mut self.inner {
            Some(inner) => inner.stop_streaming_animation(),
            None => {},
        }
    }

    /// Whether the streaming animation is completely done; an empty handle
    /// has nothing animating.
    pub fn is_streaming_animation_done(&self) -> (r: bool)
        ensures
            match self.widget() {
                Some(m) => r == (!m.animation().is_streaming() && !m.animation().is_fading()),
                None => r,
            },
    {
        match &self.inner {
            Some(inner) => inner.is_streaming_animation_done(),
            None => true,
        }
    }

    /// Ends every animation, if the handle reaches a widget.
    pub fn reset_all_streaming_animations(&mut self)
        ensures
            match old(self).widget() {
                Some(m) => final(self).widget() matches Some(m2) && {
                    &&& !m2.animation().is_streaming()
                    &&& !m2.animation().is_fading()
                    &&& m2 == m.with_animation(m2.animation())
                },
                None => final(self).widget() is None,
            },
    {
        match &mut self.inner {
            Some(inner) => inner.reset_all_streaming_animations(),
            None => {},
        }
    }
}

/// A link inside a markdown widget: its label and its destination.
pub struct MarkdownLink {
    text: String,
    href: String,
}

impl MarkdownLink {
    /// The label.
    pub closed spec fn label(&self) -> Seq<char> {
        self.text@
    }

    /// The destination, as the document wrote it.
    pub closed spec fn destination(&self) -> Seq<char> {
        self.href@
    }

    /// A link with this label and destination.
    pub fn new(text: &str, href: &str) -> (r: Self)
        ensures
            r.label() == text@,
            r.destination() == href@,
    {
        MarkdownLink { text: String::from_str(text), href: String::from_str(href) }
    }

    /// The label.
    pub fn text(&self) -> (r: String)
        ensures
            r@ == self.label(),
    {
        self.text.clone()
    }

    /// Replaces the label.
    pub fn set_text(&mut self, v: &str)
        ensures
            final(self).label() == v@,
            final(self).destination() == old(self).destination(),
    {
        self.text = String::from_str(v);
    }

    /// What a click reports: the destination, unchanged; nothing without a click.
    pub fn handle_actions(&self, clicked: bool) -> (r: Option<MarkdownAction>)
        ensures
            clicked ==> (r matches Some(MarkdownAction::LinkNavigated(h)) && h@ == self.destination()),
            !clicked ==> r is None,
    {
        if clicked {
            Some(MarkdownAction::LinkNavigated(self.href.clone()))
        } else {
            None
        }
    }
}

/// A handle to a markdown link, which may be empty.
pub struct MarkdownLinkRef {
    inner: Option<MarkdownLink>,
}

impl MarkdownLinkRef {
    /// The link the handle reaches, if any.
    pub closed spec fn link(&self) -> Option<MarkdownLink> {
        self.inner
    }

    /// A handle that reaches no link.
    pub fn empty() -> (r: Self)
        ensures
            r.link() is None,
    {
        MarkdownLinkRef { inner: None }
    }

    /// A handle to `link`.
    pub fn new(link: MarkdownLink) -> (r: Self)
        ensures
            r.link() == Some(link),
    {
        MarkdownLinkRef { inner: Some(link) }
    }

    /// The link, if the handle reaches one.
    pub fn borrow(&self) -> (r: Option<&MarkdownLink>)
        ensures
            match self.link() {
                Some(l) => r matches Some(b) && *b == l,
                None => r is None,
            },
    {
        match &self.inner {
            Some(l) => Some(l),
            None => None,
        }
    }

    /// Sets the destination of the link, if the handle reaches one.
    pub fn set_href(&mut self, v: &str)
        ensures
            match old(self).link() {
                Some(l) => final(self).link() matches Some(l2) && l2.destination() == v@ && l2.label() == l.label(),
                None => final(self).link() is None,
            },
    {
        match &mut self.inner {
            Some(inner) => {
                inner.href = String::from_str(v);
            },
            None => {},
        }
    }
}

/// One recorded call on a [`RecordingSurface`].
#[derive(Debug)]
pub enum SurfaceRecord<P> {
    /// An operation was performed.
    Applied(LayoutOp),
    /// A heading position was asked for and this was the answer.
    Measured(P),
}

impl<P> SurfaceRecord<P> {
    /// The call this record stands for.
    pub open spec fn call(&self) -> SurfaceCall<P> {
        match self {
            SurfaceRecord::Applied(op) => SurfaceCall::Applied(op@),
            SurfaceRecord::Measured(y) => SurfaceCall::Measured(*y),
        }
    }
}

/// The calls a list of records stands for.
pub open spec fn record_calls<P>(records: Seq<SurfaceRecord<P>>) -> Seq<SurfaceCall<P>> {
    records.map_values(|r: SurfaceRecord<P>| r.call())
}

/// A surface that records the layout operations instead of drawing them,
/// and answers each heading position with its cursor: the buffer a text flow
/// replays, or a layout under test.
pub struct RecordingSurface<P> {
    records: Vec<SurfaceRecord<P>>,
    cursor: P,
}

impl<P: Copy> RecordingSurface<P> {
    /// The position it answers with.
    pub closed spec fn cursor(&self) -> P {
        self.cursor
    }

    /// A surface with nothing recorded, answering with `cursor`.
    pub fn new(cursor: P) -> (r: Self)
        ensures
            r.calls() == Seq::<SurfaceCall<P>>::empty(),
            r.cursor() == cursor,
    {
        let r = RecordingSurface { records: Vec::new(), cursor };
        assert(record_calls(r.records@) =~= Seq::<SurfaceCall<P>>::empty());
        r
    }

    /// Moves the cursor to `y`.
    pub fn set_cursor(&mut self, y: P)
        ensures
            final(self).calls() == old(self).calls(),
            final(self).cursor() == y,
    {
        self.cursor = y;
    }

    /// The records, in order.
    pub fn into_records(self) -> (r: Vec<SurfaceRecord<P>>)
        ensures
            record_calls(r@) == self.calls(),
    {
        self.records
    }
}

impl<P: Copy> LayoutSurface<P> for RecordingSurface<P> {
    closed spec fn calls(&self) -> CallLog<P> {
        record_calls(self.records@)
    }

    fn apply(&mut self, op: &LayoutOp)
        ensures
            final(self).cursor() == old(self).cursor(),
    {
        let ghost before = self.records@;
        self.records.push(SurfaceRecord::Applied(op.duplicate()));
        assert(record_calls(self.records@) =~= record_calls(before).push(SurfaceCall::Applied(op@)));
    }

    fn heading_y(&mut self) -> (y: P)
        ensures
            y == old(self).cursor(),
            final(self).cursor() == old(self).cursor(),
    {
        let y = self.cursor;
        let ghost before = self.records@;
        self.records.push(SurfaceRecord::Measured(y));
        assert(record_calls(self.records@) =~= record_calls(before).push(SurfaceCall::Measured(y)));
        y
    }
}

} // verus!
