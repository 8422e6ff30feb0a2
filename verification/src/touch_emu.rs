//! Single-touch -> mouse emulation.
//!
//! A lone finger drives the mouse stream instead of the touch stream, and a
//! second finger hands the gesture back to the touch stream so an app can
//! still implement pinch. The emulator is pure: it decides *what* to
//! dispatch; the platform layer does the dispatching.
//!
//! Positions are carried through unchanged, so the emulator is generic over
//! the position type `P`.

use vstd::prelude::*;

verus! {

/// Phase of one touch point within a touch update.
#[derive(Clone, Copy, Debug, PartialEq, Eq)]
pub enum TouchState {
    Start,
    Stable,
    Move,
    Stop,
}

/// One touch point of a touch update: its phase, its id and its position.
#[derive(Clone, Copy, Debug, PartialEq)]
pub struct TouchPoint<P> {
    pub state: TouchState,
    pub uid: u64,
    pub abs: P,
}

/// One mouse event the platform should synthesize, in dispatch order.
#[derive(Clone, Copy, Debug, PartialEq)]
pub enum EmulatedPointer<P> {
    Down(P),
    Move(P),
    Up(P),
}

/// What one touch update turns into.
#[derive(Clone, Debug, PartialEq)]
pub struct TouchEmuStep<P> {
    pub pointers: Vec<EmulatedPointer<P>>,
    /// Whether the touch update itself should still reach the app. False while
    /// a finger is being emulated, so no widget sees the same press twice.
    pub deliver_touch_update: bool,
}

/// Tracks the one touch currently standing in for the mouse.
#[derive(Clone, Debug)]
pub struct TouchMouseEmulator<P> {
    /// `(uid, last known position)`. The position is remembered so a touch that
    /// disappears without a `Stop` (cancel/leave) can still release the digit.
    active: Option<(u64, P)>,
}

/// Number of touches in `ts[from..]` that are not lifting (`Stop`).
pub open spec fn live_from<P>(ts: Seq<TouchPoint<P>>, from: int) -> nat
    decreases ts.len() - from,
{
    if from < 0 || from >= ts.len() {
        0
    } else {
        live_from(ts, from + 1) + if ts[from].state != TouchState::Stop { 1nat } else { 0nat }
    }
}

/// Number of touches in `ts` that are not lifting.
pub open spec fn live_count<P>(ts: Seq<TouchPoint<P>>) -> nat {
    live_from(ts, 0)
}

/// The first touch of `ts[from..]` with the given uid.
pub open spec fn find_uid_from<P>(ts: Seq<TouchPoint<P>>, uid: u64, from: int) -> Option<TouchPoint<P>>
    decreases ts.len() - from,
{
    if from < 0 || from >= ts.len() {
        None
    } else if ts[from].uid == uid {
        Some(ts[from])
    } else {
        find_uid_from(ts, uid, from + 1)
    }
}

/// The first touch of `ts` with the given uid.
pub open spec fn find_uid<P>(ts: Seq<TouchPoint<P>>, uid: u64) -> Option<TouchPoint<P>> {
    find_uid_from(ts, uid, 0)
}

/// The first touch of `ts[from..]` that is landing (`Start`).
pub open spec fn find_start_from<P>(ts: Seq<TouchPoint<P>>, from: int) -> Option<TouchPoint<P>>
    decreases ts.len() - from,
{
    if from < 0 || from >= ts.len() {
        None
    } else if ts[from].state == TouchState::Start {
        Some(ts[from])
    } else {
        find_start_from(ts, from + 1)
    }
}

/// The first touch of `ts` that is landing.
pub open spec fn find_start<P>(ts: Seq<TouchPoint<P>>) -> Option<TouchPoint<P>> {
    find_start_from(ts, 0)
}

/// The outcome of one emulator step: the new adopted touch, the mouse events
/// to synthesize, and whether the touch update is still delivered.
pub struct StepOutcome<P> {
    pub active: Option<(u64, P)>,
    pub pointers: Seq<EmulatedPointer<P>>,
    pub deliver: bool,
}

/// What one touch update does to the emulator.
///
/// While a touch is adopted: a second live finger releases the press where the
/// adopted finger is now (or was last seen) and hands the update to the app;
/// otherwise the adopted finger's own phase decides (`Stop` releases, `Move`
/// moves, `Start`/`Stable` only track the position), and a vanished finger
/// releases at its last position. While nothing is adopted, a landing finger
/// is adopted only when it is the only live touch.
pub open spec fn step_outcome<P>(active: Option<(u64, P)>, ts: Seq<TouchPoint<P>>) -> StepOutcome<P> {
    match active {
        Some((uid, last)) => {
            let current = find_uid(ts, uid);
            if live_count(ts) >= 2 {
                let at = match current {
                    Some(t) => t.abs,
                    None => last,
                };
                StepOutcome { active: None, pointers: seq![EmulatedPointer::Up(at)], deliver: true }
            } else {
                match current {
                    Some(t) => match t.state {
                        TouchState::Stop => StepOutcome {
                            active: None,
                            pointers: seq![EmulatedPointer::Up(t.abs)],
                            deliver: false,
                        },
                        TouchState::Move => StepOutcome {
                            active: Some((uid, t.abs)),
                            pointers: seq![EmulatedPointer::Move(t.abs)],
                            deliver: false,
                        },
                        _ => StepOutcome {
                            active: Some((uid, t.abs)),
                            pointers: Seq::empty(),
                            deliver: false,
                        },
                    },
                    None => StepOutcome {
                        active: None,
                        pointers: seq![EmulatedPointer::Up(last)],
                        deliver: false,
                    },
                }
            }
        },
        None => {
            match find_start(ts) {
                Some(t) if live_count(ts) == 1 => StepOutcome {
                    active: Some((t.uid, t.abs)),
                    pointers: seq![EmulatedPointer::Down(t.abs)],
                    deliver: false,
                },
                _ => StepOutcome { active: None, pointers: Seq::empty(), deliver: true },
            }
        },
    }
}

impl<P> TouchMouseEmulator<P> {
    /// The adopted touch: its uid and last known position.
    pub closed spec fn adopted(&self) -> Option<(u64, P)> {
        self.active
    }

    /// An emulator that is not emulating.
    pub fn new() -> (r: Self)
        ensures
            r.adopted() is None,
    {
        TouchMouseEmulator { active: None }
    }

    pub fn is_emulating(&self) -> (r: bool)
        ensures
            r == self.adopted() is Some,
    {
        self.active.is_some()
    }
}

impl<P> Default for TouchMouseEmulator<P> {
    fn default() -> (r: Self)
        ensures
            r.adopted() is None,
    {
        TouchMouseEmulator { active: None }
    }
}

/// Counts the touches that are not lifting.
fn count_live<P>(touches: &[TouchPoint<P>]) -> (n: usize)
    ensures
        n == live_count(touches@),
{
    let mut n: usize = 0;
    let mut i: usize = touches.len();
    while i > 0
        invariant
            i <= touches@.len(),
            n == live_from(touches@, i as int),
            n <= touches@.len() - i,
        decreases i,
    {
        i = i - 1;
        match touches[i].state {
            TouchState::Stop => {},
            _ => {
                n = n + 1;
            },
        }
    }
    n
}

/// Finds the first touch with the given uid.
fn find_by_uid<P: Copy>(touches: &[TouchPoint<P>], uid: u64) -> (r: Option<TouchPoint<P>>)
    ensures
        r == find_uid(touches@, uid),
{
    let mut i: usize = 0;
    while i < touches.len()
        invariant
            i <= touches@.len(),
            find_uid(touches@, uid) == find_uid_from(touches@, uid, i as int),
        decreases touches@.len() - i,
    {
        if touches[i].uid == uid {
            return Some(touches[i]);
        }
        i = i + 1;
    }
    None
}

/// Finds the first landing touch.
fn find_landing<P: Copy>(touches: &[TouchPoint<P>]) -> (r: Option<TouchPoint<P>>)
    ensures
        r == find_start(touches@),
{
    let mut i: usize = 0;
    while i < touches.len()
        invariant
            i <= touches@.len(),
            find_start(touches@) == find_start_from(touches@, i as int),
        decreases touches@.len() - i,
    {
        match touches[i].state {
            TouchState::Start => {
                return Some(touches[i]);
            },
            _ => {},
        }
        i = i + 1;
    }
    None
}

impl<P: Copy> TouchMouseEmulator<P> {
    /// Turns one touch update into the mouse events to synthesize.
    pub fn step(&mut self, touches: &[TouchPoint<P>]) -> (r: TouchEmuStep<P>)
        ensures
            final(self).adopted() == step_outcome(old(self).adopted(), touches@).active,
            r.pointers@ == step_outcome(old(self).adopted(), touches@).pointers,
            r.deliver_touch_update == step_outcome(old(self).adopted(), touches@).deliver,
    {
        let live = count_live(touches);
        let mut pointers: Vec<EmulatedPointer<P>> = Vec::new();

        if let Some((uid, last)) = self.active {
            let current = find_by_uid(touches, uid);
            if live >= 2 {
                // A second finger landed: end the emulated press where the
                // first finger is now and hand the whole gesture to the app as
                // touch, so a pinch never starts halfway through a drag.
                let at = match current {
                    Some(t) => t.abs,
                    None => last,
                };
                pointers.push(EmulatedPointer::Up(at));
                self.active = None;
                return TouchEmuStep { pointers, deliver_touch_update: true };
            }
            match current {
                Some(t) => match t.state {
                    TouchState::Stop => {
                        pointers.push(EmulatedPointer::Up(t.abs));
                        self.active = None;
                    },
                    TouchState::Move => {
                        pointers.push(EmulatedPointer::Move(t.abs));
                        self.active = Some((uid, t.abs));
                    },
                    _ => {
                        self.active = Some((uid, t.abs));
                    },
                },
                // The touch was dropped without a `Stop`. Release anyway,
                // otherwise the mouse digit stays captured forever.
                None => {
                    pointers.push(EmulatedPointer::Up(last));
                    self.active = None;
                },
            }
            return TouchEmuStep { pointers, deliver_touch_update: false };
        }
        // Not emulating: adopt a finger only as it lands, and only if it is
        // alone. A finger left over from a pinch never carries `Start` again,
        // so a gesture that began as touch stays touch until the last finger
        // lifts.

        if live == 1 {
            if let Some(t) = find_landing(touches) {
                self.active = Some((t.uid, t.abs));
                pointers.push(EmulatedPointer::Down(t.abs));
                return TouchEmuStep { pointers, deliver_touch_update: false };
            }
        }
        TouchEmuStep { pointers, deliver_touch_update: true }
    }
}

/// Whether a stream of mouse events is well formed for a mouse that starts
/// pressed (`pressed`) or released: a press only while released, moves only
/// while pressed, a release only while pressed. Gives the pressed state after
/// the stream, or `None` where the stream is ill formed.
pub open spec fn mouse_after<P>(pressed: bool, ptrs: Seq<EmulatedPointer<P>>) -> Option<bool>
    decreases ptrs.len(),
{
    if ptrs.len() == 0 {
        Some(pressed)
    } else {
        match ptrs[0] {
            EmulatedPointer::Down(_) => if pressed { None } else { mouse_after(true, ptrs.drop_first()) },
            EmulatedPointer::Move(_) => if pressed { mouse_after(true, ptrs.drop_first()) } else { None },
            EmulatedPointer::Up(_) => if pressed { mouse_after(false, ptrs.drop_first()) } else { None },
        }
    }
}

/// The adopted touch after a run of touch updates, starting from `active`.
pub open spec fn run_active<P>(active: Option<(u64, P)>, updates: Seq<Seq<TouchPoint<P>>>) -> Option<(u64, P)>
    decreases updates.len(),
{
    if updates.len() == 0 {
        active
    } else {
        run_active(step_outcome(active, updates[0]).active, updates.drop_first())
    }
}

/// All mouse events a run of touch updates synthesizes, in dispatch order.
pub open spec fn run_pointers<P>(active: Option<(u64, P)>, updates: Seq<Seq<TouchPoint<P>>>) -> Seq<EmulatedPointer<P>>
    decreases updates.len(),
{
    if updates.len() == 0 {
        Seq::empty()
    } else {
        let o = step_outcome(active, updates[0]);
        o.pointers + run_pointers(o.active, updates.drop_first())
    }
}

proof fn lemma_mouse_after_concat<P>(pressed: bool, a: Seq<EmulatedPointer<P>>, b: Seq<EmulatedPointer<P>>)
    ensures
        mouse_after(pressed, a + b) == match mouse_after(pressed, a) {
            Some(q) => mouse_after(q, b),
            None => None,
        },
    decreases a.len(),
{
    if a.len() > 0 {
        assert((a + b).drop_first() =~= a.drop_first() + b);
        assert((a + b)[0] == a[0]);
        lemma_mouse_after_concat(true, a.drop_first(), b);
        lemma_mouse_after_concat(false, a.drop_first(), b);
    } else {
        assert(a + b =~= b);
    }
}

/// One touch update synthesizes at most one mouse event, and that event
/// matches the change of the emulated press: a press exactly when a touch is
/// adopted, a release exactly when the adopted touch is let go (lifted,
/// vanished, or joined by a second finger), a move only while it stays
/// adopted. While a touch is adopted after the update, the update itself is
/// swallowed, so no widget sees the same press twice.
pub proof fn law_step_keeps_mouse_stream_well_formed<P>(active: Option<(u64, P)>, ts: Seq<TouchPoint<P>>)
    ensures
        step_outcome(active, ts).pointers.len() <= 1,
        mouse_after(active is Some, step_outcome(active, ts).pointers)
            == Some(step_outcome(active, ts).active is Some),
        step_outcome(active, ts).active is Some ==> !step_outcome(active, ts).deliver,
{
    let o = step_outcome(active, ts);
    reveal_with_fuel(mouse_after, 2);
    if o.pointers.len() == 1 {
        assert(o.pointers.drop_first() =~= Seq::<EmulatedPointer<P>>::empty());
    }
}

/// Over any run of touch updates, starting with the mouse released and no
/// touch adopted, the synthesized mouse events form a well-formed press /
/// move / release stream, and the mouse is left pressed exactly when a touch
/// is still adopted.
pub proof fn law_run_keeps_mouse_stream_well_formed<P>(active: Option<(u64, P)>, updates: Seq<Seq<TouchPoint<P>>>)
    ensures
        mouse_after(active is Some, run_pointers(active, updates)) == Some(run_active(active, updates) is Some),
    decreases updates.len(),
{
    if updates.len() > 0 {
        let o = step_outcome(active, updates[0]);
        law_step_keeps_mouse_stream_well_formed(active, updates[0]);
        law_run_keeps_mouse_stream_well_formed(o.active, updates.drop_first());
        lemma_mouse_after_concat(active is Some, o.pointers, run_pointers(o.active, updates.drop_first()));
    }
}

/// A second live finger always ends the emulated press and hands the update
/// back to the app, so a pinch never starts halfway through a drag.
pub proof fn law_second_finger_hands_back<P>(uid: u64, last: P, ts: Seq<TouchPoint<P>>)
    requires
        live_count(ts) >= 2,
    ensures
        step_outcome(Some((uid, last)), ts).active is None,
        step_outcome(Some((uid, last)), ts).deliver,
        step_outcome(Some((uid, last)), ts).pointers.len() == 1,
        step_outcome(Some((uid, last)), ts).pointers[0] is Up,
{
}

/// While nothing is adopted, a touch update without a landing finger, or with
/// more than one live finger, is never adopted and reaches the app unchanged:
/// a finger left over from a pinch stays touch until it lifts.
pub proof fn law_leftover_finger_is_not_adopted<P>(ts: Seq<TouchPoint<P>>)
    requires
        find_start(ts) is None || live_count(ts) != 1,
    ensures
        step_outcome(None::<(u64, P)>, ts).active is None,
        step_outcome(None::<(u64, P)>, ts).deliver,
        step_outcome(None::<(u64, P)>, ts).pointers.len() == 0,
{
}

} // verus!
