use touch_markdown::touch_emu::{EmulatedPointer, TouchMouseEmulator, TouchPoint, TouchState};

#[derive(Clone, Copy, Debug, PartialEq)]
struct Vec2d {
    x: f64,
    y: f64,
}

fn dvec2(x: f64, y: f64) -> Vec2d {
    Vec2d { x, y }
}

fn touch(uid: u64, state: TouchState, x: f64, y: f64) -> TouchPoint<Vec2d> {
    TouchPoint { state, abs: dvec2(x, y), uid }
}

#[test]
fn a_lone_finger_drives_the_mouse_stream_and_swallows_the_touch_update() {
    let mut emu = TouchMouseEmulator::default();

    let down = emu.step(&[touch(1, TouchState::Start, 10.0, 20.0)]);
    assert_eq!(down.pointers, vec![EmulatedPointer::Down(dvec2(10.0, 20.0))]);
    assert!(!down.deliver_touch_update);
    assert!(emu.is_emulating());

    let mv = emu.step(&[touch(1, TouchState::Move, 12.0, 24.0)]);
    assert_eq!(mv.pointers, vec![EmulatedPointer::Move(dvec2(12.0, 24.0))]);
    assert!(!mv.deliver_touch_update);

    let up = emu.step(&[touch(1, TouchState::Stop, 12.0, 24.0)]);
    assert_eq!(up.pointers, vec![EmulatedPointer::Up(dvec2(12.0, 24.0))]);
    assert!(!up.deliver_touch_update);
    assert!(!emu.is_emulating());
}

#[test]
fn a_stable_finger_emits_nothing_but_stays_adopted() {
    let mut emu = TouchMouseEmulator::default();
    emu.step(&[touch(1, TouchState::Start, 0.0, 0.0)]);
    let step = emu.step(&[touch(1, TouchState::Stable, 0.0, 0.0)]);
    assert!(step.pointers.is_empty());
    assert!(!step.deliver_touch_update);
    assert!(emu.is_emulating());
}

#[test]
fn a_second_finger_releases_the_emulated_press_and_hands_over_the_touch_update() {
    let mut emu = TouchMouseEmulator::default();
    emu.step(&[touch(1, TouchState::Start, 10.0, 10.0)]);

    let step = emu.step(&[
        touch(1, TouchState::Stable, 11.0, 10.0),
        touch(2, TouchState::Start, 90.0, 90.0),
    ]);
    assert_eq!(step.pointers, vec![EmulatedPointer::Up(dvec2(11.0, 10.0))]);
    assert!(step.deliver_touch_update);
    assert!(!emu.is_emulating());
}

#[test]
fn a_finger_left_over_from_a_pinch_is_not_adopted() {
    let mut emu = TouchMouseEmulator::default();
    emu.step(&[touch(1, TouchState::Start, 10.0, 10.0)]);
    emu.step(&[
        touch(1, TouchState::Stable, 10.0, 10.0),
        touch(2, TouchState::Start, 90.0, 90.0),
    ]);

    // Second finger lifts; the first is still down but never `Start`s again.
    let step = emu.step(&[
        touch(1, TouchState::Stable, 10.0, 10.0),
        touch(2, TouchState::Stop, 90.0, 90.0),
    ]);
    assert!(step.pointers.is_empty());
    assert!(step.deliver_touch_update);
    assert!(!emu.is_emulating());

    // And once it lifts, the next lone finger is adopted again.
    emu.step(&[touch(1, TouchState::Stop, 10.0, 10.0)]);
    let step = emu.step(&[touch(3, TouchState::Start, 5.0, 5.0)]);
    assert_eq!(step.pointers, vec![EmulatedPointer::Down(dvec2(5.0, 5.0))]);
    assert!(emu.is_emulating());
}

#[test]
fn a_vanished_touch_still_releases_the_digit() {
    let mut emu = TouchMouseEmulator::default();
    emu.step(&[touch(1, TouchState::Start, 7.0, 8.0)]);
    emu.step(&[touch(1, TouchState::Move, 9.0, 8.0)]);

    // A touchcancel that lists nothing at all.
    let step = emu.step(&[]);
    assert_eq!(step.pointers, vec![EmulatedPointer::Up(dvec2(9.0, 8.0))]);
    assert!(!step.deliver_touch_update);
    assert!(!emu.is_emulating());
}

#[test]
fn a_new_emulator_is_not_emulating() {
    let emu: TouchMouseEmulator<Vec2d> = TouchMouseEmulator::new();
    assert!(!emu.is_emulating());
}

#[test]
fn a_second_landing_finger_while_idle_is_not_adopted() {
    let mut emu = TouchMouseEmulator::default();
    let step = emu.step(&[
        touch(1, TouchState::Start, 1.0, 1.0),
        touch(2, TouchState::Start, 2.0, 2.0),
    ]);
    assert!(step.pointers.is_empty());
    assert!(step.deliver_touch_update);
    assert!(!emu.is_emulating());
}

#[test]
fn a_lifting_finger_does_not_count_as_live_when_adopting() {
    let mut emu = TouchMouseEmulator::default();
    let step = emu.step(&[
        touch(4, TouchState::Stop, 1.0, 1.0),
        touch(5, TouchState::Start, 3.0, 4.0),
    ]);
    assert_eq!(step.pointers, vec![EmulatedPointer::Down(dvec2(3.0, 4.0))]);
    assert!(!step.deliver_touch_update);
    assert!(emu.is_emulating());
}

#[test]
fn a_second_finger_after_the_first_vanished_releases_at_the_last_position() {
    let mut emu = TouchMouseEmulator::default();
    emu.step(&[touch(1, TouchState::Start, 7.0, 8.0)]);
    let step = emu.step(&[
        touch(2, TouchState::Stable, 50.0, 50.0),
        touch(3, TouchState::Start, 60.0, 60.0),
    ]);
    assert_eq!(step.pointers, vec![EmulatedPointer::Up(dvec2(7.0, 8.0))]);
    assert!(step.deliver_touch_update);
    assert!(!emu.is_emulating());
}
