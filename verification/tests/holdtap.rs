use keyscan::action::Action;
use keyscan::evaluator::Evaluator;
use keyscan::event::KeyEvent;
use keyscan::reporter::Reporter;
use keyscan::switch::Switch;

struct Recorder {
    sent: Vec<Vec<u8>>,
}

impl Reporter for Recorder {
    fn send_codes(&mut self, codes: &Vec<u8>) {
        self.sent.push(codes.clone());
    }
}

fn hold_tap_arena() -> Vec<Switch> {
    // Switch 0: HoldTap { timeout: 200, hold: Layer(1), tap: KeyCode(4) }.
    let mut s = Switch::new(0, 0);
    s.append_action(Action::HoldTap {
        timeout: 200,
        hold: Box::new(Action::Layer(1)),
        tap: Box::new(Action::KeyCode(4)),
    });
    vec![s]
}

#[test]
fn quick_release_takes_the_tap_branch() {
    let arena = hold_tap_arena();
    let mut ev = Evaluator::new();
    let mut rec = Recorder { sent: Vec::new() };

    ev.eval(KeyEvent::Pressed(0), &arena, &mut rec);
    for _ in 0..5 {
        ev.tick(&arena, &mut rec);
    }
    // Still ambiguous: nothing emitted, no layer active.
    assert!(ev.keycodes().is_empty());
    assert_eq!(ev.current_layer(), 0);

    // The release within the timeout resolves to the tap key code.
    ev.eval(KeyEvent::Released(0), &arena, &mut rec);
    assert_eq!(ev.keycodes(), vec![4]);
    assert_eq!(ev.current_layer(), 0);

    // The queued release is processed on the next tick and lifts the key.
    ev.tick(&arena, &mut rec);
    assert!(ev.keycodes().is_empty());
    // The hold branch never activated at any point.
    assert!(rec.sent.iter().all(|codes| codes.is_empty() || codes == &vec![4]));
    assert_eq!(ev.current_layer(), 0);
}

#[test]
fn holding_past_the_timeout_takes_the_hold_branch() {
    let arena = hold_tap_arena();
    let mut ev = Evaluator::new();
    let mut rec = Recorder { sent: Vec::new() };

    ev.eval(KeyEvent::Pressed(0), &arena, &mut rec);
    // Tick 1 dequeues the press one tick old, arming the decision with
    // 200 - 1 = 199 ticks left; ticks 2..=199 merely count down.
    for _ in 0..199 {
        ev.tick(&arena, &mut rec);
        assert_eq!(ev.current_layer(), 0);
        assert!(ev.keycodes().is_empty());
    }
    // The 200th tick exhausts the timeout: the hold branch activates.
    ev.tick(&arena, &mut rec);
    assert_eq!(ev.current_layer(), 1);
    // The tap key code was never emitted.
    assert!(rec.sent.iter().all(|codes| codes.is_empty()));

    // Releasing the switch drops the layer modifier again.
    ev.eval(KeyEvent::Released(0), &arena, &mut rec);
    ev.tick(&arena, &mut rec);
    assert_eq!(ev.current_layer(), 0);
}

#[test]
fn a_group_ending_in_a_hold_tap_dispatches_and_then_waits() {
    // Switch 0: key code 7 at once, then an ambiguous hold-tap decision.
    let mut s = Switch::new(0, 0);
    s.append_action(Action::MultipleActions(vec![
        Action::KeyCode(7),
        Action::HoldTap {
            timeout: 100,
            hold: Box::new(Action::Layer(1)),
            tap: Box::new(Action::KeyCode(4)),
        },
    ]));
    let arena = vec![s];

    let mut ev = Evaluator::new();
    let mut rec = Recorder { sent: Vec::new() };
    ev.eval(KeyEvent::Pressed(0), &arena, &mut rec);
    ev.tick(&arena, &mut rec);
    // The leading key code is active while the decision is pending.
    assert_eq!(ev.keycodes(), vec![7]);
    assert!(ev.waiting.is_some());

    // A quick release resolves the decision to the tap key code.
    ev.eval(KeyEvent::Released(0), &arena, &mut rec);
    assert_eq!(ev.keycodes(), vec![7, 4]);
    ev.tick(&arena, &mut rec);
    assert!(ev.keycodes().is_empty());
    assert_eq!(ev.current_layer(), 0);
}
