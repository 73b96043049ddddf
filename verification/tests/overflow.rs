use keyscan::action::Action;
use keyscan::evaluator::Evaluator;
use keyscan::evaluator::Stacked;
use keyscan::event::KeyEvent;
use keyscan::reporter::Reporter;
use keyscan::ring::EventRing;
use keyscan::switch::Switch;

struct Sink;

impl Reporter for Sink {
    fn send_codes(&mut self, _codes: &Vec<u8>) {}
}

#[test]
fn seventeenth_event_evicts_the_oldest_and_forces_hold() {
    // Switch 0: an ambiguous hold-tap that blocks the queue; its hold
    // branch emits key code 9. Switch 1 emits key code 7.
    let mut s0 = Switch::new(0, 0);
    s0.append_action(Action::HoldTap {
        timeout: 30000,
        hold: Box::new(Action::KeyCode(9)),
        tap: Box::new(Action::KeyCode(4)),
    });
    let mut s1 = Switch::new(256, 0);
    s1.append_action(Action::KeyCode(7));
    let arena = vec![s0, s1];

    let mut ev = Evaluator::new();
    ev.eval(KeyEvent::Pressed(0), &arena, &mut Sink);
    ev.tick(&arena, &mut Sink);
    // The decision is pending, so further events only queue up.
    assert!(ev.waiting.is_some());

    // Queue a press of switch 1 and then fill the remaining ring slots.
    ev.eval(KeyEvent::Pressed(1), &arena, &mut Sink);
    for _ in 0..15 {
        ev.eval(KeyEvent::Pressed(99), &arena, &mut Sink);
    }
    assert_eq!(ev.stacked.to_vec().len(), 16);
    assert!(ev.keycodes().is_empty());

    // The 17th queued event overflows the ring: the oldest entry - the
    // press of switch 1 - is evicted, the pending decision is forced into
    // its hold branch, and the evicted press is processed afterwards.
    ev.eval(KeyEvent::Pressed(99), &arena, &mut Sink);
    assert_eq!(ev.keycodes(), vec![9, 7]);
    assert!(ev.waiting.is_none());
    assert_eq!(ev.stacked.to_vec().len(), 16);
}

#[test]
fn freshly_queued_events_have_aged_zero_ticks() {
    let st = Stacked::from(KeyEvent::Pressed(3));
    assert_eq!(st.event, KeyEvent::Pressed(3));
    assert_eq!(st.since, 0);
}

#[test]
fn ring_wraps_like_a_fifo() {
    let mut ring = EventRing::new();
    for i in 0..16usize {
        assert_eq!(ring.push_back((true, i, 0)), None);
    }
    // Overflow evicts the frontmost (oldest) entry.
    assert_eq!(ring.push_back((false, 16, 0)), Some((true, 0, 0)));
    assert_eq!(ring.pop_front(), Some((true, 1, 0)));
    let contents = ring.to_vec();
    assert_eq!(contents.len(), 15);
    assert_eq!(contents[0], (true, 2, 0));
    assert_eq!(contents[14], (false, 16, 0));

    ring.clear();
    assert_eq!(ring.pop_front(), None);
    ring.extend(vec![(true, 1, 5), (false, 2, 6)]);
    assert_eq!(ring.to_vec(), vec![(true, 1, 5), (false, 2, 6)]);
}
