use keyscan::debouncer::Debouncer;
use keyscan::debouncer::Keys;
use keyscan::event::IndexEvent;

fn promote(d: &mut Debouncer, sample: &[bool]) -> Vec<IndexEvent> {
    // Feed the same sample until the debouncer promotes it, collecting the
    // transitions reported on the promoting poll.
    let mut last = Vec::new();
    for _ in 0..(d.limit as usize + 2) {
        last = d.events(sample).buffer;
        if !last.is_empty() || d.cur.pressed == sample.to_vec() {
            break;
        }
    }
    last
}

#[test]
fn distinct_snapshot_promotes_after_limit_plus_one_polls() {
    let mut d = Debouncer::new(2);
    // Establish a stable all-released baseline; the very first promotion
    // reports no transitions because there is no previous snapshot yet.
    for _ in 0..3 {
        let r = d.events(&[false, false, false, false]);
        assert!(r.buffer.is_empty());
    }
    assert_eq!(d.cur.pressed, vec![false, false, false, false]);
    // A new snapshot must survive limit + 1 = 3 consecutive polls.
    let pressed = [true, false, false, true];
    assert!(!d.update(&Keys::from(&pressed)));
    assert!(!d.update(&Keys::from(&pressed)));
    assert!(d.update(&Keys::from(&pressed)));
    assert_eq!(d.cur.pressed, vec![true, false, false, true]);
}

#[test]
fn one_transition_per_differing_bit_and_none_for_unchanged() {
    let mut d = Debouncer::new(1);
    promote(&mut d, &[false, true, false, true]);
    assert_eq!(d.cur.pressed, vec![false, true, false, true]);
    let events = promote(&mut d, &[true, true, false, false]);
    // Bit 0 rose, bit 3 fell, bits 1 and 2 are unchanged.
    assert_eq!(events, vec![IndexEvent::PressedAt(0), IndexEvent::ReleasedAt(3)]);
}

#[test]
fn refeeding_stable_snapshot_reemits_nothing() {
    let mut d = Debouncer::new(1);
    promote(&mut d, &[true, false]);
    assert_eq!(d.cur.pressed, vec![true, false]);
    for _ in 0..5 {
        assert!(!d.update(&Keys::from(&[true, false])));
        let r = d.events(&[true, false]);
        assert!(r.buffer.is_empty());
        assert_eq!(d.count, 0);
    }
}

#[test]
fn limit_zero_promotes_immediately() {
    let mut d = Debouncer::new(0);
    assert!(d.update(&Keys::from(&[true])));
    assert_eq!(d.cur.pressed, vec![true]);
}

#[test]
fn interrupted_candidate_starts_over() {
    let mut d = Debouncer::new(2);
    promote(&mut d, &[false, false]);
    // Noise: one agreeing sample, then a different one, resets agreement.
    assert!(!d.update(&Keys::from(&[true, false])));
    assert!(!d.update(&Keys::from(&[true, true])));
    assert_eq!(d.count, 1);
    // The stable snapshot never changed.
    assert_eq!(d.cur.pressed, vec![false, false]);
}

#[test]
fn transitions_beyond_capacity_are_dropped() {
    let mut d = Debouncer::new(0);
    let all_released = vec![false; 100];
    let all_pressed = vec![true; 100];
    assert!(d.events(&all_released).buffer.is_empty());
    let events = d.events(&all_pressed).buffer;
    // 100 bits changed but the event list is capped at 64.
    assert_eq!(events.len(), 64);
    assert_eq!(events[0], IndexEvent::PressedAt(0));
    assert_eq!(events[63], IndexEvent::PressedAt(63));
}
