use keyscan::action::Action;
use keyscan::device::DeviceState;
use keyscan::device::UNBOUND_SWITCH;
use keyscan::devices::Devices;
use keyscan::devices::tca9554::TCA9554;
use keyscan::devices::tca9555::TCA9555;
use keyscan::event::KeyEvent;
use keyscan::switch::Switch;

fn keyed_switch(code: u8) -> Switch {
    let mut s = Switch::new(0, 0);
    s.append_action(Action::KeyCode(code));
    s
}

#[test]
fn init_writes_both_direction_registers_high() {
    let d = TCA9554::new(0, 5);
    assert_eq!(d.init_commands(), vec![(0x06, 0xFF), (0x07, 0xFF)]);
    assert_eq!(d.expander.dev_addr, 0x20);
    let d16 = TCA9555::new(3, 5);
    assert_eq!(d16.expander.dev_addr, 0x23);
}

#[test]
fn decode_reads_low_bits_as_pressed() {
    let d = TCA9554::new(0, 0);
    match d.decode(&vec![0b1111_1110]) {
        DeviceState::Pins8(p) => {
            assert_eq!(p, [true, false, false, false, false, false, false, false]);
        },
        _ => panic!("expected an 8-pin snapshot"),
    }
    let d16 = TCA9555::new(0, 0);
    match d16.decode(&vec![0xFF, 0b0111_1111]) {
        DeviceState::Pins16(p) => {
            let mut expected = [false; 16];
            expected[15] = true;
            assert_eq!(p, expected);
        },
        _ => panic!("expected a 16-pin snapshot"),
    }
}

#[test]
fn assign_rejects_pins_beyond_the_family_width() {
    let mut d = TCA9554::new(0, 0);
    assert_eq!(d.assign(7, 0), Ok(7));
    assert_eq!(d.assign(8, 0), Err(8));
    let mut d16 = TCA9555::new(0, 0);
    assert_eq!(d16.assign(15, 0), Ok(15));
    assert_eq!(d16.assign(16, 0), Err(16));
}

#[test]
fn has_assigned_needs_a_bound_switch_with_actions() {
    let arena = vec![keyed_switch(4), Switch::dummy()];
    let mut d = TCA9554::new(0, 0);
    assert!(!d.has_assigned(&arena));
    // A switch with no actions does not count.
    d.assign(0, 1).unwrap();
    assert!(!d.has_assigned(&arena));
    d.assign(1, 0).unwrap();
    assert!(d.has_assigned(&arena));
}

#[test]
fn pick_events_binds_pins_and_defaults_unbound_ones() {
    let mut d = TCA9554::new(0, 0);
    d.assign(0, 5).unwrap();
    // Baseline: the first promoted snapshot reports no transitions.
    let quiet = vec![false; 8];
    assert!(d.pick_events(&quiet).buffer.is_empty());
    // Pins 0 and 2 go down; pin 2 is unbound.
    let mut active = vec![false; 8];
    active[0] = true;
    active[2] = true;
    let events = d.pick_events(&active).buffer;
    assert_eq!(events, vec![KeyEvent::Pressed(5), KeyEvent::Pressed(UNBOUND_SWITCH)]);
    // Releasing pin 0 again yields the matching release.
    let events = d.pick_events(&quiet).buffer;
    assert_eq!(events, vec![KeyEvent::Released(5), KeyEvent::Released(UNBOUND_SWITCH)]);
}

#[test]
fn mismatched_snapshot_width_yields_nothing() {
    let mut dev = Devices::TCA9554(TCA9554::new(0, 0));
    let r = dev.pick_from_state(&DeviceState::Pins16([false; 16]));
    assert!(r.buffer.is_empty());
    let r = dev.pick_from_state(&DeviceState::Value8(3));
    assert!(r.buffer.is_empty());
}
