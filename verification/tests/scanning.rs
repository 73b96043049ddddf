use keyscan::action::Action;
use keyscan::device::DeviceState;
use keyscan::devices::Devices;
use keyscan::devices::tca9554::TCA9554;
use keyscan::evaluator::Evaluator;
use keyscan::reporter::Reporter;
use keyscan::scanner::Scanner;
use keyscan::switch::Switch;

struct Recorder {
    sent: Vec<Vec<u8>>,
}

impl Reporter for Recorder {
    fn send_codes(&mut self, codes: &Vec<u8>) {
        self.sent.push(codes.clone());
    }
}

fn fixture() -> (Scanner, Vec<Devices>, Vec<Switch>) {
    // Three 8-pin devices; pin 0 of each is bound to switches 0, 1, 2,
    // which emit key codes 10, 20, 30.
    let mut devices = Vec::new();
    for i in 0..3usize {
        let mut d = TCA9554::new(i as u8, 0);
        d.assign(0, i).unwrap();
        devices.push(Devices::TCA9554(d));
    }
    let mut arena = Vec::new();
    for code in [10u8, 20, 30] {
        let mut s = Switch::new(0, 0);
        s.append_action(Action::KeyCode(code));
        arena.push(s);
    }
    (Scanner::new(Evaluator::new()), devices, arena)
}

fn pin0_down() -> DeviceState {
    let mut pins = [false; 8];
    pins[0] = true;
    DeviceState::Pins8(pins)
}

fn quiet() -> DeviceState {
    DeviceState::Pins8([false; 8])
}

#[test]
fn bus_error_on_one_device_never_blocks_the_others() {
    let (mut scanner, mut devices, arena) = fixture();
    let mut rec = Recorder { sent: Vec::new() };

    // First pass: all three devices promote their quiet baseline.
    let reads = vec![Some(quiet()), Some(quiet()), Some(quiet())];
    scanner.scan(&mut devices, &reads, &arena, &mut rec);

    // Second pass: device 1 fails its bus read while devices 0 and 2 see
    // their pin go down.
    let reads = vec![Some(pin0_down()), None, Some(pin0_down())];
    scanner.scan(&mut devices, &reads, &arena, &mut rec);

    // Both surviving devices' events reached the evaluator in this same
    // pass: one press is already active, the other sits queued.
    assert_eq!(scanner.evaluator.keycodes(), vec![10]);
    assert_eq!(scanner.evaluator.stacked.to_vec(), vec![(true, 2, 1)]);

    // The failed device's debouncer was left exactly as the first pass
    // set it: quiet baseline promoted, no agreement pending.
    match &devices[1] {
        Devices::TCA9554(d) => {
            assert_eq!(d.expander.debouncer.cur.pressed, vec![false; 8]);
            assert_eq!(d.expander.debouncer.count, 0);
        },
        _ => panic!("expected the 8-pin device"),
    }

    // An idle third pass drains the queue: both key codes are active.
    let reads = vec![None, None, None];
    scanner.scan(&mut devices, &reads, &arena, &mut rec);
    assert_eq!(scanner.evaluator.keycodes(), vec![10, 30]);
    // Key code 20 never appeared in any report.
    assert!(rec.sent.iter().all(|codes| !codes.contains(&20)));
}

#[test]
fn recovered_device_contributes_on_the_next_pass() {
    let (mut scanner, mut devices, arena) = fixture();
    let mut rec = Recorder { sent: Vec::new() };

    let reads = vec![Some(quiet()), None, Some(quiet())];
    scanner.scan(&mut devices, &reads, &arena, &mut rec);
    // Device 1 recovers: its first successful read establishes the
    // baseline, the next one reports the press.
    let reads = vec![None, Some(quiet()), None];
    scanner.scan(&mut devices, &reads, &arena, &mut rec);
    let reads = vec![None, Some(pin0_down()), None];
    scanner.scan(&mut devices, &reads, &arena, &mut rec);
    scanner.scan(&mut devices, &vec![None, None, None], &arena, &mut rec);
    assert_eq!(scanner.evaluator.keycodes(), vec![20]);
}
