use keyscan::action::Action;
use keyscan::switch::ISO_ENTER_H;
use keyscan::switch::ISO_ENTER_W;
use keyscan::switch::Position;
use keyscan::switch::Shape;
use keyscan::switch::Switch;
use keyscan::switch::UNIT;

#[test]
fn constructors_fill_fixed_point_geometry() {
    let s = Switch::new(256, 512);
    assert_eq!(s.position, Position { x: 256, y: 512, w: UNIT, h: UNIT, rx: 0, ry: 0, r: 0 });
    assert_eq!(s.shape, Shape::Rectangle);

    let iso = Switch::new_with_shape(Shape::IsoEnter, 0, 0);
    assert_eq!(iso.position.w, ISO_ENTER_W);
    assert_eq!(iso.position.h, ISO_ENTER_H);

    let wide = Switch::new_with_width(0, 0, 640);
    assert_eq!(wide.position.w, 640);
    assert_eq!(wide.position.h, UNIT);

    let sized = Switch::new_with_size(0, 0, 640, 512);
    assert_eq!(sized.position.w, 640);
    assert_eq!(sized.position.h, 512);

    let dummy = Switch::dummy();
    assert_eq!(dummy.position.w, 0);
    assert!(dummy.actions.is_empty());

    let defaulted = Switch::default();
    assert_eq!(defaulted.position, dummy.position);
    assert!(defaulted.actions.is_empty());
}

#[test]
fn rotation_sets_angle_and_centre() {
    let mut s = Switch::new(256, 512);
    s.rotate(90 * 256);
    assert_eq!(s.position.r, 90 * 256);
    assert_eq!(s.position.rx, 256);
    assert_eq!(s.position.ry, 512);

    s.rotate_at(45 * 256, 7, 9);
    assert_eq!(s.position.r, 45 * 256);
    assert_eq!(s.position.rx, 7);
    assert_eq!(s.position.ry, 9);
}

#[test]
fn at_most_four_layer_actions_are_kept() {
    let mut s = Switch::new(0, 0);
    for code in 1..=5u8 {
        s.append_action(Action::KeyCode(code));
    }
    assert_eq!(s.actions.len(), 4);
    match s.action_at(3) {
        Some(Action::KeyCode(code)) => assert_eq!(*code, 4),
        _ => panic!("expected the fourth key code"),
    }
    assert!(s.action_at(4).is_none());
    assert!(s.action_at(0).is_some());
}

#[test]
fn nested_hold_taps_are_flagged_as_undispatchable() {
    let plain = Action::HoldTap {
        timeout: 100,
        hold: Box::new(Action::Layer(1)),
        tap: Box::new(Action::KeyCode(4)),
    };
    assert!(plain.check_ok());

    let nested = Action::HoldTap {
        timeout: 100,
        hold: Box::new(Action::HoldTap {
            timeout: 50,
            hold: Box::new(Action::Layer(2)),
            tap: Box::new(Action::KeyCode(5)),
        }),
        tap: Box::new(Action::KeyCode(4)),
    };
    assert!(!nested.check_ok());

    // A hold-tap may end an action group but may not be followed by more
    // members, which would be dispatched while the decision is pending.
    let trailing = Action::MultipleActions(vec![Action::KeyCode(4), plain.duplicate()]);
    assert!(trailing.check_ok());
    let leading = Action::MultipleActions(vec![plain, Action::KeyCode(4)]);
    assert!(!leading.check_ok());
    assert!(Action::MultipleActions(vec![Action::KeyCode(4), Action::Layer(1)]).check_ok());
    assert!(Action::KeyCode(4).check_ht_free());
}

#[test]
fn duplicate_preserves_behaviour() {
    let original = Action::MultipleActions(vec![
        Action::KeyCode(4),
        Action::MultipleKeyCodes(vec![5, 6]),
        Action::Layer(1),
    ]);
    let copy = original.duplicate();
    assert!(copy.check_ok());
    match copy {
        Action::MultipleActions(items) => {
            assert_eq!(items.len(), 3);
            match &items[1] {
                Action::MultipleKeyCodes(codes) => assert_eq!(codes, &vec![5, 6]),
                _ => panic!("expected the key-code group"),
            }
        },
        _ => panic!("expected the action group"),
    }
}
