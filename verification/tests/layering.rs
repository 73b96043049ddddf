use keyscan::action::Action;
use keyscan::evaluator::Evaluator;
use keyscan::event::KeyEvent;
use keyscan::reporter::Reporter;
use keyscan::switch::Switch;

struct Sink;

impl Reporter for Sink {
    fn send_codes(&mut self, _codes: &Vec<u8>) {}
}

fn press_and_settle(ev: &mut Evaluator, arena: &Vec<Switch>, sw: usize) {
    ev.eval(KeyEvent::Pressed(sw), arena, &mut Sink);
    ev.tick(arena, &mut Sink);
}

#[test]
fn first_modifier_is_the_base_and_later_ones_add() {
    // Switch 0 binds Layer(2) on layer 0; switch 1 binds Layer(1) on
    // layer 2, where the second press resolves.
    let mut s0 = Switch::new(0, 0);
    s0.append_action(Action::Layer(2));
    let mut s1 = Switch::new(256, 0);
    s1.append_action(Action::NoOp);
    s1.append_action(Action::NoOp);
    s1.append_action(Action::Layer(1));
    let arena = vec![s0, s1];

    let mut ev = Evaluator::new();
    assert_eq!(ev.current_layer(), 0);
    press_and_settle(&mut ev, &arena, 0);
    assert_eq!(ev.current_layer(), 2);
    press_and_settle(&mut ev, &arena, 1);
    // Modifiers 2 then 1 active, in that insertion order: 2 + 1 = 3.
    assert_eq!(ev.current_layer(), 3);
}

#[test]
fn modifiers_replace_the_default_layer_rather_than_add() {
    // Switch 0 rebinds the base layer to 1; switch 1 binds Layer(2) on
    // layer 1; switch 2 binds Layer(1) on layer 2.
    let mut s0 = Switch::new(0, 0);
    s0.append_action(Action::DefaultLayer(1));
    let mut s1 = Switch::new(256, 0);
    s1.append_action(Action::NoOp);
    s1.append_action(Action::Layer(2));
    let mut s2 = Switch::new(512, 0);
    s2.append_action(Action::NoOp);
    s2.append_action(Action::NoOp);
    s2.append_action(Action::Layer(1));
    let arena = vec![s0, s1, s2];

    let mut ev = Evaluator::new();
    press_and_settle(&mut ev, &arena, 0);
    assert_eq!(ev.current_layer(), 1);
    press_and_settle(&mut ev, &arena, 1);
    assert_eq!(ev.current_layer(), 2);
    press_and_settle(&mut ev, &arena, 2);
    // Were the default added too, this would be 1 + 2 + 1 = 4.
    assert_eq!(ev.current_layer(), 3);
}

#[test]
fn transparent_falls_through_to_the_base_layer_once() {
    // Switch 0 switches to layer 1; switch 1 is transparent on layer 1 and
    // binds a key code on the base layer.
    let mut s0 = Switch::new(0, 0);
    s0.append_action(Action::Layer(1));
    let mut s1 = Switch::new(256, 0);
    s1.append_action(Action::KeyCode(30));
    s1.append_action(Action::Trans);
    let arena = vec![s0, s1];

    let mut ev = Evaluator::new();
    press_and_settle(&mut ev, &arena, 0);
    assert_eq!(ev.current_layer(), 1);
    press_and_settle(&mut ev, &arena, 1);
    // Transparent at layer 1 resolves to the binding on layer 0.
    assert_eq!(ev.keycodes(), vec![30]);
}

#[test]
fn unconfigured_layers_and_unknown_switches_are_noops() {
    let mut s0 = Switch::new(0, 0);
    s0.append_action(Action::Layer(3));
    let arena = vec![s0];

    let mut ev = Evaluator::new();
    press_and_settle(&mut ev, &arena, 0);
    assert_eq!(ev.current_layer(), 3);
    // Switch 0 has no binding on layer 3, and switch 7 is not in the arena.
    press_and_settle(&mut ev, &arena, 0);
    press_and_settle(&mut ev, &arena, 7);
    assert!(ev.keycodes().is_empty());
}

#[test]
fn multiple_key_codes_and_actions_dispatch_each_member() {
    let mut s0 = Switch::new(0, 0);
    s0.append_action(Action::MultipleKeyCodes(vec![5, 6]));
    let mut s1 = Switch::new(256, 0);
    s1.append_action(Action::MultipleActions(vec![Action::KeyCode(7), Action::Layer(1)]));
    let arena = vec![s0, s1];

    let mut ev = Evaluator::new();
    press_and_settle(&mut ev, &arena, 0);
    assert_eq!(ev.keycodes(), vec![5, 6]);
    press_and_settle(&mut ev, &arena, 1);
    assert_eq!(ev.keycodes(), vec![5, 6, 7]);
    assert_eq!(ev.current_layer(), 1);

    // Releasing a switch removes every contribution it owns.
    ev.eval(KeyEvent::Released(0), &arena, &mut Sink);
    ev.tick(&arena, &mut Sink);
    assert_eq!(ev.keycodes(), vec![7]);
    assert_eq!(ev.current_layer(), 1);
}
