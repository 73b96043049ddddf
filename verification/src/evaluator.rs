//! The action-resolution state machine: consumes switch press/release
//! events in arrival order plus periodic ticks, maintains the active key
//! contributions, at most one pending hold-tap decision, and a bounded
//! wrapping queue of deferred events, and emits the live key-code set.

use vstd::prelude::*;
use crate::action::Action;
use crate::action::ActionView;
use crate::action::act_view;
use crate::action::action_ok;
use crate::action::acts_view;
use crate::action::ht_free;
use crate::action::lemma_acts_view;
use crate::action::lemma_ht_free_action_ok;
use crate::action::lemma_hts_free_iff;
use crate::event::KeyEvent;
use crate::event::push_capped;
use crate::reporter::Reporter;
use crate::ring::EventRing;
use crate::ring::RingEntry;
use crate::ring::RING_CAP;
use crate::ring::ring_contents;
use crate::switch::Switch;

verus! {

/// Capacity of the active-contribution list; contributions past this bound
/// are silently dropped.
pub const STATES_CAP: usize = 64;

/// One active contribution: a held key code or a held layer modifier, owned
/// by the switch that produced it.
#[derive(Debug, Clone, Copy, PartialEq, Eq, Structural)]
pub enum KeyState {
    NormalKey { keycode: u8, switch: usize },
    LayerModifier { value: usize, switch: usize },
}

impl KeyState {
    /// The arena index of the switch owning this contribution.
    pub open spec fn spec_switch(self) -> usize {
        match self {
            KeyState::NormalKey { switch, .. } => switch,
            KeyState::LayerModifier { switch, .. } => switch,
        }
    }

    /// The key code contributed, if this is a held key.
    pub fn keycode(&self) -> (r: Option<u8>)
        ensures
            r == (match *self {
                KeyState::NormalKey { keycode, .. } => Some(keycode),
                KeyState::LayerModifier { .. } => None::<u8>,
            }),
    {
        match self {
            KeyState::NormalKey { keycode, .. } => Some(*keycode),
            KeyState::LayerModifier { .. } => None,
        }
    }

    /// Per-tick refresh; a reserved extension point that currently keeps
    /// every contribution alive.
    pub fn tick(&self) -> (r: Option<KeyState>)
        ensures
            r == Some(*self),
    {
        Some(*self)
    }

    /// `None` when the contribution is owned by switch `s` and so dies with
    /// its release; otherwise the contribution unchanged.
    pub fn release(&self, s: usize) -> (r: Option<KeyState>)
        ensures
            r == (if self.spec_switch() == s {
                None::<KeyState>
            } else {
                Some(*self)
            }),
    {
        match self {
            KeyState::NormalKey { switch, .. } => {
                if *switch == s {
                    None
                } else {
                    Some(*self)
                }
            },
            KeyState::LayerModifier { switch, .. } => {
                if *switch == s {
                    None
                } else {
                    Some(*self)
                }
            },
        }
    }

    /// The layer value contributed, if this is a held layer modifier.
    pub fn get_layer(&self) -> (r: Option<usize>)
        ensures
            r == (match *self {
                KeyState::LayerModifier { value, .. } => Some(value),
                KeyState::NormalKey { .. } => None::<usize>,
            }),
    {
        match self {
            KeyState::LayerModifier { value, .. } => Some(*value),
            KeyState::NormalKey { .. } => None,
        }
    }
}

/// The single in-flight ambiguous hold-tap decision.
#[derive(Debug)]
pub struct WaitingState {
    pub switch: usize,
    pub timeout: u16,
    pub hold: Box<Action>,
    pub tap: Box<Action>,
}

/// Mathematical shape of a pending hold-tap decision.
pub ghost struct WaitView {
    pub switch: usize,
    pub timeout: u16,
    pub hold: ActionView,
    pub tap: ActionView,
}

impl View for WaitingState {
    type V = WaitView;

    open spec fn view(&self) -> WaitView {
        WaitView {
            switch: self.switch,
            timeout: self.timeout,
            hold: act_view(*self.hold),
            tap: act_view(*self.tap),
        }
    }
}

impl WaitingState {
    /// Age the pending decision by one tick; report whether the timeout has
    /// now run out.
    pub fn tick(&mut self) -> (r: bool)
        ensures
            final(self).timeout == old(self).timeout.saturating_sub(1),
            final(self).switch == old(self).switch,
            final(self).hold == old(self).hold,
            final(self).tap == old(self).tap,
            r == (final(self).timeout == 0),
    {
        self.timeout = self.timeout.saturating_sub(1);
        self.timeout == 0
    }

    /// Whether `event` is the release of the very switch this decision
    /// waits on.
    pub fn is_corresponding_release(&self, event: &KeyEvent) -> (r: bool)
        ensures
            r == (*event == KeyEvent::Released(self.switch)),
    {
        match event {
            KeyEvent::Released(s) => *s == self.switch,
            KeyEvent::Pressed(_) => false,
        }
    }
}

/// One event parked in the ring while a hold-tap decision blocks immediate
/// processing, together with the ticks elapsed since it arrived.
#[derive(Debug, Clone, Copy, PartialEq, Eq, Structural)]
pub struct Stacked {
    pub event: KeyEvent,
    pub since: u16,
}

impl From<KeyEvent> for Stacked {
    /// A freshly queued event has aged zero ticks.
    fn from(event: KeyEvent) -> (r: Stacked) {
        Stacked { event, since: 0 }
    }
}

impl vstd::std_specs::convert::FromSpecImpl<KeyEvent> for Stacked {
    open spec fn obeys_from_spec() -> bool {
        true
    }

    open spec fn from_spec(event: KeyEvent) -> Stacked {
        Stacked { event, since: 0 }
    }
}

impl Stacked {
    /// Age the queued event by one tick.
    pub fn tick(&mut self)
        ensures
            final(self).event == old(self).event,
            final(self).since == old(self).since.saturating_add(1),
    {
        self.since = self.since.saturating_add(1);
    }
}

/// A queued event recovered from its raw ring form.
pub open spec fn stacked_of(e: RingEntry) -> Stacked {
    Stacked {
        event: if e.0 {
            KeyEvent::Pressed(e.1)
        } else {
            KeyEvent::Released(e.1)
        },
        since: e.2,
    }
}

/// The queued events recovered from a raw ring.
pub open spec fn stacked_seq(s: Seq<RingEntry>) -> Seq<Stacked> {
    Seq::new(s.len(), |i: int| stacked_of(s[i]))
}

/// Mathematical state of the evaluator.
pub ghost struct EvState {
    pub default_layer: usize,
    pub states: Seq<KeyState>,
    pub waiting: Option<WaitView>,
    pub stacked: Seq<Stacked>,
}

/// Well-formedness of the evaluator state: the bounded collections respect
/// their capacities and a pending decision holds no nested hold-tap in
/// either branch.
pub open spec fn spec_wf(s: EvState) -> bool {
    &&& s.states.len() <= STATES_CAP
    &&& s.stacked.len() <= RING_CAP
    &&& (match s.waiting {
        Some(w) => ht_free(w.hold) && ht_free(w.tap),
        None => true,
    })
}

/// Every action bound on any layer of any switch in the arena is one the
/// evaluator can always dispatch.
pub open spec fn arena_ok(arena: Seq<Switch>) -> bool {
    forall|i: int, j: int|
        0 <= i < arena.len() && 0 <= j < arena[i].actions@.len() ==> action_ok(
            act_view(#[trigger] arena[i].actions@[j]),
        )
}

/// The layer values of the active layer modifiers, in insertion order.
pub open spec fn layer_values(states: Seq<KeyState>) -> Seq<usize>
    decreases states,
{
    if states.len() == 0 {
        Seq::empty()
    } else {
        layer_values(states.subrange(0, states.len() - 1)) + (match states[states.len() - 1] {
            KeyState::LayerModifier { value, .. } => seq![value],
            KeyState::NormalKey { .. } => Seq::empty(),
        })
    }
}

/// Saturating left fold of layer values onto a base.
pub open spec fn sat_sum(acc: usize, vals: Seq<usize>) -> usize
    decreases vals,
{
    if vals.len() == 0 {
        acc
    } else {
        sat_sum(acc.saturating_add(vals[0]), vals.subrange(1, vals.len() as int))
    }
}

/// The effective layer: with no active layer modifier it is `default_layer`;
/// otherwise the first modifier's value is the base - it replaces the
/// default rather than adding to it - and every later modifier's value is
/// added on top, saturating.
pub open spec fn spec_current_layer(states: Seq<KeyState>, default_layer: usize) -> usize {
    let vals = layer_values(states);
    if vals.len() == 0 {
        default_layer
    } else {
        sat_sum(vals[0], vals.subrange(1, vals.len() as int))
    }
}

/// The key codes of the active held keys, in insertion order.
pub open spec fn spec_keycodes(states: Seq<KeyState>) -> Seq<u8>
    decreases states,
{
    if states.len() == 0 {
        Seq::empty()
    } else {
        spec_keycodes(states.subrange(0, states.len() - 1)) + (match states[states.len() - 1] {
            KeyState::NormalKey { keycode, .. } => seq![keycode],
            KeyState::LayerModifier { .. } => Seq::empty(),
        })
    }
}

/// The active contributions that survive releasing switch `sw`.
pub open spec fn remove_states(states: Seq<KeyState>, sw: usize) -> Seq<KeyState>
    decreases states,
{
    if states.len() == 0 {
        Seq::empty()
    } else {
        remove_states(states.subrange(0, states.len() - 1), sw) + (if states[states.len()
            - 1].spec_switch() == sw {
            Seq::empty()
        } else {
            seq![states[states.len() - 1]]
        })
    }
}


/// The elapsed ticks of the first queued release of switch `sw`, if any.
pub open spec fn find_release(stacked: Seq<Stacked>, sw: usize) -> Option<u16>
    decreases stacked,
{
    if stacked.len() == 0 {
        None
    } else if stacked[0].event == KeyEvent::Released(sw) {
        Some(stacked[0].since)
    } else {
        find_release(stacked.subrange(1, stacked.len() as int), sw)
    }
}

/// Push one held key per code, each bounded by the capacity.
pub open spec fn push_codes(states: Seq<KeyState>, codes: Seq<u8>, sw: usize) -> Seq<KeyState>
    decreases codes,
{
    if codes.len() == 0 {
        states
    } else {
        push_codes(
            push_capped(
                states,
                KeyState::NormalKey { keycode: codes[0], switch: sw },
                STATES_CAP as nat,
            ),
            codes.subrange(1, codes.len() as int),
            sw,
        )
    }
}

/// The evaluator state after dispatching one resolved action for switch
/// `sw`, `delay` ticks after the triggering press arrived:
/// - key codes and layer values become active contributions;
/// - `DefaultLayer` rebinds the base layer;
/// - `HoldTap` becomes the pending decision with its timeout shortened by
///   `delay`, unless a matching release is already queued, in which case it
///   resolves at once - to the tap branch when the release came within the
///   timeout window, else to the hold branch.
pub open spec fn spec_do_action(s: EvState, a: ActionView, sw: usize, delay: u16) -> EvState
    decreases a,
{
    match a {
        ActionView::NoOp => s,
        ActionView::Trans => s,
        ActionView::KeyCode(k) => EvState {
            states: push_capped(
                s.states,
                KeyState::NormalKey { keycode: k, switch: sw },
                STATES_CAP as nat,
            ),
            ..s
        },
        ActionView::MultipleKeyCodes(ks) => EvState { states: push_codes(s.states, ks, sw), ..s },
        ActionView::MultipleActions(list) => spec_do_actions(s, list, sw, delay),
        ActionView::Layer(v) => EvState {
            states: push_capped(
                s.states,
                KeyState::LayerModifier { value: v, switch: sw },
                STATES_CAP as nat,
            ),
            ..s
        },
        ActionView::DefaultLayer(v) => EvState { default_layer: v, ..s },
        ActionView::HoldTap { timeout, hold, tap } => {
            match find_release(s.stacked, sw) {
                None => EvState {
                    waiting: Some(
                        WaitView {
                            switch: sw,
                            timeout: timeout.saturating_sub(delay),
                            hold: *hold,
                            tap: *tap,
                        },
                    ),
                    ..s
                },
                Some(since) => if timeout + since >= delay {
                    spec_do_action(EvState { waiting: None, ..s }, *tap, sw, 0)
                } else {
                    spec_do_action(EvState { waiting: None, ..s }, *hold, sw, 0)
                },
            }
        },
    }
}

/// Dispatch the members of an action group in order.
pub open spec fn spec_do_actions(s: EvState, list: Seq<ActionView>, sw: usize, delay: u16) -> EvState
    decreases list,
{
    if list.len() == 0 {
        s
    } else {
        spec_do_actions(
            spec_do_action(s, list[0], sw, delay),
            list.subrange(1, list.len() as int),
            sw,
            delay,
        )
    }
}

/// Dispatching a group and one more action is dispatching the group, then
/// that action.
proof fn lemma_do_actions_snoc(s: EvState, list: Seq<ActionView>, a: ActionView, sw: usize, delay: u16)
    ensures
        spec_do_actions(s, list.push(a), sw, delay) == spec_do_action(
            spec_do_actions(s, list, sw, delay),
            a,
            sw,
            delay,
        ),
    decreases list.len(),
{
    let pushed = list.push(a);
    assert(spec_do_actions(s, pushed, sw, delay) == spec_do_actions(
        spec_do_action(s, pushed[0], sw, delay),
        pushed.subrange(1, pushed.len() as int),
        sw,
        delay,
    ));
    if list.len() == 0 {
        assert(pushed[0] == a);
        assert(pushed.subrange(1, 1) =~= Seq::<ActionView>::empty());
        assert(spec_do_actions(s, list, sw, delay) == s);
    } else {
        let tail = list.subrange(1, list.len() as int);
        lemma_do_actions_snoc(spec_do_action(s, list[0], sw, delay), tail, a, sw, delay);
        assert(pushed.subrange(1, pushed.len() as int) =~= tail.push(a));
        assert(pushed[0] == list[0]);
        assert(spec_do_actions(s, list, sw, delay) == spec_do_actions(
            spec_do_action(s, list[0], sw, delay),
            tail,
            sw,
            delay,
        ));
    }
}

/// Pushing key codes keeps the capacity bound and touches nothing else.
proof fn lemma_push_codes_frame(states: Seq<KeyState>, codes: Seq<u8>, sw: usize)
    requires
        states.len() <= STATES_CAP,
    ensures
        push_codes(states, codes, sw).len() <= STATES_CAP,
    decreases codes.len(),
{
    if codes.len() > 0 {
        lemma_push_codes_frame(
            push_capped(states, KeyState::NormalKey { keycode: codes[0], switch: sw }, STATES_CAP as nat),
            codes.subrange(1, codes.len() as int),
            sw,
        );
    }
}

/// Pushing key codes and one more code appends that code last, within the
/// capacity.
proof fn lemma_push_codes_snoc(states: Seq<KeyState>, codes: Seq<u8>, k: u8, sw: usize)
    ensures
        push_codes(states, codes.push(k), sw) == push_capped(
            push_codes(states, codes, sw),
            KeyState::NormalKey { keycode: k, switch: sw },
            STATES_CAP as nat,
        ),
    decreases codes.len(),
{
    let pushed = codes.push(k);
    assert(push_codes(states, pushed, sw) == push_codes(
        push_capped(states, KeyState::NormalKey { keycode: pushed[0], switch: sw }, STATES_CAP as nat),
        pushed.subrange(1, pushed.len() as int),
        sw,
    ));
    if codes.len() == 0 {
        assert(pushed[0] == k);
        assert(pushed.subrange(1, 1) =~= Seq::<u8>::empty());
    } else {
        let tail = codes.subrange(1, codes.len() as int);
        lemma_push_codes_snoc(
            push_capped(states, KeyState::NormalKey { keycode: codes[0], switch: sw }, STATES_CAP as nat),
            tail,
            k,
            sw,
        );
        assert(pushed.subrange(1, pushed.len() as int) =~= tail.push(k));
        assert(pushed[0] == codes[0]);
    }
}


/// The bound action of switch `sw` at `layer`, if the arena and the slot
/// exist.
pub open spec fn arena_action_at(arena: Seq<Switch>, sw: usize, layer: usize) -> Option<ActionView> {
    if sw < arena.len() {
        arena[sw as int].spec_action_at(layer as int)
    } else {
        None
    }
}

/// Resolving a press of `sw` at `layer`: an unconfigured slot is a no-op; a
/// transparent binding away from the base layer falls through once,
/// directly to the base layer, and a transparent base binding is a no-op.
pub open spec fn spec_press_action(
    arena: Seq<Switch>,
    sw: usize,
    layer: usize,
    default_layer: usize,
) -> ActionView {
    match arena_action_at(arena, sw, layer) {
        None => ActionView::NoOp,
        Some(a) => if a == ActionView::Trans {
            if layer != default_layer {
                match arena_action_at(arena, sw, default_layer) {
                    None => ActionView::NoOp,
                    Some(b) => if b == ActionView::Trans {
                        ActionView::NoOp
                    } else {
                        b
                    },
                }
            } else {
                ActionView::NoOp
            }
        } else {
            a
        },
    }
}

/// A press on a well-formed arena always resolves to a dispatchable action.
pub proof fn lemma_press_action_ok(arena: Seq<Switch>, sw: usize, layer: usize, default_layer: usize)
    requires
        arena_ok(arena),
    ensures
        action_ok(spec_press_action(arena, sw, layer, default_layer)),
{
}

/// Resolve the pending decision into its hold branch.
pub open spec fn spec_resolve_hold(s: EvState) -> EvState {
    match s.waiting {
        None => s,
        Some(w) => spec_do_action(EvState { waiting: None, ..s }, w.hold, w.switch, 0),
    }
}

/// Resolve the pending decision into its tap branch.
pub open spec fn spec_resolve_tap(s: EvState) -> EvState {
    match s.waiting {
        None => s,
        Some(w) => spec_do_action(EvState { waiting: None, ..s }, w.tap, w.switch, 0),
    }
}

/// Process one queued event under the now-settled context: a release kills
/// every contribution of its switch; a press resolves the effective action
/// at the current layer and dispatches it, its queueing delay counted
/// against any hold-tap timeout.
pub open spec fn spec_unstack(s: EvState, st: Stacked, arena: Seq<Switch>) -> EvState {
    match st.event {
        KeyEvent::Released(sw) => EvState { states: remove_states(s.states, sw), ..s },
        KeyEvent::Pressed(sw) => spec_do_action(
            s,
            spec_press_action(
                arena,
                sw,
                spec_current_layer(s.states, s.default_layer),
                s.default_layer,
            ),
            sw,
            st.since,
        ),
    }
}

/// Every queued event one tick older, saturating.
pub open spec fn aged(stacked: Seq<Stacked>) -> Seq<Stacked> {
    Seq::new(
        stacked.len(),
        |i: int| Stacked { event: stacked[i].event, since: stacked[i].since.saturating_add(1) },
    )
}

/// One incoming key event: it is queued on the ring; if the ring was full
/// the evicted oldest entry forces the pending decision into its hold
/// branch and is then processed under the settled context; finally, if the
/// event is the release of the switch the (possibly new) pending decision
/// waits on, that decision resolves into its tap branch.
pub open spec fn spec_eval(s: EvState, event: KeyEvent, arena: Seq<Switch>) -> EvState {
    let entry = Stacked { event, since: 0 };
    let s1 = if s.stacked.len() < RING_CAP {
        EvState { stacked: s.stacked.push(entry), ..s }
    } else {
        let evicted = s.stacked[0];
        let pushed = EvState {
            stacked: s.stacked.subrange(1, s.stacked.len() as int).push(entry),
            ..s
        };
        spec_unstack(spec_resolve_hold(pushed), evicted, arena)
    };
    match s1.waiting {
        Some(w) => if event == KeyEvent::Released(w.switch) {
            spec_resolve_tap(s1)
        } else {
            s1
        },
        None => s1,
    }
}

/// One scan tick: every queued event ages by one; a pending decision loses
/// one tick of timeout and resolves into its hold branch on reaching zero;
/// with no pending decision the oldest queued event, if any, is processed.
pub open spec fn spec_tick(s: EvState, arena: Seq<Switch>) -> EvState {
    let s1 = EvState { stacked: aged(s.stacked), ..s };
    match s1.waiting {
        Some(w) => {
            let w2 = WaitView { timeout: w.timeout.saturating_sub(1), ..w };
            let s2 = EvState { waiting: Some(w2), ..s1 };
            if w2.timeout == 0 {
                spec_resolve_hold(s2)
            } else {
                s2
            }
        },
        None => {
            if s1.stacked.len() > 0 {
                spec_unstack(
                    EvState { stacked: s1.stacked.subrange(1, s1.stacked.len() as int), ..s1 },
                    s1.stacked[0],
                    arena,
                )
            } else {
                s1
            }
        },
    }
}

/// Rebuild a queued event from its raw ring form.
fn stacked_from_entry(e: RingEntry) -> (r: Stacked)
    ensures
        r == stacked_of(e),
{
    Stacked {
        event: if e.0 {
            KeyEvent::Pressed(e.1)
        } else {
            KeyEvent::Released(e.1)
        },
        since: e.2,
    }
}

/// The action-resolution state machine.
pub struct Evaluator {
    pub default_layer: usize,
    pub states: Vec<KeyState>,
    pub waiting: Option<WaitingState>,
    pub stacked: EventRing,
}

impl View for Evaluator {
    type V = EvState;

    open spec fn view(&self) -> EvState {
        EvState {
            default_layer: self.default_layer,
            states: self.states@,
            waiting: match self.waiting {
                Some(w) => Some(w@),
                None => None,
            },
            stacked: stacked_seq(ring_contents(self.stacked)),
        }
    }
}

impl Evaluator {
    /// A fresh evaluator: base layer zero, nothing active, nothing pending,
    /// nothing queued.
    pub fn new() -> (r: Evaluator)
        ensures
            r@ == (EvState {
                default_layer: 0,
                states: Seq::<KeyState>::empty(),
                waiting: None::<WaitView>,
                stacked: Seq::<Stacked>::empty(),
            }),
            spec_wf(r@),
    {
        let r = Evaluator {
            default_layer: 0,
            states: Vec::new(),
            waiting: None,
            stacked: EventRing::new(),
        };
        proof {
            assert(stacked_seq(ring_contents(r.stacked)) =~= Seq::<Stacked>::empty());
        }
        r
    }

    /// The key codes of all active held keys, in insertion order.
    pub fn keycodes(&self) -> (r: Vec<u8>)
        ensures
            r@ == spec_keycodes(self.states@),
    {
        let mut codes: Vec<u8> = Vec::new();
        let mut i: usize = 0;
        while i < self.states.len()
            invariant
                i <= self.states.len(),
                codes@ == spec_keycodes(self.states@.take(i as int)),
            decreases self.states.len() - i,
        {
            let ghost prefix = self.states@.take(i as int);
            proof {
                assert(self.states@.take(i + 1).subrange(0, i as int) =~= prefix);
                assert(self.states@.take(i + 1)[i as int] == self.states@[i as int]);
            }
            match self.states[i].keycode() {
                Some(kc) => {
                    codes.push(kc);
                    proof {
                        assert(spec_keycodes(self.states@.take(i + 1)) =~= spec_keycodes(prefix)
                            + seq![kc]);
                        assert(codes@ =~= spec_keycodes(self.states@.take(i + 1)));
                    }
                },
                None => {
                    proof {
                        assert(spec_keycodes(self.states@.take(i + 1)) =~= spec_keycodes(prefix));
                    }
                },
            }
            i = i + 1;
        }
        proof {
            assert(self.states@.take(self.states@.len() as int) =~= self.states@);
        }
        codes
    }


    /// Dispatch one resolved concrete action for `switch`, arriving `delay`
    /// ticks after its press. Must not be entered while a hold-tap decision
    /// is pending.
    pub fn do_action(&mut self, action: &Action, switch: usize, delay: u16)
        requires
            spec_wf(old(self)@),
            old(self)@.waiting is None,
            action_ok(action@),
        ensures
            spec_wf(final(self)@),
            final(self)@ == spec_do_action(old(self)@, action@, switch, delay),
            ht_free(action@) ==> final(self)@.waiting is None,
        decreases *action,
    {
        match action {
            Action::NoOp => {},
            Action::Trans => {},
            Action::KeyCode(k) => {
                if self.states.len() < STATES_CAP {
                    self.states.push(KeyState::NormalKey { keycode: *k, switch });
                }
            },
            Action::MultipleKeyCodes(v) => {
                let ghost s0 = self@;
                let mut i: usize = 0;
                while i < v.len()
                    invariant
                        i <= v.len(),
                        self@ == (EvState {
                            states: push_codes(s0.states, v@.take(i as int), switch),
                            ..s0
                        }),
                    decreases v.len() - i,
                {
                    proof {
                        lemma_push_codes_snoc(s0.states, v@.take(i as int), v@[i as int], switch);
                        assert(v@.take(i + 1) =~= v@.take(i as int).push(v@[i as int]));
                    }
                    let kc = v[i];
                    if self.states.len() < STATES_CAP {
                        self.states.push(KeyState::NormalKey { keycode: kc, switch });
                    }
                    i = i + 1;
                }
                proof {
                    assert(v@.take(v@.len() as int) =~= v@);
                    lemma_push_codes_frame(s0.states, v@, switch);
                }
            },
            Action::MultipleActions(v) => {
                let ghost s0 = self@;
                let mut i: usize = 0;
                while i < v.len()
                    invariant
                        i <= v.len(),
                        *action == Action::MultipleActions(*v),
                        action_ok(action@),
                        self@ == spec_do_actions(s0, acts_view(v@).take(i as int), switch, delay),
                        spec_wf(self@),
                        i < v.len() ==> self@.waiting is None,
                        ht_free(action@) ==> self@.waiting is None,
                    decreases v.len() - i,
                {
                    proof {
                        assert(decreases_to!(*action => (*action)->MultipleActions_0));
                        assert(decreases_to!((*action)->MultipleActions_0 => (*action)->MultipleActions_0@));
                        assert(decreases_to!((*action)->MultipleActions_0@ => (*action)->MultipleActions_0@[i as int]));
                        lemma_acts_view(v@);
                        let vv = acts_view(v@);
                        assert(vv[i as int] == act_view(v@[i as int]));
                        if (i as int) < v@.len() - 1 {
                            assert(ht_free(vv[i as int]));
                            lemma_ht_free_action_ok(act_view(v@[i as int]));
                        } else {
                            assert(action_ok(vv[i as int]));
                        }
                        lemma_do_actions_snoc(
                            s0,
                            vv.take(i as int),
                            vv[i as int],
                            switch,
                            delay,
                        );
                        assert(vv.take(i + 1) =~= vv.take(i as int).push(vv[i as int]));
                    }
                    let sub = &v[i];
                    self.do_action(sub, switch, delay);
                    proof {
                        if ht_free(action@) {
                            lemma_hts_free_iff(acts_view(v@));
                            assert(ht_free(act_view(v@[i as int])));
                        }
                    }
                    i = i + 1;
                }
                proof {
                    lemma_acts_view(v@);
                    assert(acts_view(v@).take(acts_view(v@).len() as int) =~= acts_view(v@));
                }
            },
            Action::Layer(value) => {
                if self.states.len() < STATES_CAP {
                    self.states.push(KeyState::LayerModifier { value: *value, switch });
                }
            },
            Action::DefaultLayer(value) => {
                self.default_layer = *value;
            },
            Action::HoldTap { timeout, hold, tap } => {
                let new_timeout = timeout.saturating_sub(delay);
                let entries = self.stacked.to_vec();
                let ghost me = *self;
                let ghost stk = self@.stacked;
                proof {
                    assert(stacked_seq(entries@) =~= stk);
                    assert(stacked_seq(entries@).subrange(0, entries@.len() as int) =~= stacked_seq(
                        entries@,
                    ));
                }
                let mut found: Option<u16> = None;
                let mut i: usize = 0;
                while i < entries.len()
                    invariant
                        i <= entries.len(),
                        *self == me,
                        stacked_seq(entries@) == stk,
                        found is None ==> find_release(stk, switch) == find_release(
                            stacked_seq(entries@).subrange(i as int, entries@.len() as int),
                            switch,
                        ),
                        found is Some ==> find_release(stk, switch) == found,
                    decreases entries.len() - i,
                {
                    if found.is_none() {
                        let e = entries[i];
                        let ghost rest = stacked_seq(entries@).subrange(i as int, entries@.len() as int);
                        proof {
                            assert(rest[0] == stacked_of(entries@[i as int]));
                        }
                        if !e.0 && e.1 == switch {
                            found = Some(e.2);
                            proof {
                                assert(rest[0].event == KeyEvent::Released(switch));
                                assert(find_release(rest, switch) == Some(rest[0].since));
                            }
                        } else {
                            proof {
                                assert(rest[0].event != KeyEvent::Released(switch));
                                assert(rest.subrange(1, rest.len() as int) =~= stacked_seq(
                                    entries@,
                                ).subrange(i + 1, entries@.len() as int));
                            }
                        }
                    }
                    i = i + 1;
                }
                proof {
                    if found is None {
                        assert(stacked_seq(entries@).subrange(
                            entries@.len() as int,
                            entries@.len() as int,
                        ) =~= Seq::<Stacked>::empty());
                    }
                }
                match found {
                    None => {
                        self.waiting = Some(
                            WaitingState {
                                switch,
                                timeout: new_timeout,
                                hold: Box::new(hold.duplicate()),
                                tap: Box::new(tap.duplicate()),
                            },
                        );
                    },
                    Some(since) => {
                        proof {
                            assert(EvState { waiting: None, ..old(self)@ } == old(self)@);
                            lemma_ht_free_action_ok(act_view(**tap));
                            lemma_ht_free_action_ok(act_view(**hold));
                            assert(decreases_to!(*action => (*action)->HoldTap_tap));
                            assert(decreases_to!(*action => (*action)->HoldTap_hold));
                        }
                        if (*timeout as u32) + (since as u32) >= (delay as u32) {
                            self.do_action(&**tap, switch, 0);
                        } else {
                            self.do_action(&**hold, switch, 0);
                        }
                    },
                }
            },
        }
    }

    /// The effective layer under the current modifiers.
    pub fn current_layer(&self) -> (r: usize)
        ensures
            r == spec_current_layer(self.states@, self.default_layer),
    {
        let mut base: Option<usize> = None;
        let mut i: usize = 0;
        while i < self.states.len()
            invariant
                i <= self.states.len(),
                base == (if layer_values(self.states@.take(i as int)).len() == 0 {
                    None::<usize>
                } else {
                    Some(
                        sat_sum(
                            layer_values(self.states@.take(i as int))[0],
                            layer_values(self.states@.take(i as int)).subrange(
                                1,
                                layer_values(self.states@.take(i as int)).len() as int,
                            ),
                        ),
                    )
                }),
            decreases self.states.len() - i,
        {
            let ghost prefix = self.states@.take(i as int);
            let ghost vals = layer_values(prefix);
            proof {
                assert(self.states@.take(i + 1).subrange(0, i as int) =~= prefix);
                assert(self.states@.take(i + 1)[i as int] == self.states@[i as int]);
            }
            match self.states[i].get_layer() {
                Some(l) => {
                    proof {
                        assert(layer_values(self.states@.take(i + 1)) =~= vals + seq![l]);
                    }
                    match base {
                        None => {
                            base = Some(l);
                            proof {
                                let nvals = layer_values(self.states@.take(i + 1));
                                assert(nvals.len() == 1);
                                assert(nvals[0] == l);
                                assert(nvals.subrange(1, 1) =~= Seq::<usize>::empty());
                            }
                        },
                        Some(b) => {
                            base = Some(b.saturating_add(l));
                            proof {
                                let nvals = layer_values(self.states@.take(i + 1));
                                assert(nvals[0] == vals[0]);
                                lemma_sat_sum_snoc(vals[0], vals.subrange(1, vals.len() as int), l);
                                assert(nvals.subrange(1, nvals.len() as int) =~= vals.subrange(
                                    1,
                                    vals.len() as int,
                                ).push(l));
                            }
                        },
                    }
                },
                None => {
                    proof {
                        assert(layer_values(self.states@.take(i + 1)) =~= vals);
                    }
                },
            }
            i = i + 1;
        }
        proof {
            assert(self.states@.take(self.states@.len() as int) =~= self.states@);
        }
        match base {
            None => self.default_layer,
            Some(l) => l,
        }
    }

    /// Resolve the pending hold-tap decision, if any, into its hold branch.
    pub fn waiting_into_hold(&mut self)
        requires
            spec_wf(old(self)@),
        ensures
            spec_wf(final(self)@),
            final(self)@ == spec_resolve_hold(old(self)@),
            final(self)@.waiting is None,
    {
        let w_opt = self.waiting.take();
        match w_opt {
            None => {},
            Some(w) => {
                proof {
                    lemma_ht_free_action_ok(act_view(*w.hold));
                }
                self.do_action(&*w.hold, w.switch, 0);
            },
        }
    }

    /// Resolve the pending hold-tap decision, if any, into its tap branch.
    pub fn waiting_into_tap(&mut self)
        requires
            spec_wf(old(self)@),
        ensures
            spec_wf(final(self)@),
            final(self)@ == spec_resolve_tap(old(self)@),
            final(self)@.waiting is None,
    {
        let w_opt = self.waiting.take();
        match w_opt {
            None => {},
            Some(w) => {
                proof {
                    lemma_ht_free_action_ok(act_view(*w.tap));
                }
                self.do_action(&*w.tap, w.switch, 0);
            },
        }
    }

    /// The effective action for a press of `switch` at `layer`.
    pub fn press_as_action(&self, arena: &Vec<Switch>, switch: usize, layer: usize) -> (r: Action)
        ensures
            r@ == spec_press_action(arena@, switch, layer, self.default_layer),
    {
        if switch >= arena.len() {
            return Action::NoOp;
        }
        let sw_def = &arena[switch];
        match sw_def.action_at(layer) {
            None => Action::NoOp,
            Some(a) => {
                match a {
                    Action::Trans => {
                        if layer != self.default_layer {
                            match sw_def.action_at(self.default_layer) {
                                None => Action::NoOp,
                                Some(b) => {
                                    match b {
                                        Action::Trans => Action::NoOp,
                                        _ => {
                                            proof {
                                                assert(act_view(*b) != ActionView::Trans);
                                            }
                                            b.duplicate()
                                        },
                                    }
                                },
                            }
                        } else {
                            Action::NoOp
                        }
                    },
                    _ => {
                        proof {
                            assert(act_view(*a) != ActionView::Trans);
                        }
                        a.duplicate()
                    },
                }
            },
        }
    }

    /// Process one queued event under the settled context.
    pub fn unstack(&mut self, st: Stacked, arena: &Vec<Switch>)
        requires
            spec_wf(old(self)@),
            old(self)@.waiting is None,
            arena_ok(arena@),
        ensures
            spec_wf(final(self)@),
            final(self)@ == spec_unstack(old(self)@, st, arena@),
    {
        match st.event {
            KeyEvent::Released(sw) => {
                let ghost me = *self;
                let mut kept: Vec<KeyState> = Vec::new();
                let mut i: usize = 0;
                while i < self.states.len()
                    invariant
                        i <= self.states.len(),
                        *self == me,
                        kept@ == remove_states(self.states@.take(i as int), sw),
                        kept@.len() <= i,
                    decreases self.states.len() - i,
                {
                    let ghost prefix = self.states@.take(i as int);
                    proof {
                        assert(self.states@.take(i + 1).subrange(0, i as int) =~= prefix);
                        assert(self.states@.take(i + 1)[i as int] == self.states@[i as int]);
                    }
                    match self.states[i].release(sw) {
                        Some(ks) => {
                            kept.push(ks);
                            proof {
                                assert(remove_states(self.states@.take(i + 1), sw)
                                    =~= remove_states(prefix, sw) + seq![self.states@[i as int]]);
                                assert(kept@ =~= remove_states(self.states@.take(i + 1), sw));
                            }
                        },
                        None => {
                            proof {
                                assert(remove_states(self.states@.take(i + 1), sw)
                                    =~= remove_states(prefix, sw));
                            }
                        },
                    }
                    i = i + 1;
                }
                proof {
                    assert(self.states@.take(self.states@.len() as int) =~= self.states@);
                }
                self.states = kept;
            },
            KeyEvent::Pressed(sw) => {
                let layer = self.current_layer();
                let act = self.press_as_action(arena, sw, layer);
                proof {
                    lemma_press_action_ok(arena@, sw, layer, self.default_layer);
                }
                self.do_action(&act, sw, st.since);
            },
        }
    }

    /// Consume one incoming key event, in arrival order, and report the
    /// resulting key-code set.
    pub fn eval<R: Reporter>(&mut self, event: KeyEvent, arena: &Vec<Switch>, reporter: &mut R)
        requires
            spec_wf(old(self)@),
            arena_ok(arena@),
        ensures
            spec_wf(final(self)@),
            final(self)@ == spec_eval(old(self)@, event, arena@),
    {
        let ghost s0 = self@;
        let (is_press, sw): (bool, usize) = match event {
            KeyEvent::Pressed(p) => (true, p),
            KeyEvent::Released(p) => (false, p),
        };
        let ghost entry = Stacked { event, since: 0u16 };
        let evicted = self.stacked.push_back((is_press, sw, 0));
        proof {
            assert(stacked_of((is_press, sw, 0u16)) == entry);
            if s0.stacked.len() < RING_CAP {
                assert(stacked_seq(ring_contents(self.stacked)) =~= s0.stacked.push(entry));
            } else {
                assert(stacked_seq(ring_contents(self.stacked)) =~= s0.stacked.subrange(
                    1,
                    s0.stacked.len() as int,
                ).push(entry));
            }
        }
        match evicted {
            None => {},
            Some(e) => {
                self.waiting_into_hold();
                let st = stacked_from_entry(e);
                proof {
                    assert(st == s0.stacked[0]);
                }
                self.unstack(st, arena);
            },
        }
        let is_tap = match &self.waiting {
            Some(w) => w.is_corresponding_release(&event),
            None => false,
        };
        if is_tap {
            self.waiting_into_tap();
        }
        let codes = self.keycodes();
        reporter.send_codes(&codes);
    }

    /// One scan tick: age the queue, advance or resolve the pending
    /// decision or process the oldest queued event, and report the
    /// resulting key-code set.
    pub fn tick<R: Reporter>(&mut self, arena: &Vec<Switch>, reporter: &mut R)
        requires
            spec_wf(old(self)@),
            arena_ok(arena@),
        ensures
            spec_wf(final(self)@),
            final(self)@ == spec_tick(old(self)@, arena@),
    {
        let ghost s0 = self@;
        // Refresh the active contributions; currently a pass-through.
        let ghost me = *self;
        let mut refreshed: Vec<KeyState> = Vec::new();
        let mut i: usize = 0;
        while i < self.states.len()
            invariant
                i <= self.states.len(),
                *self == me,
                refreshed@ == self.states@.take(i as int),
            decreases self.states.len() - i,
        {
            let ks = self.states[i].tick().unwrap();
            refreshed.push(ks);
            proof {
                assert(refreshed@ =~= self.states@.take(i + 1));
            }
            i = i + 1;
        }
        proof {
            assert(self.states@.take(self.states@.len() as int) =~= self.states@);
        }
        self.states = refreshed;
        // Age every queued event.
        let entries = self.stacked.to_vec();
        let mut older: Vec<RingEntry> = Vec::new();
        let mut j: usize = 0;
        while j < entries.len()
            invariant
                j <= entries.len(),
                older@.len() == j,
                forall|k: int| 0 <= k < j ==> older@[k] == (
                    entries@[k].0,
                    entries@[k].1,
                    entries@[k].2.saturating_add(1),
                ),
            decreases entries.len() - j,
        {
            let e = entries[j];
            older.push((e.0, e.1, e.2.saturating_add(1)));
            j = j + 1;
        }
        self.stacked.clear();
        self.stacked.extend(older);
        proof {
            assert(stacked_seq(ring_contents(self.stacked)) =~= aged(s0.stacked));
            assert(self@ == (EvState { stacked: aged(s0.stacked), ..s0 }));
        }
        // Advance the pending decision, or process the oldest queued event.
        let timed_out = match &mut self.waiting {
            Some(w) => w.tick(),
            None => false,
        };
        if timed_out {
            self.waiting_into_hold();
        } else {
            let idle = self.waiting.is_none();
            if idle {
                let popped = self.stacked.pop_front();
                match popped {
                    Some(e) => {
                        let ghost before = aged(s0.stacked);
                        proof {
                            assert(stacked_seq(ring_contents(self.stacked)) =~= before.subrange(
                                1,
                                before.len() as int,
                            ));
                            assert(stacked_of(e) == before[0]);
                        }
                        let st = stacked_from_entry(e);
                        self.unstack(st, arena);
                    },
                    None => {},
                }
            }
        }
        let codes = self.keycodes();
        reporter.send_codes(&codes);
    }
}

/// Folding one more value onto a saturating sum adds it at the end.
proof fn lemma_sat_sum_snoc(acc: usize, vals: Seq<usize>, v: usize)
    ensures
        sat_sum(acc, vals.push(v)) == sat_sum(acc, vals).saturating_add(v),
    decreases vals.len(),
{
    let pushed = vals.push(v);
    assert(pushed.len() == vals.len() + 1);
    assert(sat_sum(acc, pushed) == sat_sum(
        acc.saturating_add(pushed[0]),
        pushed.subrange(1, pushed.len() as int),
    ));
    if vals.len() == 0 {
        assert(pushed[0] == v);
        assert(pushed.subrange(1, 1) =~= Seq::<usize>::empty());
        assert(sat_sum(acc.saturating_add(v), Seq::<usize>::empty()) == acc.saturating_add(v));
        assert(sat_sum(acc, vals) == acc);
    } else {
        let tail = vals.subrange(1, vals.len() as int);
        lemma_sat_sum_snoc(acc.saturating_add(vals[0]), tail, v);
        assert(pushed.subrange(1, pushed.len() as int) =~= tail.push(v));
        assert(pushed[0] == vals[0]);
        assert(sat_sum(acc, vals) == sat_sum(acc.saturating_add(vals[0]), tail));
    }
}


/// Layer arithmetic: active layer modifiers replace the base layer rather
/// than adding to it - with any modifier active the effective layer does
/// not depend on `default_layer` at all; with none active it is exactly
/// `default_layer`.
pub proof fn lemma_layer_modifiers_replace_default(states: Seq<KeyState>, d1: usize, d2: usize)
    ensures
        layer_values(states).len() > 0 ==> spec_current_layer(states, d1) == spec_current_layer(
            states,
            d2,
        ),
        layer_values(states).len() == 0 ==> spec_current_layer(states, d1) == d1
            && spec_current_layer(states, d2) == d2,
{
}

} // verus!
