//! The scan-device abstraction: one I/O-expander chip, its register
//! protocol as data, its private debouncer, and the pin-to-switch binding
//! table that turns pin transitions into key events.

use vstd::prelude::*;
use crate::debouncer::DebView;
use crate::debouncer::Debouncer;
use crate::debouncer::deb_changed;
use crate::debouncer::deb_step;
use crate::debouncer::diff_events;
use crate::debouncer::truncated;
use crate::event::EventBuffer;
use crate::event::IndexEvent;
use crate::event::KeyEvent;
use crate::switch::Switch;

verus! {

/// The switch index that unbound pins resolve to: past every arena index,
/// it is the harmless dummy switch with no actions.
pub const UNBOUND_SWITCH: usize = usize::MAX;

/// One raw poll outcome: a pin snapshot of either register width, or a
/// reserved analog value.
#[derive(Debug, Clone)]
pub enum DeviceState {
    Pins16([bool; 16]),
    Pins8([bool; 8]),
    Value8(u8),
    Value16(u16),
    Value32(u32),
}

/// Mathematical state of an expander device.
pub ghost struct ExpanderView {
    pub dev_addr: u8,
    pub num_pins: usize,
    pub debouncer: DebView,
    pub bindings: Seq<Option<usize>>,
}

/// The switch index a pin resolves to under the binding table.
pub open spec fn bound_switch(bindings: Seq<Option<usize>>, pin: int) -> usize {
    if 0 <= pin < bindings.len() {
        match bindings[pin] {
            Some(sw) => sw,
            None => UNBOUND_SWITCH,
        }
    } else {
        UNBOUND_SWITCH
    }
}

/// Pin transitions mapped to key events through the binding table.
pub open spec fn bind_events(idx_events: Seq<IndexEvent>, bindings: Seq<Option<usize>>) -> Seq<
    KeyEvent,
> {
    Seq::new(
        idx_events.len(),
        |i: int|
            match idx_events[i] {
                IndexEvent::PressedAt(p) => KeyEvent::Pressed(bound_switch(bindings, p as int)),
                IndexEvent::ReleasedAt(p) => KeyEvent::Released(bound_switch(bindings, p as int)),
            },
    )
}

/// The device state after one poll: only the debouncer moves.
pub open spec fn spec_device_step(v: ExpanderView, pins: Seq<bool>) -> ExpanderView {
    ExpanderView { debouncer: deb_step(v.debouncer, pins), ..v }
}

/// The key events one poll yields: on promotion, the transitions between
/// the two stable snapshots, bound to switches; otherwise none.
pub open spec fn spec_device_events(v: ExpanderView, pins: Seq<bool>) -> Seq<KeyEvent> {
    if deb_changed(v.debouncer, pins) {
        bind_events(
            truncated(diff_events(v.debouncer.cur, deb_step(v.debouncer, pins).cur)),
            v.bindings,
        )
    } else {
        Seq::empty()
    }
}

/// Pin `j` of a register byte reads low exactly when the key is pressed.
pub open spec fn bit_low(b: u8, j: u8) -> bool {
    (b >> j) & 1 == 0
}

/// One I/O-expander scan device: bus address, pin count, private
/// debouncer, and the pin-to-switch binding table. Both supported chip
/// families share this logic and differ only in pin count.
#[derive(Debug)]
pub struct Expander {
    pub dev_addr: u8,
    pub num_pins: usize,
    pub debouncer: Debouncer,
    pub bindings: Vec<Option<usize>>,
}

impl View for Expander {
    type V = ExpanderView;

    open spec fn view(&self) -> ExpanderView {
        ExpanderView {
            dev_addr: self.dev_addr,
            num_pins: self.num_pins,
            debouncer: self.debouncer@,
            bindings: self.bindings@,
        }
    }
}

impl Expander {
    /// The pin count is one of the two supported register widths, the
    /// binding table covers exactly the pins, and the debouncer snapshots
    /// are empty or pin-wide.
    pub open spec fn wf(self) -> bool {
        &&& self.num_pins == 8 || self.num_pins == 16
        &&& self.bindings@.len() == self.num_pins
        &&& self.debouncer.inv()
        &&& self.debouncer@.cur.len() == 0 || self.debouncer@.cur.len() == self.num_pins
        &&& self.debouncer@.candidate.len() == 0 || self.debouncer@.candidate.len()
            == self.num_pins
    }

    /// A device at bus address `0x20 + addr` with every pin unbound.
    pub fn new(num_pins: usize, addr: u8, debounce: u16) -> (r: Expander)
        requires
            num_pins == 8 || num_pins == 16,
            addr <= 0xDF,
        ensures
            r.wf(),
            r.dev_addr == 0x20 + addr,
            r.num_pins == num_pins,
            r.debouncer@ == (DebView {
                cur: Seq::<bool>::empty(),
                candidate: Seq::<bool>::empty(),
                count: 0,
                limit: debounce,
            }),
            forall|i: int| 0 <= i < num_pins ==> r.bindings@[i] is None,
    {
        let mut bindings: Vec<Option<usize>> = Vec::new();
        let mut i: usize = 0;
        while i < num_pins
            invariant
                i <= num_pins,
                bindings@.len() == i,
                forall|j: int| 0 <= j < i ==> bindings@[j] is None,
            decreases num_pins - i,
        {
            bindings.push(None);
            i = i + 1;
        }
        Expander { dev_addr: 0x20 + addr, num_pins, debouncer: Debouncer::new(debounce), bindings }
    }

    /// The register writes that configure every pin as an input: value
    /// `0xFF` to registers `0x06` and `0x07`, in that order.
    pub fn init_commands(&self) -> (r: Vec<(u8, u8)>)
        ensures
            r@ == seq![(0x06u8, 0xFFu8), (0x07u8, 0xFFu8)],
    {
        let mut cmds: Vec<(u8, u8)> = Vec::new();
        cmds.push((0x06, 0xFF));
        cmds.push((0x07, 0xFF));
        proof {
            assert(cmds@ =~= seq![(0x06u8, 0xFFu8), (0x07u8, 0xFFu8)]);
        }
        cmds
    }

    /// Decode the raw register bytes of one poll: bit value 0 means
    /// pressed (the electrical convention is active low).
    pub fn decode(&self, data: &Vec<u8>) -> (r: DeviceState)
        requires
            self.wf(),
            data@.len() * 8 == self.num_pins,
        ensures
            self.num_pins == 8 ==> (r matches DeviceState::Pins8(p) && forall|j: int|
                0 <= j < 8 ==> p@[j] == bit_low(data@[0], j as u8)),
            self.num_pins == 16 ==> (r matches DeviceState::Pins16(p) && forall|j: int|
                0 <= j < 16 ==> p@[j] == bit_low(data@[j / 8], (j % 8) as u8)),
    {
        if self.num_pins == 8 {
            let b = data[0];
            let mut pressed: [bool; 8] = [false; 8];
            let mut j: u8 = 0;
            while j < 8
                invariant
                    j <= 8,
                    forall|k: int| 0 <= k < j ==> pressed@[k] == bit_low(b, k as u8),
                decreases 8 - j,
            {
                pressed[j as usize] = (b >> j) & 1 == 0;
                j = j + 1;
            }
            DeviceState::Pins8(pressed)
        } else {
            let mut pressed: [bool; 16] = [false; 16];
            let mut j: u8 = 0;
            while j < 16
                invariant
                    j <= 16,
                    data@.len() == 2,
                    forall|k: int| 0 <= k < j ==> pressed@[k] == bit_low(data@[k / 8], (k % 8) as u8),
                decreases 16 - j,
            {
                let b = data[(j / 8) as usize];
                pressed[j as usize] = (b >> (j % 8)) & 1 == 0;
                j = j + 1;
            }
            DeviceState::Pins16(pressed)
        }
    }

    /// Bind a pin to a switch; fails with the offending index when the pin
    /// is outside the device's pin count.
    pub fn assign(&mut self, pin: usize, switch: usize) -> (r: Result<usize, usize>)
        requires
            old(self).wf(),
        ensures
            final(self).wf(),
            pin < old(self).num_pins ==> {
                &&& r == Ok::<usize, usize>(pin)
                &&& final(self)@ == (ExpanderView {
                    bindings: old(self)@.bindings.update(pin as int, Some(switch)),
                    ..old(self)@
                })
            },
            pin >= old(self).num_pins ==> {
                &&& r == Err::<usize, usize>(pin)
                &&& final(self)@ == old(self)@
            },
    {
        if pin < self.num_pins {
            self.bindings.set(pin, Some(switch));
            Ok(pin)
        } else {
            Err(pin)
        }
    }

    /// Whether any bound switch contributes at least one per-layer action.
    pub fn has_assigned(&self, arena: &Vec<Switch>) -> (r: bool)
        ensures
            r == exists|i: int|
                0 <= i < self.bindings@.len() && ((#[trigger] self.bindings@[i]) matches Some(sw)
                    && sw < arena@.len() && arena@[sw as int].actions@.len() > 0),
    {
        let mut i: usize = 0;
        while i < self.bindings.len()
            invariant
                i <= self.bindings@.len(),
                forall|j: int|
                    0 <= j < i ==> !((#[trigger] self.bindings@[j]) matches Some(sw) && sw
                        < arena@.len() && arena@[sw as int].actions@.len() > 0),
            decreases self.bindings@.len() - i,
        {
            match self.bindings[i] {
                Some(sw) => {
                    if sw < arena.len() && arena[sw].actions.len() > 0 {
                        return true;
                    }
                },
                None => {},
            }
            i = i + 1;
        }
        false
    }

    /// Run the private debouncer over one raw snapshot and bind the
    /// resulting pin transitions to key events.
    pub fn pick_events(&mut self, pins: &Vec<bool>) -> (r: EventBuffer)
        requires
            old(self).wf(),
            pins@.len() == old(self).num_pins,
        ensures
            final(self).wf(),
            final(self)@ == spec_device_step(old(self)@, pins@),
            r.buffer@ == spec_device_events(old(self)@, pins@),
    {
        let ghost v0 = self@;
        let mut result = EventBuffer::new();
        let indexes = self.debouncer.events(pins.as_slice());
        let ghost idx = indexes.buffer@;
        let mut i: usize = 0;
        let ghost me = *self;
        while i < indexes.buffer.len()
            invariant
                i <= indexes.buffer.len(),
                *self == me,
                idx == indexes.buffer@,
                idx.len() <= crate::event::EVENT_CAP,
                result.buffer@ == bind_events(idx, self.bindings@).take(i as int),
            decreases indexes.buffer.len() - i,
        {
            let sw: usize = match indexes.buffer[i] {
                IndexEvent::PressedAt(p) => {
                    if p < self.bindings.len() {
                        match self.bindings[p] {
                            Some(b) => b,
                            None => UNBOUND_SWITCH,
                        }
                    } else {
                        UNBOUND_SWITCH
                    }
                },
                IndexEvent::ReleasedAt(p) => {
                    if p < self.bindings.len() {
                        match self.bindings[p] {
                            Some(b) => b,
                            None => UNBOUND_SWITCH,
                        }
                    } else {
                        UNBOUND_SWITCH
                    }
                },
            };
            let ev: KeyEvent = match indexes.buffer[i] {
                IndexEvent::PressedAt(_) => KeyEvent::Pressed(sw),
                IndexEvent::ReleasedAt(_) => KeyEvent::Released(sw),
            };
            result.push(ev);
            proof {
                assert(bind_events(idx, self.bindings@)[i as int] == ev);
                assert(result.buffer@ =~= bind_events(idx, self.bindings@).take(i + 1));
            }
            i = i + 1;
        }
        proof {
            assert(bind_events(idx, self.bindings@).take(idx.len() as int) =~= bind_events(
                idx,
                self.bindings@,
            ));
            if deb_changed(v0.debouncer, pins@) {
                assert(result.buffer@ =~= spec_device_events(v0, pins@));
            } else {
                assert(idx =~= Seq::<IndexEvent>::empty());
                assert(result.buffer@ =~= spec_device_events(v0, pins@));
            }
        }
        result
    }
}


/// Owns the configured scan devices, in scan order.
#[derive(Debug)]
pub struct DeviceHolder {
    pub devices: Vec<crate::devices::Devices>,
}

impl DeviceHolder {
    pub fn new() -> (r: DeviceHolder)
        ensures
            r.devices@ == Seq::<crate::devices::Devices>::empty(),
    {
        DeviceHolder { devices: Vec::new() }
    }
}

} // verus!
