//! The 8-pin expander family (TCA9554 / PCA9554): one register byte per
//! poll. All scan logic lives in the shared `Expander` core.

use vstd::prelude::*;
use crate::device::DeviceState;
use crate::device::Expander;
use crate::device::ExpanderView;
use crate::device::spec_device_events;
use crate::device::spec_device_step;
use crate::event::EventBuffer;
use crate::switch::Switch;

verus! {

/// An 8-pin I/O-expander scan device.
#[derive(Debug)]
pub struct TCA9554 {
    pub expander: Expander,
}

impl TCA9554 {
    pub open spec fn wf(self) -> bool {
        self.expander.wf() && self.expander.num_pins == 8
    }

    /// A device at bus address `0x20 + addr`, debouncing over `debounce + 1`
    /// agreeing polls, with every pin unbound.
    pub fn new(addr: u8, debounce: u16) -> (r: TCA9554)
        requires
            addr <= 0xDF,
        ensures
            r.wf(),
            r.expander.dev_addr == 0x20 + addr,
            r.expander@.debouncer.limit == debounce,
            r.expander@.debouncer.cur == Seq::<bool>::empty(),
            forall|i: int| 0 <= i < 8 ==> r.expander@.bindings[i] is None,
    {
        TCA9554 { expander: Expander::new(8, addr, debounce) }
    }

    /// The register writes that configure every pin as an input.
    pub fn init_commands(&self) -> (r: Vec<(u8, u8)>)
        ensures
            r@ == seq![(0x06u8, 0xFFu8), (0x07u8, 0xFFu8)],
    {
        self.expander.init_commands()
    }

    /// Decode the single raw register byte of one poll.
    pub fn decode(&self, data: &Vec<u8>) -> (r: DeviceState)
        requires
            self.wf(),
            data@.len() == 1,
        ensures
            r matches DeviceState::Pins8(p) && forall|j: int|
                0 <= j < 8 ==> p@[j] == crate::device::bit_low(data@[0], j as u8),
    {
        self.expander.decode(data)
    }

    /// Bind a pin to a switch; fails with the offending index when the pin
    /// is outside this family's 8 pins.
    pub fn assign(&mut self, pin: usize, switch: usize) -> (r: Result<usize, usize>)
        requires
            old(self).wf(),
        ensures
            final(self).wf(),
            pin < 8 ==> {
                &&& r == Ok::<usize, usize>(pin)
                &&& final(self).expander@ == (ExpanderView {
                    bindings: old(self).expander@.bindings.update(pin as int, Some(switch)),
                    ..old(self).expander@
                })
            },
            pin >= 8 ==> {
                &&& r == Err::<usize, usize>(pin)
                &&& final(self).expander@ == old(self).expander@
            },
    {
        self.expander.assign(pin, switch)
    }

    /// Whether any bound switch contributes at least one per-layer action.
    pub fn has_assigned(&self, arena: &Vec<Switch>) -> (r: bool)
        ensures
            r == exists|i: int|
                0 <= i < self.expander@.bindings.len() && ((
                #[trigger] self.expander@.bindings[i]) matches Some(sw) && sw < arena@.len()
                    && arena@[sw as int].actions@.len() > 0),
    {
        self.expander.has_assigned(arena)
    }

    /// Debounce one raw snapshot and bind the transitions to key events.
    pub fn pick_events(&mut self, pins: &Vec<bool>) -> (r: EventBuffer)
        requires
            old(self).wf(),
            pins@.len() == 8,
        ensures
            final(self).wf(),
            final(self).expander@ == spec_device_step(old(self).expander@, pins@),
            r.buffer@ == spec_device_events(old(self).expander@, pins@),
    {
        self.expander.pick_events(pins)
    }
}

} // verus!
