//! The 16-pin expander family (TCA9555 / PCA9555): two register bytes per
//! poll. All scan logic lives in the shared `Expander` core.

use vstd::prelude::*;
use crate::device::DeviceState;
use crate::device::Expander;
use crate::device::ExpanderView;
use crate::device::spec_device_events;
use crate::device::spec_device_step;
use crate::event::EventBuffer;
use crate::switch::Switch;

verus! {

/// A 16-pin I/O-expander scan device.
#[derive(Debug)]
pub struct TCA9555 {
    pub expander: Expander,
}

impl TCA9555 {
    pub open spec fn wf(self) -> bool {
        self.expander.wf() && self.expander.num_pins == 16
    }

    /// A device at bus address `0x20 + addr`, debouncing over `debounce + 1`
    /// agreeing polls, with every pin unbound.
    pub fn new(addr: u8, debounce: u16) -> (r: TCA9555)
        requires
            addr <= 0xDF,
        ensures
            r.wf(),
            r.expander.dev_addr == 0x20 + addr,
            r.expander@.debouncer.limit == debounce,
            r.expander@.debouncer.cur == Seq::<bool>::empty(),
            forall|i: int| 0 <= i < 16 ==> r.expander@.bindings[i] is None,
    {
        TCA9555 { expander: Expander::new(16, addr, debounce) }
    }

    /// The register writes that configure every pin as an input.
    pub fn init_commands(&self) -> (r: Vec<(u8, u8)>)
        ensures
            r@ == seq![(0x06u8, 0xFFu8), (0x07u8, 0xFFu8)],
    {
        self.expander.init_commands()
    }

    /// Decode the two raw register bytes of one poll.
    pub fn decode(&self, data: &Vec<u8>) -> (r: DeviceState)
        requires
            self.wf(),
            data@.len() == 2,
        ensures
            r matches DeviceState::Pins16(p) && forall|j: int|
                0 <= j < 16 ==> p@[j] == crate::device::bit_low(data@[j / 8], (j % 8) as u8),
    {
        self.expander.decode(data)
    }

    /// Bind a pin to a switch; fails with the offending index when the pin
    /// is outside this family's 16 pins.
    pub fn assign(&mut self, pin: usize, switch: usize) -> (r: Result<usize, usize>)
        requires
            old(self).wf(),
        ensures
            final(self).wf(),
            pin < 16 ==> {
                &&& r == Ok::<usize, usize>(pin)
                &&& final(self).expander@ == (ExpanderView {
                    bindings: old(self).expander@.bindings.update(pin as int, Some(switch)),
                    ..old(self).expander@
                })
            },
            pin >= 16 ==> {
                &&& r == Err::<usize, usize>(pin)
                &&& final(self).expander@ == old(self).expander@
            },
    {
        self.expander.assign(pin, switch)
    }

    /// Whether any bound switch contributes at least one per-layer action.
    pub fn has_assigned(&self, arena: &Vec<Switch>) -> (r: bool)
        ensures
            r == exists|i: int|
                0 <= i < self.expander@.bindings.len() && ((
                #[trigger] self.expander@.bindings[i]) matches Some(sw) && sw < arena@.len()
                    && arena@[sw as int].actions@.len() > 0),
    {
        self.expander.has_assigned(arena)
    }

    /// Debounce one raw snapshot and bind the transitions to key events.
    pub fn pick_events(&mut self, pins: &Vec<bool>) -> (r: EventBuffer)
        requires
            old(self).wf(),
            pins@.len() == 16,
        ensures
            final(self).wf(),
            final(self).expander@ == spec_device_step(old(self).expander@, pins@),
            r.buffer@ == spec_device_events(old(self).expander@, pins@),
    {
        self.expander.pick_events(pins)
    }
}

} // verus!
