//! The closed set of supported expander chip families, as one tagged
//! variant so the scanner can drive a heterogeneous device list without
//! dynamic dispatch.

pub mod tca9554;
pub mod tca9555;

use vstd::prelude::*;
use crate::device::DeviceState;
use crate::device::ExpanderView;
use crate::device::spec_device_events;
use crate::device::spec_device_step;
use crate::event::EventBuffer;
use crate::event::KeyEvent;
use tca9554::TCA9554;
use tca9555::TCA9555;

verus! {

/// One configured scan device of either supported family.
#[derive(Debug)]
pub enum Devices {
    TCA9555(TCA9555),
    TCA9554(TCA9554),
}

/// Mathematical state of one scan device: its family's register width and
/// the expander state.
pub ghost struct DevView {
    pub is16: bool,
    pub exp: ExpanderView,
}

impl View for Devices {
    type V = DevView;

    open spec fn view(&self) -> DevView {
        match *self {
            Devices::TCA9555(d) => DevView { is16: true, exp: d.expander@ },
            Devices::TCA9554(d) => DevView { is16: false, exp: d.expander@ },
        }
    }
}

/// The pin snapshot a poll outcome carries for this device, when the
/// outcome matches the device's register width.
pub open spec fn pins_of(v: DevView, st: DeviceState) -> Option<Seq<bool>> {
    match st {
        DeviceState::Pins8(p) => if !v.is16 {
            Some(p@)
        } else {
            None
        },
        DeviceState::Pins16(p) => if v.is16 {
            Some(p@)
        } else {
            None
        },
        _ => None,
    }
}

/// The device state after one poll outcome: a bus error or a mismatched
/// outcome leaves it untouched.
pub open spec fn dev_step(v: DevView, read: Option<DeviceState>) -> DevView {
    match read {
        None => v,
        Some(st) => match pins_of(v, st) {
            Some(pins) => DevView { exp: spec_device_step(v.exp, pins), ..v },
            None => v,
        },
    }
}

/// The key events one poll outcome yields: none on a bus error or a
/// mismatched outcome.
pub open spec fn dev_events(v: DevView, read: Option<DeviceState>) -> Seq<KeyEvent> {
    match read {
        None => Seq::empty(),
        Some(st) => match pins_of(v, st) {
            Some(pins) => spec_device_events(v.exp, pins),
            None => Seq::empty(),
        },
    }
}

/// Copy a fixed-size pin snapshot into a vector.
fn array_to_vec<const N: usize>(p: &[bool; N]) -> (r: Vec<bool>)
    ensures
        r@ == p@,
{
    let mut out: Vec<bool> = Vec::new();
    let mut i: usize = 0;
    while i < N
        invariant
            i <= N,
            out@ == p@.take(i as int),
        decreases N - i,
    {
        let b = p[i];
        out.push(b);
        proof {
            assert(out@ =~= p@.take(i + 1));
        }
        i = i + 1;
    }
    proof {
        assert(out@ =~= p@);
    }
    out
}

impl Devices {
    pub open spec fn wf(self) -> bool {
        match self {
            Devices::TCA9555(d) => d.wf(),
            Devices::TCA9554(d) => d.wf(),
        }
    }

    /// Feed one poll outcome to the device's debouncer and collect the
    /// bound key events; an outcome of the wrong register width yields
    /// nothing.
    pub fn pick_from_state(&mut self, state: &DeviceState) -> (r: EventBuffer)
        requires
            old(self).wf(),
        ensures
            final(self).wf(),
            final(self)@ == dev_step(old(self)@, Some(*state)),
            r.buffer@ == dev_events(old(self)@, Some(*state)),
    {
        match self {
            Devices::TCA9554(d) => {
                match state {
                    DeviceState::Pins8(p) => {
                        let pins = array_to_vec(p);
                        d.pick_events(&pins)
                    },
                    _ => EventBuffer::new(),
                }
            },
            Devices::TCA9555(d) => {
                match state {
                    DeviceState::Pins16(p) => {
                        let pins = array_to_vec(p);
                        d.pick_events(&pins)
                    },
                    _ => EventBuffer::new(),
                }
            },
        }
    }
}

} // verus!
