//! Events flowing through the scan pipeline: debouncer output (pin-index
//! transitions) and the switch-bound key events handed to the evaluator.

use vstd::prelude::*;

verus! {

/// Capacity of the per-cycle event buffers; events past this bound are
/// silently dropped.
pub const EVENT_CAP: usize = 64;

/// Push with silent drop on overflow: the bounded-collection discipline of
/// every fixed-capacity buffer in this crate.
pub open spec fn push_capped<T>(s: Seq<T>, x: T, cap: nat) -> Seq<T> {
    if s.len() < cap {
        s.push(x)
    } else {
        s
    }
}

/// A press or release detected at a pin index, before switch binding.
#[derive(Debug, Clone, Copy, PartialEq, Eq, Structural)]
pub enum IndexEvent {
    PressedAt(usize),
    ReleasedAt(usize),
}

/// A press or release of a bound switch; the payload is the switch's stable
/// index into the switch arena.
#[derive(Debug, Clone, Copy, PartialEq, Eq, Structural)]
pub enum KeyEvent {
    Pressed(usize),
    Released(usize),
}

impl KeyEvent {
    /// The arena index of the switch this event belongs to.
    pub open spec fn switch(self) -> usize {
        match self {
            KeyEvent::Pressed(s) => s,
            KeyEvent::Released(s) => s,
        }
    }
}

/// Bounded list of pin-index transitions produced by one debounce cycle.
pub struct IndexEvents {
    pub buffer: Vec<IndexEvent>,
}

impl IndexEvents {
    pub fn new() -> (r: Self)
        ensures
            r.buffer@ == Seq::<IndexEvent>::empty(),
    {
        IndexEvents { buffer: Vec::new() }
    }

    /// Append one transition, silently dropping it when the buffer is full.
    pub fn push(&mut self, e: IndexEvent)
        ensures
            final(self).buffer@ == push_capped(old(self).buffer@, e, EVENT_CAP as nat),
    {
        if self.buffer.len() < EVENT_CAP {
            self.buffer.push(e);
        }
    }
}

/// Bounded list of switch-bound key events produced by one device poll.
pub struct EventBuffer {
    pub buffer: Vec<KeyEvent>,
}

impl EventBuffer {
    pub fn new() -> (r: Self)
        ensures
            r.buffer@ == Seq::<KeyEvent>::empty(),
    {
        EventBuffer { buffer: Vec::new() }
    }

    /// Append one event, silently dropping it when the buffer is full.
    pub fn push(&mut self, e: KeyEvent)
        ensures
            final(self).buffer@ == push_capped(old(self).buffer@, e, EVENT_CAP as nat),
    {
        if self.buffer.len() < EVENT_CAP {
            self.buffer.push(e);
        }
    }
}

} // verus!
