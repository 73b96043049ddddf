//! The sink that receives the live key-code set after every evaluation
//! step. Implementations (a HID transport, a test recorder) live outside
//! the engine; the evaluator only hands them the current codes.

use vstd::prelude::*;

verus! {

/// Accepts the ordered key-code list computed after each event and tick.
pub trait Reporter {
    fn send_codes(&mut self, codes: &Vec<u8>);
}

} // verus!
