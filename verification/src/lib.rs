//! Core of a keyboard scan pipeline: debouncing of raw pin samples,
//! register-level models of I/O-expander scan devices, and the action
//! evaluator that turns press/release events into the live key-code set.

pub mod action;
pub mod debouncer;
pub mod device;
pub mod devices;
pub mod evaluator;
pub mod event;
pub mod reporter;
pub mod ring;
pub mod scanner;
pub mod switch;
