//! Logical clocks for distributed executions: Lamport's scalar clocks and
//! their generalisation, vector clocks, together with the per-process
//! decision logic of a message-passing simulation and the total order used
//! to print its event log.
//!
//! The state machines here are driven by a runner that owns the channels,
//! threads and timers; every decision it makes about clocks and events is
//! taken by the verified functions of this crate.

pub mod causality;
pub mod lamport_clock;
pub mod order;
mod random;
pub mod system;
pub mod vector_clock;

pub use lamport_clock::{LamportClock, Message, Node};
