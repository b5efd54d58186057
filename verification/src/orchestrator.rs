//! The orchestrator: when the whole system shuts down.

use crate::event::Delivery;
use crate::event::Event;
use vstd::prelude::*;

verus! {

/// What woke the orchestrator.
#[derive(Debug, PartialEq, Eq)]
pub enum Wake {
    /// The interrupt signal.
    Interrupt,
    /// Something on the bus.
    Bus(Delivery),
}

/// Whether the orchestrator starts the shutdown: on an interrupt, and on an
/// `Exit` from any task. It then puts `Exit` on the bus and waits for every task
/// to end. Nothing else on the bus concerns it.
pub fn should_shut_down(wake: &Wake) -> (r: bool)
    ensures
        r == (*wake == Wake::Interrupt || *wake == Wake::Bus(Delivery::Event(Event::Exit))),
{
    match wake {
        Wake::Interrupt => true,
        Wake::Bus(Delivery::Event(Event::Exit)) => true,
        _ => false,
    }
}

} // verus!
