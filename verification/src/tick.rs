//! The tick source's task: a `Tick` on the bus at a steady pace.

use crate::event::Event;
use crate::event::Polled;
use vstd::prelude::*;

verus! {

/// Seconds between two ticks.
pub const TICK_PERIOD_SECS: u64 = 1;

/// What the tick source does next.
#[derive(Clone, Copy, Debug, PartialEq, Eq)]
pub enum TickAction {
    /// End the task.
    Stop,
    /// Look for the next waiting event.
    Drain,
    /// Put a `Tick` on the bus, sleep for the period, then look for waiting
    /// events again.
    Emit,
}

/// What the tick source does with what it found waiting on its subscription.
///
/// Before each tick the source goes through the events that are waiting, only to
/// see whether one of them is `Exit`. It acts on no other event. When nothing is
/// waiting any more it emits the tick; a lag or a closed bus ends the round in
/// the same way.
pub fn tick_step(polled: &Polled) -> (action: TickAction)
    ensures
        action == match polled {
            Polled::Event(Event::Exit) => TickAction::Stop,
            Polled::Event(_) => TickAction::Drain,
            _ => TickAction::Emit,
        },
{
    match polled {
        Polled::Event(Event::Exit) => TickAction::Stop,
        Polled::Event(_) => TickAction::Drain,
        Polled::Empty => TickAction::Emit,
        Polled::Lagged(_) => TickAction::Emit,
        Polled::Closed => TickAction::Emit,
    }
}

/// Whether an `Exit` is among the events that were waiting.
pub open spec fn exit_waiting(waiting: Seq<Event>) -> bool {
    exists|i: int| 0 <= i < waiting.len() && waiting[i] == Event::Exit
}

/// What a whole round of looking through the waiting events comes to: the source
/// stops if an `Exit` was among them, and emits its tick otherwise.
pub fn tick_round(waiting: &Vec<Event>) -> (action: TickAction)
    ensures
        action == if exit_waiting(waiting@) {
            TickAction::Stop
        } else {
            TickAction::Emit
        },
{
    let mut i: usize = 0;
    while i < waiting.len()
        invariant
            i <= waiting.len(),
            forall|j: int| 0 <= j < i ==> waiting[j] != Event::Exit,
        decreases waiting.len() - i,
    {
        if let Event::Exit = &waiting[i] {
            return TickAction::Stop;
        }
        i += 1;
    }
    TickAction::Emit
}

} // verus!
