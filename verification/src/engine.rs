//! The script engine's task: what it does on each event.

use crate::clock::now;
use crate::event::into_send_events;
use crate::event::send_events;
use crate::event::Delivery;
use crate::event::Event;
use crate::instant::representable;
use crate::instant::Instant;
use crate::script::Script;
use crate::timeline::due;
use crate::timeline::later;
use vstd::prelude::*;

verus! {

/// What the script engine's task does next.
#[derive(Debug, PartialEq, Eq)]
pub enum EngineAction {
    /// End the task.
    Stop,
    /// Wait for the next event.
    Continue,
    /// Walk through the directory of scripts and reload the script with what is
    /// found, then wait for the next event.
    Rescan,
    /// Put these events on the bus in this order, then wait for the next event.
    Send(Vec<Event>),
}

/// What the script engine does on a delivery, when a tick is taken at `now`.
///
/// `Exit` and a closed bus end the task. `ReloadScript` asks for a reload, which
/// is left to the caller since it reads the directory. `Tick` polls the script
/// and asks for one `SendMessage` for each message that has fallen due, in the
/// order of the timeline. Anything else, a lag too, is passed over.
pub fn engine_step_at(script: &mut Script, delivery: &Delivery, now: Instant) -> (action:
    EngineAction)
    ensures
        match delivery {
            Delivery::Event(Event::Tick) => {
                &&& action matches EngineAction::Send(events)
                &&& events.deep_view() == send_events(
                    due(old(script).timeline(), old(script).cursor(), now@),
                )
                &&& final(script).cursor() == later(old(script).cursor(), now@)
                &&& final(script).timeline() == old(script).timeline()
                &&& final(script).source() == old(script).source()
                &&& final(script).delimiter() == old(script).delimiter()
            },
            Delivery::Event(Event::ReloadScript) => {
                &&& action == EngineAction::Rescan
                &&& *final(script) == *old(script)
            },
            Delivery::Event(Event::Exit) | Delivery::Closed => {
                &&& action == EngineAction::Stop
                &&& *final(script) == *old(script)
            },
            Delivery::Event(Event::SendMessage(_)) | Delivery::Lagged(_) => {
                &&& action == EngineAction::Continue
                &&& *final(script) == *old(script)
            },
        },
{
    match delivery {
        Delivery::Event(Event::Tick) => EngineAction::Send(into_send_events(script.poll_at(now))),
        Delivery::Event(Event::ReloadScript) => EngineAction::Rescan,
        Delivery::Event(Event::Exit) => EngineAction::Stop,
        Delivery::Closed => EngineAction::Stop,
        Delivery::Event(Event::SendMessage(_)) => EngineAction::Continue,
        Delivery::Lagged(_) => EngineAction::Continue,
    }
}

/// What the script engine does on a delivery, a tick being taken at the present
/// instant.
pub fn engine_step(script: &mut Script, delivery: &Delivery) -> (action: EngineAction)
    ensures
        match delivery {
            Delivery::Event(Event::Tick) => exists|now: int|
                {
                    &&& representable(now)
                    &&& action matches EngineAction::Send(events)
                    &&& events.deep_view() == send_events(
                        #[trigger] due(old(script).timeline(), old(script).cursor(), now),
                    )
                    &&& final(script).cursor() == later(old(script).cursor(), now)
                    &&& final(script).timeline() == old(script).timeline()
                    &&& final(script).source() == old(script).source()
                    &&& final(script).delimiter() == old(script).delimiter()
                },
            Delivery::Event(Event::ReloadScript) => {
                &&& action == EngineAction::Rescan
                &&& *final(script) == *old(script)
            },
            Delivery::Event(Event::Exit) | Delivery::Closed => {
                &&& action == EngineAction::Stop
                &&& *final(script) == *old(script)
            },
            Delivery::Event(Event::SendMessage(_)) | Delivery::Lagged(_) => {
                &&& action == EngineAction::Continue
                &&& *final(script) == *old(script)
            },
        },
{
    let present = now();
    engine_step_at(script, delivery, present)
}

} // verus!
