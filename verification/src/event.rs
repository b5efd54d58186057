//! The events that the tasks exchange over the bus.

use crate::message::Message;
use crate::message::MessageView;
use vstd::prelude::*;

verus! {

/// How many events a subscriber may leave unread before it starts to lose the
/// oldest of them.
pub const BUS_CAPACITY: usize = 16;

/// An event as contracts see it.
pub enum EventView {
    Tick,
    ReloadScript,
    SendMessage(MessageView),
    Exit,
}

/// An event on the bus.
#[derive(Debug, PartialEq, Eq)]
pub enum Event {
    /// Time has advanced: the script engine polls its timeline.
    Tick,
    /// The set of script files has changed: the script engine rebuilds its timeline.
    ReloadScript,
    /// A message has fallen due: the publisher sends it to the broker.
    SendMessage(Message),
    /// Every task stops.
    Exit,
}

impl View for Event {
    type V = EventView;

    open spec fn view(&self) -> EventView {
        match self {
            Event::Tick => EventView::Tick,
            Event::ReloadScript => EventView::ReloadScript,
            Event::SendMessage(message) => EventView::SendMessage(message@),
            Event::Exit => EventView::Exit,
        }
    }
}

impl DeepView for Event {
    type V = EventView;

    open spec fn deep_view(&self) -> EventView {
        self@
    }
}

impl Clone for Event {
    fn clone(&self) -> (r: Self)
        ensures
            r == *self,
    {
        match self {
            Event::Tick => Event::Tick,
            Event::ReloadScript => Event::ReloadScript,
            Event::SendMessage(message) => Event::SendMessage(message.clone()),
            Event::Exit => Event::Exit,
        }
    }
}

/// What a subscriber gets when it waits for the next event.
///
/// A subscriber that has fallen behind by more than the capacity of the bus has
/// lost its oldest unread events. It is told how many, once, and then goes on
/// with the oldest event that is left: a lag ends no task.
#[derive(Debug, PartialEq, Eq)]
pub enum Delivery {
    /// The next event.
    Event(Event),
    /// So many events were lost to this subscriber.
    Lagged(u64),
    /// Every sender is gone: no event will come any more.
    Closed,
}

/// What a subscriber finds when it looks for the next event without waiting.
#[derive(Debug, PartialEq, Eq)]
pub enum Polled {
    /// The next event.
    Event(Event),
    /// No event is waiting.
    Empty,
    /// So many events were lost to this subscriber.
    Lagged(u64),
    /// Every sender is gone: no event will come any more.
    Closed,
}

/// The events that ask the publisher to send the given messages, one for each
/// message and in the same order.
pub open spec fn send_events(messages: Seq<MessageView>) -> Seq<EventView> {
    Seq::new(messages.len(), |i: int| EventView::SendMessage(messages[i]))
}

/// Wraps each message into the event that asks for it to be sent.
pub fn into_send_events(messages: Vec<Message>) -> (events: Vec<Event>)
    ensures
        events.deep_view() == send_events(messages.deep_view()),
{
    let mut events: Vec<Event> = Vec::new();
    for message in it: messages
        invariant
            it.seq() == messages@,
            events.len() == it.index(),
            forall|i: int|
                0 <= i < events.len() ==> (#[trigger] events[i])@ == EventView::SendMessage(
                    messages[i]@,
                ),
    {
        events.push(Event::SendMessage(message));
    }
    events
}

} // verus!
