//! The transport publisher's task: sending due messages to the broker, and what
//! to do when the broker is gone.
//!
//! The publisher waits for events. For each `SendMessage` it publishes once. When
//! a publish fails it tries to reconnect, up to a fixed number of times with a
//! fixed delay between tries. If a try succeeds it goes back to waiting; the
//! message that failed is lost, not sent again. If none does, it puts `Exit` on
//! the bus and ends.

use crate::event::Delivery;
use crate::event::Event;
use crate::message::Message;
use vstd::prelude::*;

verus! {

/// How often the publisher tries to reconnect before it gives up.
pub const RECONNECT_ATTEMPTS: u32 = 10;

/// Seconds between two tries to reconnect.
pub const RECONNECT_DELAY_SECS: u64 = 1;

/// How the publisher talks to the broker.
#[derive(Clone, Copy, Debug, PartialEq, Eq)]
pub struct PublisherConfig {
    /// The quality-of-service level of every publish.
    pub qos: i32,
    /// How often to try to reconnect after a failed publish.
    pub max_attempts: u32,
    /// Seconds to wait between two tries.
    pub delay_secs: u64,
}

impl PublisherConfig {
    /// The usual retry budget with the given quality-of-service level.
    pub fn with_qos(qos: i32) -> (config: PublisherConfig)
        ensures
            config == (PublisherConfig {
                qos,
                max_attempts: RECONNECT_ATTEMPTS,
                delay_secs: RECONNECT_DELAY_SECS,
            }),
    {
        PublisherConfig { qos, max_attempts: RECONNECT_ATTEMPTS, delay_secs: RECONNECT_DELAY_SECS }
    }
}

/// Where the publisher stands.
#[derive(Clone, Copy, Debug, PartialEq, Eq)]
pub enum PublisherState {
    /// Waiting for the next event.
    Listening,
    /// A publish is under way.
    Publishing,
    /// A publish has failed and so many tries to reconnect have failed since;
    /// another try is under way.
    Reconnecting { failed: u32 },
    /// The task has ended.
    Stopped,
}

/// What the publisher is told.
#[derive(Debug, PartialEq, Eq)]
pub enum PublisherInput {
    /// What came from the bus.
    Bus(Delivery),
    /// Whether the publish succeeded.
    Published(bool),
    /// Whether the try to reconnect succeeded.
    Reconnected(bool),
}

/// What the publisher does next.
#[derive(Debug, PartialEq, Eq)]
pub enum PublisherAction {
    /// Wait for the next event.
    Receive,
    /// Publish the message at the given quality-of-service level.
    Publish { message: Message, qos: i32 },
    /// Wait for so many seconds, then try to reconnect.
    Reconnect { delay_secs: u64 },
    /// Put `Exit` on the bus and end the task: the broker is out of reach.
    BroadcastExit,
    /// End the task.
    Stop,
    /// What was told does not belong to the state: go on as before.
    Ignore,
}

/// The state that follows and what to do, for each state and each thing told.
pub open spec fn transition(config: PublisherConfig, state: PublisherState, input: PublisherInput) -> (
    PublisherState,
    PublisherAction,
) {
    match (state, input) {
        (PublisherState::Stopped, _) => (PublisherState::Stopped, PublisherAction::Stop),
        (PublisherState::Listening, PublisherInput::Bus(Delivery::Event(Event::SendMessage(message)))) => (
            PublisherState::Publishing,
            PublisherAction::Publish { message, qos: config.qos },
        ),
        (PublisherState::Listening, PublisherInput::Bus(Delivery::Event(Event::Exit))) => (
            PublisherState::Stopped,
            PublisherAction::Stop,
        ),
        (PublisherState::Listening, PublisherInput::Bus(Delivery::Closed)) => (
            PublisherState::Stopped,
            PublisherAction::Stop,
        ),
        (PublisherState::Listening, PublisherInput::Bus(_)) => (
            PublisherState::Listening,
            PublisherAction::Receive,
        ),
        (PublisherState::Publishing, PublisherInput::Published(true)) => (
            PublisherState::Listening,
            PublisherAction::Receive,
        ),
        (PublisherState::Publishing, PublisherInput::Published(false)) => if config.max_attempts
            == 0 {
            (PublisherState::Stopped, PublisherAction::BroadcastExit)
        } else {
            (
                PublisherState::Reconnecting { failed: 0 },
                PublisherAction::Reconnect { delay_secs: 0 },
            )
        },
        (PublisherState::Reconnecting { failed }, PublisherInput::Reconnected(true)) => (
            PublisherState::Listening,
            PublisherAction::Receive,
        ),
        (PublisherState::Reconnecting { failed }, PublisherInput::Reconnected(false)) => if failed
            + 1 >= config.max_attempts {
            (PublisherState::Stopped, PublisherAction::BroadcastExit)
        } else {
            (
                PublisherState::Reconnecting { failed: (failed + 1) as u32 },
                PublisherAction::Reconnect { delay_secs: config.delay_secs },
            )
        },
        (state, _) => (state, PublisherAction::Ignore),
    }
}

/// Takes the publisher one step on.
pub fn publisher_step(config: &PublisherConfig, state: PublisherState, input: PublisherInput) -> (r:
    (PublisherState, PublisherAction))
    ensures
        r == transition(*config, state, input),
{
    match state {
        PublisherState::Stopped => (PublisherState::Stopped, PublisherAction::Stop),
        PublisherState::Listening => match input {
            PublisherInput::Bus(Delivery::Event(Event::SendMessage(message))) => (
                PublisherState::Publishing,
                PublisherAction::Publish { message, qos: config.qos },
            ),
            PublisherInput::Bus(Delivery::Event(Event::Exit)) => (
                PublisherState::Stopped,
                PublisherAction::Stop,
            ),
            PublisherInput::Bus(Delivery::Closed) => (PublisherState::Stopped, PublisherAction::Stop),
            PublisherInput::Bus(_) => (PublisherState::Listening, PublisherAction::Receive),
            _ => (PublisherState::Listening, PublisherAction::Ignore),
        },
        PublisherState::Publishing => match input {
            PublisherInput::Published(true) => (PublisherState::Listening, PublisherAction::Receive),
            PublisherInput::Published(false) => {
                if config.max_attempts == 0 {
                    (PublisherState::Stopped, PublisherAction::BroadcastExit)
                } else {
                    (
                        PublisherState::Reconnecting { failed: 0 },
                        PublisherAction::Reconnect { delay_secs: 0 },
                    )
                }
            },
            _ => (PublisherState::Publishing, PublisherAction::Ignore),
        },
        PublisherState::Reconnecting { failed } => match input {
            PublisherInput::Reconnected(true) => (
                PublisherState::Listening,
                PublisherAction::Receive,
            ),
            PublisherInput::Reconnected(false) => {
                if config.max_attempts == 0 || failed >= config.max_attempts - 1 {
                    (PublisherState::Stopped, PublisherAction::BroadcastExit)
                } else {
                    (
                        PublisherState::Reconnecting { failed: failed + 1 },
                        PublisherAction::Reconnect { delay_secs: config.delay_secs },
                    )
                }
            },
            _ => (PublisherState::Reconnecting { failed }, PublisherAction::Ignore),
        },
    }
}

/// Where the publisher stands after a publish has failed and `count` tries to
/// reconnect have failed after it.
pub open spec fn after_failures(config: PublisherConfig, count: nat) -> PublisherState
    decreases count,
{
    if count == 0 {
        transition(config, PublisherState::Publishing, PublisherInput::Published(false)).0
    } else {
        transition(
            config,
            after_failures(config, (count - 1) as nat),
            PublisherInput::Reconnected(false),
        ).0
    }
}

/// The tries to reconnect are bounded: after a failed publish the publisher makes
/// one try after another while fewer than `max_attempts` have failed, and has
/// stopped once that many have.
pub proof fn lemma_reconnects_are_bounded(config: PublisherConfig, count: nat)
    ensures
        after_failures(config, count) == if count < config.max_attempts {
            PublisherState::Reconnecting { failed: count as u32 }
        } else {
            PublisherState::Stopped
        },
    decreases count,
{
    if count > 0 {
        lemma_reconnects_are_bounded(config, (count - 1) as nat);
    }
}

/// The publisher gives up by putting `Exit` on the bus, and only when the last
/// try of its budget has failed.
pub proof fn lemma_exit_when_budget_is_spent(config: PublisherConfig, failed: u32)
    ensures
        transition(
            config,
            PublisherState::Reconnecting { failed },
            PublisherInput::Reconnected(false),
        ).1 == if failed + 1 >= config.max_attempts {
            PublisherAction::BroadcastExit
        } else {
            PublisherAction::Reconnect { delay_secs: config.delay_secs }
        },
        transition(
            config,
            PublisherState::Reconnecting { failed },
            PublisherInput::Reconnected(true),
        ) == (PublisherState::Listening, PublisherAction::Receive),
{
}

/// A publisher that has stopped stays stopped.
pub proof fn lemma_stopped_stays(config: PublisherConfig, input: PublisherInput)
    ensures
        transition(config, PublisherState::Stopped, input) == (
            PublisherState::Stopped,
            PublisherAction::Stop,
        ),
{
}

} // verus!
