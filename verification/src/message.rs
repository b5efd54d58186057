//! Messages: what is sent, where to, and when.

use crate::instant::Instant;
use vstd::prelude::*;

verus! {

/// A message as contracts see it.
pub struct MessageView {
    /// When the message is due, in nanoseconds since the epoch.
    pub at: int,
    /// The topic it is published to.
    pub topic: Seq<char>,
    /// What is published.
    pub payload: Seq<char>,
}

/// A message with the instant at which it is due.
#[derive(Debug, PartialEq, Eq)]
pub struct Message {
    pub timestamp: Instant,
    pub topic: String,
    pub payload: String,
}

impl View for Message {
    type V = MessageView;

    open spec fn view(&self) -> MessageView {
        MessageView { at: self.timestamp@, topic: self.topic@, payload: self.payload@ }
    }
}

impl DeepView for Message {
    type V = MessageView;

    open spec fn deep_view(&self) -> MessageView {
        self@
    }
}

impl Clone for Message {
    fn clone(&self) -> (r: Self)
        ensures
            r == *self,
    {
        Message {
            timestamp: self.timestamp,
            topic: self.topic.clone(),
            payload: self.payload.clone(),
        }
    }
}

} // verus!
