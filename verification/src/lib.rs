//! Scheduling core of an MQTT message actor.
//!
//! A script is a set of delimiter-separated rows `timestamp | topic | payload`.
//! The library turns such rows into a timeline of messages ordered by the instant
//! at which each is due, answers which messages fall due as time advances, and
//! holds the decisions that the tasks around the timeline take on each event.

pub mod clock;
pub mod engine;
pub mod event;
pub mod instant;
pub mod loader;
pub mod message;
pub mod orchestrator;
pub mod publisher;
pub mod script;
pub mod tick;
pub mod timeline;
pub mod timestamp;
pub mod watch;
