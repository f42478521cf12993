//! Event sourced entities.
//!
//! An entity is told apart by its ID and changes by events only: a command is checked by the
//! command handler, the events that it produces are persisted to an event log along with an
//! increasing sequence number, and then the event handler applies them. To bring an entity back,
//! its events are replayed, from the latest snapshot on if there is one.
//!
//! The event log, the snapshot store and the channel through which commands arrive are reached by
//! asynchronous I/O. This crate decides what to ask of them and what follows from each answer; who
//! uses it performs the I/O.

pub mod binarizer;
pub mod cmd_laws;
pub mod entity;
pub mod entity_ref;
pub mod entity_ref_laws;
pub mod event_sourced;
pub mod handler;
pub mod handler_laws;
pub mod history;
pub mod laws;
pub mod lives;
pub mod outside;
pub mod spawn;
pub mod spawn_laws;

pub use binarizer::Binarizer;
pub use entity::{CmdStep, Entity, Metadata, PersistRequest, Persisting, SaveRequest, Saving};
pub use entity_ref::{
    result_received, CmdMsg, CmdResult, EntityRef, EntityRefError, SendRequest, Sending,
};
pub use event_sourced::EventSourced;
pub use handler::{Handler, LoopAction, LoopEvent};
pub use spawn::{
    EventSourcedExt, EvtsRequest, Loading, Replaying, Requested, Restored, Snapshot, SpawnError,
    SpawnStep,
};
