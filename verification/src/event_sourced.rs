//! The behaviour that a user gives to an entity.

use std::fmt::{Debug, Display};
use vstd::prelude::*;

verus! {

/// Command and event handling for an event sourced entity.
///
/// An implementation is free in what its handlers do, and need not be a function of its arguments
/// (a command handler may read the clock). The three specification functions say which outcomes a
/// handler may have; the contract of each handler is that its outcome is one of those. An
/// implementation that does not define them leaves every outcome open. One that does, with exactly
/// what its handlers do, meets the contracts too, so nothing is demanded here that an
/// implementation could fail to deliver.
pub trait EventSourced: Send + Sized + 'static {
    /// Command type.
    type Cmd: Debug + Send + Sync + 'static;

    /// Event type.
    type Evt: Debug + Send + Sync + 'static;

    /// Snapshot state type.
    type State: Send + Sync;

    /// Error type for rejected (a.k.a. invalid) commands.
    type Error: Debug + Display + Send + Sync + 'static;

    /// Whether the command handler may answer `cmd` with `result`.
    open spec fn may_handle_cmd(
        &self,
        cmd: Self::Cmd,
        result: Result<Vec<Self::Evt>, Self::Error>,
    ) -> bool {
        true
    }

    /// Whether the event handler may turn this entity into `next` and return `snapshot` when it
    /// is given the event `evt` with the sequence number `seq_no`.
    open spec fn may_handle_evt(
        &self,
        seq_no: u64,
        evt: Self::Evt,
        next: Self,
        snapshot: Option<Self::State>,
    ) -> bool {
        true
    }

    /// Whether the snapshot state handler may turn this entity into `next` when it is given
    /// `state`.
    open spec fn may_set_state(&self, state: Self::State, next: Self) -> bool {
        true
    }

    /// Command handler, returning the to be persisted events or an error.
    fn handle_cmd(&self, cmd: Self::Cmd) -> (result: Result<Vec<Self::Evt>, Self::Error>)
        ensures
            self.may_handle_cmd(cmd, result),
    ;

    /// Event handler, returning whether to take a snapshot or not.
    fn handle_evt(&mut self, seq_no: u64, evt: &Self::Evt) -> (snapshot: Option<Self::State>)
        ensures
            old(self).may_handle_evt(seq_no, *evt, *final(self), snapshot),
    ;

    /// Snapshot state handler.
    fn set_state(&mut self, state: Self::State)
        ensures
            old(self).may_set_state(state, *final(self)),
    ;
}

} // verus!
