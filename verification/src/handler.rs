//! The handler loop of a spawned entity: one command after the other.
//!
//! The loop waits for the next command, has the entity handle it and replies, until there are no
//! more handles or a technical failure has ended the entity. Waiting, persisting, saving and
//! replying reach other tasks or the stores. So the loop goes in steps: [Handler::step] takes what
//! has happened and returns, with the next state, what has to be done.

use crate::entity::{CmdStep, Entity, Metadata, Persisting, SaveRequest, Saving};
use crate::entity_ref::{CmdMsg, CmdResult};
use crate::event_sourced::EventSourced;
use tokio::sync::oneshot;
use vstd::prelude::*;

verus! {

/// The state of the handler loop.
pub enum Handler<E: EventSourced> {
    /// The entity waits for the next command.
    Receiving(Entity<E>),
    /// The events of the command that came with the sending end are being persisted.
    Persisting(Persisting<E>, oneshot::Sender<CmdResult<E>>),
    /// The snapshot for the command that came with the sending end is being saved.
    Saving(Saving<E>, oneshot::Sender<CmdResult<E>>),
    /// The result of the last command is being delivered.
    Replying(Entity<E>),
    /// The loop has ended, and with it the entity.
    Ended,
}

/// What has happened to the handler loop.
pub enum LoopEvent<E: EventSourced, M, B> {
    /// A command was taken out of the channel, or there are no more handles for the entity.
    Received(Option<CmdMsg<E>>),
    /// The event log has answered.
    Persisted(Result<Metadata<M>, B>),
    /// The snapshot store has answered.
    Saved(Result<(), B>),
    /// The result was sent; the value says whether it could be delivered.
    Delivered(bool),
}

/// What the handler loop has to do.
pub enum LoopAction<E: EventSourced, M, B> {
    /// Take the next command out of the channel.
    Receive,
    /// Persist the events that [Persisting::request] gives.
    Persist,
    /// Save the snapshot.
    Save(SaveRequest<E, M>),
    /// Send the result into the sending end.
    Reply(oneshot::Sender<CmdResult<E>>, CmdResult<E>),
    /// Do nothing more. If a technical failure has ended the entity it is given here.
    End(Option<B>),
}

/// How the loop goes on with a step of the command that came with `result_in`.
pub open spec fn goes_on<E: EventSourced, M, B>(
    step: CmdStep<E, M, B>,
    result_in: oneshot::Sender<CmdResult<E>>,
    next: Handler<E>,
    action: LoopAction<E, M, B>,
) -> bool {
    match step {
        CmdStep::Persist(persisting) => {
            &&& next == Handler::Persisting(persisting, result_in)
            &&& action is Persist
        },
        CmdStep::SaveSnapshot(saving, request) => {
            &&& next == Handler::Saving(saving, result_in)
            &&& action == LoopAction::<E, M, B>::Save(request)
        },
        CmdStep::Reply(entity, result) => {
            &&& next == Handler::Replying(entity)
            &&& action == LoopAction::<E, M, B>::Reply(result_in, result)
        },
        CmdStep::Terminate(error) => {
            &&& next is Ended
            &&& action == LoopAction::<E, M, B>::End(Some(error))
        },
    }
}

/// The loop may go from the state `handler` to `next` and have to do `action` when `event` happens.
///
/// - A command that is received is handled, and its result goes to the sending end that came with
///   it. Without a further command the loop ends.
/// - A reply leaves the entity as it is and ready for the next command, whether or not it could be
///   delivered.
/// - An ended loop stays ended, whatever happens.
pub open spec fn is_loop_step<E: EventSourced, M, B>(
    handler: Handler<E>,
    event: LoopEvent<E, M, B>,
    next: Handler<E>,
    action: LoopAction<E, M, B>,
) -> bool {
    match handler {
        Handler::Receiving(entity) => match event {
            LoopEvent::Received(Some(msg)) => exists|step: CmdStep<E, M, B>| #[trigger]
                entity.may_step_to(msg.0, step) && goes_on(step, msg.1, next, action),
            LoopEvent::Received(None) => next is Ended && action == LoopAction::<E, M, B>::End(
                None,
            ),
            _ => false,
        },
        Handler::Persisting(persisting, result_in) => match event {
            LoopEvent::Persisted(persisted) => exists|step: CmdStep<E, M, B>| #[trigger]
                persisting.may_step_to(persisted, step) && goes_on(step, result_in, next, action),
            _ => false,
        },
        Handler::Saving(saving, result_in) => match event {
            LoopEvent::Saved(saved) => exists|step: CmdStep<E, M, B>| #[trigger]
                saving.steps_to(saved, step) && goes_on(step, result_in, next, action),
            _ => false,
        },
        Handler::Replying(entity) => event is Delivered && next == Handler::Receiving(entity)
            && action is Receive,
        Handler::Ended => next is Ended && action == LoopAction::<E, M, B>::End(None),
    }
}

impl<E: EventSourced> Handler<E> {
    /// `event` answers what the loop has to do in this state; an ended loop takes any event.
    pub open spec fn expects<M, B>(self, event: LoopEvent<E, M, B>) -> bool {
        match self {
            Handler::Receiving(_) => event is Received,
            Handler::Persisting(_, _) => event is Persisted,
            Handler::Saving(_, _) => event is Saved,
            Handler::Replying(_) => event is Delivered,
            Handler::Ended => true,
        }
    }

    /// Takes what has happened. It must be the answer to what the loop had to do, which at first is
    /// to receive a command, and there must be sequence numbers left for persisted events.
    pub fn step<M, B>(self, event: LoopEvent<E, M, B>) -> (stepped: (
        Handler<E>,
        LoopAction<E, M, B>,
    ))
        requires
            self.expects(event),
            self matches Handler::Persisting(persisting, _) ==> (event matches LoopEvent::Persisted(
                persisted,
            ) ==> (persisted is Ok ==> persisting.fits())),
        ensures
            is_loop_step(self, event, stepped.0, stepped.1),
    {
        match (self, event) {
            (Handler::Receiving(entity), LoopEvent::Received(Some(msg))) => {
                let (result_in, step) = entity.serve(msg);
                Handler::go_on(step, result_in)
            },
            (Handler::Persisting(persisting, result_in), LoopEvent::Persisted(persisted)) => {
                let step = persisting.persisted(persisted);
                Handler::go_on(step, result_in)
            },
            (Handler::Saving(saving, result_in), LoopEvent::Saved(saved)) => {
                let step = saving.saved(saved);
                Handler::go_on(step, result_in)
            },
            (Handler::Replying(entity), LoopEvent::Delivered(_)) => {
                (Handler::Receiving(entity), LoopAction::Receive)
            },
            (_, _) => (Handler::Ended, LoopAction::End(None)),
        }
    }

    /// Goes on with a step of the command that came with `result_in`.
    fn go_on<M, B>(
        step: CmdStep<E, M, B>,
        result_in: oneshot::Sender<CmdResult<E>>,
    ) -> (stepped: (Handler<E>, LoopAction<E, M, B>))
        ensures
            goes_on(step, result_in, stepped.0, stepped.1),
    {
        match step {
            CmdStep::Persist(persisting) => (
                Handler::Persisting(persisting, result_in),
                LoopAction::Persist,
            ),
            CmdStep::SaveSnapshot(saving, request) => (
                Handler::Saving(saving, result_in),
                LoopAction::Save(request),
            ),
            CmdStep::Reply(entity, result) => (
                Handler::Replying(entity),
                LoopAction::Reply(result_in, result),
            ),
            CmdStep::Terminate(error) => (Handler::Ended, LoopAction::End(Some(error))),
        }
    }
}

} // verus!
