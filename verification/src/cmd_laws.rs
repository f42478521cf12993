//! What handling a command does, in terms of what its steps are given and what they return.
//!
//! A step is spoken of by `call_ensures`: a call of the function with these arguments may return
//! this value.

use crate::entity::{
    is_step_after_evts, CmdStep, Entity, EntityView, Metadata, PersistRequest, Persisting, Saving,
};
use crate::entity_ref::{CmdMsg, CmdResult};
use crate::event_sourced::EventSourced;
use crate::history::{handles, is_newest, is_run, newest, newest_snapshot_is_last, numbered};
use crate::lives::Life;
use crate::spawn::Snapshot;
use tokio::sync::oneshot;
use vstd::prelude::*;

verus! {

/// A command goes to the command handler of the entity in its current state. If it is rejected, the
/// error is the reply. If it produces no events, these are the reply. In both cases the entity is
/// the one that was given the command. If it produces events they are persisted before anything
/// else happens, however many they are: there is no reply yet, and the entity is not changed yet.
pub proof fn events_are_persisted_before_reply<E: EventSourced, M, B>(
    entity: Entity<E>,
    cmd: E::Cmd,
    step: CmdStep<E, M, B>,
)
    requires
        call_ensures(Entity::<E>::handle_cmd::<M, B>, (entity, cmd), step),
    ensures
        match step {
            CmdStep::Persist(persisting) => {
                &&& entity@.event_sourced.may_handle_cmd(cmd, Ok(persisting.evts()))
                &&& persisting.evts()@.len() > 0
                &&& persisting.entity() == entity
            },
            CmdStep::Reply(unchanged, result) => {
                &&& entity@.event_sourced.may_handle_cmd(cmd, result)
                &&& result matches Ok(evts) ==> evts@.len() == 0
                &&& unchanged == entity
            },
            _ => false,
        },
{
}

/// A command that is taken out of the channel is handled as such, and its result has to go to the
/// sending end that came with it.
pub proof fn served_command_is_handled<E: EventSourced, M, B>(
    entity: Entity<E>,
    msg: CmdMsg<E>,
    served: (oneshot::Sender<CmdResult<E>>, CmdStep<E, M, B>),
)
    requires
        call_ensures(Entity::<E>::serve::<M, B>, (entity, msg), served),
    ensures
        served.0 == msg.1,
        match served.1 {
            CmdStep::Persist(persisting) => {
                &&& entity@.event_sourced.may_handle_cmd(msg.0, Ok(persisting.evts()))
                &&& persisting.evts()@.len() > 0
                &&& persisting.entity() == entity
            },
            CmdStep::Reply(unchanged, result) => {
                &&& entity@.event_sourced.may_handle_cmd(msg.0, result)
                &&& result matches Ok(evts) ==> evts@.len() == 0
                &&& unchanged == entity
            },
            _ => false,
        },
{
}

/// The event log is asked to persist all the events of the command, in order, for the ID of the
/// entity and after its last sequence number.
pub proof fn all_events_are_persisted<E: EventSourced>(
    persisting: Persisting<E>,
    request: PersistRequest<'_, E>,
)
    requires
        call_ensures(Persisting::<E>::request, (&persisting,), request),
    ensures
        request.id == persisting.entity()@.id,
        request.evts@ == persisting.evts()@,
        request.last_seq_no == persisting.entity()@.last_seq_no,
{
}

/// If the event log has persisted the events, the event handler is invoked for all of them, in
/// order and under the sequence numbers that follow the last one. The entity that comes back, with
/// the reply or with the snapshot to save, is in the state after the last event; its last sequence
/// number has grown by the number of the events; and its history by the events with their numbers.
///
/// If the event handler returned no snapshot state, the events are the reply. Else the state that
/// it returned last has to be saved first, at the sequence number of the event for which it was
/// returned, with the metadata that came from the event log.
///
/// If the events could not be persisted the entity terminates.
pub proof fn persisted_events_are_handled<E: EventSourced, M, B>(
    persisting: Persisting<E>,
    persisted: Result<Metadata<M>, B>,
    step: CmdStep<E, M, B>,
)
    requires
        persisted is Ok ==> persisting.entity()@.last_seq_no + persisting.evts()@.len()
            <= u64::MAX,
        call_ensures(Persisting::<E>::persisted::<M, B>, (persisting, persisted), step),
    ensures
        persisted matches Err(error) ==> step == CmdStep::<E, M, B>::Terminate(error),
        persisted matches Ok(metadata) ==> {
            let before = persisting.entity()@;
            let evts = persisting.evts();
            let n = evts@.len() as int;
            &&& step is Reply || step is SaveSnapshot
            &&& ({
                let after = if step is Reply {
                    step->Reply_0@
                } else {
                    step->SaveSnapshot_0.entity()@
                };
                &&& after.id == before.id
                &&& after.last_seq_no == before.last_seq_no + n
                &&& after.start == before.start
                &&& after.history.len() == before.history.len() + n
                &&& forall|i: int|
                    0 <= i < before.history.len() ==> #[trigger] after.history[i]
                        == before.history[i]
                &&& forall|i: int|
                    0 <= i < n ==> (#[trigger] after.history[before.history.len() + i]).0
                        == before.last_seq_no + 1 + i && after.history[before.history.len() + i].1
                        == evts@[i]
                &&& exists|states: Seq<E>, snapshots: Seq<Option<E::State>>|
                    #![trigger states.len(), snapshots.len()]
                    {
                        &&& states.len() == n + 1
                        &&& snapshots.len() == n
                        &&& states[0] == before.event_sourced
                        &&& states[n] == after.event_sourced
                        &&& forall|i: int|
                            0 <= i < n ==> (#[trigger] states[i]).may_handle_evt(
                                (before.last_seq_no + 1 + i) as u64,
                                evts@[i],
                                states[i + 1],
                                snapshots[i],
                            )
                        &&& match step {
                            CmdStep::Reply(_, result) => {
                                &&& result == Ok::<Vec<E::Evt>, E::Error>(evts)
                                &&& forall|i: int|
                                    0 <= i < n ==> #[trigger] snapshots[i] is None
                            },
                            CmdStep::SaveSnapshot(saving, request) => {
                                &&& saving.evts() == evts
                                &&& request.id == before.id
                                &&& request.metadata == metadata
                                &&& before.last_seq_no < request.seq_no <= before.last_seq_no + n
                                &&& snapshots[request.seq_no - before.last_seq_no - 1] == Some(
                                    request.state,
                                )
                                &&& forall|i: int|
                                    request.seq_no - before.last_seq_no <= i < n
                                        ==> #[trigger] snapshots[i] is None
                            },
                            _ => false,
                        }
                    }
            })
        },
{
    if persisted is Ok {
        let (states, snapshots) = lemma_persisted(persisting, persisted->Ok_0, step);
        assert(states.len() == snapshots.len() + 1);
    }
}

/// The states of an entity on handling its persisted events, and what the event handler returned.
pub(crate) proof fn lemma_persisted<E: EventSourced, M, B>(
    persisting: Persisting<E>,
    metadata: Metadata<M>,
    step: CmdStep<E, M, B>,
) -> (run: (Seq<E>, Seq<Option<E::State>>))
    requires
        persisting.entity()@.last_seq_no + persisting.evts()@.len() <= u64::MAX,
        persisting.may_step_to(Ok::<Metadata<M>, B>(metadata), step),
    ensures
        ({
            let (states, snapshots) = run;
            let before = persisting.entity()@;
            let evts = persisting.evts();
            let n = evts@.len() as int;
            &&& step is Reply || step is SaveSnapshot
            &&& ({
                let after = if step is Reply {
                    step->Reply_0@
                } else {
                    step->SaveSnapshot_0.entity()@
                };
                &&& after.id == before.id
                &&& after.last_seq_no == before.last_seq_no + n
                &&& after.start == before.start
                &&& after.history.len() == before.history.len() + n
                &&& forall|i: int|
                    0 <= i < before.history.len() ==> #[trigger] after.history[i]
                        == before.history[i]
                &&& forall|i: int|
                    0 <= i < n ==> (#[trigger] after.history[before.history.len() + i]).0
                        == before.last_seq_no + 1 + i && after.history[before.history.len() + i].1
                        == evts@[i]
                &&& before.applies(evts@, after, snapshots)
                &&& states.len() == n + 1
                &&& snapshots.len() == n
                &&& states[0] == before.event_sourced
                &&& states[n] == after.event_sourced
            })
            &&& forall|i: int|
                0 <= i < n ==> (#[trigger] states[i]).may_handle_evt(
                    (before.last_seq_no + 1 + i) as u64,
                    evts@[i],
                    states[i + 1],
                    snapshots[i],
                )
            &&& match step {
                CmdStep::Reply(_, result) => {
                    &&& result == Ok::<Vec<E::Evt>, E::Error>(evts)
                    &&& newest(before.last_seq_no, snapshots) is None
                    &&& forall|i: int| 0 <= i < n ==> #[trigger] snapshots[i] is None
                },
                CmdStep::SaveSnapshot(saving, request) => {
                    &&& saving.evts() == evts
                    &&& request.id == before.id
                    &&& request.metadata == metadata
                    &&& newest(before.last_seq_no, snapshots) == Some(
                        (request.seq_no, request.state),
                    )
                    &&& before.last_seq_no < request.seq_no <= before.last_seq_no + n
                    &&& snapshots[request.seq_no - before.last_seq_no - 1] == Some(request.state)
                    &&& forall|i: int|
                        request.seq_no - before.last_seq_no <= i < n
                            ==> #[trigger] snapshots[i] is None
                },
                _ => false,
            }
        }),
{
    let before = persisting.entity()@;
    let evts = persisting.evts();
    let after = if step is Reply {
        step->Reply_0@
    } else {
        step->SaveSnapshot_0.entity()@
    };
    let (next, snapshots) = choose|
        next: EntityView<E>,
        snapshots: Seq<Option<E::State>>,
    | #[trigger]
        before.applies(evts@, next, snapshots) && next.is_replay_of_history()
            && is_step_after_evts(
            next,
            evts,
            newest(before.last_seq_no, snapshots),
            metadata,
            step,
        );
    assert(next == after);
    let new = numbered(before.last_seq_no, evts@);
    assert(handles(before.event_sourced, new, after.event_sourced, snapshots));
    let states = choose|states: Seq<E>| #[trigger]
        is_run(states, new, snapshots) && states.first() == before.event_sourced && states.last()
            == after.event_sourced;
    assert forall|i: int| 0 <= i < evts@.len() implies (#[trigger] states[i]).may_handle_evt(
        (before.last_seq_no + 1 + i) as u64,
        evts@[i],
        states[i + 1],
        snapshots[i],
    ) by {
        assert(new[i].0 == (before.last_seq_no + 1 + i) as u64);
    }
    newest_snapshot_is_last(before.last_seq_no, snapshots);
    if newest(before.last_seq_no, snapshots) is Some {
        let snapshot = newest(before.last_seq_no, snapshots)->0;
        let k = choose|k: int| is_newest(before.last_seq_no, snapshots, k, snapshot);
        assert(k == snapshot.0 - before.last_seq_no - 1);
    }
    (states, snapshots)
}

/// Once its snapshot is saved, the events of a command are the reply, with the entity that has
/// handled them. If it could not be saved the entity terminates.
pub proof fn saved_command_is_replied_to<E: EventSourced, M, B>(
    saving: Saving<E>,
    saved: Result<(), B>,
    step: CmdStep<E, M, B>,
)
    requires
        call_ensures(Saving::<E>::saved::<M, B>, (saving, saved), step),
    ensures
        match saved {
            Err(error) => step == CmdStep::<E, M, B>::Terminate(error),
            Ok(_) => step == CmdStep::<E, M, B>::Reply(saving.entity(), Ok(saving.evts())),
        },
{
}

/// The events of the next command are persisted after those of the command before: under the same
/// ID, and from the sequence number on that the last of them has. No number is left out or used
/// twice, whether or not a snapshot was saved in between.
pub proof fn persist_requests_follow_each_other<E: EventSourced, M, B>(
    first: Persisting<E>,
    first_request: PersistRequest<'_, E>,
    metadata: Metadata<M>,
    step: CmdStep<E, M, B>,
    entity: Entity<E>,
    result: CmdResult<E>,
    cmd: E::Cmd,
    second: Persisting<E>,
    second_request: PersistRequest<'_, E>,
)
    requires
        call_ensures(Persisting::<E>::request, (&first,), first_request),
        first_request.last_seq_no + first_request.evts@.len() <= u64::MAX,
        call_ensures(
            Persisting::<E>::persisted::<M, B>,
            (first, Ok::<Metadata<M>, B>(metadata)),
            step,
        ),
        step == CmdStep::<E, M, B>::Reply(entity, result) || (
        step matches CmdStep::SaveSnapshot(saving, _) && call_ensures(
            Saving::<E>::saved::<M, B>,
            (saving, Ok::<(), B>(())),
            CmdStep::<E, M, B>::Reply(entity, result),
        )),
        call_ensures(
            Entity::<E>::handle_cmd::<M, B>,
            (entity, cmd),
            CmdStep::<E, M, B>::Persist(second),
        ),
        call_ensures(Persisting::<E>::request, (&second,), second_request),
    ensures
        result matches Ok(evts) && evts@ == first_request.evts@,
        second_request.id == first_request.id,
        second_request.last_seq_no == first_request.last_seq_no + first_request.evts@.len(),
{
    all_events_are_persisted(first, first_request);
    persisted_events_are_handled::<E, M, B>(first, Ok(metadata), step);
    if let CmdStep::SaveSnapshot(saving, _) = step {
        saved_command_is_replied_to::<E, M, B>(
            saving,
            Ok(()),
            CmdStep::<E, M, B>::Reply(entity, result),
        );
    }
    events_are_persisted_before_reply::<E, M, B>(
        entity,
        cmd,
        CmdStep::<E, M, B>::Persist(second),
    );
    all_events_are_persisted(second, second_request);
}

/// A command whose events are persisted is a step in the life of its entity: the event log has
/// these events more; the snapshot that had to be saved, if any, is the latest one, unless it could not
/// be saved; and the entity that comes back is alive, unless it has terminated for that reason.
pub proof fn command_fits_life<E: EventSourced, M, B>(
    life: Life<E, M>,
    persisting: Persisting<E>,
    request: PersistRequest<'_, E>,
    metadata: Metadata<M>,
    step: CmdStep<E, M, B>,
    saved: Result<(), B>,
    next: Life<E, M>,
)
    requires
        life.entity == Some(persisting.entity()@),
        call_ensures(Persisting::<E>::request, (&persisting,), request),
        request.last_seq_no + request.evts@.len() <= u64::MAX,
        call_ensures(
            Persisting::<E>::persisted::<M, B>,
            (persisting, Ok::<Metadata<M>, B>(metadata)),
            step,
        ),
        next.evts == life.evts + request.evts@,
        match step {
            CmdStep::Reply(entity, _) => next.snapshot == life.snapshot && next.entity == Some(
                entity@,
            ),
            CmdStep::SaveSnapshot(saving, to_save) => match saved {
                Ok(_) => {
                    &&& next.snapshot == Some(
                        (Snapshot {
                            seq_no: to_save.seq_no,
                            state: to_save.state,
                            metadata: to_save.metadata,
                        }),
                    )
                    &&& next.entity == Some(saving.entity()@)
                },
                Err(_) => next.snapshot == life.snapshot && next.entity is None,
            },
            _ => true,
        },
    ensures
        exists|after: EntityView<E>, snapshots: Seq<Option<E::State>>| #[trigger]
            life.handles_cmd(request.evts@, after, snapshots, next),
{
    all_events_are_persisted(persisting, request);
    let (states, snapshots) = lemma_persisted(persisting, metadata, step);
    let after = if step is Reply {
        step->Reply_0@
    } else {
        step->SaveSnapshot_0.entity()@
    };
    assert(life.handles_cmd(request.evts@, after, snapshots, next));
}

/// The steps of a command may be taken whenever there are sequence numbers left for its events.
pub proof fn command_steps_may_be_taken<E: EventSourced, M, B>(
    entity: Entity<E>,
    cmd: E::Cmd,
    msg: CmdMsg<E>,
    persisting: Persisting<E>,
    persisted: Result<Metadata<M>, B>,
    saving: Saving<E>,
    saved: Result<(), B>,
)
    requires
        persisted is Ok ==> persisting.entity()@.last_seq_no + persisting.evts()@.len()
            <= u64::MAX,
    ensures
        call_requires(Entity::<E>::handle_cmd::<M, B>, (entity, cmd)),
        call_requires(Entity::<E>::serve::<M, B>, (entity, msg)),
        call_requires(Persisting::<E>::request, (&persisting,)),
        call_requires(Persisting::<E>::persisted::<M, B>, (persisting, persisted)),
        call_requires(Saving::<E>::saved::<M, B>, (saving, saved)),
{
}

} // verus!
