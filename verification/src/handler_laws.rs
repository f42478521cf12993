//! What holds of the handler loop of an entity over any number of commands.

use crate::cmd_laws::lemma_persisted;
use crate::entity::{CmdStep, Entity, Metadata, PersistRequest, Persisting, Saving};
use crate::entity_ref::{CmdMsg, CmdResult};
use crate::event_sourced::EventSourced;
use crate::handler::{goes_on, is_loop_step, Handler, LoopAction, LoopEvent};
use tokio::sync::oneshot;
use vstd::prelude::*;

verus! {

/// A run of the handler loop from its start: in the state `states[i]` the loop has to do
/// `actions[i]`, and then `events[i]` happens.
pub open spec fn is_loop_run<E: EventSourced, M, B>(
    states: Seq<Handler<E>>,
    actions: Seq<LoopAction<E, M, B>>,
    events: Seq<LoopEvent<E, M, B>>,
) -> bool {
    &&& states.len() == events.len() + 1
    &&& actions.len() == events.len() + 1
    &&& states[0] is Receiving
    &&& actions[0] is Receive
    &&& forall|i: int|
        0 <= i < events.len() ==> is_loop_step(
            states[i],
            #[trigger] events[i],
            states[i + 1],
            actions[i + 1],
        )
}

/// From the command that is received at `from` on, the loop has neither received another one nor
/// replied, up to the state at `to`.
pub open spec fn is_only_command<E: EventSourced, M, B>(
    actions: Seq<LoopAction<E, M, B>>,
    events: Seq<LoopEvent<E, M, B>>,
    from: int,
    to: int,
) -> bool {
    &&& forall|m: int| from < m < to ==> !((#[trigger] events[m]) is Received)
    &&& forall|m: int| from < m < to ==> !((#[trigger] actions[m]) is Reply)
}

/// A command is received that came with the sending end `result_in`.
pub open spec fn is_received_with<E: EventSourced, M, B>(
    event: LoopEvent<E, M, B>,
    result_in: oneshot::Sender<CmdResult<E>>,
) -> bool {
    event matches LoopEvent::Received(Some(msg)) && msg.1 == result_in
}

/// A loop that has ended stays ended, whatever happens: it receives no further command, and it
/// persists, saves and replies nothing more.
pub proof fn ended_loop_stays_ended<E: EventSourced, M, B>(
    states: Seq<Handler<E>>,
    actions: Seq<LoopAction<E, M, B>>,
    events: Seq<LoopEvent<E, M, B>>,
    i: int,
    j: int,
)
    requires
        is_loop_run(states, actions, events),
        0 <= i <= j <= events.len(),
        states[i] is Ended,
    ensures
        states[j] is Ended,
        i < j ==> actions[j] == LoopAction::<E, M, B>::End(None),
    decreases j - i,
{
    if i < j {
        ended_loop_stays_ended(states, actions, events, i, j - 1);
        assert(is_loop_step(states[j - 1], events[j - 1], states[j], actions[j]));
    }
}

/// A technical failure ends the loop for good: if the events or the snapshot of a command cannot be
/// stored, there is no reply to it, and from then on the loop does nothing more.
pub proof fn technical_failure_ends_loop<E: EventSourced, M, B>(
    states: Seq<Handler<E>>,
    actions: Seq<LoopAction<E, M, B>>,
    events: Seq<LoopEvent<E, M, B>>,
    i: int,
    error: B,
    j: int,
)
    requires
        is_loop_run(states, actions, events),
        0 <= i < j <= events.len(),
        !(states[i] is Ended),
        events[i] == LoopEvent::<E, M, B>::Persisted(Err(error)) || events[i] == LoopEvent::<
            E,
            M,
            B,
        >::Saved(Err(error)),
    ensures
        states[j] is Ended,
        actions[j] == LoopAction::<E, M, B>::End(
            if j == i + 1 {
                Some(error)
            } else {
                None
            },
        ),
{
    assert(is_loop_step(states[i], events[i], states[i + 1], actions[i + 1]));
    ended_loop_stays_ended(states, actions, events, i + 1, j);
}

/// Whether replies can be delivered makes no difference: the same entities handle the same commands
/// with the same replies if other replies, or none, reach their callers.
pub proof fn delivery_makes_no_difference<E: EventSourced, M, B>(
    states: Seq<Handler<E>>,
    actions: Seq<LoopAction<E, M, B>>,
    events: Seq<LoopEvent<E, M, B>>,
    others: Seq<LoopEvent<E, M, B>>,
)
    requires
        is_loop_run(states, actions, events),
        others.len() == events.len(),
        forall|i: int|
            0 <= i < events.len() ==> (#[trigger] others[i]) == events[i] || (others[i] is Delivered
                && events[i] is Delivered),
    ensures
        is_loop_run(states, actions, others),
{
    assert forall|i: int| 0 <= i < others.len() implies is_loop_step(
        states[i],
        #[trigger] others[i],
        states[i + 1],
        actions[i + 1],
    ) by {
        assert(is_loop_step(states[i], events[i], states[i + 1], actions[i + 1]));
    }
}

/// While a command is being handled its sending end is that of the last command that was received,
/// to which there was no reply yet.
proof fn lemma_pending_is_last_received<E: EventSourced, M, B>(
    states: Seq<Handler<E>>,
    actions: Seq<LoopAction<E, M, B>>,
    events: Seq<LoopEvent<E, M, B>>,
    i: int,
    result_in: oneshot::Sender<CmdResult<E>>,
) -> (from: int)
    requires
        is_loop_run(states, actions, events),
        0 <= i <= events.len(),
        match states[i] {
            Handler::Persisting(_, pending) => pending == result_in,
            Handler::Saving(_, pending) => pending == result_in,
            _ => false,
        },
    ensures
        0 <= from < i,
        is_received_with(events[from], result_in),
        is_only_command(actions, events, from, i),
        !(actions[i] is Reply),
    decreases i,
{
    let j = i - 1;
    assert(is_loop_step(states[j], events[j], states[i], actions[i]));
    if states[j] is Receiving {
        j
    } else {
        lemma_pending_is_last_received(states, actions, events, j, result_in)
    }
}

/// A reply goes to the caller of the command for which it is: the last one that was received.
/// Between the two nothing else was received and nothing else replied, so that commands are handled
/// one at a time, in the order in which they are received, and none is replied to twice.
pub proof fn reply_goes_to_its_command<E: EventSourced, M, B>(
    states: Seq<Handler<E>>,
    actions: Seq<LoopAction<E, M, B>>,
    events: Seq<LoopEvent<E, M, B>>,
    i: int,
    result_in: oneshot::Sender<CmdResult<E>>,
    result: CmdResult<E>,
)
    requires
        is_loop_run(states, actions, events),
        0 <= i <= events.len(),
        actions[i] == LoopAction::<E, M, B>::Reply(result_in, result),
    ensures
        exists|from: int|
            0 <= from < i && is_received_with(#[trigger] events[from], result_in)
                && is_only_command(actions, events, from, i),
{
    let j = i - 1;
    assert(is_loop_step(states[j], events[j], states[i], actions[i]));
    if states[j] is Receiving {
        assert(is_received_with(events[j], result_in));
    } else {
        let from = lemma_pending_is_last_received(states, actions, events, j, result_in);
        assert(is_received_with(events[from], result_in));
    }
}

/// The loop receives the next command only after it has replied to the one before.
pub proof fn command_is_replied_to_before_next<E: EventSourced, M, B>(
    states: Seq<Handler<E>>,
    actions: Seq<LoopAction<E, M, B>>,
    events: Seq<LoopEvent<E, M, B>>,
    i: int,
    result_in: oneshot::Sender<CmdResult<E>>,
    j: int,
)
    requires
        is_loop_run(states, actions, events),
        0 <= i < j < events.len(),
        is_received_with(events[i], result_in),
        states[j] is Receiving,
        forall|m: int| i < m < j ==> !((#[trigger] events[m]) is Received),
    ensures
        actions[j - 1] matches LoopAction::Reply(replied, _) && replied == result_in,
{
    assert(is_loop_step(states[j - 1], events[j - 1], states[j], actions[j]));
    assert(states[j - 1] is Replying);
    let k = j - 2;
    assert(is_loop_step(states[k], events[k], states[j - 1], actions[j - 1]));
    let replied = actions[j - 1]->Reply_0;
    reply_goes_to_its_command(states, actions, events, j - 1, replied, actions[j - 1]->Reply_1);
    let from = choose|from: int|
        0 <= from < j - 1 && is_received_with(#[trigger] events[from], replied) && is_only_command(
            actions,
            events,
            from,
            j - 1,
        );
    assert(events[from] is Received);
    assert(events[i] is Received);
}

/// A run of the handler loop as it is performed: the loop starts with an entity that has to receive
/// a command, and each event is given to [Handler::step], which returns the next state and what has
/// to be done in it.
pub open spec fn is_performed<E: EventSourced, M, B>(
    states: Seq<Handler<E>>,
    actions: Seq<LoopAction<E, M, B>>,
    events: Seq<LoopEvent<E, M, B>>,
) -> bool {
    &&& states.len() == events.len() + 1
    &&& actions.len() == events.len() + 1
    &&& states[0] is Receiving
    &&& actions[0] is Receive
    &&& forall|i: int|
        0 <= i < events.len() ==> call_ensures(
            Handler::<E>::step::<M, B>,
            (states[i], #[trigger] events[i]),
            (states[i + 1], actions[i + 1]),
        )
}

/// What holds of the runs of the handler loop holds of those that are performed.
pub proof fn performed_run_is_loop_run<E: EventSourced, M, B>(
    states: Seq<Handler<E>>,
    actions: Seq<LoopAction<E, M, B>>,
    events: Seq<LoopEvent<E, M, B>>,
)
    requires
        is_performed(states, actions, events),
    ensures
        is_loop_run(states, actions, events),
{
    assert forall|i: int| 0 <= i < events.len() implies is_loop_step(
        states[i],
        #[trigger] events[i],
        states[i + 1],
        actions[i + 1],
    ) by {
        assert(call_ensures(
            Handler::<E>::step::<M, B>,
            (states[i], events[i]),
            (states[i + 1], actions[i + 1]),
        ));
    }
}

/// What the loop does with a command that it receives, and with the end of its channel.
///
/// - The command goes to the command handler of the entity. If it is rejected or produces no
///   events, the result is sent into the sending end that came with it, and the entity stays as it
///   is. If it produces events they have to be persisted, however many they are.
/// - When there are no more commands the loop ends.
pub proof fn received_command_is_handled<E: EventSourced, M, B>(
    entity: Entity<E>,
    received: Option<CmdMsg<E>>,
    next: Handler<E>,
    action: LoopAction<E, M, B>,
)
    requires
        call_ensures(
            Handler::<E>::step::<M, B>,
            (Handler::Receiving(entity), LoopEvent::<E, M, B>::Received(received)),
            (next, action),
        ),
    ensures
        match received {
            None => next is Ended && action == LoopAction::<E, M, B>::End(None),
            Some(msg) => match next {
                Handler::Persisting(persisting, result_in) => {
                    &&& entity@.event_sourced.may_handle_cmd(msg.0, Ok(persisting.evts()))
                    &&& persisting.evts()@.len() > 0
                    &&& persisting.entity() == entity
                    &&& result_in == msg.1
                    &&& action is Persist
                },
                Handler::Replying(unchanged) => {
                    &&& unchanged == entity
                    &&& action matches LoopAction::Reply(result_in, result)
                    &&& result_in == msg.1
                    &&& entity@.event_sourced.may_handle_cmd(msg.0, result)
                    &&& result matches Ok(evts) ==> evts@.len() == 0
                },
                _ => false,
            },
        },
{
}

/// What the loop does with the answer of the event log.
///
/// - If the events could not be persisted it ends with the error.
/// - Else the event handler has been invoked for all events, in order and under the sequence
///   numbers that follow the last one, and the entity is in the state after the last event. If the
///   event handler returned no snapshot state, the events are sent into the sending end of the
///   command. Else the state that it returned last has to be saved, at the sequence number of the event
///   for which it was returned and with the metadata of the event log, and there is no reply yet.
pub proof fn persisted_command_goes_on<E: EventSourced, M, B>(
    persisting: Persisting<E>,
    result_in: oneshot::Sender<CmdResult<E>>,
    persisted: Result<Metadata<M>, B>,
    next: Handler<E>,
    action: LoopAction<E, M, B>,
)
    requires
        persisted is Ok ==> persisting.entity()@.last_seq_no + persisting.evts()@.len()
            <= u64::MAX,
        call_ensures(
            Handler::<E>::step::<M, B>,
            (
                Handler::Persisting(persisting, result_in),
                LoopEvent::<E, M, B>::Persisted(persisted),
            ),
            (next, action),
        ),
    ensures
        persisted matches Err(error) ==> next is Ended && action == LoopAction::<E, M, B>::End(
            Some(error),
        ),
        persisted matches Ok(metadata) ==> {
            let before = persisting.entity()@;
            let evts = persisting.evts();
            let n = evts@.len() as int;
            &&& next is Replying || next is Saving
            &&& ({
                let after = if next is Replying {
                    next->Replying_0@
                } else {
                    next->Saving_0.entity()@
                };
                &&& after.id == before.id
                &&& after.last_seq_no == before.last_seq_no + n
                &&& after.start == before.start
                &&& after.history.len() == before.history.len() + n
                &&& forall|i: int|
                    0 <= i < before.history.len() ==> #[trigger] after.history[i]
                        == before.history[i]
                &&& forall|i: int|
                    0 <= i < n ==> (#[trigger] after.history[before.history.len() + i]).0
                        == before.last_seq_no + 1 + i && after.history[before.history.len() + i].1
                        == evts@[i]
                &&& exists|states: Seq<E>, snapshots: Seq<Option<E::State>>|
                    #![trigger states.len(), snapshots.len()]
                    {
                        &&& states.len() == n + 1
                        &&& snapshots.len() == n
                        &&& states[0] == before.event_sourced
                        &&& states[n] == after.event_sourced
                        &&& forall|i: int|
                            0 <= i < n ==> (#[trigger] states[i]).may_handle_evt(
                                (before.last_seq_no + 1 + i) as u64,
                                evts@[i],
                                states[i + 1],
                                snapshots[i],
                            )
                        &&& match next {
                            Handler::Replying(_) => {
                                &&& action == LoopAction::<E, M, B>::Reply(result_in, Ok(evts))
                                &&& forall|i: int|
                                    0 <= i < n ==> #[trigger] snapshots[i] is None
                            },
                            Handler::Saving(saving, kept) => {
                                &&& saving.evts() == evts
                                &&& kept == result_in
                                &&& action matches LoopAction::Save(request)
                                &&& request.id == before.id
                                &&& request.metadata == metadata
                                &&& before.last_seq_no < request.seq_no <= before.last_seq_no + n
                                &&& snapshots[request.seq_no - before.last_seq_no - 1] == Some(
                                    request.state,
                                )
                                &&& forall|i: int|
                                    request.seq_no - before.last_seq_no <= i < n
                                        ==> #[trigger] snapshots[i] is None
                            },
                            _ => false,
                        }
                    }
            })
        },
{
    if persisted is Ok {
        let step = choose|step: CmdStep<E, M, B>| #[trigger]
            persisting.may_step_to(persisted, step) && goes_on(step, result_in, next, action);
        let (states, snapshots) = lemma_persisted(persisting, persisted->Ok_0, step);
        assert(states.len() == snapshots.len() + 1);
    }
}

/// What the loop does with the answer of the snapshot store: if the snapshot is saved, the events
/// of the command are sent into its sending end; else the loop ends with the error.
pub proof fn saved_command_goes_on<E: EventSourced, M, B>(
    saving: Saving<E>,
    result_in: oneshot::Sender<CmdResult<E>>,
    saved: Result<(), B>,
    next: Handler<E>,
    action: LoopAction<E, M, B>,
)
    requires
        call_ensures(
            Handler::<E>::step::<M, B>,
            (Handler::Saving(saving, result_in), LoopEvent::<E, M, B>::Saved(saved)),
            (next, action),
        ),
    ensures
        match saved {
            Err(error) => next is Ended && action == LoopAction::<E, M, B>::End(Some(error)),
            Ok(_) => {
                &&& next == Handler::Replying(saving.entity())
                &&& action == LoopAction::<E, M, B>::Reply(result_in, Ok(saving.evts()))
            },
        },
{
}

/// After a reply, delivered or not, the same entity receives the next command.
pub proof fn loop_goes_on_after_reply<E: EventSourced, M, B>(
    entity: Entity<E>,
    delivered: bool,
    next: Handler<E>,
    action: LoopAction<E, M, B>,
)
    requires
        call_ensures(
            Handler::<E>::step::<M, B>,
            (Handler::Replying(entity), LoopEvent::<E, M, B>::Delivered(delivered)),
            (next, action),
        ),
    ensures
        next == Handler::Receiving(entity),
        action is Receive,
{
}

/// In every state of the loop, what has to be done is what the state waits for: there is nothing
/// else to do, and nothing is left undone.
pub proof fn action_fits_state<E: EventSourced, M, B>(
    states: Seq<Handler<E>>,
    actions: Seq<LoopAction<E, M, B>>,
    events: Seq<LoopEvent<E, M, B>>,
    i: int,
)
    requires
        is_performed(states, actions, events),
        0 <= i <= events.len(),
    ensures
        match states[i] {
            Handler::Receiving(_) => actions[i] is Receive,
            Handler::Persisting(_, _) => actions[i] is Persist,
            Handler::Saving(_, _) => actions[i] is Save,
            Handler::Replying(_) => actions[i] is Reply,
            Handler::Ended => actions[i] is End,
        },
{
    if i > 0 {
        let j = i - 1;
        assert(call_ensures(
            Handler::<E>::step::<M, B>,
            (states[j], events[j]),
            (states[j + 1], actions[j + 1]),
        ));
        assert(is_loop_step(states[j], events[j], states[i], actions[i]));
    }
}

/// The loop ends only because there are no more commands, or because events could not be persisted
/// or a snapshot could not be saved; in the latter cases the error is given.
pub proof fn loop_ends_only_for_a_reason<E: EventSourced, M, B>(
    states: Seq<Handler<E>>,
    actions: Seq<LoopAction<E, M, B>>,
    events: Seq<LoopEvent<E, M, B>>,
    i: int,
)
    requires
        is_performed(states, actions, events),
        0 <= i < events.len(),
        !(states[i] is Ended),
        states[i + 1] is Ended || actions[i + 1] is End,
    ensures
        states[i + 1] is Ended,
        match events[i] {
            LoopEvent::Received(None) => {
                &&& states[i] is Receiving
                &&& actions[i + 1] == LoopAction::<E, M, B>::End(None)
            },
            LoopEvent::Persisted(Err(error)) => {
                &&& states[i] is Persisting
                &&& actions[i + 1] == LoopAction::<E, M, B>::End(Some(error))
            },
            LoopEvent::Saved(Err(error)) => {
                &&& states[i] is Saving
                &&& actions[i + 1] == LoopAction::<E, M, B>::End(Some(error))
            },
            _ => false,
        },
{
    performed_run_is_loop_run(states, actions, events);
    assert(is_loop_step(states[i], events[i], states[i + 1], actions[i + 1]));
    if states[i] is Persisting {
        let persisting = states[i]->Persisting_0;
        let persisted = events[i]->Persisted_0;
        let result_in = states[i]->Persisting_1;
        let step = choose|step: CmdStep<E, M, B>| #[trigger]
            persisting.may_step_to(persisted, step) && goes_on(
                step,
                result_in,
                states[i + 1],
                actions[i + 1],
            );
    }
}

/// Every reply is what the loop owes to the caller of its command.
///
/// Whenever the loop has to send a result into a sending end, that end came with a command which
/// the loop has received just before, for the entity that it had then:
///
/// - A rejection, or a reply without events, is what the command handler returned; the entity is as
///   it was.
/// - A reply with events is given only after the event log was asked to persist exactly these
///   events and has answered that it did. If there was a snapshot to save, it is given only after
///   the snapshot store has answered that it did.
pub proof fn reply_is_owed<E: EventSourced, M, B>(
    states: Seq<Handler<E>>,
    actions: Seq<LoopAction<E, M, B>>,
    events: Seq<LoopEvent<E, M, B>>,
    i: int,
    result_in: oneshot::Sender<CmdResult<E>>,
    result: CmdResult<E>,
)
    requires
        is_performed(states, actions, events),
        0 <= i <= events.len(),
        actions[i] == LoopAction::<E, M, B>::Reply(result_in, result),
    ensures
        exists|from: int|
            #![trigger states[from], events[from]]
            {
                &&& 0 <= from < i
                &&& states[from] matches Handler::Receiving(entity)
                &&& events[from] matches LoopEvent::Received(Some(msg))
                &&& msg.1 == result_in
                &&& entity@.event_sourced.may_handle_cmd(msg.0, result)
                &&& match result {
                    Err(_) => i == from + 1 && states[i] == Handler::Replying(entity),
                    Ok(evts) => if evts@.len() == 0 {
                        i == from + 1 && states[i] == Handler::Replying(entity)
                    } else {
                        &&& states[from + 1] matches Handler::Persisting(persisting, _)
                        &&& persisting.entity() == entity
                        &&& persisting.evts() == evts
                        &&& forall|request: PersistRequest<'_, E>| #[trigger]
                            call_ensures(Persisting::<E>::request, (&persisting,), request) ==> {
                                &&& request.evts@ == evts@
                                &&& request.id == entity@.id
                                &&& request.last_seq_no == entity@.last_seq_no
                            }
                        &&& actions[from + 1] is Persist
                        &&& events[from + 1] matches LoopEvent::Persisted(Ok(_))
                        &&& {
                            ||| i == from + 2
                            ||| {
                                &&& i == from + 3
                                &&& states[from + 2] is Saving
                                &&& actions[from + 2] is Save
                                &&& events[from + 2] matches LoopEvent::Saved(Ok(_))
                            }
                        }
                    },
                }
            },
{
    performed_run_is_loop_run(states, actions, events);
    let j = i - 1;
    assert(is_loop_step(states[j], events[j], states[i], actions[i]));
    action_fits_state(states, actions, events, j);
    match states[j] {
        Handler::Receiving(entity) => {
            assert(call_ensures(
                Handler::<E>::step::<M, B>,
                (states[j], events[j]),
                (states[j + 1], actions[j + 1]),
            ));
            received_command_is_handled::<E, M, B>(
                entity,
                events[j]->Received_0,
                states[i],
                actions[i],
            );
        },
        Handler::Persisting(persisting, kept) => {
            lemma_persisting_is_received(states, actions, events, j);
            lemma_persisting_answered(states, actions, events, j);
            assert(states[j - 1] is Receiving && events[j - 1] is Received);
        },
        Handler::Saving(saving, kept) => {
            let k = j - 1;
            assert(is_loop_step(states[k], events[k], states[j], actions[j]));
            lemma_persisting_is_received(states, actions, events, k);
            lemma_persisting_answered(states, actions, events, k);
            action_fits_state(states, actions, events, k);
            assert(states[k - 1] is Receiving && events[k - 1] is Received);
        },
        _ => {},
    }
}

/// Events are persisted only for a command that has just been received.
proof fn lemma_persisting_is_received<E: EventSourced, M, B>(
    states: Seq<Handler<E>>,
    actions: Seq<LoopAction<E, M, B>>,
    events: Seq<LoopEvent<E, M, B>>,
    i: int,
)
    requires
        is_performed(states, actions, events),
        0 <= i <= events.len(),
        states[i] is Persisting,
    ensures
        0 < i,
        states[i - 1] is Receiving,
        events[i - 1] matches LoopEvent::Received(Some(msg)) && msg.1 == states[i]->Persisting_1
            && states[i - 1]->Receiving_0@.event_sourced.may_handle_cmd(
            msg.0,
            Ok(states[i]->Persisting_0.evts()),
        ),
        states[i]->Persisting_0.entity() == states[i - 1]->Receiving_0,
        states[i]->Persisting_0.evts()@.len() > 0,
{
    performed_run_is_loop_run(states, actions, events);
    let j = i - 1;
    assert(is_loop_step(states[j], events[j], states[i], actions[i]));
    if let Handler::Receiving(entity) = states[j] {
        assert(call_ensures(
            Handler::<E>::step::<M, B>,
            (states[j], events[j]),
            (states[j + 1], actions[j + 1]),
        ));
        received_command_is_handled::<E, M, B>(
            entity,
            events[j]->Received_0,
            states[i],
            actions[i],
        );
    }
}

/// What follows on the answer of the event log is for the events that were persisted.
proof fn lemma_persisting_answered<E: EventSourced, M, B>(
    states: Seq<Handler<E>>,
    actions: Seq<LoopAction<E, M, B>>,
    events: Seq<LoopEvent<E, M, B>>,
    i: int,
)
    requires
        is_performed(states, actions, events),
        0 <= i < events.len(),
        states[i] is Persisting,
    ensures
        events[i] is Persisted,
        match states[i + 1] {
            Handler::Replying(_) => events[i]->Persisted_0 is Ok && actions[i + 1]
                == LoopAction::<E, M, B>::Reply(
                states[i]->Persisting_1,
                Ok(states[i]->Persisting_0.evts()),
            ),
            Handler::Saving(saving, kept) => events[i]->Persisted_0 is Ok && kept
                == states[i]->Persisting_1 && saving.evts() == states[i]->Persisting_0.evts(),
            Handler::Ended => events[i]->Persisted_0 is Err,
            _ => false,
        },
{
    performed_run_is_loop_run(states, actions, events);
    assert(is_loop_step(states[i], events[i], states[i + 1], actions[i + 1]));
    let persisting = states[i]->Persisting_0;
    let result_in = states[i]->Persisting_1;
    let persisted = events[i]->Persisted_0;
    let step = choose|step: CmdStep<E, M, B>| #[trigger]
        persisting.may_step_to(persisted, step) && goes_on(
            step,
            result_in,
            states[i + 1],
            actions[i + 1],
        );
}

/// The loop may take a step whenever the event is the answer to what it has to do, and there are
/// sequence numbers left for persisted events.
pub proof fn loop_steps_may_be_taken<E: EventSourced, M, B>(
    entity: Entity<E>,
    received: Option<CmdMsg<E>>,
    persisting: Persisting<E>,
    persisted: Result<Metadata<M>, B>,
    saving: Saving<E>,
    saved: Result<(), B>,
    result_in: oneshot::Sender<CmdResult<E>>,
    delivered: bool,
    event: LoopEvent<E, M, B>,
)
    requires
        persisted is Ok ==> persisting.entity()@.last_seq_no + persisting.evts()@.len()
            <= u64::MAX,
    ensures
        call_requires(
            Handler::<E>::step::<M, B>,
            (Handler::Receiving(entity), LoopEvent::<E, M, B>::Received(received)),
        ),
        call_requires(
            Handler::<E>::step::<M, B>,
            (
                Handler::Persisting(persisting, result_in),
                LoopEvent::<E, M, B>::Persisted(persisted),
            ),
        ),
        call_requires(
            Handler::<E>::step::<M, B>,
            (Handler::Saving(saving, result_in), LoopEvent::<E, M, B>::Saved(saved)),
        ),
        call_requires(
            Handler::<E>::step::<M, B>,
            (Handler::Replying(entity), LoopEvent::<E, M, B>::Delivered(delivered)),
        ),
        call_requires(Handler::<E>::step::<M, B>, (Handler::<E>::Ended, event)),
{
}

} // verus!
