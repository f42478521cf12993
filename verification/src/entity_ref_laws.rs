//! What the handle of an entity does, in terms of what its functions are given and return.
//!
//! A function is spoken of by `call_ensures`: a call of it with these arguments may return this
//! value.

use crate::entity::Entity;
use crate::entity_ref::{
    result_received, CmdMsg, CmdResult, EntityRef, EntityRefError, SendRequest, Sending,
};
use crate::event_sourced::EventSourced;
use tokio::sync::{mpsc, oneshot};
use uuid::Uuid;
use vstd::prelude::*;

verus! {

/// The handle of an entity, and each clone of it, has the ID of the entity.
pub proof fn handle_has_id_of_entity<E: EventSourced + Clone>(
    entity: Entity<E>,
    buffer: usize,
    entity_ref: EntityRef<E>,
    cmd_out: mpsc::Receiver<CmdMsg<E>>,
    id: Uuid,
    cloned: EntityRef<E>,
    cloned_id: Uuid,
)
    requires
        0 < buffer <= usize::MAX / 8,
        call_ensures(Entity::<E>::open_channel, (&entity, buffer), (entity_ref, cmd_out)),
        call_ensures(EntityRef::<E>::id, (&entity_ref,), id),
        call_ensures(EntityRef::<E>::clone, (&entity_ref,), cloned),
        call_ensures(EntityRef::<E>::id, (&cloned,), cloned_id),
    ensures
        id == entity@.id,
        cloned_id == entity@.id,
{
}

/// A command that is given to the handle of an entity, or to a clone of it, is sent as it is into a
/// channel that was made with the given buffer, and whose other end the entity has. With it goes
/// the sending end of a channel whose receiving end is the one from which the result is awaited.
pub proof fn command_is_sent_to_its_entity<E: EventSourced + Clone>(
    entity: Entity<E>,
    buffer: usize,
    entity_ref: EntityRef<E>,
    cmd_out: mpsc::Receiver<CmdMsg<E>>,
    cloned: EntityRef<E>,
    cmd: E::Cmd,
    request: SendRequest<'_, E>,
    sending: Sending<E>,
)
    requires
        0 < buffer <= usize::MAX / 8,
        call_ensures(Entity::<E>::open_channel, (&entity, buffer), (entity_ref, cmd_out)),
        cloned == entity_ref || call_ensures(EntityRef::<E>::clone, (&entity_ref,), cloned),
        call_ensures(EntityRef::<E>::handle_cmd, (&cloned, cmd), (request, sending)),
    ensures
        call_ensures(mpsc::channel::<CmdMsg<E>>, (buffer,), (*request.cmd_in, cmd_out)),
        request.cmd_msg.0 == cmd,
        forall|awaited: oneshot::Receiver<CmdResult<E>>| #[trigger]
            call_ensures(
                Sending::<E>::sent::<()>,
                (sending, Ok::<(), ()>(())),
                Ok::<_, EntityRefError<()>>(awaited),
            ) ==> call_ensures(
                oneshot::channel::<CmdResult<E>>,
                (),
                (request.cmd_msg.1, awaited),
            ),
{
}

/// With a given channel for the result, its sending end goes with the command, and its receiving
/// end is the one from which the result is awaited.
pub proof fn given_channel_is_for_the_result<E: EventSourced, B>(
    entity_ref: EntityRef<E>,
    cmd: E::Cmd,
    result_in: oneshot::Sender<CmdResult<E>>,
    result_out: oneshot::Receiver<CmdResult<E>>,
    request: SendRequest<'_, E>,
    sending: Sending<E>,
    sent: Result<(), B>,
    awaited: Result<oneshot::Receiver<CmdResult<E>>, EntityRefError<B>>,
)
    requires
        call_ensures(
            EntityRef::<E>::handle_cmd_over,
            (&entity_ref, cmd, result_in, result_out),
            (request, sending),
        ),
        call_ensures(Sending::<E>::sent::<B>, (sending, sent), awaited),
    ensures
        *request.cmd_in == entity_ref.cmd_in(),
        request.cmd_msg == (cmd, result_in),
        match sent {
            Ok(_) => awaited == Ok::<_, EntityRefError<B>>(result_out),
            Err(source) => awaited == Err::<oneshot::Receiver<CmdResult<E>>, _>(
                EntityRefError::SendCmd(source),
            ),
        },
{
}

/// What the caller of a command gets: an outer error if, and only if, the command could not be sent
/// or its result could not be received, and else exactly the result that came from the entity.
pub proof fn caller_gets_result_of_command<E: EventSourced, B>(
    sending: Sending<E>,
    sent: Result<(), B>,
    awaited: Result<oneshot::Receiver<CmdResult<E>>, EntityRefError<B>>,
    received: Result<CmdResult<E>, oneshot::error::RecvError>,
    result: Result<CmdResult<E>, EntityRefError<B>>,
)
    requires
        call_ensures(Sending::<E>::sent::<B>, (sending, sent), awaited),
        call_ensures(result_received::<E, B>, (received,), result),
    ensures
        sent matches Err(source) ==> awaited == Err::<oneshot::Receiver<CmdResult<E>>, _>(
            EntityRefError::SendCmd(source),
        ),
        sent is Ok ==> awaited is Ok,
        match received {
            Err(source) => result == Err::<CmdResult<E>, EntityRefError<B>>(
                EntityRefError::RcvHandlerResult(source),
            ),
            Ok(from_entity) => result == Ok::<CmdResult<E>, EntityRefError<B>>(from_entity),
        },
{
}

/// The functions of the handle may be called at any time; a channel may be opened for any number of
/// waiting commands that a channel can have.
pub proof fn handle_may_be_used<E: EventSourced, B>(
    entity: Entity<E>,
    buffer: usize,
    entity_ref: EntityRef<E>,
    cmd: E::Cmd,
    sending: Sending<E>,
    sent: Result<(), B>,
    received: Result<CmdResult<E>, oneshot::error::RecvError>,
)
    requires
        0 < buffer <= usize::MAX / 8,
    ensures
        call_requires(Entity::<E>::open_channel, (&entity, buffer)),
        call_requires(EntityRef::<E>::id, (&entity_ref,)),
        call_requires(EntityRef::<E>::handle_cmd, (&entity_ref, cmd)),
        call_requires(Sending::<E>::sent::<B>, (sending, sent)),
        call_requires(result_received::<E, B>, (received,)),
{
}

} // verus!
