//! The handle through which commands reach a spawned entity.
//!
//! A command is sent over the channel of the entity, together with the sending end of a channel
//! for the result; then the result is awaited. Both wait for another task, so invoking the command
//! handler goes in steps: [EntityRef::handle_cmd] says what has to be sent, [Sending::sent] takes
//! whether it could be sent, and [result_received] takes what came back.

use crate::event_sourced::EventSourced;
use crate::outside::result_of_call;
use tokio::sync::{mpsc, oneshot};
use uuid::Uuid;
use vstd::prelude::*;

verus! {

/// The result of a command: the persisted events, or the error with which it was rejected.
pub type CmdResult<E> = Result<Vec<<E as EventSourced>::Evt>, <E as EventSourced>::Error>;

/// A command on its way to the entity, with the channel for its result.
pub type CmdMsg<E> = (<E as EventSourced>::Cmd, oneshot::Sender<CmdResult<E>>);

/// A handle for a spawned [EventSourced] entity which can be used to invoke its command handler.
#[derive(Debug)]
pub struct EntityRef<E: EventSourced> {
    id: Uuid,
    cmd_in: mpsc::Sender<CmdMsg<E>>,
}

/// What has to be sent to invoke the command handler.
pub struct SendRequest<'a, E: EventSourced> {
    /// The channel of the entity.
    pub cmd_in: &'a mpsc::Sender<CmdMsg<E>>,
    /// The message for the entity.
    pub cmd_msg: CmdMsg<E>,
}

/// A command that has to be sent before its result can be awaited.
pub struct Sending<E: EventSourced> {
    result_out: oneshot::Receiver<CmdResult<E>>,
}

/// Errors from an [EntityRef], where `B` is the type of the source of a failed sending.
#[derive(Debug)]
pub enum EntityRefError<B> {
    /// A command cannot be sent from an [EntityRef] to its entity.
    SendCmd(B),
    /// An [EntityRef] cannot receive the command handler result from its entity, potentially
    /// because its entity has terminated.
    RcvHandlerResult(oneshot::error::RecvError),
}

impl<B> EntityRefError<B> {
    /// The message of the error, without its source.
    pub fn message(&self) -> (message: &'static str)
        ensures
            message@ == (match self {
                EntityRefError::SendCmd(_) => "Cannot send command to Entity"@,
                EntityRefError::RcvHandlerResult(_) =>
                    "Cannot receive command handler result from Entity"@,
            }),
    {
        match self {
            EntityRefError::SendCmd(_) => "Cannot send command to Entity",
            EntityRefError::RcvHandlerResult(_) =>
                "Cannot receive command handler result from Entity",
        }
    }
}

impl<B> From<oneshot::error::RecvError> for EntityRefError<B> {
    fn from(source: oneshot::error::RecvError) -> (error: EntityRefError<B>) {
        EntityRefError::RcvHandlerResult(source)
    }
}

impl<B> vstd::std_specs::convert::FromSpecImpl<oneshot::error::RecvError> for EntityRefError<B> {
    open spec fn obeys_from_spec() -> bool {
        true
    }

    open spec fn from_spec(source: oneshot::error::RecvError) -> EntityRefError<B> {
        EntityRefError::RcvHandlerResult(source)
    }
}

impl<E: EventSourced + Clone> Clone for EntityRef<E> {
    /// A clone is a handle for the same entity.
    fn clone(&self) -> (cloned: EntityRef<E>)
        ensures
            cloned == *self,
    {
        EntityRef { id: self.id, cmd_in: self.cmd_in.clone() }
    }
}

impl<E: EventSourced> EntityRef<E> {
    /// The ID of the proxied event sourced entity.
    pub closed spec fn spec_id(&self) -> Uuid {
        self.id
    }

    /// The channel of the entity.
    pub closed spec fn cmd_in(&self) -> mpsc::Sender<CmdMsg<E>> {
        self.cmd_in
    }

    /// A handle for the entity with the given ID that receives its commands from the other end of
    /// `cmd_in`.
    pub(crate) fn new(id: Uuid, cmd_in: mpsc::Sender<CmdMsg<E>>) -> (entity_ref: EntityRef<E>)
        ensures
            entity_ref.spec_id() == id,
            entity_ref.cmd_in() == cmd_in,
    {
        EntityRef { id, cmd_in }
    }

    /// Get the ID of the proxied event sourced entity.
    pub fn id(&self) -> (id: Uuid)
        ensures
            id == self.spec_id(),
    {
        self.id
    }

    /// Invoke the command handler of the entity.
    ///
    /// The command has to be sent over the channel of the entity, along with the sending end of a
    /// new channel for the result; the result is awaited from the other end of that channel.
    pub fn handle_cmd(&self, cmd: E::Cmd) -> (call: (SendRequest<'_, E>, Sending<E>))
        ensures
            exists|
                result_in: oneshot::Sender<CmdResult<E>>,
                result_out: oneshot::Receiver<CmdResult<E>>,
            | #[trigger]
                self.is_call(cmd, result_in, result_out, call) && call_ensures(
                    oneshot::channel::<CmdResult<E>>,
                    (),
                    (result_in, result_out),
                ),
    {
        let (result_in, result_out) = result_of_call(oneshot::channel::<CmdResult<E>>);
        self.handle_cmd_over(cmd, result_in, result_out)
    }

    /// `call` sends `cmd` over the channel of the entity, with `result_in` for the result, which
    /// is then awaited from `result_out`.
    pub open spec fn is_call(
        &self,
        cmd: E::Cmd,
        result_in: oneshot::Sender<CmdResult<E>>,
        result_out: oneshot::Receiver<CmdResult<E>>,
        call: (SendRequest<'_, E>, Sending<E>),
    ) -> bool {
        &&& *call.0.cmd_in == self.cmd_in()
        &&& call.0.cmd_msg == (cmd, result_in)
        &&& call.1.result_out() == result_out
    }

    /// Invoke the command handler of the entity, with the given channel for the result.
    pub fn handle_cmd_over(
        &self,
        cmd: E::Cmd,
        result_in: oneshot::Sender<CmdResult<E>>,
        result_out: oneshot::Receiver<CmdResult<E>>,
    ) -> (call: (SendRequest<'_, E>, Sending<E>))
        ensures
            self.is_call(cmd, result_in, result_out, call),
    {
        let request = SendRequest { cmd_in: &self.cmd_in, cmd_msg: (cmd, result_in) };
        (request, Sending { result_out })
    }
}

impl<E: EventSourced> Sending<E> {
    /// The channel from which the result is awaited.
    pub closed spec fn result_out(&self) -> oneshot::Receiver<CmdResult<E>> {
        self.result_out
    }

    /// Takes whether the command could be sent: if so, the result has to be awaited from the
    /// returned channel and handed to [result_received].
    pub fn sent<B>(self, sent: Result<(), B>) -> (awaited: Result<
        oneshot::Receiver<CmdResult<E>>,
        EntityRefError<B>,
    >)
        ensures
            match sent {
                Err(source) => awaited == Err::<oneshot::Receiver<CmdResult<E>>, _>(
                    EntityRefError::SendCmd(source),
                ),
                Ok(_) => awaited == Ok::<_, EntityRefError<B>>(self.result_out()),
            },
    {
        match sent {
            Err(source) => Err(EntityRefError::SendCmd(source)),
            Ok(_) => Ok(self.result_out),
        }
    }
}

/// Takes what came back from the entity.
///
/// The returned (outer) `Result` signals, whether the command handler result could be received,
/// i.e. an `Err` signals a technical failure.
///
/// The (outer) `Ok` variant contains another (inner) `Result`, which signals whether the command
/// was valid or rejected. If it was valid, the persisted events are returned, else the rejection
/// error.
pub fn result_received<E: EventSourced, B>(
    received: Result<CmdResult<E>, oneshot::error::RecvError>,
) -> (result: Result<CmdResult<E>, EntityRefError<B>>)
    ensures
        match received {
            Err(source) => result == Err::<CmdResult<E>, EntityRefError<B>>(
                EntityRefError::RcvHandlerResult(source),
            ),
            Ok(handled) => result == Ok::<CmdResult<E>, EntityRefError<B>>(handled),
        },
{
    match received {
        Err(source) => Err(EntityRefError::from(source)),
        Ok(handled) => Ok(handled),
    }
}

} // verus!
