//! Commands reach an entity through its handle.

use eventsourced::{
    result_received, CmdResult, EntityRef, EntityRefError, EventSourced, EventSourcedExt, SpawnStep,
};
use tokio::sync::mpsc::Receiver;
use tokio::sync::oneshot;
use uuid::Uuid;

#[derive(Debug, Clone)]
struct Echo;

impl EventSourced for Echo {
    type Cmd = u8;

    type Evt = u8;

    type State = ();

    type Error = String;

    fn handle_cmd(&self, cmd: Self::Cmd) -> Result<Vec<Self::Evt>, Self::Error> {
        Ok(vec![cmd])
    }

    fn handle_evt(&mut self, _seq_no: u64, _evt: &Self::Evt) -> Option<Self::State> {
        None
    }

    fn set_state(&mut self, _state: Self::State) {}
}

type Msg = (u8, oneshot::Sender<CmdResult<Echo>>);

fn id() -> Uuid {
    Uuid::from_u128(7)
}

fn open(buffer: usize) -> (EntityRef<Echo>, Receiver<Msg>) {
    let step: SpawnStep<Echo, (), ()> = Echo.spawn(id()).snapshot_loaded(Ok(None));
    let SpawnStep::LastSeqNo(restored) = step else {
        panic!("the last sequence number must be asked for");
    };
    assert_eq!(restored.seq_no(), 0);
    let SpawnStep::Created(entity) = restored.last_seq_no_found::<()>(Ok(0)) else {
        panic!("there is no event to replay");
    };
    entity.open_channel(buffer)
}

#[test]
fn handle_has_the_id_of_the_entity() {
    let (entity_ref, _cmd_out) = open(1);
    assert_eq!(entity_ref.id(), id());
    assert_eq!(entity_ref.clone().id(), id());
}

#[test]
fn result_comes_back_from_the_entity() {
    let (entity_ref, mut cmd_out) = open(2);
    let (request, sending) = entity_ref.handle_cmd(42);
    assert_eq!(request.cmd_msg.0, 42);
    request.cmd_in.try_send(request.cmd_msg).unwrap();
    let result_out = sending.sent::<()>(Ok(())).unwrap();

    let (cmd, result_in) = cmd_out.blocking_recv().unwrap();
    assert_eq!(cmd, 42);
    result_in.send(Ok(vec![cmd])).unwrap();

    let result = result_received::<Echo, ()>(result_out.blocking_recv());
    assert_eq!(result.unwrap(), Ok(vec![42]));
}

#[test]
fn rejection_comes_back_as_inner_error() {
    let (entity_ref, mut cmd_out) = open(1);
    let (request, sending) = entity_ref.handle_cmd(1);
    request.cmd_in.try_send(request.cmd_msg).unwrap();
    let result_out = sending.sent::<()>(Ok(())).unwrap();
    let (_, result_in) = cmd_out.blocking_recv().unwrap();
    result_in.send(Err("no".to_owned())).unwrap();
    let result = result_received::<Echo, ()>(result_out.blocking_recv());
    assert_eq!(result.unwrap(), Err("no".to_owned()));
}

#[test]
fn given_channel_is_used_for_the_result() {
    let (entity_ref, _cmd_out) = open(1);
    let (result_in, result_out) = oneshot::channel();
    let (request, sending) = entity_ref.handle_cmd_over(1, result_in, result_out);
    request.cmd_msg.1.send(Ok(vec![9])).unwrap();
    let result_out = sending.sent::<()>(Ok(())).unwrap();
    assert_eq!(result_out.blocking_recv().unwrap(), Ok(vec![9]));
}

#[test]
fn clone_sends_to_the_same_entity() {
    let (entity_ref, mut cmd_out) = open(2);
    let cloned = entity_ref.clone();
    drop(entity_ref);
    let (request, _sending) = cloned.handle_cmd(3);
    request.cmd_in.try_send(request.cmd_msg).unwrap();
    assert_eq!(cmd_out.blocking_recv().unwrap().0, 3);
}

#[test]
fn buffer_bounds_the_waiting_commands() {
    let (entity_ref, _cmd_out) = open(2);
    for cmd in 0..2 {
        let (request, _sending) = entity_ref.handle_cmd(cmd);
        assert!(request.cmd_in.try_send(request.cmd_msg).is_ok());
    }
    let (request, _sending) = entity_ref.handle_cmd(2);
    assert!(request.cmd_in.try_send(request.cmd_msg).is_err());
}

#[test]
fn command_that_cannot_be_sent_is_an_error() {
    let (entity_ref, cmd_out) = open(1);
    drop(cmd_out);
    let (request, sending) = entity_ref.handle_cmd(1);
    let sent = request.cmd_in.try_send(request.cmd_msg).map_err(|_| "closed");
    let error = sending.sent(sent).unwrap_err();
    assert!(matches!(error, EntityRefError::SendCmd("closed")));
    assert_eq!(error.message(), "Cannot send command to Entity");
}

#[test]
fn result_that_cannot_be_received_is_an_error() {
    let (entity_ref, mut cmd_out) = open(1);
    let (request, sending) = entity_ref.handle_cmd(1);
    request.cmd_in.try_send(request.cmd_msg).unwrap();
    let result_out = sending.sent::<()>(Ok(())).unwrap();
    drop(cmd_out.blocking_recv());
    let error = result_received::<Echo, ()>(result_out.blocking_recv()).unwrap_err();
    assert!(matches!(error, EntityRefError::RcvHandlerResult(_)));
    assert_eq!(error.message(), "Cannot receive command handler result from Entity");
}
