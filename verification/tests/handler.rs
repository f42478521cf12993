//! The handler loop takes one command after the other.

use eventsourced::{
    CmdResult, Entity, EventSourced, EventSourcedExt, Handler, LoopAction, LoopEvent, SpawnStep,
};
use tokio::sync::oneshot;
use uuid::Uuid;

/// Adds up; rejects zero, and takes a snapshot of multiples of ten.
#[derive(Debug)]
struct Sum(u64);

impl EventSourced for Sum {
    type Cmd = u64;

    type Evt = u64;

    type State = u64;

    type Error = String;

    fn handle_cmd(&self, cmd: Self::Cmd) -> Result<Vec<Self::Evt>, Self::Error> {
        if cmd == 0 {
            Err(self.0.to_string())
        } else {
            Ok(vec![cmd])
        }
    }

    fn handle_evt(&mut self, _seq_no: u64, evt: &Self::Evt) -> Option<Self::State> {
        self.0 += evt;
        if self.0 % 10 == 0 {
            Some(self.0)
        } else {
            None
        }
    }

    fn set_state(&mut self, state: Self::State) {
        self.0 = state;
    }
}

type Event = LoopEvent<Sum, (), &'static str>;
type Action = LoopAction<Sum, (), &'static str>;

fn start() -> Handler<Sum> {
    let step: SpawnStep<Sum, (), ()> = Sum(0)
        .spawn(Uuid::from_u128(1))
        .snapshot_loaded(Ok(None));
    let SpawnStep::LastSeqNo(restored) = step else {
        panic!("the last sequence number must be asked for");
    };
    let SpawnStep::Created(entity) = restored.last_seq_no_found::<()>(Ok(0)) else {
        panic!("there is no event to replay");
    };
    Handler::Receiving(entity)
}

fn received(cmd: u64) -> (Event, oneshot::Receiver<CmdResult<Sum>>) {
    let (result_in, result_out) = oneshot::channel();
    (LoopEvent::Received(Some((cmd, result_in))), result_out)
}

/// Has the loop handle a command up to its reply, and replies.
fn serve(handler: Handler<Sum>, cmd: u64) -> (Handler<Sum>, oneshot::Receiver<CmdResult<Sum>>) {
    let (event, result_out) = received(cmd);
    let (mut handler, mut action): (Handler<Sum>, Action) = handler.step(event);
    loop {
        let event = match action {
            LoopAction::Persist => LoopEvent::Persisted(Ok(None)),
            LoopAction::Save(request) => {
                assert_eq!(request.state % 10, 0);
                LoopEvent::Saved(Ok(()))
            }
            LoopAction::Reply(result_in, result) => {
                LoopEvent::Delivered(result_in.send(result).is_ok())
            }
            LoopAction::Receive => return (handler, result_out),
            LoopAction::End(error) => panic!("{error:?}"),
        };
        (handler, action) = handler.step(event);
    }
}

fn assert_ended(handler: Handler<Sum>) {
    let (event, result_out) = received(1);
    let mut handler = handler;
    for event in [
        event,
        LoopEvent::Persisted(Ok(None)),
        LoopEvent::Saved(Ok(())),
        LoopEvent::Delivered(true),
        LoopEvent::Received(None),
    ] {
        assert!(matches!(handler, Handler::Ended));
        let action: Action;
        (handler, action) = handler.step(event);
        assert!(matches!(action, LoopAction::End(None)));
    }
    assert!(result_out.blocking_recv().is_err());
}

#[test]
fn each_caller_gets_its_own_result() {
    let (handler, first) = serve(start(), 4);
    let (handler, second) = serve(handler, 6);
    let (_, third) = serve(handler, 0);
    assert_eq!(third.blocking_recv().unwrap(), Err("10".to_owned()));
    assert_eq!(first.blocking_recv().unwrap(), Ok(vec![4]));
    assert_eq!(second.blocking_recv().unwrap(), Ok(vec![6]));
}

#[test]
fn undelivered_reply_does_not_end_the_loop() {
    let (event, result_out) = received(4);
    let (handler, action): (_, Action) = start().step(event);
    drop(result_out);
    assert!(matches!(action, LoopAction::Persist));
    let (handler, action): (_, Action) = handler.step(LoopEvent::Persisted(Ok(None)));
    let LoopAction::Reply(result_in, result) = action else {
        panic!("the events are the reply");
    };
    assert!(result_in.send(result).is_err());
    let (handler, action): (_, Action) = handler.step(LoopEvent::Delivered(false));
    assert!(matches!(action, LoopAction::Receive));
    let (_, result_out) = serve(handler, 0);
    assert_eq!(result_out.blocking_recv().unwrap(), Err("4".to_owned()));
}

#[test]
fn failed_persisting_ends_the_loop() {
    let (event, result_out) = received(4);
    let (handler, action): (_, Action) = start().step(event);
    assert!(matches!(action, LoopAction::Persist));
    let (handler, action): (_, Action) = handler.step(LoopEvent::Persisted(Err("log is down")));
    assert!(matches!(action, LoopAction::End(Some("log is down"))));
    assert!(result_out.blocking_recv().is_err());
    assert_ended(handler);
}

#[test]
fn failed_saving_ends_the_loop() {
    let (event, result_out) = received(10);
    let (handler, _): (_, Action) = start().step(event);
    let (handler, action): (_, Action) = handler.step(LoopEvent::Persisted(Ok(None)));
    let LoopAction::Save(request) = action else {
        panic!("a snapshot was taken");
    };
    assert_eq!((request.seq_no, request.state), (1, 10));
    let (handler, action): (_, Action) = handler.step(LoopEvent::Saved(Err("store is down")));
    assert!(matches!(action, LoopAction::End(Some("store is down"))));
    assert!(result_out.blocking_recv().is_err());
    assert_ended(handler);
}

#[test]
fn closed_channel_ends_the_loop() {
    let (handler, action): (_, Action) = start().step(LoopEvent::Received(None));
    assert!(matches!(action, LoopAction::End(None)));
    assert_ended(handler);
}

#[test]
fn served_command_keeps_its_sending_end() {
    let Handler::Receiving(entity) = start() else {
        panic!("the loop starts with receiving");
    };
    let entity: Entity<Sum> = entity;
    let (result_in, result_out) = oneshot::channel();
    let (served, step) = entity.serve::<(), ()>((0, result_in));
    let eventsourced::CmdStep::Reply(_, result) = step else {
        panic!("the command is rejected");
    };
    served.send(result).unwrap();
    assert_eq!(result_out.blocking_recv().unwrap(), Err("0".to_owned()));
}
