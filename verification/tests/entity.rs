//! An entity is spawned and handles commands, with an event log and a snapshot store in memory.

use bytes::{Bytes, BytesMut};
use eventsourced::{
    result_received, Binarizer, CmdStep, Entity, EventSourced, EventSourcedExt, EvtsRequest,
    Handler, LoopAction, LoopEvent, Snapshot, SpawnError, SpawnStep,
};
use prost::{DecodeError, EncodeError, Message};
use std::convert::Infallible;
use uuid::Uuid;

fn encode(n: &u64) -> Result<Bytes, EncodeError> {
    let mut bytes = BytesMut::new();
    n.encode(&mut bytes)?;
    Ok(bytes.into())
}

fn decode(bytes: Bytes) -> Result<u64, DecodeError> {
    u64::decode(bytes)
}

#[derive(Debug)]
struct Simple(u64);

impl EventSourced for Simple {
    type Cmd = ();

    type Evt = u64;

    type State = u64;

    type Error = Infallible;

    fn handle_cmd(&self, _cmd: Self::Cmd) -> Result<Vec<Self::Evt>, Self::Error> {
        Ok(vec![
            (1 << 32) + self.0,
            (2 << 32) + self.0,
            (3 << 32) + self.0,
        ])
    }

    fn handle_evt(&mut self, _seq_no: u64, evt: &Self::Evt) -> Option<Self::State> {
        self.0 += evt >> 32;
        None
    }

    fn set_state(&mut self, state: Self::State) {
        self.0 = state;
    }
}

/// Spawns the entity with a snapshot and an event log that both are at sequence number 42.
fn spawn_simple(id: Uuid) -> Entity<Simple> {
    let loading = Simple(0).spawn(id);
    assert_eq!(loading.id(), id);
    let snapshot = Snapshot {
        seq_no: 42,
        state: decode(encode(&42).unwrap()).unwrap(),
        metadata: None,
    };
    let step: SpawnStep<Simple, (), ()> = loading.snapshot_loaded(Ok(Some(snapshot)));
    let SpawnStep::LastSeqNo(restored) = step else {
        panic!("the last sequence number must be asked for");
    };
    assert_eq!(restored.id(), id);
    assert_eq!(restored.seq_no(), 42);
    let SpawnStep::Created(entity) = restored.last_seq_no_found::<()>(Ok(42)) else {
        panic!("there is no event to replay");
    };
    entity
}

#[test]
fn test_spawn_handle_cmd() {
    let entity = spawn_simple(Uuid::now_v7());
    let (entity_ref, mut cmd_out) = entity.open_channel(1);

    let (request, sending) = entity_ref.handle_cmd(());
    request.cmd_in.try_send(request.cmd_msg).unwrap();
    let result_out = sending.sent::<()>(Ok(())).unwrap();

    let mut handler = Handler::Receiving(entity);
    let mut action: LoopAction<Simple, (), ()> = LoopAction::Receive;
    drop(entity_ref);
    loop {
        let event = match action {
            LoopAction::Receive => LoopEvent::Received(cmd_out.blocking_recv()),
            LoopAction::Persist => LoopEvent::Persisted(Ok(None)),
            LoopAction::Save(_) => LoopEvent::Saved(Ok(())),
            LoopAction::Reply(result_in, result) => {
                LoopEvent::Delivered(result_in.send(result).is_ok())
            }
            LoopAction::End(error) => {
                assert_eq!(error, None);
                break;
            }
        };
        (handler, action) = handler.step(event);
    }

    let evts = result_received::<Simple, ()>(result_out.blocking_recv())
        .unwrap()
        .unwrap();
    assert_eq!(evts, vec![(1 << 32) + 42, (2 << 32) + 42, (3 << 32) + 42]);
}

#[test]
fn events_of_a_command_are_persisted() {
    let binarizer = Binarizer {
        evt_to_bytes: encode,
        evt_from_bytes: decode,
        state_to_bytes: encode,
        state_from_bytes: decode,
    };
    let id = Uuid::now_v7();
    let entity = spawn_simple(id);

    let expected = vec![(1 << 32) + 42, (2 << 32) + 42, (3 << 32) + 42];
    let step: CmdStep<Simple, (), ()> = entity.handle_cmd(());
    let CmdStep::Persist(persisting) = step else {
        panic!("the events must be persisted");
    };
    for evt in persisting.request().evts {
        let bytes = (binarizer.evt_to_bytes)(evt).unwrap();
        assert_eq!((binarizer.evt_from_bytes)(bytes).unwrap(), *evt);
    }
    assert_eq!(persisting.request().id, id);
    assert_eq!(persisting.request().evts.to_vec(), expected);
    assert_eq!(persisting.request().last_seq_no, 42);
    let step: CmdStep<Simple, (), ()> = persisting.persisted(Ok(None));
    let CmdStep::Reply(_, result) = step else {
        panic!("no snapshot was taken");
    };
    assert_eq!(result.unwrap(), expected);
}

#[derive(Debug, Clone, PartialEq)]
struct Account {
    balance: u64,
    seen: Vec<u64>,
}

const EMPTY: Account = Account {
    balance: 0,
    seen: Vec::new(),
};

/// Deposits each amount; rejects the amount 13, takes a snapshot after a deposit of 100 or more.
impl EventSourced for Account {
    type Cmd = Vec<u64>;

    type Evt = u64;

    type State = Account;

    type Error = String;

    fn handle_cmd(&self, cmd: Self::Cmd) -> Result<Vec<Self::Evt>, Self::Error> {
        if cmd.contains(&13) {
            Err(format!("unlucky at {}", self.balance))
        } else {
            Ok(cmd)
        }
    }

    fn handle_evt(&mut self, seq_no: u64, evt: &Self::Evt) -> Option<Self::State> {
        self.balance += evt;
        self.seen.push(seq_no);
        if *evt >= 100 {
            Some(self.clone())
        } else {
            None
        }
    }

    fn set_state(&mut self, state: Self::State) {
        *self = state;
    }
}

type AccountSnapshot = Snapshot<Account, &'static str>;
type Step = CmdStep<Account, &'static str, &'static str>;
type Spawned = SpawnStep<Account, &'static str, &'static str>;

#[derive(Default)]
struct Stores {
    log: Vec<u64>,
    snapshot: Option<(u64, Account)>,
    asked_for: Option<(u64, u64)>,
}

fn id() -> Uuid {
    Uuid::from_u128(0x0123_4567_89ab_cdef_0123_4567_89ab_cdef)
}

/// Spawns an entity from the stores.
fn spawn(stores: &mut Stores) -> Entity<Account> {
    let loaded: Option<AccountSnapshot> = stores.snapshot.clone().map(|(seq_no, state)| Snapshot {
        seq_no,
        state,
        metadata: Some("saved"),
    });
    stores.asked_for = None;
    let mut step: Spawned = EMPTY.spawn(id()).snapshot_loaded(Ok(loaded));
    let mut next = 0;
    let mut last = 0;
    loop {
        step = match step {
            SpawnStep::LastSeqNo(restored) => {
                restored.last_seq_no_found(Ok(stores.log.len() as u64))
            }
            SpawnStep::EvtsById(requested, request) => {
                assert_eq!(request.id, id());
                stores.asked_for = Some((request.from_seq_no, request.to_seq_no));
                next = request.from_seq_no;
                last = request.to_seq_no;
                requested.evts_opened(Ok(()))
            }
            SpawnStep::NextEvt(replaying) => {
                if next <= last {
                    let evt = stores.log[next as usize - 1];
                    next += 1;
                    replaying.next_evt(Some(Ok((next - 1, evt))))
                } else {
                    replaying.next_evt(None)
                }
            }
            SpawnStep::Created(entity) => return entity,
            SpawnStep::Failed(error) => panic!("{}", error.message()),
        };
    }
}

/// Has the entity handle a command with the stores.
fn handle(
    stores: &mut Stores,
    entity: Entity<Account>,
    cmd: Vec<u64>,
) -> (Entity<Account>, Result<Vec<u64>, String>) {
    let mut step: Step = entity.handle_cmd(cmd);
    loop {
        step = match step {
            CmdStep::Persist(persisting) => {
                assert_eq!(persisting.request().id, id());
                assert_eq!(persisting.request().last_seq_no, stores.log.len() as u64);
                stores.log.extend(persisting.request().evts);
                persisting.persisted(Ok(Some("logged")))
            }
            CmdStep::SaveSnapshot(saving, request) => {
                assert_eq!(request.id, id());
                assert_eq!(request.metadata, Some("logged"));
                stores.snapshot = Some((request.seq_no, request.state));
                saving.saved(Ok(()))
            }
            CmdStep::Reply(entity, result) => return (entity, result),
            CmdStep::Terminate(error) => panic!("{error}"),
        };
    }
}

/// What the entity makes of a command that shows its balance in the rejection.
fn balance(stores: &mut Stores, entity: Entity<Account>) -> (Entity<Account>, String) {
    let (entity, result) = handle(stores, entity, vec![13]);
    (entity, result.unwrap_err())
}

#[test]
fn sequence_numbers_go_on_over_commands() {
    let mut stores = Stores::default();
    let entity = spawn(&mut stores);
    assert_eq!(stores.asked_for, None);
    let (entity, result) = handle(&mut stores, entity, vec![1, 2]);
    assert_eq!(result, Ok(vec![1, 2]));
    let (_, result) = handle(&mut stores, entity, vec![3, 4, 500]);
    assert_eq!(result, Ok(vec![3, 4, 500]));
    assert_eq!(stores.log, vec![1, 2, 3, 4, 500]);
    let expected = Account {
        balance: 510,
        seen: vec![1, 2, 3, 4, 5],
    };
    assert_eq!(stores.snapshot, Some((5, expected)));
}

#[test]
fn rejected_command_changes_nothing() {
    let mut stores = Stores::default();
    let entity = spawn(&mut stores);
    let (entity, _) = handle(&mut stores, entity, vec![7]);
    let (entity, result) = handle(&mut stores, entity, vec![1, 13]);
    assert_eq!(result, Err("unlucky at 7".to_owned()));
    let (entity, result) = balance(&mut stores, entity);
    assert_eq!(result, "unlucky at 7");
    assert_eq!(stores.log, vec![7]);
    let (_, result) = handle(&mut stores, entity, vec![8]);
    assert_eq!(result, Ok(vec![8]));
    assert_eq!(stores.log, vec![7, 8]);
}

#[test]
fn command_without_events_is_not_persisted() {
    let mut stores = Stores::default();
    let step: Step = spawn(&mut stores).handle_cmd(vec![]);
    let CmdStep::Reply(_, result) = step else {
        panic!("there is nothing to persist");
    };
    assert_eq!(result, Ok(vec![]));
}

#[test]
fn spawning_again_replays_the_log() {
    let mut stores = Stores::default();
    let entity = spawn(&mut stores);
    let (entity, _) = handle(&mut stores, entity, vec![1, 2]);
    let (entity, _) = handle(&mut stores, entity, vec![3]);
    let (_, live) = balance(&mut stores, entity);
    let recovered = spawn(&mut stores);
    assert_eq!(stores.asked_for, Some((1, 3)));
    let (recovered, result) = balance(&mut stores, recovered);
    assert_eq!(result, live);
    assert_eq!(result, "unlucky at 6");
    let _ = handle(&mut stores, recovered, vec![100]);
    let (seq_no, state) = stores.snapshot.unwrap();
    assert_eq!(seq_no, 4);
    assert_eq!(state.seen, vec![1, 2, 3, 4]);
}

#[test]
fn spawning_from_snapshot_asks_for_later_events_only() {
    let mut stores = Stores::default();
    let entity = spawn(&mut stores);
    let (entity, _) = handle(&mut stores, entity, vec![1, 100]);
    assert_eq!(stores.snapshot.as_ref().unwrap().0, 2);
    let (_, live) = balance(&mut stores, entity);
    let recovered = spawn(&mut stores);
    assert_eq!(stores.asked_for, None);
    let (recovered, result) = balance(&mut stores, recovered);
    assert_eq!(result, live);

    let (entity, _) = handle(&mut stores, recovered, vec![5, 6, 7]);
    assert_eq!(stores.snapshot.as_ref().unwrap().0, 2);
    let (_, live) = balance(&mut stores, entity);
    assert_eq!(live, "unlucky at 119");
    let recovered = spawn(&mut stores);
    assert_eq!(stores.asked_for, Some((3, 5)));
    let (_, result) = balance(&mut stores, recovered);
    assert_eq!(result, live);
}

#[test]
fn newest_snapshot_is_saved_at_its_own_sequence_number() {
    let mut stores = Stores::default();
    let entity = spawn(&mut stores);
    let (entity, _) = handle(&mut stores, entity, vec![200, 1, 100, 2]);
    let (seq_no, state) = stores.snapshot.clone().unwrap();
    assert_eq!(seq_no, 3);
    assert_eq!(state.balance, 301);
    assert_eq!(state.seen, vec![1, 2, 3]);

    let (_, live) = balance(&mut stores, entity);
    assert_eq!(live, "unlucky at 303");
    let recovered = spawn(&mut stores);
    assert_eq!(stores.asked_for, Some((4, 4)));
    let (_, result) = balance(&mut stores, recovered);
    assert_eq!(result, live);
}

#[derive(Debug, Clone)]
struct Tariff {
    factor: u64,
    total: u64,
}

/// Adds each amount times a factor, which is not part of the snapshot state.
impl EventSourced for Tariff {
    type Cmd = u64;

    type Evt = u64;

    type State = u64;

    type Error = Infallible;

    fn handle_cmd(&self, cmd: Self::Cmd) -> Result<Vec<Self::Evt>, Self::Error> {
        Ok(vec![cmd, self.total])
    }

    fn handle_evt(&mut self, _seq_no: u64, evt: &Self::Evt) -> Option<Self::State> {
        self.total += self.factor * evt;
        Some(self.total)
    }

    fn set_state(&mut self, state: Self::State) {
        self.total = state;
    }
}

#[test]
fn snapshot_state_need_not_hold_what_is_given_to_spawn() {
    let initial = Tariff {
        factor: 3,
        total: 0,
    };
    let snapshot = Snapshot {
        seq_no: 2,
        state: 12,
        metadata: None,
    };
    let step: SpawnStep<Tariff, (), ()> = initial.spawn(id()).snapshot_loaded(Ok(Some(snapshot)));
    let SpawnStep::LastSeqNo(restored) = step else {
        panic!("the last sequence number must be asked for");
    };
    let SpawnStep::Created(entity) = restored.last_seq_no_found::<()>(Ok(2)) else {
        panic!("there is no event to replay");
    };
    let step: CmdStep<Tariff, (), ()> = entity.handle_cmd(5);
    let CmdStep::Persist(persisting) = step else {
        panic!("the events must be persisted");
    };
    assert_eq!(persisting.request().evts.to_vec(), vec![5, 12]);
    let step: CmdStep<Tariff, (), ()> = persisting.persisted(Ok(None));
    let CmdStep::SaveSnapshot(_, request) = step else {
        panic!("a snapshot was taken");
    };
    assert_eq!(request.seq_no, 4);
    assert_eq!(request.state, 12 + 3 * 5 + 3 * 12);
}

#[test]
fn failed_persisting_terminates() {
    let mut stores = Stores::default();
    let step: Step = spawn(&mut stores).handle_cmd(vec![100]);
    let CmdStep::Persist(persisting) = step else {
        panic!("the event must be persisted");
    };
    let step: Step = persisting.persisted(Err("log is down"));
    assert!(matches!(step, CmdStep::Terminate("log is down")));
}

#[test]
fn failed_saving_terminates() {
    let mut stores = Stores::default();
    let step: Step = spawn(&mut stores).handle_cmd(vec![100]);
    let CmdStep::Persist(persisting) = step else {
        panic!("the event must be persisted");
    };
    let step: Step = persisting.persisted(Ok(None));
    let CmdStep::SaveSnapshot(saving, request) = step else {
        panic!("a snapshot was taken");
    };
    assert_eq!(request.seq_no, 1);
    assert_eq!(request.metadata, None);
    let step: Step = saving.saved(Err("store is down"));
    assert!(matches!(step, CmdStep::Terminate("store is down")));
}

fn restored(seq_no: u64) -> Spawned {
    let snapshot = Snapshot {
        seq_no,
        state: EMPTY,
        metadata: Some("saved"),
    };
    EMPTY.spawn(id()).snapshot_loaded(Ok(Some(snapshot)))
}

#[test]
fn spawning_fails_with_the_failing_step() {
    let step: Spawned = EMPTY.spawn(id()).snapshot_loaded(Err("a"));
    let SpawnStep::Failed(error) = step else {
        panic!("no snapshot was loaded");
    };
    assert!(matches!(error, SpawnError::LoadSnapshot("a")));
    assert_eq!(error.message(), "Cannot load snapshot from snapshot store");

    let SpawnStep::LastSeqNo(no_seq_no) = restored(3) else {
        panic!("the last sequence number must be asked for");
    };
    let SpawnStep::Failed(error) = no_seq_no.last_seq_no_found(Err("b")) else {
        panic!("no sequence number was found");
    };
    assert!(matches!(error, SpawnError::LastSeqNo("b")));
    assert_eq!(error.message(), "Cannot get last seqence number from event log");

    let opened = || {
        let SpawnStep::LastSeqNo(restored) = restored(3) else {
            panic!("the last sequence number must be asked for");
        };
        let step: Spawned = restored.last_seq_no_found(Ok(4));
        let SpawnStep::EvtsById(requested, request) = step else {
            panic!("there is an event after the snapshot");
        };
        let EvtsRequest {
            id: asked,
            from_seq_no,
            to_seq_no,
            metadata,
        } = request;
        assert_eq!(asked, id());
        assert_eq!((from_seq_no, to_seq_no), (4, 4));
        assert_eq!(metadata, Some("saved"));
        requested
    };
    let step: Spawned = opened().evts_opened(Err("c"));
    let SpawnStep::Failed(error) = step else {
        panic!("there are no events");
    };
    assert!(matches!(error, SpawnError::EvtsById("c")));
    assert_eq!(error.message(), "Cannot get events by ID from event log");

    let step: Spawned = opened().evts_opened(Ok(()));
    let SpawnStep::NextEvt(replaying) = step else {
        panic!("the next event must be asked for");
    };
    let step: Spawned = replaying.next_evt(Some(Err("d")));
    let SpawnStep::Failed(error) = step else {
        panic!("there is no event");
    };
    assert!(matches!(error, SpawnError::NextEvt("d")));
    assert_eq!(error.message(), "Cannot get next event from event log");
}

#[test]
fn last_sequence_number_is_the_one_of_the_log() {
    let SpawnStep::LastSeqNo(restored) = restored(3) else {
        panic!("the last sequence number must be asked for");
    };
    let step: Spawned = restored.last_seq_no_found(Ok(9));
    let SpawnStep::EvtsById(requested, _) = step else {
        panic!("there are events after the snapshot");
    };
    let step: Spawned = requested.evts_opened(Ok(()));
    let SpawnStep::NextEvt(replaying) = step else {
        panic!("the next event must be asked for");
    };
    let step: Spawned = replaying.next_evt(None);
    let SpawnStep::Created(entity) = step else {
        panic!("there are no more events");
    };
    let step: Step = entity.handle_cmd(vec![1]);
    let CmdStep::Persist(persisting) = step else {
        panic!("the event must be persisted");
    };
    assert_eq!(persisting.request().last_seq_no, 9);
}

#[test]
fn entity_comes_back_over_many_lives() {
    let mut stores = Stores::default();
    let mut expected = 0;
    for life in 1..6 {
        let mut entity = spawn(&mut stores);
        for cmd in [vec![life], vec![], vec![100 * life, 2, 3], vec![4, 5]] {
            expected += cmd.iter().sum::<u64>();
            (entity, _) = handle(&mut stores, entity, cmd);
        }
        let (_, live) = balance(&mut stores, entity);
        assert_eq!(live, format!("unlucky at {expected}"));
        let recovered = spawn(&mut stores);
        let (_, result) = balance(&mut stores, recovered);
        assert_eq!(result, live);
        assert_eq!(stores.log.len() as u64, 6 * life);
        assert_eq!(stores.asked_for, Some((6 * life - 3, 6 * life)));
    }
}
