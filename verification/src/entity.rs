//! A running entity: what it does with a command.
//!
//! Handling a command needs the event log and the snapshot store, which are reached by
//! asynchronous I/O. So it goes in steps. Each step is a function that takes what the outside
//! world answered and returns a [CmdStep], which says what has to be done next:
//!
//! - [Entity::handle_cmd] runs the command handler;
//! - [Persisting::persisted] takes the answer of the event log and runs the event handler;
//! - [Saving::saved] takes the answer of the snapshot store.
//!
//! An [Entity] is moved through these steps. It comes back with the reply to the command; where
//! the log or the store fails, it does not come back: that entity has terminated.

use crate::entity_ref::{CmdMsg, CmdResult, EntityRef};
use crate::event_sourced::EventSourced;
use crate::history::{
    handles, lemma_handles_nothing, lemma_handles_one_more, lemma_replays_then_handles, newest,
    numbered, replays,
};
use crate::outside::result_of_call_with;
use tokio::sync::{mpsc, oneshot};
use uuid::Uuid;
use vstd::prelude::*;

verus! {

/// Optional metadata to optimize sequence number based lookup of events in the event log.
pub type Metadata<M> = Option<M>;

/// What is known of an entity.
#[verifier::ext_equal]
pub struct EntityView<E: EventSourced> {
    /// The ID of the entity.
    pub id: Uuid,
    /// The sequence number of the last event of the entity.
    pub last_seq_no: u64,
    /// The current state of the entity.
    pub event_sourced: E,
    /// The state in which the entity was before the first event in `history`.
    pub start: E,
    /// The events that the entity has handled since `start`, with their sequence numbers.
    pub history: Seq<(u64, E::Evt)>,
}

impl<E: EventSourced> EntityView<E> {
    /// The current state is one to which handling the history may lead.
    pub open spec fn is_replay_of_history(self) -> bool {
        replays(self.start, self.history, self.event_sourced)
    }

    /// The events of the history have consecutive sequence numbers, the last of which is that of
    /// the entity.
    pub open spec fn is_history_consecutive(self) -> bool {
        forall|i: int|
            0 <= i < self.history.len() ==> (#[trigger] self.history[i]).0 == self.last_seq_no + 1
                + i - self.history.len()
    }

    /// The entity may become `next` by handling `evts` under the sequence numbers that follow its
    /// last one, with the event handler returning `snapshots[i]` for `evts[i]`.
    pub open spec fn applies(
        self,
        evts: Seq<E::Evt>,
        next: EntityView<E>,
        snapshots: Seq<Option<E::State>>,
    ) -> bool {
        let new = numbered(self.last_seq_no, evts);
        &&& next.id == self.id
        &&& next.last_seq_no == self.last_seq_no + evts.len()
        &&& next.start == self.start
        &&& next.history == self.history + new
        &&& handles(self.event_sourced, new, next.event_sourced, snapshots)
    }

    /// The entity may become `next` by handling an event that is in the event log already, under
    /// the sequence number that it has there. The last sequence number is not touched.
    pub open spec fn replays_one(self, evt: (u64, E::Evt), next: EntityView<E>) -> bool {
        &&& next.id == self.id
        &&& next.last_seq_no == self.last_seq_no
        &&& next.start == self.start
        &&& next.history == self.history.push(evt)
        &&& exists|snapshot: Option<E::State>| #[trigger]
            self.event_sourced.may_handle_evt(evt.0, evt.1, next.event_sourced, snapshot)
    }
}

/// An event sourced entity that is ready for the next command.
pub struct Entity<E: EventSourced> {
    event_sourced: E,
    id: Uuid,
    last_seq_no: u64,
    start: Ghost<E>,
    history: Ghost<Seq<(u64, E::Evt)>>,
}

impl<E: EventSourced> View for Entity<E> {
    type V = EntityView<E>;

    closed spec fn view(&self) -> EntityView<E> {
        EntityView {
            id: self.id,
            last_seq_no: self.last_seq_no,
            event_sourced: self.event_sourced,
            start: self.start@,
            history: self.history@,
        }
    }
}

/// An entity whose command has produced events that are not persisted yet.
pub struct Persisting<E: EventSourced> {
    entity: Entity<E>,
    evts: Vec<E::Evt>,
}

/// An entity that has handled its events and waits for a snapshot to be saved.
pub struct Saving<E: EventSourced> {
    entity: Entity<E>,
    evts: Vec<E::Evt>,
}

/// What the event log is asked to persist.
pub struct PersistRequest<'a, E: EventSourced> {
    /// The ID of the entity.
    pub id: Uuid,
    /// The events to persist, in this order.
    pub evts: &'a [E::Evt],
    /// The sequence number of the last event before these.
    pub last_seq_no: u64,
}

/// What the snapshot store is asked to save.
pub struct SaveRequest<E: EventSourced, M> {
    /// The ID of the entity.
    pub id: Uuid,
    /// The sequence number of the event after which the snapshot was taken, never zero.
    pub seq_no: u64,
    /// The snapshot state.
    pub state: E::State,
    /// The metadata that the event log returned for the events.
    pub metadata: Metadata<M>,
}

/// What has to be done next for a command, where `B` is the type of technical errors.
pub enum CmdStep<E: EventSourced, M, B> {
    /// Persist the events and hand the answer of the event log to [Persisting::persisted].
    Persist(Persisting<E>),
    /// Save the snapshot and hand the answer of the snapshot store to [Saving::saved].
    SaveSnapshot(Saving<E>, SaveRequest<E, M>),
    /// Reply with the result; after that the entity is ready for the next command, whether or
    /// not the reply was delivered.
    Reply(Entity<E>, Result<Vec<E::Evt>, E::Error>),
    /// The entity has terminated: there is no reply, and it handles no further command.
    Terminate(B),
}

/// The step that follows when the command handler has returned `result`: a rejected command and
/// one without events are replied to at once, with the entity as it was; else the events are
/// persisted first.
pub open spec fn is_step_after_cmd<E: EventSourced, M, B>(
    entity: Entity<E>,
    result: Result<Vec<E::Evt>, E::Error>,
    step: CmdStep<E, M, B>,
) -> bool {
    match result {
        Err(error) => step == CmdStep::<E, M, B>::Reply(entity, Err(error)),
        Ok(evts) => if evts@.len() == 0 {
            step == CmdStep::<E, M, B>::Reply(entity, Ok(evts))
        } else {
            step matches CmdStep::Persist(persisting) && persisting.entity() == entity
                && persisting.evts() == evts
        },
    }
}

/// The step that follows when `entity` has handled its persisted events `evts` and `snapshot` is
/// the newest snapshot state that the event handler returned, if any, with the sequence number at
/// which it did: it is saved at that number; without one the events are the reply.
pub open spec fn is_step_after_evts<E: EventSourced, M, B>(
    entity: EntityView<E>,
    evts: Vec<E::Evt>,
    snapshot: Option<(u64, E::State)>,
    metadata: Metadata<M>,
    step: CmdStep<E, M, B>,
) -> bool {
    match snapshot {
        Some((seq_no, state)) => {
            &&& step matches CmdStep::SaveSnapshot(saving, request)
            &&& saving.entity()@ == entity
            &&& saving.evts() == evts
            &&& request.id == entity.id
            &&& request.seq_no == seq_no
            &&& request.state == state
            &&& request.metadata == metadata
        },
        None => {
            &&& step matches CmdStep::Reply(replying, result)
            &&& replying@ == entity
            &&& result == Ok::<Vec<E::Evt>, E::Error>(evts)
        },
    }
}

impl<E: EventSourced> Entity<E> {
    /// The current state of an entity is always one to which handling its history may lead.
    #[verifier::type_invariant]
    pub open spec fn inv(&self) -> bool {
        self@.is_replay_of_history()
    }

    /// An entity in the state `event_sourced` with an empty history.
    pub(crate) fn new(event_sourced: E, id: Uuid, last_seq_no: u64) -> (entity: Entity<E>)
        ensures
            entity@ == (EntityView {
                id,
                last_seq_no,
                event_sourced,
                start: event_sourced,
                history: Seq::empty(),
            }),
    {
        proof {
            lemma_handles_nothing(event_sourced);
        }
        Entity {
            event_sourced,
            id,
            last_seq_no,
            start: Ghost(event_sourced),
            history: Ghost(Seq::empty()),
        }
    }

    /// Opens the channel through which commands reach this entity: returns a handle with the ID
    /// of the entity and the receiving end, with room for `buffer` waiting commands. The two are
    /// the ends of one channel, made for `buffer` messages.
    pub fn open_channel(&self, buffer: usize) -> (ends: (
        EntityRef<E>,
        mpsc::Receiver<CmdMsg<E>>,
    ))
        requires
            0 < buffer <= usize::MAX / 8,
        ensures
            ends.0.spec_id() == self@.id,
            call_ensures(mpsc::channel::<CmdMsg<E>>, (buffer,), (ends.0.cmd_in(), ends.1)),
    {
        let (cmd_in, cmd_out) = result_of_call_with(mpsc::channel::<CmdMsg<E>>, buffer);
        (EntityRef::new(self.id, cmd_in), cmd_out)
    }

    /// `step` may follow when this entity is given `cmd`: it follows from what the command handler
    /// may return for it.
    pub open spec fn may_step_to<M, B>(self, cmd: E::Cmd, step: CmdStep<E, M, B>) -> bool {
        exists|result: Result<Vec<E::Evt>, E::Error>| #[trigger]
            self@.event_sourced.may_handle_cmd(cmd, result) && is_step_after_cmd(
                self,
                result,
                step,
            )
    }

    /// Takes a command out of the channel and invokes the command handler. The result has to go to
    /// the returned sending end, which is the one that came with the command.
    pub fn serve<M, B>(self, msg: CmdMsg<E>) -> (served: (
        oneshot::Sender<CmdResult<E>>,
        CmdStep<E, M, B>,
    ))
        ensures
            served.0 == msg.1,
            self.may_step_to(msg.0, served.1),
    {
        let (cmd, result_in) = msg;
        (result_in, self.handle_cmd(cmd))
    }

    /// Invokes the command handler.
    pub fn handle_cmd<M, B>(self, cmd: E::Cmd) -> (step: CmdStep<E, M, B>)
        ensures
            self.may_step_to(cmd, step),
    {
        let result = self.event_sourced.handle_cmd(cmd);
        assert(self@.event_sourced.may_handle_cmd(cmd, result));
        self.cmd_handled(result)
    }

    /// Decides on the result of the command handler.
    pub(crate) fn cmd_handled<M, B>(self, result: Result<Vec<E::Evt>, E::Error>) -> (step: CmdStep<
        E,
        M,
        B,
    >)
        ensures
            is_step_after_cmd(self, result, step),
    {
        match result {
            Err(error) => CmdStep::Reply(self, Err(error)),
            Ok(evts) => {
                if evts.len() == 0 {
                    CmdStep::Reply(self, Ok(evts))
                } else {
                    CmdStep::Persist(Persisting { entity: self, evts })
                }
            },
        }
    }

    /// Runs the event handler on each of `evts`, numbered from the last sequence number on, and
    /// returns the newest snapshot state that it returned, if any, with the sequence number at
    /// which it did.
    pub(crate) fn handle_evts(self, evts: &Vec<E::Evt>) -> (handled: (
        Entity<E>,
        Option<(u64, E::State)>,
    ))
        requires
            self@.last_seq_no + evts@.len() <= u64::MAX,
        ensures
            exists|snapshots: Seq<Option<E::State>>| #[trigger]
                self@.applies(evts@, handled.0@, snapshots) && handled.1 == newest(
                    self@.last_seq_no,
                    snapshots,
                ),
            handled.1 matches Some((seq_no, _)) ==> self@.last_seq_no < seq_no
                <= handled.0@.last_seq_no,
            handled.0@.is_replay_of_history(),
    {
        let ghost before = self@;
        proof {
            use_type_invariant(&self);
        }
        let Entity { event_sourced, id, last_seq_no, start, history } = self;
        let mut event_sourced = event_sourced;
        let mut seq_no: u64 = last_seq_no;
        let mut snapshot: Option<(u64, E::State)> = None;
        let ghost new = numbered(last_seq_no, evts@);
        let ghost mut snapshots = Seq::<Option<E::State>>::empty();
        proof {
            lemma_handles_nothing(before.event_sourced);
            assert(new.take(0) =~= Seq::empty());
        }
        let mut i: usize = 0;
        while i < evts.len()
            invariant
                i <= evts@.len(),
                last_seq_no + evts@.len() <= u64::MAX,
                seq_no == last_seq_no + i,
                new == numbered(last_seq_no, evts@),
                handles(before.event_sourced, new.take(i as int), event_sourced, snapshots),
                snapshots.len() == i,
                snapshot == newest(last_seq_no, snapshots),
                snapshot matches Some((taken_at, _)) ==> last_seq_no < taken_at <= seq_no,
            decreases evts@.len() - i,
        {
            let ghost mid = event_sourced;
            seq_no = seq_no + 1;
            let taken = event_sourced.handle_evt(seq_no, &evts[i]);
            proof {
                lemma_handles_one_more(
                    before.event_sourced,
                    new.take(i as int),
                    mid,
                    snapshots,
                    new[i as int],
                    event_sourced,
                    taken,
                );
                assert(new.take(i + 1) =~= new.take(i as int).push(new[i as int]));
                assert(snapshots.push(taken).drop_last() =~= snapshots);
                snapshots = snapshots.push(taken);
            }
            if let Some(state) = taken {
                snapshot = Some((seq_no, state));
            }
            i = i + 1;
        }
        proof {
            assert(new.take(i as int) =~= new);
            lemma_replays_then_handles(
                before.start,
                before.history,
                before.event_sourced,
                new,
                event_sourced,
                snapshots,
            );
        }
        let entity = Entity {
            event_sourced,
            id,
            last_seq_no: seq_no,
            start,
            history: Ghost(history@ + new),
        };
        let handled = (entity, snapshot);
        assert(before.applies(evts@, handled.0@, snapshots));
        handled
    }

    /// Runs the event handler on one event of the event log, under the sequence number that the
    /// log gave it. What it returns is not needed: the snapshot was taken when the event was new.
    pub(crate) fn replay_evt(self, seq_no: u64, evt: E::Evt) -> (entity: Entity<E>)
        ensures
            self@.replays_one((seq_no, evt), entity@),
            entity@.is_replay_of_history(),
    {
        let ghost before = self@;
        proof {
            use_type_invariant(&self);
        }
        let Entity { event_sourced, id, last_seq_no, start, history } = self;
        let mut event_sourced = event_sourced;
        let snapshot = event_sourced.handle_evt(seq_no, &evt);
        proof {
            let snapshots = choose|snapshots: Seq<Option<E::State>>| #[trigger]
                handles(before.start, before.history, before.event_sourced, snapshots);
            lemma_handles_one_more(
                before.start,
                before.history,
                before.event_sourced,
                snapshots,
                (seq_no, evt),
                event_sourced,
                snapshot,
            );
        }
        let entity = Entity {
            event_sourced,
            id,
            last_seq_no,
            start,
            history: Ghost(history@.push((seq_no, evt))),
        };
        let ghost replayed = (seq_no, evt);
        assert(before.event_sourced.may_handle_evt(
            replayed.0,
            replayed.1,
            entity@.event_sourced,
            snapshot,
        ));
        assert(before.replays_one(replayed, entity@));
        entity
    }

    /// Decides on what follows when the persisted events have been handled.
    pub(crate) fn evts_handled<M, B>(
        self,
        evts: Vec<E::Evt>,
        snapshot: Option<(u64, E::State)>,
        metadata: Metadata<M>,
    ) -> (step: CmdStep<E, M, B>)
        ensures
            is_step_after_evts(self@, evts, snapshot, metadata, step),
    {
        match snapshot {
            Some((seq_no, state)) => {
                let request = SaveRequest { id: self.id, seq_no, state, metadata };
                CmdStep::SaveSnapshot(Saving { entity: self, evts }, request)
            },
            None => CmdStep::Reply(self, Ok(evts)),
        }
    }
}

impl<E: EventSourced> Persisting<E> {
    #[verifier::type_invariant]
    closed spec fn inv(&self) -> bool {
        self.evts@.len() > 0
    }

    /// The entity, not changed yet.
    pub closed spec fn entity(&self) -> Entity<E> {
        self.entity
    }

    /// The events to persist.
    pub closed spec fn evts(&self) -> Vec<E::Evt> {
        self.evts
    }

    /// What the event log is asked to persist: at least one event.
    pub fn request(&self) -> (request: PersistRequest<'_, E>)
        ensures
            request.id == self.entity()@.id,
            request.evts@ == self.evts()@,
            request.evts@.len() > 0,
            request.last_seq_no == self.entity()@.last_seq_no,
    {
        proof {
            use_type_invariant(self);
        }
        PersistRequest {
            id: self.entity.id,
            evts: self.evts.as_slice(),
            last_seq_no: self.entity.last_seq_no,
        }
    }

    /// `step` may follow when the event log has answered `persisted`.
    pub open spec fn may_step_to<M, B>(
        self,
        persisted: Result<Metadata<M>, B>,
        step: CmdStep<E, M, B>,
    ) -> bool {
        match persisted {
            Err(error) => step == CmdStep::<E, M, B>::Terminate(error),
            Ok(metadata) => exists|
                next: EntityView<E>,
                snapshots: Seq<Option<E::State>>,
            | #[trigger]
                self.entity()@.applies(self.evts()@, next, snapshots)
                    && next.is_replay_of_history() && is_step_after_evts(
                    next,
                    self.evts(),
                    newest(self.entity()@.last_seq_no, snapshots),
                    metadata,
                    step,
                ),
        }
    }

    /// There are sequence numbers left for the events.
    pub open spec fn fits(self) -> bool {
        self.entity()@.last_seq_no + self.evts()@.len() <= u64::MAX
    }

    /// Takes the answer of the event log.
    ///
    /// If the events could not be persisted the entity terminates, and no event is handled. Else
    /// the event handler is invoked for each event, in order, with consecutive sequence numbers.
    pub fn persisted<M, B>(self, persisted: Result<Metadata<M>, B>) -> (step: CmdStep<E, M, B>)
        requires
            persisted is Ok ==> self.fits(),
        ensures
            self.may_step_to(persisted, step),
            step matches CmdStep::SaveSnapshot(saving, request) ==> self.entity()@.last_seq_no
                < request.seq_no <= saving.entity()@.last_seq_no,
    {
        proof {
            use_type_invariant(&self);
        }
        match persisted {
            Err(error) => CmdStep::Terminate(error),
            Ok(metadata) => {
                let Persisting { entity, evts } = self;
                let (entity, snapshot) = entity.handle_evts(&evts);
                entity.evts_handled(evts, snapshot, metadata)
            },
        }
    }
}

impl<E: EventSourced> Saving<E> {
    /// The entity, which has handled the events.
    pub closed spec fn entity(&self) -> Entity<E> {
        self.entity
    }

    /// The events that have been persisted and handled.
    pub closed spec fn evts(&self) -> Vec<E::Evt> {
        self.evts
    }

    /// `step` follows when the snapshot store has answered `saved`.
    pub open spec fn steps_to<M, B>(self, saved: Result<(), B>, step: CmdStep<E, M, B>) -> bool {
        match saved {
            Err(error) => step == CmdStep::<E, M, B>::Terminate(error),
            Ok(_) => step == CmdStep::<E, M, B>::Reply(self.entity(), Ok(self.evts())),
        }
    }

    /// Takes the answer of the snapshot store: if the snapshot could not be saved the entity
    /// terminates, else the events are the reply.
    pub fn saved<M, B>(self, saved: Result<(), B>) -> (step: CmdStep<E, M, B>)
        ensures
            self.steps_to(saved, step),
    {
        match saved {
            Err(error) => CmdStep::Terminate(error),
            Ok(_) => CmdStep::Reply(self.entity, Ok(self.evts)),
        }
    }
}

} // verus!
