//! Spawning an entity: how it is brought back from its snapshot and its events.
//!
//! First the snapshot store is used to find and possibly load a snapshot. Then the event log is
//! used to find the last sequence number and then to load any remaining events. The store and the
//! log are reached by asynchronous I/O, so spawning goes in steps. Each step is a function that
//! takes what the outside world answered and returns a [SpawnStep], which says what has to be
//! done next:
//!
//! - [EventSourcedExt::spawn] starts;
//! - [Loading::snapshot_loaded] takes the answer of the snapshot store;
//! - [Restored::last_seq_no_found] takes the last sequence number;
//! - [Requested::evts_opened] takes the answer of the event log to the request for events;
//! - [Replaying::next_evt] takes one event after the other.

use crate::entity::{Entity, EntityView, Metadata};
use crate::event_sourced::EventSourced;
use uuid::Uuid;
use vstd::prelude::*;

verus! {

/// A snapshot of an entity.
pub struct Snapshot<S, M> {
    /// The sequence number at which the snapshot was saved.
    pub seq_no: u64,
    /// The snapshot state.
    pub state: S,
    /// The metadata that was saved with it.
    pub metadata: Metadata<M>,
}

/// Errors from spawning an event sourced entity, where `B` is the type of their sources.
#[derive(Debug)]
pub enum SpawnError<B> {
    /// A snapshot cannot be loaded from the snapshot store.
    LoadSnapshot(B),
    /// The last sequence number cannot be obtained from the event log.
    LastSeqNo(B),
    /// Events by ID cannot be obtained from the event log.
    EvtsById(B),
    /// The next event cannot be obtained from the event log.
    NextEvt(B),
}

impl<B> SpawnError<B> {
    /// The message of the error, without its source.
    pub fn message(&self) -> (message: &'static str)
        ensures
            message@ == (match self {
                SpawnError::LoadSnapshot(_) => "Cannot load snapshot from snapshot store"@,
                SpawnError::LastSeqNo(_) => "Cannot get last seqence number from event log"@,
                SpawnError::EvtsById(_) => "Cannot get events by ID from event log"@,
                SpawnError::NextEvt(_) => "Cannot get next event from event log"@,
            }),
    {
        match self {
            SpawnError::LoadSnapshot(_) => "Cannot load snapshot from snapshot store",
            SpawnError::LastSeqNo(_) => "Cannot get last seqence number from event log",
            SpawnError::EvtsById(_) => "Cannot get events by ID from event log",
            SpawnError::NextEvt(_) => "Cannot get next event from event log",
        }
    }
}

/// The entity may be in the state `restored` after its snapshot, if any, was loaded.
pub open spec fn is_restored<E: EventSourced, M>(
    initial: E,
    loaded: Option<Snapshot<E::State, M>>,
    restored: E,
) -> bool {
    match loaded {
        Some(snapshot) => initial.may_set_state(snapshot.state, restored),
        None => restored == initial,
    }
}

/// An entity whose snapshot has to be loaded.
pub struct Loading<E: EventSourced> {
    event_sourced: E,
    id: Uuid,
}

/// An entity that is restored from its snapshot, if there is one.
pub struct Restored<E: EventSourced, M> {
    event_sourced: E,
    id: Uuid,
    seq_no: u64,
    metadata: Metadata<M>,
}

/// An entity for which the event log has been asked for events.
pub struct Requested<E: EventSourced> {
    entity: Entity<E>,
}

/// An entity that replays its events.
pub struct Replaying<E: EventSourced> {
    entity: Entity<E>,
}

/// Which events the event log is asked for.
pub struct EvtsRequest<M> {
    /// The ID of the entity.
    pub id: Uuid,
    /// The sequence number of the first event, never zero.
    pub from_seq_no: u64,
    /// The sequence number of the last event.
    pub to_seq_no: u64,
    /// The metadata of the snapshot.
    pub metadata: Metadata<M>,
}

/// What has to be done next to spawn an entity, where `B` is the type of the sources of errors.
pub enum SpawnStep<E: EventSourced, M, B> {
    /// Get the last sequence number from the event log and hand the answer to
    /// [Restored::last_seq_no_found].
    LastSeqNo(Restored<E, M>),
    /// Ask the event log for the events and hand the answer to [Requested::evts_opened].
    EvtsById(Requested<E>, EvtsRequest<M>),
    /// Get the next event and hand it to [Replaying::next_evt].
    NextEvt(Replaying<E>),
    /// The entity is ready for commands.
    Created(Entity<E>),
    /// The entity cannot be spawned.
    Failed(SpawnError<B>),
}

/// Extension methods for types implementing [EventSourced].
pub trait EventSourcedExt: Sized {
    /// Starts to spawn an entity implementing [EventSourced] with the given ID: its snapshot has
    /// to be loaded.
    fn spawn(self, id: Uuid) -> (loading: Loading<Self>) where Self: EventSourced
        ensures
            loading.spec_id() == id,
            loading.event_sourced() == self,
    ;
}

impl<E: EventSourced> EventSourcedExt for E {
    fn spawn(self, id: Uuid) -> (loading: Loading<Self>) {
        Loading { event_sourced: self, id }
    }
}

impl<E: EventSourced> Loading<E> {
    /// The entity as it was given to [EventSourcedExt::spawn].
    pub closed spec fn event_sourced(&self) -> E {
        self.event_sourced
    }

    /// The ID of the entity.
    pub closed spec fn spec_id(&self) -> Uuid {
        self.id
    }

    /// The ID of the entity whose snapshot has to be loaded.
    pub fn id(&self) -> (id: Uuid)
        ensures
            id == self.spec_id(),
    {
        self.id
    }

    /// Takes the answer of the snapshot store.
    ///
    /// If there is a snapshot its state is restored. If there is none the entity stays as it is,
    /// at sequence number zero.
    pub fn snapshot_loaded<M, B>(
        self,
        loaded: Result<Option<Snapshot<E::State, M>>, B>,
    ) -> (step: SpawnStep<E, M, B>)
        ensures
            match loaded {
                Err(source) => step == SpawnStep::<E, M, B>::Failed(
                    SpawnError::LoadSnapshot(source),
                ),
                Ok(snapshot) => {
                    &&& step matches SpawnStep::LastSeqNo(restored)
                    &&& restored.spec_id() == self.spec_id()
                    &&& is_restored(self.event_sourced(), snapshot, restored.event_sourced())
                    &&& restored.spec_seq_no() == (match snapshot {
                        Some(snapshot) => snapshot.seq_no,
                        None => 0u64,
                    })
                    &&& restored.metadata() == (match snapshot {
                        Some(snapshot) => snapshot.metadata,
                        None => None,
                    })
                },
            },
    {
        let Loading { event_sourced, id } = self;
        match loaded {
            Err(source) => SpawnStep::Failed(SpawnError::LoadSnapshot(source)),
            Ok(Some(snapshot)) => {
                let Snapshot { seq_no, state, metadata } = snapshot;
                let mut event_sourced = event_sourced;
                event_sourced.set_state(state);
                SpawnStep::LastSeqNo(Restored { event_sourced, id, seq_no, metadata })
            },
            Ok(None) => SpawnStep::LastSeqNo(
                Restored { event_sourced, id, seq_no: 0, metadata: None },
            ),
        }
    }
}

impl<E: EventSourced, M> Restored<E, M> {
    /// The state of the entity.
    pub closed spec fn event_sourced(&self) -> E {
        self.event_sourced
    }

    /// The ID of the entity.
    pub closed spec fn spec_id(&self) -> Uuid {
        self.id
    }

    /// The sequence number of the snapshot, or zero.
    pub closed spec fn spec_seq_no(&self) -> u64 {
        self.seq_no
    }

    /// The metadata of the snapshot.
    pub closed spec fn metadata(&self) -> Metadata<M> {
        self.metadata
    }

    /// The ID of the entity whose last sequence number is needed.
    pub fn id(&self) -> (id: Uuid)
        ensures
            id == self.spec_id(),
    {
        self.id
    }

    /// The sequence number of the snapshot, or zero if there is none. The last sequence number of
    /// the event log must not be less.
    pub fn seq_no(&self) -> (seq_no: u64)
        ensures
            seq_no == self.spec_seq_no(),
    {
        self.seq_no
    }

    /// Takes the last sequence number from the event log.
    ///
    /// If it is that of the snapshot the entity is ready; else the event log is asked for exactly
    /// the events after the snapshot.
    pub fn last_seq_no_found<B>(self, last_seq_no: Result<u64, B>) -> (step: SpawnStep<E, M, B>)
        requires
            last_seq_no matches Ok(last_seq_no) ==> self.spec_seq_no() <= last_seq_no,
        ensures
            match last_seq_no {
                Err(source) => step == SpawnStep::<E, M, B>::Failed(SpawnError::LastSeqNo(source)),
                Ok(last_seq_no) => {
                    let entity = EntityView {
                        id: self.spec_id(),
                        last_seq_no,
                        event_sourced: self.event_sourced(),
                        start: self.event_sourced(),
                        history: Seq::empty(),
                    };
                    if self.spec_seq_no() == last_seq_no {
                        step matches SpawnStep::Created(created) && created@ == entity
                    } else {
                        &&& step matches SpawnStep::EvtsById(requested, request)
                        &&& requested.entity()@ == entity
                        &&& request.id == self.spec_id()
                        &&& request.from_seq_no == self.spec_seq_no() + 1
                        &&& request.to_seq_no == last_seq_no
                        &&& request.metadata == self.metadata()
                    }
                },
            },
            step matches SpawnStep::Created(created) ==> created@.is_replay_of_history(),
    {
        let Restored { event_sourced, id, seq_no, metadata } = self;
        match last_seq_no {
            Err(source) => SpawnStep::Failed(SpawnError::LastSeqNo(source)),
            Ok(last_seq_no) => {
                let entity = Entity::new(event_sourced, id, last_seq_no);
                proof {
                    use_type_invariant(&entity);
                }
                if seq_no < last_seq_no {
                    let request = EvtsRequest {
                        id,
                        from_seq_no: seq_no + 1,
                        to_seq_no: last_seq_no,
                        metadata,
                    };
                    SpawnStep::EvtsById(Requested { entity }, request)
                } else {
                    SpawnStep::Created(entity)
                }
            },
        }
    }
}

impl<E: EventSourced> Requested<E> {
    /// The entity, which has handled no event yet.
    pub closed spec fn entity(&self) -> Entity<E> {
        self.entity
    }

    /// Takes the answer of the event log: either events follow, or they cannot be obtained.
    pub fn evts_opened<M, B>(self, opened: Result<(), B>) -> (step: SpawnStep<E, M, B>)
        ensures
            match opened {
                Err(source) => step == SpawnStep::<E, M, B>::Failed(SpawnError::EvtsById(source)),
                Ok(_) => step matches SpawnStep::NextEvt(replaying) && replaying.entity()
                    == self.entity(),
            },
    {
        match opened {
            Err(source) => SpawnStep::Failed(SpawnError::EvtsById(source)),
            Ok(_) => SpawnStep::NextEvt(Replaying { entity: self.entity }),
        }
    }
}

impl<E: EventSourced> Replaying<E> {
    /// The entity, which has handled the events so far.
    pub closed spec fn entity(&self) -> Entity<E> {
        self.entity
    }

    /// Takes the next event from the event log, with its sequence number, or `None` if there are
    /// no more events; then the entity is ready.
    pub fn next_evt<M, B>(self, next: Option<Result<(u64, E::Evt), B>>) -> (step: SpawnStep<
        E,
        M,
        B,
    >)
        ensures
            match next {
                None => step == SpawnStep::<E, M, B>::Created(self.entity()),
                Some(Err(source)) => step == SpawnStep::<E, M, B>::Failed(
                    SpawnError::NextEvt(source),
                ),
                Some(Ok((seq_no, evt))) => {
                    &&& step matches SpawnStep::NextEvt(replaying)
                    &&& self.entity()@.replays_one((seq_no, evt), replaying.entity()@)
                    &&& replaying.entity()@.is_replay_of_history()
                },
            },
            step matches SpawnStep::Created(created) ==> created@.is_replay_of_history(),
    {
        proof {
            use_type_invariant(&self.entity);
        }
        match next {
            None => SpawnStep::Created(self.entity),
            Some(Err(source)) => SpawnStep::Failed(SpawnError::NextEvt(source)),
            Some(Ok((seq_no, evt))) => SpawnStep::NextEvt(
                Replaying { entity: self.entity.replay_evt(seq_no, evt) },
            ),
        }
    }
}

} // verus!
