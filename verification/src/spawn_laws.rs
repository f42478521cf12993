//! What spawning does, in terms of what its steps are given and what they return.
//!
//! A step is spoken of by `call_ensures`: a call of the function with these arguments may return
//! this value.

use crate::entity::Entity;
use crate::event_sourced::EventSourced;
use crate::history::{handles, is_run, replays};
use crate::lives::Life;
use crate::spawn::{
    EventSourcedExt, EvtsRequest, Loading, Replaying, Requested, Restored, Snapshot, SpawnError,
    SpawnStep,
};
use uuid::Uuid;
use vstd::prelude::*;

verus! {

/// To spawn an entity its snapshot is loaded. If that fails, spawning fails. If there is one, its
/// state is set on the entity, and its sequence number and metadata are kept. If there is none, the
/// entity stays as it was given, at sequence number zero and without metadata.
pub proof fn spawning_restores_snapshot<E: EventSourced, M, B>(
    initial: E,
    id: Uuid,
    loading: Loading<E>,
    loaded: Result<Option<Snapshot<E::State, M>>, B>,
    step: SpawnStep<E, M, B>,
)
    requires
        call_ensures(<E as EventSourcedExt>::spawn, (initial, id), loading),
        call_ensures(Loading::<E>::snapshot_loaded::<M, B>, (loading, loaded), step),
    ensures
        forall|asked: Uuid| #[trigger]
            call_ensures(Loading::<E>::id, (&loading,), asked) ==> asked == id,
        match loaded {
            Err(source) => step == SpawnStep::<E, M, B>::Failed(SpawnError::LoadSnapshot(source)),
            Ok(Some(snapshot)) => {
                &&& step matches SpawnStep::LastSeqNo(restored)
                &&& initial.may_set_state(snapshot.state, restored.event_sourced())
                &&& restored.spec_id() == id
                &&& restored.spec_seq_no() == snapshot.seq_no
                &&& restored.metadata() == snapshot.metadata
            },
            Ok(None) => {
                &&& step matches SpawnStep::LastSeqNo(restored)
                &&& restored.event_sourced() == initial
                &&& restored.spec_id() == id
                &&& restored.spec_seq_no() == 0
                &&& restored.metadata() is None
            },
        },
{
}

/// The event log is asked for exactly the events after the snapshot, up to the last one, and only
/// if there are such events. Without them the entity is ready as it was restored.
pub proof fn spawning_asks_for_later_events<E: EventSourced, M, B>(
    restored: Restored<E, M>,
    last_seq_no: Result<u64, B>,
    step: SpawnStep<E, M, B>,
)
    requires
        last_seq_no matches Ok(last) ==> restored.spec_seq_no() <= last,
        call_ensures(Restored::<E, M>::last_seq_no_found::<B>, (restored, last_seq_no), step),
    ensures
        forall|asked: Uuid| #[trigger]
            call_ensures(Restored::<E, M>::id, (&restored,), asked) ==> asked
                == restored.spec_id(),
        forall|seq_no: u64| #[trigger]
            call_ensures(Restored::<E, M>::seq_no, (&restored,), seq_no) ==> seq_no
                == restored.spec_seq_no(),
        match last_seq_no {
            Err(source) => step == SpawnStep::<E, M, B>::Failed(SpawnError::LastSeqNo(source)),
            Ok(last) => {
                &&& restored.spec_seq_no() == last ==> {
                    &&& step matches SpawnStep::Created(entity)
                    &&& entity@.id == restored.spec_id()
                    &&& entity@.last_seq_no == last
                    &&& entity@.event_sourced == restored.event_sourced()
                    &&& entity@.start == restored.event_sourced()
                    &&& entity@.history.len() == 0
                }
                &&& restored.spec_seq_no() < last ==> {
                    &&& step matches SpawnStep::EvtsById(requested, request)
                    &&& requested.entity()@.id == restored.spec_id()
                    &&& requested.entity()@.last_seq_no == last
                    &&& requested.entity()@.event_sourced == restored.event_sourced()
                    &&& requested.entity()@.start == restored.event_sourced()
                    &&& requested.entity()@.history.len() == 0
                    &&& request.id == restored.spec_id()
                    &&& request.from_seq_no == restored.spec_seq_no() + 1
                    &&& request.to_seq_no == last
                    &&& request.metadata == restored.metadata()
                }
            },
        },
{
}

/// If the event log cannot hand out the events, spawning fails; else they are replayed, beginning
/// with the entity as it was restored.
pub proof fn spawning_opens_events<E: EventSourced, M, B>(
    requested: Requested<E>,
    opened: Result<(), B>,
    step: SpawnStep<E, M, B>,
)
    requires
        call_ensures(Requested::<E>::evts_opened::<M, B>, (requested, opened), step),
    ensures
        match opened {
            Err(source) => step == SpawnStep::<E, M, B>::Failed(SpawnError::EvtsById(source)),
            Ok(_) => step matches SpawnStep::NextEvt(replaying) && replaying.entity()
                == requested.entity(),
        },
{
}

/// Each event that the event log hands out is given to the event handler, under the sequence number
/// that came with it, and none is left out. When there are no more events the entity is ready as
/// it is.
pub proof fn spawning_replays_event<E: EventSourced, M, B>(
    replaying: Replaying<E>,
    next: Option<Result<(u64, E::Evt), B>>,
    step: SpawnStep<E, M, B>,
)
    requires
        call_ensures(Replaying::<E>::next_evt::<M, B>, (replaying, next), step),
    ensures
        match next {
            None => step == SpawnStep::<E, M, B>::Created(replaying.entity()),
            Some(Err(source)) => step == SpawnStep::<E, M, B>::Failed(SpawnError::NextEvt(source)),
            Some(Ok(evt)) => {
                &&& step matches SpawnStep::NextEvt(replayed)
                &&& replayed.entity()@.id == replaying.entity()@.id
                &&& replayed.entity()@.last_seq_no == replaying.entity()@.last_seq_no
                &&& replayed.entity()@.start == replaying.entity()@.start
                &&& replayed.entity()@.history == replaying.entity()@.history.push(evt)
                &&& exists|snapshot: Option<E::State>| #[trigger]
                    replaying.entity()@.event_sourced.may_handle_evt(
                        evt.0,
                        evt.1,
                        replayed.entity()@.event_sourced,
                        snapshot,
                    )
            },
        },
{
}

/// Replaying the events `evts` hands each of them to the event handler, in this order and under the
/// sequence number that came with it: there are states, from that before the first event to that
/// after the last one, of which each follows from the one before by its event.
pub proof fn replaying_handles_all_events<E: EventSourced, M, B>(
    replayings: Seq<Replaying<E>>,
    evts: Seq<(u64, E::Evt)>,
    entity: Entity<E>,
)
    requires
        replayings.len() == evts.len() + 1,
        forall|i: int|
            0 <= i < evts.len() ==> call_ensures(
                Replaying::<E>::next_evt::<M, B>,
                (#[trigger] replayings[i], Some(Ok::<(u64, E::Evt), B>(evts[i]))),
                SpawnStep::<E, M, B>::NextEvt(replayings[i + 1]),
            ),
        call_ensures(
            Replaying::<E>::next_evt::<M, B>,
            (replayings.last(), None::<Result<(u64, E::Evt), B>>),
            SpawnStep::<E, M, B>::Created(entity),
        ),
    ensures
        entity@.id == replayings[0].entity()@.id,
        entity@.last_seq_no == replayings[0].entity()@.last_seq_no,
        entity@.start == replayings[0].entity()@.start,
        entity@.history == replayings[0].entity()@.history + evts,
        exists|states: Seq<E>, snapshots: Seq<Option<E::State>>|
            #![trigger states.len(), snapshots.len()]
            {
                &&& states.len() == evts.len() + 1
                &&& states[0] == replayings[0].entity()@.event_sourced
                &&& states[evts.len() as int] == entity@.event_sourced
                &&& forall|i: int|
                    0 <= i < evts.len() ==> (#[trigger] states[i]).may_handle_evt(
                        evts[i].0,
                        evts[i].1,
                        states[i + 1],
                        snapshots[i],
                    )
            },
{
    let n = evts.len() as int;
    spawning_replays_event::<E, M, B>(
        replayings[n],
        None,
        SpawnStep::<E, M, B>::Created(entity),
    );
    let (states, snapshots) = lemma_replayed_states::<E, M, B>(replayings, evts, n);
    assert(evts.take(n) =~= evts);
    assert(states.len() == n + 1 && snapshots.len() == n);
}

/// The states of a replay after its first `n` events.
proof fn lemma_replayed_states<E: EventSourced, M, B>(
    replayings: Seq<Replaying<E>>,
    evts: Seq<(u64, E::Evt)>,
    n: int,
) -> (run: (Seq<E>, Seq<Option<E::State>>))
    requires
        replayings.len() == evts.len() + 1,
        0 <= n <= evts.len(),
        forall|i: int|
            0 <= i < evts.len() ==> call_ensures(
                Replaying::<E>::next_evt::<M, B>,
                (#[trigger] replayings[i], Some(Ok::<(u64, E::Evt), B>(evts[i]))),
                SpawnStep::<E, M, B>::NextEvt(replayings[i + 1]),
            ),
    ensures
        replayings[n].entity()@.id == replayings[0].entity()@.id,
        replayings[n].entity()@.last_seq_no == replayings[0].entity()@.last_seq_no,
        replayings[n].entity()@.start == replayings[0].entity()@.start,
        replayings[n].entity()@.history == replayings[0].entity()@.history + evts.take(n),
        run.0.len() == n + 1,
        run.1.len() == n,
        run.0[0] == replayings[0].entity()@.event_sourced,
        run.0[n] == replayings[n].entity()@.event_sourced,
        forall|i: int|
            0 <= i < n ==> (#[trigger] run.0[i]).may_handle_evt(
                evts[i].0,
                evts[i].1,
                run.0[i + 1],
                run.1[i],
            ),
    decreases n,
{
    if n == 0 {
        assert(replayings[0].entity()@.history =~= replayings[0].entity()@.history + evts.take(0));
        (seq![replayings[0].entity()@.event_sourced], Seq::empty())
    } else {
        let (states, snapshots) = lemma_replayed_states::<E, M, B>(replayings, evts, n - 1);
        let before = replayings[n - 1];
        let after = replayings[n];
        let evt = evts[n - 1];
        spawning_replays_event::<E, M, B>(
            before,
            Some(Ok(evt)),
            SpawnStep::<E, M, B>::NextEvt(after),
        );
        let snapshot = choose|snapshot: Option<E::State>| #[trigger]
            before.entity()@.event_sourced.may_handle_evt(
                evt.0,
                evt.1,
                after.entity()@.event_sourced,
                snapshot,
            );
        assert(evts.take(n) =~= evts.take(n - 1).push(evt));
        assert(replayings[0].entity()@.history + evts.take(n) =~= (
        replayings[0].entity()@.history + evts.take(n - 1)).push(evt));
        let states1 = states.push(after.entity()@.event_sourced);
        let snapshots1 = snapshots.push(snapshot);
        assert forall|i: int| 0 <= i < n implies (#[trigger] states1[i]).may_handle_evt(
            evts[i].0,
            evts[i].1,
            states1[i + 1],
            snapshots1[i],
        ) by {
            assert(states1[i] == states[i]);
            if i < n - 1 {
                assert(states1[i + 1] == states[i + 1]);
            }
        }
        (states1, snapshots1)
    }
}

/// Spawning an entity, from beginning to end, where the event log has events after the snapshot and
/// hands out `evts`: the entity has the given ID and the last sequence number of the event log, it
/// starts from the given entity with the snapshot state set, if there is one, and it has handled
/// exactly `evts`, in this order.
pub proof fn spawned_entity_has_handled_all_events<E: EventSourced, M, B>(
    initial: E,
    id: Uuid,
    loading: Loading<E>,
    loaded: Option<Snapshot<E::State, M>>,
    restored: Restored<E, M>,
    last_seq_no: u64,
    requested: Requested<E>,
    request: EvtsRequest<M>,
    replayings: Seq<Replaying<E>>,
    evts: Seq<(u64, E::Evt)>,
    entity: Entity<E>,
)
    requires
        call_ensures(<E as EventSourcedExt>::spawn, (initial, id), loading),
        call_ensures(
            Loading::<E>::snapshot_loaded::<M, B>,
            (loading, Ok::<Option<Snapshot<E::State, M>>, B>(loaded)),
            SpawnStep::<E, M, B>::LastSeqNo(restored),
        ),
        (match loaded {
            Some(snapshot) => snapshot.seq_no,
            None => 0u64,
        }) <= last_seq_no,
        call_ensures(
            Restored::<E, M>::last_seq_no_found::<B>,
            (restored, Ok::<u64, B>(last_seq_no)),
            SpawnStep::<E, M, B>::EvtsById(requested, request),
        ),
        replayings.len() == evts.len() + 1,
        call_ensures(
            Requested::<E>::evts_opened::<M, B>,
            (requested, Ok::<(), B>(())),
            SpawnStep::<E, M, B>::NextEvt(replayings[0]),
        ),
        forall|i: int|
            0 <= i < evts.len() ==> call_ensures(
                Replaying::<E>::next_evt::<M, B>,
                (#[trigger] replayings[i], Some(Ok::<(u64, E::Evt), B>(evts[i]))),
                SpawnStep::<E, M, B>::NextEvt(replayings[i + 1]),
            ),
        call_ensures(
            Replaying::<E>::next_evt::<M, B>,
            (replayings.last(), None::<Result<(u64, E::Evt), B>>),
            SpawnStep::<E, M, B>::Created(entity),
        ),
    ensures
        request.id == id,
        request.to_seq_no == last_seq_no,
        match loaded {
            Some(snapshot) => {
                &&& request.from_seq_no == snapshot.seq_no + 1
                &&& request.metadata == snapshot.metadata
                &&& initial.may_set_state(snapshot.state, entity@.start)
            },
            None => {
                &&& request.from_seq_no == 1
                &&& request.metadata is None
                &&& entity@.start == initial
            },
        },
        entity@.id == id,
        entity@.last_seq_no == last_seq_no,
        entity@.history == evts,
        exists|states: Seq<E>, snapshots: Seq<Option<E::State>>|
            #![trigger states.len(), snapshots.len()]
            {
                &&& states.len() == evts.len() + 1
                &&& states[0] == entity@.start
                &&& states[evts.len() as int] == entity@.event_sourced
                &&& forall|i: int|
                    0 <= i < evts.len() ==> (#[trigger] states[i]).may_handle_evt(
                        evts[i].0,
                        evts[i].1,
                        states[i + 1],
                        snapshots[i],
                    )
            },
{
    spawning_restores_snapshot::<E, M, B>(
        initial,
        id,
        loading,
        Ok(loaded),
        SpawnStep::<E, M, B>::LastSeqNo(restored),
    );
    spawning_asks_for_later_events::<E, M, B>(
        restored,
        Ok(last_seq_no),
        SpawnStep::<E, M, B>::EvtsById(requested, request),
    );
    spawning_opens_events::<E, M, B>(
        requested,
        Ok(()),
        SpawnStep::<E, M, B>::NextEvt(replayings[0]),
    );
    replaying_handles_all_events::<E, M, B>(replayings, evts, entity);
    assert(replayings[0].entity()@.history + evts =~= evts);
}

/// Spawning an entity, from beginning to end, where the event log has no events after the snapshot:
/// the entity has the given ID and the last sequence number of the event log, and it is the given
/// entity with the snapshot state set, if there is one.
pub proof fn spawned_entity_is_restored<E: EventSourced, M, B>(
    initial: E,
    id: Uuid,
    loading: Loading<E>,
    loaded: Option<Snapshot<E::State, M>>,
    restored: Restored<E, M>,
    last_seq_no: u64,
    entity: Entity<E>,
)
    requires
        call_ensures(<E as EventSourcedExt>::spawn, (initial, id), loading),
        call_ensures(
            Loading::<E>::snapshot_loaded::<M, B>,
            (loading, Ok::<Option<Snapshot<E::State, M>>, B>(loaded)),
            SpawnStep::<E, M, B>::LastSeqNo(restored),
        ),
        (match loaded {
            Some(snapshot) => snapshot.seq_no,
            None => 0u64,
        }) <= last_seq_no,
        call_ensures(
            Restored::<E, M>::last_seq_no_found::<B>,
            (restored, Ok::<u64, B>(last_seq_no)),
            SpawnStep::<E, M, B>::Created(entity),
        ),
    ensures
        match loaded {
            Some(snapshot) => {
                &&& last_seq_no == snapshot.seq_no
                &&& initial.may_set_state(snapshot.state, entity@.event_sourced)
            },
            None => last_seq_no == 0 && entity@.event_sourced == initial,
        },
        entity@.id == id,
        entity@.last_seq_no == last_seq_no,
        entity@.start == entity@.event_sourced,
        entity@.history.len() == 0,
{
    spawning_restores_snapshot::<E, M, B>(
        initial,
        id,
        loading,
        Ok(loaded),
        SpawnStep::<E, M, B>::LastSeqNo(restored),
    );
    spawning_asks_for_later_events::<E, M, B>(
        restored,
        Ok(last_seq_no),
        SpawnStep::<E, M, B>::Created(entity),
    );
}

/// Spawning from an event log and a snapshot store that hold what `life` says, where the event log
/// hands out exactly the events that it is asked for, gives an entity that `life` may spawn.
pub proof fn spawned_entity_fits_life<E: EventSourced, M, B>(
    initial: E,
    id: Uuid,
    loading: Loading<E>,
    life: Life<E, M>,
    restored: Restored<E, M>,
    requested: Requested<E>,
    request: EvtsRequest<M>,
    replayings: Seq<Replaying<E>>,
    entity: Entity<E>,
)
    requires
        life.evts.len() <= u64::MAX,
        life.snapshot matches Some(snapshot) ==> snapshot.seq_no <= life.evts.len(),
        call_ensures(<E as EventSourcedExt>::spawn, (initial, id), loading),
        call_ensures(
            Loading::<E>::snapshot_loaded::<M, B>,
            (loading, Ok::<Option<Snapshot<E::State, M>>, B>(life.snapshot)),
            SpawnStep::<E, M, B>::LastSeqNo(restored),
        ),
        call_ensures(
            Restored::<E, M>::last_seq_no_found::<B>,
            (restored, Ok::<u64, B>(life.evts.len() as u64)),
            SpawnStep::<E, M, B>::EvtsById(requested, request),
        ),
        replayings.len() == request.to_seq_no - request.from_seq_no + 2,
        call_ensures(
            Requested::<E>::evts_opened::<M, B>,
            (requested, Ok::<(), B>(())),
            SpawnStep::<E, M, B>::NextEvt(replayings[0]),
        ),
        forall|i: int|
            0 <= i < replayings.len() - 1 ==> call_ensures(
                Replaying::<E>::next_evt::<M, B>,
                (
                    #[trigger] replayings[i],
                    Some(
                        Ok::<(u64, E::Evt), B>(
                            (
                                (request.from_seq_no + i) as u64,
                                life.evts[request.from_seq_no + i - 1],
                            ),
                        ),
                    ),
                ),
                SpawnStep::<E, M, B>::NextEvt(replayings[i + 1]),
            ),
        call_ensures(
            Replaying::<E>::next_evt::<M, B>,
            (replayings.last(), None::<Result<(u64, E::Evt), B>>),
            SpawnStep::<E, M, B>::Created(entity),
        ),
    ensures
        life.may_spawn(initial, entity@),
{
    let last_seq_no = life.evts.len() as u64;
    let n = (replayings.len() - 1) as nat;
    let evts = Seq::new(
        n,
        |i: int| ((request.from_seq_no + i) as u64, life.evts[request.from_seq_no + i - 1]),
    );
    assert forall|i: int| 0 <= i < evts.len() implies call_ensures(
        Replaying::<E>::next_evt::<M, B>,
        (#[trigger] replayings[i], Some(Ok::<(u64, E::Evt), B>(evts[i]))),
        SpawnStep::<E, M, B>::NextEvt(replayings[i + 1]),
    ) by {}
    spawning_restores_snapshot::<E, M, B>(
        initial,
        id,
        loading,
        Ok(life.snapshot),
        SpawnStep::<E, M, B>::LastSeqNo(restored),
    );
    spawning_asks_for_later_events::<E, M, B>(
        restored,
        Ok(last_seq_no),
        SpawnStep::<E, M, B>::EvtsById(requested, request),
    );
    spawned_entity_has_handled_all_events::<E, M, B>(
        initial,
        id,
        loading,
        life.snapshot,
        restored,
        last_seq_no,
        requested,
        request,
        replayings,
        evts,
        entity,
    );
    let (states, snapshots) = lemma_replayed_states::<E, M, B>(replayings, evts, n as int);
    assert(evts.take(n as int) =~= evts);
    spawning_opens_events::<E, M, B>(
        requested,
        Ok(()),
        SpawnStep::<E, M, B>::NextEvt(replayings[0]),
    );
    spawning_replays_event::<E, M, B>(
        replayings.last(),
        None,
        SpawnStep::<E, M, B>::Created(entity),
    );
    assert(is_run(states, evts, snapshots));
    assert(states.first() == entity@.start && states.last() == entity@.event_sourced);
    assert(handles(entity@.start, evts, entity@.event_sourced, snapshots));
    assert(replays(entity@.start, evts, entity@.event_sourced));
    assert(life.log().skip(life.snapshot_seq_no() as int) =~= evts);
}

/// The steps of spawning may be taken whenever the last sequence number of the event log is not
/// less than that of the snapshot.
pub proof fn spawning_steps_may_be_taken<E: EventSourced, M, B>(
    initial: E,
    id: Uuid,
    loading: Loading<E>,
    loaded: Result<Option<Snapshot<E::State, M>>, B>,
    restored: Restored<E, M>,
    last_seq_no: Result<u64, B>,
    requested: Requested<E>,
    opened: Result<(), B>,
    replaying: Replaying<E>,
    next: Option<Result<(u64, E::Evt), B>>,
)
    requires
        last_seq_no matches Ok(last) ==> restored.spec_seq_no() <= last,
    ensures
        call_requires(<E as EventSourcedExt>::spawn, (initial, id)),
        call_requires(Loading::<E>::snapshot_loaded::<M, B>, (loading, loaded)),
        call_requires(Restored::<E, M>::last_seq_no_found::<B>, (restored, last_seq_no)),
        call_requires(Requested::<E>::evts_opened::<M, B>, (requested, opened)),
        call_requires(Replaying::<E>::next_evt::<M, B>, (replaying, next)),
{
}

} // verus!
