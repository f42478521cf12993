//! What holds of an entity over all its lives: over any number of commands and of spawnings.

use crate::entity::EntityView;
use crate::event_sourced::EventSourced;
use crate::history::{
    handles, handles_in_two_parts, handles_up_to, is_newest, lemma_handles_nothing, newest,
    newest_snapshot_is_last, numbered, replays,
};
use crate::laws::{handling_is_deterministic, is_deterministic, restores, snapshot_replaces_replay};
use crate::spawn::{is_restored, Snapshot};
use vstd::prelude::*;

verus! {

/// What the event log and the snapshot store hold of an entity, and the entity itself while it is
/// alive.
pub struct Life<E: EventSourced, M> {
    /// The events in the event log; the first one has the sequence number one.
    pub evts: Seq<E::Evt>,
    /// The latest snapshot in the snapshot store.
    pub snapshot: Option<Snapshot<E::State, M>>,
    /// The entity, unless it is not spawned or has terminated.
    pub entity: Option<EntityView<E>>,
}

impl<E: EventSourced, M> Life<E, M> {
    /// The events in the event log, with their sequence numbers.
    pub open spec fn log(self) -> Seq<(u64, E::Evt)> {
        numbered(0, self.evts)
    }

    /// The sequence number of the latest snapshot, or zero.
    pub open spec fn snapshot_seq_no(self) -> u64 {
        match self.snapshot {
            Some(snapshot) => snapshot.seq_no,
            None => 0,
        }
    }

    /// `entity` may be what comes of spawning `initial` from the snapshot store and the event log:
    /// its snapshot is restored, if there is one, and the events after it are replayed.
    pub open spec fn may_spawn(self, initial: E, entity: EntityView<E>) -> bool {
        &&& is_restored(initial, self.snapshot, entity.start)
        &&& entity.last_seq_no == self.evts.len()
        &&& self.snapshot_seq_no() <= entity.last_seq_no
        &&& entity.history == self.log().skip(self.snapshot_seq_no() as int)
        &&& entity.is_replay_of_history()
    }

    /// The entity is spawned from `initial`, for the first time or again.
    pub open spec fn spawns(self, initial: E, next: Life<E, M>) -> bool {
        &&& next.evts == self.evts
        &&& next.snapshot == self.snapshot
        &&& next.entity matches Some(entity) && self.may_spawn(initial, entity)
    }

    /// The entity handles a command with the events `evts`, for which the event handler returns
    /// `snapshots`. The events are persisted, and the newest snapshot is saved if there is one. If
    /// it cannot be saved the entity terminates.
    pub open spec fn handles_cmd(
        self,
        evts: Seq<E::Evt>,
        after: EntityView<E>,
        snapshots: Seq<Option<E::State>>,
        next: Life<E, M>,
    ) -> bool {
        &&& self.entity matches Some(before) && before.applies(evts, after, snapshots)
        &&& next.evts == self.evts + evts
        &&& match newest(self.entity->0.last_seq_no, snapshots) {
            None => next.snapshot == self.snapshot && next.entity == Some(after),
            Some((seq_no, state)) => {
                ||| (next.snapshot matches Some(saved) && saved.seq_no == seq_no && saved.state
                    == state && next.entity == Some(after))
                ||| (next.snapshot == self.snapshot && next.entity is None)
            },
        }
    }

    /// The entity terminates, with nothing stored since it handled its last command.
    pub open spec fn terminates(self, next: Life<E, M>) -> bool {
        &&& next.evts == self.evts
        &&& next.snapshot == self.snapshot
        &&& next.entity is None
    }

    /// `next` may come after this in the life of an entity that is always spawned from `initial`.
    pub open spec fn may_become(self, initial: E, next: Life<E, M>) -> bool {
        ||| self.spawns(initial, next)
        ||| exists|evts: Seq<E::Evt>, after: EntityView<E>, snapshots: Seq<Option<E::State>>|
            self.handles_cmd(evts, after, snapshots, next)
        ||| self.terminates(next)
    }

    /// With the events in the event log the entity gets from `initial` to `end`; the latest
    /// snapshot is what the event handler returns on the way for the event with its sequence
    /// number; and the entity, while it is alive, is at the end of this way.
    pub open spec fn is_on_the_way(
        self,
        initial: E,
        end: E,
        snapshots: Seq<Option<E::State>>,
    ) -> bool {
        &&& self.evts.len() <= u64::MAX
        &&& handles(initial, self.log(), end, snapshots)
        &&& self.snapshot matches Some(snapshot) ==> 0 < snapshot.seq_no <= self.evts.len()
            && snapshots[snapshot.seq_no - 1] == Some(snapshot.state)
        &&& self.entity matches Some(entity) ==> entity.event_sourced == end && entity.last_seq_no
            == self.evts.len()
    }
}

/// The lives of an entity that is always spawned from `initial`, from when nothing was stored on:
/// any number of spawnings, commands and terminations.
pub open spec fn are_lives<E: EventSourced, M>(initial: E, lives: Seq<Life<E, M>>) -> bool {
    &&& lives.len() > 0
    &&& lives[0].evts.len() == 0
    &&& lives[0].snapshot is None
    &&& lives[0].entity is None
    &&& forall|i: int|
        0 < i < lives.len() ==> lives[i - 1].may_become(initial, #[trigger] lives[i])
}

/// Spawning an entity again brings it back.
///
/// Whatever commands an entity has handled, and however often it has terminated and was spawned:
/// spawning it from the event log and the snapshot store gives an entity in the state and with the
/// last sequence number of the one that is alive.
pub proof fn spawning_always_recovers_entity<E: EventSourced, M>(
    initial: E,
    lives: Seq<Life<E, M>>,
    entity: EntityView<E>,
    recovered: EntityView<E>,
)
    requires
        is_deterministic::<E>(),
        restores(initial, initial),
        are_lives(initial, lives),
        lives.last().entity == Some(entity),
        lives.last().may_spawn(initial, recovered),
    ensures
        recovered.event_sourced == entity.event_sourced,
        recovered.last_seq_no == entity.last_seq_no,
{
    let (end, snapshots) = lives_stay_on_the_way(initial, lives, lives.len() - 1);
    lemma_spawn_is_at_end(initial, lives.last(), end, snapshots, recovered);
}

/// At any time in the lives of an entity, what is stored and the entity that is alive fit together:
/// the events in the event log lead from `initial` to the state of the entity, and the snapshot is
/// one that is taken on the way.
pub proof fn lives_stay_on_the_way<E: EventSourced, M>(
    initial: E,
    lives: Seq<Life<E, M>>,
    i: int,
) -> (way: (E, Seq<Option<E::State>>))
    requires
        is_deterministic::<E>(),
        restores(initial, initial),
        are_lives(initial, lives),
        0 <= i < lives.len(),
    ensures
        lives[i].is_on_the_way(initial, way.0, way.1),
    decreases i,
{
    if i == 0 {
        lemma_handles_nothing(initial);
        assert(lives[0].log() =~= Seq::empty());
        (initial, Seq::empty())
    } else {
        let (end, snapshots) = lives_stay_on_the_way(initial, lives, i - 1);
        let life = lives[i - 1];
        let next = lives[i];
        assert(life.may_become(initial, next));
        if life.spawns(initial, next) {
            lemma_spawn_is_at_end(initial, life, end, snapshots, next.entity->0);
            (end, snapshots)
        } else if life.terminates(next) {
            (end, snapshots)
        } else {
            let (evts, after, new_snapshots) = choose|
                evts: Seq<E::Evt>,
                after: EntityView<E>,
                new_snapshots: Seq<Option<E::State>>,
            |
                life.handles_cmd(evts, after, new_snapshots, next);
            lemma_cmd_stays_on_the_way(
                initial,
                life,
                end,
                snapshots,
                evts,
                after,
                new_snapshots,
                next,
            );
            (after.event_sourced, snapshots + new_snapshots)
        }
    }
}

/// A spawned entity is where the events in the event log lead.
proof fn lemma_spawn_is_at_end<E: EventSourced, M>(
    initial: E,
    life: Life<E, M>,
    end: E,
    snapshots: Seq<Option<E::State>>,
    entity: EntityView<E>,
)
    requires
        is_deterministic::<E>(),
        restores(initial, initial),
        life.is_on_the_way(initial, end, snapshots),
        life.may_spawn(initial, entity),
    ensures
        entity.event_sourced == end,
{
    let log = life.log();
    match life.snapshot {
        Some(snapshot) => {
            let n = snapshot.seq_no as int;
            let mid = handles_up_to(initial, log, end, snapshots, n);
            assert(snapshots.take(n).last() == snapshots[n - 1]);
            assert(log.take(n) + log.skip(n) =~= log);
            assert(replays(initial, log.take(n) + log.skip(n), end));
            snapshot_replaces_replay(
                initial,
                log.take(n),
                mid,
                snapshots.take(n),
                snapshot.state,
                initial,
                entity.start,
                log.skip(n),
                entity.event_sourced,
                end,
            );
        },
        None => {
            assert(log.skip(0) =~= log);
            let replayed = choose|s: Seq<Option<E::State>>| #[trigger]
                handles(entity.start, entity.history, entity.event_sourced, s);
            handling_is_deterministic(
                initial,
                log,
                end,
                snapshots,
                entity.event_sourced,
                replayed,
            );
        },
    }
}

/// A command leads further on the way.
proof fn lemma_cmd_stays_on_the_way<E: EventSourced, M>(
    initial: E,
    life: Life<E, M>,
    end: E,
    snapshots: Seq<Option<E::State>>,
    evts: Seq<E::Evt>,
    after: EntityView<E>,
    new_snapshots: Seq<Option<E::State>>,
    next: Life<E, M>,
)
    requires
        life.is_on_the_way(initial, end, snapshots),
        life.handles_cmd(evts, after, new_snapshots, next),
    ensures
        next.is_on_the_way(initial, after.event_sourced, snapshots + new_snapshots),
{
    let last_seq_no = life.entity->0.last_seq_no;
    let new = numbered(last_seq_no, evts);
    assert(next.log() =~= life.log() + new);
    handles_in_two_parts(
        initial,
        life.log(),
        end,
        snapshots,
        new,
        after.event_sourced,
        new_snapshots,
    );
    newest_snapshot_is_last(last_seq_no, new_snapshots);
    if newest(last_seq_no, new_snapshots) is Some {
        let saved = newest(last_seq_no, new_snapshots)->0;
        let k = choose|k: int| is_newest(last_seq_no, new_snapshots, k, saved);
        assert((snapshots + new_snapshots)[saved.0 - 1] == new_snapshots[k]);
    }
    if life.snapshot is Some {
        let n = life.snapshot->0.seq_no - 1;
        assert((snapshots + new_snapshots)[n] == snapshots[n]);
    }
}

} // verus!
