//! What holds of entities over several commands and over being spawned again.

use crate::entity::EntityView;
use crate::event_sourced::EventSourced;
use crate::history::{
    handles, handles_in_two_parts, handles_up_to, is_newest, is_run, lemma_replays_then_handles,
    newest, newest_snapshot_is_last, numbered, replays,
};
use crate::spawn::{is_restored, Snapshot};
use vstd::prelude::*;

verus! {

/// The event handler of `E` has a single outcome for each state, sequence number and event.
pub open spec fn is_deterministic<E: EventSourced>() -> bool {
    forall|
        state: E,
        seq_no: u64,
        evt: E::Evt,
        next1: E,
        snapshot1: Option<E::State>,
        next2: E,
        snapshot2: Option<E::State>,
    | #[trigger]
        state.may_handle_evt(seq_no, evt, next1, snapshot1) && #[trigger] state.may_handle_evt(
            seq_no,
            evt,
            next2,
            snapshot2,
        ) ==> next1 == next2 && snapshot1 == snapshot2
}

/// The snapshot states of an entity that has been in the state `start` bring it back: setting the
/// one that the event handler returned for the last of any events, on an entity in the state
/// `initial`, gives the entity as it was after that event. What `initial` and the entity have in
/// common anyway need not be in the snapshot state.
pub open spec fn restores<E: EventSourced>(initial: E, start: E) -> bool {
    forall|
        evts: Seq<(u64, E::Evt)>,
        after: E,
        snapshots: Seq<Option<E::State>>,
        state: E::State,
        restored: E,
    | #[trigger]
        handles(start, evts, after, snapshots) && evts.len() > 0 && snapshots.last() == Some(state)
            && #[trigger] initial.may_set_state(state, restored) ==> restored == after
}

/// Events are persisted with sequence numbers that follow the last one without a gap, and so
/// increase.
pub proof fn sequence_numbers_are_consecutive<T>(last_seq_no: u64, evts: Seq<T>)
    requires
        last_seq_no + evts.len() <= u64::MAX,
    ensures
        numbered(last_seq_no, evts).len() == evts.len(),
        forall|i: int|
            0 <= i < evts.len() ==> {
                &&& (#[trigger] numbered(last_seq_no, evts)[i]).0 == last_seq_no + 1 + i
                &&& numbered(last_seq_no, evts)[i].1 == evts[i]
            },
        forall|i: int, j: int|
            0 <= i < j < evts.len() ==> (#[trigger] numbered(last_seq_no, evts)[i]).0 < (
            #[trigger] numbered(last_seq_no, evts)[j]).0,
{
}

/// Two commands, one after the other, leave the entity as one command with the events of both
/// would: no sequence number is left out or used twice between them.
pub proof fn commands_follow_each_other<E: EventSourced>(
    before: EntityView<E>,
    evts1: Seq<E::Evt>,
    mid: EntityView<E>,
    snapshots1: Seq<Option<E::State>>,
    evts2: Seq<E::Evt>,
    after: EntityView<E>,
    snapshots2: Seq<Option<E::State>>,
)
    requires
        before.applies(evts1, mid, snapshots1),
        mid.applies(evts2, after, snapshots2),
    ensures
        before.applies(evts1 + evts2, after, snapshots1 + snapshots2),
        numbered(before.last_seq_no, evts1) + numbered(mid.last_seq_no, evts2) == numbered(
            before.last_seq_no,
            evts1 + evts2,
        ),
{
    let first = numbered(before.last_seq_no, evts1);
    let second = numbered(mid.last_seq_no, evts2);
    handles_in_two_parts(
        before.event_sourced,
        first,
        mid.event_sourced,
        snapshots1,
        second,
        after.event_sourced,
        snapshots2,
    );
    assert(first + second =~= numbered(before.last_seq_no, evts1 + evts2));
    assert(before.history + first + second =~= before.history + (first + second));
}

/// A command keeps the state of an entity a replay of its history.
pub proof fn commands_keep_replay_of_history<E: EventSourced>(
    before: EntityView<E>,
    evts: Seq<E::Evt>,
    after: EntityView<E>,
    snapshots: Seq<Option<E::State>>,
)
    requires
        before.is_replay_of_history(),
        before.applies(evts, after, snapshots),
    ensures
        after.is_replay_of_history(),
{
    lemma_replays_then_handles(
        before.start,
        before.history,
        before.event_sourced,
        numbered(before.last_seq_no, evts),
        after.event_sourced,
        snapshots,
    );
}

/// A command keeps the history of an entity numbered without a gap up to its last sequence number.
pub proof fn commands_keep_history_consecutive<E: EventSourced>(
    before: EntityView<E>,
    evts: Seq<E::Evt>,
    after: EntityView<E>,
    snapshots: Seq<Option<E::State>>,
)
    requires
        before.is_history_consecutive(),
        before.applies(evts, after, snapshots),
    ensures
        after.is_history_consecutive(),
{
}

/// An entity whose event log hands out exactly the events after `seq_no`, under the sequence
/// numbers under which they were persisted, has a history that is numbered without a gap up to its
/// last sequence number.
pub proof fn spawning_makes_history_consecutive<E: EventSourced>(
    entity: EntityView<E>,
    seq_no: u64,
    evts: Seq<E::Evt>,
)
    requires
        seq_no + evts.len() == entity.last_seq_no,
        entity.history == numbered(seq_no, evts),
    ensures
        entity.is_history_consecutive(),
{
}

/// With a deterministic event handler the same events lead from the same state to the same state,
/// and to the same snapshots on the way.
pub proof fn handling_is_deterministic<E: EventSourced>(
    start: E,
    evts: Seq<(u64, E::Evt)>,
    end1: E,
    snapshots1: Seq<Option<E::State>>,
    end2: E,
    snapshots2: Seq<Option<E::State>>,
)
    requires
        is_deterministic::<E>(),
        handles(start, evts, end1, snapshots1),
        handles(start, evts, end2, snapshots2),
    ensures
        end1 == end2,
        snapshots1 == snapshots2,
{
    let states1 = choose|states: Seq<E>| #[trigger]
        is_run(states, evts, snapshots1) && states.first() == start && states.last() == end1;
    let states2 = choose|states: Seq<E>| #[trigger]
        is_run(states, evts, snapshots2) && states.first() == start && states.last() == end2;
    lemma_same_states(states1, snapshots1, states2, snapshots2, evts, evts.len() as int);
    assert forall|i: int| 0 <= i < evts.len() implies snapshots1[i] == snapshots2[i] by {
        lemma_same_states(states1, snapshots1, states2, snapshots2, evts, i);
        assert(states1[i].may_handle_evt(evts[i].0, evts[i].1, states1[i + 1], snapshots1[i]));
        assert(states2[i].may_handle_evt(evts[i].0, evts[i].1, states2[i + 1], snapshots2[i]));
    }
    assert(snapshots1 =~= snapshots2);
}

/// Two runs of the same events that start alike are alike after `n` events.
proof fn lemma_same_states<E: EventSourced>(
    states1: Seq<E>,
    snapshots1: Seq<Option<E::State>>,
    states2: Seq<E>,
    snapshots2: Seq<Option<E::State>>,
    evts: Seq<(u64, E::Evt)>,
    n: int,
)
    requires
        is_deterministic::<E>(),
        is_run(states1, evts, snapshots1),
        is_run(states2, evts, snapshots2),
        states1.first() == states2.first(),
        0 <= n <= evts.len(),
    ensures
        states1[n] == states2[n],
    decreases n,
{
    if n > 0 {
        let i = n - 1;
        lemma_same_states(states1, snapshots1, states2, snapshots2, evts, i);
        assert(states1[i].may_handle_evt(evts[i].0, evts[i].1, states1[i + 1], snapshots1[i]));
        assert(states2[i].may_handle_evt(evts[i].0, evts[i].1, states2[i + 1], snapshots2[i]));
    }
}

/// An entity that is spawned from the same start and is handed the events that another one has
/// handled is in the same state as that one.
pub proof fn spawning_recovers_state<E: EventSourced>(
    entity: EntityView<E>,
    recovered: EntityView<E>,
)
    requires
        is_deterministic::<E>(),
        entity.is_replay_of_history(),
        recovered.is_replay_of_history(),
        recovered.start == entity.start,
        recovered.history == entity.history,
    ensures
        recovered.event_sourced == entity.event_sourced,
{
    let snapshots1 = choose|snapshots: Seq<Option<E::State>>| #[trigger]
        handles(entity.start, entity.history, entity.event_sourced, snapshots);
    let snapshots2 = choose|snapshots: Seq<Option<E::State>>| #[trigger]
        handles(recovered.start, recovered.history, recovered.event_sourced, snapshots);
    handling_is_deterministic(
        entity.start,
        entity.history,
        entity.event_sourced,
        snapshots1,
        recovered.event_sourced,
        snapshots2,
    );
}

/// Setting a snapshot state that was returned for the last of the `first` events, and replaying
/// only the events after it, leads to the same state as replaying all events.
pub proof fn snapshot_replaces_replay<E: EventSourced>(
    start: E,
    first: Seq<(u64, E::Evt)>,
    mid: E,
    snapshots: Seq<Option<E::State>>,
    state: E::State,
    initial: E,
    restored: E,
    rest: Seq<(u64, E::Evt)>,
    recovered: E,
    replayed: E,
)
    requires
        is_deterministic::<E>(),
        restores(initial, start),
        handles(start, first, mid, snapshots),
        first.len() > 0,
        snapshots.last() == Some(state),
        initial.may_set_state(state, restored),
        replays(restored, rest, recovered),
        replays(start, first + rest, replayed),
    ensures
        restored == mid,
        recovered == replayed,
{
    let rest_snapshots = choose|s: Seq<Option<E::State>>| #[trigger]
        handles(restored, rest, recovered, s);
    handles_in_two_parts(start, first, mid, snapshots, rest, recovered, rest_snapshots);
    let all_snapshots = choose|s: Seq<Option<E::State>>| #[trigger]
        handles(start, first + rest, replayed, s);
    handling_is_deterministic(
        start,
        first + rest,
        recovered,
        snapshots + rest_snapshots,
        replayed,
        all_snapshots,
    );
}

/// A snapshot saved for a command brings the entity back.
///
/// Take an entity that handled the events `evts` of a command, for some of which the event handler
/// returned a snapshot state, and that has handled the events `later` since. Spawn an entity from
/// the snapshot that was saved for the command, and hand it those events of the first one that come
/// after the sequence number of the snapshot, but not the `earlier` ones. Both are in the same
/// state.
pub proof fn spawning_from_snapshot_recovers_state<E: EventSourced, M>(
    before: EntityView<E>,
    evts: Seq<E::Evt>,
    saved: EntityView<E>,
    snapshots: Seq<Option<E::State>>,
    later: Seq<E::Evt>,
    entity: EntityView<E>,
    later_snapshots: Seq<Option<E::State>>,
    initial: E,
    snapshot: Snapshot<E::State, M>,
    earlier: Seq<(u64, E::Evt)>,
    recovered: EntityView<E>,
)
    requires
        is_deterministic::<E>(),
        restores(initial, before.event_sourced),
        before.is_history_consecutive(),
        before.applies(evts, saved, snapshots),
        newest(before.last_seq_no, snapshots) == Some((snapshot.seq_no, snapshot.state)),
        saved.applies(later, entity, later_snapshots),
        is_restored(initial, Some(snapshot), recovered.start),
        recovered.last_seq_no == entity.last_seq_no,
        entity.history == earlier + recovered.history,
        forall|i: int| 0 <= i < earlier.len() ==> (#[trigger] earlier[i]).0 <= snapshot.seq_no,
        forall|i: int|
            0 <= i < recovered.history.len() ==> (#[trigger] recovered.history[i]).0
                > snapshot.seq_no,
        recovered.is_replay_of_history(),
    ensures
        recovered.event_sourced == entity.event_sourced,
        recovered.is_history_consecutive(),
{
    newest_snapshot_is_last(before.last_seq_no, snapshots);
    let k = choose|k: int|
        is_newest(before.last_seq_no, snapshots, k, (snapshot.seq_no, snapshot.state));
    let new = numbered(before.last_seq_no, evts);
    let after = numbered(saved.last_seq_no, later);
    let first = new.take(k + 1);
    let rest = new.skip(k + 1) + after;
    let mid = handles_up_to(
        before.event_sourced,
        new,
        saved.event_sourced,
        snapshots,
        k + 1,
    );
    handles_in_two_parts(
        before.event_sourced,
        new,
        saved.event_sourced,
        snapshots,
        after,
        entity.event_sourced,
        later_snapshots,
    );
    assert(first + rest =~= new + after);
    lemma_history_after(before, evts, saved, snapshots, later, entity, later_snapshots, k);
    lemma_same_cut(before.history + first, rest, earlier, recovered.history, snapshot.seq_no);
    snapshot_replaces_replay(
        before.event_sourced,
        first,
        mid,
        snapshots.take(k + 1),
        snapshot.state,
        initial,
        recovered.start,
        rest,
        recovered.event_sourced,
        entity.event_sourced,
    );
}

/// The history of an entity that handled the events `evts` of a command and then `later`, cut after
/// the event at `k` of the command: what comes before has sequence numbers up to that of the event,
/// what comes after has greater ones.
proof fn lemma_history_after<E: EventSourced>(
    before: EntityView<E>,
    evts: Seq<E::Evt>,
    saved: EntityView<E>,
    snapshots: Seq<Option<E::State>>,
    later: Seq<E::Evt>,
    entity: EntityView<E>,
    later_snapshots: Seq<Option<E::State>>,
    k: int,
)
    requires
        before.is_history_consecutive(),
        before.applies(evts, saved, snapshots),
        saved.applies(later, entity, later_snapshots),
        0 <= k < evts.len(),
    ensures
        ({
            let new = numbered(before.last_seq_no, evts);
            let past = before.history + new.take(k + 1);
            let rest = new.skip(k + 1) + numbered(saved.last_seq_no, later);
            let seq_no = before.last_seq_no + 1 + k;
            &&& entity.history == past + rest
            &&& forall|i: int| 0 <= i < past.len() ==> (#[trigger] past[i]).0 <= seq_no
            &&& forall|i: int|
                0 <= i < rest.len() ==> (#[trigger] rest[i]).0 == seq_no + 1 + i
        }),
{
    let new = numbered(before.last_seq_no, evts);
    let past = before.history + new.take(k + 1);
    let rest = new.skip(k + 1) + numbered(saved.last_seq_no, later);
    assert(entity.history =~= past + rest);
    assert forall|i: int| 0 <= i < past.len() implies (#[trigger] past[i]).0 <= before.last_seq_no
        + 1 + k by {
        if i < before.history.len() {
            assert(past[i] == before.history[i]);
        }
    }
}

/// A sequence is cut in one way only into events up to a sequence number and events after it.
proof fn lemma_same_cut<T>(
    past1: Seq<(u64, T)>,
    rest1: Seq<(u64, T)>,
    past2: Seq<(u64, T)>,
    rest2: Seq<(u64, T)>,
    seq_no: u64,
)
    requires
        past1 + rest1 == past2 + rest2,
        forall|i: int| 0 <= i < past1.len() ==> (#[trigger] past1[i]).0 <= seq_no,
        forall|i: int| 0 <= i < rest1.len() ==> (#[trigger] rest1[i]).0 > seq_no,
        forall|i: int| 0 <= i < past2.len() ==> (#[trigger] past2[i]).0 <= seq_no,
        forall|i: int| 0 <= i < rest2.len() ==> (#[trigger] rest2[i]).0 > seq_no,
    ensures
        rest1 == rest2,
{
    let all = past1 + rest1;
    let n1 = past1.len() as int;
    let n2 = past2.len() as int;
    if n1 < n2 {
        assert(all[n1] == rest1[0]);
        assert(all[n1] == past2[n1]);
    }
    if n2 < n1 {
        assert(all[n2] == rest2[0]);
        assert(all[n2] == past1[n2]);
    }
    assert(rest1 =~= all.skip(n1));
    assert(rest2 =~= all.skip(n2));
}

} // verus!
