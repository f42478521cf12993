//! What it means for an entity to handle a sequence of events.

use crate::event_sourced::EventSourced;
use vstd::prelude::*;

verus! {

/// The given states are those of an entity that handles the given numbered events one after the
/// other: `states[i]` is the state before `evts[i]`, `states[i + 1]` the one after it, and
/// `snapshots[i]` is what the event handler returned for it.
pub open spec fn is_run<E: EventSourced>(
    states: Seq<E>,
    evts: Seq<(u64, E::Evt)>,
    snapshots: Seq<Option<E::State>>,
) -> bool {
    &&& states.len() == evts.len() + 1
    &&& snapshots.len() == evts.len()
    &&& forall|i: int|
        0 <= i < evts.len() ==> (#[trigger] states[i]).may_handle_evt(
            evts[i].0,
            evts[i].1,
            states[i + 1],
            snapshots[i],
        )
}

/// Handling the numbered events `evts` one after the other may lead from `start` to `end` with
/// the event handler returning `snapshots[i]` for `evts[i]`.
pub open spec fn handles<E: EventSourced>(
    start: E,
    evts: Seq<(u64, E::Evt)>,
    end: E,
    snapshots: Seq<Option<E::State>>,
) -> bool {
    exists|states: Seq<E>| #[trigger]
        is_run(states, evts, snapshots) && states.first() == start && states.last() == end
}

/// Handling the numbered events `evts` one after the other may lead from `start` to `end`,
/// whatever the event handler returns.
pub open spec fn replays<E: EventSourced>(start: E, evts: Seq<(u64, E::Evt)>, end: E) -> bool {
    exists|snapshots: Seq<Option<E::State>>| #[trigger] handles(start, evts, end, snapshots)
}

/// The snapshot state that was returned last, if any, with the sequence number of the event for
/// which it was returned, where the events are those that follow `last_seq_no`.
pub open spec fn newest<S>(last_seq_no: u64, snapshots: Seq<Option<S>>) -> Option<(u64, S)>
    decreases snapshots.len(),
{
    if snapshots.len() == 0 {
        None
    } else {
        match snapshots.last() {
            Some(state) => Some(((last_seq_no + snapshots.len()) as u64, state)),
            None => newest(last_seq_no, snapshots.drop_last()),
        }
    }
}

/// The state in `snapshot` was returned for the event at `k`, which has the number in `snapshot`,
/// and none was returned for a later event.
pub open spec fn is_newest<S>(
    last_seq_no: u64,
    snapshots: Seq<Option<S>>,
    k: int,
    snapshot: (u64, S),
) -> bool {
    &&& 0 <= k < snapshots.len()
    &&& snapshot.0 == last_seq_no + 1 + k
    &&& snapshots[k] == Some(snapshot.1)
    &&& forall|j: int| k < j < snapshots.len() ==> #[trigger] snapshots[j] is None
}

/// The snapshot that is saved for a command is the one that the event handler returned last, under
/// the sequence number that it was given when it returned it.
pub proof fn newest_snapshot_is_last<S>(last_seq_no: u64, snapshots: Seq<Option<S>>)
    requires
        last_seq_no + snapshots.len() <= u64::MAX,
    ensures
        match newest(last_seq_no, snapshots) {
            Some(snapshot) => exists|k: int| is_newest(last_seq_no, snapshots, k, snapshot),
            None => forall|j: int| 0 <= j < snapshots.len() ==> #[trigger] snapshots[j] is None,
        },
    decreases snapshots.len(),
{
    if snapshots.len() > 0 {
        let last = snapshots.len() - 1;
        let shorter = snapshots.drop_last();
        if snapshots[last] is Some {
            assert(is_newest(last_seq_no, snapshots, last, newest(last_seq_no, snapshots)->0));
        } else {
            newest_snapshot_is_last(last_seq_no, shorter);
            assert forall|j: int| 0 <= j < last implies snapshots[j] == #[trigger] shorter[j] by {}
            if newest(last_seq_no, shorter) is Some {
                let snapshot = newest(last_seq_no, snapshots)->0;
                let k = choose|k: int| is_newest(last_seq_no, shorter, k, snapshot);
                assert forall|j: int| k < j < snapshots.len() implies
                    #[trigger] snapshots[j] is None by {
                    if j < last {
                        assert(shorter[j] is None);
                    }
                }
                assert(is_newest(last_seq_no, snapshots, k, snapshot));
            } else {
                assert forall|j: int| 0 <= j < snapshots.len() implies
                    #[trigger] snapshots[j] is None by {
                    if j < last {
                        assert(shorter[j] is None);
                    }
                }
            }
        }
    }
}

/// The events `evts` with the sequence numbers that follow `last_seq_no`.
pub open spec fn numbered<T>(last_seq_no: u64, evts: Seq<T>) -> Seq<(u64, T)> {
    Seq::new(evts.len(), |i: int| ((last_seq_no + 1 + i) as u64, evts[i]))
}

/// Without an event an entity stays as it is.
pub(crate) proof fn lemma_handles_nothing<E: EventSourced>(start: E)
    ensures
        handles(start, Seq::<(u64, E::Evt)>::empty(), start, Seq::<Option<E::State>>::empty()),
{
    let states = seq![start];
    assert(is_run(states, Seq::<(u64, E::Evt)>::empty(), Seq::<Option<E::State>>::empty()));
    assert(states.first() == start && states.last() == start);
}

/// Handling one more event extends what was handled by that event.
pub(crate) proof fn lemma_handles_one_more<E: EventSourced>(
    start: E,
    evts: Seq<(u64, E::Evt)>,
    mid: E,
    snapshots: Seq<Option<E::State>>,
    evt: (u64, E::Evt),
    end: E,
    snapshot: Option<E::State>,
)
    requires
        handles(start, evts, mid, snapshots),
        mid.may_handle_evt(evt.0, evt.1, end, snapshot),
    ensures
        handles(start, evts.push(evt), end, snapshots.push(snapshot)),
{
    let states = choose|states: Seq<E>| #[trigger]
        is_run(states, evts, snapshots) && states.first() == start && states.last() == mid;
    let longer = states.push(end);
    assert(is_run(longer, evts.push(evt), snapshots.push(snapshot))) by {
        assert forall|i: int| 0 <= i < evts.push(evt).len() implies (
        #[trigger] longer[i]).may_handle_evt(
            evts.push(evt)[i].0,
            evts.push(evt)[i].1,
            longer[i + 1],
            snapshots.push(snapshot)[i],
        ) by {
            assert(longer[i] == states[i]);
            if i < evts.len() {
                assert(longer[i + 1] == states[i + 1]);
            }
        }
    }
    assert(longer.first() == start && longer.last() == end);
}

/// Handling `first` and then `second` is handling both as one sequence.
pub proof fn handles_in_two_parts<E: EventSourced>(
    start: E,
    first: Seq<(u64, E::Evt)>,
    mid: E,
    first_snapshots: Seq<Option<E::State>>,
    second: Seq<(u64, E::Evt)>,
    end: E,
    second_snapshots: Seq<Option<E::State>>,
)
    requires
        handles(start, first, mid, first_snapshots),
        handles(mid, second, end, second_snapshots),
    ensures
        handles(start, first + second, end, first_snapshots + second_snapshots),
{
    let states1 = choose|states: Seq<E>| #[trigger]
        is_run(states, first, first_snapshots) && states.first() == start && states.last() == mid;
    let states2 = choose|states: Seq<E>| #[trigger]
        is_run(states, second, second_snapshots) && states.first() == mid && states.last() == end;
    let states = states1 + states2.drop_first();
    let evts = first + second;
    let snapshots = first_snapshots + second_snapshots;
    assert(is_run(states, evts, snapshots)) by {
        assert forall|i: int| 0 <= i < evts.len() implies (
        #[trigger] states[i]).may_handle_evt(evts[i].0, evts[i].1, states[i + 1], snapshots[i]) by {
            if i < first.len() {
                assert(states[i] == states1[i]);
                assert(states[i + 1] == states1[i + 1]);
            } else {
                let j = i - first.len();
                assert(states[i] == states2[j]);
                assert(states[i + 1] == states2[j + 1]);
            }
        }
    }
    assert(states.first() == start && states.last() == end);
}

/// What was handled can be cut after any number of events: there is a state in between.
pub proof fn handles_up_to<E: EventSourced>(
    start: E,
    evts: Seq<(u64, E::Evt)>,
    end: E,
    snapshots: Seq<Option<E::State>>,
    n: int,
) -> (mid: E)
    requires
        handles(start, evts, end, snapshots),
        0 <= n <= evts.len(),
    ensures
        handles(start, evts.take(n), mid, snapshots.take(n)),
        handles(mid, evts.skip(n), end, snapshots.skip(n)),
{
    let states = choose|states: Seq<E>| #[trigger]
        is_run(states, evts, snapshots) && states.first() == start && states.last() == end;
    let states1 = states.take(n + 1);
    let states2 = states.skip(n);
    assert(is_run(states1, evts.take(n), snapshots.take(n))) by {
        assert forall|i: int| 0 <= i < n implies (#[trigger] states1[i]).may_handle_evt(
            evts.take(n)[i].0,
            evts.take(n)[i].1,
            states1[i + 1],
            snapshots.take(n)[i],
        ) by {
            assert(states1[i] == states[i]);
        }
    }
    assert(is_run(states2, evts.skip(n), snapshots.skip(n))) by {
        assert forall|i: int| 0 <= i < evts.skip(n).len() implies (
        #[trigger] states2[i]).may_handle_evt(
            evts.skip(n)[i].0,
            evts.skip(n)[i].1,
            states2[i + 1],
            snapshots.skip(n)[i],
        ) by {
            assert(states2[i] == states[i + n]);
        }
    }
    assert(states1.first() == start && states2.last() == end);
    states1.last()
}

/// Replaying `first` and then handling `second` replays both as one sequence.
pub(crate) proof fn lemma_replays_then_handles<E: EventSourced>(
    start: E,
    first: Seq<(u64, E::Evt)>,
    mid: E,
    second: Seq<(u64, E::Evt)>,
    end: E,
    snapshots: Seq<Option<E::State>>,
)
    requires
        replays(start, first, mid),
        handles(mid, second, end, snapshots),
    ensures
        replays(start, first + second, end),
{
    let first_snapshots = choose|s: Seq<Option<E::State>>| #[trigger] handles(start, first, mid, s);
    handles_in_two_parts(start, first, mid, first_snapshots, second, end, snapshots);
}

} // verus!
