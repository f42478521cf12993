# eventsourced

Event sourced entities, with their decisions proved in [Verus](https://github.com/verus-lang/verus).

An entity changes by events only. Commands are checked by its command handler; the events that they
produce are persisted to an event log along with an increasing sequence number and then applied by
its event handler, which may decide to save a snapshot. To spawn an entity, its snapshot is loaded
and the events after it are replayed.

- `src/` is the verified library. `event_sourced` is the trait that users implement, `entity` what
  a running entity does with a command, `spawn` how it is brought back, `entity_ref` the handle
  through which commands reach it, `handler` the loop that takes one command after the other.
  `history`, `laws`, `handler_laws` and `lives` state and prove what holds over many events, commands
  and spawnings. `outside` lists what is taken from other crates without proof.
- `app/` is the asynchronous shell on Tokio: it asks the event log and the snapshot store for what
  the library says, and hands back their answers.
- `tests/` runs the library with stores in memory.
