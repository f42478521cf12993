//! Conversion of events and snapshots from and to bytes.

use vstd::prelude::*;

verus! {

/// Collection of conversion functions from and to `bytes::Bytes` for events and snapshots.
pub struct Binarizer<EvtToBytes, EvtFromBytes, StateToBytes, StateFromBytes> {
    /// Converts an event to bytes.
    pub evt_to_bytes: EvtToBytes,
    /// Converts bytes to an event.
    pub evt_from_bytes: EvtFromBytes,
    /// Converts a snapshot state to bytes.
    pub state_to_bytes: StateToBytes,
    /// Converts bytes to a snapshot state.
    pub state_from_bytes: StateFromBytes,
}

} // verus!
