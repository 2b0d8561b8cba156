//! The immutable per-process configuration, created once at startup and
//! shared read-only across the probing and serving activities.

use vstd::prelude::*;
use crate::address::Address;

verus! {

/// Configuration for one membership process. Durations are carried as
/// whole milliseconds; the runtime shell converts them to its clock type
/// at the I/O boundary.
#[derive(Clone, Copy, Debug, PartialEq, Eq, Structural)]
pub struct Config {
    /// The address to bind on; also this process's identity on the wire.
    pub address: Address,
    /// Maximum wait, in milliseconds, for a send or receive to a peer.
    pub timeout_millis: u64,
    /// The wait, in milliseconds, between failure-detection rounds.
    pub detection_period_millis: u64,
    /// How many random members to contact per detection round; the
    /// realized protocol always probes one, this is a reserved knob.
    pub detection_group_size: u16,
}

} // verus!
