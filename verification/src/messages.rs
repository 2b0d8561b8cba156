//! The wire message variants of the probing protocol.

use vstd::prelude::*;
use crate::address::Address;

verus! {

/// A protocol message. Each variant carries the originating address;
/// `PingReq` (an indirect-probe request) additionally names the target.
/// Messages are values: built fresh for each send and discarded once
/// encoded or reacted to.
#[derive(Clone, Copy, Debug, PartialEq, Eq, Structural)]
pub enum Message {
    Ping { from: Address },
    PingReq { from: Address, to: Address },
    Ack { from: Address },
    Join { from: Address },
}

} // verus!
