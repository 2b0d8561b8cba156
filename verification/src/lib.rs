//! A lightweight cluster-membership and failure-detection core.
//!
//! Each participating process keeps a table of known peers and their
//! liveness state, periodically probes a randomly chosen peer with a
//! `Ping`, and answers probes and joins from others. This crate holds the
//! verified engine: the message codec, the membership table, the protocol
//! reactions, and the error taxonomy. The runtime shell around it supplies
//! sockets, threads and locks, and feeds datagrams and clock ticks in as
//! plain values.

use vstd::prelude::*;

pub mod address;
pub mod codec;
pub mod config;
pub mod error;
pub mod messages;
pub mod protocol;
mod rng;
pub mod table;

use crate::codec::{encode, encoding};
use crate::config::Config;
use crate::messages::Message;
use crate::table::{MembershipTable, Node};

verus! {

/// The composed membership engine: this process's configuration together
/// with its table of known peers. The runtime shell wraps the table in a
/// reader-writer lock, shares it between the probing and serving threads,
/// and drives them with the protocol functions.
pub struct Guestlist {
    /// This instance's configuration.
    pub config: Config,
    /// The peers this instance currently knows.
    pub nodes: MembershipTable,
}

impl Guestlist {
    /// A fresh instance with the given configuration and no known peers.
    /// Pure construction: no I/O happens here.
    pub fn with_config(config: Config) -> (r: Guestlist)
        ensures
            r.config == config,
            r.nodes@ == Seq::<Node>::empty(),
            r.nodes.wf(),
    {
        Guestlist { config, nodes: MembershipTable::new() }
    }

    /// The datagram by which this process announces itself to a seed
    /// member: an encoded `Join` naming this process's own address. The
    /// runtime shell sends it to the seed, fire-and-forget.
    pub fn join_datagram(&self) -> (r: Vec<u8>)
        ensures
            r@ == encoding(Message::Join { from: self.config.address }),
    {
        encode(&Message::Join { from: self.config.address })
    }
}

} // verus!
