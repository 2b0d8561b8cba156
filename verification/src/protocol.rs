//! The protocol reactions: what one received datagram does to the
//! membership table and what goes back on the wire, and what one probe
//! round sends.
//!
//! The runtime shell owns the sockets and the clock; it hands each
//! received payload to [`handle_datagram`] and sends whatever comes
//! back, and on each period it calls [`probe_round`] and sends the
//! resulting ping.

use vstd::prelude::*;
use crate::address::Address;
use crate::codec::{decode, encode, encoding, parse};
use crate::messages::Message;
use crate::table::{has_address, upserted, MembershipTable};

verus! {

/// Reacts to one received datagram, as the protocol server does for each
/// payload its socket delivers:
/// - a `Ping` is answered with an `Ack` carrying this process's own
///   address, to be sent back to the datagram's source;
/// - a `Join` upserts the joining peer into the table as alive;
/// - `Ack` and `PingReq` are part of the message model but drive no
///   reaction in the realized protocol;
/// - a malformed payload is discarded: the table is untouched, nothing
///   is replied, and the serving loop goes on.
pub fn handle_datagram(table: &mut MembershipTable, own: Address, buf: &[u8]) -> (r: Option<
    Vec<u8>,
>)
    requires
        old(table).wf(),
    ensures
        final(table).wf(),
        match parse(buf@) {
            Ok(m) => match m {
                Message::Ping { from } => final(table)@ == old(table)@ && (r matches Some(reply)
                    && reply@ == encoding(Message::Ack { from: own })),
                Message::Join { from } => final(table)@ == upserted(old(table)@, from)
                    && r is None,
                Message::PingReq { from, to } => final(table)@ == old(table)@ && r is None,
                Message::Ack { from } => final(table)@ == old(table)@ && r is None,
            },
            Err(e) => final(table)@ == old(table)@ && r is None,
        },
{
    match decode(buf) {
        Ok(Message::Ping { from: _ }) => Some(encode(&Message::Ack { from: own })),
        Ok(Message::Join { from }) => {
            table.upsert_alive(from);
            None
        }
        Ok(_) => None,
        Err(_) => None,
    }
}

/// One probe round, as the scheduler runs on each period: on an empty
/// table, nothing to probe; otherwise one member sampled at random, to
/// be sent a `Ping` carrying this process's own address. On a one-entry
/// table the probe always goes to that entry.
pub fn probe_round(table: &MembershipTable, own: Address) -> (r: Option<(Address, Vec<u8>)>)
    requires
        table.wf(),
    ensures
        (r is None) == (table@.len() == 0),
        r matches Some(p) ==> has_address(table@, p.0) && p.1@ == encoding(
            Message::Ping { from: own },
        ),
        table@.len() == 1 ==> (r matches Some(p) && p.0 == table@[0].address),
{
    let sample = table.sample_random(1);
    if sample.len() == 0 {
        None
    } else {
        let target = sample[0].address;
        proof {
            let i = choose|i: int| 0 <= i < table@.len() && table@[i] == sample@[0];
            assert(table@[i].address == target);
            assert(has_address(table@, target));
        }
        Some((target, encode(&Message::Ping { from: own })))
    }
}

} // verus!
