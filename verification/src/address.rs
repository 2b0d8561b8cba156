//! Network addresses as plain data: an IP (v4 or v6) together with a port.
//!
//! Peers are identified by such an address. Keeping the address as plain
//! integers lets every rule about the membership table and the wire format
//! be stated and proved directly; the runtime shell converts to and from
//! the operating system's socket address type at the I/O boundary.

use vstd::prelude::*;

verus! {

/// An IP address: either four v4 octets, or a v6 address packed big-endian
/// into one 128-bit integer (the first octet in the most significant byte).
#[derive(Clone, Copy, Debug, PartialEq, Eq, Structural)]
pub enum IpAddress {
    V4(u8, u8, u8, u8),
    V6(u128),
}

/// A peer address: IP plus port. Uniquely identifies a peer.
#[derive(Clone, Copy, Debug, PartialEq, Eq, Structural)]
pub struct Address {
    pub ip: IpAddress,
    pub port: u16,
}

} // verus!
