//! The wire codec: a compact, self-describing binary encoding of
//! [`Message`], with a decoder that rejects anything the encoder cannot
//! have produced.
//!
//! Layout, one message per datagram:
//! - one variant tag byte;
//! - one address per field: an IP-kind byte (`4` or `6`), then the four
//!   v4 octets or the sixteen v6 octets big-endian, then the port as two
//!   big-endian bytes.
//!
//! [`lemma_round_trip`] proves that decoding an encoding gives back
//! exactly the message that was encoded, for every constructible message.

use vstd::prelude::*;
use crate::address::{Address, IpAddress};
use crate::error::DecodeError;
use crate::messages::Message;

verus! {

pub const TAG_PING: u8 = 0;
pub const TAG_PING_REQ: u8 = 1;
pub const TAG_ACK: u8 = 2;
pub const TAG_JOIN: u8 = 3;

pub const IP_KIND_V4: u8 = 4;
pub const IP_KIND_V6: u8 = 6;

/// The two big-endian bytes of a port.
pub open spec fn be_bytes_u16(x: u16) -> Seq<u8> {
    seq![((x >> 8) & 0xff) as u8, (x & 0xff) as u8]
}

/// The sixteen big-endian bytes of a packed v6 address.
pub open spec fn be_bytes_u128(x: u128) -> Seq<u8> {
    seq![
        ((x >> 120) & 0xff) as u8,
        ((x >> 112) & 0xff) as u8,
        ((x >> 104) & 0xff) as u8,
        ((x >> 96) & 0xff) as u8,
        ((x >> 88) & 0xff) as u8,
        ((x >> 80) & 0xff) as u8,
        ((x >> 72) & 0xff) as u8,
        ((x >> 64) & 0xff) as u8,
        ((x >> 56) & 0xff) as u8,
        ((x >> 48) & 0xff) as u8,
        ((x >> 40) & 0xff) as u8,
        ((x >> 32) & 0xff) as u8,
        ((x >> 24) & 0xff) as u8,
        ((x >> 16) & 0xff) as u8,
        ((x >> 8) & 0xff) as u8,
        (x & 0xff) as u8,
    ]
}

/// The port read back from its two big-endian bytes.
pub open spec fn u16_of_be(hi: u8, lo: u8) -> u16 {
    ((hi as u16) << 8) | (lo as u16)
}

/// The packed v6 address read back from its sixteen big-endian bytes.
pub open spec fn u128_of_be(s: Seq<u8>) -> u128
    recommends
        s.len() == 16,
{
    ((s[0] as u128) << 120) | ((s[1] as u128) << 112) | ((s[2] as u128) << 104)
        | ((s[3] as u128) << 96) | ((s[4] as u128) << 88) | ((s[5] as u128) << 80)
        | ((s[6] as u128) << 72) | ((s[7] as u128) << 64) | ((s[8] as u128) << 56)
        | ((s[9] as u128) << 48) | ((s[10] as u128) << 40) | ((s[11] as u128) << 32)
        | ((s[12] as u128) << 24) | ((s[13] as u128) << 16) | ((s[14] as u128) << 8)
        | (s[15] as u128)
}

/// The bytes of one IP address: kind byte, then the octets.
pub open spec fn ip_bytes(ip: IpAddress) -> Seq<u8> {
    match ip {
        IpAddress::V4(a, b, c, d) => seq![IP_KIND_V4, a, b, c, d],
        IpAddress::V6(x) => seq![IP_KIND_V6] + be_bytes_u128(x),
    }
}

/// The bytes of one address: IP, then the port.
pub open spec fn address_bytes(a: Address) -> Seq<u8> {
    ip_bytes(a.ip) + be_bytes_u16(a.port)
}

/// The encoding of a message: the variant tag, then each address field.
pub open spec fn encoding(m: Message) -> Seq<u8> {
    match m {
        Message::Ping { from } => seq![TAG_PING] + address_bytes(from),
        Message::PingReq { from, to } => seq![TAG_PING_REQ] + address_bytes(from)
            + address_bytes(to),
        Message::Ack { from } => seq![TAG_ACK] + address_bytes(from),
        Message::Join { from } => seq![TAG_JOIN] + address_bytes(from),
    }
}

/// Reads one address from the front of `b`: the address and how many
/// bytes it occupied, or the reason the bytes are not an address.
pub open spec fn parse_address(b: Seq<u8>) -> Result<(Address, int), DecodeError> {
    if b.len() < 1 {
        Err(DecodeError::Truncated)
    } else if b[0] == IP_KIND_V4 {
        if b.len() < 7 {
            Err(DecodeError::Truncated)
        } else {
            Ok((
                Address { ip: IpAddress::V4(b[1], b[2], b[3], b[4]), port: u16_of_be(b[5], b[6]) },
                7,
            ))
        }
    } else if b[0] == IP_KIND_V6 {
        if b.len() < 19 {
            Err(DecodeError::Truncated)
        } else {
            Ok((
                Address {
                    ip: IpAddress::V6(u128_of_be(b.subrange(1, 17))),
                    port: u16_of_be(b[17], b[18]),
                },
                19,
            ))
        }
    } else {
        Err(DecodeError::BadAddressTag)
    }
}

/// What decoding `b` yields: the unique message whose encoding is `b`,
/// or the reason `b` encodes none.
pub open spec fn parse(b: Seq<u8>) -> Result<Message, DecodeError> {
    if b.len() < 1 {
        Err(DecodeError::Truncated)
    } else {
        let tag = b[0];
        let rest = b.skip(1);
        if tag == TAG_PING_REQ {
            match parse_address(rest) {
                Ok((from, n1)) => match parse_address(rest.skip(n1)) {
                    Ok((to, n2)) => if rest.len() == n1 + n2 {
                        Ok(Message::PingReq { from, to })
                    } else {
                        Err(DecodeError::TrailingBytes)
                    },
                    Err(e) => Err(e),
                },
                Err(e) => Err(e),
            }
        } else if tag == TAG_PING || tag == TAG_ACK || tag == TAG_JOIN {
            match parse_address(rest) {
                Ok((from, n)) => if rest.len() == n {
                    if tag == TAG_PING {
                        Ok(Message::Ping { from })
                    } else if tag == TAG_ACK {
                        Ok(Message::Ack { from })
                    } else {
                        Ok(Message::Join { from })
                    }
                } else {
                    Err(DecodeError::TrailingBytes)
                },
                Err(e) => Err(e),
            }
        } else {
            Err(DecodeError::BadMessageTag)
        }
    }
}

/// Appends the bytes of one address to `buf`.
fn push_address(buf: &mut Vec<u8>, a: Address)
    ensures
        final(buf)@ == old(buf)@ + address_bytes(a),
{
    match a.ip {
        IpAddress::V4(x0, x1, x2, x3) => {
            buf.push(IP_KIND_V4);
            buf.push(x0);
            buf.push(x1);
            buf.push(x2);
            buf.push(x3);
        }
        IpAddress::V6(x) => {
            buf.push(IP_KIND_V6);
            buf.push(((x >> 120) & 0xff) as u8);
            buf.push(((x >> 112) & 0xff) as u8);
            buf.push(((x >> 104) & 0xff) as u8);
            buf.push(((x >> 96) & 0xff) as u8);
            buf.push(((x >> 88) & 0xff) as u8);
            buf.push(((x >> 80) & 0xff) as u8);
            buf.push(((x >> 72) & 0xff) as u8);
            buf.push(((x >> 64) & 0xff) as u8);
            buf.push(((x >> 56) & 0xff) as u8);
            buf.push(((x >> 48) & 0xff) as u8);
            buf.push(((x >> 40) & 0xff) as u8);
            buf.push(((x >> 32) & 0xff) as u8);
            buf.push(((x >> 24) & 0xff) as u8);
            buf.push(((x >> 16) & 0xff) as u8);
            buf.push(((x >> 8) & 0xff) as u8);
            buf.push((x & 0xff) as u8);
        }
    }
    buf.push(((a.port >> 8) & 0xff) as u8);
    buf.push((a.port & 0xff) as u8);
    assert(buf@ =~= old(buf)@ + address_bytes(a));
}

/// Encodes a message for the wire. The result is exactly [`encoding`]`(*m)`.
pub fn encode(m: &Message) -> (r: Vec<u8>)
    ensures
        r@ == encoding(*m),
{
    let mut buf: Vec<u8> = Vec::new();
    match *m {
        Message::Ping { from } => {
            buf.push(TAG_PING);
            push_address(&mut buf, from);
        }
        Message::PingReq { from, to } => {
            buf.push(TAG_PING_REQ);
            push_address(&mut buf, from);
            push_address(&mut buf, to);
        }
        Message::Ack { from } => {
            buf.push(TAG_ACK);
            push_address(&mut buf, from);
        }
        Message::Join { from } => {
            buf.push(TAG_JOIN);
            push_address(&mut buf, from);
        }
    }
    assert(buf@ =~= encoding(*m));
    buf
}

/// Reads one address starting at `off`: the address and the offset just
/// past it, mirroring [`parse_address`] on `buf@.skip(off)`.
fn read_address(buf: &[u8], off: usize) -> (r: Result<(Address, usize), DecodeError>)
    requires
        off <= buf@.len(),
    ensures
        match r {
            Ok((a, end)) => off < end <= buf@.len() && parse_address(buf@.skip(off as int))
                == Ok::<(Address, int), DecodeError>((a, end - off)),
            Err(e) => parse_address(buf@.skip(off as int)) == Err::<(Address, int), DecodeError>(e),
        },
{
    let ghost sub = buf@.skip(off as int);
    assert(forall|i: int| 0 <= i < sub.len() ==> sub[i] == buf@[off + i]);
    if buf.len() - off < 1 {
        return Err(DecodeError::Truncated);
    }
    let kind = buf[off];
    if kind == IP_KIND_V4 {
        if buf.len() - off < 7 {
            return Err(DecodeError::Truncated);
        }
        let a = Address {
            ip: IpAddress::V4(buf[off + 1], buf[off + 2], buf[off + 3], buf[off + 4]),
            port: ((buf[off + 5] as u16) << 8) | (buf[off + 6] as u16),
        };
        Ok((a, off + 7))
    } else if kind == IP_KIND_V6 {
        if buf.len() - off < 19 {
            return Err(DecodeError::Truncated);
        }
        let packed: u128 = ((buf[off + 1] as u128) << 120) | ((buf[off + 2] as u128) << 112)
            | ((buf[off + 3] as u128) << 104) | ((buf[off + 4] as u128) << 96)
            | ((buf[off + 5] as u128) << 88) | ((buf[off + 6] as u128) << 80)
            | ((buf[off + 7] as u128) << 72) | ((buf[off + 8] as u128) << 64)
            | ((buf[off + 9] as u128) << 56) | ((buf[off + 10] as u128) << 48)
            | ((buf[off + 11] as u128) << 40) | ((buf[off + 12] as u128) << 32)
            | ((buf[off + 13] as u128) << 24) | ((buf[off + 14] as u128) << 16)
            | ((buf[off + 15] as u128) << 8) | (buf[off + 16] as u128);
        let a = Address {
            ip: IpAddress::V6(packed),
            port: ((buf[off + 17] as u16) << 8) | (buf[off + 18] as u16),
        };
        assert(sub.subrange(1, 17) =~= buf@.subrange(off + 1, off + 17));
        assert(packed == u128_of_be(sub.subrange(1, 17)));
        Ok((a, off + 19))
    } else {
        Err(DecodeError::BadAddressTag)
    }
}

/// Decodes one datagram. Returns the message whose encoding `buf` is, or
/// the exact reason `buf` is no encoding, per [`parse`]; never panics on
/// any input.
pub fn decode(buf: &[u8]) -> (r: Result<Message, DecodeError>)
    ensures
        r == parse(buf@),
{
    if buf.len() == 0 {
        return Err(DecodeError::Truncated);
    }
    let tag = buf[0];
    let ghost rest = buf@.skip(1);
    if tag == TAG_PING_REQ {
        match read_address(buf, 1) {
            Err(e) => Err(e),
            Ok((from, end1)) => {
                match read_address(buf, end1) {
                    Err(e) => {
                        proof {
                            assert(buf@.skip(end1 as int) =~= rest.skip(end1 - 1));
                        }
                        Err(e)
                    }
                    Ok((to, end2)) => {
                        proof {
                            assert(buf@.skip(end1 as int) =~= rest.skip(end1 - 1));
                        }
                        if end2 == buf.len() {
                            Ok(Message::PingReq { from, to })
                        } else {
                            Err(DecodeError::TrailingBytes)
                        }
                    }
                }
            }
        }
    } else if tag == TAG_PING || tag == TAG_ACK || tag == TAG_JOIN {
        match read_address(buf, 1) {
            Err(e) => Err(e),
            Ok((from, end)) => {
                if end == buf.len() {
                    if tag == TAG_PING {
                        Ok(Message::Ping { from })
                    } else if tag == TAG_ACK {
                        Ok(Message::Ack { from })
                    } else {
                        Ok(Message::Join { from })
                    }
                } else {
                    Err(DecodeError::TrailingBytes)
                }
            }
        }
    } else {
        Err(DecodeError::BadMessageTag)
    }
}

proof fn lemma_u16_round(x: u16)
    ensures
        u16_of_be(((x >> 8) & 0xff) as u8, (x & 0xff) as u8) == x,
{
    assert(((((x >> 8) & 0xff) as u8 as u16) << 8) | ((x & 0xff) as u8 as u16) == x)
        by (bit_vector);
}

proof fn lemma_u128_round(x: u128)
    ensures
        u128_of_be(be_bytes_u128(x)) == x,
{
    assert((((((x >> 120) & 0xff) as u8) as u128) << 120)
        | (((((x >> 112) & 0xff) as u8) as u128) << 112)
        | (((((x >> 104) & 0xff) as u8) as u128) << 104)
        | (((((x >> 96) & 0xff) as u8) as u128) << 96)
        | (((((x >> 88) & 0xff) as u8) as u128) << 88)
        | (((((x >> 80) & 0xff) as u8) as u128) << 80)
        | (((((x >> 72) & 0xff) as u8) as u128) << 72)
        | (((((x >> 64) & 0xff) as u8) as u128) << 64)
        | (((((x >> 56) & 0xff) as u8) as u128) << 56)
        | (((((x >> 48) & 0xff) as u8) as u128) << 48)
        | (((((x >> 40) & 0xff) as u8) as u128) << 40)
        | (((((x >> 32) & 0xff) as u8) as u128) << 32)
        | (((((x >> 24) & 0xff) as u8) as u128) << 24)
        | (((((x >> 16) & 0xff) as u8) as u128) << 16)
        | (((((x >> 8) & 0xff) as u8) as u128) << 8)
        | (((x & 0xff) as u8) as u128) == x) by (bit_vector);
}

/// Parsing an address from the front of its own bytes, whatever follows,
/// recovers the address and consumes exactly its bytes.
proof fn lemma_parse_address_of_bytes(a: Address, tail: Seq<u8>)
    ensures
        parse_address(address_bytes(a) + tail) == Ok::<(Address, int), DecodeError>((
            a,
            address_bytes(a).len() as int,
        )),
        (address_bytes(a) + tail).skip(address_bytes(a).len() as int) =~= tail,
{
    let b = address_bytes(a) + tail;
    lemma_u16_round(a.port);
    match a.ip {
        IpAddress::V4(x0, x1, x2, x3) => {
            assert(address_bytes(a) =~= seq![IP_KIND_V4, x0, x1, x2, x3]
                + be_bytes_u16(a.port));
            assert(b[0] == IP_KIND_V4 && b[1] == x0 && b[2] == x1 && b[3] == x2 && b[4] == x3
                && b[5] == be_bytes_u16(a.port)[0] && b[6] == be_bytes_u16(a.port)[1]);
        }
        IpAddress::V6(x) => {
            lemma_u128_round(x);
            assert(b[0] == IP_KIND_V6);
            assert(b.subrange(1, 17) =~= be_bytes_u128(x));
            assert(b[17] == be_bytes_u16(a.port)[0] && b[18] == be_bytes_u16(a.port)[1]);
        }
    }
}

/// Round-trip: decoding the encoding of any constructible message gives
/// back exactly that message.
pub proof fn lemma_round_trip(m: Message)
    ensures
        parse(encoding(m)) == Ok::<Message, DecodeError>(m),
{
    let e = encoding(m);
    match m {
        Message::Ping { from } => {
            assert(e.skip(1) =~= address_bytes(from) + Seq::<u8>::empty());
            lemma_parse_address_of_bytes(from, Seq::<u8>::empty());
        }
        Message::Ack { from } => {
            assert(e.skip(1) =~= address_bytes(from) + Seq::<u8>::empty());
            lemma_parse_address_of_bytes(from, Seq::<u8>::empty());
        }
        Message::Join { from } => {
            assert(e.skip(1) =~= address_bytes(from) + Seq::<u8>::empty());
            lemma_parse_address_of_bytes(from, Seq::<u8>::empty());
        }
        Message::PingReq { from, to } => {
            assert(e.skip(1) =~= address_bytes(from) + address_bytes(to));
            lemma_parse_address_of_bytes(from, address_bytes(to));
            assert((address_bytes(from) + address_bytes(to)).skip(
                address_bytes(from).len() as int,
            ) =~= address_bytes(to) + Seq::<u8>::empty());
            lemma_parse_address_of_bytes(to, Seq::<u8>::empty());
        }
    }
}

} // verus!
