use guestlist::address::{Address, IpAddress};
use guestlist::codec::{decode, encode};
use guestlist::config::Config;
use guestlist::messages::Message;
use guestlist::protocol::{handle_datagram, probe_round};
use guestlist::table::{MembershipTable, State};
use guestlist::Guestlist;

fn local(port: u16) -> Address {
    Address { ip: IpAddress::V4(127, 0, 0, 1), port }
}

#[test]
fn join_is_recorded_alive() {
    // Process A at 127.0.0.1:4001 receives a Join from 127.0.0.1:4002.
    let own = local(4001);
    let joiner = local(4002);
    let mut table = MembershipTable::new();
    let payload = encode(&Message::Join { from: joiner });
    let reply = handle_datagram(&mut table, own, &payload);
    assert!(reply.is_none());
    assert_eq!(table.len(), 1);
    assert_eq!(table.state_of(joiner), Some(State::Alive));
}

#[test]
fn ping_is_answered_with_own_ack() {
    let own = local(4001);
    let pinger = local(4044);
    let mut table = MembershipTable::new();
    let payload = encode(&Message::Ping { from: pinger });
    let reply = handle_datagram(&mut table, own, &payload).expect("a ping must be answered");
    assert_eq!(decode(&reply), Ok(Message::Ack { from: own }));
    assert_eq!(table.len(), 0);
}

#[test]
fn malformed_bytes_are_discarded_and_service_goes_on() {
    let own = local(4001);
    let mut table = MembershipTable::new();
    table.upsert_alive(local(5000));
    let before = table.snapshot();
    // Three arbitrary bytes must neither panic nor disturb the table.
    let reply = handle_datagram(&mut table, own, &[0x13, 0x37, 0x99]);
    assert!(reply.is_none());
    assert_eq!(table.snapshot(), before);
    // A subsequent well-formed ping is still answered.
    let payload = encode(&Message::Ping { from: local(4002) });
    let reply = handle_datagram(&mut table, own, &payload).expect("a ping must be answered");
    assert_eq!(decode(&reply), Ok(Message::Ack { from: own }));
}

#[test]
fn ack_and_ping_req_drive_no_reaction() {
    let own = local(4001);
    let mut table = MembershipTable::new();
    let ack = encode(&Message::Ack { from: local(4002) });
    assert!(handle_datagram(&mut table, own, &ack).is_none());
    let ping_req = encode(&Message::PingReq { from: local(4002), to: local(4003) });
    assert!(handle_datagram(&mut table, own, &ping_req).is_none());
    assert_eq!(table.len(), 0);
}

#[test]
fn probe_round_on_empty_table_sends_nothing() {
    let table = MembershipTable::new();
    assert!(probe_round(&table, local(4001)).is_none());
}

#[test]
fn probe_round_pings_the_only_member() {
    let own = local(4001);
    let peer = local(4002);
    let mut table = MembershipTable::new();
    table.upsert_alive(peer);
    for _ in 0..16 {
        let (target, bytes) = probe_round(&table, own).expect("non-empty table must be probed");
        assert_eq!(target, peer);
        assert_eq!(decode(&bytes), Ok(Message::Ping { from: own }));
    }
}

#[test]
fn probe_round_targets_some_member() {
    let own = local(4001);
    let mut table = MembershipTable::new();
    for port in 5001..5009u16 {
        table.upsert_alive(local(port));
    }
    for _ in 0..32 {
        let (target, bytes) = probe_round(&table, own).expect("non-empty table must be probed");
        assert!(table.contains(target));
        assert_eq!(decode(&bytes), Ok(Message::Ping { from: own }));
    }
}

#[test]
fn with_config_starts_empty() {
    let config = Config {
        address: local(3000),
        timeout_millis: 1000,
        detection_period_millis: 3000,
        detection_group_size: 2,
    };
    let g = Guestlist::with_config(config);
    assert_eq!(g.config, config);
    assert_eq!(g.nodes.len(), 0);
}

#[test]
fn join_datagram_names_own_address() {
    let config = Config {
        address: local(3000),
        timeout_millis: 1000,
        detection_period_millis: 3000,
        detection_group_size: 2,
    };
    let g = Guestlist::with_config(config);
    let bytes = g.join_datagram();
    assert_eq!(decode(&bytes), Ok(Message::Join { from: local(3000) }));
}
