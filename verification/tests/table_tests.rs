use guestlist::address::{Address, IpAddress};
use guestlist::table::{MembershipTable, State};

fn addr(last_octet: u8, port: u16) -> Address {
    Address { ip: IpAddress::V4(10, 0, 0, last_octet), port }
}

#[test]
fn upsert_inserts_alive() {
    let mut t = MembershipTable::new();
    let a = addr(1, 4001);
    t.upsert_alive(a);
    assert_eq!(t.len(), 1);
    assert!(t.contains(a));
    assert_eq!(t.state_of(a), Some(State::Alive));
}

#[test]
fn upsert_twice_is_idempotent() {
    let mut t = MembershipTable::new();
    let a = addr(1, 4001);
    t.upsert_alive(a);
    let once = t.snapshot();
    t.upsert_alive(a);
    let twice = t.snapshot();
    assert_eq!(once, twice);
    assert_eq!(twice.len(), 1);
    assert_eq!(twice[0].address, a);
    assert_eq!(twice[0].state, State::Alive);
}

#[test]
fn upsert_distinct_addresses_grow_the_table() {
    let mut t = MembershipTable::new();
    for i in 0..8u8 {
        t.upsert_alive(addr(i, 4000 + i as u16));
    }
    assert_eq!(t.len(), 8);
    for i in 0..8u8 {
        assert_eq!(t.state_of(addr(i, 4000 + i as u16)), Some(State::Alive));
    }
}

#[test]
fn same_ip_different_port_is_a_different_peer() {
    let mut t = MembershipTable::new();
    t.upsert_alive(addr(1, 4001));
    t.upsert_alive(addr(1, 4002));
    assert_eq!(t.len(), 2);
}

#[test]
fn sample_of_empty_table_is_empty() {
    let t = MembershipTable::new();
    assert!(t.sample_random(1).is_empty());
    assert!(t.sample_random(100).is_empty());
    assert!(t.sample_random(0).is_empty());
}

#[test]
fn sample_of_single_entry_table_is_that_entry() {
    let mut t = MembershipTable::new();
    let a = addr(9, 1234);
    t.upsert_alive(a);
    for _ in 0..32 {
        let s = t.sample_random(1);
        assert_eq!(s.len(), 1);
        assert_eq!(s[0].address, a);
        assert_eq!(s[0].state, State::Alive);
    }
}

#[test]
fn sample_returns_distinct_members() {
    let mut t = MembershipTable::new();
    for i in 0..5u8 {
        t.upsert_alive(addr(i, 5000));
    }
    for _ in 0..32 {
        let s = t.sample_random(3);
        assert_eq!(s.len(), 3);
        for x in 0..s.len() {
            assert!(t.contains(s[x].address));
            for y in 0..x {
                assert_ne!(s[x].address, s[y].address);
            }
        }
    }
}

#[test]
fn sample_count_is_capped_at_table_size() {
    let mut t = MembershipTable::new();
    for i in 0..4u8 {
        t.upsert_alive(addr(i, 6000));
    }
    assert_eq!(t.sample_random(10).len(), 4);
    assert_eq!(t.sample_random(4).len(), 4);
    assert_eq!(t.sample_random(2).len(), 2);
}

#[test]
fn snapshot_keeps_insertion_order() {
    let mut t = MembershipTable::new();
    t.upsert_alive(addr(3, 1));
    t.upsert_alive(addr(1, 1));
    t.upsert_alive(addr(2, 1));
    let s = t.snapshot();
    assert_eq!(s.len(), 3);
    assert_eq!(s[0].address, addr(3, 1));
    assert_eq!(s[1].address, addr(1, 1));
    assert_eq!(s[2].address, addr(2, 1));
}

#[test]
fn interleaved_upserts_and_samples_stay_consistent() {
    // The sequential shape of the concurrent workload: each upsert and
    // each sample is one atomic step under the table's lock, so any
    // interleaving is some such sequence. Every sampled node must be
    // fully formed and the final count must equal the distinct upserts.
    let mut t = MembershipTable::new();
    for i in 0..10u8 {
        t.upsert_alive(addr(i, 7000));
        let s = t.sample_random(4);
        for node in &s {
            assert!(t.contains(node.address));
            assert_eq!(node.state, State::Alive);
        }
    }
    assert_eq!(t.len(), 10);
}

#[test]
fn state_of_unknown_address_is_none() {
    let t = MembershipTable::new();
    assert_eq!(t.state_of(addr(1, 1)), None);
    assert!(!t.contains(addr(1, 1)));
}

#[test]
fn node_state_names() {
    assert_eq!(State::Alive.as_str(), "alive");
    assert_eq!(State::Suspected.as_str(), "suspected");
}
