use sn_dkg::name::{Name, Prefix};
use sn_dkg::peer::{Address, Peer};
use sn_dkg::session::{DkgSessionId, ElderCandidates};

fn v4(last: u32, port: u16) -> Address {
    Address::V4 { ip: 0x0a00_0000 + last, port }
}

#[test]
fn age_is_last_byte_of_name() {
    let mut bytes = [0u8; 32];
    bytes[31] = 77;
    bytes[0] = 200;
    let peer = Peer::new(Name::from_bytes(&bytes), v4(1, 5000));
    assert_eq!(peer.age(), 77);
    assert_eq!(peer.name().to_bytes(), bytes);
    assert_eq!(peer.addr(), v4(1, 5000));
}

#[test]
fn peers_are_equal_by_name_and_address() {
    let a = Peer::new(Name::new(0, 1), v4(1, 1));
    assert_eq!(a, Peer::new(Name::new(0, 1), v4(1, 1)));
    assert_ne!(a, Peer::new(Name::new(0, 1), v4(1, 2)));
    assert_ne!(a, Peer::new(Name::new(0, 2), v4(1, 1)));
}

#[test]
fn peers_are_ordered_by_name_then_address() {
    let a = Peer::new(Name::new(0, 1), v4(9, 9));
    let b = Peer::new(Name::new(0, 2), v4(1, 1));
    let c = Peer::new(Name::new(0, 2), v4(1, 2));
    assert!(a.precedes(&b));
    assert!(b.precedes(&c));
    assert!(a.precedes(&c));
    assert!(!c.precedes(&b));
    assert!(!a.precedes(&a));
    assert!(a < b && b < c);
}

#[test]
fn addresses_of_version_four_come_first() {
    let four = Address::V4 { ip: u32::MAX, port: u16::MAX };
    let six = Address::V6 { ip: 0, port: 0 };
    assert!(four.precedes(&six));
    assert!(!six.precedes(&four));
    assert!(four < six);
    assert!(Address::V6 { ip: 1, port: 9 }.precedes(&Address::V6 { ip: 2, port: 0 }));
    assert!(Address::V4 { ip: 1, port: 1 }.precedes(&Address::V4 { ip: 1, port: 2 }));
    assert!(!Address::V4 { ip: 1, port: 2 }.precedes(&Address::V4 { ip: 1, port: 2 }));
}

#[test]
fn candidates_are_sorted_by_name() {
    let prefix = Prefix::new(0, Name::new(0, 0));
    let a = Peer::new(Name::new(0, 1), v4(1, 1));
    let b = Peer::new(Name::new(0, 2), v4(2, 2));
    let c = Peer::new(Name::new(0, 3), v4(3, 3));
    let candidates = ElderCandidates::new(prefix, vec![c, a, b]);
    assert_eq!(candidates.len(), 3);
    assert_eq!(candidates.elders(), vec![a, b, c]);
    assert_eq!(candidates.names(), vec![a.name, b.name, c.name]);
    assert_eq!(candidates.name_set().to_vec(), vec![a.name, b.name, c.name]);
    assert_eq!(candidates.position(&b.name), Some(1));
    assert_eq!(candidates.position(&Name::new(5, 5)), None);
    assert!(candidates.contains_name(&c.name));
    assert_eq!(candidates.get(2), c);
    assert_eq!(candidates.prefix(), prefix);
}

#[test]
fn last_candidate_of_a_name_wins() {
    let prefix = Prefix::new(0, Name::new(0, 0));
    let first = Peer::new(Name::new(0, 1), v4(1, 1));
    let second = Peer::new(Name::new(0, 1), v4(1, 2));
    let other = Peer::new(Name::new(0, 0), v4(7, 7));
    let candidates = ElderCandidates::new(prefix, vec![first, other, second]);
    assert_eq!(candidates.elders(), vec![other, second]);
    let mut more = candidates.copy();
    more.insert(first);
    assert_eq!(more.elders(), vec![other, first]);
    assert!(!more.same(&candidates));
    assert!(candidates.copy().same(&candidates));
}

#[test]
fn empty_candidates() {
    let prefix = Prefix::new(1, Name::new(0, 0));
    let none = ElderCandidates::empty(prefix);
    assert_eq!(none.len(), 0);
    assert!(none.same(&ElderCandidates::new(prefix, vec![])));
    assert!(!none.same(&ElderCandidates::empty(Prefix::new(2, Name::new(0, 0)))));
}

#[test]
fn session_identity_is_prefix_generation_and_elders() {
    let prefix = Prefix::new(0, Name::new(0, 0));
    let a = Peer::new(Name::new(0, 1), v4(1, 1));
    let b = Peer::new(Name::new(0, 2), v4(2, 2));
    let candidates = ElderCandidates::new(prefix, vec![b, a]);
    let id = DkgSessionId::new(&candidates, 5);
    assert_eq!(id.generation(), 5);
    assert_eq!(id.prefix(), prefix);
    assert_eq!(id.elders(), vec![a, b]);
    assert!(id.same(&id.copy()));
    assert!(!id.same(&DkgSessionId::new(&candidates, 6)));
    let moved = ElderCandidates::new(prefix, vec![Peer::new(b.name, v4(2, 3)), a]);
    assert!(!id.same(&DkgSessionId::new(&moved, 5)));
    let elsewhere = ElderCandidates::new(Prefix::new(1, Name::new(0, 0)), vec![a, b]);
    assert!(!id.same(&DkgSessionId::new(&elsewhere, 5)));
}
