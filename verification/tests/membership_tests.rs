use hover::common::Address;
use hover::common::NodeMeta;
use hover::events::Event;
use hover::membership::MembershipAction;
use hover::membership::MembershipService;
use hover::membership::sample_distinct_members;

fn node(id: u128, port: u16) -> NodeMeta {
    NodeMeta { id, addr: Address::from_octets(127, 0, 0, 1, port) }
}

fn service_with(peers: &[NodeMeta]) -> MembershipService {
    let mut s = MembershipService::new(node(1, 6202));
    for p in peers {
        assert!(s.handle_joined_node(*p));
    }
    s
}

#[test]
fn join_adds_once() {
    let mut s = MembershipService::new(node(1, 6202));
    let b = node(2, 6203);
    assert!(s.handle_joined_node(b));
    assert_eq!(s.get_member_count(), 1);
    // the same announcement again yields no second addition
    assert!(!s.handle_joined_node(b));
    assert_eq!(s.get_member_count(), 1);
}

#[test]
fn join_ignores_local_node() {
    let mut s = MembershipService::new(node(1, 6202));
    assert!(!s.handle_joined_node(node(1, 6202)));
    assert_eq!(s.get_member_count(), 0);
    // a different address with the local identifier is still the local node
    assert!(!s.handle_joined_node(node(1, 7777)));
    assert_eq!(s.get_member_count(), 0);
}

#[test]
fn join_same_id_different_address_is_duplicate() {
    let mut s = service_with(&[node(2, 6203)]);
    assert!(!s.handle_joined_node(node(2, 9999)));
    assert_eq!(s.get_member_count(), 1);
}

#[test]
fn left_removes_member() {
    let mut s = service_with(&[node(2, 6203), node(3, 6204)]);
    assert!(s.handle_left_node(node(2, 6203)));
    assert_eq!(s.get_member_count(), 1);
    assert!(s.get_member_by_id(2).is_none());
    assert!(s.get_member_by_id(3).is_some());
}

#[test]
fn left_of_non_member_is_noop() {
    let mut s = service_with(&[node(2, 6203)]);
    assert!(!s.handle_left_node(node(9, 6209)));
    assert_eq!(s.get_member_count(), 1);
    assert_eq!(s.get_members(), vec![node(2, 6203)]);
}

#[test]
fn lookups_by_id_and_address() {
    let s = service_with(&[node(2, 6203), node(3, 6204)]);
    assert_eq!(s.get_member_by_id(3).unwrap(), node(3, 6204));
    assert!(s.get_member_by_id(4).is_none());
    let found = s
        .get_member_by_address(&Address::from_octets(127, 0, 0, 1, 6203))
        .unwrap();
    assert_eq!(found, node(2, 6203));
    assert!(s
        .get_member_by_address(&Address::from_octets(127, 0, 0, 1, 1))
        .is_none());
}

#[test]
fn members_snapshot_keeps_order() {
    let s = service_with(&[node(2, 6203), node(3, 6204), node(4, 6205)]);
    assert_eq!(s.get_members(), vec![node(2, 6203), node(3, 6204), node(4, 6205)]);
}

#[test]
fn empty_set_probes_nobody() {
    let s = MembershipService::new(node(1, 6202));
    assert!(s.choose_random_member().is_none());
    let relays = s.select_probe_relays(2, 2);
    assert!(relays.is_empty());
}

#[test]
fn single_member_is_always_probed() {
    let s = service_with(&[node(2, 6203)]);
    // with one member the uniform choice has one outcome
    assert_eq!(s.choose_random_member().unwrap(), node(2, 6203));
}

#[test]
fn relays_exclude_target_and_are_distinct() {
    let s = service_with(&[node(2, 6203), node(3, 6204), node(4, 6205)]);
    let relays = s.select_probe_relays(2, 2);
    assert_eq!(relays.len(), 2);
    assert!(relays.iter().all(|m| m.id != 2));
    assert_ne!(relays[0].id, relays[1].id);
    // asking for more relays than exist yields everyone but the target
    let all = s.select_probe_relays(2, 10);
    assert_eq!(all.len(), 2);
}

#[test]
fn sampling_without_replacement() {
    let members = vec![node(2, 6203), node(3, 6204), node(4, 6205)];
    let sample = sample_distinct_members(&members, 3);
    assert_eq!(sample.len(), 3);
    let mut ids: Vec<u128> = sample.iter().map(|m| m.id).collect();
    ids.sort();
    assert_eq!(ids, vec![2, 3, 4]);
    assert_eq!(sample_distinct_members(&members, 0).len(), 0);
}

#[test]
fn eviction_needs_both_probe_phases_to_fail() {
    let mut s = service_with(&[node(2, 6203), node(3, 6204)]);
    assert!(!s.conclude_probe(node(2, 6203), true, false));
    assert_eq!(s.get_member_count(), 2);
    assert!(!s.conclude_probe(node(2, 6203), false, true));
    assert_eq!(s.get_member_count(), 2);
    assert!(s.conclude_probe(node(2, 6203), false, false));
    assert_eq!(s.get_member_count(), 1);
    assert!(s.get_member_by_id(2).is_none());
    // evicting an already-gone peer changes nothing
    assert!(!s.conclude_probe(node(2, 6203), false, false));
    assert_eq!(s.get_member_count(), 1);
}

#[test]
fn event_routing() {
    let mut s = MembershipService::new(node(1, 6202));
    let b = node(2, 6203);
    let a1 = s.on_event(&Event::JoinIn { node_meta: b });
    assert_eq!(a1, MembershipAction::Added { node_meta: b });
    let a2 = s.on_event(&Event::JoinIn { node_meta: b });
    assert_eq!(a2, MembershipAction::Ignore);
    let a3 = s.on_event(&Event::ProbeIn {
        cor_id: 77,
        return_address: b.addr,
    });
    assert_eq!(a3, MembershipAction::ReplyProbe { cor_id: 77, return_address: b.addr });
    let a4 = s.on_event(&Event::ProbeReqIn {
        cor_id: 78,
        probe_node: b,
        return_address: b.addr,
    });
    assert_eq!(
        a4,
        MembershipAction::IndirectProbe { cor_id: 78, probe_node: b, return_address: b.addr }
    );
    let a5 = s.on_event(&Event::LeftIn { node_meta: b });
    assert_eq!(a5, MembershipAction::Left { node_meta: b });
    assert_eq!(s.get_member_count(), 0);
    let a6 = s.on_event(&Event::LeftIn { node_meta: b });
    assert_eq!(a6, MembershipAction::Ignore);
    let a7 = s.on_event(&Event::Empty);
    assert_eq!(a7, MembershipAction::Ignore);
}
