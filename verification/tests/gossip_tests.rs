use hover::common::Address;
use hover::common::BroadcastMessage;
use hover::common::NodeMeta;
use hover::config::BroadcastConfig;
use hover::gossip::get_rounds_count;
use hover::gossip::GossipProtocol;

fn node(id: u128, port: u16) -> NodeMeta {
    NodeMeta { id, addr: Address::from_octets(127, 0, 0, 1, port) }
}

fn gossip(fanout: u32, message_keep: i32) -> GossipProtocol {
    GossipProtocol::new(&BroadcastConfig { fanout, rate_ms: 500, message_keep })
}

fn bm(id: u128, payload: &[u8]) -> BroadcastMessage {
    BroadcastMessage { id, payload: payload.to_vec() }
}

#[test]
fn rounds_formula_one_round_for_lone_node() {
    assert_eq!(get_rounds_count(0, 2), 1);
    assert_eq!(get_rounds_count(1, 2), 1);
    assert_eq!(get_rounds_count(1, 7), 1);
}

#[test]
fn rounds_formula_exact_values() {
    // floor(2 * ln(99 * n) / fanout)
    assert_eq!(get_rounds_count(2, 2), 5); // ln(198) = 5.288...
    assert_eq!(get_rounds_count(5, 2), 6); // ln(495) = 6.204...
    assert_eq!(get_rounds_count(100, 2), 9); // ln(9900) = 9.200...
    assert_eq!(get_rounds_count(3, 3), 3); // 2 ln(297) / 3 = 3.797...
    assert_eq!(get_rounds_count(1_000_000, 7), 5); // 2 ln(99e6) / 7 = 5.26...
    assert_eq!(get_rounds_count(2, 1), 10); // 2 ln(198) = 10.57...
}

#[test]
fn first_delivery_notifies_second_does_not() {
    let mut g = gossip(2, 500);
    assert!(g.handle_received_broadcast(bm(7, b"hello"), 4));
    assert!(!g.handle_received_broadcast(bm(7, b"hello"), 4));
    // still buffered exactly once
    assert_eq!(g.send_buffer.len(), 1);
}

#[test]
fn buffered_id_sits_in_exactly_one_buffer() {
    let mut g = gossip(1, 500);
    let members = vec![node(2, 6203)];
    g.handle_received_broadcast(bm(7, b"x"), 1); // rounds = 1
    assert!(g.send_buffer_contains(7) && !g.keep_buffer_contains(7));
    let plan = g.gossip_round(&members); // budget 1 -> 0
    assert!(plan.is_some());
    assert!(g.send_buffer_contains(7) && !g.keep_buffer_contains(7));
    let plan = g.gossip_round(&members); // budget 0 -> -1, moves to keep
    assert!(plan.is_some());
    assert!(!g.send_buffer_contains(7) && g.keep_buffer_contains(7));
    assert!(g.buffer_contains(7));
}

#[test]
fn keep_buffer_evicts_after_retention() {
    let mut g = gossip(1, 0); // no retention beyond the move round
    let members = vec![node(2, 6203)];
    g.handle_received_broadcast(bm(7, b"x"), 0); // rounds = 1
    let _ = g.gossip_round(&members); // 1 -> 0
    let _ = g.gossip_round(&members); // 0 -> -1, moved, aged to -2, evicted
    assert!(!g.buffer_contains(7));
    assert_eq!(g.send_buffer.len(), 0);
    assert_eq!(g.keep_buffer.len(), 0);
    // once forgotten, the same broadcast notifies again
    assert!(g.handle_received_broadcast(bm(7, b"x"), 0));
}

#[test]
fn empty_peer_set_sends_nothing() {
    let mut g = gossip(2, 500);
    g.send_new_broadcast(vec![0x01, 0x02], 0);
    assert_eq!(g.send_buffer.len(), 1);
    let plan = g.gossip_round(&Vec::new());
    assert!(plan.is_none());
    // nothing was sent and the broadcast stays buffered
    assert_eq!(g.send_buffer.len(), 1);
}

#[test]
fn empty_send_buffer_sends_nothing() {
    let mut g = gossip(2, 500);
    let plan = g.gossip_round(&vec![node(2, 6203)]);
    assert!(plan.is_none());
}

#[test]
fn round_plan_samples_distinct_members() {
    let mut g = gossip(2, 500);
    let members = vec![node(2, 6203), node(3, 6204), node(4, 6205)];
    g.handle_received_broadcast(bm(9, b"payload"), members.len());
    let (msg, peers) = g.gossip_round(&members).expect("peers and a broadcast exist");
    assert_eq!(msg.id, 9);
    assert_eq!(msg.payload, b"payload".to_vec());
    assert_eq!(peers.len(), 2);
    assert_ne!(peers[0].id, peers[1].id);
    assert!(peers.iter().all(|p| members.contains(p)));
}

#[test]
fn round_fanout_larger_than_cluster() {
    let mut g = gossip(10, 500);
    let members = vec![node(2, 6203), node(3, 6204)];
    g.send_new_broadcast(b"hi".to_vec(), members.len());
    let (_, peers) = g.gossip_round(&members).expect("a plan");
    assert_eq!(peers.len(), 2);
}

#[test]
fn local_broadcasts_are_buffered_not_notified() {
    let mut g = gossip(2, 500);
    g.send_new_broadcast(vec![1, 2, 3], 5);
    assert_eq!(g.send_buffer.len(), 1);
    assert_eq!(g.send_buffer[0].msg.payload, vec![1, 2, 3]);
    assert!(g.send_buffer[0].send);
    assert_eq!(g.send_buffer[0].rounds, get_rounds_count(5, 2));
    // an inbound copy of the same envelope is suppressed
    let id = g.send_buffer[0].msg.id;
    assert!(!g.handle_received_broadcast(bm(id, &[1, 2, 3]), 5));
}

#[test]
fn distinct_broadcasts_accumulate() {
    let mut g = gossip(2, 500);
    assert!(g.handle_received_broadcast(bm(1, b"a"), 3));
    assert!(g.handle_received_broadcast(bm(2, b"b"), 3));
    assert_eq!(g.send_buffer.len(), 2);
    assert!(g.buffer_contains(1) && g.buffer_contains(2) && !g.buffer_contains(3));
}
