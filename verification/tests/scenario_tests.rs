//! The wire-level scenarios of the design, replayed against the verified
//! core: the sockets and clocks are stripped away and every message that
//! would cross the network is handed over directly.

use hover::codec::decode_message;
use hover::codec::encode_broadcast_message;
use hover::codec::encode_message;
use hover::common::Address;
use hover::common::BroadcastMessage;
use hover::common::Message;
use hover::common::MessageType;
use hover::common::NodeMeta;
use hover::config::BroadcastConfig;
use hover::dispatch::DispatchAction;
use hover::dispatch::MessageDispatcher;
use hover::dispatch::MessagingService;
use hover::events::Event;
use hover::gossip::GossipProtocol;
use hover::membership::MembershipAction;
use hover::membership::MembershipService;

fn node(id: u128, port: u16) -> NodeMeta {
    NodeMeta { id, addr: Address::from_octets(127, 0, 0, 1, port) }
}

/// Two nodes see each other's multicast announcement: each membership set
/// gains the other exactly once, however often the announcement repeats.
#[test]
fn two_node_join_visibility() {
    let a_meta = node(1, 6202);
    let b_meta = node(2, 6203);
    let mut a = MembershipService::new(a_meta);
    let mut b = MembershipService::new(b_meta);

    // every discovery period each node announces itself; both receive
    // both announcements, their own included
    for _ in 0..3 {
        assert!(matches!(
            a.on_event(&Event::JoinIn { node_meta: a_meta }),
            MembershipAction::Ignore
        ));
        let b_seen_by_a = a.on_event(&Event::JoinIn { node_meta: b_meta });
        let a_seen_by_b = b.on_event(&Event::JoinIn { node_meta: a_meta });
        assert!(matches!(
            b.on_event(&Event::JoinIn { node_meta: b_meta }),
            MembershipAction::Ignore
        ));
        match (b_seen_by_a, a_seen_by_b) {
            (MembershipAction::Added { node_meta: x }, MembershipAction::Added { node_meta: y }) => {
                assert_eq!(x, b_meta);
                assert_eq!(y, a_meta);
            },
            (MembershipAction::Ignore, MembershipAction::Ignore) => {},
            other => panic!("a repeated announcement must not add again: {other:?}"),
        }
    }
    assert_eq!(a.get_members(), vec![b_meta]);
    assert_eq!(b.get_members(), vec![a_meta]);
}

/// A cannot reach B directly, but C's indirect probe succeeds: B stays a
/// member on all three nodes.
#[test]
fn probe_recovery_via_probe_req() {
    let a_meta = node(1, 6202);
    let b_meta = node(2, 6203);
    let c_meta = node(3, 6204);
    let mut a = MembershipService::new(a_meta);
    for m in [b_meta, c_meta] {
        a.handle_joined_node(m);
    }

    // the direct probe of B times out; the relays exclude B itself
    let relays = a.select_probe_relays(b_meta.id, 2);
    assert_eq!(relays, vec![c_meta]);

    // C probes B on A's behalf and a response arrives in time
    let evicted = a.conclude_probe(b_meta, false, true);
    assert!(!evicted);
    assert_eq!(a.get_member_count(), 2);
    assert!(a.get_member_by_id(b_meta.id).is_some());
}

/// One node broadcasts; every other node's listener fires exactly once,
/// and the originator's not at all.
#[test]
fn broadcast_propagation() {
    let config = BroadcastConfig { fanout: 2, rate_ms: 500, message_keep: 500 };
    let members: Vec<NodeMeta> = (2..=5).map(|i| node(i, 6200 + i as u16)).collect();

    let mut origin = GossipProtocol::new(&config);
    // the application broadcasts; local listeners are not notified
    origin.send_new_broadcast(b"hello".to_vec(), members.len());
    let (bm, peers) = origin.gossip_round(&members).expect("peers exist");
    assert_eq!(peers.len(), 2);
    assert_eq!(bm.payload, b"hello".to_vec());

    // each selected peer sees the envelope; relaying it onwards reaches
    // everyone, possibly several times
    let mut notified = 0usize;
    for _ in members.iter() {
        let mut peer_state = GossipProtocol::new(&config);
        for _ in 0..3 {
            let copy = BroadcastMessage { id: bm.id, payload: bm.payload.clone() };
            if peer_state.handle_received_broadcast(copy, members.len()) {
                notified += 1;
            }
        }
    }
    assert_eq!(notified, members.len(), "exactly one notification per peer");

    // the originator suppresses its own envelope coming back
    let echo = BroadcastMessage { id: bm.id, payload: bm.payload.clone() };
    assert!(!origin.handle_received_broadcast(echo, members.len()));
}

/// A request with a response: the reply carries the same correlation id
/// and payload, and a late duplicate is dropped silently.
#[test]
fn request_response_correlation() {
    let a_meta = node(1, 6202);
    let b_meta = node(2, 6203);
    let a_messaging = MessagingService::new(a_meta);
    let b_messaging = MessagingService::new(b_meta);
    let mut a_dispatcher = MessageDispatcher::new();
    let mut b_dispatcher = MessageDispatcher::new();

    // A sends a request and parks a waiter under its correlation id
    let request = a_messaging.build_message(Vec::new(), MessageType::Request);
    let cor_id = request.cor_id;
    a_dispatcher.resp_callbacks.add_resp_callback(cor_id, 1);

    // the wire carries the encoded request to B
    let on_b = decode_message(&encode_message(&request)).expect("the wire is faithful");
    let action = b_dispatcher.handle_in_message(on_b);
    let heard = match action {
        DispatchAction::NotifyListeners { msg } => msg,
        other => panic!("a request must reach the listeners: {other:?}"),
    };

    // B's listener replies with 0xff to A's return address
    assert_eq!(heard.return_address, a_meta.addr);
    let reply = b_messaging.build_reply(heard.cor_id, vec![0xff]);
    let on_a = decode_message(&encode_message(&reply)).expect("the wire is faithful");
    match a_dispatcher.handle_in_message(on_a) {
        DispatchAction::RespondWaiter { waiter, msg } => {
            assert_eq!(waiter, 1);
            assert_eq!(msg.cor_id, cor_id);
            assert_eq!(msg.payload, vec![0xff]);
        },
        other => panic!("the response must wake the waiter: {other:?}"),
    }

    // a second, late response to the same correlation id is dropped
    let late = b_messaging.build_reply(cor_id, vec![0xff]);
    assert!(matches!(a_dispatcher.handle_in_message(late), DispatchAction::Ignore));
}

/// A peer dies abruptly: after the direct and the indirect phase both
/// fail, the survivors evict it exactly once and announce `MemberLeft`.
#[test]
fn eviction_on_hard_failure() {
    let a_meta = node(1, 6202);
    let b_meta = node(2, 6203);
    let c_meta = node(3, 6204);
    let mut a = MembershipService::new(a_meta);
    a.handle_joined_node(b_meta);
    a.handle_joined_node(c_meta);

    // B is gone: neither the direct probe nor C's indirect probe answers
    assert!(a.conclude_probe(b_meta, false, false));
    assert!(a.get_member_by_id(b_meta.id).is_none());
    assert_eq!(a.get_member_count(), 1);

    // the ticker turns the eviction into exactly one departure
    let left = hover::discovery::discovery_reaction(&Event::MemberLeft { node_meta: b_meta });
    assert!(matches!(left, Some(Event::LeftOut { node_meta }) if node_meta == b_meta));
    // a second round cannot evict the same peer again
    assert!(!a.conclude_probe(b_meta, false, false));
}
