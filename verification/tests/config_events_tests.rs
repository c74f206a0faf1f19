use hover::common::Address;
use hover::common::DiscoveryMessage;
use hover::common::DiscoveryMessageType;
use hover::common::NodeMeta;
use hover::config::apply_default;
use hover::config::BroadcastConfig;
use hover::config::DiscoveryConfig;
use hover::config::HoverConfig;
use hover::config::Settings;
use hover::discovery::build_discovery_event;
use hover::discovery::build_join_message;
use hover::discovery::build_leave_message;
use hover::discovery::discovery_reaction;
use hover::events::Event;
use hover::events::EventQueue;
use hover::random::gen_msg_id;
use hover::random::rand_below;

fn node(id: u128, port: u16) -> NodeMeta {
    NodeMeta { id, addr: Address::from_octets(127, 0, 0, 1, port) }
}

#[test]
fn default_config_values() {
    let c = HoverConfig::default().unwrap();
    assert_eq!(c.address, "127.0.0.1");
    assert_eq!(c.port, 6202);
    assert_eq!(c.discovery.multicast_group, "228.0.0.1");
    assert_eq!(c.discovery.multicast_port, 2403);
    assert_eq!(c.discovery.fanout, 2);
    assert_eq!(c.discovery.rate_ms, 500);
    assert_eq!(c.discovery.probe_timeout_ms, 500);
    assert_eq!(c.discovery.probe_req_timeout_ms, 700);
    assert_eq!(c.broadcast.fanout, 2);
    assert_eq!(c.broadcast.rate_ms, 500);
    assert_eq!(c.broadcast.message_keep, 500);
}

#[test]
fn apply_default_overwrites_everything() {
    let mut c = HoverConfig {
        address: "10.0.0.9".to_owned(),
        port: 1,
        discovery: DiscoveryConfig {
            multicast_group: "224.0.0.9".to_owned(),
            multicast_port: 1,
            fanout: 9,
            rate_ms: 9,
            probe_timeout_ms: 9,
            probe_req_timeout_ms: 9,
        },
        broadcast: BroadcastConfig { fanout: 9, rate_ms: 9, message_keep: 9 },
    };
    apply_default(&mut c);
    assert_eq!(c.address, "127.0.0.1");
    assert_eq!(c.discovery.fanout, 2);
    assert_eq!(c.broadcast.message_keep, 500);
}

#[test]
fn default_settings_values() {
    let s = Settings::new().unwrap();
    assert_eq!(s.host, "127.0.0.1");
    assert_eq!(s.port, 1111);
}

#[test]
fn event_queue_delivers_in_posting_order() {
    let mut q = EventQueue::new();
    assert!(q.take_next().is_none());
    q.post_event(Event::JoinOut { node_meta: node(1, 6202) });
    q.post_event(Event::Empty);
    q.post_event(Event::LeftOut { node_meta: node(2, 6203) });
    assert_eq!(q.len(), 3);
    assert!(matches!(
        q.take_next(),
        Some(Event::JoinOut { node_meta }) if node_meta.id == 1
    ));
    assert!(matches!(q.take_next(), Some(Event::Empty)));
    assert!(matches!(
        q.take_next(),
        Some(Event::LeftOut { node_meta }) if node_meta.id == 2
    ));
    assert!(q.take_next().is_none());
}

#[test]
fn discovery_announcements() {
    let n = node(5, 6205);
    let j = build_join_message(n);
    assert_eq!(j.msg_type, DiscoveryMessageType::Joined);
    assert_eq!(j.node_meta, n);
    let l = build_leave_message(n);
    assert_eq!(l.msg_type, DiscoveryMessageType::Left);
    assert_eq!(l.node_meta, n);
}

#[test]
fn inbound_announcements_become_events() {
    let n = node(5, 6205);
    let e = build_discovery_event(&DiscoveryMessage {
        msg_type: DiscoveryMessageType::Joined,
        node_meta: n,
    });
    assert!(matches!(e, Event::JoinIn { node_meta } if node_meta == n));
    let e = build_discovery_event(&DiscoveryMessage {
        msg_type: DiscoveryMessageType::Left,
        node_meta: n,
    });
    assert!(matches!(e, Event::LeftIn { node_meta } if node_meta == n));
}

#[test]
fn member_left_provokes_exactly_one_left_out() {
    let n = node(5, 6205);
    let r = discovery_reaction(&Event::MemberLeft { node_meta: n });
    assert!(matches!(r, Some(Event::LeftOut { node_meta }) if node_meta == n));
    assert!(discovery_reaction(&Event::MemberAdded { node_meta: n }).is_none());
    assert!(discovery_reaction(&Event::Empty).is_none());
}

#[test]
fn random_index_stays_in_range() {
    for n in [1usize, 2, 3, 17] {
        for _ in 0..50 {
            assert!(rand_below(n) < n);
        }
    }
}

#[test]
fn message_ids_are_effectively_unique() {
    let a = gen_msg_id();
    let b = gen_msg_id();
    assert_ne!(a, b);
}
