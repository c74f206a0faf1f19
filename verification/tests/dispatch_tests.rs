use hover::codec::encode_broadcast_message;
use hover::codec::encode_probe_req_payload;
use hover::common::Address;
use hover::common::BroadcastMessage;
use hover::common::Message;
use hover::common::MessageType;
use hover::common::NodeMeta;
use hover::common::ProbeReqPayload;
use hover::dispatch::DispatchAction;
use hover::dispatch::MessageDispatcher;
use hover::dispatch::MessagingService;
use hover::dispatch::ResponseTable;

fn addr(port: u16) -> Address {
    Address::from_octets(127, 0, 0, 1, port)
}

fn msg(cor_id: u128, msg_type: MessageType, payload: Vec<u8>) -> Message {
    Message { cor_id, msg_type, payload, return_address: addr(6202) }
}

#[test]
fn every_correlation_id_has_one_waiter() {
    let mut t = ResponseTable::new();
    t.add_resp_callback(5, 100);
    assert!(t.contains(5));
    assert_eq!(t.len(), 1);
    // registering again replaces: still exactly one waiter
    t.add_resp_callback(5, 200);
    assert_eq!(t.len(), 1);
    assert_eq!(t.take_resp_callback(5), Some(200));
    assert_eq!(t.len(), 0);
}

#[test]
fn response_is_delivered_exactly_once() {
    let mut t = ResponseTable::new();
    t.add_resp_callback(9, 42);
    assert_eq!(t.take_resp_callback(9), Some(42));
    // a second, late response finds no waiter
    assert_eq!(t.take_resp_callback(9), None);
}

#[test]
fn removal_covers_timeout_and_send_failure_paths() {
    let mut t = ResponseTable::new();
    t.add_resp_callback(1, 10);
    t.add_resp_callback(2, 20);
    t.remove_resp_callback(1);
    assert!(!t.contains(1));
    assert!(t.contains(2));
    // removing an absent id is harmless
    t.remove_resp_callback(7);
    assert_eq!(t.len(), 1);
}

#[test]
fn request_goes_to_listeners() {
    let mut d = MessageDispatcher::new();
    let a = d.handle_in_message(msg(1, MessageType::Request, vec![1, 2]));
    assert!(matches!(a, DispatchAction::NotifyListeners { msg: m } if m.payload == vec![1, 2]));
}

#[test]
fn response_wakes_its_waiter() {
    let mut d = MessageDispatcher::new();
    d.resp_callbacks.add_resp_callback(33, 7);
    let a = d.handle_in_message(msg(33, MessageType::Response, vec![0xff]));
    assert!(
        matches!(a, DispatchAction::RespondWaiter { waiter: 7, msg: m } if m.payload == vec![0xff])
    );
    // the entry is gone, so a late duplicate is dropped
    let b = d.handle_in_message(msg(33, MessageType::Response, vec![0xff]));
    assert!(matches!(b, DispatchAction::Ignore));
}

#[test]
fn uncorrelated_response_is_dropped() {
    let mut d = MessageDispatcher::new();
    let a = d.handle_in_message(msg(99, MessageType::Response, Vec::new()));
    assert!(matches!(a, DispatchAction::Ignore));
}

#[test]
fn probe_becomes_probe_in_event() {
    let mut d = MessageDispatcher::new();
    let a = d.handle_in_message(msg(5, MessageType::Probe, Vec::new()));
    assert!(matches!(
        a,
        DispatchAction::PostProbeIn { cor_id: 5, return_address } if return_address == addr(6202)
    ));
}

#[test]
fn probe_req_decodes_its_target() {
    let target = NodeMeta { id: 77, addr: addr(6203) };
    let payload = encode_probe_req_payload(&ProbeReqPayload { node: target });
    let mut d = MessageDispatcher::new();
    let a = d.handle_in_message(msg(6, MessageType::ProbeReq, payload));
    assert!(matches!(
        a,
        DispatchAction::PostProbeReqIn { cor_id: 6, probe_node, .. } if probe_node == target
    ));
    // an undecodable payload is dropped, not propagated
    let b = d.handle_in_message(msg(6, MessageType::ProbeReq, vec![0u8; 3]));
    assert!(matches!(b, DispatchAction::Ignore));
}

#[test]
fn broadcast_decodes_its_envelope() {
    let bm = BroadcastMessage { id: 123, payload: b"gossip".to_vec() };
    let payload = encode_broadcast_message(&bm);
    let mut d = MessageDispatcher::new();
    let a = d.handle_in_message(msg(8, MessageType::Broadcast, payload));
    assert!(matches!(
        a,
        DispatchAction::PostBroadcastIn { payload: p } if p.id == 123 && p.payload == b"gossip".to_vec()
    ));
    let b = d.handle_in_message(msg(8, MessageType::Broadcast, vec![1, 2, 3]));
    assert!(matches!(b, DispatchAction::Ignore));
}

#[test]
fn reply_echoes_the_correlation_id() {
    let local = NodeMeta { id: 1, addr: addr(6202) };
    let ms = MessagingService::new(local);
    let m = ms.build_reply(555, vec![0xff]);
    assert_eq!(m.cor_id, 555);
    assert_eq!(m.msg_type, MessageType::Response);
    assert_eq!(m.payload, vec![0xff]);
    assert_eq!(m.return_address, addr(6202));
}

#[test]
fn outbound_messages_carry_fresh_ids_and_return_address() {
    let local = NodeMeta { id: 1, addr: addr(6202) };
    let ms = MessagingService::new(local);
    let a = ms.build_message(Vec::new(), MessageType::Probe);
    let b = ms.build_message(Vec::new(), MessageType::Probe);
    assert_eq!(a.msg_type, MessageType::Probe);
    assert_eq!(a.return_address, addr(6202));
    // identifiers are drawn at random from 2^122 possibilities
    assert_ne!(a.cor_id, b.cor_id);
}
