use hover::codec::decode_broadcast_message;
use hover::codec::decode_discovery_message;
use hover::codec::decode_message;
use hover::codec::decode_probe_req_payload;
use hover::codec::encode_broadcast_message;
use hover::codec::encode_discovery_message;
use hover::codec::encode_message;
use hover::codec::encode_probe_req_payload;
use hover::codec::encode_u128;
use hover::codec::encode_u16;
use hover::codec::encode_u32;
use hover::common::Address;
use hover::common::BroadcastMessage;
use hover::common::DiscoveryMessage;
use hover::common::DiscoveryMessageType;
use hover::common::Message;
use hover::common::MessageType;
use hover::common::NodeMeta;
use hover::common::ProbeReqPayload;

fn sample_address() -> Address {
    Address::from_octets(127, 0, 0, 1, 6202)
}

fn sample_node(id: u128) -> NodeMeta {
    NodeMeta { id, addr: sample_address() }
}

#[test]
fn u16_little_endian_layout() {
    let mut out: Vec<u8> = Vec::new();
    encode_u16(&mut out, 0x1234);
    assert_eq!(out, vec![0x34, 0x12]);
}

#[test]
fn u32_little_endian_layout() {
    let mut out: Vec<u8> = Vec::new();
    encode_u32(&mut out, 0xdead_beef);
    assert_eq!(out, vec![0xef, 0xbe, 0xad, 0xde]);
}

#[test]
fn u128_little_endian_layout() {
    let mut out: Vec<u8> = Vec::new();
    encode_u128(&mut out, 1);
    let mut expected = vec![1u8];
    expected.extend_from_slice(&[0u8; 15]);
    assert_eq!(out, expected);
}

#[test]
fn message_round_trip() {
    let m = Message {
        cor_id: 0xa1a2_a3a4_b1b2_c1c2_d1d2_d3d4_d5d6_d7d8,
        msg_type: MessageType::Request,
        payload: vec![1, 2, 3, 4, 5],
        return_address: sample_address(),
    };
    let bytes = encode_message(&m);
    let back = decode_message(&bytes).expect("an encoded message must decode");
    assert_eq!(back.cor_id, m.cor_id);
    assert_eq!(back.msg_type, m.msg_type);
    assert_eq!(back.payload, m.payload);
    assert_eq!(back.return_address, m.return_address);
}

#[test]
fn message_round_trip_empty_payload() {
    let m = Message {
        cor_id: 7,
        msg_type: MessageType::Probe,
        payload: Vec::new(),
        return_address: sample_address(),
    };
    let bytes = encode_message(&m);
    assert_eq!(bytes.len(), 27);
    let back = decode_message(&bytes).expect("an encoded message must decode");
    assert_eq!(back.cor_id, 7);
    assert_eq!(back.msg_type, MessageType::Probe);
    assert!(back.payload.is_empty());
}

#[test]
fn message_round_trip_every_type() {
    for t in [
        MessageType::Request,
        MessageType::Response,
        MessageType::Probe,
        MessageType::ProbeReq,
        MessageType::Broadcast,
    ] {
        let m = Message {
            cor_id: 42,
            msg_type: t,
            payload: vec![0xff],
            return_address: sample_address(),
        };
        let back = decode_message(&encode_message(&m)).expect("must decode");
        assert_eq!(back.msg_type, t);
    }
}

#[test]
fn message_decode_rejects_garbage() {
    assert!(decode_message(&Vec::new()).is_none());
    assert!(decode_message(&vec![0u8; 26]).is_none());
    // a bad type tag at offset 16
    let m = Message {
        cor_id: 1,
        msg_type: MessageType::Request,
        payload: Vec::new(),
        return_address: sample_address(),
    };
    let mut bytes = encode_message(&m);
    bytes[16] = 9;
    assert!(decode_message(&bytes).is_none());
    // a length prefix that disagrees with the actual payload
    let mut bytes = encode_message(&m);
    bytes.push(0);
    assert!(decode_message(&bytes).is_none());
}

#[test]
fn broadcast_message_round_trip() {
    let bm = BroadcastMessage { id: 99, payload: b"hello".to_vec() };
    let bytes = encode_broadcast_message(&bm);
    let back = decode_broadcast_message(&bytes).expect("must decode");
    assert_eq!(back.id, 99);
    assert_eq!(back.payload, b"hello".to_vec());
}

#[test]
fn broadcast_message_decode_rejects_garbage() {
    assert!(decode_broadcast_message(&vec![0u8; 19]).is_none());
    let bm = BroadcastMessage { id: 5, payload: vec![1] };
    let mut bytes = encode_broadcast_message(&bm);
    bytes.pop();
    assert!(decode_broadcast_message(&bytes).is_none());
}

#[test]
fn discovery_message_round_trip() {
    for t in [DiscoveryMessageType::Joined, DiscoveryMessageType::Left] {
        let dm = DiscoveryMessage { msg_type: t, node_meta: sample_node(11) };
        let bytes = encode_discovery_message(&dm);
        assert_eq!(bytes.len(), 23);
        assert!(bytes.len() <= 256, "announcements must fit one datagram");
        let back = decode_discovery_message(&bytes).expect("must decode");
        assert_eq!(back.msg_type, t);
        assert_eq!(back.node_meta, dm.node_meta);
    }
}

#[test]
fn discovery_message_decode_rejects_garbage() {
    assert!(decode_discovery_message(&vec![0u8; 22]).is_none());
    let dm = DiscoveryMessage {
        msg_type: DiscoveryMessageType::Joined,
        node_meta: sample_node(3),
    };
    let mut bytes = encode_discovery_message(&dm);
    bytes[0] = 7;
    assert!(decode_discovery_message(&bytes).is_none());
}

#[test]
fn probe_req_payload_round_trip() {
    let p = ProbeReqPayload { node: sample_node(0xdead) };
    let bytes = encode_probe_req_payload(&p);
    assert_eq!(bytes.len(), 22);
    let back = decode_probe_req_payload(&bytes).expect("must decode");
    assert_eq!(back.node, p.node);
    assert!(decode_probe_req_payload(&vec![0u8; 21]).is_none());
}

#[test]
fn address_from_octets_packs_big_endian() {
    let a = Address::from_octets(228, 0, 0, 1, 2403);
    assert_eq!(a.ip, 0xe400_0001);
    assert_eq!(a.port, 2403);
}

#[test]
fn ipv4_text_accepts_dotted_quads() {
    assert_eq!(hover::ipv4::parse_ipv4("127.0.0.1"), Some((127, 0, 0, 1)));
    assert_eq!(hover::ipv4::parse_ipv4("228.0.0.1"), Some((228, 0, 0, 1)));
    assert_eq!(hover::ipv4::parse_ipv4("0.0.0.0"), Some((0, 0, 0, 0)));
    assert_eq!(hover::ipv4::parse_ipv4("255.255.255.255"), Some((255, 255, 255, 255)));
}

#[test]
fn ipv4_text_rejects_everything_else() {
    for bad in [
        "", ".", "...", "1.2.3", "1.2.3.4.5", "256.0.0.1", "1.2.3.999", "01.2.3.4",
        "1.2.3.04", "a.b.c.d", "1.2.3.4 ", " 1.2.3.4", "1..3.4", "1.2.3.", ".2.3.4",
        "1.2.3.4x", "1.2.-3.4",
    ] {
        assert_eq!(hover::ipv4::parse_ipv4(bad), None, "{bad:?} must be rejected");
    }
}
