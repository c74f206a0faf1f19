//! The wire codec: a deterministic binary encoding of the data-model
//! structures.  Integers are laid out little-endian with a fixed width;
//! payloads are length-prefixed.  Decoding is total on byte sequences and
//! rejects anything the encoder cannot produce; encode followed by decode
//! is the identity, proved here for every structure.

use vstd::prelude::*;

use crate::common::Address;
use crate::common::BroadcastMessage;
use crate::common::BroadcastMessageView;
use crate::common::DiscoveryMessage;
use crate::common::DiscoveryMessageType;
use crate::common::Message;
use crate::common::MessageType;
use crate::common::MessageView;
use crate::common::NodeMeta;
use crate::common::ProbeReqPayload;

verus! {

/// The two little-endian bytes of `x`.
pub open spec fn spec_u16_le(x: u16) -> Seq<u8> {
    seq![(x & 0xff) as u8, ((x >> 8) & 0xff) as u8]
}

/// The `u16` read little-endian from a two-byte sequence.
pub open spec fn spec_u16_from_le(s: Seq<u8>) -> u16
    recommends
        s.len() == 2,
{
    (s[0] as u16) | ((s[1] as u16) << 8)
}

/// The four little-endian bytes of `x`.
pub open spec fn spec_u32_le(x: u32) -> Seq<u8> {
    seq![
        (x & 0xff) as u8,
        ((x >> 8) & 0xff) as u8,
        ((x >> 16) & 0xff) as u8,
        ((x >> 24) & 0xff) as u8,
    ]
}

/// The `u32` read little-endian from a four-byte sequence.
pub open spec fn spec_u32_from_le(s: Seq<u8>) -> u32
    recommends
        s.len() == 4,
{
    (s[0] as u32) | ((s[1] as u32) << 8) | ((s[2] as u32) << 16) | ((s[3] as u32) << 24)
}

/// The sixteen little-endian bytes of `x`.
pub open spec fn spec_u128_le(x: u128) -> Seq<u8> {
    seq![
        (x & 0xff) as u8,
        ((x >> 8) & 0xff) as u8,
        ((x >> 16) & 0xff) as u8,
        ((x >> 24) & 0xff) as u8,
        ((x >> 32) & 0xff) as u8,
        ((x >> 40) & 0xff) as u8,
        ((x >> 48) & 0xff) as u8,
        ((x >> 56) & 0xff) as u8,
        ((x >> 64) & 0xff) as u8,
        ((x >> 72) & 0xff) as u8,
        ((x >> 80) & 0xff) as u8,
        ((x >> 88) & 0xff) as u8,
        ((x >> 96) & 0xff) as u8,
        ((x >> 104) & 0xff) as u8,
        ((x >> 112) & 0xff) as u8,
        ((x >> 120) & 0xff) as u8,
    ]
}

/// The `u128` read little-endian from a sixteen-byte sequence.
pub open spec fn spec_u128_from_le(s: Seq<u8>) -> u128
    recommends
        s.len() == 16,
{
    (s[0] as u128) | ((s[1] as u128) << 8) | ((s[2] as u128) << 16) | ((s[3] as u128) << 24)
        | ((s[4] as u128) << 32) | ((s[5] as u128) << 40) | ((s[6] as u128) << 48)
        | ((s[7] as u128) << 56) | ((s[8] as u128) << 64) | ((s[9] as u128) << 72)
        | ((s[10] as u128) << 80) | ((s[11] as u128) << 88) | ((s[12] as u128) << 96)
        | ((s[13] as u128) << 104) | ((s[14] as u128) << 112) | ((s[15] as u128) << 120)
}

/// Reading back the two little-endian bytes of `x` yields `x`.
pub proof fn lemma_u16_le_round_trip(x: u16)
    ensures
        spec_u16_from_le(spec_u16_le(x)) == x,
{
    assert((((x & 0xff) as u8) as u16) | (((((x >> 8) & 0xff) as u8) as u16) << 8) == x)
        by (bit_vector);
}

/// Reading back the four little-endian bytes of `x` yields `x`.
pub proof fn lemma_u32_le_round_trip(x: u32)
    ensures
        spec_u32_from_le(spec_u32_le(x)) == x,
{
    assert((((x & 0xff) as u8) as u32) | (((((x >> 8) & 0xff) as u8) as u32) << 8)
        | (((((x >> 16) & 0xff) as u8) as u32) << 16) | (((((x >> 24) & 0xff) as u8) as u32) << 24)
        == x) by (bit_vector);
}

/// Reading back the sixteen little-endian bytes of `x` yields `x`.
pub proof fn lemma_u128_le_round_trip(x: u128)
    ensures
        spec_u128_from_le(spec_u128_le(x)) == x,
{
    assert((((x & 0xff) as u8) as u128) | (((((x >> 8) & 0xff) as u8) as u128) << 8)
        | (((((x >> 16) & 0xff) as u8) as u128) << 16)
        | (((((x >> 24) & 0xff) as u8) as u128) << 24)
        | (((((x >> 32) & 0xff) as u8) as u128) << 32)
        | (((((x >> 40) & 0xff) as u8) as u128) << 40)
        | (((((x >> 48) & 0xff) as u8) as u128) << 48)
        | (((((x >> 56) & 0xff) as u8) as u128) << 56)
        | (((((x >> 64) & 0xff) as u8) as u128) << 64)
        | (((((x >> 72) & 0xff) as u8) as u128) << 72)
        | (((((x >> 80) & 0xff) as u8) as u128) << 80)
        | (((((x >> 88) & 0xff) as u8) as u128) << 88)
        | (((((x >> 96) & 0xff) as u8) as u128) << 96)
        | (((((x >> 104) & 0xff) as u8) as u128) << 104)
        | (((((x >> 112) & 0xff) as u8) as u128) << 112)
        | (((((x >> 120) & 0xff) as u8) as u128) << 120) == x) by (bit_vector);
}

/// Appends the two little-endian bytes of `x` to `out`.
pub fn encode_u16(out: &mut Vec<u8>, x: u16)
    ensures
        final(out)@ == old(out)@ + spec_u16_le(x),
{
    out.push((x & 0xff) as u8);
    out.push(((x >> 8) & 0xff) as u8);
    proof {
        assert(out@ =~= old(out)@ + spec_u16_le(x));
    }
}

/// Appends the four little-endian bytes of `x` to `out`.
pub fn encode_u32(out: &mut Vec<u8>, x: u32)
    ensures
        final(out)@ == old(out)@ + spec_u32_le(x),
{
    out.push((x & 0xff) as u8);
    out.push(((x >> 8) & 0xff) as u8);
    out.push(((x >> 16) & 0xff) as u8);
    out.push(((x >> 24) & 0xff) as u8);
    proof {
        assert(out@ =~= old(out)@ + spec_u32_le(x));
    }
}

/// Appends the sixteen little-endian bytes of `x` to `out`.
pub fn encode_u128(out: &mut Vec<u8>, x: u128)
    ensures
        final(out)@ == old(out)@ + spec_u128_le(x),
{
    out.push((x & 0xff) as u8);
    out.push(((x >> 8) & 0xff) as u8);
    out.push(((x >> 16) & 0xff) as u8);
    out.push(((x >> 24) & 0xff) as u8);
    out.push(((x >> 32) & 0xff) as u8);
    out.push(((x >> 40) & 0xff) as u8);
    out.push(((x >> 48) & 0xff) as u8);
    out.push(((x >> 56) & 0xff) as u8);
    out.push(((x >> 64) & 0xff) as u8);
    out.push(((x >> 72) & 0xff) as u8);
    out.push(((x >> 80) & 0xff) as u8);
    out.push(((x >> 88) & 0xff) as u8);
    out.push(((x >> 96) & 0xff) as u8);
    out.push(((x >> 104) & 0xff) as u8);
    out.push(((x >> 112) & 0xff) as u8);
    out.push(((x >> 120) & 0xff) as u8);
    proof {
        assert(out@ =~= old(out)@ + spec_u128_le(x));
    }
}

/// Reads a `u16` little-endian from `bytes` at offset `off`.
pub fn decode_u16(bytes: &Vec<u8>, off: usize) -> (r: u16)
    requires
        off + 2 <= bytes@.len(),
    ensures
        r == spec_u16_from_le(bytes@.subrange(off as int, off + 2)),
{
    let _n: usize = bytes.len();
    let b0 = bytes[off];
    let b1 = bytes[off + 1];
    (b0 as u16) | ((b1 as u16) << 8)
}

/// Reads a `u32` little-endian from `bytes` at offset `off`.
pub fn decode_u32(bytes: &Vec<u8>, off: usize) -> (r: u32)
    requires
        off + 4 <= bytes@.len(),
    ensures
        r == spec_u32_from_le(bytes@.subrange(off as int, off + 4)),
{
    let _n: usize = bytes.len();
    let b0 = bytes[off];
    let b1 = bytes[off + 1];
    let b2 = bytes[off + 2];
    let b3 = bytes[off + 3];
    (b0 as u32) | ((b1 as u32) << 8) | ((b2 as u32) << 16) | ((b3 as u32) << 24)
}

/// Reads a `u128` little-endian from `bytes` at offset `off`.
pub fn decode_u128(bytes: &Vec<u8>, off: usize) -> (r: u128)
    requires
        off + 16 <= bytes@.len(),
    ensures
        r == spec_u128_from_le(bytes@.subrange(off as int, off + 16)),
{
    let _n: usize = bytes.len();
    let b0 = bytes[off];
    let b1 = bytes[off + 1];
    let b2 = bytes[off + 2];
    let b3 = bytes[off + 3];
    let b4 = bytes[off + 4];
    let b5 = bytes[off + 5];
    let b6 = bytes[off + 6];
    let b7 = bytes[off + 7];
    let b8 = bytes[off + 8];
    let b9 = bytes[off + 9];
    let b10 = bytes[off + 10];
    let b11 = bytes[off + 11];
    let b12 = bytes[off + 12];
    let b13 = bytes[off + 13];
    let b14 = bytes[off + 14];
    let b15 = bytes[off + 15];
    (b0 as u128) | ((b1 as u128) << 8) | ((b2 as u128) << 16) | ((b3 as u128) << 24)
        | ((b4 as u128) << 32) | ((b5 as u128) << 40) | ((b6 as u128) << 48)
        | ((b7 as u128) << 56) | ((b8 as u128) << 64) | ((b9 as u128) << 72)
        | ((b10 as u128) << 80) | ((b11 as u128) << 88) | ((b12 as u128) << 96)
        | ((b13 as u128) << 104) | ((b14 as u128) << 112) | ((b15 as u128) << 120)
}

} // verus!

verus! {

/// The six bytes of an address: the packed quad then the port.
pub open spec fn spec_encode_address(a: Address) -> Seq<u8> {
    spec_u32_le(a.ip) + spec_u16_le(a.port)
}

/// The address read from a six-byte sequence.
pub open spec fn spec_decode_address(s: Seq<u8>) -> Address
    recommends
        s.len() == 6,
{
    Address { ip: spec_u32_from_le(s.subrange(0, 4)), port: spec_u16_from_le(s.subrange(4, 6)) }
}

/// Decoding an encoded address yields the address back.
pub proof fn lemma_address_round_trip(a: Address)
    ensures
        spec_decode_address(spec_encode_address(a)) == a,
{
    assert(spec_encode_address(a).subrange(0, 4) =~= spec_u32_le(a.ip));
    assert(spec_encode_address(a).subrange(4, 6) =~= spec_u16_le(a.port));
    lemma_u32_le_round_trip(a.ip);
    lemma_u16_le_round_trip(a.port);
}

/// Appends the six address bytes to `out`.
pub fn encode_address(out: &mut Vec<u8>, a: Address)
    ensures
        final(out)@ == old(out)@ + spec_encode_address(a),
{
    encode_u32(out, a.ip);
    encode_u16(out, a.port);
    proof {
        assert(out@ =~= old(out)@ + spec_encode_address(a));
    }
}

/// Reads an address from `bytes` at offset `off`.
pub fn decode_address(bytes: &Vec<u8>, off: usize) -> (r: Address)
    requires
        off + 6 <= bytes@.len(),
    ensures
        r == spec_decode_address(bytes@.subrange(off as int, off + 6)),
{
    let _n: usize = bytes.len();
    let ip = decode_u32(bytes, off);
    let port = decode_u16(bytes, off + 4);
    proof {
        assert(bytes@.subrange(off as int, off + 6).subrange(0, 4)
            =~= bytes@.subrange(off as int, off + 4));
        assert(bytes@.subrange(off as int, off + 6).subrange(4, 6)
            =~= bytes@.subrange(off + 4, off + 6));
    }
    Address { ip, port }
}

/// The twenty-two bytes of a peer identity: the identifier then the address.
pub open spec fn spec_encode_node_meta(n: NodeMeta) -> Seq<u8> {
    spec_u128_le(n.id) + spec_encode_address(n.addr)
}

/// The peer identity read from a twenty-two-byte sequence.
pub open spec fn spec_decode_node_meta(s: Seq<u8>) -> NodeMeta
    recommends
        s.len() == 22,
{
    NodeMeta { id: spec_u128_from_le(s.subrange(0, 16)), addr: spec_decode_address(s.subrange(16, 22)) }
}

/// Decoding an encoded peer identity yields the identity back.
pub proof fn lemma_node_meta_round_trip(n: NodeMeta)
    ensures
        spec_decode_node_meta(spec_encode_node_meta(n)) == n,
{
    assert(spec_encode_node_meta(n).subrange(0, 16) =~= spec_u128_le(n.id));
    assert(spec_encode_node_meta(n).subrange(16, 22) =~= spec_encode_address(n.addr));
    lemma_u128_le_round_trip(n.id);
    lemma_address_round_trip(n.addr);
}

/// Appends the twenty-two peer-identity bytes to `out`.
pub fn encode_node_meta(out: &mut Vec<u8>, n: NodeMeta)
    ensures
        final(out)@ == old(out)@ + spec_encode_node_meta(n),
{
    encode_u128(out, n.id);
    encode_address(out, n.addr);
    proof {
        assert(out@ =~= old(out)@ + spec_encode_node_meta(n));
    }
}

/// Reads a peer identity from `bytes` at offset `off`.
pub fn decode_node_meta(bytes: &Vec<u8>, off: usize) -> (r: NodeMeta)
    requires
        off + 22 <= bytes@.len(),
    ensures
        r == spec_decode_node_meta(bytes@.subrange(off as int, off + 22)),
{
    let _n: usize = bytes.len();
    let id = decode_u128(bytes, off);
    let addr = decode_address(bytes, off + 16);
    proof {
        assert(bytes@.subrange(off as int, off + 22).subrange(0, 16)
            =~= bytes@.subrange(off as int, off + 16));
        assert(bytes@.subrange(off as int, off + 22).subrange(16, 22)
            =~= bytes@.subrange(off + 16, off + 22));
    }
    NodeMeta { id, addr }
}

/// The tag byte of a message type.
pub open spec fn spec_msg_type_byte(t: MessageType) -> u8 {
    match t {
        MessageType::Request => 0u8,
        MessageType::Response => 1u8,
        MessageType::Probe => 2u8,
        MessageType::ProbeReq => 3u8,
        MessageType::Broadcast => 4u8,
    }
}

/// The message type a tag byte stands for, if any.
pub open spec fn spec_msg_type_from_byte(b: u8) -> Option<MessageType> {
    if b == 0 {
        Some(MessageType::Request)
    } else if b == 1 {
        Some(MessageType::Response)
    } else if b == 2 {
        Some(MessageType::Probe)
    } else if b == 3 {
        Some(MessageType::ProbeReq)
    } else if b == 4 {
        Some(MessageType::Broadcast)
    } else {
        None
    }
}

/// The tag byte of a message type, executable form.
pub fn msg_type_byte(t: MessageType) -> (r: u8)
    ensures
        r == spec_msg_type_byte(t),
{
    match t {
        MessageType::Request => 0,
        MessageType::Response => 1,
        MessageType::Probe => 2,
        MessageType::ProbeReq => 3,
        MessageType::Broadcast => 4,
    }
}

/// The message type a tag byte stands for, executable form.
pub fn msg_type_from_byte(b: u8) -> (r: Option<MessageType>)
    ensures
        r == spec_msg_type_from_byte(b),
{
    if b == 0 {
        Some(MessageType::Request)
    } else if b == 1 {
        Some(MessageType::Response)
    } else if b == 2 {
        Some(MessageType::Probe)
    } else if b == 3 {
        Some(MessageType::ProbeReq)
    } else if b == 4 {
        Some(MessageType::Broadcast)
    } else {
        None
    }
}

/// The tag byte of a discovery message type.
pub open spec fn spec_discovery_type_byte(t: DiscoveryMessageType) -> u8 {
    match t {
        DiscoveryMessageType::Joined => 0u8,
        DiscoveryMessageType::Left => 1u8,
    }
}

/// The discovery message type a tag byte stands for, if any.
pub open spec fn spec_discovery_type_from_byte(b: u8) -> Option<DiscoveryMessageType> {
    if b == 0 {
        Some(DiscoveryMessageType::Joined)
    } else if b == 1 {
        Some(DiscoveryMessageType::Left)
    } else {
        None
    }
}

/// The tag byte of a discovery message type, executable form.
pub fn discovery_type_byte(t: DiscoveryMessageType) -> (r: u8)
    ensures
        r == spec_discovery_type_byte(t),
{
    match t {
        DiscoveryMessageType::Joined => 0,
        DiscoveryMessageType::Left => 1,
    }
}

/// The discovery message type a tag byte stands for, executable form.
pub fn discovery_type_from_byte(b: u8) -> (r: Option<DiscoveryMessageType>)
    ensures
        r == spec_discovery_type_from_byte(b),
{
    if b == 0 {
        Some(DiscoveryMessageType::Joined)
    } else if b == 1 {
        Some(DiscoveryMessageType::Left)
    } else {
        None
    }
}

/// Appends a copy of `b` to `out`.
pub fn append_bytes(out: &mut Vec<u8>, b: &Vec<u8>)
    ensures
        final(out)@ == old(out)@ + b@,
{
    let n: usize = b.len();
    let mut i: usize = 0;
    while i < n
        invariant
            i <= n,
            n == b@.len(),
            out@ == old(out)@ + b@.take(i as int),
        decreases n - i,
    {
        out.push(b[i]);
        proof {
            assert(out@ =~= old(out)@ + b@.take(i + 1));
        }
        i = i + 1;
    }
    proof {
        assert(out@ =~= old(out)@ + b@);
    }
}

/// Copies `bytes[start..end]` into a fresh vector.
pub fn copy_range(bytes: &Vec<u8>, start: usize, end: usize) -> (r: Vec<u8>)
    requires
        start <= end,
        end <= bytes@.len(),
    ensures
        r@ == bytes@.subrange(start as int, end as int),
{
    let mut r: Vec<u8> = Vec::new();
    let mut i: usize = start;
    while i < end
        invariant
            start <= i <= end,
            end <= bytes@.len(),
            r@ == bytes@.subrange(start as int, i as int),
        decreases end - i,
    {
        r.push(bytes[i]);
        proof {
            assert(r@ =~= bytes@.subrange(start as int, i + 1));
        }
        i = i + 1;
    }
    r
}

} // verus!

verus! {

/// The bytes of a unicast message: correlation id, tag byte, return
/// address, payload length, payload.
pub open spec fn spec_encode_message(m: MessageView) -> Seq<u8> {
    spec_u128_le(m.cor_id) + seq![spec_msg_type_byte(m.msg_type)]
        + spec_encode_address(m.return_address) + spec_u32_le(m.payload.len() as u32) + m.payload
}

/// The message a byte sequence stands for, if any.
pub open spec fn spec_decode_message(s: Seq<u8>) -> Option<MessageView> {
    if s.len() < 27 {
        None
    } else {
        let plen = spec_u32_from_le(s.subrange(23, 27)) as int;
        match spec_msg_type_from_byte(s[16]) {
            None => None,
            Some(t) => if s.len() != 27 + plen {
                None
            } else {
                Some(MessageView {
                    cor_id: spec_u128_from_le(s.subrange(0, 16)),
                    msg_type: t,
                    payload: s.subrange(27, s.len() as int),
                    return_address: spec_decode_address(s.subrange(17, 23)),
                })
            },
        }
    }
}

/// Decoding an encoded message yields the message back.
pub proof fn lemma_message_round_trip(m: MessageView)
    requires
        m.payload.len() <= u32::MAX,
    ensures
        spec_decode_message(spec_encode_message(m)) == Some(m),
{
    let s = spec_encode_message(m);
    assert(s.len() == 27 + m.payload.len());
    assert(s.subrange(0, 16) =~= spec_u128_le(m.cor_id));
    assert(s[16] == spec_msg_type_byte(m.msg_type));
    assert(s.subrange(17, 23) =~= spec_encode_address(m.return_address));
    assert(s.subrange(23, 27) =~= spec_u32_le(m.payload.len() as u32));
    assert(s.subrange(27, s.len() as int) =~= m.payload);
    lemma_u128_le_round_trip(m.cor_id);
    lemma_u32_le_round_trip(m.payload.len() as u32);
    lemma_address_round_trip(m.return_address);
}

/// Encodes a unicast message for the wire.
pub fn encode_message(m: &Message) -> (r: Vec<u8>)
    requires
        m@.payload.len() <= u32::MAX,
    ensures
        r@ == spec_encode_message(m@),
{
    let mut out: Vec<u8> = Vec::new();
    encode_u128(&mut out, m.cor_id);
    out.push(msg_type_byte(m.msg_type));
    encode_address(&mut out, m.return_address);
    encode_u32(&mut out, m.payload.len() as u32);
    append_bytes(&mut out, &m.payload);
    proof {
        assert(out@ =~= spec_encode_message(m@));
    }
    out
}

/// Decodes a unicast message; `None` on any byte sequence the encoder
/// cannot produce.
pub fn decode_message(bytes: &Vec<u8>) -> (r: Option<Message>)
    ensures
        match r {
            Some(m) => spec_decode_message(bytes@) == Some(m@),
            None => spec_decode_message(bytes@) is None,
        },
{
    let n = bytes.len();
    if n < 27 {
        return None;
    }
    let cor_id = decode_u128(bytes, 0);
    let t = match msg_type_from_byte(bytes[16]) {
        Some(t) => t,
        None => {
            return None;
        },
    };
    let return_address = decode_address(bytes, 17);
    let plen = decode_u32(bytes, 23);
    if n - 27 != plen as usize {
        return None;
    }
    let payload = copy_range(bytes, 27, n);
    Some(Message { cor_id, msg_type: t, payload, return_address })
}

/// The bytes of a gossip envelope: identifier, payload length, payload.
pub open spec fn spec_encode_broadcast_message(m: BroadcastMessageView) -> Seq<u8> {
    spec_u128_le(m.id) + spec_u32_le(m.payload.len() as u32) + m.payload
}

/// The gossip envelope a byte sequence stands for, if any.
pub open spec fn spec_decode_broadcast_message(s: Seq<u8>) -> Option<BroadcastMessageView> {
    if s.len() < 20 {
        None
    } else {
        let plen = spec_u32_from_le(s.subrange(16, 20)) as int;
        if s.len() != 20 + plen {
            None
        } else {
            Some(BroadcastMessageView {
                id: spec_u128_from_le(s.subrange(0, 16)),
                payload: s.subrange(20, s.len() as int),
            })
        }
    }
}

/// Decoding an encoded gossip envelope yields the envelope back.
pub proof fn lemma_broadcast_message_round_trip(m: BroadcastMessageView)
    requires
        m.payload.len() <= u32::MAX,
    ensures
        spec_decode_broadcast_message(spec_encode_broadcast_message(m)) == Some(m),
{
    let s = spec_encode_broadcast_message(m);
    assert(s.len() == 20 + m.payload.len());
    assert(s.subrange(0, 16) =~= spec_u128_le(m.id));
    assert(s.subrange(16, 20) =~= spec_u32_le(m.payload.len() as u32));
    assert(s.subrange(20, s.len() as int) =~= m.payload);
    lemma_u128_le_round_trip(m.id);
    lemma_u32_le_round_trip(m.payload.len() as u32);
}

/// Encodes a gossip envelope for carriage inside a `Broadcast` message.
pub fn encode_broadcast_message(m: &BroadcastMessage) -> (r: Vec<u8>)
    requires
        m@.payload.len() <= u32::MAX,
    ensures
        r@ == spec_encode_broadcast_message(m@),
{
    let mut out: Vec<u8> = Vec::new();
    encode_u128(&mut out, m.id);
    encode_u32(&mut out, m.payload.len() as u32);
    append_bytes(&mut out, &m.payload);
    proof {
        assert(out@ =~= spec_encode_broadcast_message(m@));
    }
    out
}

/// Decodes a gossip envelope; `None` on any byte sequence the encoder
/// cannot produce.
pub fn decode_broadcast_message(bytes: &Vec<u8>) -> (r: Option<BroadcastMessage>)
    ensures
        match r {
            Some(m) => spec_decode_broadcast_message(bytes@) == Some(m@),
            None => spec_decode_broadcast_message(bytes@) is None,
        },
{
    let n = bytes.len();
    if n < 20 {
        return None;
    }
    let id = decode_u128(bytes, 0);
    let plen = decode_u32(bytes, 16);
    if n - 20 != plen as usize {
        return None;
    }
    let payload = copy_range(bytes, 20, n);
    Some(BroadcastMessage { id, payload })
}

/// The twenty-three bytes of a multicast announcement: tag byte, then the
/// announcing peer.  Every announcement fits the 256-byte datagram bound.
pub open spec fn spec_encode_discovery_message(m: DiscoveryMessage) -> Seq<u8> {
    seq![spec_discovery_type_byte(m.msg_type)] + spec_encode_node_meta(m.node_meta)
}

/// The multicast announcement a byte sequence stands for, if any.
pub open spec fn spec_decode_discovery_message(s: Seq<u8>) -> Option<DiscoveryMessage> {
    if s.len() != 23 {
        None
    } else {
        match spec_discovery_type_from_byte(s[0]) {
            None => None,
            Some(t) => Some(DiscoveryMessage {
                msg_type: t,
                node_meta: spec_decode_node_meta(s.subrange(1, 23)),
            }),
        }
    }
}

/// Decoding an encoded multicast announcement yields the announcement back.
pub proof fn lemma_discovery_message_round_trip(m: DiscoveryMessage)
    ensures
        spec_decode_discovery_message(spec_encode_discovery_message(m)) == Some(m),
{
    let s = spec_encode_discovery_message(m);
    assert(s.len() == 23);
    assert(s[0] == spec_discovery_type_byte(m.msg_type));
    assert(s.subrange(1, 23) =~= spec_encode_node_meta(m.node_meta));
    lemma_node_meta_round_trip(m.node_meta);
}

/// Encodes a multicast announcement; the result is always 23 bytes, well
/// inside the 256-byte datagram bound.
pub fn encode_discovery_message(m: &DiscoveryMessage) -> (r: Vec<u8>)
    ensures
        r@ == spec_encode_discovery_message(*m),
        r@.len() == 23,
{
    let mut out: Vec<u8> = Vec::new();
    out.push(discovery_type_byte(m.msg_type));
    encode_node_meta(&mut out, m.node_meta);
    proof {
        assert(out@ =~= spec_encode_discovery_message(*m));
    }
    out
}

/// Decodes a multicast announcement; `None` on any byte sequence the
/// encoder cannot produce.
pub fn decode_discovery_message(bytes: &Vec<u8>) -> (r: Option<DiscoveryMessage>)
    ensures
        match r {
            Some(m) => spec_decode_discovery_message(bytes@) == Some(m),
            None => spec_decode_discovery_message(bytes@) is None,
        },
{
    let n = bytes.len();
    if n != 23 {
        return None;
    }
    let t = match discovery_type_from_byte(bytes[0]) {
        Some(t) => t,
        None => {
            return None;
        },
    };
    let node_meta = decode_node_meta(bytes, 1);
    Some(DiscoveryMessage { msg_type: t, node_meta })
}

/// The twenty-two bytes of a probe-request payload: the target peer.
pub open spec fn spec_encode_probe_req_payload(p: ProbeReqPayload) -> Seq<u8> {
    spec_encode_node_meta(p.node)
}

/// The probe-request payload a byte sequence stands for, if any.
pub open spec fn spec_decode_probe_req_payload(s: Seq<u8>) -> Option<ProbeReqPayload> {
    if s.len() != 22 {
        None
    } else {
        Some(ProbeReqPayload { node: spec_decode_node_meta(s) })
    }
}

/// Decoding an encoded probe-request payload yields the payload back.
pub proof fn lemma_probe_req_payload_round_trip(p: ProbeReqPayload)
    ensures
        spec_decode_probe_req_payload(spec_encode_probe_req_payload(p)) == Some(p),
{
    lemma_node_meta_round_trip(p.node);
}

/// Encodes a probe-request payload.
pub fn encode_probe_req_payload(p: &ProbeReqPayload) -> (r: Vec<u8>)
    ensures
        r@ == spec_encode_probe_req_payload(*p),
{
    let mut out: Vec<u8> = Vec::new();
    encode_node_meta(&mut out, p.node);
    proof {
        assert(out@ =~= spec_encode_probe_req_payload(*p));
    }
    out
}

/// Decodes a probe-request payload; `None` on any byte sequence the
/// encoder cannot produce.
pub fn decode_probe_req_payload(bytes: &Vec<u8>) -> (r: Option<ProbeReqPayload>)
    ensures
        match r {
            Some(p) => spec_decode_probe_req_payload(bytes@) == Some(p),
            None => spec_decode_probe_req_payload(bytes@) is None,
        },
{
    let n = bytes.len();
    if n != 22 {
        return None;
    }
    let node = decode_node_meta(bytes, 0);
    proof {
        assert(bytes@.subrange(0, 22) =~= bytes@);
    }
    Some(ProbeReqPayload { node })
}

} // verus!
