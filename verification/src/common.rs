//! The data model shared by every component: peer identities, addresses,
//! the unicast wire envelope, the gossip envelope and the multicast envelope.

use vstd::prelude::*;

verus! {

/// An IPv4 address and a port, used both for node endpoints and for the
/// multicast group.  The four octets are packed big-endian into `ip`.
#[derive(Clone, Copy, PartialEq, Eq, Structural, Debug, Hash)]
pub struct Address {
    pub ip: u32,
    pub port: u16,
}

/// The `ip` word that stands for the dotted quad `a.b.c.d`.
pub open spec fn spec_ip_from_octets(a: u8, b: u8, c: u8, d: u8) -> int {
    a * 0x1000000 + b * 0x10000 + c * 0x100 + d
}

impl Address {
    /// Builds an address from the dotted-quad octets `a.b.c.d` and a port.
    pub fn from_octets(a: u8, b: u8, c: u8, d: u8, port: u16) -> (r: Address)
        ensures
            r.ip == spec_ip_from_octets(a, b, c, d),
            r.port == port,
    {
        Address {
            ip: (a as u32) * 0x1000000 + (b as u32) * 0x10000 + (c as u32) * 0x100 + (d as u32),
            port,
        }
    }
}

/// A peer identity: a 128-bit identifier stable for the process lifetime,
/// and the peer's TCP endpoint.  Two peers are the same member exactly when
/// their identifiers are equal.
#[derive(Clone, Copy, PartialEq, Eq, Structural, Debug, Hash)]
pub struct NodeMeta {
    pub id: u128,
    pub addr: Address,
}

/// The tag of a unicast message, telling the dispatcher how to route it.
#[derive(Clone, Copy, PartialEq, Eq, Structural, Debug, Hash)]
pub enum MessageType {
    Request,
    Response,
    Probe,
    ProbeReq,
    Broadcast,
}

/// The unicast wire envelope: a correlation identifier, a routing tag, an
/// opaque payload, and the sender's return address.
#[derive(Clone, Debug)]
pub struct Message {
    pub cor_id: u128,
    pub msg_type: MessageType,
    pub payload: Vec<u8>,
    pub return_address: Address,
}

/// The mathematical value of a [`Message`].
pub struct MessageView {
    pub cor_id: u128,
    pub msg_type: MessageType,
    pub payload: Seq<u8>,
    pub return_address: Address,
}

impl View for Message {
    type V = MessageView;

    open spec fn view(&self) -> MessageView {
        MessageView {
            cor_id: self.cor_id,
            msg_type: self.msg_type,
            payload: self.payload@,
            return_address: self.return_address,
        }
    }
}

/// The gossip envelope carried inside a unicast `Broadcast` message: an
/// identifier unique to the broadcast (not to the carrier) and an opaque
/// payload.
#[derive(Clone, Debug)]
pub struct BroadcastMessage {
    pub id: u128,
    pub payload: Vec<u8>,
}

/// The mathematical value of a [`BroadcastMessage`].
pub struct BroadcastMessageView {
    pub id: u128,
    pub payload: Seq<u8>,
}

impl View for BroadcastMessage {
    type V = BroadcastMessageView;

    open spec fn view(&self) -> BroadcastMessageView {
        BroadcastMessageView { id: self.id, payload: self.payload@ }
    }
}

/// The tag of a multicast discovery announcement.
#[derive(Clone, Copy, PartialEq, Eq, Structural, Debug, Hash)]
pub enum DiscoveryMessageType {
    Joined,
    Left,
}

/// The multicast wire envelope: a tag and the announcing peer's identity.
#[derive(Clone, Copy, PartialEq, Eq, Structural, Debug, Hash)]
pub struct DiscoveryMessage {
    pub msg_type: DiscoveryMessageType,
    pub node_meta: NodeMeta,
}

/// The payload of a `ProbeReq` message: the peer that should be probed
/// indirectly on the requester's behalf.
#[derive(Clone, Copy, PartialEq, Eq, Structural, Debug, Hash)]
pub struct ProbeReqPayload {
    pub node: NodeMeta,
}

/// A cluster member as surfaced to an embedding application.
#[derive(PartialEq, Eq, Hash)]
pub struct Member {
    pub id: String,
    pub addr: Address,
    pub active: bool,
}

} // verus!
