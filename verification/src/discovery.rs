//! Multicast discovery, the pure part: the announcements the local node
//! sends, the events an inbound announcement becomes, and the ticker's
//! reaction that turns a departed member into a departure announcement.
//! The sockets and the timer live outside the crate.

use vstd::prelude::*;

use crate::common::DiscoveryMessage;
use crate::common::DiscoveryMessageType;
use crate::common::NodeMeta;
use crate::events::Event;

verus! {

/// The announcement that the local node has joined: sent for every
/// `JoinOut` event and periodically by the ticker.
pub fn build_join_message(node: NodeMeta) -> (m: DiscoveryMessage)
    ensures
        m.msg_type == DiscoveryMessageType::Joined,
        m.node_meta == node,
{
    DiscoveryMessage { msg_type: DiscoveryMessageType::Joined, node_meta: node }
}

/// The announcement that a node has left: sent for every `LeftOut` event.
pub fn build_leave_message(node: NodeMeta) -> (m: DiscoveryMessage)
    ensures
        m.msg_type == DiscoveryMessageType::Left,
        m.node_meta == node,
{
    DiscoveryMessage { msg_type: DiscoveryMessageType::Left, node_meta: node }
}

/// The event an inbound announcement becomes: `Joined` posts `JoinIn`,
/// `Left` posts `LeftIn`.  Announcements from the local node are accepted
/// here too; membership discards them by identifier equality.
pub fn build_discovery_event(msg: &DiscoveryMessage) -> (e: Event)
    ensures
        msg.msg_type == DiscoveryMessageType::Joined ==> e == (Event::JoinIn {
            node_meta: msg.node_meta,
        }),
        msg.msg_type == DiscoveryMessageType::Left ==> e == (Event::LeftIn {
            node_meta: msg.node_meta,
        }),
{
    match msg.msg_type {
        DiscoveryMessageType::Joined => Event::JoinIn { node_meta: msg.node_meta },
        DiscoveryMessageType::Left => Event::LeftIn { node_meta: msg.node_meta },
    }
}

/// The ticker's reaction to a bus event: every `MemberLeft` is answered
/// by exactly one `LeftOut`, and nothing else provokes anything.
pub fn discovery_reaction(event: &Event) -> (r: Option<Event>)
    ensures
        match *event {
            Event::MemberLeft { node_meta } => r == Some(Event::LeftOut { node_meta }),
            _ => r is None,
        },
{
    match event {
        Event::MemberLeft { node_meta } => Some(Event::LeftOut { node_meta: *node_meta }),
        _ => None,
    }
}

} // verus!
