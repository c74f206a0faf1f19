//! The typed event stream that connects the components, and the queue that
//! carries it.  Delivery threads live outside the crate; the queue here is
//! the ordered buffer they drain, so posting order is delivery order.

use vstd::prelude::*;

use crate::common::Address;
use crate::common::BroadcastMessage;
use crate::common::Message;
use crate::common::NodeMeta;

verus! {

/// An event on the bus.
#[derive(Clone, Debug)]
pub enum Event {
    Empty,
    /// A peer announced itself on the multicast group.
    JoinIn { node_meta: NodeMeta },
    /// A peer announced its departure on the multicast group.
    LeftIn { node_meta: NodeMeta },
    /// The local node should announce itself on the multicast group.
    JoinOut { node_meta: NodeMeta },
    /// The local node should announce a departure on the multicast group.
    LeftOut { node_meta: NodeMeta },
    /// A full unicast message arrived over TCP.
    MessageIn { msg: Message },
    /// A peer probes the local node.
    ProbeIn { cor_id: u128, return_address: Address },
    /// A peer asks the local node to probe another peer on its behalf.
    ProbeReqIn { cor_id: u128, probe_node: NodeMeta, return_address: Address },
    /// A gossip envelope arrived inside a unicast `Broadcast` message.
    BroadcastIn { payload: BroadcastMessage },
    /// The application asks to disseminate a payload cluster-wide.
    BroadcastOut { payload: Vec<u8> },
    /// The membership set gained a peer.
    MemberAdded { node_meta: NodeMeta },
    /// The membership set lost a peer.
    MemberLeft { node_meta: NodeMeta },
}

/// The ordered buffer of posted events.  Every posted event sits behind all
/// earlier ones, and the head is always delivered first, so no listener
/// sees two events out of their posted order.
pub struct EventQueue {
    pub events: Vec<Event>,
}

impl EventQueue {
    /// An empty queue.
    pub fn new() -> (r: EventQueue)
        ensures
            r.events@.len() == 0,
    {
        EventQueue { events: Vec::new() }
    }

    /// Enqueues `event` behind everything already posted.
    pub fn post_event(&mut self, event: Event)
        ensures
            final(self).events@ == old(self).events@.push(event),
    {
        self.events.push(event);
    }

    /// Dequeues the oldest posted event, if any.
    pub fn take_next(&mut self) -> (r: Option<Event>)
        ensures
            old(self).events@.len() == 0 ==> r is None && final(self).events@ == old(self).events@,
            old(self).events@.len() > 0 ==> r == Some(old(self).events@[0])
                && final(self).events@ == old(self).events@.drop_first(),
    {
        if self.events.len() == 0 {
            None
        } else {
            let e = self.events.remove(0);
            proof {
                assert(self.events@ =~= old(self).events@.drop_first());
            }
            Some(e)
        }
    }

    /// How many events wait in the queue.
    pub fn len(&self) -> (r: usize)
        ensures
            r == self.events@.len(),
    {
        self.events.len()
    }
}

} // verus!
