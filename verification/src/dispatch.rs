//! The message dispatcher: routing of inbound unicast messages by their
//! tag, and the response table that rendezvouses each request-with-response
//! caller with its reply.  The table maps a correlation identifier to the
//! single waiter handle the surrounding runtime parks on; every entry is
//! removed on delivery, and the callers remove it on timeout or send
//! failure.

use vstd::prelude::*;

use crate::codec::decode_broadcast_message;
use crate::codec::decode_probe_req_payload;
use crate::codec::spec_decode_broadcast_message;
use crate::codec::spec_decode_probe_req_payload;
use crate::common::Address;
use crate::common::BroadcastMessage;
use crate::common::Message;
use crate::common::MessageType;
use crate::common::NodeMeta;
use crate::random::gen_msg_id;

verus! {

/// One outstanding request-with-response: the correlation identifier of
/// the request and the handle of the one waiter parked on it.
#[derive(Clone, Copy, PartialEq, Eq, Structural, Debug)]
pub struct ResponseEntry {
    pub cor_id: u128,
    pub waiter: u64,
}

/// True when some entry of `s` carries the correlation identifier `id`.
pub open spec fn spec_table_contains(s: Seq<ResponseEntry>, id: u128) -> bool {
    exists|i: int| 0 <= i < s.len() && s[i].cor_id == id
}

/// True when no correlation identifier appears at two positions of `s`:
/// every registered identifier has exactly one waiter.
pub open spec fn spec_table_distinct(s: Seq<ResponseEntry>) -> bool {
    forall|i: int, j: int|
        0 <= i < s.len() && 0 <= j < s.len() && i != j ==> s[i].cor_id != s[j].cor_id
}

/// The table `s` with every entry carrying `id` taken out, order kept.
pub open spec fn spec_table_remove(s: Seq<ResponseEntry>, id: u128) -> Seq<ResponseEntry>
    decreases s.len(),
{
    if s.len() == 0 {
        s
    } else {
        let rest = spec_table_remove(s.drop_last(), id);
        if s.last().cor_id == id {
            rest
        } else {
            rest.push(s.last())
        }
    }
}

/// What removal does to the table: it keeps exactly the identifiers other
/// than `id`, keeps identifiers distinct, and is the identity when `id`
/// is absent.
pub proof fn lemma_table_remove_spec(s: Seq<ResponseEntry>, id: u128)
    ensures
        forall|x: u128|
            #[trigger] spec_table_contains(spec_table_remove(s, id), x) <==> (spec_table_contains(
                s,
                x,
            ) && x != id),
        spec_table_distinct(s) ==> spec_table_distinct(spec_table_remove(s, id)),
        !spec_table_contains(s, id) ==> spec_table_remove(s, id) == s,
    decreases s.len(),
{
    if s.len() == 0 {
        assert forall|x: u128| #[trigger]
            spec_table_contains(spec_table_remove(s, id), x) <==> (spec_table_contains(s, x)
            && x != id) by {
            assert(!spec_table_contains(s, x));
        }
    } else {
        let d = s.drop_last();
        let last = s.last();
        let rest = spec_table_remove(d, id);
        let r = spec_table_remove(s, id);
        lemma_table_remove_spec(d, id);

        assert(s[s.len() - 1] == last);
        assert forall|x: u128| spec_table_contains(s, x) implies (spec_table_contains(d, x)
            || last.cor_id == x) by {
            let i = choose|i: int| 0 <= i < s.len() && s[i].cor_id == x;
            if i < s.len() - 1 {
                assert(d[i].cor_id == x);
            }
        }
        assert forall|x: u128| spec_table_contains(d, x) implies spec_table_contains(s, x) by {
            let i = choose|i: int| 0 <= i < d.len() && d[i].cor_id == x;
            assert(s[i].cor_id == x);
        }

        if last.cor_id == id {
            assert(r == rest);
            assert forall|x: u128| #[trigger]
                spec_table_contains(r, x) <==> (spec_table_contains(s, x) && x != id) by {
                if spec_table_contains(s, x) && x != id {
                    assert(spec_table_contains(d, x) || last.cor_id == x);
                    assert(spec_table_contains(d, x));
                }
            }
        } else {
            assert(r == rest.push(last));
            assert forall|x: u128| spec_table_contains(r, x) implies (spec_table_contains(rest, x)
                || last.cor_id == x) by {
                let i = choose|i: int| 0 <= i < r.len() && r[i].cor_id == x;
                if i < r.len() - 1 {
                    assert(rest[i].cor_id == x);
                }
            }
            assert forall|x: u128| spec_table_contains(rest, x) implies spec_table_contains(
                r,
                x,
            ) by {
                let i = choose|i: int| 0 <= i < rest.len() && rest[i].cor_id == x;
                assert(r[i].cor_id == x);
            }
            assert(r[r.len() - 1] == last);
            assert forall|x: u128| #[trigger]
                spec_table_contains(r, x) <==> (spec_table_contains(s, x) && x != id) by {
                if spec_table_contains(r, x) {
                    assert(spec_table_contains(rest, x) || last.cor_id == x);
                }
                if spec_table_contains(s, x) && x != id {
                    assert(spec_table_contains(d, x) || last.cor_id == x);
                }
            }
            if spec_table_distinct(s) {
                assert(spec_table_distinct(d));
                assert forall|i: int, j: int|
                    0 <= i < r.len() && 0 <= j < r.len() && i != j implies r[i].cor_id
                    != r[j].cor_id by {
                    if i == r.len() - 1 || j == r.len() - 1 {
                        let k = if i == r.len() - 1 { j } else { i };
                        assert(r[k] == rest[k]);
                        assert(spec_table_contains(rest, rest[k].cor_id));
                        if rest[k].cor_id == last.cor_id {
                            assert(spec_table_contains(d, last.cor_id));
                            let w = choose|w: int| 0 <= w < d.len() && d[w].cor_id == last.cor_id;
                            assert(s[w].cor_id == s[s.len() - 1].cor_id);
                            assert(false);
                        }
                    }
                }
            }
            if !spec_table_contains(s, id) {
                assert(!spec_table_contains(d, id));
                assert(rest == d);
                assert(d.push(last) =~= s);
            }
        }
    }
}

/// The response table: every outstanding request-with-response, each with
/// exactly one waiter.
pub struct ResponseTable {
    pub entries: Vec<ResponseEntry>,
}

impl ResponseTable {
    /// The table's invariant: every correlation identifier in the table
    /// has exactly one entry, hence exactly one waiter.
    pub open spec fn wf(self) -> bool {
        spec_table_distinct(self.entries@)
    }

    /// An empty table.
    pub fn new() -> (r: ResponseTable)
        ensures
            r.wf(),
            r.entries@.len() == 0,
    {
        ResponseTable { entries: Vec::new() }
    }

    /// True when a waiter is registered under `cor_id`.
    pub fn contains(&self, cor_id: u128) -> (r: bool)
        ensures
            r == spec_table_contains(self.entries@, cor_id),
    {
        let n = self.entries.len();
        let mut i: usize = 0;
        while i < n
            invariant
                i <= n,
                n == self.entries@.len(),
                forall|k: int| 0 <= k < i ==> self.entries@[k].cor_id != cor_id,
            decreases n - i,
        {
            if self.entries[i].cor_id == cor_id {
                proof {
                    assert(self.entries@[i as int].cor_id == cor_id);
                }
                return true;
            }
            i = i + 1;
        }
        false
    }

    /// How many waiters are registered.
    pub fn len(&self) -> (r: usize)
        ensures
            r == self.entries@.len(),
    {
        self.entries.len()
    }

    /// Registers `waiter` as the one sink for `cor_id`.  A waiter already
    /// registered under the same identifier is replaced, so the
    /// identifier keeps exactly one waiter.
    pub fn add_resp_callback(&mut self, cor_id: u128, waiter: u64)
        requires
            old(self).wf(),
        ensures
            final(self).wf(),
            final(self).entries@ == spec_table_remove(old(self).entries@, cor_id).push(
                (ResponseEntry { cor_id, waiter }),
            ),
    {
        self.remove_resp_callback(cor_id);
        self.entries.push(ResponseEntry { cor_id, waiter });
        proof {
            lemma_table_remove_spec(old(self).entries@, cor_id);
            let m = self.entries@;
            let o = spec_table_remove(old(self).entries@, cor_id);
            assert forall|i: int, j: int|
                0 <= i < m.len() && 0 <= j < m.len() && i != j implies m[i].cor_id
                != m[j].cor_id by {
                if i == o.len() || j == o.len() {
                    let k = if i == o.len() { j } else { i };
                    if o[k].cor_id == cor_id {
                        assert(spec_table_contains(o, cor_id));
                    }
                }
            }
        }
    }

    /// Drops whatever waiter is registered under `cor_id`; the callers do
    /// this on timeout and on send failure.
    pub fn remove_resp_callback(&mut self, cor_id: u128)
        requires
            old(self).wf(),
        ensures
            final(self).wf(),
            final(self).entries@ == spec_table_remove(old(self).entries@, cor_id),
    {
        let n = self.entries.len();
        let mut acc: Vec<ResponseEntry> = Vec::new();
        let mut i: usize = 0;
        while i < n
            invariant
                i <= n,
                n == old(self).entries@.len(),
                self.entries@ == old(self).entries@,
                acc@ == spec_table_remove(old(self).entries@.take(i as int), cor_id),
            decreases n - i,
        {
            proof {
                assert(old(self).entries@.take(i + 1).drop_last() =~= old(self).entries@.take(
                    i as int,
                ));
                assert(old(self).entries@.take(i + 1).last() == old(self).entries@[i as int]);
            }
            if self.entries[i].cor_id != cor_id {
                acc.push(self.entries[i]);
            }
            i = i + 1;
        }
        proof {
            assert(old(self).entries@.take(n as int) =~= old(self).entries@);
            lemma_table_remove_spec(old(self).entries@, cor_id);
        }
        self.entries = acc;
    }

    /// Takes the one waiter registered under `cor_id`, removing the
    /// entry: a response is delivered at most once, and a second response
    /// under the same identifier finds nothing.
    pub fn take_resp_callback(&mut self, cor_id: u128) -> (r: Option<u64>)
        requires
            old(self).wf(),
        ensures
            final(self).wf(),
            r is Some <==> spec_table_contains(old(self).entries@, cor_id),
            r matches Some(w) ==> exists|i: int|
                0 <= i < old(self).entries@.len() && old(self).entries@[i] == (ResponseEntry {
                    cor_id,
                    waiter: w,
                }),
            final(self).entries@ == spec_table_remove(old(self).entries@, cor_id),
    {
        let n = self.entries.len();
        let mut found: Option<u64> = None;
        let mut i: usize = 0;
        while i < n
            invariant
                i <= n,
                n == self.entries@.len(),
                self.entries@ == old(self).entries@,
                found is None ==> forall|k: int| 0 <= k < i ==> self.entries@[k].cor_id != cor_id,
                found matches Some(w) ==> exists|k: int|
                    0 <= k < i && self.entries@[k] == (ResponseEntry { cor_id, waiter: w }),
            decreases n - i,
        {
            if found.is_none() && self.entries[i].cor_id == cor_id {
                found = Some(self.entries[i].waiter);
                proof {
                    assert(self.entries@[i as int] == (ResponseEntry {
                        cor_id,
                        waiter: self.entries@[i as int].waiter,
                    }));
                }
            }
            i = i + 1;
        }
        self.remove_resp_callback(cor_id);
        found
    }
}

} // verus!

verus! {

/// What the dispatcher asks its surroundings to do with one inbound
/// message: hand it to the message listeners, wake a parked waiter, post
/// a typed event, or drop it.
#[derive(Debug)]
pub enum DispatchAction {
    /// Invoke every registered message listener with the request.
    NotifyListeners { msg: Message },
    /// Wake the one waiter parked under the response's correlation id.
    RespondWaiter { waiter: u64, msg: Message },
    /// Post `ProbeIn` so membership answers the probe.
    PostProbeIn { cor_id: u128, return_address: Address },
    /// Post `ProbeReqIn` so membership probes on the requester's behalf.
    PostProbeReqIn { cor_id: u128, probe_node: NodeMeta, return_address: Address },
    /// Post `BroadcastIn` so gossip takes the envelope.
    PostBroadcastIn { payload: BroadcastMessage },
    /// Drop the message: an uncorrelated response or an undecodable
    /// payload, both recovered locally.
    Ignore,
}

/// Routes inbound unicast messages by their tag and correlates responses
/// with their waiters.
pub struct MessageDispatcher {
    pub resp_callbacks: ResponseTable,
}

impl MessageDispatcher {
    /// The dispatcher's invariant: the response table is well-formed.
    pub open spec fn wf(self) -> bool {
        self.resp_callbacks.wf()
    }

    /// A dispatcher with no outstanding responses.
    pub fn new() -> (r: MessageDispatcher)
        ensures
            r.wf(),
            r.resp_callbacks.entries@.len() == 0,
    {
        MessageDispatcher { resp_callbacks: ResponseTable::new() }
    }

    /// Routes one inbound message.  A `Request` goes to the listeners; a
    /// `Response` wakes the one waiter under its correlation id, exactly
    /// once, or is dropped; `Probe`, `ProbeReq` and `Broadcast` become
    /// their typed events, with an undecodable payload dropped.
    pub fn handle_in_message(&mut self, msg: Message) -> (a: DispatchAction)
        requires
            old(self).wf(),
        ensures
            final(self).wf(),
            match msg.msg_type {
                MessageType::Request => {
                    &&& final(self).resp_callbacks == old(self).resp_callbacks
                    &&& a matches DispatchAction::NotifyListeners { msg: m } && m@ == msg@
                },
                MessageType::Response => {
                    &&& final(self).resp_callbacks.entries@ == spec_table_remove(
                        old(self).resp_callbacks.entries@,
                        msg.cor_id,
                    )
                    &&& if spec_table_contains(old(self).resp_callbacks.entries@, msg.cor_id) {
                        a matches DispatchAction::RespondWaiter { waiter, msg: m } && m@ == msg@
                            && spec_table_contains(old(self).resp_callbacks.entries@, msg.cor_id)
                            && exists|i: int|
                            0 <= i < old(self).resp_callbacks.entries@.len() && old(
                                self,
                            ).resp_callbacks.entries@[i] == (ResponseEntry {
                                cor_id: msg.cor_id,
                                waiter,
                            })
                    } else {
                        a is Ignore
                    }
                },
                MessageType::Probe => {
                    &&& final(self).resp_callbacks == old(self).resp_callbacks
                    &&& a == (DispatchAction::PostProbeIn {
                        cor_id: msg.cor_id,
                        return_address: msg.return_address,
                    })
                },
                MessageType::ProbeReq => {
                    &&& final(self).resp_callbacks == old(self).resp_callbacks
                    &&& match spec_decode_probe_req_payload(msg.payload@) {
                        Some(p) => a == (DispatchAction::PostProbeReqIn {
                            cor_id: msg.cor_id,
                            probe_node: p.node,
                            return_address: msg.return_address,
                        }),
                        None => a is Ignore,
                    }
                },
                MessageType::Broadcast => {
                    &&& final(self).resp_callbacks == old(self).resp_callbacks
                    &&& match spec_decode_broadcast_message(msg.payload@) {
                        Some(bm) => a matches DispatchAction::PostBroadcastIn { payload } && payload@
                            == bm,
                        None => a is Ignore,
                    }
                },
            },
    {
        match msg.msg_type {
            MessageType::Request => DispatchAction::NotifyListeners { msg },
            MessageType::Response => {
                match self.resp_callbacks.take_resp_callback(msg.cor_id) {
                    Some(waiter) => DispatchAction::RespondWaiter { waiter, msg },
                    None => {
                        proof {
                            lemma_table_remove_spec(old(self).resp_callbacks.entries@, msg.cor_id);
                        }
                        DispatchAction::Ignore
                    },
                }
            },
            MessageType::Probe => DispatchAction::PostProbeIn {
                cor_id: msg.cor_id,
                return_address: msg.return_address,
            },
            MessageType::ProbeReq => {
                match decode_probe_req_payload(&msg.payload) {
                    Some(p) => DispatchAction::PostProbeReqIn {
                        cor_id: msg.cor_id,
                        probe_node: p.node,
                        return_address: msg.return_address,
                    },
                    None => DispatchAction::Ignore,
                }
            },
            MessageType::Broadcast => {
                match decode_broadcast_message(&msg.payload) {
                    Some(bm) => DispatchAction::PostBroadcastIn { payload: bm },
                    None => DispatchAction::Ignore,
                }
            },
        }
    }
}

/// Builds the unicast envelopes that the surrounding transport sends.
pub struct MessagingService {
    pub local: NodeMeta,
}

impl MessagingService {
    /// A messaging service sending on behalf of `local`.
    pub fn new(local: NodeMeta) -> (r: MessagingService)
        ensures
            r.local == local,
    {
        MessagingService { local }
    }

    /// The `Response` envelope answering correlation id `cor_id`: same
    /// correlation id, the local node as return address.
    pub fn build_reply(&self, cor_id: u128, payload: Vec<u8>) -> (m: Message)
        ensures
            m@.cor_id == cor_id,
            m@.msg_type == MessageType::Response,
            m@.payload == payload@,
            m@.return_address == self.local.addr,
    {
        Message {
            cor_id,
            msg_type: MessageType::Response,
            payload,
            return_address: self.local.addr,
        }
    }

    /// An outbound envelope with a fresh random correlation id, the given
    /// tag, and the local node as return address.
    pub fn build_message(&self, payload: Vec<u8>, msg_type: MessageType) -> (m: Message)
        ensures
            m@.msg_type == msg_type,
            m@.payload == payload@,
            m@.return_address == self.local.addr,
    {
        Message { cor_id: gen_msg_id(), msg_type, payload, return_address: self.local.addr }
    }
}

} // verus!
