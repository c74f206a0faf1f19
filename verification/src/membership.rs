//! The membership set and the SWIM-style failure-detector decisions.
//!
//! The set holds the peers currently believed alive, with set semantics on
//! the identifier.  The local node is never a member of its own set, and no
//! identifier appears twice.  The probe loop's waits and sends happen
//! outside the crate; the decisions — whom to probe, whom to ask for an
//! indirect probe, and when to evict — are taken here.

use vstd::prelude::*;

use crate::common::Address;
use crate::common::NodeMeta;
use crate::events::Event;
use crate::random::rand_below;

verus! {

/// True when some element of `s` carries the identifier `id`.
pub open spec fn spec_contains_id(s: Seq<NodeMeta>, id: u128) -> bool {
    exists|i: int| 0 <= i < s.len() && s[i].id == id
}

/// True when no identifier appears at two positions of `s`.
pub open spec fn spec_distinct_ids(s: Seq<NodeMeta>) -> bool {
    forall|i: int, j: int|
        0 <= i < s.len() && 0 <= j < s.len() && i != j ==> s[i].id != s[j].id
}

/// True when announcing `n` would grow the membership set: `n` is not the
/// local node and its identifier is not yet a member.
pub open spec fn spec_join_adds(local: NodeMeta, members: Seq<NodeMeta>, n: NodeMeta) -> bool {
    n.id != local.id && !spec_contains_id(members, n.id)
}

/// The membership set after an announcement of `n`.
pub open spec fn spec_join(local: NodeMeta, members: Seq<NodeMeta>, n: NodeMeta) -> Seq<
    NodeMeta,
> {
    if spec_join_adds(local, members, n) {
        members.push(n)
    } else {
        members
    }
}

/// The sequence `s` with every element carrying `id` taken out, order kept.
pub open spec fn spec_remove_id(s: Seq<NodeMeta>, id: u128) -> Seq<NodeMeta>
    decreases s.len(),
{
    if s.len() == 0 {
        s
    } else {
        let rest = spec_remove_id(s.drop_last(), id);
        if s.last().id == id {
            rest
        } else {
            rest.push(s.last())
        }
    }
}

/// What removal does: it keeps exactly the identifiers other than `id`,
/// keeps identifiers distinct, is the identity when `id` is absent, and
/// shortens a distinct sequence by one when `id` is present.
pub proof fn lemma_remove_id_spec(s: Seq<NodeMeta>, id: u128)
    ensures
        forall|x: u128|
            #[trigger] spec_contains_id(spec_remove_id(s, id), x) <==> (spec_contains_id(s, x)
                && x != id),
        spec_distinct_ids(s) ==> spec_distinct_ids(spec_remove_id(s, id)),
        !spec_contains_id(s, id) ==> spec_remove_id(s, id) == s,
        spec_distinct_ids(s) && spec_contains_id(s, id) ==> spec_remove_id(s, id).len() == s.len()
            - 1,
    decreases s.len(),
{
    if s.len() == 0 {
        assert forall|x: u128| #[trigger]
            spec_contains_id(spec_remove_id(s, id), x) <==> (spec_contains_id(s, x)
            && x != id) by {
            assert(!spec_contains_id(s, x));
        }
    } else {
        let d = s.drop_last();
        let last = s.last();
        let rest = spec_remove_id(d, id);
        let r = spec_remove_id(s, id);
        lemma_remove_id_spec(d, id);

        assert(s[s.len() - 1] == last);
        assert forall|x: u128| spec_contains_id(s, x) implies (spec_contains_id(d, x) || last.id
            == x) by {
            let i = choose|i: int| 0 <= i < s.len() && s[i].id == x;
            if i < s.len() - 1 {
                assert(d[i].id == x);
            }
        }
        assert forall|x: u128| spec_contains_id(d, x) implies spec_contains_id(s, x) by {
            let i = choose|i: int| 0 <= i < d.len() && d[i].id == x;
            assert(s[i].id == x);
        }

        if last.id == id {
            assert(r == rest);
            assert forall|x: u128| #[trigger]
                spec_contains_id(r, x) <==> (spec_contains_id(s, x) && x != id) by {
                if spec_contains_id(s, x) && x != id {
                    assert(spec_contains_id(d, x) || last.id == x);
                    assert(spec_contains_id(d, x));
                }
            }
            if spec_distinct_ids(s) {
                assert(spec_distinct_ids(d));
                if spec_contains_id(d, id) {
                    let i = choose|i: int| 0 <= i < d.len() && d[i].id == id;
                    assert(s[i].id == s[s.len() - 1].id);
                    assert(false);
                }
                assert(rest == d);
            }
            assert(spec_contains_id(s, id));
        } else {
            assert(r == rest.push(last));
            assert forall|x: u128| spec_contains_id(r, x) implies (spec_contains_id(rest, x)
                || last.id == x) by {
                let i = choose|i: int| 0 <= i < r.len() && r[i].id == x;
                if i < r.len() - 1 {
                    assert(rest[i].id == x);
                }
            }
            assert forall|x: u128| spec_contains_id(rest, x) implies spec_contains_id(r, x) by {
                let i = choose|i: int| 0 <= i < rest.len() && rest[i].id == x;
                assert(r[i].id == x);
            }
            assert(r[r.len() - 1] == last);
            assert forall|x: u128| #[trigger]
                spec_contains_id(r, x) <==> (spec_contains_id(s, x) && x != id) by {
                if spec_contains_id(r, x) {
                    assert(spec_contains_id(rest, x) || last.id == x);
                }
                if spec_contains_id(s, x) && x != id {
                    assert(spec_contains_id(d, x) || last.id == x);
                }
            }
            if spec_distinct_ids(s) {
                assert(spec_distinct_ids(d));
                assert forall|i: int, j: int|
                    0 <= i < r.len() && 0 <= j < r.len() && i != j implies r[i].id != r[j].id by {
                    if i == r.len() - 1 || j == r.len() - 1 {
                        let k = if i == r.len() - 1 { j } else { i };
                        assert(r[k] == rest[k]);
                        assert(spec_contains_id(rest, rest[k].id));
                        if rest[k].id == last.id {
                            assert(spec_contains_id(d, last.id));
                            let w = choose|w: int| 0 <= w < d.len() && d[w].id == last.id;
                            assert(s[w].id == s[s.len() - 1].id);
                            assert(false);
                        }
                    }
                }
            }
            if !spec_contains_id(s, id) {
                assert(!spec_contains_id(d, id));
                assert(rest == d);
                assert(d.push(last) =~= s);
            }
            if spec_distinct_ids(s) && spec_contains_id(s, id) {
                assert(spec_contains_id(d, id) || last.id == id);
                assert(spec_contains_id(d, id));
            }
        }
    }
}

/// Law: an announcement of `n` followed by another announcement of `n`
/// grows the membership set at most once — the second announcement never
/// adds.
pub proof fn lemma_join_twice_adds_once(local: NodeMeta, members: Seq<NodeMeta>, n: NodeMeta)
    ensures
        !spec_join_adds(local, spec_join(local, members, n), n),
{
    if spec_join_adds(local, members, n) {
        let after = spec_join(local, members, n);
        assert(after[members.len() as int].id == n.id);
        assert(spec_contains_id(after, n.id));
    }
}

/// Law: a departure of a peer that is not a member leaves the membership
/// set exactly as it was.
pub proof fn lemma_left_when_absent_is_noop(members: Seq<NodeMeta>, id: u128)
    requires
        !spec_contains_id(members, id),
    ensures
        spec_remove_id(members, id) == members,
{
    lemma_remove_id_spec(members, id);
}

/// True when `v` holds a member with identifier `id`.
fn contains_id_vec(v: &Vec<NodeMeta>, id: u128) -> (r: bool)
    ensures
        r == spec_contains_id(v@, id),
{
    let n = v.len();
    let mut i: usize = 0;
    while i < n
        invariant
            i <= n,
            n == v@.len(),
            forall|k: int| 0 <= k < i ==> v@[k].id != id,
        decreases n - i,
    {
        if v[i].id == id {
            proof {
                assert(v@[i as int].id == id);
            }
            return true;
        }
        i = i + 1;
    }
    false
}

/// Builds `v` with every element carrying `id` taken out.
fn remove_id_vec(v: &Vec<NodeMeta>, id: u128) -> (r: Vec<NodeMeta>)
    ensures
        r@ == spec_remove_id(v@, id),
{
    let n = v.len();
    let mut acc: Vec<NodeMeta> = Vec::new();
    let mut i: usize = 0;
    while i < n
        invariant
            i <= n,
            n == v@.len(),
            acc@ == spec_remove_id(v@.take(i as int), id),
        decreases n - i,
    {
        proof {
            assert(v@.take(i + 1).drop_last() =~= v@.take(i as int));
            assert(v@.take(i + 1).last() == v@[i as int]);
        }
        if v[i].id != id {
            acc.push(v[i]);
        }
        i = i + 1;
    }
    proof {
        assert(v@.take(n as int) =~= v@);
    }
    acc
}

/// What the membership component asks its surroundings to do after an
/// event: nothing, announce a membership change, answer a probe, or probe
/// a peer indirectly on a requester's behalf.
#[derive(Clone, Copy, PartialEq, Eq, Structural, Debug)]
pub enum MembershipAction {
    Ignore,
    /// Post `MemberAdded` for this peer.
    Added { node_meta: NodeMeta },
    /// Post `MemberLeft` for this peer.
    Left { node_meta: NodeMeta },
    /// Send a `Response` with this correlation id and empty payload.
    ReplyProbe { cor_id: u128, return_address: Address },
    /// Probe `probe_node` directly; on success send a `Response` with this
    /// correlation id to `return_address`, otherwise stay silent.
    IndirectProbe { cor_id: u128, probe_node: NodeMeta, return_address: Address },
}

/// The membership set: the local identity and the peers believed alive.
pub struct MembershipService {
    pub local: NodeMeta,
    pub members: Vec<NodeMeta>,
}

impl MembershipService {
    /// The set's invariant: the local identifier is never a member, and no
    /// identifier appears twice.
    pub open spec fn wf(self) -> bool {
        &&& !spec_contains_id(self.members@, self.local.id)
        &&& spec_distinct_ids(self.members@)
    }

    /// A fresh, empty membership set for the given local identity.
    pub fn new(local: NodeMeta) -> (r: MembershipService)
        ensures
            r.wf(),
            r.local == local,
            r.members@.len() == 0,
    {
        MembershipService { local, members: Vec::new() }
    }

    /// Reacts to a `JoinIn` announcement: adds the peer unless it is the
    /// local node or already a member.  Returns whether the set grew, in
    /// which case `MemberAdded` is owed.
    pub fn handle_joined_node(&mut self, node: NodeMeta) -> (added: bool)
        requires
            old(self).wf(),
        ensures
            final(self).wf(),
            final(self).local == old(self).local,
            added == spec_join_adds(old(self).local, old(self).members@, node),
            final(self).members@ == spec_join(old(self).local, old(self).members@, node),
    {
        if node.id == self.local.id {
            return false;
        }
        if contains_id_vec(&self.members, node.id) {
            return false;
        }
        self.members.push(node);
        proof {
            let m = self.members@;
            let o = old(self).members@;
            assert forall|i: int, j: int|
                0 <= i < m.len() && 0 <= j < m.len() && i != j implies m[i].id != m[j].id by {
                if i == o.len() || j == o.len() {
                    let k = if i == o.len() { j } else { i };
                    if o[k].id == node.id {
                        assert(spec_contains_id(o, node.id));
                    }
                }
            }
            if spec_contains_id(m, self.local.id) {
                let w = choose|w: int| 0 <= w < m.len() && m[w].id == self.local.id;
                if w < o.len() {
                    assert(spec_contains_id(o, self.local.id));
                }
                assert(false);
            }
        }
        true
    }

    /// Reacts to a `LeftIn` announcement: removes the peer if present.
    /// Returns whether the set shrank, in which case `MemberLeft` is owed.
    pub fn handle_left_node(&mut self, node: NodeMeta) -> (removed: bool)
        requires
            old(self).wf(),
        ensures
            final(self).wf(),
            final(self).local == old(self).local,
            removed == spec_contains_id(old(self).members@, node.id),
            final(self).members@ == spec_remove_id(old(self).members@, node.id),
    {
        let present = contains_id_vec(&self.members, node.id);
        let filtered = remove_id_vec(&self.members, node.id);
        self.members = filtered;
        proof {
            lemma_remove_id_spec(old(self).members@, node.id);
        }
        present
    }

    /// A snapshot of the current members.
    pub fn get_members(&self) -> (r: Vec<NodeMeta>)
        ensures
            r@ == self.members@,
    {
        let n = self.members.len();
        let mut r: Vec<NodeMeta> = Vec::new();
        let mut i: usize = 0;
        while i < n
            invariant
                i <= n,
                n == self.members@.len(),
                r@ == self.members@.take(i as int),
            decreases n - i,
        {
            r.push(self.members[i]);
            proof {
                assert(r@ =~= self.members@.take(i + 1));
            }
            i = i + 1;
        }
        proof {
            assert(self.members@.take(n as int) =~= self.members@);
        }
        r
    }

    /// The member carrying `member_id`, if any.
    pub fn get_member_by_id(&self, member_id: u128) -> (r: Option<NodeMeta>)
        ensures
            r is Some <==> spec_contains_id(self.members@, member_id),
            r matches Some(m) ==> m.id == member_id && self.members@.contains(m),
    {
        let n = self.members.len();
        let mut i: usize = 0;
        while i < n
            invariant
                i <= n,
                n == self.members@.len(),
                forall|k: int| 0 <= k < i ==> self.members@[k].id != member_id,
            decreases n - i,
        {
            if self.members[i].id == member_id {
                proof {
                    assert(self.members@[i as int].id == member_id);
                }
                return Some(self.members[i]);
            }
            i = i + 1;
        }
        None
    }

    /// The first member listening at `address`, if any.
    pub fn get_member_by_address(&self, address: &Address) -> (r: Option<NodeMeta>)
        ensures
            r is Some <==> exists|i: int|
                0 <= i < self.members@.len() && self.members@[i].addr == *address,
            r matches Some(m) ==> m.addr == *address && self.members@.contains(m),
    {
        let n = self.members.len();
        let mut i: usize = 0;
        while i < n
            invariant
                i <= n,
                n == self.members@.len(),
                forall|k: int| 0 <= k < i ==> self.members@[k].addr != *address,
            decreases n - i,
        {
            let m = self.members[i];
            if m.addr.ip == address.ip && m.addr.port == address.port {
                proof {
                    assert(self.members@[i as int].addr == *address);
                }
                return Some(m);
            }
            i = i + 1;
        }
        None
    }

    /// How many peers are currently believed alive.
    pub fn get_member_count(&self) -> (r: usize)
        ensures
            r == self.members@.len(),
    {
        self.members.len()
    }

    /// Picks a uniformly random member to probe this round; `None` exactly
    /// when the set is empty, so an empty set probes nobody.
    pub fn choose_random_member(&self) -> (r: Option<NodeMeta>)
        ensures
            r is Some <==> self.members@.len() > 0,
            r matches Some(m) ==> self.members@.contains(m),
    {
        let n = self.members.len();
        if n == 0 {
            None
        } else {
            let i = rand_below(n);
            let m = self.members[i];
            proof {
                assert(self.members@.contains(self.members@[i as int]));
            }
            Some(m)
        }
    }

    /// Picks up to `fanout` distinct members, excluding the probe target,
    /// to carry an indirect probe.  The choice is uniform without
    /// replacement; with an empty set nothing is picked.
    pub fn select_probe_relays(&self, target_id: u128, fanout: usize) -> (r: Vec<NodeMeta>)
        requires
            self.wf(),
        ensures
            r@.len() == if fanout <= spec_remove_id(self.members@, target_id).len() {
                fanout as int
            } else {
                spec_remove_id(self.members@, target_id).len() as int
            },
            spec_distinct_ids(r@),
            forall|k: int|
                0 <= k < r@.len() ==> self.members@.contains(#[trigger] r@[k]) && r@[k].id
                    != target_id,
    {
        proof {
            lemma_remove_id_spec(self.members@, target_id);
        }
        let pool = remove_id_vec(&self.members, target_id);
        let r = sample_distinct_members(&pool, fanout);
        proof {
            assert forall|k: int| 0 <= k < r@.len() implies self.members@.contains(
                #[trigger] r@[k],
            ) && r@[k].id != target_id by {
                assert(pool@.contains(r@[k]));
                let w = choose|w: int| 0 <= w < pool@.len() && pool@[w] == r@[k];
                lemma_remove_id_elements(self.members@, target_id, w);
            }
        }
        r
    }

    /// Concludes a probe round for `target`: when both the direct probe
    /// and every indirect probe have failed, the target is evicted and
    /// `MemberLeft` is owed; any success leaves the set untouched.
    pub fn conclude_probe(&mut self, target: NodeMeta, direct_ok: bool, indirect_ok: bool) -> (evicted:
        bool)
        requires
            old(self).wf(),
        ensures
            final(self).wf(),
            final(self).local == old(self).local,
            evicted == (!direct_ok && !indirect_ok && spec_contains_id(
                old(self).members@,
                target.id,
            )),
            (!direct_ok && !indirect_ok) ==> final(self).members@ == spec_remove_id(
                old(self).members@,
                target.id,
            ),
            (direct_ok || indirect_ok) ==> final(self).members@ == old(self).members@,
    {
        if !direct_ok && !indirect_ok {
            self.handle_left_node(target)
        } else {
            false
        }
    }

    /// Routes one bus event to the membership reactions of the design:
    /// `JoinIn` adds, `LeftIn` removes, `ProbeIn` is answered, `ProbeReqIn`
    /// asks for an indirect probe, and everything else is ignored.
    pub fn on_event(&mut self, event: &Event) -> (a: MembershipAction)
        requires
            old(self).wf(),
        ensures
            final(self).wf(),
            final(self).local == old(self).local,
            match *event {
                Event::JoinIn { node_meta } => {
                    &&& final(self).members@ == spec_join(
                        old(self).local,
                        old(self).members@,
                        node_meta,
                    )
                    &&& a == if spec_join_adds(old(self).local, old(self).members@, node_meta) {
                        MembershipAction::Added { node_meta }
                    } else {
                        MembershipAction::Ignore
                    }
                },
                Event::LeftIn { node_meta } => {
                    &&& final(self).members@ == spec_remove_id(old(self).members@, node_meta.id)
                    &&& a == if spec_contains_id(old(self).members@, node_meta.id) {
                        MembershipAction::Left { node_meta }
                    } else {
                        MembershipAction::Ignore
                    }
                },
                Event::ProbeIn { cor_id, return_address } => {
                    &&& final(self).members@ == old(self).members@
                    &&& a == (MembershipAction::ReplyProbe { cor_id, return_address })
                },
                Event::ProbeReqIn { cor_id, probe_node, return_address } => {
                    &&& final(self).members@ == old(self).members@
                    &&& a == (MembershipAction::IndirectProbe {
                        cor_id,
                        probe_node,
                        return_address,
                    })
                },
                _ => final(self).members@ == old(self).members@ && a == MembershipAction::Ignore,
            },
    {
        match event {
            Event::JoinIn { node_meta } => {
                let node = *node_meta;
                if self.handle_joined_node(node) {
                    MembershipAction::Added { node_meta: node }
                } else {
                    MembershipAction::Ignore
                }
            },
            Event::LeftIn { node_meta } => {
                let node = *node_meta;
                if self.handle_left_node(node) {
                    MembershipAction::Left { node_meta: node }
                } else {
                    MembershipAction::Ignore
                }
            },
            Event::ProbeIn { cor_id, return_address } => MembershipAction::ReplyProbe {
                cor_id: *cor_id,
                return_address: *return_address,
            },
            Event::ProbeReqIn { cor_id, probe_node, return_address } => {
                MembershipAction::IndirectProbe {
                    cor_id: *cor_id,
                    probe_node: *probe_node,
                    return_address: *return_address,
                }
            },
            _ => MembershipAction::Ignore,
        }
    }
}

/// Picks up to `k` of the given peers uniformly without replacement.
/// Everything picked comes from `v`, no identifier is picked twice, and
/// the count is `k` unless fewer peers exist.
pub fn sample_distinct_members(v: &Vec<NodeMeta>, k: usize) -> (r: Vec<NodeMeta>)
    requires
        spec_distinct_ids(v@),
    ensures
        r@.len() == if k <= v@.len() {
            k as int
        } else {
            v@.len() as int
        },
        spec_distinct_ids(r@),
        forall|i: int| 0 <= i < r@.len() ==> v@.contains(#[trigger] r@[i]),
    {
        let ghost total = v@.len() as int;
        let n = v.len();
        let mut pool: Vec<NodeMeta> = Vec::new();
        let mut i: usize = 0;
        while i < n
            invariant
                i <= n,
                n == v@.len(),
                pool@ == v@.take(i as int),
            decreases n - i,
        {
            pool.push(v[i]);
            proof {
                assert(pool@ =~= v@.take(i + 1));
            }
            i = i + 1;
        }
        proof {
            assert(v@.take(n as int) =~= v@);
        }
        let mut selected: Vec<NodeMeta> = Vec::new();
        proof {
            assert forall|j: int| 0 <= j < pool@.len() implies v@.contains(
                #[trigger] pool@[j],
            ) by {
                assert(pool@[j] == v@[j]);
            }
        }
        while selected.len() < k && pool.len() > 0
            invariant
                selected@.len() + pool@.len() == total,
                selected@.len() <= k,
                spec_distinct_ids(selected@),
                spec_distinct_ids(pool@),
                forall|j: int| 0 <= j < pool@.len() ==> v@.contains(#[trigger] pool@[j]),
                forall|j: int| 0 <= j < selected@.len() ==> v@.contains(#[trigger] selected@[j]),
                forall|a: int, b: int|
                    0 <= a < selected@.len() && 0 <= b < pool@.len() ==> selected@[a].id
                        != pool@[b].id,
            decreases pool@.len(),
        {
            let ghost pool0 = pool@;
            let j = rand_below(pool.len());
            let x = pool.swap_remove(j);
            selected.push(x);
            proof {
                assert(x == pool0[j as int]);
                assert forall|c: int| 0 <= c < pool@.len() implies exists|w: int|
                    0 <= w < pool0.len() && w != j && #[trigger] pool@[c] == pool0[w] by {
                    if c == j {
                        assert(pool@[c] == pool0[pool0.len() - 1]);
                    } else {
                        assert(pool@[c] == pool0[c]);
                    }
                }
            }
        }
        selected
    }

/// Every element of the removal's result is an element of the original.
proof fn lemma_remove_id_elements(s: Seq<NodeMeta>, id: u128, k: int)
    requires
        0 <= k < spec_remove_id(s, id).len(),
    ensures
        s.contains(spec_remove_id(s, id)[k]),
        spec_remove_id(s, id)[k].id != id,
    decreases s.len(),
{
    if s.len() == 0 {
    } else {
        let d = s.drop_last();
        let rest = spec_remove_id(d, id);
        if s.last().id == id {
            lemma_remove_id_elements(d, id, k);
            let e = rest[k];
            let w = choose|w: int| 0 <= w < d.len() && d[w] == e;
            assert(s[w] == e);
        } else {
            if k < rest.len() {
                lemma_remove_id_elements(d, id, k);
                let e = rest[k];
                let w = choose|w: int| 0 <= w < d.len() && d[w] == e;
                assert(s[w] == e);
            } else {
                assert(spec_remove_id(s, id)[k] == s.last());
                assert(s[s.len() - 1] == s.last());
            }
        }
    }
}

} // verus!
