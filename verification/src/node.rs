//! The service node: bounded ingress and egress buffers, an egress rate, an
//! optional filter, and a routing policy that decides where each message
//! goes.  One node type hosts every policy; the policy is injected at
//! construction.
use crate::error::SimError;
use crate::fifo::RpcQueue;
use crate::filter::{
    filter_after, filter_emits_extra, tagged, Filter, FilterKind, FilterSlot,
};
use crate::rng::{seeded_choice, seeded_pick};
use crate::rpc::Rpc;
use crate::strutil::str_eq;
use crate::UidAllocator;
use vstd::prelude::*;

verus! {

/// How a node routes the messages it processes.
pub enum Policy {
    /// Forward to one neighbor drawn by the seeded generator.
    Random,
    /// Always forward to one fixed destination, tagging messages as requests;
    /// an element with this policy also collects the responses addressed to
    /// it, as an entry gateway does.
    FixedForward { dest: String },
    /// Shuttle between two fixed parties: what the one sends goes to the
    /// other.
    Relay { upstream: String, downstream: String },
    /// Answer every message straight back to its sender as a response.
    Mirror,
    /// Scatter each upstream request to one drawn candidate and to a fixed
    /// secondary, then gather the two replies by correlation identifier and
    /// forward one merged response upstream.
    ScatterGather { candidates: Vec<String>, secondary: String, upstream: String },
}

/// The partial replies gathered so far for one correlation identifier.
pub struct PendingRpc {
    pub secondary_reply: Option<Rpc>,
    pub candidate_reply: Option<Rpc>,
}

impl PendingRpc {
    pub fn default() -> (r: PendingRpc)
        ensures
            r.secondary_reply is None,
            r.candidate_reply is None,
    {
        PendingRpc { secondary_reply: None, candidate_reply: None }
    }
}

pub open spec fn all_rpcs_wf(s: Seq<Rpc>) -> bool {
    forall|i: int| 0 <= i < s.len() ==> (#[trigger] s[i]).wf()
}

pub open spec fn policy_wf(p: Policy) -> bool {
    match p {
        Policy::ScatterGather { candidates, .. } => candidates@.len() > 0,
        _ => true,
    }
}

/// No two pending entries share a correlation identifier.
pub open spec fn pending_distinct(p: Seq<(u64, PendingRpc)>) -> bool {
    forall|i: int, j: int|
        0 <= i < p.len() && 0 <= j < p.len() && i != j ==> (#[trigger] p[i]).0 != (
        #[trigger] p[j]).0
}

/// The index of a correlation identifier in the pending table, or -1.
pub open spec fn pending_find(p: Seq<(u64, PendingRpc)>, uid: u64) -> int
    decreases p.len(),
{
    if p.len() == 0 {
        -1
    } else if p[0].0 == uid {
        0
    } else {
        let r = pending_find(p.drop_first(), uid);
        if r == -1 {
            -1
        } else {
            r + 1
        }
    }
}

pub struct Node {
    pub ingress_queue: RpcQueue,
    pub egress_queue: RpcQueue,
    pub id: String,
    pub capacity: u32,
    pub egress_rate: u32,
    pub generation_rate: u32,
    pub plugin: Option<FilterSlot>,
    pub neighbors: Vec<String>,
    pub seed: u64,
    pub policy: Policy,
    pub pending_rpcs: Vec<(u64, PendingRpc)>,
    pub collected_responses: Vec<Rpc>,
}

/// How a fresh filter of the given kind looks.
pub open spec fn fresh_filter(kind: FilterKind, workload: Seq<char>, f: Filter) -> bool {
    match f {
        Filter::Count(c) => kind == FilterKind::Count && c.workload@ == workload
            && c.responses_seen == 0,
        Filter::Average(a) => kind == FilterKind::Average && a.total == 0 && a.count_n == 0,
    }
}

impl Node {
    pub open spec fn wf(&self) -> bool {
        &&& all_rpcs_wf(self.ingress_queue.elems())
        &&& all_rpcs_wf(self.egress_queue.elems())
        &&& match self.plugin {
            Some(p) => p.wf() && p.stored@.len() == 0 && p.neighbor@.len() == 1,
            None => true,
        }
        &&& self.capacity >= 1
        &&& policy_wf(self.policy)
        &&& pending_distinct(self.pending_rpcs@)
    }

    /// How many messages the node is buffering, ingress and egress together;
    /// the capacity bounds this sum at admission.
    pub open spec fn occupied(&self) -> int {
        self.ingress_queue.elems().len() + self.egress_queue.elems().len() as int
    }

    /// A node with the random-forward policy.  A zero capacity is a
    /// configuration fault, rejected at setup.
    pub fn new(
        id: &str,
        capacity: u32,
        egress_rate: u32,
        generation_rate: u32,
        plugin: Option<FilterKind>,
        seed: u64,
    ) -> (r: Node)
        requires
            capacity >= 1,
        ensures
            r.wf(),
            r.id@ == id@,
            r.capacity == capacity,
            r.egress_rate == egress_rate,
            r.generation_rate == generation_rate,
            r.seed == seed,
            r.policy is Random,
            r.occupied() == 0,
            r.neighbors@.len() == 0,
            r.pending_rpcs@.len() == 0,
            r.collected_responses@.len() == 0,
            match (plugin, r.plugin) {
                (None, None) => true,
                (Some(kind), Some(slot)) => fresh_filter(kind, id@, slot.filter),
                _ => false,
            },
    {
        let created_plugin = match plugin {
            None => None,
            Some(kind) => {
                let mut plugin_id = id.to_owned();
                plugin_id.append("_plugin");
                let mut slot = FilterSlot::new(plugin_id.as_str(), kind);
                proof {
                    reveal_strlit("_plugin");
                    assert("_plugin"@.len() == 7);
                    assert(plugin_id@.subrange(id@.len() as int, id@.len() as int + 7)
                        =~= "_plugin"@);
                    assert(crate::strutil::spec_contains(plugin_id@, "_plugin"@));
                    assert(plugin_id@.subrange(0, plugin_id@.len() - 7) =~= id@);
                }
                slot.add_connection(id.to_owned());
                Some(slot)
            },
        };
        Node {
            ingress_queue: RpcQueue::new(),
            egress_queue: RpcQueue::new(),
            id: id.to_owned(),
            capacity,
            egress_rate,
            generation_rate,
            plugin: created_plugin,
            neighbors: Vec::new(),
            seed,
            policy: Policy::Random,
            pending_rpcs: Vec::new(),
            collected_responses: Vec::new(),
        }
    }

    pub fn enqueue_ingress(&mut self, x: Rpc, _now: u64)
        requires
            old(self).wf(),
            x.wf(),
        ensures
            final(self).wf(),
            final(self).ingress_queue.elems() == old(self).ingress_queue.elems().push(x),
            *final(self) == (Node { ingress_queue: final(self).ingress_queue, ..*old(self) }),
    {
        self.ingress_queue.add(x);
    }

    pub fn dequeue_ingress(&mut self, _now: u64) -> (r: Option<Rpc>)
        requires
            old(self).wf(),
        ensures
            final(self).wf(),
            *final(self) == (Node { ingress_queue: final(self).ingress_queue, ..*old(self) }),
            old(self).ingress_queue.elems().len() == 0 ==> r is None && *final(self) == *old(self),
            old(self).ingress_queue.elems().len() > 0 ==> r == Some(
                old(self).ingress_queue.elems()[0],
            ) && final(self).ingress_queue.elems() == old(self).ingress_queue.elems().drop_first()
                && r->Some_0.wf(),
    {
        if self.ingress_queue.size() == 0 {
            None
        } else {
            self.ingress_queue.remove()
        }
    }

    pub fn enqueue_egress(&mut self, x: Rpc)
        requires
            old(self).wf(),
            x.wf(),
        ensures
            final(self).wf(),
            final(self).egress_queue.elems() == old(self).egress_queue.elems().push(x),
            *final(self) == (Node { egress_queue: final(self).egress_queue, ..*old(self) }),
    {
        self.egress_queue.add(x);
    }

    pub fn dequeue_egress(&mut self) -> (r: Option<Rpc>)
        requires
            old(self).wf(),
        ensures
            final(self).wf(),
            *final(self) == (Node { egress_queue: final(self).egress_queue, ..*old(self) }),
            old(self).egress_queue.elems().len() == 0 ==> r is None && *final(self) == *old(self),
            old(self).egress_queue.elems().len() > 0 ==> r == Some(
                old(self).egress_queue.elems()[0],
            ) && final(self).egress_queue.elems() == old(self).egress_queue.elems().drop_first()
                && r->Some_0.wf(),
    {
        if self.egress_queue.size() == 0 {
            None
        } else {
            self.egress_queue.remove()
        }
    }

    pub fn add_connection(&mut self, neighbor: String)
        requires
            old(self).wf(),
        ensures
            final(self).wf(),
            final(self).neighbors@ == old(self).neighbors@.push(neighbor),
            *final(self) == (Node { neighbors: final(self).neighbors, ..*old(self) }),
    {
        self.neighbors.push(neighbor);
    }

    pub fn whoami(&self) -> (r: &String)
        ensures
            r == &self.id,
    {
        &self.id
    }

    pub fn neighbors(&self) -> (r: &Vec<String>)
        ensures
            r == &self.neighbors,
    {
        &self.neighbors
    }

    /// Applies the routing policy to one message: decides its destination and
    /// rewrites its bookkeeping headers, appending to `new_rpcs` everything to
    /// send.  A message missing a header the policy is owed, or carrying a
    /// sender the policy has no rule for, is a protocol violation: the run
    /// stops and nothing is appended.  The generator behind a random draw is
    /// seeded afresh from the node's seed at every decision, so a given node
    /// draws the same neighbor at every tick.
    pub fn process_rpc(&mut self, rpc: &mut Rpc, new_rpcs: &mut Vec<Rpc>) -> (r: Result<
        (),
        SimError,
    >)
        requires
            old(self).wf(),
            old(rpc).wf(),
            all_rpcs_wf(old(new_rpcs)@),
        ensures
            *final(self) == *old(self),
            final(rpc).wf(),
            all_rpcs_wf(final(new_rpcs)@),
            r is Err ==> *final(rpc) == *old(rpc) && *final(new_rpcs) == *old(new_rpcs) && (
            r->Err_0 is MissingHeader || r->Err_0 is InvalidSource || r->Err_0 is NoNeighbors),
            r is Ok ==> final(rpc)@.data == old(rpc)@.data && final(rpc)@.uid == old(rpc)@.uid
                && final(rpc)@.path == old(rpc)@.path,
            match old(self).policy {
                Policy::Random => {
                    &&& (r is Ok <==> old(self).neighbors@.len() > 0)
                    &&& r is Ok ==> seeded_choice(
                        old(self).seed,
                        old(self).neighbors@.len() as u64,
                    ) < old(self).neighbors@.len()
                    &&& r is Ok ==> final(rpc)@.headers == old(rpc)@.headers.insert(
                        "src"@,
                        old(self).id@,
                    ).insert(
                        "dest"@,
                        old(self).neighbors@[seeded_choice(
                            old(self).seed,
                            old(self).neighbors@.len() as u64,
                        ) as int]@,
                    ) && final(new_rpcs)@.len() == old(new_rpcs)@.len() + 1 && final(new_rpcs)@.last()@ == final(rpc)@
                },
                Policy::FixedForward { dest } => {
                    &&& r is Ok
                    &&& final(rpc)@.headers == old(rpc)@.headers.insert("direction"@, "request"@)
                        .insert("src"@, old(self).id@).insert("dest"@, dest@)
                    &&& final(new_rpcs)@.len() == old(new_rpcs)@.len() + 1
                    &&& final(new_rpcs)@.last()@ == final(rpc)@
                },
                Policy::Relay { upstream, downstream } => {
                    &&& (r is Ok <==> old(rpc)@.headers.contains_key("src"@) && (old(rpc)@.headers["src"@] == upstream@ || old(rpc)@.headers["src"@] == downstream@))
                    &&& r is Ok ==> final(rpc)@.headers == old(rpc)@.headers.insert(
                        "dest"@,
                        if old(rpc)@.headers["src"@] == upstream@ {
                            downstream@
                        } else {
                            upstream@
                        },
                    ).insert("src"@, old(self).id@) && final(new_rpcs)@.len() == old(new_rpcs)@.len() + 1 && final(new_rpcs)@.last()@ == final(rpc)@
                },
                Policy::Mirror => {
                    &&& (r is Ok <==> old(rpc)@.headers.contains_key("src"@))
                    &&& r is Ok ==> final(rpc)@.headers == old(rpc)@.headers.insert(
                        "dest"@,
                        old(rpc)@.headers["src"@],
                    ).insert("direction"@, "response"@).insert("src"@, old(self).id@) && final(new_rpcs)@.len() == old(new_rpcs)@.len() + 1 && final(new_rpcs)@.last()@ == final(rpc)@
                },
                Policy::ScatterGather { candidates, secondary, upstream } => {
                    &&& (r is Ok <==> old(rpc)@.headers.contains_key("src"@) && (old(rpc)@.headers["src"@] == "internal_rpc"@ || old(rpc)@.headers["src"@]
                        == upstream@))
                    &&& (r is Ok && old(rpc)@.headers["src"@] == "internal_rpc"@) ==> final(rpc)@.headers == old(rpc)@.headers.insert("dest"@, upstream@).insert(
                        "src"@,
                        old(self).id@,
                    ) && final(new_rpcs)@.len() == old(new_rpcs)@.len() + 1 && final(new_rpcs)@.last()@ == final(rpc)@
                    &&& (r is Ok && old(rpc)@.headers["src"@] != "internal_rpc"@) ==> seeded_choice(
                        old(self).seed,
                        candidates@.len() as u64,
                    ) < candidates@.len() && final(rpc)@.headers == old(rpc)@.headers.insert(
                        "dest"@,
                        candidates@[seeded_choice(
                            old(self).seed,
                            candidates@.len() as u64,
                        ) as int]@,
                    ).insert("src"@, old(self).id@) && final(new_rpcs)@.len() == old(new_rpcs)@.len() + 2 && final(new_rpcs)@.last()@ == final(rpc)@ && final(new_rpcs)@[final(new_rpcs)@.len() - 2]@.headers == old(rpc)@.headers.insert(
                        "dest"@,
                        secondary@,
                    ).insert("src"@, old(self).id@) && final(new_rpcs)@[final(new_rpcs)@.len() - 2]@.data == old(rpc)@.data && final(new_rpcs)@[final(new_rpcs)@.len() - 2]@.uid == old(rpc)@.uid
                },
            },
    {
        match &self.policy {
            Policy::Random => {
                if self.neighbors.len() == 0 {
                    return Err(SimError::NoNeighbors { element: self.id.clone() });
                }
                rpc.headers.insert("src", self.id.as_str());
                let idx = seeded_pick(self.seed, self.neighbors.len());
                rpc.headers.insert("dest", self.neighbors[idx].as_str());
                new_rpcs.push(rpc.duplicate());
                Ok(())
            },
            Policy::FixedForward { dest } => {
                rpc.headers.insert("direction", "request");
                rpc.headers.insert("src", self.id.as_str());
                rpc.headers.insert("dest", dest.as_str());
                new_rpcs.push(rpc.duplicate());
                Ok(())
            },
            Policy::Relay { upstream, downstream } => {
                let dest: String = match rpc.headers.get("src") {
                    None => {
                        return Err(
                            SimError::MissingHeader {
                                element: self.id.clone(),
                                header: "src".to_owned(),
                            },
                        );
                    },
                    Some(src) => {
                        if str_eq(src.as_str(), upstream.as_str()) {
                            downstream.clone()
                        } else if str_eq(src.as_str(), downstream.as_str()) {
                            upstream.clone()
                        } else {
                            return Err(
                                SimError::InvalidSource {
                                    element: self.id.clone(),
                                    src: src.clone(),
                                },
                            );
                        }
                    },
                };
                rpc.headers.insert("dest", dest.as_str());
                rpc.headers.insert("src", self.id.as_str());
                new_rpcs.push(rpc.duplicate());
                Ok(())
            },
            Policy::Mirror => {
                let dest: String = match rpc.headers.get("src") {
                    None => {
                        return Err(
                            SimError::MissingHeader {
                                element: self.id.clone(),
                                header: "src".to_owned(),
                            },
                        );
                    },
                    Some(src) => src.clone(),
                };
                rpc.headers.insert("dest", dest.as_str());
                rpc.headers.insert("direction", "response");
                rpc.headers.insert("src", self.id.as_str());
                new_rpcs.push(rpc.duplicate());
                Ok(())
            },
            Policy::ScatterGather { candidates, secondary, upstream } => {
                let src: String = match rpc.headers.get("src") {
                    None => {
                        return Err(
                            SimError::MissingHeader {
                                element: self.id.clone(),
                                header: "src".to_owned(),
                            },
                        );
                    },
                    Some(src) => src.clone(),
                };
                if str_eq(src.as_str(), "internal_rpc") {
                    rpc.headers.insert("dest", upstream.as_str());
                    rpc.headers.insert("src", self.id.as_str());
                    new_rpcs.push(rpc.duplicate());
                    Ok(())
                } else if str_eq(src.as_str(), upstream.as_str()) {
                    let idx = seeded_pick(self.seed, candidates.len());
                    rpc.headers.insert("dest", candidates[idx].as_str());
                    let mut secondary_rpc = rpc.duplicate();
                    secondary_rpc.headers.insert("dest", secondary.as_str());
                    secondary_rpc.headers.insert("src", self.id.as_str());
                    proof {
                        assert(secondary_rpc@.headers =~= old(rpc)@.headers.insert(
                            "dest"@,
                            secondary@,
                        ).insert("src"@, old(self).id@));
                    }
                    new_rpcs.push(secondary_rpc);
                    rpc.headers.insert("src", self.id.as_str());
                    new_rpcs.push(rpc.duplicate());
                    Ok(())
                } else {
                    Err(SimError::InvalidSource { element: self.id.clone(), src })
                }
            },
        }
    }
}

/// Which messages a policy can process without a protocol violation.
pub open spec fn item_ok(policy: Policy, x: crate::rpc::RpcModel) -> bool {
    match policy {
        Policy::Random => true,
        Policy::FixedForward { .. } => true,
        Policy::Mirror => x.headers.contains_key("src"@),
        Policy::Relay { upstream, downstream } => x.headers.contains_key("src"@) && (
        x.headers["src"@] == upstream@ || x.headers["src"@] == downstream@),
        Policy::ScatterGather { upstream, .. } => x.headers.contains_key("src"@) && (
        x.headers["src"@] == "internal_rpc"@ || x.headers["src"@] == upstream@),
    }
}

/// Every queued message satisfies the policy's header demands.
pub open spec fn ingress_ok(policy: Policy, elems: Seq<Rpc>) -> bool {
    forall|i: int| 0 <= i < elems.len() ==> item_ok(policy, (#[trigger] elems[i])@)
}

/// How many work items one tick of the node takes up: the random-forward
/// policy is capped by its egress rate, topping queued messages up with
/// synthesized ones; the mirror answers one; every other policy drains the
/// whole ingress buffer.
pub open spec fn drain_count(n: Node) -> int {
    let q = n.ingress_queue.elems().len() as int;
    match n.policy {
        Policy::Random => if q + n.generation_rate <= n.egress_rate {
            q + n.generation_rate
        } else {
            n.egress_rate as int
        },
        Policy::Mirror => if q > 0 {
            1int
        } else {
            0int
        },
        _ => q,
    }
}

/// How many of those work items come out of the ingress buffer.
pub open spec fn removed_count(n: Node) -> int {
    let q = n.ingress_queue.elems().len() as int;
    if q <= drain_count(n) {
        q
    } else {
        drain_count(n)
    }
}

/// The headers the routing policy stamps on everything the node sends: the
/// node itself is the sender, a destination is present, and the destination
/// is the policy's target — a drawn neighbor, the fixed forward target, one
/// of the relay's two parties, or, for the gather policy, the upstream, the
/// secondary, or a drawn candidate.  The mirror answers to whatever sender
/// the message carried, so only its response tag is pinned.
pub open spec fn routed_by(
    policy: Policy,
    id: Seq<char>,
    neighbors: Seq<String>,
    seed: u64,
    x: crate::rpc::RpcModel,
) -> bool {
    &&& x.headers.contains_key("src"@) && x.headers["src"@] == id
    &&& x.headers.contains_key("dest"@)
    &&& match policy {
        Policy::Random => neighbors.len() > 0 && x.headers["dest"@] == neighbors[seeded_choice(
            seed,
            neighbors.len() as u64,
        ) as int]@,
        Policy::FixedForward { dest } => x.headers["dest"@] == dest@ && x.headers.contains_key(
            "direction"@,
        ) && x.headers["direction"@] == "request"@,
        Policy::Relay { upstream, downstream } => x.headers["dest"@] == upstream@
            || x.headers["dest"@] == downstream@,
        Policy::Mirror => x.headers.contains_key("direction"@) && x.headers["direction"@]
            == "response"@,
        Policy::ScatterGather { candidates, secondary, upstream } => x.headers["dest"@]
            == upstream@ || x.headers["dest"@] == secondary@ || (exists|i: int|
            0 <= i < candidates@.len() && x.headers["dest"@] == (#[trigger] candidates@[i])@),
    }
}

/// How many messages one work item yields under the gather policy: an
/// upstream request scatters into two, a merged internal response goes out
/// as one.
pub open spec fn scatter_item_growth(x: crate::rpc::RpcModel) -> int {
    if x.headers.contains_key("src"@) && x.headers["src"@] == "internal_rpc"@ {
        1int
    } else {
        2int
    }
}

/// The total yield of a run of gather-policy work items.
pub open spec fn scatter_growth(items: Seq<Rpc>) -> int
    decreases items.len(),
{
    if items.len() == 0 {
        0
    } else {
        scatter_item_growth(items[0]@) + scatter_growth(items.drop_first())
    }
}

proof fn lemma_scatter_growth_push(items: Seq<Rpc>, x: Rpc)
    ensures
        scatter_growth(items.push(x)) == scatter_growth(items) + scatter_item_growth(x@),
    decreases items.len(),
{
    assert(scatter_growth(items.push(x)) == scatter_item_growth(items.push(x)[0]@)
        + scatter_growth(items.push(x).drop_first()));
    if items.len() == 0 {
        assert(items.push(x)[0] == x);
        assert(items.push(x).drop_first() =~= Seq::<Rpc>::empty());
        assert(scatter_growth(items.push(x).drop_first()) == 0);
    } else {
        assert(items.push(x).drop_first() =~= items.drop_first().push(x));
        assert(items.push(x)[0] == items[0]);
        lemma_scatter_growth_push(items.drop_first(), x);
        assert(scatter_growth(items) == scatter_item_growth(items[0]@) + scatter_growth(
            items.drop_first(),
        ));
    }
}

/// A fixed-forward element collects an inbound message already tagged as a
/// response instead of queueing it.
pub open spec fn gateway_collects(policy: Policy, x: crate::rpc::RpcModel) -> bool {
    policy is FixedForward && x.headers.contains_key("direction"@) && x.headers["direction"@]
        == "response"@
}

/// A fixed-forward element discards an inbound message tagged with any other
/// direction.
pub open spec fn gateway_discards(policy: Policy, x: crate::rpc::RpcModel) -> bool {
    policy is FixedForward && x.headers.contains_key("direction"@) && x.headers["direction"@]
        != "response"@
}

proof fn lemma_pending_find_props(p: Seq<(u64, PendingRpc)>, uid: u64)
    ensures
        pending_find(p, uid) >= -1,
        pending_find(p, uid) == -1 ==> forall|j: int| 0 <= j < p.len() ==> (#[trigger] p[j]).0 != uid,
        pending_find(p, uid) >= 0 ==> 0 <= pending_find(p, uid) < p.len() && p[pending_find(
            p,
            uid,
        )].0 == uid,
    decreases p.len(),
{
    if p.len() > 0 {
        lemma_pending_find_props(p.drop_first(), uid);
    }
    if p.len() > 0 && p[0].0 != uid {
        if pending_find(p, uid) == -1 {
            assert(pending_find(p.drop_first(), uid) == -1);
            assert forall|j: int| 0 <= j < p.len() implies (#[trigger] p[j]).0 != uid by {
                if j > 0 {
                    assert(p.drop_first()[j - 1] == p[j]);
                    assert(p.drop_first()[j - 1].0 != uid);
                }
            }
        }
    }
}

/// Gather once: once a merge has evicted a correlation identifier — so that
/// no table entry carries it — a lookup for that identifier finds nothing,
/// and the next reply recorded under it starts a fresh, one-sided entry
/// rather than completing at once.  Independent identifiers never interfere:
/// the eviction removed only the merged entry.
pub proof fn lemma_gather_once(p: Seq<(u64, PendingRpc)>, uid: u64)
    requires
        forall|j: int| 0 <= j < p.len() ==> (#[trigger] p[j]).0 != uid,
    ensures
        pending_find(p, uid) == -1,
{
    lemma_pending_find_props(p, uid);
    let f = pending_find(p, uid);
    if f >= 0 {
        assert(p[f].0 == uid);
        assert(p[f].0 != uid);
    }
}

proof fn lemma_pending_find_at(p: Seq<(u64, PendingRpc)>, uid: u64, k: int)
    requires
        pending_distinct(p),
        0 <= k < p.len(),
        p[k].0 == uid,
    ensures
        pending_find(p, uid) == k,
    decreases p.len(),
{
    if k == 0 {
    } else {
        assert(p[0].0 != uid);
        assert(pending_distinct(p.drop_first())) by {
            assert forall|i: int, j: int|
                0 <= i < p.drop_first().len() && 0 <= j < p.drop_first().len() && i
                    != j implies (#[trigger] p.drop_first()[i]).0 != (
            #[trigger] p.drop_first()[j]).0 by {
                assert(p.drop_first()[i] == p[i + 1]);
                assert(p.drop_first()[j] == p[j + 1]);
            }
        }
        assert(p.drop_first()[k - 1] == p[k]);
        lemma_pending_find_at(p.drop_first(), uid, k - 1);
    }
}

/// Recording a reply from the given side completes the entry for the
/// identifier: the other side's reply is already in the table.
pub open spec fn gather_complete(
    p: Seq<(u64, PendingRpc)>,
    uid: u64,
    from_secondary: bool,
) -> bool {
    let i = pending_find(p, uid);
    i >= 0 && if from_secondary {
        p[i].1.candidate_reply is Some
    } else {
        p[i].1.secondary_reply is Some
    }
}

/// The merged response synthesized once both replies are present.
pub open spec fn merged_model(uid: u64) -> crate::rpc::RpcModel {
    crate::rpc::RpcModel {
        data: "response"@,
        uid,
        headers: Map::<Seq<char>, Seq<char>>::empty().insert("direction"@, "response"@).insert(
            "src"@,
            "internal_rpc"@,
        ),
        path: Seq::<char>::empty(),
    }
}

/// The correlation table after recording one reply that does not complete its
/// entry: the identifier's entry gains the reply on the given side, and every
/// other entry stays exactly as it was.
pub open spec fn pending_after_record(
    p: Seq<(u64, PendingRpc)>,
    uid: u64,
    from_secondary: bool,
    inbound: Rpc,
) -> Seq<(u64, PendingRpc)> {
    let i = pending_find(p, uid);
    let kept = if i >= 0 {
        p[i].1
    } else {
        PendingRpc { secondary_reply: None, candidate_reply: None }
    };
    let entry = if from_secondary {
        PendingRpc { secondary_reply: Some(inbound), candidate_reply: kept.candidate_reply }
    } else {
        PendingRpc { secondary_reply: kept.secondary_reply, candidate_reply: Some(inbound) }
    };
    if i >= 0 {
        p.update(i, (uid, entry))
    } else {
        p.push((uid, entry))
    }
}

impl Node {
    /// The sender of a gathered reply is the fixed secondary party.
    pub open spec fn reply_from_secondary(&self, x: crate::rpc::RpcModel) -> bool {
        match self.policy {
            Policy::ScatterGather { secondary, .. } => x.headers.contains_key("src"@)
                && x.headers["src"@] == secondary@,
            _ => false,
        }
    }

    /// The sender of a gathered reply is one of the drawn candidates.
    pub open spec fn reply_from_candidate(&self, x: crate::rpc::RpcModel) -> bool {
        match self.policy {
            Policy::ScatterGather { candidates, .. } => x.headers.contains_key("src"@)
                && exists|i: int|
                0 <= i < candidates@.len() && (#[trigger] candidates@[i])@ == x.headers["src"@],
            _ => false,
        }
    }

    /// The message is a gathered reply: it came from the fixed secondary or
    /// from one of the drawn candidates.
    pub open spec fn gather_reply(&self, x: crate::rpc::RpcModel) -> bool {
        self.reply_from_secondary(x) || self.reply_from_candidate(x)
    }

    fn find_pending(&self, uid: u64) -> (r: Option<usize>)
        requires
            self.wf(),
        ensures
            match r {
                Some(i) => pending_find(self.pending_rpcs@, uid) == i,
                None => pending_find(self.pending_rpcs@, uid) == -1,
            },
    {
        let n = self.pending_rpcs.len();
        let mut k: usize = 0;
        while k < n
            invariant
                0 <= k <= n,
                n == self.pending_rpcs@.len(),
                self.wf(),
                forall|j: int| 0 <= j < k ==> (#[trigger] self.pending_rpcs@[j]).0 != uid,
            decreases n - k,
        {
            if self.pending_rpcs[k].0 == uid {
                proof {
                    lemma_pending_find_at(self.pending_rpcs@, uid, k as int);
                }
                return Some(k);
            }
            k = k + 1;
        }
        proof {
            lemma_pending_find_props(self.pending_rpcs@, uid);
            let f = pending_find(self.pending_rpcs@, uid);
            if f >= 0 {
                assert(self.pending_rpcs@[f].0 == uid);
                assert(self.pending_rpcs@[f].0 != uid);
            }
        }
        None
    }

    /// How many correlation identifiers are awaiting replies.
    pub fn pending_len(&self) -> (r: usize)
        ensures
            r == self.pending_rpcs@.len(),
    {
        self.pending_rpcs.len()
    }

    pub fn get_ingress_queue(&self) -> (r: &RpcQueue)
        ensures
            r == &self.ingress_queue,
    {
        &self.ingress_queue
    }

    pub fn get_egress_queue(&self) -> (r: &RpcQueue)
        ensures
            r == &self.egress_queue,
    {
        &self.egress_queue
    }

    pub fn get_collected_responses(&self) -> (r: &Vec<Rpc>)
        ensures
            r == &self.collected_responses,
    {
        &self.collected_responses
    }

    /// Records one gathered reply under its correlation identifier.  Only
    /// when both the secondary's and a candidate's reply are present does it
    /// hand back one merged response; the table entry is then evicted, so no
    /// identifier ever yields a second merged response.
    pub fn handle_reply(&mut self, uid: u64, inbound_rpc: Rpc, uids: &mut UidAllocator) -> (r:
        Result<Option<Rpc>, SimError>)
        requires
            old(self).wf(),
            inbound_rpc.wf(),
            old(self).policy is ScatterGather,
            old(self).reply_from_secondary(inbound_rpc@) || old(self).reply_from_candidate(
                inbound_rpc@,
            ),
        ensures
            final(self).wf(),
            *final(self) == (Node { pending_rpcs: final(self).pending_rpcs, ..*old(self) }),
            ({
                let fs = old(self).reply_from_secondary(inbound_rpc@);
                let complete = gather_complete(old(self).pending_rpcs@, uid, fs);
                &&& (r is Err <==> complete && old(uids).next == u64::MAX)
                &&& r is Err ==> r->Err_0 is UidExhausted && *final(self) == *old(self) && final(uids).next == old(uids).next
                &&& (complete && old(uids).next < u64::MAX) ==> {
                    &&& r is Ok && r->Ok_0 is Some
                    &&& r->Ok_0->Some_0.wf()
                    &&& r->Ok_0->Some_0@ == merged_model(old(uids).next)
                    &&& final(uids).next == old(uids).next + 1
                    &&& final(self).pending_rpcs@ == old(self).pending_rpcs@.remove(
                        pending_find(old(self).pending_rpcs@, uid),
                    )
                    &&& forall|j: int|
                        0 <= j < final(self).pending_rpcs@.len() ==> (#[trigger] final(self).pending_rpcs@[j]).0 != uid
                    &&& pending_find(final(self).pending_rpcs@, uid) == -1
                }
                &&& !complete ==> {
                    &&& r is Ok && r->Ok_0 is None
                    &&& final(uids).next == old(uids).next
                    &&& final(self).pending_rpcs@ == pending_after_record(
                        old(self).pending_rpcs@,
                        uid,
                        fs,
                        inbound_rpc,
                    )
                    &&& pending_find(final(self).pending_rpcs@, uid) >= 0
                }
            }),
    {
        proof {
            lemma_pending_find_props(self.pending_rpcs@, uid);
        }
        let from_secondary: bool = {
            let src: &String = match inbound_rpc.headers.get("src") {
                Some(s) => s,
                None => {
                    assert(false);
                    return Err(SimError::UidExhausted);
                },
            };
            match &self.policy {
                Policy::ScatterGather { secondary, .. } => str_eq(src.as_str(), secondary.as_str()),
                _ => {
                    assert(false);
                    return Err(SimError::UidExhausted);
                },
            }
        };
        let idx = self.find_pending(uid);
        match idx {
            None => {
                let entry = if from_secondary {
                    PendingRpc { secondary_reply: Some(inbound_rpc), candidate_reply: None }
                } else {
                    PendingRpc { secondary_reply: None, candidate_reply: Some(inbound_rpc) }
                };
                self.pending_rpcs.push((uid, entry));
                proof {
                    lemma_pending_find_props(old(self).pending_rpcs@, uid);
                    let p = self.pending_rpcs@;
                    let p0 = old(self).pending_rpcs@;
                    assert forall|a: int, b: int|
                        0 <= a < p.len() && 0 <= b < p.len() && a != b implies (#[trigger] p[a]).0
                        != (#[trigger] p[b]).0 by {
                        if a < p.len() - 1 && b < p.len() - 1 {
                            assert(p[a] == p0[a]);
                            assert(p[b] == p0[b]);
                        } else if a == p.len() - 1 {
                            assert(p[b] == p0[b]);
                        } else {
                            assert(p[a] == p0[a]);
                        }
                    }
                    lemma_pending_find_at(p, uid, p.len() - 1);
                }
                Ok(None)
            },
            Some(i) => {
                let complete = if from_secondary {
                    self.pending_rpcs[i].1.candidate_reply.is_some()
                } else {
                    self.pending_rpcs[i].1.secondary_reply.is_some()
                };
                if complete {
                    if uids.next == u64::MAX {
                        return Err(SimError::UidExhausted);
                    }
                    let mut merged = Rpc::new_rpc("response", uids);
                    merged.headers.insert("direction", "response");
                    merged.headers.insert("src", "internal_rpc");
                    self.pending_rpcs.remove(i);
                    proof {
                        let p = self.pending_rpcs@;
                        let p0 = old(self).pending_rpcs@;
                        p0.remove_ensures(i as int);
                        assert forall|j: int| 0 <= j < p.len() implies (#[trigger] p[j]).0
                            != uid by {
                            if j < i {
                                assert(p[j] == p0[j]);
                                assert(p0[i as int].0 == uid);
                            } else {
                                assert(p[j] == p0[j + 1]);
                                assert(p0[i as int].0 == uid);
                            }
                        }
                        assert forall|a: int, b: int|
                            0 <= a < p.len() && 0 <= b < p.len() && a != b implies (
                        #[trigger] p[a]).0 != (#[trigger] p[b]).0 by {
                            let a0 = if a < i { a } else { a + 1 };
                            let b0 = if b < i { b } else { b + 1 };
                            assert(p[a] == p0[a0]);
                            assert(p[b] == p0[b0]);
                        }
                        lemma_pending_find_props(p, uid);
                        let f = pending_find(p, uid);
                        if f >= 0 {
                            assert(p[f].0 == uid);
                            assert(p[f].0 != uid);
                        }
                    }
                    Ok(Some(merged))
                } else {
                    proof {
                        old(self).pending_rpcs@.remove_ensures(i as int);
                    }
                    let prev = self.pending_rpcs.remove(i);
                    let entry = if from_secondary {
                        PendingRpc {
                            secondary_reply: Some(inbound_rpc),
                            candidate_reply: prev.1.candidate_reply,
                        }
                    } else {
                        PendingRpc {
                            secondary_reply: prev.1.secondary_reply,
                            candidate_reply: Some(inbound_rpc),
                        }
                    };
                    self.pending_rpcs.insert(i, (uid, entry));
                    proof {
                        let p = self.pending_rpcs@;
                        let p0 = old(self).pending_rpcs@;
                        assert(p =~= p0.update(i as int, p[i as int]));
                        assert(p[i as int].0 == uid);
                        assert forall|a: int, b: int|
                            0 <= a < p.len() && 0 <= b < p.len() && a != b implies (
                        #[trigger] p[a]).0 != (#[trigger] p[b]).0 by {
                            assert(p0[a].0 != p0[b].0);
                            if a != i {
                                assert(p[a] == p0[a]);
                            }
                            if b != i {
                                assert(p[b] == p0[b]);
                            }
                            assert(p0[i as int].0 == uid);
                        }
                        lemma_pending_find_at(p, uid, i as int);
                    }
                    Ok(None)
                }
            },
        }
    }

    /// Runs one message through the attached filter at the given boundary
    /// (`ingress` or `egress`), or hands it on untouched when none is
    /// attached; what comes out joins `processed_rpcs`.
    pub fn pass_through_plugin(
        &mut self,
        input_rpc: Rpc,
        processed_rpcs: &mut Vec<Rpc>,
        tick: u64,
        location: &str,
        uids: &mut UidAllocator,
    ) -> (r: Result<(), SimError>)
        requires
            old(self).wf(),
            input_rpc.wf(),
            all_rpcs_wf(old(processed_rpcs)@),
        ensures
            final(self).wf(),
            all_rpcs_wf(final(processed_rpcs)@),
            *final(self) == (Node { plugin: final(self).plugin, ..*old(self) }),
            final(uids).next >= old(uids).next,
            final(uids).next <= old(uids).next + 1,
            (r is Err <==> old(self).plugin is Some && old(uids).next == u64::MAX),
            r is Err ==> r->Err_0 is UidExhausted && *final(self) == *old(self) && *final(processed_rpcs) == *old(processed_rpcs) && final(uids).next == old(uids).next,
            old(self).plugin is None ==> final(processed_rpcs)@ == old(processed_rpcs)@.push(
                input_rpc,
            ) && *final(self) == *old(self) && final(uids).next == old(uids).next,
            match old(self).plugin {
                None => true,
                Some(slot) => old(uids).next < u64::MAX ==> {
                    &&& final(self).plugin is Some
                    &&& final(self).plugin->Some_0.filter == filter_after(
                        slot.filter,
                        tagged(input_rpc@, location@),
                    )
                    &&& final(self).plugin->Some_0.id == slot.id
                    &&& final(self).plugin->Some_0.neighbor == slot.neighbor
                    &&& final(self).plugin->Some_0.stored@.len() == 0
                    &&& final(processed_rpcs)@.len() == old(processed_rpcs)@.len() + (
                    if filter_emits_extra(slot.filter, tagged(input_rpc@, location@)) {
                        2int
                    } else {
                        1int
                    })
                    &&& final(processed_rpcs)@[old(processed_rpcs)@.len() as int]@ == tagged(
                        input_rpc@,
                        location@,
                    )
                    &&& filter_emits_extra(slot.filter, tagged(input_rpc@, location@)) ==> final(processed_rpcs)@.last()@ == crate::filter::filter_extra_model(
                        slot.filter,
                        tagged(input_rpc@, location@),
                        old(uids).next,
                    ) && final(uids).next == old(uids).next + 1
                    &&& !filter_emits_extra(slot.filter, tagged(input_rpc@, location@)) ==> final(uids).next == old(uids).next
                    &&& forall|j: int|
                        0 <= j < old(processed_rpcs)@.len() ==> final(processed_rpcs)@[j] == old(processed_rpcs)@[j]
                },
            },
    {
        match &mut self.plugin {
            None => {
                processed_rpcs.push(input_rpc);
                Ok(())
            },
            Some(slot) => {
                if uids.next == u64::MAX {
                    return Err(SimError::UidExhausted);
                }
                let mut input = input_rpc;
                input.headers.insert("location", location);
                slot.recv(input, tick);
                let outs = slot.tick(tick, uids);
                let n = outs.len();
                let mut i: usize = 0;
                while i < n
                    invariant
                        0 <= i <= n,
                        n == outs@.len(),
                        all_rpcs_wf(outs@),
                        all_rpcs_wf(processed_rpcs@),
                        processed_rpcs@.len() == old(processed_rpcs)@.len() + i,
                        forall|j: int|
                            0 <= j < old(processed_rpcs)@.len() ==> processed_rpcs@[j] == old(processed_rpcs)@[j],
                        forall|j: int|
                            0 <= j < i ==> processed_rpcs@[old(processed_rpcs)@.len() + j]@
                                == outs@[j]@,
                    decreases n - i,
                {
                    processed_rpcs.push(outs[i].clone());
                    i = i + 1;
                }
                Ok(())
            },
        }
    }

    /// Admits one inbound message.  A node already holding `capacity`
    /// messages across its two buffers drops it silently: backpressure is a
    /// designed loss, not an error.  An admitted message first passes the
    /// filter at ingress; with the gather policy, replies from the scattered
    /// parties go to the correlation table instead of the ingress buffer.
    /// An element with the fixed-forward policy collects responses instead.
    pub fn recv(&mut self, rpc: Rpc, tick: u64, uids: &mut UidAllocator) -> (r: Result<
        (),
        SimError,
    >)
        requires
            old(self).wf(),
            rpc.wf(),
        ensures
            final(self).wf(),
            final(self).egress_queue == old(self).egress_queue,
            *final(self) == (Node {
                ingress_queue: final(self).ingress_queue,
                plugin: final(self).plugin,
                pending_rpcs: final(self).pending_rpcs,
                collected_responses: final(self).collected_responses,
                ..*old(self)
            }),
            final(uids).next >= old(uids).next,
            r is Err ==> r->Err_0 is UidExhausted && old(uids).next > u64::MAX - 3 && *final(self)
                == *old(self) && final(uids).next == old(uids).next,
            old(uids).next <= u64::MAX - 3 ==> r is Ok,
            old(self).plugin is None ==> final(self).plugin is None,
            !gateway_collects(old(self).policy, rpc@) ==> final(self).collected_responses == old(self).collected_responses,
            !(old(self).policy is ScatterGather) ==> final(self).pending_rpcs == old(self).pending_rpcs,
            gateway_collects(old(self).policy, rpc@) ==> r is Ok && final(self).collected_responses@ == old(self).collected_responses@.push(rpc) && final(self).ingress_queue == old(self).ingress_queue && final(self).pending_rpcs == old(self).pending_rpcs && final(self).plugin == old(self).plugin && final(uids).next == old(uids).next,
            gateway_discards(old(self).policy, rpc@) ==> r is Ok && *final(self) == *old(self)
                && final(uids).next == old(uids).next,
            (!gateway_collects(old(self).policy, rpc@) && !gateway_discards(old(self).policy, rpc@)
                && old(self).occupied() >= old(self).capacity) ==> r is Ok && *final(self) == *old(self) && final(uids).next == old(uids).next,
            r is Ok ==> final(self).ingress_queue.elems().len() <= old(self).ingress_queue.elems().len() + 2,
            (r is Ok && old(self).plugin is None) ==> final(self).ingress_queue.elems().len()
                <= old(self).ingress_queue.elems().len() + 1,
            (r is Ok && old(self).plugin is None && old(self).occupied() < old(self).capacity)
                ==> final(self).occupied() <= old(self).capacity,
            (r is Ok && old(self).plugin is Some && old(self).occupied() < old(self).capacity)
                ==> final(self).occupied() <= old(self).capacity + 1,
            (old(self).occupied() < old(self).capacity && old(self).plugin is None
                && !gateway_collects(old(self).policy, rpc@) && !gateway_discards(
                old(self).policy,
                rpc@,
            ) && !(old(self).policy is ScatterGather && old(self).gather_reply(rpc@))) ==> r is Ok
                && final(self).ingress_queue.elems() == old(self).ingress_queue.elems().push(rpc)
                && final(self).pending_rpcs == old(self).pending_rpcs && final(uids).next == old(uids).next,
            (old(self).occupied() < old(self).capacity && old(self).plugin is None && old(self).policy is ScatterGather && old(self).gather_reply(rpc@) && old(uids).next <= u64::MAX
                - 3) ==> r is Ok && ({
                let fs = old(self).reply_from_secondary(rpc@);
                let complete = gather_complete(old(self).pending_rpcs@, rpc.uid, fs);
                &&& complete ==> final(self).pending_rpcs@ == old(self).pending_rpcs@.remove(
                    pending_find(old(self).pending_rpcs@, rpc.uid),
                ) && final(self).ingress_queue.elems().len() == old(self).ingress_queue.elems().len() + 1 && final(self).ingress_queue.elems()[old(self).ingress_queue.elems().len() as int]@ == merged_model(old(uids).next) && (forall|j: int|
                    0 <= j < old(self).ingress_queue.elems().len()
                        ==> final(self).ingress_queue.elems()[j] == old(self).ingress_queue.elems()[j]) && final(uids).next == old(uids).next + 1
                &&& !complete ==> final(self).pending_rpcs@ == pending_after_record(
                    old(self).pending_rpcs@,
                    rpc.uid,
                    fs,
                    rpc,
                ) && final(self).ingress_queue == old(self).ingress_queue && final(uids).next
                    == old(uids).next
            }),
    {
        let is_fixed_forward = match &self.policy {
            Policy::FixedForward { .. } => true,
            _ => false,
        };
        if is_fixed_forward {
            let verdict: u8 = match rpc.headers.get("direction") {
                Some(d) => {
                    if str_eq(d.as_str(), "response") {
                        1
                    } else {
                        2
                    }
                },
                None => 0,
            };
            if verdict == 1 {
                self.collected_responses.push(rpc);
                return Ok(());
            }
            if verdict == 2 {
                return Ok(());
            }
        }
        let occupied_now = self.ingress_queue.size();
        let occupied_egress = self.egress_queue.size();
        if occupied_now >= self.capacity as usize || occupied_egress >= self.capacity as usize
            - occupied_now {
            return Ok(());
        }
        let is_scatter = match &self.policy {
            Policy::ScatterGather { .. } => true,
            _ => false,
        };
        let has_plugin = match &self.plugin {
            Some(_) => true,
            None => false,
        };
        if has_plugin && uids.next > u64::MAX - 3 {
            return Err(SimError::UidExhausted);
        }
        let uid0 = rpc.uid;
        let mut inbound_rpcs: Vec<Rpc> = Vec::new();
        match self.pass_through_plugin(rpc, &mut inbound_rpcs, tick, "ingress", uids) {
            Ok(()) => (),
            Err(e) => {
                assert(false);
                return Err(e);
            },
        }
        let ghost all0 = inbound_rpcs@;
        let mut i: usize = 0;
        while inbound_rpcs.len() > 0
            invariant
                all0.len() <= 2,
                uid0 == rpc.uid,
                i + inbound_rpcs@.len() == all0.len(),
                inbound_rpcs@ == all0.skip(i as int),
                all_rpcs_wf(all0),
                self.wf(),
                is_scatter == self.policy is ScatterGather,
                self.egress_queue == old(self).egress_queue,
                *self == (Node {
                    ingress_queue: self.ingress_queue,
                    plugin: self.plugin,
                    pending_rpcs: self.pending_rpcs,
                    collected_responses: self.collected_responses,
                    ..*old(self)
                }),
                self.collected_responses == old(self).collected_responses,
                old(self).occupied() < old(self).capacity,
                !gateway_collects(old(self).policy, rpc@),
                !gateway_discards(old(self).policy, rpc@),
                old(self).plugin is None ==> self.plugin is None,
                (old(self).plugin is None && i == 0) ==> *self == *old(self) && uids.next == old(uids).next,
                !(old(self).policy is ScatterGather) ==> self.pending_rpcs == old(self).pending_rpcs,
                self.ingress_queue.elems().len() <= old(self).ingress_queue.elems().len() + i,
                uids.next >= old(uids).next,
                uids.next <= old(uids).next + 1 + i,
                old(self).plugin is Some ==> old(uids).next <= u64::MAX - 3,
                (old(self).plugin is None && !(old(self).policy is ScatterGather && old(self).gather_reply(rpc@))) ==> (
                self.ingress_queue.elems() == old(self).ingress_queue.elems() + all0.take(i as int)
                    && self.pending_rpcs == old(self).pending_rpcs && uids.next == old(uids).next),
                (old(self).plugin is None && old(self).policy is ScatterGather) ==> all0 =~= seq![
                    rpc,
                ],
                (old(self).plugin is None && old(self).policy is ScatterGather && old(self).gather_reply(rpc@)) ==> ({
                    let fs = old(self).reply_from_secondary(rpc@);
                    let complete = gather_complete(old(self).pending_rpcs@, rpc.uid, fs);
                    &&& (i == 1 && complete) ==> self.pending_rpcs@ == old(self).pending_rpcs@.remove(
                        pending_find(old(self).pending_rpcs@, rpc.uid),
                    ) && self.ingress_queue.elems().len() == old(self).ingress_queue.elems().len()
                        + 1 && self.ingress_queue.elems()[old(self).ingress_queue.elems().len() as int]@ == merged_model(old(uids).next) && (forall|j: int|
                        0 <= j < old(self).ingress_queue.elems().len()
                            ==> self.ingress_queue.elems()[j] == old(self).ingress_queue.elems()[j]) && uids.next == old(uids).next + 1
                    &&& (i == 1 && !complete) ==> self.pending_rpcs@ == pending_after_record(
                        old(self).pending_rpcs@,
                        rpc.uid,
                        fs,
                        rpc,
                    ) && self.ingress_queue == old(self).ingress_queue && uids.next == old(uids).next
                }),
            decreases inbound_rpcs@.len(),
        {
            proof {
                assert(all0.skip(i as int)[0] == all0[i as int]);
                assert(all0.skip(i as int).drop_first() =~= all0.skip(i as int + 1));
            }
            let inbound = inbound_rpcs.remove(0);
            let mut classify: u8 = 0;
            if is_scatter {
                classify = match inbound.headers.get("src") {
                    None => 0,
                    Some(src) => {
                        match &self.policy {
                            Policy::ScatterGather { candidates, secondary, .. } => {
                                if str_eq(src.as_str(), secondary.as_str()) {
                                    1
                                } else if crate::strutil::contains_str(candidates, src.as_str()) {
                                    2
                                } else {
                                    0
                                }
                            },
                            _ => 0,
                        }
                    },
                };
            }
            proof {
                assert(all0.take(i as int + 1) =~= all0.take(i as int).push(all0[i as int]));
            }
            if classify != 0 {
                if uids.next == u64::MAX {
                    return Err(SimError::UidExhausted);
                }
                let merged_opt = match self.handle_reply(uid0, inbound, uids) {
                    Ok(m) => m,
                    Err(e) => {
                        assert(false);
                        return Err(e);
                    },
                };
                if let Some(merged) = merged_opt {
                    self.enqueue_ingress(merged, tick);
                }
            } else {
                self.enqueue_ingress(inbound, tick);
            }
            i = i + 1;
        }
        proof {
            assert(all0.take(all0.len() as int) =~= all0);
            if old(self).plugin is None && !(old(self).policy is ScatterGather
                && old(self).gather_reply(rpc@)) {
                assert(old(self).ingress_queue.elems() + all0 =~= old(self).ingress_queue.elems().push(rpc));
            }
        }
        Ok(())
    }

    /// Routes one work item and moves everything it yields, filtered at
    /// egress, into the egress buffer.
    fn process_one(&mut self, work: Rpc, tick: u64, uids: &mut UidAllocator) -> (r: Result<
        (),
        SimError,
    >)
        requires
            old(self).wf(),
            work.wf(),
            old(uids).next <= u64::MAX - 3,
        ensures
            final(self).wf(),
            *final(self) == (Node {
                egress_queue: final(self).egress_queue,
                plugin: final(self).plugin,
                ..*old(self)
            }),
            r is Err ==> *final(self) == *old(self) && final(uids).next == old(uids).next && (
            r->Err_0 is MissingHeader || r->Err_0 is InvalidSource || r->Err_0 is NoNeighbors),
            old(self).plugin is None ==> final(self).plugin is None && final(uids).next == old(uids).next,
            (item_ok(old(self).policy, work@) && (old(self).policy is Random ==> old(self).neighbors@.len() > 0)) ==> r is Ok,
            r is Ok ==> item_ok(old(self).policy, work@),
            forall|j: int|
                0 <= j < old(self).egress_queue.elems().len() ==> final(self).egress_queue.elems()[j] == old(self).egress_queue.elems()[j],
            old(uids).next <= final(uids).next <= old(uids).next + 2,
            r is Ok ==> old(self).egress_queue.elems().len() + 1 <= final(self).egress_queue.elems().len() <= old(self).egress_queue.elems().len() + 4,
            (r is Ok && old(self).plugin is None && !(old(self).policy is ScatterGather)) ==> final(self).egress_queue.elems().len() == old(self).egress_queue.elems().len() + 1,
            (r is Ok && old(self).plugin is None && old(self).policy is ScatterGather) ==> final(self).egress_queue.elems().len() == old(self).egress_queue.elems().len()
                + scatter_item_growth(work@),
            (r is Ok && old(self).plugin is None) ==> forall|j: int|
                old(self).egress_queue.elems().len() <= j < final(self).egress_queue.elems().len()
                    ==> routed_by(
                    old(self).policy,
                    old(self).id@,
                    old(self).neighbors@,
                    old(self).seed,
                    (#[trigger] final(self).egress_queue.elems()[j])@,
                ),
    {
        let ghost work0 = work;
        let mut work = work;
        let mut new_rpcs: Vec<Rpc> = Vec::new();
        match self.process_rpc(&mut work, &mut new_rpcs) {
            Ok(()) => (),
            Err(e) => {
                return Err(e);
            },
        }
        proof {
            assert(1 <= new_rpcs@.len() <= 2);
            reveal_strlit("src");
            reveal_strlit("dest");
            reveal_strlit("direction");
            assert("src"@.len() == 3 && "dest"@.len() == 4 && "direction"@.len() == 9);
            assert("src"@ != "dest"@ && "src"@ != "direction"@ && "dest"@ != "direction"@);
            assert forall|i: int| 0 <= i < new_rpcs@.len() implies routed_by(
                old(self).policy,
                old(self).id@,
                old(self).neighbors@,
                old(self).seed,
                (#[trigger] new_rpcs@[i])@,
            ) by {
                match old(self).policy {
                    Policy::ScatterGather { candidates, secondary, upstream } => {
                        if work0@.headers["src"@] != "internal_rpc"@ {
                            let c = seeded_choice(old(self).seed, candidates@.len() as u64);
                            assert(0 <= c < candidates@.len());
                            assert(new_rpcs@[new_rpcs@.len() - 1]@.headers["dest"@]
                                == candidates@[c as int]@);
                        }
                    },
                    _ => {},
                }
            }
            if old(self).policy is ScatterGather {
                assert(new_rpcs@.len() == scatter_item_growth(work0@));
            }
        }
        let ghost produced = new_rpcs@;
        let mut queued: Vec<Rpc> = Vec::new();
        let mut j: usize = 0;
        while new_rpcs.len() > 0
            invariant
                j + new_rpcs@.len() == produced.len(),
                produced.len() <= 2,
                new_rpcs@ == produced.skip(j as int),
                all_rpcs_wf(produced),
                all_rpcs_wf(queued@),
                self.wf(),
                *self == (Node { plugin: self.plugin, ..*old(self) }),
                uids.next >= old(uids).next,
                uids.next <= old(uids).next + j,
                old(uids).next <= u64::MAX - 3,
                j <= queued@.len() <= 2 * j,
                old(self).plugin is None ==> queued@ == produced.take(j as int) && *self == *old(self) && uids.next == old(uids).next,
            decreases new_rpcs@.len(),
        {
            proof {
                assert(produced.skip(j as int)[0] == produced[j as int]);
                assert(produced.skip(j as int).drop_first() =~= produced.skip(j as int + 1));
                assert(produced.take(j as int + 1) =~= produced.take(j as int).push(
                    produced[j as int],
                ));
            }
            let x = new_rpcs.remove(0);
            match self.pass_through_plugin(x, &mut queued, tick, "egress", uids) {
                Ok(()) => (),
                Err(e) => {
                    assert(false);
                    return Err(e);
                },
            }
            j = j + 1;
        }
        let ghost queued_all = queued@;
        let ghost e0 = self.egress_queue.elems();
        let mut k: usize = 0;
        while queued.len() > 0
            invariant
                queued_all.len() <= 4,
                k + queued@.len() == queued_all.len(),
                queued@ == queued_all.skip(k as int),
                all_rpcs_wf(queued_all),
                self.wf(),
                *self == (Node {
                    egress_queue: self.egress_queue,
                    plugin: self.plugin,
                    ..*old(self)
                }),
                self.egress_queue.elems().len() == e0.len() + k,
                e0 == old(self).egress_queue.elems(),
                forall|j: int| 0 <= j < e0.len() ==> self.egress_queue.elems()[j] == e0[j],
                forall|j: int|
                    0 <= j < k ==> self.egress_queue.elems()[e0.len() + j] == queued_all[j],
                uids.next >= old(uids).next,
                uids.next <= old(uids).next + 2,
                old(self).plugin is None ==> (self.plugin == old(self).plugin && uids.next == old(uids).next),
            decreases queued@.len(),
        {
            proof {
                assert(queued_all.skip(k as int)[0] == queued_all[k as int]);
                assert(queued_all.skip(k as int).drop_first() =~= queued_all.skip(k as int + 1));
            }
            let x = queued.remove(0);
            self.enqueue_egress(x);
            k = k + 1;
        }
        proof {
            assert(queued_all.len() >= 1) by {
                assert(produced.len() >= 1);
            }
            if old(self).plugin is None {
                assert(produced.take(produced.len() as int) =~= produced);
                assert(queued_all == produced);
            }
        }
        Ok(())
    }

    /// One simulation step of the node.  It takes up work according to its
    /// policy — the random-forward policy handles at most
    /// `min(queued + generation_rate, egress_rate)` items, synthesizing fresh
    /// requests when its buffer runs dry; the gather policy, the relay and
    /// the fixed forward drain their whole ingress buffer; the mirror answers
    /// one — routes each item, and then releases at most `egress_rate`
    /// messages from the egress buffer, oldest first.
    pub fn tick(&mut self, tick: u64, uids: &mut UidAllocator) -> (r: Result<Vec<Rpc>, SimError>)
        requires
            old(self).wf(),
        ensures
            final(self).wf(),
            *final(self) == (Node {
                ingress_queue: final(self).ingress_queue,
                egress_queue: final(self).egress_queue,
                plugin: final(self).plugin,
                ..*old(self)
            }),
            final(uids).next >= old(uids).next,
            old(self).plugin is None ==> final(self).plugin is None,
            r is Ok ==> r->Ok_0@.len() <= old(self).egress_rate,
            r is Ok ==> all_rpcs_wf(r->Ok_0@),
            (old(self).ingress_queue.elems().len() == 0 && old(self).egress_queue.elems().len()
                == 0 && (old(self).generation_rate == 0 || !(old(self).policy is Random))) ==> (
            r is Ok && r->Ok_0@.len() == 0 && *final(self) == *old(self) && final(uids).next
                == old(uids).next),
            (r is Ok && old(self).plugin is None && !(old(self).policy is ScatterGather) && old(self).occupied() <= old(self).capacity) ==> final(self).occupied() <= old(self).capacity,
            r is Ok ==> final(self).ingress_queue.elems() == old(self).ingress_queue.elems().skip(
                removed_count(*old(self)),
            ),
            (r is Ok && old(self).plugin is None && !(old(self).policy is ScatterGather)) ==> ({
                let e_full = old(self).egress_queue.elems().len() + drain_count(*old(self));
                let emitted = if e_full <= old(self).egress_rate {
                    e_full
                } else {
                    old(self).egress_rate as int
                };
                r->Ok_0@.len() == emitted && final(self).egress_queue.elems().len() == e_full
                    - emitted
            }),
            r is Ok ==> forall|j: int|
                0 <= j < r->Ok_0@.len() && j < old(self).egress_queue.elems().len()
                    ==> r->Ok_0@[j] == old(self).egress_queue.elems()[j],
            (r is Ok && old(self).plugin is None) ==> forall|j: int|
                old(self).egress_queue.elems().len() <= j < r->Ok_0@.len() ==> routed_by(
                    old(self).policy,
                    old(self).id@,
                    old(self).neighbors@,
                    old(self).seed,
                    (#[trigger] r->Ok_0@[j])@,
                ),
            (r is Ok && old(self).plugin is None && old(self).policy is ScatterGather) ==> ({
                let e_full = old(self).egress_queue.elems().len() + scatter_growth(
                    old(self).ingress_queue.elems(),
                );
                let emitted = if e_full <= old(self).egress_rate {
                    e_full
                } else {
                    old(self).egress_rate as int
                };
                r->Ok_0@.len() == emitted && final(self).egress_queue.elems().len() == e_full
                    - emitted
            }),
            r is Ok ==> match old(self).policy {
                Policy::Random => true,
                Policy::Mirror => old(self).ingress_queue.elems().len() > 0 ==> item_ok(
                    old(self).policy,
                    old(self).ingress_queue.elems()[0]@,
                ),
                _ => ingress_ok(old(self).policy, old(self).ingress_queue.elems()),
            },
            r is Err ==> (r->Err_0 is MissingHeader || r->Err_0 is InvalidSource
                || r->Err_0 is NoNeighbors || r->Err_0 is UidExhausted),
            (r is Err && r->Err_0 is UidExhausted) ==> final(uids).next > u64::MAX - 4,
            (ingress_ok(old(self).policy, old(self).ingress_queue.elems()) && (old(self).policy is Random ==> old(self).neighbors@.len() > 0) && old(uids).next + 4 * (old(self).ingress_queue.elems().len() + old(self).generation_rate) + 4 <= u64::MAX) ==> r is Ok,
    {
        let is_random = match &self.policy {
            Policy::Random => true,
            _ => false,
        };
        let q0_len = self.ingress_queue.size();
        let e0_len = self.egress_queue.size();
        if q0_len == 0 && e0_len == 0 && (self.generation_rate == 0 || !is_random) {
            proof {
                assert(self.ingress_queue.elems().skip(0) =~= self.ingress_queue.elems());
                assert(scatter_growth(self.ingress_queue.elems()) == 0);
            }
            return Ok(Vec::new());
        }
        let ghost q0 = self.ingress_queue.elems();
        let ghost uid_start = uids.next;
        let ghost ok_run = ingress_ok(old(self).policy, q0) && (old(self).policy is Random ==> old(self).neighbors@.len() > 0) && old(uids).next + 4 * (q0.len() + old(self).generation_rate) + 4
            <= u64::MAX;
        let mut items: usize = 0;
        if is_random {
            let avail: u64 = if q0_len as u64 >= self.egress_rate as u64 {
                self.egress_rate as u64
            } else {
                let w = q0_len as u64 + self.generation_rate as u64;
                if w >= self.egress_rate as u64 {
                    self.egress_rate as u64
                } else {
                    w
                }
            };
            let work_count = avail as usize;
            while items < work_count
                invariant
                    0 <= items <= work_count,
                    work_count <= old(self).egress_rate,
                    work_count <= q0.len() + old(self).generation_rate,
                    self.wf(),
                    self.policy is Random,
                    old(self).policy is Random,
                    *self == (Node {
                        ingress_queue: self.ingress_queue,
                        egress_queue: self.egress_queue,
                        plugin: self.plugin,
                        ..*old(self)
                    }),
                    self.ingress_queue.elems().len() <= q0.len(),
                    self.ingress_queue.elems() == q0.skip(
                        if items as int <= q0.len() {
                            items as int
                        } else {
                            q0.len() as int
                        },
                    ),
                    q0 == old(self).ingress_queue.elems(),
                    q0.len() == q0_len,
                    old(self).egress_queue.elems().len() <= self.egress_queue.elems().len()
                        <= old(self).egress_queue.elems().len() + 4 * items,
                    forall|j: int|
                        0 <= j < old(self).egress_queue.elems().len()
                            ==> self.egress_queue.elems()[j] == old(self).egress_queue.elems()[j],
                    old(self).plugin is None ==> self.plugin is None,
                    old(self).plugin is None ==> self.egress_queue.elems().len() == old(self).egress_queue.elems().len() + items,
                    old(self).plugin is None ==> forall|j: int|
                        old(self).egress_queue.elems().len() <= j
                            < self.egress_queue.elems().len() ==> routed_by(
                            old(self).policy,
                            old(self).id@,
                            old(self).neighbors@,
                            old(self).seed,
                            (#[trigger] self.egress_queue.elems()[j])@,
                        ),
                    uids.next >= uid_start,
                    uids.next <= uid_start + 4 * items,
                    uid_start == old(uids).next,
                    ok_run ==> ingress_ok(old(self).policy, q0) && old(self).neighbors@.len() > 0,
                    ok_run ==> uids.next + 4 * (work_count - items) + 4 <= u64::MAX,
                decreases work_count - items,
            {
                if uids.next > u64::MAX - 4 {
                    proof {
                        assert(!ok_run);
                    }
                    return Err(SimError::UidExhausted);
                }
                proof {
                    if self.ingress_queue.elems().len() > 0 {
                        assert(items < q0.len());
                        assert(q0.skip(items as int)[0] == q0[items as int]);
                        assert(q0.skip(items as int).drop_first() =~= q0.skip(items as int + 1));
                    }
                }
                let work = match self.dequeue_ingress(tick) {
                    Some(w) => w,
                    None => {
                        proof {
                            assert(q0.skip(q0.len() as int) =~= self.ingress_queue.elems());
                        }
                        let data = crate::numstr::u64_to_string(tick);
                        let mut fresh = Rpc::new_rpc(data.as_str(), uids);
                        fresh.headers.insert("direction", "request");
                        fresh
                    },
                };
                match self.process_one(work, tick, uids) {
                    Ok(()) => (),
                    Err(e) => {
                        proof {
                            assert(!ok_run);
                        }
                        return Err(e);
                    },
                }
                items = items + 1;
            }
            proof {
                assert(work_count as int == drain_count(*old(self)));
                assert(self.ingress_queue.elems() == q0.skip(removed_count(*old(self))));
            }
        } else {
            let one_only = match &self.policy {
                Policy::Mirror => true,
                _ => false,
            };
            let mut done = false;
            while !done && self.ingress_queue.size() > 0
                invariant
                    self.wf(),
                    !(self.policy is Random),
                    self.policy == old(self).policy,
                    *self == (Node {
                        ingress_queue: self.ingress_queue,
                        egress_queue: self.egress_queue,
                        plugin: self.plugin,
                        ..*old(self)
                    }),
                    items + self.ingress_queue.elems().len() == q0.len(),
                    self.ingress_queue.elems() == q0.skip(items as int),
                    q0 == old(self).ingress_queue.elems(),
                    old(self).egress_queue.elems().len() <= self.egress_queue.elems().len()
                        <= old(self).egress_queue.elems().len() + 4 * items,
                    forall|j: int|
                        0 <= j < old(self).egress_queue.elems().len()
                            ==> self.egress_queue.elems()[j] == old(self).egress_queue.elems()[j],
                    ingress_ok(old(self).policy, q0.take(items as int)),
                    old(self).plugin is None ==> self.plugin is None,
                    old(self).plugin is None ==> forall|j: int|
                        old(self).egress_queue.elems().len() <= j
                            < self.egress_queue.elems().len() ==> routed_by(
                            old(self).policy,
                            old(self).id@,
                            old(self).neighbors@,
                            old(self).seed,
                            (#[trigger] self.egress_queue.elems()[j])@,
                        ),
                    (old(self).plugin is None && !(old(self).policy is ScatterGather))
                        ==> self.egress_queue.elems().len() == old(self).egress_queue.elems().len()
                        + items,
                    (old(self).plugin is None && old(self).policy is ScatterGather)
                        ==> self.egress_queue.elems().len() == old(self).egress_queue.elems().len()
                        + scatter_growth(q0.take(items as int)),
                    old(self).plugin is None ==> self.occupied() <= old(self).occupied() + (
                    if self.policy is ScatterGather {
                        items as int
                    } else {
                        0int
                    }),
                    uids.next >= uid_start,
                    uids.next <= uid_start + 4 * items,
                    uid_start == old(uids).next,
                    q0.len() == q0_len,
                    one_only == self.policy is Mirror,
                    done <==> (self.policy is Mirror && items == 1),
                    self.policy is Mirror ==> items <= 1,
                    ok_run ==> ingress_ok(old(self).policy, q0),
                    ok_run ==> uids.next + 4 * (q0.len() - items) + 4 <= u64::MAX,
                decreases self.ingress_queue.elems().len(),
            {
                if uids.next > u64::MAX - 4 {
                    proof {
                        assert(!ok_run);
                    }
                    return Err(SimError::UidExhausted);
                }
                proof {
                    assert(q0.skip(items as int)[0] == q0[items as int]);
                    assert(q0.skip(items as int).drop_first() =~= q0.skip(items as int + 1));
                }
                let work = match self.dequeue_ingress(tick) {
                    Some(w) => w,
                    None => {
                        assert(false);
                        return Ok(Vec::new());
                    },
                };
                match self.process_one(work, tick, uids) {
                    Ok(()) => (),
                    Err(e) => {
                        proof {
                            if ok_run {
                                assert(item_ok(old(self).policy, q0[items as int]@));
                            }
                        }
                        return Err(e);
                    },
                }
                proof {
                    assert(q0.take(items as int + 1) =~= q0.take(items as int).push(
                        q0[items as int],
                    ));
                    lemma_scatter_growth_push(q0.take(items as int), q0[items as int]);
                }
                items = items + 1;
                if one_only {
                    done = true;
                }
            }
            proof {
                assert(items as int == removed_count(*old(self))) by {
                    if old(self).policy is Mirror {
                        if q0.len() == 0 {
                            assert(items == 0);
                        } else {
                            assert(items == 1);
                        }
                    } else {
                        assert(self.ingress_queue.elems().len() == 0);
                    }
                }
                assert(self.ingress_queue.elems() == q0.skip(removed_count(*old(self))));
                if old(self).policy is ScatterGather {
                    assert(q0.take(items as int) =~= q0);
                }
                if old(self).policy is Mirror {
                    if q0.len() > 0 {
                        assert(q0.take(items as int)[0] == q0[0]);
                        assert(item_ok(old(self).policy, q0[0]@));
                    }
                } else {
                    assert(q0.take(items as int) =~= q0);
                    assert(ingress_ok(old(self).policy, q0));
                }
            }
        }
        let ghost e_mid = self.egress_queue.elems();
        let mut outbound: Vec<Rpc> = Vec::new();
        let e_len = self.egress_queue.size();
        let max_output: usize = if e_len >= self.egress_rate as usize {
            self.egress_rate as usize
        } else {
            e_len
        };
        proof {
            if old(self).plugin is None && !(old(self).policy is ScatterGather) && old(
                self,
            ).occupied() <= old(self).capacity {
                assert(self.ingress_queue.elems().len() + e_mid.len() - max_output <= old(
                    self,
                ).capacity);
            }
        }
        let ghost q_mid = self.ingress_queue;
        let mut m: usize = 0;
        while m < max_output
            invariant
                0 <= m <= max_output,
                max_output <= old(self).egress_rate,
                max_output <= e_mid.len(),
                max_output as int == (if e_mid.len() <= old(self).egress_rate {
                    e_mid.len() as int
                } else {
                    old(self).egress_rate as int
                }),
                (old(self).plugin is None && !(old(self).policy is ScatterGather) && old(
                    self,
                ).occupied() <= old(self).capacity) ==> self.ingress_queue.elems().len()
                    + e_mid.len() - max_output <= old(self).capacity,
                self.wf(),
                *self == (Node {
                    ingress_queue: self.ingress_queue,
                    egress_queue: self.egress_queue,
                    plugin: self.plugin,
                    ..*old(self)
                }),
                self.ingress_queue == q_mid,
                old(self).plugin is None ==> self.plugin is None,
                q_mid.elems() == old(self).ingress_queue.elems().skip(removed_count(*old(self))),
                (old(self).plugin is None && !(old(self).policy is ScatterGather)) ==> e_mid.len()
                    == old(self).egress_queue.elems().len() + drain_count(*old(self)),
                (old(self).plugin is None && old(self).policy is ScatterGather) ==> e_mid.len()
                    == old(self).egress_queue.elems().len() + scatter_growth(q0),
                old(self).plugin is None ==> forall|j: int|
                    old(self).egress_queue.elems().len() <= j < e_mid.len() ==> routed_by(
                        old(self).policy,
                        old(self).id@,
                        old(self).neighbors@,
                        old(self).seed,
                        (#[trigger] e_mid[j])@,
                    ),
                forall|j: int|
                    0 <= j < old(self).egress_queue.elems().len() ==> e_mid[j] == old(self).egress_queue.elems()[j],
                self.egress_queue.elems() == e_mid.skip(m as int),
                self.egress_queue.elems().len() + m == e_mid.len(),
                outbound@.len() == m,
                forall|j: int| 0 <= j < m ==> outbound@[j] == e_mid[j],
                all_rpcs_wf(outbound@),
                uids.next >= old(uids).next,
            decreases max_output - m,
        {
            proof {
                assert(e_mid.skip(m as int)[0] == e_mid[m as int]);
                assert(e_mid.skip(m as int).drop_first() =~= e_mid.skip(m as int + 1));
            }
            match self.dequeue_egress() {
                Some(x) => {
                    outbound.push(x);
                },
                None => {
                    assert(false);
                },
            }
            m = m + 1;
        }
        proof {
            assert(self.ingress_queue.elems() == old(self).ingress_queue.elems().skip(
                removed_count(*old(self)),
            ));
            assert forall|j: int|
                0 <= j < outbound@.len() && j < old(self).egress_queue.elems().len() implies outbound@[j] == old(self).egress_queue.elems()[j] by {
                assert(outbound@[j] == e_mid[j]);
                assert(e_mid[j] == old(self).egress_queue.elems()[j]);
            }
            if old(self).plugin is None {
                assert forall|j: int|
                    old(self).egress_queue.elems().len() <= j
                        < outbound@.len() implies routed_by(
                    old(self).policy,
                    old(self).id@,
                    old(self).neighbors@,
                    old(self).seed,
                    (#[trigger] outbound@[j])@,
                ) by {
                    assert(outbound@[j] == e_mid[j]);
                }
            }
        }
        Ok(outbound)
    }
}

} // verus!
