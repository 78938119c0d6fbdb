//! What every participant in a simulation satisfies: it takes messages in,
//! produces messages when ticked, and knows its identity and its neighbors.
use crate::channel::Channel;
use crate::error::SimError;
use crate::node::{
    drain_count, gateway_collects, gateway_discards, ingress_ok, item_ok, removed_count, Policy,
};
use crate::storage::stored_tag;
use crate::generator::TrafficGenerator;
use crate::node::Node;
use crate::numstr::u64_to_string;
use crate::rpc::Rpc;
use crate::storage::Storage;
use crate::UidAllocator;
use vstd::prelude::*;

verus! {

/// The tick/recv contract every participant satisfies.  Its stronger,
/// per-kind behavior lives on the concrete types; the trait fixes what is
/// common: identity and well-formedness survive every call.
pub trait SimElement {
    spec fn id_spec(&self) -> Seq<char>;

    spec fn elem_wf(&self) -> bool;

    fn add_connection(&mut self, neighbor: String)
        requires
            old(self).elem_wf(),
        ensures
            final(self).elem_wf(),
            final(self).id_spec() == old(self).id_spec(),
    ;

    fn tick(&mut self, tick: u64, uids: &mut UidAllocator) -> (r: Result<Vec<Rpc>, SimError>)
        requires
            old(self).elem_wf(),
        ensures
            final(self).elem_wf(),
            final(self).id_spec() == old(self).id_spec(),
            final(uids).next >= old(uids).next,
    ;

    fn recv(&mut self, rpc: Rpc, tick: u64, uids: &mut UidAllocator) -> (r: Result<(), SimError>)
        requires
            old(self).elem_wf(),
            rpc.wf(),
        ensures
            final(self).elem_wf(),
            final(self).id_spec() == old(self).id_spec(),
            final(uids).next >= old(uids).next,
    ;

    fn whoami(&self) -> (r: &String)
        ensures
            r@ == self.id_spec(),
    ;

    fn neighbors(&self) -> (r: &Vec<String>);
}

/// A participant that can also describe itself as text for run reports.
pub trait PrintableElement: SimElement {
    fn describe(&self) -> String;
}

impl SimElement for Node {
    open spec fn id_spec(&self) -> Seq<char> {
        self.id@
    }

    open spec fn elem_wf(&self) -> bool {
        self.wf()
    }

    fn add_connection(&mut self, neighbor: String) {
        Node::add_connection(self, neighbor)
    }

    fn tick(&mut self, tick: u64, uids: &mut UidAllocator) -> (r: Result<Vec<Rpc>, SimError>) {
        Node::tick(self, tick, uids)
    }

    fn recv(&mut self, rpc: Rpc, tick: u64, uids: &mut UidAllocator) -> (r: Result<
        (),
        SimError,
    >) {
        Node::recv(self, rpc, tick, uids)
    }

    fn whoami(&self) -> (r: &String) {
        Node::whoami(self)
    }

    fn neighbors(&self) -> (r: &Vec<String>) {
        Node::neighbors(self)
    }
}

impl PrintableElement for Node {
    fn describe(&self) -> String {
        let mut s = "Node { id : ".to_owned();
        s.append(self.id.as_str());
        s.append(", capacity : ");
        s.append(u64_to_string(self.capacity as u64).as_str());
        s.append(", egress_rate : ");
        s.append(u64_to_string(self.egress_rate as u64).as_str());
        s.append(", generation_rate : ");
        s.append(u64_to_string(self.generation_rate as u64).as_str());
        s.append(", queue : ");
        s.append(u64_to_string(self.ingress_queue.size() as u64).as_str());
        s.append(" }");
        s
    }
}

impl SimElement for Storage {
    open spec fn id_spec(&self) -> Seq<char> {
        self.id@
    }

    open spec fn elem_wf(&self) -> bool {
        self.wf()
    }

    fn add_connection(&mut self, neighbor: String) {
        Storage::add_connection(self, neighbor)
    }

    fn tick(&mut self, tick: u64, _uids: &mut UidAllocator) -> (r: Result<Vec<Rpc>, SimError>) {
        Ok(Storage::tick(self, tick))
    }

    fn recv(&mut self, rpc: Rpc, tick: u64, uids: &mut UidAllocator) -> (r: Result<
        (),
        SimError,
    >) {
        Storage::recv(self, rpc, tick, uids)
    }

    fn whoami(&self) -> (r: &String) {
        Storage::whoami(self)
    }

    fn neighbors(&self) -> (r: &Vec<String>) {
        Storage::neighbors(self)
    }
}

impl PrintableElement for Storage {
    fn describe(&self) -> String {
        let mut s = "Storage { id : ".to_owned();
        s.append(self.id.as_str());
        s.append(" }");
        s
    }
}

impl SimElement for TrafficGenerator {
    open spec fn id_spec(&self) -> Seq<char> {
        self.id@
    }

    open spec fn elem_wf(&self) -> bool {
        true
    }

    fn add_connection(&mut self, neighbor: String) {
        TrafficGenerator::add_connection(self, neighbor)
    }

    fn tick(&mut self, tick: u64, uids: &mut UidAllocator) -> (r: Result<Vec<Rpc>, SimError>) {
        TrafficGenerator::tick(self, tick, uids)
    }

    fn recv(&mut self, _rpc: Rpc, _tick: u64, _uids: &mut UidAllocator) -> (r: Result<
        (),
        SimError,
    >) {
        // A generator cannot receive: delivering to one is a topology fault.
        Err(SimError::CannotReceive { id: self.id.clone() })
    }

    fn whoami(&self) -> (r: &String) {
        TrafficGenerator::whoami(self)
    }

    fn neighbors(&self) -> (r: &Vec<String>) {
        &self.neighbors
    }
}

impl PrintableElement for TrafficGenerator {
    fn describe(&self) -> String {
        let mut s = "TrafficGenerator { rate : ".to_owned();
        s.append(u64_to_string(self.rate as u64).as_str());
        s.append(", id : ");
        s.append(self.id.as_str());
        s.append(" }");
        s
    }
}

impl SimElement for Channel {
    open spec fn id_spec(&self) -> Seq<char> {
        self.id@
    }

    open spec fn elem_wf(&self) -> bool {
        self.wf() && self.neighbors@.len() <= 2
    }

    fn add_connection(&mut self, neighbor: String) {
        // A link joins at most two elements; wiring beyond that is ignored,
        // where the original treated it as a programming fault.
        if self.neighbors.len() < 2 {
            Channel::add_connection(self, neighbor);
        }
    }

    fn tick(&mut self, tick: u64, _uids: &mut UidAllocator) -> (r: Result<Vec<Rpc>, SimError>) {
        Channel::dequeue(self, tick)
    }

    fn recv(&mut self, rpc: Rpc, tick: u64, _uids: &mut UidAllocator) -> (r: Result<
        (),
        SimError,
    >) {
        Channel::enqueue(self, rpc, tick);
        Ok(())
    }

    fn whoami(&self) -> (r: &String) {
        &self.id
    }

    fn neighbors(&self) -> (r: &Vec<String>) {
        &self.neighbors
    }
}

impl PrintableElement for Channel {
    fn describe(&self) -> String {
        let mut s = "Channel { delay : ".to_owned();
        s.append(u64_to_string(self.delay).as_str());
        s.append(", id : ");
        s.append(self.id.as_str());
        s.append(", queue : ");
        s.append(u64_to_string(self.len() as u64).as_str());
        s.append(" }");
        s
    }
}

/// A registered participant, one of the three kinds the simulator owns
/// directly; channels are owned separately, keyed by their endpoints.
pub enum Element {
    Node(Node),
    Storage(Storage),
    Generator(TrafficGenerator),
}

/// How one element relates to itself across one `recv` call.
pub open spec fn recv_step(e0: Element, e1: Element, x: Rpc, ok: bool) -> bool {
    &&& e0 is Node ==> e1 is Node && ({
        let n0 = e0->Node_0;
        let n1 = e1->Node_0;
        &&& n1 == (Node {
            ingress_queue: n1.ingress_queue,
            plugin: n1.plugin,
            pending_rpcs: n1.pending_rpcs,
            collected_responses: n1.collected_responses,
            ..n0
        })
        &&& n1.egress_queue == n0.egress_queue
        &&& n0.plugin is None ==> n1.plugin is None
        &&& !gateway_collects(n0.policy, x@) ==> n1.collected_responses == n0.collected_responses
        &&& !(n0.policy is ScatterGather) ==> n1.pending_rpcs == n0.pending_rpcs
        &&& gateway_collects(n0.policy, x@) ==> ok && n1.collected_responses@
            == n0.collected_responses@.push(x) && n1.ingress_queue == n0.ingress_queue
        &&& gateway_discards(n0.policy, x@) ==> ok && n1 == n0
        &&& (!gateway_collects(n0.policy, x@) && !gateway_discards(n0.policy, x@) && n0.occupied()
            >= n0.capacity) ==> ok && n1 == n0
        &&& (ok && n0.plugin is None && n0.occupied() < n0.capacity) ==> n1.occupied()
            <= n0.capacity
        &&& (n0.occupied() < n0.capacity && n0.plugin is None && !gateway_collects(n0.policy, x@)
            && !gateway_discards(n0.policy, x@) && !(n0.policy is ScatterGather
            && n0.gather_reply(x@))) ==> ok && n1.ingress_queue.elems()
            == n0.ingress_queue.elems().push(x) && n1.pending_rpcs == n0.pending_rpcs
    })
    &&& e0 is Storage ==> e1 is Storage && ({
        let s0 = e0->Storage_0;
        let s1 = e1->Storage_0;
        &&& s1 == (Storage { data: s1.data, plugin: s1.plugin, ..s0 })
        &&& s0.data@.is_prefix_of(s1.data@)
        &&& s0.plugin is None ==> s1.plugin is None
        &&& !s0.accepts(stored_tag(x@)) ==> s1.data == s0.data
        &&& (s0.accepts(stored_tag(x@)) && s0.plugin is None) ==> ok && s1.data@ == s0.data@
            + x@.data + "\n"@
    })
    &&& e0 is Generator ==> !ok && e1 == e0
}

/// How one element relates to itself across one whole simulator tick: its
/// own production step followed by any number of deliveries.  What survives
/// both is stated here; in particular a plain node's egress length after the
/// tick is pinned, which only a node that actually took its turn can show.
pub open spec fn stepped_and_delivered(e0: Element, e1: Element) -> bool {
    &&& e0 is Node ==> e1 is Node && ({
        let n0 = e0->Node_0;
        let n1 = e1->Node_0;
        &&& n1.id == n0.id
        &&& n1.capacity == n0.capacity
        &&& n1.egress_rate == n0.egress_rate
        &&& n1.generation_rate == n0.generation_rate
        &&& n1.policy == n0.policy
        &&& n1.neighbors == n0.neighbors
        &&& n1.seed == n0.seed
        &&& n0.plugin is None ==> n1.plugin is None
        &&& (n0.plugin is None && !(n0.policy is ScatterGather)) ==> n1.egress_queue.elems().len()
            == ({
            let e_full = n0.egress_queue.elems().len() + drain_count(n0);
            if e_full <= n0.egress_rate {
                0int
            } else {
                e_full - n0.egress_rate
            }
        })
    })
    &&& e0 is Storage ==> e1 is Storage && ({
        let s0 = e0->Storage_0;
        let s1 = e1->Storage_0;
        &&& s1.id == s0.id
        &&& s1.neighbors == s0.neighbors
        &&& s0.plugin is None ==> s1.plugin is None
        &&& s0.data@.is_prefix_of(s1.data@)
    })
    &&& e0 is Generator ==> e1 == e0
}

/// Prefix order is transitive: what a log began with, it still begins with
/// after any number of further appends.
pub proof fn lemma_prefix_trans(a: Seq<char>, b: Seq<char>, c: Seq<char>)
    requires
        a.is_prefix_of(b),
        b.is_prefix_of(c),
    ensures
        a.is_prefix_of(c),
{
    assert forall|j: int| 0 <= j < a.len() implies c.subrange(0, a.len() as int)[j] == a[j] by {
        assert(b.subrange(0, a.len() as int)[j] == a[j]);
        assert(c.subrange(0, b.len() as int)[j] == b[j]);
    }
    assert(a =~= c.subrange(0, a.len() as int));
}

/// The element after `add_connection`: the neighbor list gained the
/// destination (a generator replaces its single target instead).
pub open spec fn neighbors_gained(e0: Element, e1: Element, dst: Seq<char>) -> bool {
    &&& e0 is Node ==> e1 is Node && ({
        let n0 = e0->Node_0;
        let n1 = e1->Node_0;
        &&& n1 == (Node { neighbors: n1.neighbors, ..n0 })
        &&& n1.neighbors@.len() == n0.neighbors@.len() + 1
        &&& n1.neighbors@[n1.neighbors@.len() - 1]@ == dst
        &&& forall|j: int| 0 <= j < n0.neighbors@.len() ==> n1.neighbors@[j] == n0.neighbors@[j]
    })
    &&& e0 is Storage ==> e1 is Storage && ({
        let s0 = e0->Storage_0;
        let s1 = e1->Storage_0;
        &&& s1 == (Storage { neighbors: s1.neighbors, ..s0 })
        &&& s1.neighbors@.len() == s0.neighbors@.len() + 1
        &&& s1.neighbors@[s1.neighbors@.len() - 1]@ == dst
        &&& forall|j: int| 0 <= j < s0.neighbors@.len() ==> s1.neighbors@[j] == s0.neighbors@[j]
    })
    &&& e0 is Generator ==> e1 is Generator && ({
        let g0 = e0->Generator_0;
        let g1 = e1->Generator_0;
        &&& g1.neighbors@.len() == 1
        &&& g1.neighbors@[0]@ == dst
        &&& g1.rate == g0.rate
        &&& g1.id == g0.id
    })
}

impl Element {
    /// Nothing buffered and nothing to synthesize: ticking such an element
    /// changes nothing and emits nothing.
    pub open spec fn quiescent(&self) -> bool {
        match self {
            Element::Node(n) => n.ingress_queue.elems().len() == 0 && n.egress_queue.elems().len()
                == 0 && (n.generation_rate == 0 || !(n.policy is Random)),
            Element::Storage(_) => true,
            Element::Generator(g) => g.neighbors@.len() == 0 || g.rate == 0,
        }
    }

    pub open spec fn wf(&self) -> bool {
        match self {
            Element::Node(n) => n.wf(),
            Element::Storage(s) => s.wf(),
            Element::Generator(_) => true,
        }
    }

    pub open spec fn id_spec(&self) -> Seq<char> {
        match self {
            Element::Node(n) => n.id@,
            Element::Storage(s) => s.id@,
            Element::Generator(g) => g.id@,
        }
    }

    pub fn tick(&mut self, tick: u64, uids: &mut UidAllocator) -> (r: Result<Vec<Rpc>, SimError>)
        requires
            old(self).wf(),
        ensures
            final(self).wf(),
            final(self).id_spec() == old(self).id_spec(),
            final(uids).next >= old(uids).next,
            r is Ok ==> forall|i: int| 0 <= i < r->Ok_0@.len() ==> (#[trigger] r->Ok_0@[i]).wf(),
            old(self).quiescent() ==> r is Ok && r->Ok_0@.len() == 0 && *final(self) == *old(self)
                && final(uids).next == old(uids).next,
            (*old(self)) is Node ==> (*final(self)) is Node && ({
                let n0 = (*old(self))->Node_0;
                let n1 = (*final(self))->Node_0;
                &&& n1 == (Node {
                    ingress_queue: n1.ingress_queue,
                    egress_queue: n1.egress_queue,
                    plugin: n1.plugin,
                    ..n0
                })
                &&& r is Ok ==> r->Ok_0@.len() <= n0.egress_rate
                &&& r is Ok ==> n1.ingress_queue.elems() == n0.ingress_queue.elems().skip(
                    removed_count(n0),
                )
                &&& (r is Ok && n0.plugin is None && !(n0.policy is ScatterGather)) ==> ({
                    let e_full = n0.egress_queue.elems().len() + drain_count(n0);
                    let emitted = if e_full <= n0.egress_rate {
                        e_full
                    } else {
                        n0.egress_rate as int
                    };
                    r->Ok_0@.len() == emitted && n1.egress_queue.elems().len() == e_full - emitted
                })
                &&& r is Ok ==> forall|j: int|
                    0 <= j < r->Ok_0@.len() && j < n0.egress_queue.elems().len() ==> r->Ok_0@[j]
                        == n0.egress_queue.elems()[j]
                &&& (r is Ok && n0.plugin is None && !(n0.policy is ScatterGather)
                    && n0.occupied() <= n0.capacity) ==> n1.occupied() <= n0.capacity
                &&& r is Ok ==> match n0.policy {
                    Policy::Random => true,
                    Policy::Mirror => n0.ingress_queue.elems().len() > 0 ==> item_ok(
                        n0.policy,
                        n0.ingress_queue.elems()[0]@,
                    ),
                    _ => ingress_ok(n0.policy, n0.ingress_queue.elems()),
                }
            }),
            (*old(self)) is Storage ==> (*final(self)) is Storage && r is Ok && *final(self) == *old(self) && r->Ok_0@.len() == 0 && final(uids).next == old(uids).next,
            (*old(self)) is Generator ==> (*final(self)) is Generator && *final(self) == *old(self) && (
            (*old(self))->Generator_0.neighbors@.len() == 0 ==> r is Ok && r->Ok_0@.len() == 0
                && final(uids).next == old(uids).next),
            r is Ok ==> stepped_and_delivered(*old(self), *final(self)),
            (r is Err && r->Err_0 is UidExhausted) ==> final(uids).next > u64::MAX - 4,
            r is Err ==> (r->Err_0 is MissingHeader || r->Err_0 is InvalidSource
                || r->Err_0 is NoNeighbors || r->Err_0 is UidExhausted),
            (*old(self)) is Node ==> ({
                let n0 = (*old(self))->Node_0;
                (ingress_ok(n0.policy, n0.ingress_queue.elems()) && (n0.policy is Random
                    ==> n0.neighbors@.len() > 0) && old(uids).next + 4 * (
                n0.ingress_queue.elems().len() + n0.generation_rate) + 4 <= u64::MAX) ==> r is Ok
            }),
            (*old(self)) is Generator ==> ({
                let g0 = (*old(self))->Generator_0;
                &&& old(uids).next + g0.rate <= u64::MAX ==> r is Ok
                &&& r is Ok ==> r->Ok_0@.len() == (if g0.neighbors@.len() > 0 {
                    g0.rate as int
                } else {
                    0int
                }) && final(uids).next == old(uids).next + r->Ok_0@.len()
                &&& r is Ok ==> forall|i: int|
                    0 <= i < r->Ok_0@.len() ==> (#[trigger] r->Ok_0@[i])@.headers
                        == Map::<Seq<char>, Seq<char>>::empty().insert("src"@, g0.id@).insert(
                        "dest"@,
                        g0.neighbors@[0]@,
                    ) && r->Ok_0@[i]@.data == crate::numstr::spec_digits(tick as nat)
                        && r->Ok_0@[i]@.uid == old(uids).next + i
            }),
    {
        let r = match self {
            Element::Node(n) => Node::tick(n, tick, uids),
            Element::Storage(s) => Ok(Storage::tick(s, tick)),
            Element::Generator(g) => TrafficGenerator::tick(g, tick, uids),
        };
        proof {
            if (*self) is Storage {
                assert((*old(self))->Storage_0.data@ =~= (*self)->Storage_0.data@.subrange(
                    0,
                    (*old(self))->Storage_0.data@.len() as int,
                ));
            }
        }
        r
    }

    pub fn recv(&mut self, rpc: Rpc, tick: u64, uids: &mut UidAllocator) -> (r: Result<
        (),
        SimError,
    >)
        requires
            old(self).wf(),
            rpc.wf(),
        ensures
            final(self).wf(),
            final(self).id_spec() == old(self).id_spec(),
            final(uids).next >= old(uids).next,
            recv_step(*old(self), *final(self), rpc, r is Ok),
            (r is Err && r->Err_0 is UidExhausted) ==> final(uids).next > u64::MAX - 4,
            r is Err ==> (r->Err_0 is UidExhausted || r->Err_0 is CannotReceive),
            (*old(self)) is Generator ==> r is Err && r->Err_0 is CannotReceive && *final(self)
                == *old(self) && final(uids).next == old(uids).next,
    {
        match self {
            Element::Node(n) => Node::recv(n, rpc, tick, uids),
            Element::Storage(s) => Storage::recv(s, rpc, tick, uids),
            Element::Generator(g) => Err(
                SimError::CannotReceive { id: g.whoami().clone() },
            ),
        }
    }

    pub fn add_connection(&mut self, neighbor: String)
        requires
            old(self).wf(),
        ensures
            final(self).wf(),
            final(self).id_spec() == old(self).id_spec(),
            (*old(self)) is Node ==> (*final(self)) is Node && (*final(self))->Node_0.neighbors@ == (*old(self))->Node_0.neighbors@.push(neighbor) && (*final(self))->Node_0 == (Node {
                neighbors: (*final(self))->Node_0.neighbors,
                ..(*old(self))->Node_0
            }),
            (*old(self)) is Storage ==> (*final(self)) is Storage && (*final(self))->Storage_0.neighbors@
                == (*old(self))->Storage_0.neighbors@.push(neighbor) && (*final(self))->Storage_0 == (
            Storage { neighbors: (*final(self))->Storage_0.neighbors, ..(*old(self))->Storage_0 }),
            (*old(self)) is Generator ==> (*final(self)) is Generator && (*final(self))->Generator_0.neighbors@.len() == 1 && (*final(self))->Generator_0.neighbors@[0] == neighbor && (*final(self))->Generator_0.rate == (*old(self))->Generator_0.rate && (*final(self))->Generator_0.id == (*old(self))->Generator_0.id,
    {
        match self {
            Element::Node(n) => Node::add_connection(n, neighbor),
            Element::Storage(s) => Storage::add_connection(s, neighbor),
            Element::Generator(g) => TrafficGenerator::add_connection(g, neighbor),
        }
    }

    pub fn whoami(&self) -> (r: &String)
        ensures
            r@ == self.id_spec(),
    {
        match self {
            Element::Node(n) => Node::whoami(n),
            Element::Storage(s) => Storage::whoami(s),
            Element::Generator(g) => TrafficGenerator::whoami(g),
        }
    }

    pub fn describe(&self) -> String {
        match self {
            Element::Node(n) => n.describe(),
            Element::Storage(s) => s.describe(),
            Element::Generator(g) => g.describe(),
        }
    }
}

} // verus!
