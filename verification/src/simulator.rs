//! The scheduler: owns every element and the channels joining them, and
//! advances global time in strict phases — produce, relay in, deliver — so
//! that no element ever observes a partially updated world within a tick.
use crate::channel::Channel;
use crate::element::{
    lemma_prefix_trans, neighbors_gained, recv_step, stepped_and_delivered, Element,
};
use crate::error::SimError;
use crate::filter::FilterKind;
use crate::node::Node;
use crate::rpc::Rpc;
use crate::storage::Storage;
use crate::strutil::str_eq;
use crate::generator::TrafficGenerator;
use crate::UidAllocator;
use vstd::prelude::*;

verus! {

/// The first position whose identity spells `id`, or -1.
pub open spec fn id_index(ids: Seq<String>, id: Seq<char>) -> int
    decreases ids.len(),
{
    if ids.len() == 0 {
        -1
    } else if ids[0]@ == id {
        0
    } else {
        let r = id_index(ids.drop_first(), id);
        if r == -1 {
            -1
        } else {
            r + 1
        }
    }
}

proof fn lemma_id_index_props(ids: Seq<String>, id: Seq<char>)
    ensures
        id_index(ids, id) >= -1,
        id_index(ids, id) == -1 ==> forall|j: int| 0 <= j < ids.len() ==> (#[trigger] ids[j])@ != id,
        id_index(ids, id) >= 0 ==> 0 <= id_index(ids, id) < ids.len() && ids[id_index(ids, id)]@
            == id,
    decreases ids.len(),
{
    if ids.len() > 0 {
        lemma_id_index_props(ids.drop_first(), id);
    }
    if ids.len() > 0 && ids[0]@ != id {
        if id_index(ids, id) == -1 {
            assert(id_index(ids.drop_first(), id) == -1);
            assert forall|j: int| 0 <= j < ids.len() implies (#[trigger] ids[j])@ != id by {
                if j > 0 {
                    assert(ids.drop_first()[j - 1] == ids[j]);
                    assert(ids.drop_first()[j - 1]@ != id);
                }
            }
        }
    }
}

/// Distinct identities, viewed as character sequences.
pub open spec fn ids_distinct(ids: Seq<String>) -> bool {
    forall|i: int, j: int|
        0 <= i < ids.len() && 0 <= j < ids.len() && i != j ==> (#[trigger] ids[i])@ != (
        #[trigger] ids[j])@
}

/// Distinct (source, destination) pairs.
pub open spec fn keys_distinct(srcs: Seq<String>, dsts: Seq<String>) -> bool {
    forall|i: int, j: int|
        0 <= i < srcs.len() && 0 <= j < srcs.len() && i != j ==> !((#[trigger] srcs[i])@ == (
        #[trigger] srcs[j])@ && dsts[i]@ == dsts[j]@)
}

/// Every in-flight message sits in the channel its own headers name: its
/// source and destination tags spell the channel's key.  The relay phase
/// only ever places a message into the channel found under its headers, so
/// this holds of every reachable simulator.
pub open spec fn channels_keyed(
    srcs: Seq<String>,
    dsts: Seq<String>,
    edges: Seq<Channel>,
) -> bool {
    forall|k: int, j: int|
        0 <= k < edges.len() && 0 <= j < (#[trigger] edges[k]).queue.elems().len() ==> ({
            let h = (#[trigger] edges[k].queue.elems()[j]).rpc@.headers;
            &&& h.contains_key("src"@) && h["src"@] == srcs[k]@
            &&& h.contains_key("dest"@) && h["dest"@] == dsts[k]@
        })
}

/// Both endpoints of every channel are registered elements; wiring demands
/// it, and identities are never removed.
pub open spec fn edges_wired(ids: Seq<String>, srcs: Seq<String>, dsts: Seq<String>) -> bool {
    &&& forall|k: int| 0 <= k < srcs.len() ==> #[trigger] id_index(ids, srcs[k]@) >= 0
    &&& forall|k: int| 0 <= k < dsts.len() ==> #[trigger] id_index(ids, dsts[k]@) >= 0
}

proof fn lemma_edges_wired_at(ids: Seq<String>, srcs: Seq<String>, dsts: Seq<String>, k: int)
    requires
        edges_wired(ids, srcs, dsts),
        0 <= k < srcs.len(),
        0 <= k < dsts.len(),
    ensures
        id_index(ids, srcs[k]@) >= 0,
        id_index(ids, dsts[k]@) >= 0,
{
}

/// The channel's head, if any, is due strictly after the given tick.
pub open spec fn head_due_later(c: Channel, now: u64) -> bool {
    c.queue.elems().len() > 0 ==> c.queue.elems()[0].stamp + c.delay > now
}

pub struct Simulator {
    pub seed: u64,
    pub uids: UidAllocator,
    pub ids: Vec<String>,
    pub elements: Vec<Element>,
    pub edge_srcs: Vec<String>,
    pub edge_dsts: Vec<String>,
    pub edges: Vec<Channel>,
}

fn element_mut(v: &mut Vec<Element>, i: usize) -> (e: &mut Element)
    requires
        i < old(v)@.len(),
    ensures
        *e == old(v)@[i as int],
        final(v)@ == old(v)@.update(i as int, *final(e)),
{
    &mut v[i]
}

fn channel_mut(v: &mut Vec<Channel>, i: usize) -> (e: &mut Channel)
    requires
        i < old(v)@.len(),
    ensures
        *e == old(v)@[i as int],
        final(v)@ == old(v)@.update(i as int, *final(e)),
{
    &mut v[i]
}

impl Simulator {
    pub open spec fn wf(&self) -> bool {
        &&& self.ids@.len() == self.elements@.len()
        &&& forall|i: int|
            0 <= i < self.elements@.len() ==> (#[trigger] self.elements@[i]).wf()
                && self.elements@[i].id_spec() == self.ids@[i]@
        &&& ids_distinct(self.ids@)
        &&& self.edge_srcs@.len() == self.edges@.len()
        &&& self.edge_dsts@.len() == self.edges@.len()
        &&& forall|k: int| 0 <= k < self.edges@.len() ==> (#[trigger] self.edges@[k]).wf()
        &&& keys_distinct(self.edge_srcs@, self.edge_dsts@)
        &&& channels_keyed(self.edge_srcs@, self.edge_dsts@, self.edges@)
        &&& edges_wired(self.ids@, self.edge_srcs@, self.edge_dsts@)
    }

    /// Every element quiescent and every channel empty: nothing is buffered
    /// anywhere and nothing will be synthesized, so a tick moves nothing.
    pub open spec fn quiescent(&self) -> bool {
        &&& forall|i: int|
            0 <= i < self.elements@.len() ==> (#[trigger] self.elements@[i]).quiescent()
        &&& forall|k: int|
            0 <= k < self.edges@.len() ==> (#[trigger] self.edges@[k]).queue.elems().len() == 0
    }

    /// Whether an element is registered under the identity.
    pub open spec fn has_element(&self, id: Seq<char>) -> bool {
        id_index(self.ids@, id) >= 0
    }

    /// Whether a channel joins the ordered pair of identities.
    pub open spec fn has_channel(&self, src: Seq<char>, dst: Seq<char>) -> bool {
        exists|k: int|
            0 <= k < self.edges@.len() && (#[trigger] self.edge_srcs@[k])@ == src
                && self.edge_dsts@[k]@ == dst
    }

    pub fn new(seed: u64) -> (r: Simulator)
        ensures
            r.wf(),
            r.seed == seed,
            r.uids.next == 0,
            r.ids@.len() == 0,
            r.elements@.len() == 0,
            r.edges@.len() == 0,
    {
        Simulator {
            seed,
            uids: UidAllocator::new(),
            ids: Vec::new(),
            elements: Vec::new(),
            edge_srcs: Vec::new(),
            edge_dsts: Vec::new(),
            edges: Vec::new(),
        }
    }

    fn find_index(&self, id: &str) -> (r: Option<usize>)
        requires
            self.wf(),
        ensures
            match r {
                Some(i) => id_index(self.ids@, id@) == i,
                None => id_index(self.ids@, id@) == -1,
            },
    {
        proof {
            lemma_id_index_props(self.ids@, id@);
        }
        let n = self.ids.len();
        let mut i: usize = 0;
        while i < n
            invariant
                0 <= i <= n,
                n == self.ids@.len(),
                self.wf(),
                forall|j: int| 0 <= j < i ==> (#[trigger] self.ids@[j])@ != id@,
            decreases n - i,
        {
            if str_eq(self.ids[i].as_str(), id) {
                proof {
                    lemma_id_index_at(self.ids@, id@, i as int);
                }
                return Some(i);
            }
            i = i + 1;
        }
        proof {
            lemma_id_index_props(self.ids@, id@);
            let f = id_index(self.ids@, id@);
            if f >= 0 {
                assert(self.ids@[f]@ == id@);
                assert(self.ids@[f]@ != id@);
            }
        }
        None
    }

    /// Registers one element under a fresh identity.
    pub fn add_element(&mut self, id: &str, element: Element)
        requires
            old(self).wf(),
            element.wf(),
            element.id_spec() == id@,
            !old(self).has_element(id@),
        ensures
            final(self).wf(),
            final(self).ids@.len() == old(self).ids@.len() + 1,
            final(self).ids@[final(self).ids@.len() - 1]@ == id@,
            forall|j: int| 0 <= j < old(self).ids@.len() ==> final(self).ids@[j] == old(self).ids@[j],
            final(self).elements@ == old(self).elements@.push(element),
            final(self).edges == old(self).edges,
            final(self).edge_srcs == old(self).edge_srcs,
            final(self).edge_dsts == old(self).edge_dsts,
            final(self).seed == old(self).seed,
            final(self).uids == old(self).uids,
            final(self).has_element(id@),
            forall|x: Seq<char>|
                #[trigger] final(self).has_element(x) == (old(self).has_element(x) || x == id@),
            forall|s: Seq<char>, d: Seq<char>|
                #[trigger] final(self).has_channel(s, d) == old(self).has_channel(s, d),
    {
        proof {
            lemma_id_index_props(self.ids@, id@);
        }
        self.ids.push(id.to_owned());
        self.elements.push(element);
        proof {
            let ids1 = self.ids@;
            let ids0 = old(self).ids@;
            assert forall|i: int, j: int|
                0 <= i < ids1.len() && 0 <= j < ids1.len() && i != j implies (
            #[trigger] ids1[i])@ != (#[trigger] ids1[j])@ by {
                if i == ids1.len() - 1 {
                    assert(ids1[j] == ids0[j]);
                    assert(ids0[j]@ != id@);
                } else if j == ids1.len() - 1 {
                    assert(ids1[i] == ids0[i]);
                    assert(ids0[i]@ != id@);
                } else {
                    assert(ids1[i] == ids0[i]);
                    assert(ids1[j] == ids0[j]);
                }
            }
            lemma_id_index_at(ids1, id@, ids1.len() - 1);
            assert forall|x: Seq<char>|
                #[trigger] final(self).has_element(x) == (old(self).has_element(x) || x
                    == id@) by {
                lemma_id_index_props(ids0, x);
                lemma_id_index_props(ids1, x);
                if old(self).has_element(x) {
                    let f = id_index(ids0, x);
                    assert(ids1[f] == ids0[f]);
                    lemma_id_index_at(ids1, x, f);
                } else if x == id@ {
                } else {
                    if id_index(ids1, x) >= 0 {
                        let f = id_index(ids1, x);
                        if f < ids1.len() - 1 {
                            assert(ids1[f] == ids0[f]);
                            lemma_id_index_at(ids0, x, f);
                        }
                    }
                }
            }
            assert forall|a: Seq<char>, b: Seq<char>|
                #[trigger] self.has_channel(a, b) == old(self).has_channel(a, b) by {
                if self.has_channel(a, b) {
                    let kk = choose|kk: int|
                        0 <= kk < self.edges@.len() && (#[trigger] self.edge_srcs@[kk])@ == a
                            && self.edge_dsts@[kk]@ == b;
                    assert(old(self).edge_srcs@[kk]@ == a && old(self).edge_dsts@[kk]@ == b);
                }
                if old(self).has_channel(a, b) {
                    let kk = choose|kk: int|
                        0 <= kk < old(self).edges@.len() && (#[trigger] old(self).edge_srcs@[kk])@
                            == a && old(self).edge_dsts@[kk]@ == b;
                    assert(self.edge_srcs@[kk]@ == a && self.edge_dsts@[kk]@ == b);
                }
            }
            assert forall|k: int|
                0 <= k < self.edge_srcs@.len() implies #[trigger] id_index(
                ids1,
                self.edge_srcs@[k]@,
            ) >= 0 by {
                lemma_id_index_props(ids0, self.edge_srcs@[k]@);
                let f1 = id_index(ids0, self.edge_srcs@[k]@);
                assert(ids1[f1] == ids0[f1]);
                lemma_id_index_at(ids1, self.edge_srcs@[k]@, f1);
            }
            assert forall|k: int|
                0 <= k < self.edge_dsts@.len() implies #[trigger] id_index(
                ids1,
                self.edge_dsts@[k]@,
            ) >= 0 by {
                lemma_id_index_props(ids0, self.edge_dsts@[k]@);
                let f2 = id_index(ids0, self.edge_dsts@[k]@);
                assert(ids1[f2] == ids0[f2]);
                lemma_id_index_at(ids1, self.edge_dsts@[k]@, f2);
            }
        }
    }

    /// Registers a node; its identity must be fresh and match the node's own.
    pub fn add_node(&mut self, id: &str, node: Node)
        requires
            old(self).wf(),
            node.wf(),
            node.id@ == id@,
            !old(self).has_element(id@),
        ensures
            final(self).wf(),
            final(self).ids@.len() == old(self).ids@.len() + 1,
            final(self).elements@ == old(self).elements@.push(Element::Node(node)),
            final(self).edges == old(self).edges,
            final(self).edge_srcs == old(self).edge_srcs,
            final(self).edge_dsts == old(self).edge_dsts,
            final(self).seed == old(self).seed,
            final(self).uids == old(self).uids,
            final(self).has_element(id@),
            forall|x: Seq<char>|
                #[trigger] final(self).has_element(x) == (old(self).has_element(x) || x == id@),
            forall|s: Seq<char>, d: Seq<char>|
                #[trigger] final(self).has_channel(s, d) == old(self).has_channel(s, d),
    {
        self.add_element(id, Element::Node(node));
    }

    /// Registers a randomly routing node built from this simulator's seed.
    pub fn add_random_node(
        &mut self,
        id: &str,
        capacity: u32,
        egress_rate: u32,
        generation_rate: u32,
        plugin: Option<FilterKind>,
    )
        requires
            old(self).wf(),
            capacity >= 1,
            !old(self).has_element(id@),
        ensures
            final(self).wf(),
            final(self).has_element(id@),
            forall|x: Seq<char>|
                #[trigger] final(self).has_element(x) == (old(self).has_element(x) || x == id@),
            forall|s: Seq<char>, d: Seq<char>|
                #[trigger] final(self).has_channel(s, d) == old(self).has_channel(s, d),
            final(self).seed == old(self).seed,
            final(self).uids == old(self).uids,
    {
        let node = Node::new(id, capacity, egress_rate, generation_rate, plugin, self.seed);
        self.add_node(id, node);
    }

    /// Registers a terminal store, optionally with an aggregation filter.
    pub fn add_storage(&mut self, id: &str, aggregation: Option<FilterKind>)
        requires
            old(self).wf(),
            !old(self).has_element(id@),
        ensures
            final(self).wf(),
            final(self).has_element(id@),
            forall|x: Seq<char>|
                #[trigger] final(self).has_element(x) == (old(self).has_element(x) || x == id@),
            forall|s: Seq<char>, d: Seq<char>|
                #[trigger] final(self).has_channel(s, d) == old(self).has_channel(s, d),
            final(self).seed == old(self).seed,
            final(self).uids == old(self).uids,
    {
        let storage = Storage::new(id, aggregation);
        self.add_element(id, Element::Storage(storage));
    }

    /// Registers a synthetic traffic source.
    pub fn add_generator(&mut self, id: &str, rate: u32)
        requires
            old(self).wf(),
            !old(self).has_element(id@),
        ensures
            final(self).wf(),
            final(self).has_element(id@),
            forall|x: Seq<char>|
                #[trigger] final(self).has_element(x) == (old(self).has_element(x) || x == id@),
            forall|s: Seq<char>, d: Seq<char>|
                #[trigger] final(self).has_channel(s, d) == old(self).has_channel(s, d),
            final(self).seed == old(self).seed,
            final(self).uids == old(self).uids,
    {
        let generator = TrafficGenerator::new(rate, id);
        self.add_element(id, Element::Generator(generator));
    }

    /// Tells the source element that it may route towards the destination.
    pub fn add_connection(&mut self, src: &str, dst: &str)
        requires
            old(self).wf(),
            old(self).has_element(src@),
        ensures
            final(self).wf(),
            final(self).ids == old(self).ids,
            final(self).edges == old(self).edges,
            final(self).edge_srcs == old(self).edge_srcs,
            final(self).edge_dsts == old(self).edge_dsts,
            final(self).seed == old(self).seed,
            final(self).uids == old(self).uids,
            forall|x: Seq<char>|
                #[trigger] final(self).has_element(x) == old(self).has_element(x),
            forall|s: Seq<char>, d: Seq<char>|
                #[trigger] final(self).has_channel(s, d) == old(self).has_channel(s, d),
            final(self).elements@.len() == old(self).elements@.len(),
            forall|j: int|
                0 <= j < old(self).elements@.len() && j != id_index(old(self).ids@, src@)
                    ==> final(self).elements@[j] == old(self).elements@[j],
            neighbors_gained(
                old(self).elements@[id_index(old(self).ids@, src@)],
                final(self).elements@[id_index(old(self).ids@, src@)],
                dst@,
            ),
    {
        proof {
            lemma_id_index_props(self.ids@, src@);
        }
        match self.find_index(src) {
            Some(i) => {
                let el = element_mut(&mut self.elements, i);
                el.add_connection(dst.to_owned());
            },
            None => {
                proof {
                    assert(false);
                }
            },
        }
    }

    /// Wires a delayed edge between two registered elements; a bidirectional
    /// edge is two independent channels.  Wiring between unregistered
    /// identities, or doubling an existing channel, is a configuration fault.
    pub fn add_edge(&mut self, delay: u64, left: &str, right: &str, bidirectional: bool)
        requires
            old(self).wf(),
            old(self).has_element(left@),
            old(self).has_element(right@),
            !old(self).has_channel(left@, right@),
            bidirectional ==> !old(self).has_channel(right@, left@) && left@ != right@,
        ensures
            final(self).wf(),
            final(self).ids == old(self).ids,
            final(self).seed == old(self).seed,
            final(self).uids == old(self).uids,
            forall|x: Seq<char>|
                #[trigger] final(self).has_element(x) == old(self).has_element(x),
            final(self).has_channel(left@, right@),
            bidirectional ==> final(self).has_channel(right@, left@),
            forall|s: Seq<char>, d: Seq<char>|
                #[trigger] final(self).has_channel(s, d) <==> (old(self).has_channel(s, d) || (s
                    == left@ && d == right@) || (bidirectional && s == right@ && d == left@)),
            final(self).edges@.len() == old(self).edges@.len() + (if bidirectional {
                2int
            } else {
                1int
            }),
            forall|k: int|
                0 <= k < old(self).edges@.len() ==> final(self).edges@[k] == old(self).edges@[k],
            final(self).edges@[old(self).edges@.len() as int].queue.elems().len() == 0,
            final(self).edges@[old(self).edges@.len() as int].delay == delay,
            bidirectional ==> final(self).edges@[old(self).edges@.len() as int + 1].queue.elems().len() == 0 && final(self).edges@[old(self).edges@.len() as int + 1].delay == delay,
            final(self).elements@.len() == old(self).elements@.len(),
            ({
                let li = id_index(old(self).ids@, left@);
                let ri = id_index(old(self).ids@, right@);
                &&& forall|j: int|
                    0 <= j < old(self).elements@.len() && j != li && j != ri ==> final(self).elements@[j] == old(self).elements@[j]
                &&& neighbors_gained(
                    old(self).elements@[li],
                    final(self).elements@[li],
                    right@,
                )
                &&& bidirectional ==> neighbors_gained(
                    old(self).elements@[ri],
                    final(self).elements@[ri],
                    left@,
                )
                &&& (!bidirectional && ri != li) ==> final(self).elements@[ri] == old(self).elements@[ri]
            }),
    {
        proof {
            lemma_id_index_props(old(self).ids@, left@);
            lemma_id_index_props(old(self).ids@, right@);
            if bidirectional {
                assert(old(self).ids@[id_index(old(self).ids@, left@)]@ == left@);
                assert(old(self).ids@[id_index(old(self).ids@, right@)]@ == right@);
            }
        }
        let ghost n0 = old(self).edges@.len();
        let edge = Channel::new(left, right, delay);
        self.add_connection(left, right);
        self.edge_srcs.push(left.to_owned());
        self.edge_dsts.push(right.to_owned());
        self.edges.push(edge);
        proof {
            lemma_keys_distinct_push(
                old(self).edge_srcs@,
                old(self).edge_dsts@,
                self.edge_srcs@,
                self.edge_dsts@,
                left@,
                right@,
            );
            assert(self.edge_srcs@[n0 as int]@ == left@ && self.edge_dsts@[n0 as int]@ == right@);
        }
        if bidirectional {
            let ghost mid = *self;
            let back = Channel::new(right, left, delay);
            self.add_connection(right, left);
            self.edge_srcs.push(right.to_owned());
            self.edge_dsts.push(left.to_owned());
            self.edges.push(back);
            proof {
                assert forall|k: int|
                    0 <= k < mid.edges@.len() implies !((#[trigger] mid.edge_srcs@[k])@ == right@
                    && mid.edge_dsts@[k]@ == left@) by {
                    if k < mid.edges@.len() - 1 {
                        assert(!old(self).has_channel(right@, left@));
                        if mid.edge_srcs@[k]@ == right@ && mid.edge_dsts@[k]@ == left@ {
                            assert(old(self).edge_srcs@[k] == mid.edge_srcs@[k]);
                            assert(old(self).edge_dsts@[k] == mid.edge_dsts@[k]);
                            assert(old(self).has_channel(right@, left@));
                        }
                    }
                }
                lemma_keys_distinct_push(
                    mid.edge_srcs@,
                    mid.edge_dsts@,
                    self.edge_srcs@,
                    self.edge_dsts@,
                    right@,
                    left@,
                );
                assert(self.edge_srcs@[n0 as int]@ == left@ && self.edge_dsts@[n0 as int]@
                    == right@);
                assert(self.edge_srcs@[n0 as int + 1]@ == right@ && self.edge_dsts@[n0 as int
                    + 1]@ == left@);
                assert forall|s: Seq<char>, d: Seq<char>|
                    #[trigger] final(self).has_channel(s, d) <==> (old(self).has_channel(s, d)
                        || (s == left@ && d == right@) || (s == right@ && d == left@)) by {
                    if old(self).has_channel(s, d) {
                        let k = choose|k: int|
                            0 <= k < old(self).edges@.len() && (#[trigger] old(
                                self,
                            ).edge_srcs@[k])@ == s && old(self).edge_dsts@[k]@ == d;
                        assert(self.edge_srcs@[k] == old(self).edge_srcs@[k]);
                        assert(self.edge_dsts@[k] == old(self).edge_dsts@[k]);
                        assert(final(self).has_channel(s, d));
                    }
                    if final(self).has_channel(s, d) {
                        let k = choose|k: int|
                            0 <= k < self.edges@.len() && (#[trigger] self.edge_srcs@[k])@ == s
                                && self.edge_dsts@[k]@ == d;
                        if k < old(self).edges@.len() {
                            assert(self.edge_srcs@[k] == old(self).edge_srcs@[k]);
                            assert(self.edge_dsts@[k] == old(self).edge_dsts@[k]);
                            assert(old(self).has_channel(s, d));
                        } else if k == n0 {
                            assert(s == left@ && d == right@);
                        } else {
                            assert(s == right@ && d == left@);
                        }
                    }
                }
            }
        } else {
            proof {
                assert forall|s: Seq<char>, d: Seq<char>|
                    #[trigger] final(self).has_channel(s, d) <==> (old(self).has_channel(s, d)
                        || (s == left@ && d == right@)) by {
                    if old(self).has_channel(s, d) {
                        let k = choose|k: int|
                            0 <= k < old(self).edges@.len() && (#[trigger] old(
                                self,
                            ).edge_srcs@[k])@ == s && old(self).edge_dsts@[k]@ == d;
                        assert(self.edge_srcs@[k] == old(self).edge_srcs@[k]);
                        assert(self.edge_dsts@[k] == old(self).edge_dsts@[k]);
                        assert(final(self).has_channel(s, d));
                    }
                    if final(self).has_channel(s, d) {
                        let k = choose|k: int|
                            0 <= k < self.edges@.len() && (#[trigger] self.edge_srcs@[k])@ == s
                                && self.edge_dsts@[k]@ == d;
                        if k < old(self).edges@.len() {
                            assert(self.edge_srcs@[k] == old(self).edge_srcs@[k]);
                            assert(self.edge_dsts@[k] == old(self).edge_dsts@[k]);
                            assert(old(self).has_channel(s, d));
                        } else {
                            assert(s == left@ && d == right@);
                        }
                    }
                }
            }
        }
    }

    /// Injects one message straight into an element, bypassing the channels;
    /// seed traffic enters a run this way.
    pub fn insert_rpc(&mut self, target: &str, rpc: Rpc) -> (r: Result<(), SimError>)
        requires
            old(self).wf(),
            rpc.wf(),
            old(self).has_element(target@),
        ensures
            final(self).wf(),
            final(self).ids == old(self).ids,
            final(self).seed == old(self).seed,
            final(self).edges == old(self).edges,
            final(self).edge_srcs == old(self).edge_srcs,
            final(self).edge_dsts == old(self).edge_dsts,
            final(self).elements@.len() == old(self).elements@.len(),
            forall|j: int|
                0 <= j < old(self).elements@.len() && j != id_index(old(self).ids@, target@)
                    ==> final(self).elements@[j] == old(self).elements@[j],
            recv_step(
                old(self).elements@[id_index(old(self).ids@, target@)],
                final(self).elements@[id_index(old(self).ids@, target@)],
                rpc,
                r is Ok,
            ),
            (r is Err && r->Err_0 is UidExhausted) ==> final(self).uids.next > u64::MAX - 4,
    {
        proof {
            lemma_id_index_props(self.ids@, target@);
        }
        match self.find_index(target) {
            Some(i) => {
                let el = element_mut(&mut self.elements, i);
                el.recv(rpc, 0, &mut self.uids)
            },
            None => {
                proof {
                    assert(false);
                }
                Ok(())
            },
        }
    }

    /// The store's log under the given identity, or nothing when no store is
    /// registered there.
    pub fn query_storage(&self, storage_id: &str) -> (r: Option<String>)
        requires
            self.wf(),
        ensures
            match r {
                Some(s) => id_index(self.ids@, storage_id@) >= 0 && self.elements@[id_index(
                    self.ids@,
                    storage_id@,
                )] is Storage && s@ == self.elements@[id_index(self.ids@, storage_id@)]->Storage_0.data@,
                None => !(id_index(self.ids@, storage_id@) >= 0 && self.elements@[id_index(
                    self.ids@,
                    storage_id@,
                )] is Storage),
            },
    {
        match self.find_index(storage_id) {
            None => None,
            Some(i) => {
                proof {
                    lemma_id_index_props(self.ids@, storage_id@);
                }
                match &self.elements[i] {
                    Element::Storage(s) => Some(s.query()),
                    _ => None,
                }
            },
        }
    }

    /// The node registered under the identity, if that element is a node.
    pub fn get_node(&self, id: &str) -> (r: Option<&Node>)
        requires
            self.wf(),
        ensures
            match r {
                Some(n) => id_index(self.ids@, id@) >= 0 && self.elements@[id_index(self.ids@, id@)]
                    == Element::Node(*n),
                None => !(id_index(self.ids@, id@) >= 0 && self.elements@[id_index(
                    self.ids@,
                    id@,
                )] is Node),
            },
    {
        match self.find_index(id) {
            None => None,
            Some(i) => {
                proof {
                    lemma_id_index_props(self.ids@, id@);
                }
                match &self.elements[i] {
                    Element::Node(n) => Some(n),
                    _ => None,
                }
            },
        }
    }

    /// The store registered under the identity, if that element is a store.
    pub fn get_storage(&self, id: &str) -> (r: Option<&Storage>)
        requires
            self.wf(),
        ensures
            match r {
                Some(s) => id_index(self.ids@, id@) >= 0 && self.elements@[id_index(self.ids@, id@)]
                    == Element::Storage(*s),
                None => !(id_index(self.ids@, id@) >= 0 && self.elements@[id_index(
                    self.ids@,
                    id@,
                )] is Storage),
            },
    {
        match self.find_index(id) {
            None => None,
            Some(i) => {
                proof {
                    lemma_id_index_props(self.ids@, id@);
                }
                match &self.elements[i] {
                    Element::Storage(s) => Some(s),
                    _ => None,
                }
            },
        }
    }

    fn find_channel(&self, src: &str, dst: &str) -> (r: Option<usize>)
        requires
            self.wf(),
        ensures
            match r {
                Some(k) => 0 <= k < self.edges@.len() && self.edge_srcs@[k as int]@ == src@
                    && self.edge_dsts@[k as int]@ == dst@,
                None => !self.has_channel(src@, dst@),
            },
    {
        let n = self.edges.len();
        let mut k: usize = 0;
        while k < n
            invariant
                0 <= k <= n,
                n == self.edges@.len(),
                self.wf(),
                forall|j: int|
                    0 <= j < k ==> !((#[trigger] self.edge_srcs@[j])@ == src@
                        && self.edge_dsts@[j]@ == dst@),
            decreases n - k,
        {
            if str_eq(self.edge_srcs[k].as_str(), src) && str_eq(
                self.edge_dsts[k].as_str(),
                dst,
            ) {
                return Some(k);
            }
            k = k + 1;
        }
        None
    }

    /// One global step, in three strict phases.  First every element produces
    /// its outputs for this tick; then every produced message is relayed into
    /// the channel joining its claimed source and destination; finally every
    /// channel releases what is due and the released messages are delivered.
    /// A produced message claiming a pair no channel joins, or a released
    /// message naming no registered element, is a fatal protocol violation.
    pub fn tick(&mut self, tick: u64) -> (r: Result<(), SimError>)
        requires
            old(self).wf(),
        ensures
            final(self).wf(),
            final(self).ids == old(self).ids,
            final(self).edge_srcs == old(self).edge_srcs,
            final(self).edge_dsts == old(self).edge_dsts,
            final(self).seed == old(self).seed,
            final(self).elements@.len() == old(self).elements@.len(),
            final(self).edges@.len() == old(self).edges@.len(),
            old(self).quiescent() ==> r is Ok && final(self).elements@ == old(self).elements@
                && final(self).edges@ == old(self).edges@ && final(self).uids == old(self).uids,
            r is Ok ==> forall|x: int|
                0 <= x < old(self).elements@.len() ==> stepped_and_delivered(
                    #[trigger] old(self).elements@[x],
                    final(self).elements@[x],
                ),
            r is Ok ==> forall|kk: int|
                0 <= kk < final(self).edges@.len() ==> head_due_later(
                    #[trigger] final(self).edges@[kk],
                    tick,
                ),
            r is Err ==> !old(self).quiescent(),
            r is Err ==> !(r->Err_0 is UnknownElement),
            (r is Err && r->Err_0 is UidExhausted) ==> final(self).uids.next > u64::MAX - 4,
    {
        // Produce: every element speaks for this tick before anything moves.
        let mut produced: Vec<Rpc> = Vec::new();
        let n = self.elements.len();
        let mut i: usize = 0;
        while i < n
            invariant
                0 <= i <= n,
                n == self.elements@.len(),
                self.wf(),
                self.ids == old(self).ids,
                self.edge_srcs == old(self).edge_srcs,
                self.edge_dsts == old(self).edge_dsts,
                self.edges == old(self).edges,
                self.seed == old(self).seed,
                self.elements@.len() == old(self).elements@.len(),
                forall|j: int| 0 <= j < produced@.len() ==> (#[trigger] produced@[j]).wf(),
                forall|x: int| i <= x < n ==> self.elements@[x] == old(self).elements@[x],
                forall|x: int|
                    0 <= x < i ==> stepped_and_delivered(
                        #[trigger] old(self).elements@[x],
                        self.elements@[x],
                    ),
                old(self).quiescent() ==> produced@.len() == 0 && self.elements@ == old(
                    self,
                ).elements@ && self.uids == old(self).uids,
            decreases n - i,
        {
            proof {
                if old(self).quiescent() {
                    assert(old(self).elements@[i as int].quiescent());
                }
            }
            let el = element_mut(&mut self.elements, i);
            let outs = match el.tick(tick, &mut self.uids) {
                Ok(o) => o,
                Err(e) => {
                    return Err(e);
                },
            };
            proof {
                if old(self).quiescent() {
                    assert(self.elements@ =~= old(self).elements@);
                }
                assert(stepped_and_delivered(
                    old(self).elements@[i as int],
                    self.elements@[i as int],
                ));
            }
            let mut outs = outs;
            while outs.len() > 0
                invariant
                    forall|j: int| 0 <= j < outs@.len() ==> (#[trigger] outs@[j]).wf(),
                    forall|j: int| 0 <= j < produced@.len() ==> (#[trigger] produced@[j]).wf(),
                    old(self).quiescent() ==> produced@.len() == 0 && outs@.len() == 0,
                decreases outs@.len(),
            {
                let rpc = outs.remove(0);
                produced.push(rpc);
            }
            i = i + 1;
        }
        // Relay in: every produced message enters the channel joining its
        // claimed source and destination.
        while produced.len() > 0
            invariant
                self.wf(),
                self.ids == old(self).ids,
                self.edge_srcs == old(self).edge_srcs,
                self.edge_dsts == old(self).edge_dsts,
                self.seed == old(self).seed,
                self.elements@.len() == old(self).elements@.len(),
                self.edges@.len() == old(self).edges@.len(),
                forall|j: int| 0 <= j < produced@.len() ==> (#[trigger] produced@[j]).wf(),
                forall|x: int|
                    0 <= x < old(self).elements@.len() ==> stepped_and_delivered(
                        #[trigger] old(self).elements@[x],
                        self.elements@[x],
                    ),
                old(self).quiescent() ==> produced@.len() == 0 && self.elements@ == old(
                    self,
                ).elements@ && self.edges@ == old(self).edges@ && self.uids == old(self).uids,
            decreases produced@.len(),
        {
            let rpc = produced.remove(0);
            let src: String = match rpc.headers.get("src") {
                Some(s) => s.clone(),
                None => {
                    return Err(
                        SimError::MissingHeader {
                            element: "simulator".to_owned(),
                            header: "src".to_owned(),
                        },
                    );
                },
            };
            let dst: String = match rpc.headers.get("dest") {
                Some(d) => d.clone(),
                None => {
                    return Err(
                        SimError::MissingHeader {
                            element: "simulator".to_owned(),
                            header: "dest".to_owned(),
                        },
                    );
                },
            };
            let k = match self.find_channel(src.as_str(), dst.as_str()) {
                Some(k) => k,
                None => {
                    return Err(SimError::NoChannel { src, dest: dst });
                },
            };
            let ghost edges_pre = self.edges@;
            let ch = channel_mut(&mut self.edges, k);
            ch.enqueue(rpc, tick);
            proof {
                assert forall|kk: int, j: int|
                    0 <= kk < self.edges@.len() && 0 <= j < (
                #[trigger] self.edges@[kk]).queue.elems().len() implies ({
                    let h = (#[trigger] self.edges@[kk].queue.elems()[j]).rpc@.headers;
                    &&& h.contains_key("src"@) && h["src"@] == self.edge_srcs@[kk]@
                    &&& h.contains_key("dest"@) && h["dest"@] == self.edge_dsts@[kk]@
                }) by {
                    if kk == k as int {
                        if j < self.edges@[kk].queue.elems().len() - 1 {
                            assert(self.edges@[kk].queue.elems()[j]
                                == edges_pre[kk].queue.elems()[j]);
                        }
                    } else {
                        assert(self.edges@[kk] == edges_pre[kk]);
                    }
                }
            }
        }
        // Deliver: every channel releases what is due, and each released
        // message reaches the element its destination tag names.
        let m = self.edges.len();
        let mut k: usize = 0;
        while k < m
            invariant
                0 <= k <= m,
                m == self.edges@.len(),
                self.wf(),
                self.ids == old(self).ids,
                self.edge_srcs == old(self).edge_srcs,
                self.edge_dsts == old(self).edge_dsts,
                self.seed == old(self).seed,
                self.elements@.len() == old(self).elements@.len(),
                self.edges@.len() == old(self).edges@.len(),
                forall|x: int|
                    0 <= x < old(self).elements@.len() ==> stepped_and_delivered(
                        #[trigger] old(self).elements@[x],
                        self.elements@[x],
                    ),
                forall|kk: int| 0 <= kk < k ==> head_due_later(#[trigger] self.edges@[kk], tick),
                old(self).quiescent() ==> self.elements@ == old(self).elements@ && self.edges@
                    == old(self).edges@ && self.uids == old(self).uids,
            decreases m - k,
        {
            proof {
                if old(self).quiescent() {
                    assert(old(self).edges@[k as int].queue.elems().len() == 0);
                }
            }
            let ghost edges_pre3 = self.edges@;
            let ch = channel_mut(&mut self.edges, k);
            let released = match ch.dequeue(tick) {
                Ok(o) => o,
                Err(e) => {
                    proof {
                        let m = choose|m: int|
                            0 <= m <= edges_pre3[k as int].queue.elems().len()
                                && self.edges@[k as int].queue.elems() == edges_pre3[
                            k as int].queue.elems().skip(m);
                        assert forall|kk: int, j: int|
                            0 <= kk < self.edges@.len() && 0 <= j < (
                        #[trigger] self.edges@[kk]).queue.elems().len() implies ({
                            let h = (#[trigger] self.edges@[kk].queue.elems()[j]).rpc@.headers;
                            &&& h.contains_key("src"@) && h["src"@] == self.edge_srcs@[kk]@
                            &&& h.contains_key("dest"@) && h["dest"@] == self.edge_dsts@[kk]@
                        }) by {
                            if kk == k as int {
                                assert(self.edges@[kk].queue.elems()[j]
                                    == edges_pre3[kk].queue.elems()[j + m]);
                            } else {
                                assert(self.edges@[kk] == edges_pre3[kk]);
                            }
                        }
                    }
                    return Err(e);
                },
            };
            proof {
                if old(self).quiescent() {
                    assert(self.edges@ =~= old(self).edges@);
                }
                assert(head_due_later(self.edges@[k as int], tick));
                assert forall|j: int|
                    0 <= j < released@.len() implies (#[trigger] released@[j])@.headers.contains_key("dest"@) && released@[j]@.headers["dest"@] == self.edge_dsts@[k as int]@ by {
                    assert(released@[j] == edges_pre3[k as int].queue.elems()[j].rpc);
                }
                assert forall|kk: int, j: int|
                    0 <= kk < self.edges@.len() && 0 <= j < (
                #[trigger] self.edges@[kk]).queue.elems().len() implies ({
                    let h = (#[trigger] self.edges@[kk].queue.elems()[j]).rpc@.headers;
                    &&& h.contains_key("src"@) && h["src"@] == self.edge_srcs@[kk]@
                    &&& h.contains_key("dest"@) && h["dest"@] == self.edge_dsts@[kk]@
                }) by {
                    if kk == k as int {
                        assert(self.edges@[kk].queue.elems()[j]
                            == edges_pre3[kk].queue.elems()[j + released@.len()]);
                    } else {
                        assert(self.edges@[kk] == edges_pre3[kk]);
                    }
                }
            }
            let mut released = released;
            while released.len() > 0
                invariant
                    self.wf(),
                    self.ids == old(self).ids,
                    self.edge_srcs == old(self).edge_srcs,
                    self.edge_dsts == old(self).edge_dsts,
                    self.seed == old(self).seed,
                    self.elements@.len() == old(self).elements@.len(),
                    self.edges@.len() == old(self).edges@.len(),
                    forall|j: int| 0 <= j < released@.len() ==> (#[trigger] released@[j]).wf(),
                    k < m,
                    m == self.edges@.len(),
                    forall|j: int|
                        0 <= j < released@.len() ==> (#[trigger] released@[j])@.headers.contains_key("dest"@) && released@[j]@.headers["dest"@] == self.edge_dsts@[k as int]@,
                    forall|x: int|
                        0 <= x < old(self).elements@.len() ==> stepped_and_delivered(
                            #[trigger] old(self).elements@[x],
                            self.elements@[x],
                        ),
                    forall|kk: int|
                        0 <= kk <= k ==> head_due_later(#[trigger] self.edges@[kk], tick),
                    old(self).quiescent() ==> released@.len() == 0 && self.elements@ == old(
                        self,
                    ).elements@ && self.edges@ == old(self).edges@ && self.uids == old(self).uids,
                decreases released@.len(),
            {
                let ghost rel_pre = released@;
                let rpc = released.remove(0);
                proof {
                    rel_pre.remove_ensures(0);
                }
                let dst: String = match rpc.headers.get("dest") {
                    Some(d) => d.clone(),
                    None => {
                        // dead: every released message carries the channel's
                        // destination tag
                        assert(false);
                        return Err(
                            SimError::MissingHeader {
                                element: "simulator".to_owned(),
                                header: "dest".to_owned(),
                            },
                        );
                    },
                };
                let di = match self.find_index(dst.as_str()) {
                    Some(di) => di,
                    None => {
                        // dead: every channel endpoint is a registered element
                        proof {
                            assert(rpc == rel_pre[0]);
                            assert(dst@ == self.edge_dsts@[k as int]@);
                            lemma_edges_wired_at(
                                self.ids@,
                                self.edge_srcs@,
                                self.edge_dsts@,
                                k as int,
                            );
                        }
                        assert(false);
                        return Err(SimError::UnknownElement { id: dst });
                    },
                };
                proof {
                    lemma_id_index_props(self.ids@, dst@);
                    assert(self.elements@[di as int].wf());
                }
                let ghost els_pre = self.elements@;
                let el = element_mut(&mut self.elements, di);
                match el.recv(rpc, tick, &mut self.uids) {
                    Ok(()) => (),
                    Err(e) => {
                        return Err(e);
                    },
                }
                proof {
                    assert forall|x: int|
                        0 <= x < old(self).elements@.len() implies stepped_and_delivered(
                        #[trigger] old(self).elements@[x],
                        self.elements@[x],
                    ) by {
                        if x == di as int {
                            let e_old = old(self).elements@[x];
                            let e_pre = els_pre[x];
                            let e_new = self.elements@[x];
                            assert(stepped_and_delivered(e_old, e_pre));
                            assert(recv_step(e_pre, e_new, rpc, true));
                            if e_old is Storage {
                                lemma_prefix_trans(
                                    e_old->Storage_0.data@,
                                    e_pre->Storage_0.data@,
                                    e_new->Storage_0.data@,
                                );
                            }
                        } else {
                            assert(self.elements@[x] == els_pre[x]);
                        }
                    }
                }
            }
            k = k + 1;
        }
        Ok(())
    }
}

proof fn lemma_id_index_at(ids: Seq<String>, id: Seq<char>, k: int)
    requires
        ids_distinct(ids),
        0 <= k < ids.len(),
        ids[k]@ == id,
    ensures
        id_index(ids, id) == k,
    decreases ids.len(),
{
    if k == 0 {
    } else {
        assert(ids[0]@ != id);
        assert(ids_distinct(ids.drop_first())) by {
            assert forall|i: int, j: int|
                0 <= i < ids.drop_first().len() && 0 <= j < ids.drop_first().len() && i
                    != j implies (#[trigger] ids.drop_first()[i])@ != (
            #[trigger] ids.drop_first()[j])@ by {
                assert(ids.drop_first()[i] == ids[i + 1]);
                assert(ids.drop_first()[j] == ids[j + 1]);
            }
        }
        assert(ids.drop_first()[k - 1] == ids[k]);
        lemma_id_index_at(ids.drop_first(), id, k - 1);
    }
}

proof fn lemma_keys_distinct_push(
    srcs0: Seq<String>,
    dsts0: Seq<String>,
    srcs1: Seq<String>,
    dsts1: Seq<String>,
    s: Seq<char>,
    d: Seq<char>,
)
    requires
        srcs0.len() == dsts0.len(),
        keys_distinct(srcs0, dsts0),
        !(exists|k: int|
            0 <= k < srcs0.len() && (#[trigger] srcs0[k])@ == s && dsts0[k]@ == d),
        srcs1.len() == srcs0.len() + 1,
        dsts1.len() == dsts0.len() + 1,
        forall|k: int| 0 <= k < srcs0.len() ==> #[trigger] srcs1[k] == srcs0[k],
        forall|k: int| 0 <= k < dsts0.len() ==> #[trigger] dsts1[k] == dsts0[k],
        srcs1[srcs1.len() - 1]@ == s,
        dsts1[dsts1.len() - 1]@ == d,
    ensures
        keys_distinct(srcs1, dsts1),
{
    assert forall|i: int, j: int|
        0 <= i < srcs1.len() && 0 <= j < srcs1.len() && i != j implies !((
    #[trigger] srcs1[i])@ == (#[trigger] srcs1[j])@ && dsts1[i]@ == dsts1[j]@) by {
        if i == srcs1.len() - 1 {
            if srcs1[j]@ == s && dsts1[j]@ == d {
                assert(srcs0[j]@ == s && dsts0[j]@ == d);
            }
        } else if j == srcs1.len() - 1 {
            if srcs1[i]@ == s && dsts1[i]@ == d {
                assert(srcs0[i]@ == s && dsts0[i]@ == d);
            }
        } else {
            assert(srcs1[i] == srcs0[i]);
            assert(srcs1[j] == srcs0[j]);
            assert(dsts1[i] == dsts0[i]);
            assert(dsts1[j] == dsts0[j]);
        }
    }
}

} // verus!
