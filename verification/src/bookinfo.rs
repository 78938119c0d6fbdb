//! The reference seven-element mesh: an entry gateway, a scatter/gather
//! product page, three review relays, two mirroring leaves, and one store.
use crate::filter::FilterKind;
use crate::node::{Node, Policy};
use crate::simulator::Simulator;
use vstd::prelude::*;

verus! {

/// The mesh entry point: it forwards everything to the product page and
/// collects the responses that come back.
pub fn new_gateway(
    id: &str,
    capacity: u32,
    egress_rate: u32,
    generation_rate: u32,
    seed: u64,
) -> (r: Node)
    requires
        capacity >= 1,
    ensures
        r.wf(),
        r.id@ == id@,
        r.capacity == capacity,
        r.egress_rate == egress_rate,
        r.generation_rate == generation_rate,
        r.seed == seed,
        r.policy is FixedForward,
        r.policy->FixedForward_dest@ == "productpage-v1"@,
        r.occupied() == 0,
        r.collected_responses@.len() == 0,
        r.pending_rpcs@.len() == 0,
        r.neighbors@.len() == 0,
        r.plugin is None,
{
    let mut node = Node::new(id, capacity, egress_rate, generation_rate, None, seed);
    node.policy = Policy::FixedForward { dest: "productpage-v1".to_owned() };
    node
}

/// The scatter/gather stage: each gateway request fans out to one drawn
/// review service and to the details service, and the two replies merge into
/// one response for the gateway.
pub fn new_product_page(
    id: &str,
    capacity: u32,
    egress_rate: u32,
    plugin: Option<FilterKind>,
    seed: u64,
) -> (r: Node)
    requires
        capacity >= 1,
    ensures
        r.wf(),
        r.id@ == id@,
        r.capacity == capacity,
        r.egress_rate == egress_rate,
        r.generation_rate == 0,
        r.seed == seed,
        r.policy is ScatterGather,
        r.policy->ScatterGather_candidates@.len() == 3,
        r.policy->ScatterGather_candidates@[0]@ == "reviews-v1"@,
        r.policy->ScatterGather_candidates@[1]@ == "reviews-v2"@,
        r.policy->ScatterGather_candidates@[2]@ == "reviews-v3"@,
        r.policy->ScatterGather_secondary@ == "details-v1"@,
        r.policy->ScatterGather_upstream@ == "gateway"@,
        r.occupied() == 0,
        r.pending_rpcs@.len() == 0,
        r.collected_responses@.len() == 0,
        r.neighbors@.len() == 0,
        match (plugin, r.plugin) {
            (None, None) => true,
            (Some(kind), Some(slot)) => crate::node::fresh_filter(kind, id@, slot.filter),
            _ => false,
        },
{
    let mut node = Node::new(id, capacity, egress_rate, 0, plugin, seed);
    let mut candidates: Vec<String> = Vec::new();
    candidates.push("reviews-v1".to_owned());
    candidates.push("reviews-v2".to_owned());
    candidates.push("reviews-v3".to_owned());
    node.policy = Policy::ScatterGather {
        candidates,
        secondary: "details-v1".to_owned(),
        upstream: "gateway".to_owned(),
    };
    node
}

/// A review stage: requests from the product page go on to ratings, and
/// ratings' answers go back to the product page.
pub fn new_reviews(id: &str, capacity: u32, egress_rate: u32, plugin: Option<FilterKind>) -> (r:
    Node)
    requires
        capacity >= 1,
    ensures
        r.wf(),
        r.id@ == id@,
        r.capacity == capacity,
        r.egress_rate == egress_rate,
        r.generation_rate == 0,
        r.policy is Relay,
        r.policy->Relay_upstream@ == "productpage-v1"@,
        r.policy->Relay_downstream@ == "ratings-v1"@,
        r.occupied() == 0,
        r.pending_rpcs@.len() == 0,
        r.collected_responses@.len() == 0,
        r.neighbors@.len() == 0,
        match (plugin, r.plugin) {
            (None, None) => true,
            (Some(kind), Some(slot)) => crate::node::fresh_filter(kind, id@, slot.filter),
            _ => false,
        },
{
    let mut node = Node::new(id, capacity, egress_rate, 0, plugin, 0);
    node.policy = Policy::Relay {
        upstream: "productpage-v1".to_owned(),
        downstream: "ratings-v1".to_owned(),
    };
    node
}

/// A leaf stage: every message is answered straight back to its sender.
pub fn new_leaf(id: &str, capacity: u32, egress_rate: u32, plugin: Option<FilterKind>) -> (r:
    Node)
    requires
        capacity >= 1,
    ensures
        r.wf(),
        r.id@ == id@,
        r.capacity == capacity,
        r.egress_rate == egress_rate,
        r.generation_rate == 0,
        r.policy is Mirror,
        r.occupied() == 0,
        r.pending_rpcs@.len() == 0,
        r.collected_responses@.len() == 0,
        r.neighbors@.len() == 0,
        match (plugin, r.plugin) {
            (None, None) => true,
            (Some(kind), Some(slot)) => crate::node::fresh_filter(kind, id@, slot.filter),
            _ => false,
        },
{
    let mut node = Node::new(id, capacity, egress_rate, 0, plugin, 0);
    node.policy = Policy::Mirror;
    node
}

/// Builds the whole mesh: zero-delay links within it, one-tick links towards
/// the store, and both directions wired everywhere.
pub fn new_bookinfo(seed: u64, plugin: Option<FilterKind>, aggregation: Option<FilterKind>) -> (r:
    Simulator)
    ensures
        r.wf(),
        r.has_element("storage"@),
        r.has_element("gateway"@),
        r.has_element("productpage-v1"@),
        r.has_element("reviews-v1"@),
        r.has_element("reviews-v2"@),
        r.has_element("reviews-v3"@),
        r.has_element("details-v1"@),
        r.has_element("ratings-v1"@),
        r.has_channel("gateway"@, "productpage-v1"@),
        r.has_channel("productpage-v1"@, "gateway"@),
        r.has_channel("productpage-v1"@, "details-v1"@),
        r.has_channel("details-v1"@, "productpage-v1"@),
        r.has_channel("productpage-v1"@, "reviews-v1"@),
        r.has_channel("reviews-v1"@, "productpage-v1"@),
        r.has_channel("productpage-v1"@, "reviews-v2"@),
        r.has_channel("reviews-v2"@, "productpage-v1"@),
        r.has_channel("productpage-v1"@, "reviews-v3"@),
        r.has_channel("reviews-v3"@, "productpage-v1"@),
        r.has_channel("reviews-v1"@, "ratings-v1"@),
        r.has_channel("ratings-v1"@, "reviews-v1"@),
        r.has_channel("reviews-v2"@, "ratings-v1"@),
        r.has_channel("ratings-v1"@, "reviews-v2"@),
        r.has_channel("reviews-v3"@, "ratings-v1"@),
        r.has_channel("ratings-v1"@, "reviews-v3"@),
        r.has_channel("productpage-v1"@, "storage"@),
        r.has_channel("storage"@, "productpage-v1"@),
        r.has_channel("reviews-v1"@, "storage"@),
        r.has_channel("storage"@, "reviews-v1"@),
        r.has_channel("reviews-v2"@, "storage"@),
        r.has_channel("storage"@, "reviews-v2"@),
        r.has_channel("reviews-v3"@, "storage"@),
        r.has_channel("storage"@, "reviews-v3"@),
        r.has_channel("details-v1"@, "storage"@),
        r.has_channel("storage"@, "details-v1"@),
        r.has_channel("ratings-v1"@, "storage"@),
        r.has_channel("storage"@, "ratings-v1"@),
        r.uids.next == 0,
        r.seed == seed,
{
    proof {
        reveal_strlit("storage");
        reveal_strlit("gateway");
        reveal_strlit("productpage-v1");
        reveal_strlit("reviews-v1");
        reveal_strlit("reviews-v2");
        reveal_strlit("reviews-v3");
        reveal_strlit("details-v1");
        reveal_strlit("ratings-v1");
        assert("storage"@[0] != "gateway"@[0]);
        assert("reviews-v1"@[9] != "reviews-v2"@[9]);
        assert("reviews-v1"@[9] != "reviews-v3"@[9]);
        assert("reviews-v2"@[9] != "reviews-v3"@[9]);
        assert("reviews-v1"@[0] != "details-v1"@[0]);
        assert("reviews-v2"@[0] != "details-v1"@[0]);
        assert("reviews-v3"@[0] != "details-v1"@[0]);
        assert("reviews-v1"@[1] != "ratings-v1"@[1]);
        assert("reviews-v2"@[1] != "ratings-v1"@[1]);
        assert("reviews-v3"@[1] != "ratings-v1"@[1]);
        assert("details-v1"@[0] != "ratings-v1"@[0]);
    }
    let mut sim = Simulator::new(seed);

    let gateway = new_gateway("gateway", 5, 5, 0, seed);
    let productpage = new_product_page("productpage-v1", 5, 5, plugin, seed);
    let reviews1 = new_reviews("reviews-v1", 5, 5, plugin);
    let reviews2 = new_reviews("reviews-v2", 5, 5, plugin);
    let reviews3 = new_reviews("reviews-v3", 5, 5, plugin);
    let details = new_leaf("details-v1", 5, 5, plugin);
    let ratings = new_leaf("ratings-v1", 5, 5, plugin);
    sim.add_storage("storage", aggregation);

    sim.add_node("gateway", gateway);
    sim.add_node("productpage-v1", productpage);
    sim.add_node("reviews-v1", reviews1);
    sim.add_node("reviews-v2", reviews2);
    sim.add_node("reviews-v3", reviews3);
    sim.add_node("details-v1", details);
    sim.add_node("ratings-v1", ratings);

    sim.add_edge(0, "gateway", "productpage-v1", true);
    sim.add_edge(0, "productpage-v1", "details-v1", true);
    sim.add_edge(0, "productpage-v1", "reviews-v1", true);
    sim.add_edge(0, "productpage-v1", "reviews-v2", true);
    sim.add_edge(0, "productpage-v1", "reviews-v3", true);
    sim.add_edge(0, "reviews-v1", "ratings-v1", true);
    sim.add_edge(0, "reviews-v2", "ratings-v1", true);
    sim.add_edge(0, "reviews-v3", "ratings-v1", true);
    sim.add_edge(1, "productpage-v1", "storage", true);
    sim.add_edge(1, "reviews-v1", "storage", true);
    sim.add_edge(1, "reviews-v2", "storage", true);
    sim.add_edge(1, "reviews-v3", "storage", true);
    sim.add_edge(1, "details-v1", "storage", true);
    sim.add_edge(1, "ratings-v1", "storage", true);
    sim
}

} // verus!
