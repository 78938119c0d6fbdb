use meshsim::bookinfo::{new_gateway, new_leaf, new_product_page, new_reviews};
use meshsim::channel::Channel;
use meshsim::error::SimError;
use meshsim::filter::{FilterKind, FilterSlot};
use meshsim::node::Node;
use meshsim::rpc::Rpc;
use meshsim::storage::Storage;
use meshsim::UidAllocator;

#[test]
fn node_test_node_creation() {
    let _node = Node::new("0", 2, 2, 1, None, 1);
}

#[test]
fn node_test_node_capacity_and_egress_rate() {
    let mut uids = UidAllocator::new();
    let mut node = Node::new("0", 2, 1, 0, None, 1);
    // without at least one neighbor, it will just drop rpcs
    node.add_connection("foo".to_string());
    assert!(node.capacity == 2);
    assert!(node.egress_rate == 1);
    node.recv(Rpc::new_rpc("0", &mut uids), 0, &mut uids).unwrap();
    node.recv(Rpc::new_rpc("0", &mut uids), 0, &mut uids).unwrap();
    assert!(node.get_ingress_queue().size() == 2);
    node.recv(Rpc::new_rpc("0", &mut uids), 0, &mut uids).unwrap();
    assert!(node.get_ingress_queue().size() == 2);
    node.tick(0, &mut uids).unwrap();
    assert!(node.get_ingress_queue().size() == 1);
}

#[test]
fn node_test_plugin_initialization() {
    let node = Node::new("0", 2, 1, 0, Some(FilterKind::Count), 1);
    assert!(!node.plugin.is_none());
}

#[test]
fn gateway_test_node_creation() {
    let _node = new_gateway("0", 2, 2, 1, 1);
}

#[test]
fn gateway_test_node_capacity_and_egress_rate() {
    let mut uids = UidAllocator::new();
    let mut node = new_gateway("0", 2, 1, 0, 1);
    // without at least one neighbor, it will just drop rpcs
    node.add_connection("foo".to_string());
    assert!(node.capacity == 2);
    assert!(node.egress_rate == 1);
    node.enqueue_ingress(Rpc::new_rpc("0", &mut uids), 0);
    node.enqueue_ingress(Rpc::new_rpc("0", &mut uids), 0);
    assert!(node.get_ingress_queue().size() == 2);
    node.recv(Rpc::new_rpc("0", &mut uids), 0, &mut uids).unwrap();
    assert!(node.get_ingress_queue().size() == 2);
    let outbound_rpcs = node.tick(0, &mut uids).unwrap();
    assert!(outbound_rpcs.len() == 1);
}

#[test]
fn leafnode_test_node_creation() {
    let _node = new_leaf("0", 2, 2, None);
}

#[test]
fn leafnode_test_node_capacity_and_egress_rate() {
    let mut uids = UidAllocator::new();
    let mut node = new_leaf("0", 2, 1, None);
    // without at least one neighbor, it will just drop rpcs
    node.add_connection("foo".to_string());
    assert!(node.capacity == 2);
    assert!(node.egress_rate == 1);
    node.recv(Rpc::new_with_src("0", "gateway", &mut uids), 0, &mut uids).unwrap();
    node.recv(Rpc::new_with_src("0", "gateway", &mut uids), 0, &mut uids).unwrap();
    assert!(node.get_ingress_queue().size() == 2);
    node.recv(Rpc::new_with_src("0", "gateway", &mut uids), 0, &mut uids).unwrap();
    assert!(node.get_ingress_queue().size() == 2);
    node.tick(0, &mut uids).unwrap();
    assert!(node.get_ingress_queue().size() == 1);
}

#[test]
fn leafnode_test_plugin_initialization() {
    let node = new_leaf("0", 2, 1, Some(FilterKind::Count));
    assert!(!node.plugin.is_none());
}

#[test]
fn productpage_test_node_creation() {
    let _node = new_product_page("0", 2, 2, None, 0);
}

#[test]
fn productpage_test_node_capacity_and_egress_rate() {
    let mut uids = UidAllocator::new();
    let mut node = new_product_page("0", 2, 1, None, 0);
    // without at least one neighbor, it will just drop rpcs
    node.add_connection("foo".to_string());
    assert!(node.capacity == 2);
    assert!(node.egress_rate == 1);
    node.recv(Rpc::new_with_src("0", "gateway", &mut uids), 0, &mut uids).unwrap();
    node.recv(Rpc::new_with_src("0", "gateway", &mut uids), 0, &mut uids).unwrap();
    assert!(node.get_ingress_queue().size() == 2);
    node.recv(Rpc::new_with_src("0", "gateway", &mut uids), 0, &mut uids).unwrap();
    assert!(node.get_ingress_queue().size() == 2);
    node.tick(0, &mut uids).unwrap();
    assert!(node.get_egress_queue().size() == 3);
}

#[test]
fn productpage_test_plugin_initialization() {
    let node = new_product_page("0", 2, 1, Some(FilterKind::Count), 0);
    assert!(!node.plugin.is_none());
}

#[test]
fn reviews_test_node_creation() {
    let _node = new_reviews("0", 2, 2, None);
}

#[test]
fn reviews_test_node_capacity_and_egress_rate() {
    let mut uids = UidAllocator::new();
    let mut node = new_reviews("0", 2, 1, None);
    // without at least one neighbor, it will just drop rpcs
    node.add_connection("foo".to_string());
    assert!(node.capacity == 2);
    assert!(node.egress_rate == 1);
    node.recv(Rpc::new_with_src("0", "ratings-v1", &mut uids), 0, &mut uids).unwrap();
    node.recv(Rpc::new_with_src("0", "productpage-v1", &mut uids), 0, &mut uids).unwrap();
    assert!(node.get_ingress_queue().size() == 2);
    node.recv(Rpc::new_with_src("0", "productpage-v1", &mut uids), 0, &mut uids).unwrap();
    assert!(node.get_ingress_queue().size() == 2);
    node.tick(0, &mut uids).unwrap();
    assert!(node.get_egress_queue().size() == 1);
}

#[test]
fn reviews_test_plugin_initialization() {
    let node = new_reviews("0", 2, 1, Some(FilterKind::Count));
    assert!(!node.plugin.is_none());
}

#[test]
fn edge_test_edge() {
    let _edge = Channel::new("left", "right", 0);
}

#[test]
fn channel_test_channel() {
    let _channel = Channel::new("0", "1", 0);
}

#[test]
fn channel_delay_exactness() {
    let mut uids = UidAllocator::new();
    let mut channel = Channel::new("a", "b", 2);
    channel.enqueue(Rpc::new_rpc("x", &mut uids), 1);
    // not due before tick 3
    assert!(channel.dequeue(1).unwrap().is_empty());
    assert!(channel.dequeue(2).unwrap().is_empty());
    // due exactly at tick 1 + 2
    let released = channel.dequeue(3).unwrap();
    assert_eq!(released.len(), 1);
    assert_eq!(released[0].data, "x");
    // and gone afterwards
    assert!(channel.dequeue(3).unwrap().is_empty());
}

#[test]
fn channel_fifo_order() {
    let mut uids = UidAllocator::new();
    let mut channel = Channel::new("a", "b", 1);
    channel.enqueue(Rpc::new_rpc("first", &mut uids), 4);
    channel.enqueue(Rpc::new_rpc("second", &mut uids), 4);
    let released = channel.dequeue(5).unwrap();
    assert_eq!(released.len(), 2);
    assert_eq!(released[0].data, "first");
    assert_eq!(released[1].data, "second");
}

#[test]
fn channel_skipped_tick_is_fatal() {
    let mut uids = UidAllocator::new();
    let mut channel = Channel::new("a", "b", 1);
    channel.enqueue(Rpc::new_rpc("x", &mut uids), 1);
    // the message was due at tick 2; asking at tick 5 means ticks were skipped
    let r = channel.dequeue(5);
    assert!(matches!(r, Err(SimError::SkippedTick { .. })));
}

#[test]
fn storage_test_storage_creation() {
    let _storage = Storage::new("0", None);
}

#[test]
fn storage_test_query_storage() {
    let mut uids = UidAllocator::new();
    let mut storage = Storage::new("storage", None);
    let mut rpc = Rpc::new_rpc("0", &mut uids);
    rpc.headers.insert("dest", "storage");
    storage.recv(rpc, 0, &mut uids).unwrap();
    let ret = storage.query();
    assert!(ret == "0\n".to_string());
}

#[test]
fn test_storage_with_aggr() {
    // the aggregation filter keeps a running average
    let mut uids = UidAllocator::new();
    let mut storage = Storage::new("storage", Some(FilterKind::Average));
    let mut rpc = Rpc::new_rpc("4", &mut uids);
    rpc.headers.insert("dest", "storage");
    rpc.headers.insert("direction", "request");
    rpc.headers.insert("location", "ingress");
    storage.recv(rpc, 0, &mut uids).unwrap();
    assert!(
        storage.query() == "4\navg: 4\n".to_string(),
        "storage has {:?}",
        storage.query()
    );

    let mut rpc_2 = Rpc::new_rpc("2", &mut uids);
    rpc_2.headers.insert("dest", "storage");
    rpc_2.headers.insert("direction", "request");
    rpc_2.headers.insert("location", "ingress");
    storage.recv(rpc_2, 1, &mut uids).unwrap();
    assert!(
        storage.query() == "4\navg: 4\n2\navg: 3\n".to_string(),
        "storage has {:?}",
        storage.query()
    );
}

#[test]
fn storage_ignores_other_destinations() {
    let mut uids = UidAllocator::new();
    let mut storage = Storage::new("storage", None);
    let mut rpc = Rpc::new_rpc("0", &mut uids);
    rpc.headers.insert("dest", "elsewhere");
    storage.recv(rpc, 0, &mut uids).unwrap();
    assert_eq!(storage.query(), "");
}

#[test]
fn storage_accepts_composite_destination() {
    let mut uids = UidAllocator::new();
    let mut storage = Storage::new("storage", None);
    let mut rpc = Rpc::new_rpc("7", &mut uids);
    rpc.headers.insert("dest", "mirror+storage");
    storage.recv(rpc, 0, &mut uids).unwrap();
    assert_eq!(storage.query(), "7\n");
}

#[test]
fn plugin_wrapper_test_plugin_creation() {
    let mut uids = UidAllocator::new();
    let mut plugin = FilterSlot::new("0", FilterKind::Count);
    let mut rpc = Rpc::new_rpc("55", &mut uids);
    rpc.headers.insert("direction", "request");
    rpc.headers.insert("location", "ingress");
    let rpc_data = &plugin.execute(&rpc, &mut uids)[0].data;
    assert!(rpc_data == &"55".to_string());
}

#[test]
fn plugin_wrapper_test_chained_plugins() {
    let mut uids = UidAllocator::new();
    let mut plugin1 = FilterSlot::new("0", FilterKind::Count);
    let mut plugin2 = FilterSlot::new("1", FilterKind::Count);
    let mut plugin3 = FilterSlot::new("2", FilterKind::Count);
    let mut plugin4 = FilterSlot::new("3", FilterKind::Count);
    let mut rpc = Rpc::new_rpc("5", &mut uids);
    rpc.headers.insert("direction", "request");
    rpc.headers.insert("location", "ingress");
    let ret1 = plugin1.execute(&rpc, &mut uids);
    let ret2 = plugin2.execute(&ret1[0], &mut uids);
    let ret3 = plugin3.execute(&ret2[0], &mut uids);
    let ret4 = plugin4.execute(&ret3[0], &mut uids);
    assert!("5".to_string() == ret4[0].data);
}

#[test]
fn node_missing_source_is_fatal() {
    let mut uids = UidAllocator::new();
    let mut node = new_leaf("0", 2, 1, None);
    node.add_connection("foo".to_string());
    // a leaf must answer to the sender, so a message without one is a
    // protocol violation
    node.recv(Rpc::new_rpc("0", &mut uids), 0, &mut uids).unwrap();
    let r = node.tick(0, &mut uids);
    assert!(matches!(r, Err(SimError::MissingHeader { .. })));
}

#[test]
fn relay_invalid_source_is_fatal() {
    let mut uids = UidAllocator::new();
    let mut node = new_reviews("0", 2, 1, None);
    node.add_connection("foo".to_string());
    node.recv(Rpc::new_with_src("0", "stranger", &mut uids), 0, &mut uids).unwrap();
    let r = node.tick(0, &mut uids);
    assert!(matches!(r, Err(SimError::InvalidSource { .. })));
}

#[test]
fn random_node_without_neighbors_is_fatal() {
    let mut uids = UidAllocator::new();
    let mut node = Node::new("0", 2, 1, 0, None, 1);
    node.recv(Rpc::new_rpc("0", &mut uids), 0, &mut uids).unwrap();
    let r = node.tick(0, &mut uids);
    assert!(matches!(r, Err(SimError::NoNeighbors { .. })));
}

#[test]
fn uid_exhaustion_is_fatal() {
    let mut uids = UidAllocator::new();
    uids.next = u64::MAX;
    let mut node = Node::new("0", 2, 1, 0, Some(FilterKind::Count), 1);
    let rpc = Rpc {
        data: "0".to_string(),
        uid: 0,
        headers: meshsim::headers::Headers::new(),
        path: String::new(),
    };
    let r = node.recv(rpc, 0, &mut uids);
    assert!(matches!(r, Err(SimError::UidExhausted)));
}

#[test]
fn seeded_pick_is_reproducible() {
    let a = meshsim::rng::seeded_pick(7, 5);
    let b = meshsim::rng::seeded_pick(7, 5);
    assert!(a < 5);
    assert_eq!(a, b);
    assert_eq!(meshsim::rng::seeded_pick(7, 1), 0);
}

#[test]
fn node_egress_is_fifo() {
    let mut uids = UidAllocator::new();
    let mut node = Node::new("0", 5, 5, 0, None, 1);
    node.enqueue_egress(Rpc::new_rpc("first", &mut uids));
    node.enqueue_egress(Rpc::new_rpc("second", &mut uids));
    assert_eq!(node.dequeue_egress().unwrap().data, "first");
    assert_eq!(node.dequeue_egress().unwrap().data, "second");
    assert!(node.dequeue_egress().is_none());
}
