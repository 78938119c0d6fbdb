use meshsim::bookinfo::new_bookinfo;
use meshsim::filter::FilterKind;
use meshsim::node::Node;
use meshsim::rpc::Rpc;
use meshsim::simulator::Simulator;

// Which reviews instance the product page draws depends on the random
// number library's locked version, so the checks below sum across the three
// reviews queues instead of naming one; that the draw itself is reproducible
// is covered by seeded_pick_is_reproducible and same_seed_same_run.
fn reviews_ingress_total(sim: &Simulator) -> usize {
    let mut total = 0;
    for id in ["reviews-v1", "reviews-v2", "reviews-v3"] {
        total += sim.get_node(id).unwrap().get_ingress_queue().size();
    }
    total
}

#[test]
fn check_bookinfo() {
    // Create simulator object.
    let mut simulator = new_bookinfo(0, Some(FilterKind::Count), None);

    // Execute the simulator
    let rpc = Rpc::new_rpc("0", &mut simulator.uids);
    simulator.insert_rpc("gateway", rpc).unwrap();

    // After the first tick, Productpage should receive a request
    simulator.tick(0).unwrap();
    let productpage: &Node = simulator.get_node("productpage-v1").unwrap();
    let product_ingress_size = productpage.get_ingress_queue().size();
    assert!(
        product_ingress_size == 1,
        "Expected 1 RPC in productpage queue, received {}",
        product_ingress_size
    );

    // Productpage fans out to one of the reviews services and to details
    simulator.tick(1).unwrap();
    let details = simulator.get_node("details-v1").unwrap();
    let details_ingress_size = details.get_ingress_queue().size();
    assert!(
        details_ingress_size == 1,
        "Expected 1 RPC in details ingress queue, received {}",
        details_ingress_size
    );
    assert!(
        reviews_ingress_total(&simulator) == 1,
        "Expected 1 RPC across the reviews queues, received {}",
        reviews_ingress_total(&simulator)
    );

    // The chosen reviews service forwards the request to Ratings
    simulator.tick(2).unwrap();
    let ratings = simulator.get_node("ratings-v1").unwrap();
    let ratings_ingress_size = ratings.get_ingress_queue().size();
    assert!(
        ratings_ingress_size == 1,
        "Expected 1 RPC in ratings ingress queue, received {}",
        ratings_ingress_size
    );

    // The answer from Ratings should be in the reviews queue now
    simulator.tick(3).unwrap();
    assert!(
        reviews_ingress_total(&simulator) == 1,
        "Expected 1 RPC across the reviews queues, received {}",
        reviews_ingress_total(&simulator)
    );

    // Productpage received a reply from both Details and Reviews.
    // It should now place a merged response in its queue and clear the
    // correlation table.
    simulator.tick(4).unwrap();
    let productpage = simulator.get_node("productpage-v1").unwrap();
    let product_ingress_size = productpage.get_ingress_queue().size();
    assert!(
        product_ingress_size == 1,
        "Expected 1 RPC in productpage ingress queue, received {}",
        product_ingress_size
    );
    assert!(productpage.pending_len() == 0, "Correlation table did not empty");

    // After 6 ticks we should have collected 1 response at the gateway
    simulator.tick(5).unwrap();
    let gateway = simulator.get_node("gateway").unwrap();
    let collected_rpcs = gateway.get_collected_responses();
    let response_num = collected_rpcs.len();
    assert!(
        response_num == 1,
        "Number of responses was {}",
        response_num
    );

    // Because of the filter, we should have a return value of 2 in storage
    // after one more tick
    simulator.tick(6).unwrap();
    let storage_val = simulator.query_storage("storage").unwrap();
    assert!(storage_val == "2\n", "storage contains {0}", storage_val);

    // Also check that we stay at one response
    for tick in 0..10 {
        simulator.tick(tick).unwrap();
    }
    let gateway = simulator.get_node("gateway").unwrap();
    let collected_rpcs = gateway.get_collected_responses();
    let response_num = collected_rpcs.len();
    assert!(
        response_num == 1,
        "Number of final responses was {}",
        response_num
    );
    let storage_val = simulator.query_storage("storage").unwrap();
    assert!(storage_val == "2\n", "storage contains {0}", storage_val);
}

fn run_once(seed: u64, ticks: u64) -> (String, usize) {
    let mut simulator = new_bookinfo(seed, Some(FilterKind::Count), None);
    let rpc = Rpc::new_rpc("0", &mut simulator.uids);
    simulator.insert_rpc("gateway", rpc).unwrap();
    for t in 0..ticks {
        simulator.tick(t).unwrap();
    }
    let log = simulator.query_storage("storage").unwrap();
    let collected = simulator.get_node("gateway").unwrap().get_collected_responses().len();
    (log, collected)
}

#[test]
fn same_seed_same_run() {
    // same topology, same seed, same injected traffic, same tick count:
    // the storage logs and collected responses agree bit for bit
    let first = run_once(42, 12);
    let second = run_once(42, 12);
    assert_eq!(first.0, second.0);
    assert_eq!(first.1, second.1);
}

#[test]
fn capacity_drop() {
    // a node with capacity 2 offered 3 RPCs in the same tick, before any
    // tick() call, buffers exactly 2 and drops the 3rd
    let mut uids = meshsim::UidAllocator::new();
    let mut node = Node::new("work", 2, 1, 0, None, 9);
    node.add_connection("peer".to_string());
    node.recv(Rpc::new_rpc("a", &mut uids), 0, &mut uids).unwrap();
    node.recv(Rpc::new_rpc("b", &mut uids), 0, &mut uids).unwrap();
    node.recv(Rpc::new_rpc("c", &mut uids), 0, &mut uids).unwrap();
    assert_eq!(node.get_ingress_queue().size() + node.get_egress_queue().size(), 2);
}

#[test]
fn simulator_missing_channel_is_fatal() {
    let mut simulator = Simulator::new(1);
    simulator.add_random_node("a", 5, 5, 0, None);
    simulator.add_random_node("b", 5, 5, 0, None);
    // wire the neighbor list without wiring a channel: routing then claims a
    // pair no channel joins
    simulator.add_connection("a", "b");
    let rpc = Rpc::new_rpc("0", &mut simulator.uids);
    simulator.insert_rpc("a", rpc).unwrap();
    let r = simulator.tick(0);
    assert!(matches!(r, Err(meshsim::error::SimError::NoChannel { .. })));
}

#[test]
fn generator_cannot_receive() {
    let mut simulator = Simulator::new(1);
    simulator.add_generator("source", 1);
    let rpc = Rpc::new_rpc("0", &mut simulator.uids);
    let r = simulator.insert_rpc("source", rpc);
    assert!(matches!(r, Err(meshsim::error::SimError::CannotReceive { .. })));
}

#[test]
fn generator_feeds_a_sink() {
    let mut simulator = Simulator::new(1);
    simulator.add_generator("source", 2);
    simulator.add_storage("sink", None);
    simulator.add_edge(1, "source", "sink", false);
    simulator.tick(0).unwrap();
    simulator.tick(1).unwrap();
    // two requests per tick, payload is the tick at which they were made;
    // the tick 1 payloads are still in flight when we look
    let log = simulator.query_storage("sink").unwrap();
    assert_eq!(log, "0\n0\n");
}
