use meshsim::aggregation::AggregationStruct;
use meshsim::example_filter::{codelet, count, Count, FilterImpl, State};
use meshsim::headers::Headers;
use meshsim::numstr::{parse_u64, u64_to_string};
use meshsim::rpc::Rpc;
use meshsim::strutil::{str_contains, str_eq};
use meshsim::UidAllocator;
use std::collections::HashMap;

#[test]
fn test_count_is_persistent() {
    let mut uids = UidAllocator::new();
    let mut envoy_prop: Vec<(String, String)> = Vec::new();
    envoy_prop.push(("WORKLOAD_NAME".to_string(), "HI".to_string()));
    let mut my_filter = FilterImpl::new_with_envoy_properties(&envoy_prop);

    let incoming_rpc = Rpc::new_rpc("1", &mut uids);
    my_filter.execute(&incoming_rpc);
    assert!(my_filter.filter_state.len() == 2);

    my_filter.execute(&incoming_rpc);
    my_filter.execute(&incoming_rpc);
    my_filter.execute(&incoming_rpc);
    let udf_counter = my_filter
        .filter_state
        .get("count")
        .unwrap()
        .udf_count
        .unwrap()
        .counter;
    assert!(udf_counter == 4, "Counter {} was not 4", udf_counter);
}

#[test]
fn test_count_is_persistent_hashmap_level() {
    let mut map = HashMap::new();
    let mut state = State::new();
    state.udf_count = Some(Count::new());
    map.insert("hi".to_string(), state);
    assert!(map.len() == 1);
    let state_ptr = map.get_mut("hi").unwrap();
    let count_ptr = state_ptr.udf_count.as_mut().unwrap();
    count_ptr.execute();
    count_ptr.execute();
    let udf_counter = map.get("hi").unwrap().udf_count.unwrap().counter;
    assert!(udf_counter == 2, "Counter {} was not 2", udf_counter);
}

#[test]
fn decimal_round_trip() {
    assert_eq!(u64_to_string(0), "0");
    assert_eq!(u64_to_string(7), "7");
    assert_eq!(u64_to_string(1234), "1234");
    assert_eq!(u64_to_string(u64::MAX), "18446744073709551615");
    assert_eq!(parse_u64("0"), Some(0));
    assert_eq!(parse_u64("0042"), Some(42));
    assert_eq!(parse_u64("18446744073709551615"), Some(u64::MAX));
}

#[test]
fn decimal_rejects_non_numbers() {
    assert_eq!(parse_u64(""), None);
    assert_eq!(parse_u64("12a"), None);
    assert_eq!(parse_u64("-4"), None);
    // one past the largest representable value
    assert_eq!(parse_u64("18446744073709551616"), None);
}

#[test]
fn string_search() {
    assert!(str_eq("abc", "abc"));
    assert!(!str_eq("abc", "abd"));
    assert!(str_contains("mirror+storage", "storage"));
    assert!(str_contains("storage", "storage"));
    assert!(!str_contains("store", "storage"));
    assert!(str_contains("anything", ""));
}

#[test]
fn headers_hold_bindings() {
    let mut h = Headers::new();
    assert!(!h.contains_key("dest"));
    h.insert("dest", "a");
    assert!(h.contains_key("dest"));
    assert_eq!(h.get("dest").unwrap(), "a");
    h.insert("dest", "b");
    assert_eq!(h.get("dest").unwrap(), "b");
    assert_eq!(h.len(), 1);
}

#[test]
fn duplicated_headers_are_independent() {
    // mutating one copy's destination must not affect a sibling copy
    let mut uids = UidAllocator::new();
    let mut original = Rpc::new_rpc("payload", &mut uids);
    original.headers.insert("dest", "left");
    let mut sibling = original.duplicate();
    sibling.headers.insert("dest", "right");
    assert_eq!(original.headers.get("dest").unwrap(), "left");
    assert_eq!(sibling.headers.get("dest").unwrap(), "right");
    assert_eq!(original.uid, sibling.uid);
}

#[test]
fn add_to_path_records_hops() {
    let mut uids = UidAllocator::new();
    let mut rpc = Rpc::new_rpc("payload", &mut uids);
    rpc.add_to_path("gateway");
    rpc.add_to_path("productpage-v1");
    assert_eq!(rpc.path, " gateway productpage-v1");
}

#[test]
fn uids_are_unique_and_increasing() {
    let mut uids = UidAllocator::new();
    let a = Rpc::new_rpc("x", &mut uids);
    let b = Rpc::new_rpc("x", &mut uids);
    let c = Rpc::new_with_src_dest("x", "s", "d", &mut uids);
    assert!(a.uid < b.uid && b.uid < c.uid);
    assert_eq!(c.headers.get("src").unwrap(), "s");
    assert_eq!(c.headers.get("dst").unwrap(), "d");
}

#[test]
fn sample_codelet_counts_hops() {
    let mut uids = meshsim::UidAllocator::new();
    let mut rpc = Rpc::new_rpc("4", &mut uids);
    rpc.headers.insert("src", "somewhere");
    let hopped = codelet(&rpc).unwrap();
    assert_eq!(hopped.data, "5");
    assert_eq!(hopped.uid, rpc.uid);
    assert_eq!(hopped.headers.get("src").unwrap(), "somewhere");
    let non_numeric = Rpc::new_rpc("payload", &mut uids);
    assert!(codelet(&non_numeric).is_none());
    assert_eq!(count(3), 4);
}

#[test]
fn aggregation_average() {
    let mut aggr = AggregationStruct::init();
    assert_eq!(aggr.return_value(), "0");
    aggr.input("4");
    assert_eq!(aggr.return_value(), "4");
    aggr.input("2");
    assert_eq!(aggr.return_value(), "3");
    assert_eq!(aggr.count, 2);
    assert_eq!(aggr.total, 6);
}
