use std::collections::HashSet;

use bytes::Bytes;
use forgekv::cluster::ClusterTopology;
use forgekv::error::ConfigError;

fn key(text: &str) -> Bytes {
    Bytes::copy_from_slice(text.as_bytes())
}

fn message(id: &str, membership: &str, virtual_nodes: usize) -> String {
    ClusterTopology::new(id, membership, virtual_nodes)
        .expect_err("topology should be refused")
        .message()
}

#[test]
fn topology_is_independent_of_membership_order() {
    let first = ClusterTopology::new("node-a", "node-a@a:6380,node-b@b:6380", 32)
        .expect("topology should be valid");
    let second = ClusterTopology::new("node-a", "node-b@b:6380,node-a@a:6380", 32)
        .expect("topology should be valid");
    for name in ["alpha", "beta", "gamma", "delta"] {
        let key = Bytes::copy_from_slice(name.as_bytes());
        assert_eq!(first.owner(&key), second.owner(&key));
    }
}

#[test]
fn every_configured_node_owns_keys() {
    let topology = ClusterTopology::new(
        "node-a",
        "node-a@a:6380,node-b@b:6380,node-c@c:6380",
        128,
    )
    .expect("topology should be valid");
    let mut owners = HashSet::new();
    for index in 0..10_000 {
        let key = Bytes::from(format!("key-{index}"));
        owners.insert(topology.owner(&key).id().to_owned());
    }
    assert_eq!(owners.len(), 3);
}

#[test]
fn rejects_duplicate_nodes_and_missing_local_node() {
    assert!(ClusterTopology::new("node-a", "node-a@a:6380,node-a@b:6380", 32).is_err());
    assert!(ClusterTopology::new("node-c", "node-a@a:6380,node-b@b:6380", 32).is_err());
}

#[test]
fn adding_a_node_only_moves_keys_to_the_new_node() {
    let before = ClusterTopology::new("node-a", "node-a@a:6380,node-b@b:6380", 128)
        .expect("topology should be valid");
    let after = ClusterTopology::new(
        "node-a",
        "node-a@a:6380,node-b@b:6380,node-c@c:6380",
        128,
    )
    .expect("topology should be valid");
    let mut moved = 0;
    for index in 0..10_000 {
        let key = Bytes::from(format!("migration-key-{index}"));
        if before.owner(&key).id() != after.owner(&key).id() {
            moved += 1;
            assert_eq!(after.owner(&key).id(), "node-c");
        }
    }
    assert!(moved > 0);
}

#[test]
fn exactly_one_node_is_local_to_a_key() {
    let membership = "node-a@a:6380,node-b@b:6380,node-c@c:6380";
    let nodes: Vec<ClusterTopology> = ["node-a", "node-b", "node-c"]
        .iter()
        .map(|id| ClusterTopology::new(id, membership, 16).expect("topology should be valid"))
        .collect();
    for index in 0..500 {
        let key = key(&format!("local-{index}"));
        assert_eq!(nodes.iter().filter(|node| node.is_local(&key)).count(), 1);
        let owner = nodes[0].owner(&key).id().to_owned();
        for node in &nodes {
            assert_eq!(node.is_local(&key), node.local_node().id() == owner);
        }
    }
}

#[test]
fn a_single_node_owns_everything() {
    let topology = ClusterTopology::new("solo", "solo@localhost:1", 1).expect("valid topology");
    assert_eq!(topology.node_count(), 1);
    assert_eq!(topology.virtual_nodes(), 1);
    assert_eq!(topology.local_node().address(), "localhost:1");
    assert!(topology.is_local(&key("anything")));
    assert!(topology.is_local(&Bytes::new()));
}

#[test]
fn a_key_falls_to_the_next_point_of_the_ring() {
    // With one point each, the walk up from the key's hash meets the nearer point first.
    let a = forgekv::hash::fnv1a(b"node-a#0");
    let b = forgekv::hash::fnv1a(b"node-b#0");
    let topology =
        ClusterTopology::new("node-a", "node-a@a:1,node-b@b:1", 1).expect("valid topology");
    for index in 0..200 {
        let name = format!("walk-{index}");
        let hash = forgekv::hash::fnv1a(name.as_bytes());
        let expected = if a.wrapping_sub(hash) <= b.wrapping_sub(hash) {
            "node-a"
        } else {
            "node-b"
        };
        assert_eq!(topology.owner(&key(&name)).id(), expected);
    }
}

#[test]
fn virtual_node_counts_are_bounded() {
    let expected = "cluster virtual node count must be in 1..=4096";
    assert_eq!(message("a", "a@a:1", 0), expected);
    assert_eq!(message("a", "a@a:1", 4097), expected);
    assert!(ClusterTopology::new("a", "a@a:1", 4096).is_ok());
}

#[test]
fn the_local_node_has_to_be_a_member() {
    assert_eq!(
        message("node-c", "node-a@a:6380,node-b@b:6380", 32),
        "FORGEKV_CLUSTER_NODE_ID must appear in FORGEKV_CLUSTER_NODES"
    );
}

#[test]
fn memberships_are_checked() {
    let long_id = "x".repeat(65);
    let long_address = format!("{}:1", "h".repeat(254));
    let bad = [
        "".to_owned(),
        "node-a".to_owned(),
        "node-a@a".to_owned(),
        "node-a@a:".to_owned(),
        "node-a@:1".to_owned(),
        "node-a@a:0".to_owned(),
        "node-a@a:65536".to_owned(),
        "@a:1".to_owned(),
        "no de@a:1,node-a@b:1".to_owned(),
        format!("{long_id}@a:1,node-a@b:1"),
        format!("node-a@{long_address}"),
        "node-a@a:1,node-b@a:1".to_owned(),
    ];
    for membership in bad {
        assert!(
            ClusterTopology::new("node-a", &membership, 8).is_err(),
            "{membership}"
        );
    }
    assert!(matches!(
        ClusterTopology::new("node a", "node-a@a:1", 8),
        Err(ConfigError::InvalidValue { .. }) | Err(ConfigError::InvalidCombination(_))
    ));
    assert!(ClusterTopology::new("node-a", "node-a@a:65535,node.b_2@b:1", 8).is_ok());
}

#[test]
fn at_most_256_nodes_are_accepted() {
    let member = |index: usize| format!("n{index}@h{index}:1");
    let full: Vec<String> = (0..256).map(member).collect();
    let topology = ClusterTopology::new("n0", &full.join(","), 1).expect("256 nodes are fine");
    assert_eq!(topology.node_count(), 256);
    let more: Vec<String> = (0..257).map(member).collect();
    assert!(ClusterTopology::new("n0", &more.join(","), 1).is_err());
}

#[test]
fn the_hash_is_fnv_1a() {
    assert_eq!(forgekv::hash::fnv1a(b""), 0xcbf2_9ce4_8422_2325);
    assert_eq!(forgekv::hash::fnv1a(b"a"), 0xaf63_dc4c_8601_ec8c);
    assert_eq!(forgekv::hash::fnv1a(b"foobar"), 0x8594_4171_f739_67e8);
}
