use std::collections::HashMap;

use forgekv::config::{Config, FsyncMode, ReplicationRole};
use forgekv::error::ConfigError;
use forgekv::protocol::ProtocolLimits;
use forgekv::time::Duration;

fn refused(name: &'static str, value: &str) -> String {
    let values = HashMap::from([(name, value.to_owned())]);
    Config::from_lookup(|name: &str| values.get(name).cloned())
        .expect_err("configuration should be refused")
        .message()
}

fn accepted(pairs: &[(&'static str, &str)]) -> Config {
    let values: HashMap<&str, String> = pairs
        .iter()
        .map(|(name, value)| (*name, (*value).to_owned()))
        .collect();
    Config::from_lookup(|name: &str| values.get(name).cloned())
        .expect("configuration should be accepted")
}

#[test]
fn defaults_are_safe() {
    let config = Config::from_lookup(|_: &str| None).expect("defaults should be valid");
    assert_eq!(config.port, 6380);
    assert_eq!(config.shards, 64);
    assert_eq!(config.fsync, FsyncMode::Always);
}

#[test]
fn rejects_invalid_shard_count() {
    let values = HashMap::from([("FORGEKV_SHARDS", "0".to_owned())]);
    let result = Config::from_lookup(|name: &str| values.get(name).cloned());
    assert!(result.is_err());
}

#[test]
fn rejects_unknown_fsync_mode() {
    let values = HashMap::from([("FORGEKV_FSYNC", "sometimes".to_owned())]);
    let result = Config::from_lookup(|name: &str| values.get(name).cloned());
    assert!(result.is_err());
}

#[test]
fn accepts_everysec_and_connection_limit() {
    let values = HashMap::from([
        ("FORGEKV_FSYNC", "everysec".to_owned()),
        ("FORGEKV_MAX_CONNECTIONS", "128".to_owned()),
    ]);
    let config = Config::from_lookup(|name: &str| values.get(name).cloned())
        .expect("v0.3 configuration should be valid");
    assert_eq!(config.fsync, FsyncMode::EverySecond);
    assert_eq!(config.max_connections, 128);
}

#[test]
fn rejects_excessive_connection_limit() {
    let values = HashMap::from([("FORGEKV_MAX_CONNECTIONS", usize::MAX.to_string())]);
    let result = Config::from_lookup(|name: &str| values.get(name).cloned());
    assert!(result.is_err());
}

#[test]
fn accepts_follower_replication_configuration() {
    let values = HashMap::from([
        ("FORGEKV_ROLE", "follower".to_owned()),
        ("FORGEKV_LEADER_ADDRESS", "leader:6381".to_owned()),
    ]);
    let config = Config::from_lookup(|name: &str| values.get(name).cloned())
        .expect("follower configuration should be valid");
    assert_eq!(config.replication_role, ReplicationRole::Follower);
    assert_eq!(config.leader_address, "leader:6381");
}

#[test]
fn the_default_is_what_no_setting_gives() {
    let config = Config::from_lookup(|_: &str| None).expect("defaults should be valid");
    assert_eq!(config, Config::default());
    assert_eq!(config.host, "127.0.0.1");
    assert_eq!(config.max_frame_size, 1_048_576);
    assert_eq!(config.expiration_interval, Duration::from_millis(1000));
    assert_eq!(config.replication_role, ReplicationRole::Standalone);
    assert!(!config.cluster_enabled);
    assert_eq!(config.cluster_virtual_nodes, 128);
}

#[test]
fn settings_are_taken_over() {
    let config = accepted(&[
        ("FORGEKV_HOST", "0.0.0.0"),
        ("FORGEKV_PORT", "7000"),
        ("FORGEKV_DATA_DIR", "/var/lib/forgekv"),
        ("FORGEKV_SHARDS", "8"),
        ("FORGEKV_FSYNC", "NONE"),
        ("FORGEKV_EXPIRATION_INTERVAL_MS", "250"),
    ]);
    assert_eq!(config.listen_address(), "0.0.0.0:7000");
    assert_eq!(config.data_dir, "/var/lib/forgekv");
    assert_eq!(config.shards, 8);
    assert_eq!(config.fsync, FsyncMode::Never);
    assert_eq!(config.fsync.as_str(), "none");
    assert_eq!(config.expiration_interval, Duration::from_millis(250));
}

#[test]
fn paths_lie_in_the_data_directory() {
    let config = accepted(&[("FORGEKV_DATA_DIR", "store")]);
    assert_eq!(config.wal_path(), "store/forgekv.wal");
    assert_eq!(config.snapshot_path(), "store/forgekv.snapshot");
    assert!(config.node_id_path().starts_with("store/"));
    assert!(config.wal_generation_path().starts_with("store/"));
    assert!(config.replication_state_path().starts_with("store/"));
}

#[test]
fn numbers_have_to_be_numbers() {
    assert_eq!(
        refused("FORGEKV_PORT", "65536"),
        "FORGEKV_PORT must be a valid valid positive integer, got \"65536\""
    );
    assert_eq!(
        refused("FORGEKV_SHARDS", "many\n"),
        "FORGEKV_SHARDS must be a valid valid positive integer, got \"many\\n\""
    );
    for value in ["", "-1", "1.5", " 1"] {
        assert!(matches!(
            Config::from_lookup(|name: &str| if name == "FORGEKV_PORT" {
                Some(value.to_owned())
            } else {
                None
            }),
            Err(ConfigError::InvalidValue {
                name: "FORGEKV_PORT",
                ..
            })
        ));
    }
    assert_eq!(accepted(&[("FORGEKV_PORT", "+7001")]).port, 7001);
}

#[test]
fn a_cluster_takes_no_part_in_replication() {
    let cluster = [
        ("FORGEKV_CLUSTER_ENABLED", "true"),
        ("FORGEKV_CLUSTER_NODE_ID", "node-a"),
        ("FORGEKV_CLUSTER_NODES", "node-a@127.0.0.1:6380,node-b@127.0.0.1:6382"),
    ];
    let config = accepted(&cluster);
    assert!(config.cluster_enabled);
    assert_eq!(config.cluster_node_id, "node-a");

    let mut values: HashMap<&str, String> = cluster
        .iter()
        .map(|(name, value)| (*name, (*value).to_owned()))
        .collect();
    values.insert("FORGEKV_ROLE", "leader".to_owned());
    assert!(matches!(
        Config::from_lookup(|name: &str| values.get(name).cloned()),
        Err(ConfigError::InvalidCombination(_))
    ));
}

#[test]
fn limits_follow_the_configuration() {
    let config = Config::default();
    let limits = ProtocolLimits::from(&config);
    assert_eq!(limits.max_frame_size, config.max_frame_size);
    assert_eq!(limits.max_key_size, config.max_key_size);
    assert_eq!(limits.max_value_size, config.max_value_size);
}

#[test]
fn keys_and_values_need_room() {
    for name in ["FORGEKV_MAX_KEY_SIZE", "FORGEKV_MAX_VALUE_SIZE"] {
        assert_eq!(
            refused(name, "0"),
            "FORGEKV_MAX_KEY_SIZE and FORGEKV_MAX_VALUE_SIZE must be greater than zero"
        );
    }
}

#[test]
fn each_setting_is_checked() {
    let texts = [
        (
            "FORGEKV_EXPIRATION_INTERVAL_MS",
            "0",
            "FORGEKV_EXPIRATION_INTERVAL_MS must be a valid positive integer milliseconds, got \"0\"",
        ),
        (
            "FORGEKV_FSYNC",
            "Sometimes",
            "FORGEKV_FSYNC must be a valid one of: always, everysec, none, got \"Sometimes\"",
        ),
        (
            "FORGEKV_MAX_CONNECTIONS",
            "1000001",
            "FORGEKV_MAX_CONNECTIONS must be a valid integer in 1..=1000000, got \"1000001\"",
        ),
        (
            "FORGEKV_METRICS_ENABLED",
            "yes",
            "FORGEKV_METRICS_ENABLED must be a valid true or false, got \"yes\"",
        ),
        (
            "FORGEKV_METRICS_HOST",
            " ",
            "FORGEKV_METRICS_HOST must be a valid non-empty host, got \" \"",
        ),
        (
            "FORGEKV_METRICS_PORT",
            "0",
            "FORGEKV_METRICS_PORT must be a valid port in 1..=65535, got \"0\"",
        ),
        (
            "FORGEKV_ROLE",
            "boss",
            "FORGEKV_ROLE must be a valid one of: standalone, leader, follower, got \"boss\"",
        ),
    ];
    for (name, value, text) in texts {
        assert_eq!(refused(name, value), text);
    }
}

#[test]
fn addresses_name_host_and_port() {
    let config = accepted(&[
        ("FORGEKV_METRICS_HOST", "10.0.0.1"),
        ("FORGEKV_METRICS_PORT", "9999"),
        ("FORGEKV_REPLICATION_HOST", "10.0.0.2"),
        ("FORGEKV_REPLICATION_PORT", "6999"),
    ]);
    assert_eq!(config.metrics_address(), "10.0.0.1:9999");
    assert_eq!(config.replication_address(), "10.0.0.2:6999");
}
