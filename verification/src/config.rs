//! The configuration of a server.

use vstd::prelude::*;

use crate::cluster::topology::{topology_of, ClusterTopology};
use crate::error::{ConfigError, ConfigErrorView};
use crate::text::{
    chars_of, decimal, decimal_string, lowercase, lowered, parse_unsigned, push_decimal, same_text,
    trim, trimmed, unsigned_number,
};
use crate::time::Duration;

verus! {

/// The default limit of a frame's body.
pub const DEFAULT_MAX_FRAME_SIZE: usize = 1048576;

/// The default limit of a key.
pub const DEFAULT_MAX_KEY_SIZE: usize = 4096;

/// The default limit of a value.
pub const DEFAULT_MAX_VALUE_SIZE: usize = 1048576;

/// The default limit of a replication batch.
pub const DEFAULT_REPLICATION_MAX_BATCH_SIZE: usize = 4194304;

/// The default limit of a replication snapshot.
pub const DEFAULT_REPLICATION_MAX_SNAPSHOT_SIZE: usize = 268435456;

/// The default number of points that a cluster node has on the ring.
pub const DEFAULT_CLUSTER_VIRTUAL_NODES: usize = 128;

/// What a server does about replication.
#[derive(Clone, Copy, Debug, PartialEq, Eq, Structural)]
pub enum ReplicationRole {
    Standalone,
    Leader,
    Follower,
}

impl ReplicationRole {
    /// The name of the role.
    pub open spec fn text(self) -> Seq<char> {
        match self {
            ReplicationRole::Standalone => "standalone"@,
            ReplicationRole::Leader => "leader"@,
            ReplicationRole::Follower => "follower"@,
        }
    }

    /// The name of the role.
    pub fn as_str(self) -> (name: &'static str)
        ensures
            name@ == self.text(),
    {
        match self {
            ReplicationRole::Standalone => "standalone",
            ReplicationRole::Leader => "leader",
            ReplicationRole::Follower => "follower",
        }
    }
}

/// When appended records are forced to disk. `Never` leaves it to the operating system.
#[derive(Clone, Copy, Debug, PartialEq, Eq, Structural)]
pub enum FsyncMode {
    Always,
    EverySecond,
    Never,
}

impl FsyncMode {
    /// The name of the mode.
    pub open spec fn text(self) -> Seq<char> {
        match self {
            FsyncMode::Always => "always"@,
            FsyncMode::EverySecond => "everysec"@,
            FsyncMode::Never => "none"@,
        }
    }

    /// The name of the mode.
    pub fn as_str(self) -> (name: &'static str)
        ensures
            name@ == self.text(),
    {
        match self {
            FsyncMode::Always => "always",
            FsyncMode::EverySecond => "everysec",
            FsyncMode::Never => "none",
        }
    }
}

/// The configuration of a server.
#[derive(Clone, Debug, PartialEq, Eq)]
pub struct Config {
    pub host: String,
    pub port: u16,
    pub data_dir: String,
    pub shards: usize,
    pub max_frame_size: usize,
    pub max_key_size: usize,
    pub max_value_size: usize,
    pub expiration_interval: Duration,
    pub fsync: FsyncMode,
    pub max_connections: usize,
    pub wal_compaction_threshold_bytes: u64,
    pub metrics_enabled: bool,
    pub metrics_host: String,
    pub metrics_port: u16,
    pub replication_role: ReplicationRole,
    pub replication_host: String,
    pub replication_port: u16,
    pub leader_address: String,
    pub replication_interval: Duration,
    pub replication_max_batch_size: usize,
    pub replication_max_snapshot_size: usize,
    pub cluster_enabled: bool,
    pub cluster_node_id: String,
    pub cluster_nodes: String,
    pub cluster_virtual_nodes: usize,
}

/// A configuration with its texts as sequences of characters.
#[verifier::ext_equal]
pub struct ConfigView {
    pub host: Seq<char>,
    pub port: u16,
    pub data_dir: Seq<char>,
    pub shards: usize,
    pub max_frame_size: usize,
    pub max_key_size: usize,
    pub max_value_size: usize,
    pub expiration_interval: Duration,
    pub fsync: FsyncMode,
    pub max_connections: usize,
    pub wal_compaction_threshold_bytes: u64,
    pub metrics_enabled: bool,
    pub metrics_host: Seq<char>,
    pub metrics_port: u16,
    pub replication_role: ReplicationRole,
    pub replication_host: Seq<char>,
    pub replication_port: u16,
    pub leader_address: Seq<char>,
    pub replication_interval: Duration,
    pub replication_max_batch_size: usize,
    pub replication_max_snapshot_size: usize,
    pub cluster_enabled: bool,
    pub cluster_node_id: Seq<char>,
    pub cluster_nodes: Seq<char>,
    pub cluster_virtual_nodes: usize,
}

impl View for Config {
    type V = ConfigView;

    open spec fn view(&self) -> ConfigView {
        ConfigView {
            host: self.host@,
            port: self.port,
            data_dir: self.data_dir@,
            shards: self.shards,
            max_frame_size: self.max_frame_size,
            max_key_size: self.max_key_size,
            max_value_size: self.max_value_size,
            expiration_interval: self.expiration_interval,
            fsync: self.fsync,
            max_connections: self.max_connections,
            wal_compaction_threshold_bytes: self.wal_compaction_threshold_bytes,
            metrics_enabled: self.metrics_enabled,
            metrics_host: self.metrics_host@,
            metrics_port: self.metrics_port,
            replication_role: self.replication_role,
            replication_host: self.replication_host@,
            replication_port: self.replication_port,
            leader_address: self.leader_address@,
            replication_interval: self.replication_interval,
            replication_max_batch_size: self.replication_max_batch_size,
            replication_max_snapshot_size: self.replication_max_snapshot_size,
            cluster_enabled: self.cluster_enabled,
            cluster_node_id: self.cluster_node_id@,
            cluster_nodes: self.cluster_nodes@,
            cluster_virtual_nodes: self.cluster_virtual_nodes,
        }
    }
}

/// The configuration of a server that nothing was configured for.
pub open spec fn default_config() -> ConfigView {
    ConfigView {
        host: "127.0.0.1"@,
        port: 6380,
        data_dir: "data"@,
        shards: 64,
        max_frame_size: DEFAULT_MAX_FRAME_SIZE,
        max_key_size: DEFAULT_MAX_KEY_SIZE,
        max_value_size: DEFAULT_MAX_VALUE_SIZE,
        expiration_interval: Duration { nanos: 1_000_000_000 },
        fsync: FsyncMode::Always,
        max_connections: 1024,
        wal_compaction_threshold_bytes: 67108864,
        metrics_enabled: true,
        metrics_host: "127.0.0.1"@,
        metrics_port: 9090,
        replication_role: ReplicationRole::Standalone,
        replication_host: "127.0.0.1"@,
        replication_port: 6381,
        leader_address: "127.0.0.1:6381"@,
        replication_interval: Duration { nanos: 250_000_000 },
        replication_max_batch_size: DEFAULT_REPLICATION_MAX_BATCH_SIZE,
        replication_max_snapshot_size: DEFAULT_REPLICATION_MAX_SNAPSHOT_SIZE,
        cluster_enabled: false,
        cluster_node_id: ""@,
        cluster_nodes: ""@,
        cluster_virtual_nodes: DEFAULT_CLUSTER_VIRTUAL_NODES,
    }
}

impl Default for Config {
    fn default() -> (config: Self)
        ensures
            config@ == default_config(),
    {
        Self {
            host: "127.0.0.1".to_owned(),
            port: 6380,
            data_dir: "data".to_owned(),
            shards: 64,
            max_frame_size: DEFAULT_MAX_FRAME_SIZE,
            max_key_size: DEFAULT_MAX_KEY_SIZE,
            max_value_size: DEFAULT_MAX_VALUE_SIZE,
            expiration_interval: Duration::from_millis(1_000),
            fsync: FsyncMode::Always,
            max_connections: 1024,
            wal_compaction_threshold_bytes: 67108864,
            metrics_enabled: true,
            metrics_host: "127.0.0.1".to_owned(),
            metrics_port: 9090,
            replication_role: ReplicationRole::Standalone,
            replication_host: "127.0.0.1".to_owned(),
            replication_port: 6381,
            leader_address: "127.0.0.1:6381".to_owned(),
            replication_interval: Duration::from_millis(250),
            replication_max_batch_size: DEFAULT_REPLICATION_MAX_BATCH_SIZE,
            replication_max_snapshot_size: DEFAULT_REPLICATION_MAX_SNAPSHOT_SIZE,
            cluster_enabled: false,
            cluster_node_id: "".to_owned(),
            cluster_nodes: "".to_owned(),
            cluster_virtual_nodes: DEFAULT_CLUSTER_VIRTUAL_NODES,
        }
    }
}

/// What was configured, as it was written: one text or none for each setting.
#[derive(Clone, Debug, PartialEq, Eq)]
pub struct Settings {
    pub host: Option<String>,
    pub port: Option<String>,
    pub data_dir: Option<String>,
    pub shards: Option<String>,
    pub max_frame_size: Option<String>,
    pub max_key_size: Option<String>,
    pub max_value_size: Option<String>,
    pub expiration_interval_ms: Option<String>,
    pub fsync: Option<String>,
    pub max_connections: Option<String>,
    pub wal_compaction_threshold_bytes: Option<String>,
    pub metrics_enabled: Option<String>,
    pub metrics_host: Option<String>,
    pub metrics_port: Option<String>,
    pub role: Option<String>,
    pub replication_host: Option<String>,
    pub replication_port: Option<String>,
    pub leader_address: Option<String>,
    pub replication_interval_ms: Option<String>,
    pub replication_max_batch_size: Option<String>,
    pub replication_max_snapshot_size: Option<String>,
    pub cluster_enabled: Option<String>,
    pub cluster_node_id: Option<String>,
    pub cluster_nodes: Option<String>,
    pub cluster_virtual_nodes: Option<String>,
}

/// What was configured, with each text as a sequence of characters.
#[verifier::ext_equal]
pub struct SettingsView {
    pub host: Option<Seq<char>>,
    pub port: Option<Seq<char>>,
    pub data_dir: Option<Seq<char>>,
    pub shards: Option<Seq<char>>,
    pub max_frame_size: Option<Seq<char>>,
    pub max_key_size: Option<Seq<char>>,
    pub max_value_size: Option<Seq<char>>,
    pub expiration_interval_ms: Option<Seq<char>>,
    pub fsync: Option<Seq<char>>,
    pub max_connections: Option<Seq<char>>,
    pub wal_compaction_threshold_bytes: Option<Seq<char>>,
    pub metrics_enabled: Option<Seq<char>>,
    pub metrics_host: Option<Seq<char>>,
    pub metrics_port: Option<Seq<char>>,
    pub role: Option<Seq<char>>,
    pub replication_host: Option<Seq<char>>,
    pub replication_port: Option<Seq<char>>,
    pub leader_address: Option<Seq<char>>,
    pub replication_interval_ms: Option<Seq<char>>,
    pub replication_max_batch_size: Option<Seq<char>>,
    pub replication_max_snapshot_size: Option<Seq<char>>,
    pub cluster_enabled: Option<Seq<char>>,
    pub cluster_node_id: Option<Seq<char>>,
    pub cluster_nodes: Option<Seq<char>>,
    pub cluster_virtual_nodes: Option<Seq<char>>,
}

/// The characters of a text that may be there.
pub open spec fn optional(text: Option<String>) -> Option<Seq<char>> {
    match text {
        Some(text) => Some(text@),
        None => None,
    }
}

impl View for Settings {
    type V = SettingsView;

    open spec fn view(&self) -> SettingsView {
        SettingsView {
            host: optional(self.host),
            port: optional(self.port),
            data_dir: optional(self.data_dir),
            shards: optional(self.shards),
            max_frame_size: optional(self.max_frame_size),
            max_key_size: optional(self.max_key_size),
            max_value_size: optional(self.max_value_size),
            expiration_interval_ms: optional(self.expiration_interval_ms),
            fsync: optional(self.fsync),
            max_connections: optional(self.max_connections),
            wal_compaction_threshold_bytes: optional(self.wal_compaction_threshold_bytes),
            metrics_enabled: optional(self.metrics_enabled),
            metrics_host: optional(self.metrics_host),
            metrics_port: optional(self.metrics_port),
            role: optional(self.role),
            replication_host: optional(self.replication_host),
            replication_port: optional(self.replication_port),
            leader_address: optional(self.leader_address),
            replication_interval_ms: optional(self.replication_interval_ms),
            replication_max_batch_size: optional(self.replication_max_batch_size),
            replication_max_snapshot_size: optional(self.replication_max_snapshot_size),
            cluster_enabled: optional(self.cluster_enabled),
            cluster_node_id: optional(self.cluster_node_id),
            cluster_nodes: optional(self.cluster_nodes),
            cluster_virtual_nodes: optional(self.cluster_virtual_nodes),
        }
    }
}

/// Whether a lookup can give these settings under their names.
pub open spec fn answers<F: Fn(&str) -> Option<String>>(lookup: F, settings: Settings) -> bool {
    &&& call_ensures(lookup, ("FORGEKV_HOST",), settings.host)
    &&& call_ensures(lookup, ("FORGEKV_PORT",), settings.port)
    &&& call_ensures(lookup, ("FORGEKV_DATA_DIR",), settings.data_dir)
    &&& call_ensures(lookup, ("FORGEKV_SHARDS",), settings.shards)
    &&& call_ensures(lookup, ("FORGEKV_MAX_FRAME_SIZE",), settings.max_frame_size)
    &&& call_ensures(lookup, ("FORGEKV_MAX_KEY_SIZE",), settings.max_key_size)
    &&& call_ensures(lookup, ("FORGEKV_MAX_VALUE_SIZE",), settings.max_value_size)
    &&& call_ensures(lookup, ("FORGEKV_EXPIRATION_INTERVAL_MS",), settings.expiration_interval_ms)
    &&& call_ensures(lookup, ("FORGEKV_FSYNC",), settings.fsync)
    &&& call_ensures(lookup, ("FORGEKV_MAX_CONNECTIONS",), settings.max_connections)
    &&& call_ensures(lookup, ("FORGEKV_WAL_COMPACTION_THRESHOLD_BYTES",), settings.wal_compaction_threshold_bytes)
    &&& call_ensures(lookup, ("FORGEKV_METRICS_ENABLED",), settings.metrics_enabled)
    &&& call_ensures(lookup, ("FORGEKV_METRICS_HOST",), settings.metrics_host)
    &&& call_ensures(lookup, ("FORGEKV_METRICS_PORT",), settings.metrics_port)
    &&& call_ensures(lookup, ("FORGEKV_ROLE",), settings.role)
    &&& call_ensures(lookup, ("FORGEKV_REPLICATION_HOST",), settings.replication_host)
    &&& call_ensures(lookup, ("FORGEKV_REPLICATION_PORT",), settings.replication_port)
    &&& call_ensures(lookup, ("FORGEKV_LEADER_ADDRESS",), settings.leader_address)
    &&& call_ensures(lookup, ("FORGEKV_REPLICATION_INTERVAL_MS",), settings.replication_interval_ms)
    &&& call_ensures(lookup, ("FORGEKV_REPLICATION_MAX_BATCH_SIZE",), settings.replication_max_batch_size)
    &&& call_ensures(lookup, ("FORGEKV_REPLICATION_MAX_SNAPSHOT_SIZE",), settings.replication_max_snapshot_size)
    &&& call_ensures(lookup, ("FORGEKV_CLUSTER_ENABLED",), settings.cluster_enabled)
    &&& call_ensures(lookup, ("FORGEKV_CLUSTER_NODE_ID",), settings.cluster_node_id)
    &&& call_ensures(lookup, ("FORGEKV_CLUSTER_NODES",), settings.cluster_nodes)
    &&& call_ensures(lookup, ("FORGEKV_CLUSTER_VIRTUAL_NODES",), settings.cluster_virtual_nodes)
}

/// A complaint about the value of a setting.
pub open spec fn invalid_value(name: Seq<char>, value: Seq<char>, expected: Seq<char>) -> Option<
    ConfigErrorView,
> {
    Some(ConfigErrorView::InvalidValue { name, value, expected })
}

/// A complaint about settings that do not go together.
pub open spec fn mismatch(message: Seq<char>) -> Option<ConfigErrorView> {
    Some(ConfigErrorView::InvalidCombination(message))
}

/// The first complaint, or else the second.
pub open spec fn or(first: Option<ConfigErrorView>, second: Option<ConfigErrorView>) -> Option<
    ConfigErrorView,
> {
    if first is Some {
        first
    } else {
        second
    }
}

/// A complaint, under a condition.
pub open spec fn complain(condition: bool, complaint: Option<ConfigErrorView>) -> Option<
    ConfigErrorView,
> {
    if condition {
        complaint
    } else {
        None
    }
}

/// A text, or the default.
pub open spec fn text_or(value: Option<Seq<char>>, default: Seq<char>) -> Seq<char> {
    match value {
        Some(text) => text,
        None => default,
    }
}

/// A number, or the default. Of a text that is no number up to `maximum` nothing is said.
pub open spec fn number_or(value: Option<Seq<char>>, default: nat) -> nat {
    match value {
        Some(text) => unsigned_number(text)->0,
        None => default,
    }
}

/// A complaint about a text that is no number up to `maximum`.
pub open spec fn number_problem(
    name: Seq<char>,
    value: Option<Seq<char>>,
    maximum: nat,
) -> Option<ConfigErrorView> {
    match value {
        None => None,
        Some(text) => match unsigned_number(text) {
            Some(number) => complain(
                number > maximum,
                invalid_value(name, text, "valid positive integer"@),
            ),
            None => invalid_value(name, text, "valid positive integer"@),
        },
    }
}

/// A truth value, or the default. Of a text that is none nothing is said.
pub open spec fn flag_or(value: Option<Seq<char>>, default: bool) -> bool {
    match value {
        Some(text) => text == "true"@,
        None => default,
    }
}

/// A complaint about a text that is no truth value.
pub open spec fn flag_problem(name: Seq<char>, value: Option<Seq<char>>) -> Option<
    ConfigErrorView,
> {
    match value {
        None => None,
        Some(text) => complain(
            text != "true"@ && text != "false"@,
            invalid_value(name, text, "true or false"@),
        ),
    }
}

/// Whether a text is nothing but white space.
pub open spec fn blank(text: Seq<char>) -> bool {
    trimmed(text).len() == 0
}

/// The fsync mode that a text names.
pub open spec fn fsync_of(text: Seq<char>) -> Option<FsyncMode> {
    if lowered(text) == "always"@ {
        Some(FsyncMode::Always)
    } else if lowered(text) == "everysec"@ {
        Some(FsyncMode::EverySecond)
    } else if lowered(text) == "none"@ {
        Some(FsyncMode::Never)
    } else {
        None
    }
}

/// The role that a text names.
pub open spec fn role_of(text: Seq<char>) -> Option<ReplicationRole> {
    if lowered(text) == "standalone"@ {
        Some(ReplicationRole::Standalone)
    } else if lowered(text) == "leader"@ {
        Some(ReplicationRole::Leader)
    } else if lowered(text) == "follower"@ {
        Some(ReplicationRole::Follower)
    } else {
        None
    }
}

/// The configuration that settings describe, once there is no complaint about them.
pub open spec fn described(s: SettingsView) -> ConfigView {
    let d = default_config();
    ConfigView {
        host: text_or(s.host, d.host),
        port: number_or(s.port, d.port as nat) as u16,
        data_dir: text_or(s.data_dir, d.data_dir),
        shards: number_or(s.shards, d.shards as nat) as usize,
        max_frame_size: number_or(s.max_frame_size, d.max_frame_size as nat) as usize,
        max_key_size: number_or(s.max_key_size, d.max_key_size as nat) as usize,
        max_value_size: number_or(s.max_value_size, d.max_value_size as nat) as usize,
        expiration_interval: Duration {
            nanos: (number_or(s.expiration_interval_ms, 1_000) * 1_000_000) as u128,
        },
        fsync: fsync_of(text_or(s.fsync, "always"@))->0,
        max_connections: number_or(s.max_connections, d.max_connections as nat) as usize,
        wal_compaction_threshold_bytes: number_or(
            s.wal_compaction_threshold_bytes,
            d.wal_compaction_threshold_bytes as nat,
        ) as u64,
        metrics_enabled: flag_or(s.metrics_enabled, d.metrics_enabled),
        metrics_host: text_or(s.metrics_host, d.metrics_host),
        metrics_port: number_or(s.metrics_port, d.metrics_port as nat) as u16,
        replication_role: role_of(text_or(s.role, "standalone"@))->0,
        replication_host: text_or(s.replication_host, d.replication_host),
        replication_port: number_or(s.replication_port, d.replication_port as nat) as u16,
        leader_address: text_or(s.leader_address, d.leader_address),
        replication_interval: Duration {
            nanos: (number_or(s.replication_interval_ms, 250) * 1_000_000) as u128,
        },
        replication_max_batch_size: number_or(
            s.replication_max_batch_size,
            d.replication_max_batch_size as nat,
        ) as usize,
        replication_max_snapshot_size: number_or(
            s.replication_max_snapshot_size,
            d.replication_max_snapshot_size as nat,
        ) as usize,
        cluster_enabled: flag_or(s.cluster_enabled, d.cluster_enabled),
        cluster_node_id: text_or(s.cluster_node_id, d.cluster_node_id),
        cluster_nodes: text_or(s.cluster_nodes, d.cluster_nodes),
        cluster_virtual_nodes: number_or(
            s.cluster_virtual_nodes,
            d.cluster_virtual_nodes as nat,
        ) as usize,
    }
}

/// What is wrong with the address, the directory or the shards.
pub open spec fn base_problem(s: SettingsView) -> Option<ConfigErrorView> {
    let c = described(s);
    or(
        complain(blank(c.host), invalid_value("FORGEKV_HOST"@, c.host, "non-empty host"@)),
        or(
            number_problem("FORGEKV_PORT"@, s.port, u16::MAX as nat),
            or(
                complain(
                    c.port == 0,
                    invalid_value("FORGEKV_PORT"@, "0"@, "port in 1..=65535"@),
                ),
                or(
                    complain(
                        c.data_dir.len() == 0,
                        invalid_value("FORGEKV_DATA_DIR"@, ""@, "non-empty directory path"@),
                    ),
                    or(
                        number_problem("FORGEKV_SHARDS"@, s.shards, usize::MAX as nat),
                        complain(
                            c.shards < 1 || c.shards > 4096,
                            invalid_value(
                                "FORGEKV_SHARDS"@,
                                decimal(c.shards as nat),
                                "integer in 1..=4096"@,
                            ),
                        ),
                    ),
                ),
            ),
        ),
    )
}

/// What is wrong with the size limits.
pub open spec fn size_problem(s: SettingsView) -> Option<ConfigErrorView> {
    let c = described(s);
    or(
        number_problem("FORGEKV_MAX_FRAME_SIZE"@, s.max_frame_size, usize::MAX as nat),
        or(
            number_problem("FORGEKV_MAX_KEY_SIZE"@, s.max_key_size, usize::MAX as nat),
            or(
                number_problem("FORGEKV_MAX_VALUE_SIZE"@, s.max_value_size, usize::MAX as nat),
                or(
                    complain(
                        c.max_frame_size < 2,
                        invalid_value(
                            "FORGEKV_MAX_FRAME_SIZE"@,
                            decimal(c.max_frame_size as nat),
                            "integer of at least 2 bytes"@,
                        ),
                    ),
                    or(
                        complain(
                            c.max_frame_size > u32::MAX,
                            invalid_value(
                                "FORGEKV_MAX_FRAME_SIZE"@,
                                decimal(c.max_frame_size as nat),
                                "integer no greater than u32::MAX"@,
                            ),
                        ),
                        complain(
                            c.max_key_size == 0 || c.max_value_size == 0,
                            mismatch(
                                "FORGEKV_MAX_KEY_SIZE and FORGEKV_MAX_VALUE_SIZE must be greater than zero"@,
                            ),
                        ),
                    ),
                ),
            ),
        ),
    )
}

/// What is wrong with the expiration interval, the fsync mode, the connection limit or the
/// compaction threshold.
pub open spec fn storage_problem(s: SettingsView) -> Option<ConfigErrorView> {
    let c = described(s);
    let fsync = text_or(s.fsync, "always"@);
    or(
        number_problem(
            "FORGEKV_EXPIRATION_INTERVAL_MS"@,
            s.expiration_interval_ms,
            u64::MAX as nat,
        ),
        or(
            complain(
                number_or(s.expiration_interval_ms, 1_000) == 0,
                invalid_value(
                    "FORGEKV_EXPIRATION_INTERVAL_MS"@,
                    "0"@,
                    "positive integer milliseconds"@,
                ),
            ),
            or(
                complain(
                    fsync_of(fsync) is None,
                    invalid_value("FORGEKV_FSYNC"@, fsync, "one of: always, everysec, none"@),
                ),
                or(
                    number_problem(
                        "FORGEKV_MAX_CONNECTIONS"@,
                        s.max_connections,
                        usize::MAX as nat,
                    ),
                    or(
                        complain(
                            c.max_connections < 1 || c.max_connections > 1_000_000,
                            invalid_value(
                                "FORGEKV_MAX_CONNECTIONS"@,
                                decimal(c.max_connections as nat),
                                "integer in 1..=1000000"@,
                            ),
                        ),
                        number_problem(
                            "FORGEKV_WAL_COMPACTION_THRESHOLD_BYTES"@,
                            s.wal_compaction_threshold_bytes,
                            u64::MAX as nat,
                        ),
                    ),
                ),
            ),
        ),
    )
}

/// What is wrong with the metrics endpoint.
pub open spec fn metrics_problem(s: SettingsView) -> Option<ConfigErrorView> {
    let c = described(s);
    or(
        flag_problem("FORGEKV_METRICS_ENABLED"@, s.metrics_enabled),
        or(
            complain(
                c.metrics_enabled && blank(c.metrics_host),
                invalid_value("FORGEKV_METRICS_HOST"@, c.metrics_host, "non-empty host"@),
            ),
            or(
                number_problem("FORGEKV_METRICS_PORT"@, s.metrics_port, u16::MAX as nat),
                complain(
                    c.metrics_enabled && c.metrics_port == 0,
                    invalid_value("FORGEKV_METRICS_PORT"@, "0"@, "port in 1..=65535"@),
                ),
            ),
        ),
    )
}

/// What is wrong with the replication role and its addresses.
pub open spec fn role_problem(s: SettingsView) -> Option<ConfigErrorView> {
    let c = described(s);
    let role = text_or(s.role, "standalone"@);
    or(
        complain(
            role_of(role) is None,
            invalid_value("FORGEKV_ROLE"@, role, "one of: standalone, leader, follower"@),
        ),
        or(
            complain(
                c.replication_role == ReplicationRole::Leader && blank(c.replication_host),
                invalid_value("FORGEKV_REPLICATION_HOST"@, c.replication_host, "non-empty host"@),
            ),
            or(
                number_problem("FORGEKV_REPLICATION_PORT"@, s.replication_port, u16::MAX as nat),
                or(
                    complain(
                        c.replication_role == ReplicationRole::Leader && c.replication_port == 0,
                        invalid_value("FORGEKV_REPLICATION_PORT"@, "0"@, "port in 1..=65535"@),
                    ),
                    complain(
                        c.replication_role == ReplicationRole::Follower && blank(c.leader_address),
                        invalid_value(
                            "FORGEKV_LEADER_ADDRESS"@,
                            c.leader_address,
                            "non-empty leader address"@,
                        ),
                    ),
                ),
            ),
        ),
    )
}

/// What is wrong with the replication interval and limits, for a server with this role and these
/// limits of keys and values.
pub open spec fn transfer_problem(
    s: SettingsView,
    role: ReplicationRole,
    max_key_size: usize,
    max_value_size: usize,
) -> Option<ConfigErrorView> {
    let c = described(s);
    let batch = c.replication_max_batch_size;
    let smallest = max_key_size + max_value_size + 36;
    or(
        number_problem(
            "FORGEKV_REPLICATION_INTERVAL_MS"@,
            s.replication_interval_ms,
            u64::MAX as nat,
        ),
        or(
            complain(
                number_or(s.replication_interval_ms, 250) == 0,
                invalid_value(
                    "FORGEKV_REPLICATION_INTERVAL_MS"@,
                    "0"@,
                    "positive integer milliseconds"@,
                ),
            ),
            or(
                number_problem(
                    "FORGEKV_REPLICATION_MAX_BATCH_SIZE"@,
                    s.replication_max_batch_size,
                    usize::MAX as nat,
                ),
                or(
                    complain(
                        batch < 36 || batch > 67108864,
                        invalid_value(
                            "FORGEKV_REPLICATION_MAX_BATCH_SIZE"@,
                            decimal(batch as nat),
                            "integer in 36..=67108864"@,
                        ),
                    ),
                    or(
                        complain(
                            role != ReplicationRole::Standalone && smallest > usize::MAX,
                            mismatch(
                                "key and value limits exceed the supported replication record size"@,
                            ),
                        ),
                        or(
                            complain(
                                role != ReplicationRole::Standalone && batch < smallest,
                                invalid_value(
                                    "FORGEKV_REPLICATION_MAX_BATCH_SIZE"@,
                                    decimal(batch as nat),
                                    "size large enough for one configured WAL record"@,
                                ),
                            ),
                            or(
                                number_problem(
                                    "FORGEKV_REPLICATION_MAX_SNAPSHOT_SIZE"@,
                                    s.replication_max_snapshot_size,
                                    usize::MAX as nat,
                                ),
                                complain(
                                    c.replication_max_snapshot_size < 16
                                        || c.replication_max_snapshot_size > 1073741824,
                                    invalid_value(
                                        "FORGEKV_REPLICATION_MAX_SNAPSHOT_SIZE"@,
                                        decimal(c.replication_max_snapshot_size as nat),
                                        "integer in 16..=1073741824"@,
                                    ),
                                ),
                            ),
                        ),
                    ),
                ),
            ),
        ),
    )
}

/// What is wrong with the cluster, for a server with this role.
pub open spec fn cluster_problem(s: SettingsView, role: ReplicationRole) -> Option<
    ConfigErrorView,
> {
    let c = described(s);
    or(
        flag_problem("FORGEKV_CLUSTER_ENABLED"@, s.cluster_enabled),
        or(
            number_problem(
                "FORGEKV_CLUSTER_VIRTUAL_NODES"@,
                s.cluster_virtual_nodes,
                usize::MAX as nat,
            ),
            or(
                complain(
                    c.cluster_enabled && role != ReplicationRole::Standalone,
                    mismatch("cluster mode requires FORGEKV_ROLE=standalone"@),
                ),
                if c.cluster_enabled {
                    match topology_of(c.cluster_node_id, c.cluster_nodes, c.cluster_virtual_nodes) {
                        Ok(_) => None,
                        Err(error) => Some(error),
                    }
                } else {
                    None
                },
            ),
        ),
    )
}

/// The first thing that is wrong with settings.
pub open spec fn problem(s: SettingsView) -> Option<ConfigErrorView> {
    let c = described(s);
    or(
        base_problem(s),
        or(
            size_problem(s),
            or(
                storage_problem(s),
                or(
                    metrics_problem(s),
                    or(
                        role_problem(s),
                        or(
                            transfer_problem(
                                s,
                                c.replication_role,
                                c.max_key_size,
                                c.max_value_size,
                            ),
                            cluster_problem(s, c.replication_role),
                        ),
                    ),
                ),
            ),
        ),
    )
}

/// The configuration of settings, or the first thing that is wrong with them.
pub open spec fn config_of(s: SettingsView) -> Result<ConfigView, ConfigErrorView> {
    match problem(s) {
        Some(error) => Err(error),
        None => Ok(described(s)),
    }
}

fn invalid(name: &'static str, value: String, expected: &'static str) -> (error: ConfigError)
    ensures
        Some(error@) == invalid_value(name@, value@, expected@),
{
    ConfigError::InvalidValue { name, value, expected }
}

fn owned_or(value: &Option<String>, default: &str) -> (text: String)
    ensures
        text@ == text_or(optional(*value), default@),
{
    match value {
        Some(text) => text.clone(),
        None => default.to_owned(),
    }
}

fn parse_or(name: &'static str, value: &Option<String>, default: u64, maximum: u64) -> (number:
    Result<u64, ConfigError>)
    requires
        default <= maximum,
    ensures
        match number {
            Ok(number) => number_problem(name@, optional(*value), maximum as nat) is None && number
                == number_or(optional(*value), default as nat) && number <= maximum,
            Err(error) => number_problem(name@, optional(*value), maximum as nat) == Some(error@),
        },
{
    match value {
        Some(text) => match parse_unsigned(chars_of(text.as_str()).as_slice(), maximum) {
            Some(number) => Ok(number),
            None => Err(invalid(name, text.clone(), "valid positive integer")),
        },
        None => Ok(default),
    }
}

fn parse_flag(name: &'static str, value: &Option<String>, default: bool) -> (flag: Result<
    bool,
    ConfigError,
>)
    ensures
        match flag {
            Ok(flag) => flag_problem(name@, optional(*value)) is None && flag == flag_or(
                optional(*value),
                default,
            ),
            Err(error) => flag_problem(name@, optional(*value)) == Some(error@),
        },
{
    match value {
        Some(text) => {
            proof {
                reveal_strlit("true");
                reveal_strlit("false");
            }
            if same_text(text.as_str(), "true") {
                Ok(true)
            } else if same_text(text.as_str(), "false") {
                assert("false"@.len() != "true"@.len());
                Ok(false)
            } else {
                Err(invalid(name, text.clone(), "true or false"))
            }
        },
        None => Ok(default),
    }
}

fn is_blank(text: &str) -> (empty: bool)
    ensures
        empty == blank(text@),
{
    trim(chars_of(text).as_slice()).len() == 0
}

fn parse_fsync(text: &str) -> (mode: Option<FsyncMode>)
    ensures
        mode == fsync_of(text@),
{
    let lower: String = lowercase(text);
    if same_text(lower.as_str(), "always") {
        Some(FsyncMode::Always)
    } else if same_text(lower.as_str(), "everysec") {
        Some(FsyncMode::EverySecond)
    } else if same_text(lower.as_str(), "none") {
        Some(FsyncMode::Never)
    } else {
        None
    }
}

fn parse_role(text: &str) -> (role: Option<ReplicationRole>)
    ensures
        role == role_of(text@),
{
    let lower: String = lowercase(text);
    if same_text(lower.as_str(), "standalone") {
        Some(ReplicationRole::Standalone)
    } else if same_text(lower.as_str(), "leader") {
        Some(ReplicationRole::Leader)
    } else if same_text(lower.as_str(), "follower") {
        Some(ReplicationRole::Follower)
    } else {
        None
    }
}

struct Base {
    host: String,
    port: u16,
    data_dir: String,
    shards: usize,
}

fn read_base(s: &Settings) -> (base: Result<Base, ConfigError>)
    ensures
        match base {
            Ok(base) => {
                let c = described(s@);
                &&& base_problem(s@) is None
                &&& base.host@ == c.host
                &&& base.port == c.port
                &&& base.data_dir@ == c.data_dir
                &&& base.shards == c.shards
            },
            Err(error) => base_problem(s@) == Some(error@),
        },
{
    let host: String = owned_or(&s.host, "127.0.0.1");
    if is_blank(host.as_str()) {
        return Err(invalid("FORGEKV_HOST", host, "non-empty host"));
    }
    let port: u16 = match parse_or("FORGEKV_PORT", &s.port, 6380, u16::MAX as u64) {
        Ok(port) => port as u16,
        Err(error) => return Err(error),
    };
    if port == 0 {
        return Err(invalid("FORGEKV_PORT", "0".to_owned(), "port in 1..=65535"));
    }
    let data_dir: String = owned_or(&s.data_dir, "data");
    if chars_of(data_dir.as_str()).len() == 0 {
        return Err(invalid("FORGEKV_DATA_DIR", "".to_owned(), "non-empty directory path"));
    }
    let shards: usize = match parse_or("FORGEKV_SHARDS", &s.shards, 64, usize::MAX as u64) {
        Ok(shards) => shards as usize,
        Err(error) => return Err(error),
    };
    if shards < 1 || shards > 4096 {
        return Err(
            invalid("FORGEKV_SHARDS", decimal_string(shards as u64), "integer in 1..=4096"),
        );
    }
    Ok(Base { host, port, data_dir, shards })
}

struct Sizes {
    max_frame_size: usize,
    max_key_size: usize,
    max_value_size: usize,
}

fn read_sizes(s: &Settings) -> (sizes: Result<Sizes, ConfigError>)
    ensures
        match sizes {
            Ok(sizes) => {
                let c = described(s@);
                &&& size_problem(s@) is None
                &&& sizes.max_frame_size == c.max_frame_size
                &&& sizes.max_key_size == c.max_key_size
                &&& sizes.max_value_size == c.max_value_size
            },
            Err(error) => size_problem(s@) == Some(error@),
        },
{
    let max_frame_size: usize = match parse_or(
        "FORGEKV_MAX_FRAME_SIZE",
        &s.max_frame_size,
        DEFAULT_MAX_FRAME_SIZE as u64,
        usize::MAX as u64,
    ) {
        Ok(size) => size as usize,
        Err(error) => return Err(error),
    };
    let max_key_size: usize = match parse_or(
        "FORGEKV_MAX_KEY_SIZE",
        &s.max_key_size,
        DEFAULT_MAX_KEY_SIZE as u64,
        usize::MAX as u64,
    ) {
        Ok(size) => size as usize,
        Err(error) => return Err(error),
    };
    let max_value_size: usize = match parse_or(
        "FORGEKV_MAX_VALUE_SIZE",
        &s.max_value_size,
        DEFAULT_MAX_VALUE_SIZE as u64,
        usize::MAX as u64,
    ) {
        Ok(size) => size as usize,
        Err(error) => return Err(error),
    };
    if max_frame_size < 2 {
        return Err(
            invalid(
                "FORGEKV_MAX_FRAME_SIZE",
                decimal_string(max_frame_size as u64),
                "integer of at least 2 bytes",
            ),
        );
    }
    if max_frame_size > u32::MAX as usize {
        return Err(
            invalid(
                "FORGEKV_MAX_FRAME_SIZE",
                decimal_string(max_frame_size as u64),
                "integer no greater than u32::MAX",
            ),
        );
    }
    if max_key_size == 0 || max_value_size == 0 {
        return Err(
            ConfigError::InvalidCombination(
                "FORGEKV_MAX_KEY_SIZE and FORGEKV_MAX_VALUE_SIZE must be greater than zero".to_owned(),
            ),
        );
    }
    Ok(Sizes { max_frame_size, max_key_size, max_value_size })
}

struct Storage {
    expiration_ms: u64,
    fsync: FsyncMode,
    max_connections: usize,
    wal_compaction_threshold_bytes: u64,
}

fn read_storage(s: &Settings) -> (storage: Result<Storage, ConfigError>)
    ensures
        match storage {
            Ok(storage) => {
                let c = described(s@);
                &&& storage_problem(s@) is None
                &&& storage.expiration_ms * 1_000_000 == c.expiration_interval.nanos
                &&& storage.fsync == c.fsync
                &&& storage.max_connections == c.max_connections
                &&& storage.wal_compaction_threshold_bytes == c.wal_compaction_threshold_bytes
            },
            Err(error) => storage_problem(s@) == Some(error@),
        },
{
    let expiration_ms: u64 = match parse_or(
        "FORGEKV_EXPIRATION_INTERVAL_MS",
        &s.expiration_interval_ms,
        1_000,
        u64::MAX,
    ) {
        Ok(millis) => millis,
        Err(error) => return Err(error),
    };
    if expiration_ms == 0 {
        return Err(
            invalid(
                "FORGEKV_EXPIRATION_INTERVAL_MS",
                "0".to_owned(),
                "positive integer milliseconds",
            ),
        );
    }
    let fsync_text: String = owned_or(&s.fsync, "always");
    let fsync: FsyncMode = match parse_fsync(fsync_text.as_str()) {
        Some(fsync) => fsync,
        None => return Err(
            invalid("FORGEKV_FSYNC", fsync_text, "one of: always, everysec, none"),
        ),
    };
    let max_connections: usize = match parse_or(
        "FORGEKV_MAX_CONNECTIONS",
        &s.max_connections,
        1024,
        usize::MAX as u64,
    ) {
        Ok(count) => count as usize,
        Err(error) => return Err(error),
    };
    if max_connections < 1 || max_connections > 1_000_000 {
        return Err(
            invalid(
                "FORGEKV_MAX_CONNECTIONS",
                decimal_string(max_connections as u64),
                "integer in 1..=1000000",
            ),
        );
    }
    let wal_compaction_threshold_bytes: u64 = match parse_or(
        "FORGEKV_WAL_COMPACTION_THRESHOLD_BYTES",
        &s.wal_compaction_threshold_bytes,
        67108864,
        u64::MAX,
    ) {
        Ok(count) => count,
        Err(error) => return Err(error),
    };
    Ok(Storage { expiration_ms, fsync, max_connections, wal_compaction_threshold_bytes })
}

struct Endpoint {
    enabled: bool,
    host: String,
    port: u16,
}

fn read_metrics(s: &Settings) -> (endpoint: Result<Endpoint, ConfigError>)
    ensures
        match endpoint {
            Ok(endpoint) => {
                let c = described(s@);
                &&& metrics_problem(s@) is None
                &&& endpoint.enabled == c.metrics_enabled
                &&& endpoint.host@ == c.metrics_host
                &&& endpoint.port == c.metrics_port
            },
            Err(error) => metrics_problem(s@) == Some(error@),
        },
{
    let enabled: bool = match parse_flag("FORGEKV_METRICS_ENABLED", &s.metrics_enabled, true) {
        Ok(enabled) => enabled,
        Err(error) => return Err(error),
    };
    let host: String = owned_or(&s.metrics_host, "127.0.0.1");
    if enabled && is_blank(host.as_str()) {
        return Err(invalid("FORGEKV_METRICS_HOST", host, "non-empty host"));
    }
    let port: u16 = match parse_or("FORGEKV_METRICS_PORT", &s.metrics_port, 9090, u16::MAX as u64) {
        Ok(port) => port as u16,
        Err(error) => return Err(error),
    };
    if enabled && port == 0 {
        return Err(invalid("FORGEKV_METRICS_PORT", "0".to_owned(), "port in 1..=65535"));
    }
    Ok(Endpoint { enabled, host, port })
}

struct Role {
    role: ReplicationRole,
    host: String,
    port: u16,
    leader_address: String,
}

fn read_role(s: &Settings) -> (role: Result<Role, ConfigError>)
    ensures
        match role {
            Ok(role) => {
                let c = described(s@);
                &&& role_problem(s@) is None
                &&& role.role == c.replication_role
                &&& role.host@ == c.replication_host
                &&& role.port == c.replication_port
                &&& role.leader_address@ == c.leader_address
            },
            Err(error) => role_problem(s@) == Some(error@),
        },
{
    let role_text: String = owned_or(&s.role, "standalone");
    let role: ReplicationRole = match parse_role(role_text.as_str()) {
        Some(role) => role,
        None => return Err(
            invalid("FORGEKV_ROLE", role_text, "one of: standalone, leader, follower"),
        ),
    };
    let host: String = owned_or(&s.replication_host, "127.0.0.1");
    if role == ReplicationRole::Leader && is_blank(host.as_str()) {
        return Err(invalid("FORGEKV_REPLICATION_HOST", host, "non-empty host"));
    }
    let port: u16 = match parse_or(
        "FORGEKV_REPLICATION_PORT",
        &s.replication_port,
        6381,
        u16::MAX as u64,
    ) {
        Ok(port) => port as u16,
        Err(error) => return Err(error),
    };
    if role == ReplicationRole::Leader && port == 0 {
        return Err(invalid("FORGEKV_REPLICATION_PORT", "0".to_owned(), "port in 1..=65535"));
    }
    let leader_address: String = owned_or(&s.leader_address, "127.0.0.1:6381");
    if role == ReplicationRole::Follower && is_blank(leader_address.as_str()) {
        return Err(invalid("FORGEKV_LEADER_ADDRESS", leader_address, "non-empty leader address"));
    }
    Ok(Role { role, host, port, leader_address })
}

struct Transfer {
    interval_ms: u64,
    max_batch_size: usize,
    max_snapshot_size: usize,
}

fn read_transfer(
    s: &Settings,
    role: ReplicationRole,
    max_key_size: usize,
    max_value_size: usize,
) -> (transfer: Result<Transfer, ConfigError>)
    ensures
        match transfer {
            Ok(transfer) => {
                let c = described(s@);
                &&& transfer_problem(s@, role, max_key_size, max_value_size) is None
                &&& transfer.interval_ms * 1_000_000 == c.replication_interval.nanos
                &&& transfer.max_batch_size == c.replication_max_batch_size
                &&& transfer.max_snapshot_size == c.replication_max_snapshot_size
            },
            Err(error) => transfer_problem(s@, role, max_key_size, max_value_size) == Some(error@),
        },
{
    let interval_ms: u64 = match parse_or(
        "FORGEKV_REPLICATION_INTERVAL_MS",
        &s.replication_interval_ms,
        250,
        u64::MAX,
    ) {
        Ok(millis) => millis,
        Err(error) => return Err(error),
    };
    if interval_ms == 0 {
        return Err(
            invalid(
                "FORGEKV_REPLICATION_INTERVAL_MS",
                "0".to_owned(),
                "positive integer milliseconds",
            ),
        );
    }
    let max_batch_size: usize = match parse_or(
        "FORGEKV_REPLICATION_MAX_BATCH_SIZE",
        &s.replication_max_batch_size,
        DEFAULT_REPLICATION_MAX_BATCH_SIZE as u64,
        usize::MAX as u64,
    ) {
        Ok(size) => size as usize,
        Err(error) => return Err(error),
    };
    if max_batch_size < 36 || max_batch_size > 67108864 {
        return Err(
            invalid(
                "FORGEKV_REPLICATION_MAX_BATCH_SIZE",
                decimal_string(max_batch_size as u64),
                "integer in 36..=67108864",
            ),
        );
    }
    if role != ReplicationRole::Standalone {
        let smallest: Option<usize> = match max_key_size.checked_add(max_value_size) {
            Some(size) => size.checked_add(36),
            None => None,
        };
        match smallest {
            Some(smallest) => {
                if max_batch_size < smallest {
                    return Err(
                        invalid(
                            "FORGEKV_REPLICATION_MAX_BATCH_SIZE",
                            decimal_string(max_batch_size as u64),
                            "size large enough for one configured WAL record",
                        ),
                    );
                }
            },
            None => return Err(
                ConfigError::InvalidCombination(
                    "key and value limits exceed the supported replication record size".to_owned(),
                ),
            ),
        }
    }
    let max_snapshot_size: usize = match parse_or(
        "FORGEKV_REPLICATION_MAX_SNAPSHOT_SIZE",
        &s.replication_max_snapshot_size,
        DEFAULT_REPLICATION_MAX_SNAPSHOT_SIZE as u64,
        usize::MAX as u64,
    ) {
        Ok(size) => size as usize,
        Err(error) => return Err(error),
    };
    if max_snapshot_size < 16 || max_snapshot_size > 1073741824 {
        return Err(
            invalid(
                "FORGEKV_REPLICATION_MAX_SNAPSHOT_SIZE",
                decimal_string(max_snapshot_size as u64),
                "integer in 16..=1073741824",
            ),
        );
    }
    Ok(Transfer { interval_ms, max_batch_size, max_snapshot_size })
}

struct ClusterPart {
    enabled: bool,
    node_id: String,
    nodes: String,
    virtual_nodes: usize,
}

fn read_cluster(s: &Settings, role: ReplicationRole) -> (cluster: Result<ClusterPart, ConfigError>)
    ensures
        match cluster {
            Ok(cluster) => {
                let c = described(s@);
                &&& cluster_problem(s@, role) is None
                &&& cluster.enabled == c.cluster_enabled
                &&& cluster.node_id@ == c.cluster_node_id
                &&& cluster.nodes@ == c.cluster_nodes
                &&& cluster.virtual_nodes == c.cluster_virtual_nodes
            },
            Err(error) => cluster_problem(s@, role) == Some(error@),
        },
{
    let enabled: bool = match parse_flag("FORGEKV_CLUSTER_ENABLED", &s.cluster_enabled, false) {
        Ok(enabled) => enabled,
        Err(error) => return Err(error),
    };
    let node_id: String = owned_or(&s.cluster_node_id, "");
    let nodes: String = owned_or(&s.cluster_nodes, "");
    let virtual_nodes: usize = match parse_or(
        "FORGEKV_CLUSTER_VIRTUAL_NODES",
        &s.cluster_virtual_nodes,
        DEFAULT_CLUSTER_VIRTUAL_NODES as u64,
        usize::MAX as u64,
    ) {
        Ok(count) => count as usize,
        Err(error) => return Err(error),
    };
    if enabled {
        if role != ReplicationRole::Standalone {
            return Err(
                ConfigError::InvalidCombination(
                    "cluster mode requires FORGEKV_ROLE=standalone".to_owned(),
                ),
            );
        }
        match ClusterTopology::new(node_id.as_str(), nodes.as_str(), virtual_nodes) {
            Ok(_) => {},
            Err(error) => return Err(error),
        }
    }
    Ok(ClusterPart { enabled, node_id, nodes, virtual_nodes })
}

/// A file of the data directory.
pub open spec fn file_in(directory: Seq<char>, name: Seq<char>) -> Seq<char> {
    if directory.len() == 0 || directory.last() == '/' {
        directory + name
    } else {
        directory + seq!['/'] + name
    }
}

fn join_path(directory: &str, name: &str) -> (path: String)
    ensures
        path@ == file_in(directory@, name@),
{
    let chars: Vec<char> = chars_of(directory);
    let mut path: String = directory.to_owned();
    if chars.len() > 0 && chars[chars.len() - 1] != '/' {
        path.push('/');
    }
    path.push_str(name);
    assert(path@ =~= file_in(directory@, name@));
    path
}

/// A host and a port, with a colon between them.
pub open spec fn endpoint(host: Seq<char>, port: u16) -> Seq<char> {
    host + seq![':'] + decimal(port as nat)
}

fn join_address(host: &str, port: u16) -> (address: String)
    ensures
        address@ == endpoint(host@, port),
{
    let mut address: String = host.to_owned();
    address.push(':');
    push_decimal(&mut address, port as u64);
    assert(address@ =~= endpoint(host@, port));
    address
}

impl Config {
    /// The configuration that the settings describe, or the first thing that is wrong with them.
    pub fn from_settings(settings: &Settings) -> (config: Result<Self, ConfigError>)
        ensures
            match config {
                Ok(config) => config_of(settings@) == Ok::<ConfigView, ConfigErrorView>(config@),
                Err(error) => config_of(settings@) == Err::<ConfigView, ConfigErrorView>(error@),
            },
    {
        let base: Base = match read_base(settings) {
            Ok(base) => base,
            Err(error) => return Err(error),
        };
        let sizes: Sizes = match read_sizes(settings) {
            Ok(sizes) => sizes,
            Err(error) => return Err(error),
        };
        let storage: Storage = match read_storage(settings) {
            Ok(storage) => storage,
            Err(error) => return Err(error),
        };
        let metrics: Endpoint = match read_metrics(settings) {
            Ok(metrics) => metrics,
            Err(error) => return Err(error),
        };
        let role: Role = match read_role(settings) {
            Ok(role) => role,
            Err(error) => return Err(error),
        };
        let transfer: Transfer = match read_transfer(
            settings,
            role.role,
            sizes.max_key_size,
            sizes.max_value_size,
        ) {
            Ok(transfer) => transfer,
            Err(error) => return Err(error),
        };
        let cluster: ClusterPart = match read_cluster(settings, role.role) {
            Ok(cluster) => cluster,
            Err(error) => return Err(error),
        };
        Ok(
            Self {
                host: base.host,
                port: base.port,
                data_dir: base.data_dir,
                shards: base.shards,
                max_frame_size: sizes.max_frame_size,
                max_key_size: sizes.max_key_size,
                max_value_size: sizes.max_value_size,
                expiration_interval: Duration::from_millis(storage.expiration_ms),
                fsync: storage.fsync,
                max_connections: storage.max_connections,
                wal_compaction_threshold_bytes: storage.wal_compaction_threshold_bytes,
                metrics_enabled: metrics.enabled,
                metrics_host: metrics.host,
                metrics_port: metrics.port,
                replication_role: role.role,
                replication_host: role.host,
                replication_port: role.port,
                leader_address: role.leader_address,
                replication_interval: Duration::from_millis(transfer.interval_ms),
                replication_max_batch_size: transfer.max_batch_size,
                replication_max_snapshot_size: transfer.max_snapshot_size,
                cluster_enabled: cluster.enabled,
                cluster_node_id: cluster.node_id,
                cluster_nodes: cluster.nodes,
                cluster_virtual_nodes: cluster.virtual_nodes,
            },
        )
    }

    /// The configuration whose settings a lookup gives under their names.
    pub fn from_lookup<F: Fn(&str) -> Option<String>>(lookup: F) -> (config: Result<
        Self,
        ConfigError,
    >)
        requires
            forall|name: &str| call_requires(lookup, (name,)),
        ensures
            exists|settings: Settings|
                #[trigger] answers(lookup, settings) && match config {
                    Ok(config) => config_of(settings@) == Ok::<ConfigView, ConfigErrorView>(
                        config@,
                    ),
                    Err(error) => config_of(settings@) == Err::<ConfigView, ConfigErrorView>(
                        error@,
                    ),
                },
    {
        let settings: Settings = Settings {
            host: lookup("FORGEKV_HOST"),
            port: lookup("FORGEKV_PORT"),
            data_dir: lookup("FORGEKV_DATA_DIR"),
            shards: lookup("FORGEKV_SHARDS"),
            max_frame_size: lookup("FORGEKV_MAX_FRAME_SIZE"),
            max_key_size: lookup("FORGEKV_MAX_KEY_SIZE"),
            max_value_size: lookup("FORGEKV_MAX_VALUE_SIZE"),
            expiration_interval_ms: lookup("FORGEKV_EXPIRATION_INTERVAL_MS"),
            fsync: lookup("FORGEKV_FSYNC"),
            max_connections: lookup("FORGEKV_MAX_CONNECTIONS"),
            wal_compaction_threshold_bytes: lookup("FORGEKV_WAL_COMPACTION_THRESHOLD_BYTES"),
            metrics_enabled: lookup("FORGEKV_METRICS_ENABLED"),
            metrics_host: lookup("FORGEKV_METRICS_HOST"),
            metrics_port: lookup("FORGEKV_METRICS_PORT"),
            role: lookup("FORGEKV_ROLE"),
            replication_host: lookup("FORGEKV_REPLICATION_HOST"),
            replication_port: lookup("FORGEKV_REPLICATION_PORT"),
            leader_address: lookup("FORGEKV_LEADER_ADDRESS"),
            replication_interval_ms: lookup("FORGEKV_REPLICATION_INTERVAL_MS"),
            replication_max_batch_size: lookup("FORGEKV_REPLICATION_MAX_BATCH_SIZE"),
            replication_max_snapshot_size: lookup("FORGEKV_REPLICATION_MAX_SNAPSHOT_SIZE"),
            cluster_enabled: lookup("FORGEKV_CLUSTER_ENABLED"),
            cluster_node_id: lookup("FORGEKV_CLUSTER_NODE_ID"),
            cluster_nodes: lookup("FORGEKV_CLUSTER_NODES"),
            cluster_virtual_nodes: lookup("FORGEKV_CLUSTER_VIRTUAL_NODES"),
        };
        assert(answers(lookup, settings));
        Self::from_settings(&settings)
    }

    /// Where the server listens.
    pub fn listen_address(&self) -> (address: String)
        ensures
            address@ == endpoint(self@.host, self@.port),
    {
        join_address(self.host.as_str(), self.port)
    }

    /// The log file.
    pub fn wal_path(&self) -> (path: String)
        ensures
            path@ == file_in(self@.data_dir, "forgekv.wal"@),
    {
        join_path(self.data_dir.as_str(), "forgekv.wal")
    }

    /// The snapshot file.
    pub fn snapshot_path(&self) -> (path: String)
        ensures
            path@ == file_in(self@.data_dir, "forgekv.snapshot"@),
    {
        join_path(self.data_dir.as_str(), "forgekv.snapshot")
    }

    /// Where the metrics endpoint listens.
    pub fn metrics_address(&self) -> (address: String)
        ensures
            address@ == endpoint(self@.metrics_host, self@.metrics_port),
    {
        join_address(self.metrics_host.as_str(), self.metrics_port)
    }

    /// Where a leader listens for followers.
    pub fn replication_address(&self) -> (address: String)
        ensures
            address@ == endpoint(self@.replication_host, self@.replication_port),
    {
        join_address(self.replication_host.as_str(), self.replication_port)
    }

    /// The file with the node's identity.
    pub fn node_id_path(&self) -> (path: String)
        ensures
            path@ == file_in(self@.data_dir, "forgekv.node"@),
    {
        join_path(self.data_dir.as_str(), "forgekv.node")
    }

    /// The file with the log's generation.
    pub fn wal_generation_path(&self) -> (path: String)
        ensures
            path@ == file_in(self@.data_dir, "forgekv.generation"@),
    {
        join_path(self.data_dir.as_str(), "forgekv.generation")
    }

    /// The file with a follower's progress.
    pub fn replication_state_path(&self) -> (path: String)
        ensures
            path@ == file_in(self@.data_dir, "forgekv.replica"@),
    {
        join_path(self.data_dir.as_str(), "forgekv.replica")
    }
}

/// Without any setting, a server has the default configuration.
pub proof fn law_defaults_are_accepted()
    ensures
        config_of(no_settings()) == Ok::<ConfigView, ConfigErrorView>(default_config()),
{
    reveal_strlit("127.0.0.1");
    reveal_strlit("127.0.0.1:6381");
    reveal_strlit("data");
    reveal_strlit("always");
    reveal_strlit("standalone");
    assert(!blank("127.0.0.1"@));
    assert(lowered("always"@) =~= "always"@);
    assert(lowered("standalone"@) =~= "standalone"@);
}

/// Settings of which none was made.
pub open spec fn no_settings() -> SettingsView {
    SettingsView {
        host: None,
        port: None,
        data_dir: None,
        shards: None,
        max_frame_size: None,
        max_key_size: None,
        max_value_size: None,
        expiration_interval_ms: None,
        fsync: None,
        max_connections: None,
        wal_compaction_threshold_bytes: None,
        metrics_enabled: None,
        metrics_host: None,
        metrics_port: None,
        role: None,
        replication_host: None,
        replication_port: None,
        leader_address: None,
        replication_interval_ms: None,
        replication_max_batch_size: None,
        replication_max_snapshot_size: None,
        cluster_enabled: None,
        cluster_node_id: None,
        cluster_nodes: None,
        cluster_virtual_nodes: None,
    }
}

/// An accepted configuration keeps what the rest of the server relies on.
pub proof fn law_accepted_configurations_are_sound(s: SettingsView)
    requires
        config_of(s) is Ok,
    ensures
        ({
            let c = config_of(s)->Ok_0;
            &&& c.port > 0
            &&& 1 <= c.shards <= 4096
            &&& 2 <= c.max_frame_size <= u32::MAX
            &&& c.max_key_size > 0 && c.max_value_size > 0
            &&& c.expiration_interval.nanos > 0
            &&& 1 <= c.max_connections <= 1_000_000
            &&& c.metrics_enabled ==> c.metrics_port > 0
            &&& c.replication_role == ReplicationRole::Leader ==> c.replication_port > 0
            &&& c.replication_interval.nanos > 0
            &&& c.replication_role != ReplicationRole::Standalone ==> c.max_key_size
                + c.max_value_size + 36 <= c.replication_max_batch_size
            &&& c.cluster_enabled ==> c.replication_role == ReplicationRole::Standalone
                && topology_of(c.cluster_node_id, c.cluster_nodes, c.cluster_virtual_nodes) is Ok
        }),
{
}

/// Whether a setting is not made, or is a number up to `maximum`.
pub open spec fn numeric(value: Option<Seq<char>>, maximum: nat) -> bool {
    value is Some ==> unsigned_number(value->0) is Some && unsigned_number(value->0)->0 <= maximum
}

/// The number that a setting gives, or what it is when it is not made.
pub open spec fn amount(value: Option<Seq<char>>, otherwise: nat) -> nat {
    if value is Some {
        unsigned_number(value->0)->0
    } else {
        otherwise
    }
}

/// The text that a setting gives, or what it is when it is not made.
pub open spec fn wording(value: Option<Seq<char>>, otherwise: Seq<char>) -> Seq<char> {
    if value is Some {
        value->0
    } else {
        otherwise
    }
}

/// Whether a setting is made and names `name`, in either case.
pub open spec fn spells(value: Option<Seq<char>>, name: Seq<char>) -> bool {
    value is Some && lowered(value->0) == name
}

/// Whether every setting is within its limits, and they go together.
pub open spec fn acceptable(s: SettingsView) -> bool {
    let follows = spells(s.role, "follower"@);
    let leads = spells(s.role, "leader"@);
    let measured = s.metrics_enabled != Some("false"@);
    let clustered = s.cluster_enabled == Some("true"@);
    let largest = 36 + amount(s.max_key_size, 4096) + amount(s.max_value_size, 1048576);
    &&& numeric(s.port, u16::MAX as nat)
    &&& numeric(s.shards, usize::MAX as nat)
    &&& numeric(s.max_frame_size, usize::MAX as nat)
    &&& numeric(s.max_key_size, usize::MAX as nat)
    &&& numeric(s.max_value_size, usize::MAX as nat)
    &&& numeric(s.expiration_interval_ms, u64::MAX as nat)
    &&& numeric(s.max_connections, usize::MAX as nat)
    &&& numeric(s.wal_compaction_threshold_bytes, u64::MAX as nat)
    &&& numeric(s.metrics_port, u16::MAX as nat)
    &&& numeric(s.replication_port, u16::MAX as nat)
    &&& numeric(s.replication_interval_ms, u64::MAX as nat)
    &&& numeric(s.replication_max_batch_size, usize::MAX as nat)
    &&& numeric(s.replication_max_snapshot_size, usize::MAX as nat)
    &&& numeric(s.cluster_virtual_nodes, usize::MAX as nat)
    &&& trimmed(wording(s.host, "127.0.0.1"@)).len() > 0
    &&& amount(s.port, 6380) > 0
    &&& wording(s.data_dir, "data"@).len() > 0
    &&& 1 <= amount(s.shards, 64) <= 4096
    &&& 2 <= amount(s.max_frame_size, 1048576) <= 4294967295
    &&& amount(s.max_key_size, 4096) > 0
    &&& amount(s.max_value_size, 1048576) > 0
    &&& amount(s.expiration_interval_ms, 1000) > 0
    &&& s.fsync is None || spells(s.fsync, "always"@) || spells(s.fsync, "everysec"@) || spells(
        s.fsync,
        "none"@,
    )
    &&& 1 <= amount(s.max_connections, 1024) <= 1_000_000
    &&& s.metrics_enabled is None || s.metrics_enabled == Some("true"@) || s.metrics_enabled
        == Some("false"@)
    &&& measured ==> trimmed(wording(s.metrics_host, "127.0.0.1"@)).len() > 0 && amount(
        s.metrics_port,
        9090,
    ) > 0
    &&& s.role is None || spells(s.role, "standalone"@) || leads || follows
    &&& leads ==> trimmed(wording(s.replication_host, "127.0.0.1"@)).len() > 0 && amount(
        s.replication_port,
        6381,
    ) > 0
    &&& follows ==> trimmed(wording(s.leader_address, "127.0.0.1:6381"@)).len() > 0
    &&& amount(s.replication_interval_ms, 250) > 0
    &&& 36 <= amount(s.replication_max_batch_size, 4194304) <= 67108864
    &&& leads || follows ==> largest <= amount(s.replication_max_batch_size, 4194304)
    &&& 16 <= amount(s.replication_max_snapshot_size, 268435456) <= 1073741824
    &&& s.cluster_enabled is None || s.cluster_enabled == Some("true"@) || s.cluster_enabled
        == Some("false"@)
    &&& clustered ==> !leads && !follows && topology_of(
        wording(s.cluster_node_id, ""@),
        wording(s.cluster_nodes, ""@),
        amount(s.cluster_virtual_nodes, 128) as usize,
    ) is Ok
}

proof fn lemma_words()
    ensures
        lowered("always"@) == "always"@,
        lowered("standalone"@) == "standalone"@,
        "always"@ != "everysec"@,
        "always"@ != "none"@,
        "everysec"@ != "none"@,
        "standalone"@ != "leader"@,
        "standalone"@ != "follower"@,
        "leader"@ != "follower"@,
        "true"@ != "false"@,
        !blank("127.0.0.1"@),
        !blank("127.0.0.1:6381"@),
        "data"@.len() > 0,
{
    reveal_strlit("always");
    reveal_strlit("everysec");
    reveal_strlit("none");
    reveal_strlit("standalone");
    reveal_strlit("leader");
    reveal_strlit("follower");
    reveal_strlit("true");
    reveal_strlit("false");
    reveal_strlit("127.0.0.1");
    reveal_strlit("127.0.0.1:6381");
    reveal_strlit("data");
    assert(lowered("always"@) =~= "always"@);
    assert(lowered("standalone"@) =~= "standalone"@);
    assert("everysec"@[0] != "none"@[0]);
    assert("leader"@[0] != "follower"@[0]);
    assert("true"@[0] != "false"@[0]);
}

/// Settings are accepted exactly where each is within its limits and they go together.
#[verifier::spinoff_prover]
#[verifier::rlimit(80)]
pub proof fn law_acceptable_settings_are_accepted(s: SettingsView)
    ensures
        config_of(s) is Ok <==> acceptable(s),
{
    lemma_words();
    assert(role_of(text_or(s.role, "standalone"@)) == (if spells(s.role, "follower"@) {
        Some(ReplicationRole::Follower)
    } else if spells(s.role, "leader"@) {
        Some(ReplicationRole::Leader)
    } else if s.role is None || spells(s.role, "standalone"@) {
        Some(ReplicationRole::Standalone)
    } else {
        None
    }));
}

/// An accepted configuration has in each place what the setting of that name gives, and where that
/// is not made, what is usual. Intervals are given in milliseconds.
#[verifier::spinoff_prover]
#[verifier::rlimit(80)]
pub proof fn law_configurations_are_as_set(s: SettingsView)
    requires
        config_of(s) is Ok,
    ensures
        ({
            let c = config_of(s)->Ok_0;
            &&& c.port == amount(s.port, 6380)
            &&& c.shards == amount(s.shards, 64)
            &&& c.max_frame_size == amount(s.max_frame_size, 1048576)
            &&& c.max_key_size == amount(s.max_key_size, 4096)
            &&& c.max_value_size == amount(s.max_value_size, 1048576)
            &&& c.expiration_interval.nanos == amount(s.expiration_interval_ms, 1000) * 1_000_000
            &&& c.max_connections == amount(s.max_connections, 1024)
            &&& c.wal_compaction_threshold_bytes == amount(s.wal_compaction_threshold_bytes, 67108864)
            &&& c.metrics_port == amount(s.metrics_port, 9090)
            &&& c.replication_port == amount(s.replication_port, 6381)
            &&& c.replication_interval.nanos == amount(s.replication_interval_ms, 250) * 1_000_000
            &&& c.replication_max_batch_size == amount(s.replication_max_batch_size, 4194304)
            &&& c.replication_max_snapshot_size == amount(s.replication_max_snapshot_size, 268435456)
            &&& c.cluster_virtual_nodes == amount(s.cluster_virtual_nodes, 128)
            &&& c.host == wording(s.host, "127.0.0.1"@)
            &&& c.data_dir == wording(s.data_dir, "data"@)
            &&& c.metrics_host == wording(s.metrics_host, "127.0.0.1"@)
            &&& c.replication_host == wording(s.replication_host, "127.0.0.1"@)
            &&& c.leader_address == wording(s.leader_address, "127.0.0.1:6381"@)
            &&& c.cluster_node_id == wording(s.cluster_node_id, ""@)
            &&& c.cluster_nodes == wording(s.cluster_nodes, ""@)
            &&& c.fsync == FsyncMode::Always <==> s.fsync is None || spells(s.fsync, "always"@)
            &&& c.fsync == FsyncMode::EverySecond <==> spells(s.fsync, "everysec"@)
            &&& c.fsync == FsyncMode::Never <==> spells(s.fsync, "none"@)
            &&& c.replication_role == ReplicationRole::Standalone <==> s.role is None || spells(
                s.role,
                "standalone"@,
            )
            &&& c.replication_role == ReplicationRole::Leader <==> spells(s.role, "leader"@)
            &&& c.replication_role == ReplicationRole::Follower <==> spells(s.role, "follower"@)
            &&& c.metrics_enabled <==> s.metrics_enabled != Some("false"@)
            &&& c.cluster_enabled <==> s.cluster_enabled == Some("true"@)
        }),
{
    lemma_words();
}

/// Whether settings are refused with a complaint about one of them.
pub open spec fn complains_of(
    s: SettingsView,
    name: Seq<char>,
    value: Seq<char>,
    expected: Seq<char>,
) -> bool {
    config_of(s) == Err::<ConfigView, ConfigErrorView>(
        ConfigErrorView::InvalidValue { name, value, expected },
    )
}

/// Where everything else is in order, a text that is no number is complained of under the name of
/// the setting that it was given for.
#[verifier::spinoff_prover]
#[verifier::rlimit(80)]
pub proof fn law_complaints_name_the_number(s: SettingsView, text: Seq<char>)
    requires
        acceptable(s),
        unsigned_number(text) is None,
    ensures
        complains_of(
            (SettingsView { port: Some(text), ..s }),
            "FORGEKV_PORT"@,
            text,
            "valid positive integer"@,
        ),
        complains_of(
            (SettingsView { shards: Some(text), ..s }),
            "FORGEKV_SHARDS"@,
            text,
            "valid positive integer"@,
        ),
        complains_of(
            (SettingsView { max_frame_size: Some(text), ..s }),
            "FORGEKV_MAX_FRAME_SIZE"@,
            text,
            "valid positive integer"@,
        ),
        complains_of(
            (SettingsView { max_key_size: Some(text), ..s }),
            "FORGEKV_MAX_KEY_SIZE"@,
            text,
            "valid positive integer"@,
        ),
        complains_of(
            (SettingsView { max_value_size: Some(text), ..s }),
            "FORGEKV_MAX_VALUE_SIZE"@,
            text,
            "valid positive integer"@,
        ),
        complains_of(
            (SettingsView { expiration_interval_ms: Some(text), ..s }),
            "FORGEKV_EXPIRATION_INTERVAL_MS"@,
            text,
            "valid positive integer"@,
        ),
        complains_of(
            (SettingsView { max_connections: Some(text), ..s }),
            "FORGEKV_MAX_CONNECTIONS"@,
            text,
            "valid positive integer"@,
        ),
        complains_of(
            (SettingsView { wal_compaction_threshold_bytes: Some(text), ..s }),
            "FORGEKV_WAL_COMPACTION_THRESHOLD_BYTES"@,
            text,
            "valid positive integer"@,
        ),
        complains_of(
            (SettingsView { metrics_port: Some(text), ..s }),
            "FORGEKV_METRICS_PORT"@,
            text,
            "valid positive integer"@,
        ),
        complains_of(
            (SettingsView { replication_port: Some(text), ..s }),
            "FORGEKV_REPLICATION_PORT"@,
            text,
            "valid positive integer"@,
        ),
        complains_of(
            (SettingsView { replication_interval_ms: Some(text), ..s }),
            "FORGEKV_REPLICATION_INTERVAL_MS"@,
            text,
            "valid positive integer"@,
        ),
        complains_of(
            (SettingsView { replication_max_batch_size: Some(text), ..s }),
            "FORGEKV_REPLICATION_MAX_BATCH_SIZE"@,
            text,
            "valid positive integer"@,
        ),
        complains_of(
            (SettingsView { replication_max_snapshot_size: Some(text), ..s }),
            "FORGEKV_REPLICATION_MAX_SNAPSHOT_SIZE"@,
            text,
            "valid positive integer"@,
        ),
        complains_of(
            (SettingsView { cluster_virtual_nodes: Some(text), ..s }),
            "FORGEKV_CLUSTER_VIRTUAL_NODES"@,
            text,
            "valid positive integer"@,
        ),
{
    lemma_words();
    law_acceptable_settings_are_accepted(s);
}

/// Where everything else is in order, a number beyond its limits is complained of under the name of
/// the setting that it was given for.
#[verifier::spinoff_prover]
#[verifier::rlimit(80)]
pub proof fn law_complaints_name_the_setting(
    s: SettingsView,
    text: Seq<char>,
    number: usize,
)
    requires
        acceptable(s),
        unsigned_number(text) == Some(number as nat),
    ensures
        number == 0 ==> complains_of(
            (SettingsView { port: Some(text), ..s }),
            "FORGEKV_PORT"@,
            "0"@,
            "port in 1..=65535"@,
        ),
        number == 0 || number > 4096 ==> complains_of(
            (SettingsView { shards: Some(text), ..s }),
            "FORGEKV_SHARDS"@,
            decimal(number as nat),
            "integer in 1..=4096"@,
        ),
{
    lemma_words();
    law_acceptable_settings_are_accepted(s);
}

/// The same holds of the sizes of frames and of the time between two looks for expired values.
#[verifier::spinoff_prover]
#[verifier::rlimit(80)]
pub proof fn law_complaints_name_the_size(
    s: SettingsView,
    text: Seq<char>,
    number: usize,
)
    requires
        acceptable(s),
        unsigned_number(text) == Some(number as nat),
    ensures
        number < 2 ==> complains_of(
            (SettingsView { max_frame_size: Some(text), ..s }),
            "FORGEKV_MAX_FRAME_SIZE"@,
            decimal(number as nat),
            "integer of at least 2 bytes"@,
        ),
        number > 4294967295 ==> complains_of(
            (SettingsView { max_frame_size: Some(text), ..s }),
            "FORGEKV_MAX_FRAME_SIZE"@,
            decimal(number as nat),
            "integer no greater than u32::MAX"@,
        ),
        number == 0 ==> complains_of(
            (SettingsView { expiration_interval_ms: Some(text), ..s }),
            "FORGEKV_EXPIRATION_INTERVAL_MS"@,
            "0"@,
            "positive integer milliseconds"@,
        ),
{
    lemma_words();
    law_acceptable_settings_are_accepted(s);
}

/// The same holds of the limits of connections and of what is replicated.
#[verifier::spinoff_prover]
#[verifier::rlimit(80)]
pub proof fn law_complaints_name_the_limit(
    s: SettingsView,
    text: Seq<char>,
    number: usize,
)
    requires
        acceptable(s),
        unsigned_number(text) == Some(number as nat),
    ensures
        number == 0 || number > 1_000_000 ==> complains_of(
            (SettingsView { max_connections: Some(text), ..s }),
            "FORGEKV_MAX_CONNECTIONS"@,
            decimal(number as nat),
            "integer in 1..=1000000"@,
        ),
        number == 0 ==> complains_of(
            (SettingsView { replication_interval_ms: Some(text), ..s }),
            "FORGEKV_REPLICATION_INTERVAL_MS"@,
            "0"@,
            "positive integer milliseconds"@,
        ),
        number < 36 || number > 67108864 ==> complains_of(
            (SettingsView { replication_max_batch_size: Some(text), ..s }),
            "FORGEKV_REPLICATION_MAX_BATCH_SIZE"@,
            decimal(number as nat),
            "integer in 36..=67108864"@,
        ),
        number < 16 || number > 1073741824 ==> complains_of(
            (SettingsView { replication_max_snapshot_size: Some(text), ..s }),
            "FORGEKV_REPLICATION_MAX_SNAPSHOT_SIZE"@,
            decimal(number as nat),
            "integer in 16..=1073741824"@,
        ),
{
    lemma_words();
    law_acceptable_settings_are_accepted(s);
}

/// Where everything else is in order, a word that is none of those that are known is complained of
/// under the name of the setting that it was given for.
#[verifier::spinoff_prover]
#[verifier::rlimit(80)]
pub proof fn law_complaints_name_the_word(s: SettingsView, text: Seq<char>)
    requires
        acceptable(s),
    ensures
        trimmed(text).len() == 0 ==> complains_of(
            (SettingsView { host: Some(text), ..s }),
            "FORGEKV_HOST"@,
            text,
            "non-empty host"@,
        ),
        text.len() == 0 ==> complains_of(
            (SettingsView { data_dir: Some(text), ..s }),
            "FORGEKV_DATA_DIR"@,
            text,
            "non-empty directory path"@,
        ),
        lowered(text) != "always"@ && lowered(text) != "everysec"@ && lowered(text) != "none"@
            ==> complains_of(
            (SettingsView { fsync: Some(text), ..s }),
            "FORGEKV_FSYNC"@,
            text,
            "one of: always, everysec, none"@,
        ),
        lowered(text) != "standalone"@ && lowered(text) != "leader"@ && lowered(text)
            != "follower"@ ==> complains_of(
            (SettingsView { role: Some(text), ..s }),
            "FORGEKV_ROLE"@,
            text,
            "one of: standalone, leader, follower"@,
        ),
        text != "true"@ && text != "false"@ ==> complains_of(
            (SettingsView { metrics_enabled: Some(text), ..s }),
            "FORGEKV_METRICS_ENABLED"@,
            text,
            "true or false"@,
        ),
        text != "true"@ && text != "false"@ ==> complains_of(
            (SettingsView { cluster_enabled: Some(text), ..s }),
            "FORGEKV_CLUSTER_ENABLED"@,
            text,
            "true or false"@,
        ),
{
    lemma_words();
    law_acceptable_settings_are_accepted(s);
    reveal_strlit("");
    if text.len() == 0 {
        assert(text =~= ""@);
    }
}

/// Every file lies in the data directory: a slash stands between the directory and the file's
/// name, where the directory does not end with one.
pub proof fn law_files_lie_in_the_directory(directory: Seq<char>, name: Seq<char>)
    requires
        directory.len() > 0,
        directory.last() != '/',
    ensures
        file_in(directory, name) == directory + seq!['/'] + name,
        file_in(directory.push('/'), name) == directory + seq!['/'] + name,
{
    assert(directory.push('/') =~= directory + seq!['/']);
}

/// An address is its host, a colon, and its port in decimal: both can be told from it.
pub proof fn law_endpoints_name_host_and_port(host: Seq<char>, port: u16)
    ensures
        ({
            let address = endpoint(host, port);
            let digits = address.skip((host.len() + 1) as int);
            &&& address.take(host.len() as int) == host
            &&& address[host.len() as int] == ':'
            &&& unsigned_number(digits) == Some(port as nat)
            &&& !digits.contains(':') && digits.len() > 0 && digits[0] != '+'
        }),
{
    crate::text::law_decimal_round_trip(port as nat);
    crate::text::lemma_decimal_digits(port as nat);
    let address = endpoint(host, port);
    assert(address.take(host.len() as int) =~= host);
    assert(address.skip((host.len() + 1) as int) =~= decimal(port as nat));
    assert forall|i: int| 0 <= i < decimal(port as nat).len() implies decimal(port as nat)[i]
        != ':' by {}
}

/// Whether two settings agree on the first parts: the address, the directory and the shards first,
/// then the sizes, the storage, the metrics, and the role in replication.
pub open spec fn agree(s: SettingsView, t: SettingsView, part: int) -> bool {
    &&& part >= 1 ==> s.host == t.host && s.port == t.port && s.data_dir == t.data_dir && s.shards == t.shards
    &&& part >= 2 ==> s.max_frame_size == t.max_frame_size && s.max_key_size == t.max_key_size && s.max_value_size == t.max_value_size
    &&& part >= 3 ==> s.expiration_interval_ms == t.expiration_interval_ms && s.fsync == t.fsync && s.max_connections == t.max_connections && s.wal_compaction_threshold_bytes == t.wal_compaction_threshold_bytes
    &&& part >= 4 ==> s.metrics_enabled == t.metrics_enabled && s.metrics_host == t.metrics_host && s.metrics_port == t.metrics_port
    &&& part >= 5 ==> s.role == t.role && s.replication_host == t.replication_host && s.replication_port == t.replication_port && s.leader_address == t.leader_address
}

/// Whether the settings of the first parts are in order.
pub open spec fn sound_up_to(s: SettingsView, part: int) -> bool {
    let leads = spells(s.role, "leader"@);
    let follows = spells(s.role, "follower"@);
    let measured = s.metrics_enabled is None || s.metrics_enabled == Some("true"@);
    &&& part >= 1 ==> {
        &&& numeric(s.port, u16::MAX as nat) && amount(s.port, 6380) > 0
        &&& numeric(s.shards, usize::MAX as nat) && 1 <= amount(s.shards, 64) <= 4096
        &&& trimmed(wording(s.host, "127.0.0.1"@)).len() > 0
        &&& wording(s.data_dir, "data"@).len() > 0
    }
    &&& part >= 2 ==> {
        &&& numeric(s.max_frame_size, usize::MAX as nat)
        &&& 2 <= amount(s.max_frame_size, 1048576) <= 4294967295
        &&& numeric(s.max_key_size, usize::MAX as nat) && amount(s.max_key_size, 4096) > 0
        &&& numeric(s.max_value_size, usize::MAX as nat) && amount(s.max_value_size, 1048576) > 0
    }
    &&& part >= 3 ==> {
        &&& numeric(s.expiration_interval_ms, u64::MAX as nat)
        &&& amount(s.expiration_interval_ms, 1000) > 0
        &&& s.fsync is None || spells(s.fsync, "always"@) || spells(s.fsync, "everysec"@) || spells(
            s.fsync,
            "none"@,
        )
        &&& numeric(s.max_connections, usize::MAX as nat)
        &&& 1 <= amount(s.max_connections, 1024) <= 1_000_000
        &&& numeric(s.wal_compaction_threshold_bytes, u64::MAX as nat)
    }
    &&& part >= 4 ==> {
        &&& measured || s.metrics_enabled == Some("false"@)
        &&& numeric(s.metrics_port, u16::MAX as nat)
        &&& measured ==> trimmed(wording(s.metrics_host, "127.0.0.1"@)).len() > 0 && amount(
            s.metrics_port,
            9090,
        ) > 0
    }
    &&& part >= 5 ==> {
        &&& s.role is None || spells(s.role, "standalone"@) || leads || follows
        &&& numeric(s.replication_port, u16::MAX as nat)
        &&& leads ==> trimmed(wording(s.replication_host, "127.0.0.1"@)).len() > 0 && amount(
            s.replication_port,
            6381,
        ) > 0
        &&& follows ==> trimmed(wording(s.leader_address, "127.0.0.1:6381"@)).len() > 0
    }
}

/// What is complained of does not depend on what comes later: settings that agree on their first
/// parts, where those are not in order, are refused with the same complaint.
#[verifier::spinoff_prover]
#[verifier::rlimit(80)]
pub proof fn law_earlier_settings_are_complained_of_first(
    s: SettingsView,
    t: SettingsView,
    part: int,
)
    requires
        1 <= part <= 5,
        agree(s, t, part),
        !sound_up_to(s, part),
    ensures
        config_of(s) is Err,
        config_of(s) == config_of(t),
{
    lemma_words();
    if part >= 1 {
        assert(base_problem(s) == base_problem(t));
        assert(base_problem(s) is None <==> sound_up_to(s, 1));
    }
    if part >= 2 {
        assert(size_problem(s) == size_problem(t));
        assert(base_problem(s) is None && size_problem(s) is None <==> sound_up_to(s, 2));
    }
    if part >= 3 {
        assert(storage_problem(s) == storage_problem(t));
        assert(storage_problem(s) is None && sound_up_to(s, 2) <==> sound_up_to(s, 3));
    }
    if part >= 4 {
        assert(metrics_problem(s) == metrics_problem(t));
        assert(metrics_problem(s) is None && sound_up_to(s, 3) <==> sound_up_to(s, 4));
    }
    if part >= 5 {
        assert(role_problem(s) == role_problem(t));
        assert(role_problem(s) is None && sound_up_to(s, 4) <==> sound_up_to(s, 5));
    }
}

} // verus!
