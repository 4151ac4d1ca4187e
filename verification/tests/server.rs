use bytes::Bytes;
use forgekv::client::{Exchange, Step};
use forgekv::cluster::ClusterTopology;
use forgekv::command::Command;
use forgekv::config::{Config, FsyncMode, ReplicationRole};
use forgekv::error::ProtocolError;
use forgekv::metrics::Metrics;
use forgekv::persistence::identity::{generation_text, DataFiles, Identity};
use forgekv::persistence::{prepare_wal, Database, WAL_HEADER};
use forgekv::protocol::{read_frame, Frame, Opcode, ProtocolLimits, Response};
use forgekv::server::connection::Action;
use forgekv::server::lifecycle::{Event, Lifecycle, Reaction};
use forgekv::server::metrics_export::{answer_http, render_prometheus};
use forgekv::server::Server;
use forgekv::store::ShardedStore;
use forgekv::time::{Duration, Timestamp};

fn at(millis: u64) -> Timestamp {
    Timestamp::from_millis(millis)
}

/// A server with its log in memory.
struct Running {
    server: Server,
    database: Database,
    wal: Vec<u8>,
    now: u64,
}

impl Running {
    fn start() -> Self {
        Self::with(Config {
            host: "127.0.0.1".to_owned(),
            port: 6380,
            shards: 8,
            max_frame_size: 64 * 1024,
            max_key_size: 1024,
            max_value_size: 32 * 1024,
            fsync: FsyncMode::Never,
            ..Config::default()
        })
    }

    fn with(config: Config) -> Self {
        let mut files = DataFiles {
            generation: None,
            node_id: None,
            snapshot: None,
            wal: Vec::new(),
        };
        let identity = Identity::establish(&files, at(1), 1).expect("identity");
        files.node_id = Some(identity.node_id.clone());
        files.generation = Some(generation_text(identity.generation));
        assert!(prepare_wal(&files.wal).expect("log"));
        files.wal.extend_from_slice(&WAL_HEADER);
        let store = ShardedStore::new(config.shards, Metrics::default()).expect("store");
        let (database, _) =
            Database::open(&config, identity, &files, store, at(1)).expect("database");
        let server = Server::new(&config, config.listen_address()).expect("server");
        Self {
            server,
            database,
            wal: files.wal,
            now: 1_000,
        }
    }

    fn decode(&self, encoded: &[u8]) -> Response {
        let (frame, used) = read_frame(encoded, self.database.limits())
            .expect("reply should read")
            .expect("reply should be there");
        assert_eq!(used, encoded.len());
        Response::from_frame(frame).expect("reply should decode")
    }

    fn send(&mut self, command: Command) -> Response {
        let frame = command.into_frame().expect("command should encode");
        let now = at(self.now);
        match self
            .server
            .on_read(Ok(Some(frame)), &mut self.database, now, 42)
        {
            Action::Reply(encoded) => self.decode(&encoded),
            Action::Append(staged) => {
                self.wal.extend_from_slice(&staged.write.encoded);
                match self.server.on_append(staged, true, &mut self.database, now) {
                    Action::Reply(encoded) => self.decode(&encoded),
                    other => panic!("unexpected action {other:?}"),
                }
            }
            other => panic!("unexpected action {other:?}"),
        }
    }

    fn set(&mut self, key: &Bytes, value: &'static [u8]) -> Response {
        self.send(Command::Put {
            key: key.clone(),
            value: Bytes::from_static(value),
        })
    }

    fn get(&mut self, key: &Bytes) -> Response {
        self.send(Command::Get { key: key.clone() })
    }
}

fn cluster_node(id: &str, membership: &str) -> Running {
    Running::with(Config {
        shards: 8,
        fsync: FsyncMode::Never,
        metrics_enabled: false,
        cluster_enabled: true,
        cluster_node_id: id.to_owned(),
        cluster_nodes: membership.to_owned(),
        cluster_virtual_nodes: 64,
        ..Config::default()
    })
}

fn text(value: &str) -> Bytes {
    Bytes::copy_from_slice(value.as_bytes())
}

#[test]
fn renders_prometheus_text() {
    let mut metrics = Metrics::default();
    metrics.command();
    let output = render_prometheus(&metrics);
    assert!(output.contains("forgekv_commands_total 1\n"));
    assert!(!output.contains('{'));
}

#[test]
fn ping_set_get_delete_over_tcp() {
    let mut server = Running::start();
    assert_eq!(server.send(Command::Ping), Response::Pong);
    assert_eq!(
        server.send(Command::Put {
            key: Bytes::from_static(b"key"),
            value: Bytes::from_static(b"value"),
        }),
        Response::Success
    );
    assert_eq!(
        server.send(Command::Get {
            key: Bytes::from_static(b"key")
        }),
        Response::Value(Bytes::from_static(b"value"))
    );
    assert_eq!(
        server.send(Command::Del {
            key: Bytes::from_static(b"key")
        }),
        Response::Integer(1)
    );
}

#[test]
fn multiple_clients_are_processed_concurrently() {
    let mut server = Running::start();
    for index in 0..16 {
        let key = Bytes::from(format!("key:{index}"));
        server.set(&key, b"value");
    }
    for index in 0..16 {
        let key = Bytes::from(format!("key:{index}"));
        assert_eq!(
            server.get(&key),
            Response::Value(Bytes::from_static(b"value"))
        );
    }
}

#[test]
fn malformed_protocol_returns_structured_error() {
    let mut server = Running::start();
    let limits = server.database.limits();
    let (frame, _) = read_frame(&[0, 0, 0, 2, 1, 0xff], limits)
        .expect("frame should read")
        .expect("frame should be there");
    let action = server
        .server
        .on_read(Ok(Some(frame)), &mut server.database, at(0), 0);
    match action {
        Action::Reply(encoded) => assert_eq!(
            server.decode(&encoded),
            Response::InvalidRequest("invalid opcode 0xff".to_owned())
        ),
        other => panic!("unexpected action {other:?}"),
    }
    let counters = server.database.store().metrics().snapshot();
    assert_eq!(counters.protocol_errors_total, 1);
    assert_eq!(counters.commands_total, 0);
}

#[test]
fn broken_frames_end_the_connection() {
    let mut server = Running::start();
    let action = server.server.on_read(
        Err(ProtocolError::Truncated),
        &mut server.database,
        at(0),
        0,
    );
    match action {
        Action::ReplyAndClose(encoded) => assert_eq!(
            server.decode(&encoded),
            Response::InvalidRequest("truncated frame".to_owned())
        ),
        other => panic!("unexpected action {other:?}"),
    }
    assert!(matches!(
        server
            .server
            .on_read(Ok(None), &mut server.database, at(0), 0),
        Action::Close
    ));
    match server
        .server
        .on_broken_frame("I/O error".to_owned(), &mut server.database)
    {
        Action::ReplyAndClose(encoded) => assert_eq!(
            server.decode(&encoded),
            Response::InvalidRequest("I/O error".to_owned())
        ),
        other => panic!("unexpected action {other:?}"),
    }
    assert_eq!(
        server
            .database
            .store()
            .metrics()
            .snapshot()
            .protocol_errors_total,
        2
    );
}

#[test]
fn answers_that_do_not_fit_end_the_connection() {
    let mut server = Running::with(Config {
        shards: 1,
        max_frame_size: 24,
        max_key_size: 8,
        max_value_size: 64,
        ..Config::default()
    });
    let action = server.server.on_frame(
        &Frame::request(Opcode::Info, Bytes::new()),
        &mut server.database,
        at(0),
        0,
    );
    assert!(matches!(
        action,
        Action::Fail(ProtocolError::FrameTooLarge { maximum: 24, .. })
    ));
}

#[test]
fn values_expire_and_can_be_kept() {
    let mut server = Running::start();
    let key = text("session");
    assert_eq!(
        server.send(Command::SetEx {
            key: key.clone(),
            ttl: Duration::from_millis(500),
            value: Bytes::from_static(b"v"),
        }),
        Response::Success
    );
    server.now += 100;
    assert_eq!(
        server.send(Command::Ttl { key: key.clone() }),
        Response::Integer(400)
    );
    assert_eq!(
        server.send(Command::Persist { key: key.clone() }),
        Response::Integer(1)
    );
    assert_eq!(
        server.send(Command::Persist { key: key.clone() }),
        Response::Integer(0)
    );
    assert_eq!(
        server.send(Command::Ttl { key: key.clone() }),
        Response::Integer(-1)
    );
    server.send(Command::SetEx {
        key: key.clone(),
        ttl: Duration::from_millis(500),
        value: Bytes::from_static(b"w"),
    });
    server.now += 500;
    assert_eq!(server.get(&key), Response::NotFound);
    assert_eq!(
        server.send(Command::Ttl { key: key.clone() }),
        Response::Integer(-2)
    );
    assert_eq!(
        server.send(Command::Exists { key: key.clone() }),
        Response::Integer(0)
    );
    assert_eq!(server.send(Command::Del { key }), Response::Integer(0));
}

#[test]
fn other_keys_and_reads_are_left_alone() {
    let mut server = Running::start();
    let (first, second) = (text("first"), text("second"));
    server.set(&first, b"1");
    server.set(&second, b"2");
    let log = server.wal.len();
    server.get(&first);
    server.send(Command::Exists { key: first.clone() });
    server.send(Command::Ttl { key: first.clone() });
    server.send(Command::Info);
    server.send(Command::Stats);
    assert_eq!(server.wal.len(), log);
    server.send(Command::Del { key: first.clone() });
    assert!(server.wal.len() > log);
    assert_eq!(server.get(&first), Response::NotFound);
    assert_eq!(
        server.get(&second),
        Response::Value(Bytes::from_static(b"2"))
    );
}

#[test]
fn the_longest_times_to_live_are_cut() {
    let mut server = Running::start();
    let key = text("k");
    server
        .database
        .store_mut()
        .set_with_expiry(
            key.clone(),
            Bytes::new(),
            Some(Timestamp {
                nanos: i128::from(i64::MAX) * 1_000_000 + 5_000_000_000_000,
            }),
        )
        .expect("set should work");
    assert_eq!(
        server.send(Command::Ttl { key }),
        Response::Integer(i64::MAX)
    );
}

#[test]
fn changes_that_are_not_in_the_log_are_not_made() {
    let mut server = Running::start();
    let key = text("k");
    let frame = Command::Put {
        key: key.clone(),
        value: Bytes::from_static(b"v"),
    }
    .into_frame()
    .expect("command should encode");
    let staged = match server
        .server
        .on_frame(&frame, &mut server.database, at(1), 0)
    {
        Action::Append(staged) => staged,
        other => panic!("unexpected action {other:?}"),
    };
    let before = server.database.wal().bytes_written();
    match server
        .server
        .on_append(staged, false, &mut server.database, at(1))
    {
        Action::Reply(encoded) => assert_eq!(
            server.decode(&encoded),
            Response::ServerError("internal server error".to_owned())
        ),
        other => panic!("unexpected action {other:?}"),
    }
    assert_eq!(server.database.wal().bytes_written(), before);
    assert_eq!(server.get(&key), Response::NotFound);
}

#[test]
fn info_describes_the_server() {
    let mut server = Running::start();
    server.set(&text("a"), b"1");
    server.set(&text("b"), b"2");
    let expected: Vec<(String, String)> = [
        ("version", "0.4.0"),
        ("uptime_seconds", "42"),
        ("keys", "2"),
        ("shards", "8"),
        ("listening_address", "127.0.0.1:6380"),
        ("fsync", "none"),
        ("cluster_enabled", "false"),
    ]
    .iter()
    .map(|(name, value)| ((*name).to_owned(), (*value).to_owned()))
    .collect();
    assert_eq!(server.send(Command::Info), Response::Info(expected));
    assert_eq!(forgekv::VERSION, "0.4.0");
}

#[test]
fn stats_count_what_happened() {
    let mut server = Running::start();
    let key = text("k");
    server.set(&key, b"v");
    server.get(&key);
    server.get(&text("none"));
    let fields = match server.send(Command::Stats) {
        Response::Stats(fields) => fields,
        other => panic!("unexpected response {other:?}"),
    };
    let value = |name: &str| {
        fields
            .iter()
            .find(|(field, _)| field == name)
            .map(|(_, value)| *value)
    };
    assert_eq!(value("commands_total"), Some(4));
    assert_eq!(value("gets_total"), Some(2));
    assert_eq!(value("sets_total"), Some(1));
    assert_eq!(value("hits_total"), Some(1));
    assert_eq!(value("misses_total"), Some(1));
    assert_eq!(value("wal_records_written"), Some(1));
    assert_eq!(
        value("wal_bytes_written"),
        Some(server.wal.len() as u64 - 8)
    );
    assert_eq!(value("cluster_redirects_total"), Some(0));
    assert_eq!(fields[0].0, "connections_total");
}

#[test]
fn followers_refuse_changes() {
    let mut server = Running::with(Config {
        shards: 8,
        replication_role: ReplicationRole::Follower,
        leader_address: "leader:6381".to_owned(),
        ..Config::default()
    });
    let refusal = Response::InvalidRequest("follower is read-only".to_owned());
    let key = text("k");
    assert_eq!(server.set(&key, b"v"), refusal);
    assert_eq!(server.send(Command::Del { key: key.clone() }), refusal);
    assert_eq!(server.send(Command::Persist { key: key.clone() }), refusal);
    assert_eq!(
        server.send(Command::SetEx {
            key: key.clone(),
            ttl: Duration::from_secs(1),
            value: Bytes::new(),
        }),
        refusal
    );
    assert_eq!(server.get(&key), Response::NotFound);
    assert_eq!(server.send(Command::Ping), Response::Pong);
    assert_eq!(server.wal.len(), 8);
}

#[test]
fn connections_are_limited() {
    let mut server = Running::with(Config {
        shards: 1,
        max_connections: 2,
        ..Config::default()
    });
    let mut lifecycle = Lifecycle::new(server.server.max_connections());
    let mut happens = |event: Event| {
        let reaction = lifecycle.on(event);
        server
            .server
            .count_connection(event, reaction, &mut server.database);
        reaction
    };
    assert_eq!(happens(Event::Accepted), Reaction::Serve);
    assert_eq!(happens(Event::Accepted), Reaction::Serve);
    assert_eq!(happens(Event::Accepted), Reaction::Reject);
    assert_eq!(happens(Event::ConnectionEnded), Reaction::Wait);
    assert_eq!(happens(Event::Accepted), Reaction::Serve);
    let counters = server.database.store().metrics().snapshot();
    assert_eq!(counters.connections_total, 3);
    assert_eq!(counters.connections_active, 2);
    assert_eq!(counters.connections_rejected_total, 1);
}

#[test]
fn shutdown_waits_for_connections() {
    let mut lifecycle = Lifecycle::new(8);
    assert_eq!(lifecycle.on(Event::Accepted), Reaction::Serve);
    assert_eq!(lifecycle.on(Event::Accepted), Reaction::Serve);
    assert_eq!(lifecycle.on(Event::ShutdownRequested), Reaction::Wait);
    assert_eq!(lifecycle.on(Event::Accepted), Reaction::Reject);
    assert_eq!(lifecycle.on(Event::ConnectionEnded), Reaction::Wait);
    assert_eq!(lifecycle.on(Event::ConnectionEnded), Reaction::Stop);
    assert_eq!(lifecycle.on(Event::Accepted), Reaction::Stop);
    let mut idle = Lifecycle::new(8);
    assert_eq!(idle.on(Event::ConnectionEnded), Reaction::Wait);
    assert_eq!(idle.on(Event::ShutdownRequested), Reaction::Stop);
}

#[test]
fn client_follows_redirect_to_key_owner() {
    let (address_a, address_b) = ("127.0.0.1:7001", "127.0.0.1:7002");
    let membership = format!("node-a@{address_a},node-b@{address_b}");
    let topology = ClusterTopology::new("node-a", &membership, 64).expect("topology");
    let key = (0..10_000)
        .map(|index| Bytes::from(format!("cluster-key-{index}")))
        .find(|key| topology.owner(key).id() == "node-b")
        .expect("test topology did not assign a key to node-b");

    let mut node_a = cluster_node("node-a", &membership);
    let mut node_b = cluster_node("node-b", &membership);
    let mut execute = |command: Command| {
        let mut exchange = Exchange::new(address_a.to_owned());
        let mut response = node_a.send(command.clone());
        loop {
            match exchange.on_response(response).expect("redirect") {
                Step::Done(answer) => return answer,
                Step::Resend(address) => {
                    assert_eq!(address, address_b);
                    response = node_b.send(command.clone());
                }
            }
        }
    };
    assert_eq!(
        execute(Command::Put {
            key: key.clone(),
            value: Bytes::from_static(b"partitioned-value"),
        }),
        Response::Success
    );
    assert_eq!(
        execute(Command::Get { key: key.clone() }),
        Response::Value(Bytes::from_static(b"partitioned-value"))
    );
    assert_eq!(
        execute(Command::Del { key: key.clone() }),
        Response::Integer(1)
    );
    assert_eq!(execute(Command::Exists { key }), Response::Integer(0));

    let counters = node_a.database.store().metrics().snapshot();
    assert_eq!(counters.cluster_redirects_total, 4);
    assert_eq!(counters.cluster_local_commands_total, 0);
    assert_eq!(node_a.wal.len(), 8);
    let counters = node_b.database.store().metrics().snapshot();
    assert_eq!(counters.cluster_local_commands_total, 4);
}

#[test]
fn node_local_commands_are_not_redirected() {
    let mut node = cluster_node("node-a", "node-a@a:1,node-b@b:1");
    assert_eq!(node.send(Command::Ping), Response::Pong);
    let fields = match node.send(Command::Info) {
        Response::Info(fields) => fields,
        other => panic!("unexpected response {other:?}"),
    };
    let tail: Vec<(&str, &str)> = fields[6..]
        .iter()
        .map(|(name, value)| (name.as_str(), value.as_str()))
        .collect();
    assert_eq!(
        tail,
        [
            ("cluster_enabled", "true"),
            ("cluster_node_id", "node-a"),
            ("cluster_nodes", "2"),
            ("cluster_virtual_nodes", "64"),
        ]
    );
}

#[test]
fn a_server_needs_a_sound_cluster() {
    let config = Config {
        cluster_enabled: true,
        cluster_node_id: "node-c".to_owned(),
        cluster_nodes: "node-a@a:1".to_owned(),
        ..Config::default()
    };
    assert_eq!(
        Server::new(&config, "h:1".to_owned())
            .expect_err("cluster should be refused")
            .message(),
        "FORGEKV_CLUSTER_NODE_ID must appear in FORGEKV_CLUSTER_NODES"
    );
}

#[test]
fn metrics_are_served_over_http() {
    let mut metrics = Metrics::default();
    metrics.set();
    let body = render_prometheus(&metrics);
    let response = answer_http(b"GET /metrics HTTP/1.1\r\nHost: x\r\n\r\n", &metrics);
    assert_eq!(
        response,
        format!(
            "HTTP/1.1 200 OK\r\nContent-Type: text/plain; version=0.0.4; charset=utf-8\r\nContent-Length: {}\r\nConnection: close\r\n\r\n{body}",
            body.len()
        )
    );
    assert!(body.starts_with(
        "# TYPE forgekv_connections_total counter\nforgekv_connections_total 0\n# TYPE forgekv_connections_active gauge\n"
    ));
    assert!(body.ends_with(
        "forgekv_cluster_redirects_total 0\n# TYPE forgekv_cluster_local_commands_total counter\nforgekv_cluster_local_commands_total 0\n"
    ));
    assert_eq!(body.lines().count(), 36);
    assert!(!body.contains("replication"));
    for request in [&b"GET / HTTP/1.1\r\n"[..], b"POST /metrics HTTP/1.1\r\n", b""] {
        assert_eq!(
            answer_http(request, &metrics),
            "HTTP/1.1 404 Not Found\r\nContent-Type: text/plain; version=0.0.4; charset=utf-8\r\nContent-Length: 10\r\nConnection: close\r\n\r\nnot found\n"
        );
    }
}

#[test]
fn limits_are_those_of_the_configuration() {
    let server = Running::start();
    assert_eq!(
        server.database.limits(),
        ProtocolLimits {
            max_frame_size: 64 * 1024,
            max_key_size: 1024,
            max_value_size: 32 * 1024,
        }
    );
    assert_eq!(server.server.max_connections(), Config::default().max_connections);
}
