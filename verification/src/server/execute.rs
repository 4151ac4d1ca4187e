//! Carrying out commands.

use vstd::prelude::*;

use crate::buffer::as_slice;
use crate::cluster::membership::NodeView;
use crate::cluster::topology::{owner_of, topology_of, ClusterTopology};
use crate::command::parser::{Command, CommandView};
use crate::config::{Config, FsyncMode, ReplicationRole};
use crate::error::{ConfigError, ConfigErrorView, ForgeError, PersistenceError};
use crate::hash::fnv1a_of;
use crate::metrics::MetricsSnapshot;
use crate::persistence::database::{
    mutation_answer, Database, DatabaseView, MutationView, StagedView, StagedWrite,
};
use crate::persistence::record::{stamped, RecordType};
use crate::protocol::response::{info_view, Response, ResponseView};
use crate::server::fields::{list_counters, stats_fields};
use crate::store::entry::live;
use crate::store::sharded::{
    count_lookup, count_stale, counted, expiry, found, refreshed, saturated, stale, time_left,
    TtlState,
};
use crate::text::{decimal, decimal_string};
use crate::time::Timestamp;
use crate::VERSION;

verus! {

/// What a server answers by, beside its database.
#[derive(Debug)]
pub struct Server {
    listening_address: String,
    fsync: FsyncMode,
    follower: bool,
    topology: Option<ClusterTopology>,
    max_connections: usize,
}

/// The cluster of a server: its nodes, the points of each on the ring, and the node that the
/// server is.
#[verifier::ext_equal]
pub struct ClusterView {
    pub members: Set<NodeView>,
    pub replicas: nat,
    pub local: NodeView,
    pub size: nat,
}

/// What a server answers by, as a mathematical value.
#[verifier::ext_equal]
pub struct ServerView {
    pub listening_address: Seq<char>,
    pub fsync: FsyncMode,
    pub follower: bool,
    pub cluster: Option<ClusterView>,
    pub max_connections: usize,
}

impl View for Server {
    type V = ServerView;

    closed spec fn view(&self) -> ServerView {
        ServerView {
            listening_address: self.listening_address@,
            fsync: self.fsync,
            follower: self.follower,
            cluster: match self.topology {
                Some(topology) => Some(
                    ClusterView {
                        members: topology.members(),
                        replicas: topology.replicas(),
                        local: topology.local(),
                        size: topology.size(),
                    },
                ),
                None => None,
            },
            max_connections: self.max_connections,
        }
    }
}

/// What a command leads to.
#[derive(Debug)]
pub enum Execution {
    /// An answer.
    Answer(Response),
    /// A change that has to be appended to the log before it is made and answered.
    Append(StagedWrite),
}

/// What a command leads to, as a mathematical value.
#[verifier::ext_equal]
pub enum ExecutionView {
    Answer(ResponseView),
    Append(StagedView),
}

impl View for Execution {
    type V = ExecutionView;

    open spec fn view(&self) -> ExecutionView {
        match *self {
            Execution::Answer(response) => ExecutionView::Answer(response@),
            Execution::Append(staged) => ExecutionView::Append(staged@),
        }
    }
}

/// Whether a command changes data.
pub open spec fn changes_data(command: CommandView) -> bool {
    command is Put || command is SetEx || command is Del || command is Persist
}

/// The node that owns a key.
pub open spec fn key_owner(cluster: ClusterView, key: Seq<u8>) -> NodeView {
    owner_of(cluster.members, cluster.replicas, fnv1a_of(key))
}

/// Where a command is sent on to, if it is about a key that another node owns.
pub open spec fn redirect_of(server: ServerView, command: CommandView) -> Option<Seq<char>> {
    match (server.cluster, command.key()) {
        (Some(cluster), Some(key)) => if key_owner(cluster, key) == cluster.local {
            None
        } else {
            Some(key_owner(cluster, key).address)
        },
        _ => None,
    }
}

/// The counters after a command was routed.
pub open spec fn count_route(
    counters: MetricsSnapshot,
    server: ServerView,
    command: CommandView,
) -> MetricsSnapshot {
    if server.cluster is None || command.key() is None {
        counters
    } else if redirect_of(server, command) is Some {
        MetricsSnapshot {
            cluster_redirects_total: counters.cluster_redirects_total.wrapping_add(1),
            ..counters
        }
    } else {
        MetricsSnapshot {
            cluster_local_commands_total: counters.cluster_local_commands_total.wrapping_add(1),
            ..counters
        }
    }
}

/// One for true and zero for false.
pub open spec fn integer_of(value: bool) -> i64 {
    if value {
        1
    } else {
        0
    }
}

/// The number that stands for the time a key has left: its milliseconds, less one for a key that
/// does not expire, and less two for a key that is not there.
pub open spec fn ttl_number(state: TtlState) -> i64 {
    match state {
        TtlState::Missing => -2i64,
        TtlState::Persistent => -1i64,
        TtlState::ExpiresIn(left) => if left.nanos / 1_000_000 > i64::MAX {
            i64::MAX
        } else {
            (left.nanos / 1_000_000) as i64
        },
    }
}

/// The fields about a cluster.
pub open spec fn cluster_fields(cluster: Option<ClusterView>) -> Seq<(Seq<char>, Seq<char>)> {
    match cluster {
        None => seq![("cluster_enabled"@, "false"@)],
        Some(cluster) => seq![
            ("cluster_enabled"@, "true"@),
            ("cluster_node_id"@, cluster.local.id),
            ("cluster_nodes"@, decimal(cluster.size)),
            ("cluster_virtual_nodes"@, decimal(cluster.replicas)),
        ],
    }
}

/// The fields about a server.
pub open spec fn info_fields(server: ServerView, shards: nat, keys: nat, uptime: u64) -> Seq<
    (Seq<char>, Seq<char>),
> {
    seq![
        ("version"@, VERSION@),
        ("uptime_seconds"@, decimal(uptime as nat)),
        ("keys"@, decimal(keys)),
        ("shards"@, decimal(shards)),
        ("listening_address"@, server.listening_address),
        ("fsync"@, server.fsync.text()),
    ] + cluster_fields(server.cluster)
}

/// What a change leads to: it is appended, or it failed.
pub open spec fn appending(staged: Result<StagedView, PersistenceError>) -> Result<
    ExecutionView,
    ForgeError,
> {
    match staged {
        Ok(staged) => Ok(ExecutionView::Append(staged)),
        Err(error) => Err(ForgeError::Persistence(error)),
    }
}

/// What a command leads to that was routed to this server, at `now`.
pub open spec fn local_outcome(
    server: ServerView,
    db: DatabaseView,
    command: CommandView,
    now: Timestamp,
    uptime: u64,
) -> Result<ExecutionView, ForgeError> {
    match command {
        CommandView::Ping => Ok(ExecutionView::Answer(ResponseView::Pong)),
        CommandView::Put { key, value } => appending(
            db.staged(
                MutationView::Put { key, value },
                stamped(RecordType::Put, None, key, value, now),
            ),
        ),
        CommandView::SetEx { key, ttl, value } => match expiry(ttl, now) {
            Err(error) => Err(ForgeError::Persistence(PersistenceError::Store(error))),
            Ok(expires_at) => appending(
                db.staged(
                    MutationView::SetEx { key, value, expires_at },
                    stamped(RecordType::SetEx, Some(expires_at), key, value, now),
                ),
            ),
        },
        CommandView::Del { key } => appending(
            db.staged(
                MutationView::Delete { key },
                stamped(RecordType::Del, None, key, seq![], now),
            ),
        ),
        CommandView::Persist { key } => appending(
            db.staged(
                MutationView::Persist { key },
                stamped(RecordType::Persist, None, key, seq![], now),
            ),
        ),
        CommandView::Get { key } => Ok(
            ExecutionView::Answer(
                match found(db.data, key, now) {
                    Some(entry) => ResponseView::Value(entry.value),
                    None => ResponseView::NotFound,
                },
            ),
        ),
        CommandView::Exists { key } => Ok(
            ExecutionView::Answer(
                ResponseView::Integer(integer_of(found(db.data, key, now) is Some)),
            ),
        ),
        CommandView::Ttl { key } => Ok(
            ExecutionView::Answer(ResponseView::Integer(ttl_number(time_left(db.data, key, now)))),
        ),
        CommandView::Info => match counted(live(db.data, now).dom().len()) {
            Ok(keys) => Ok(
                ExecutionView::Answer(
                    ResponseView::Info(info_fields(server, db.shards, keys as nat, uptime)),
                ),
            ),
            Err(error) => Err(ForgeError::Store(error)),
        },
        CommandView::Stats => Ok(
            ExecutionView::Answer(ResponseView::Stats(stats_fields(db.counters))),
        ),
    }
}

/// The database after a command that was routed to this server. Changes wait until they are
/// appended.
pub open spec fn local_database(db: DatabaseView, command: CommandView, now: Timestamp) -> DatabaseView {
    match command {
        CommandView::Get { key } => DatabaseView {
            data: refreshed(db.data, key, now),
            counters: count_lookup(
                db.counters,
                found(db.data, key, now) is Some,
                stale(db.data, key, now),
            ),
            ..db
        },
        CommandView::Exists { key } => DatabaseView {
            data: refreshed(db.data, key, now),
            counters: count_stale(db.counters, stale(db.data, key, now)),
            ..db
        },
        CommandView::Ttl { key } => DatabaseView {
            data: refreshed(db.data, key, now),
            counters: count_stale(db.counters, stale(db.data, key, now)),
            ..db
        },
        CommandView::Info => DatabaseView {
            data: live(db.data, now),
            counters: MetricsSnapshot {
                expired_keys_total: db.counters.expired_keys_total.wrapping_add(
                    saturated(db.data.dom().len() - live(db.data, now).dom().len()),
                ),
                ..db.counters
            },
            ..db
        },
        _ => db,
    }
}

/// What a command leads to at `now`.
pub open spec fn outcome(
    server: ServerView,
    db: DatabaseView,
    command: CommandView,
    now: Timestamp,
    uptime: u64,
) -> Result<ExecutionView, ForgeError> {
    let routed = DatabaseView { counters: count_route(db.counters, server, command), ..db };
    match redirect_of(server, command) {
        Some(address) => Ok(ExecutionView::Answer(ResponseView::Redirect(address))),
        None => if server.follower && changes_data(command) {
            Ok(ExecutionView::Answer(ResponseView::InvalidRequest("follower is read-only"@)))
        } else {
            local_outcome(server, routed, command, now, uptime)
        },
    }
}

/// The database after a command at `now`, before anything is appended.
pub open spec fn database_after(
    server: ServerView,
    db: DatabaseView,
    command: CommandView,
    now: Timestamp,
) -> DatabaseView {
    let routed = DatabaseView { counters: count_route(db.counters, server, command), ..db };
    if redirect_of(server, command) is Some || (server.follower && changes_data(command)) {
        routed
    } else {
        local_database(routed, command, now)
    }
}

/// The answer to a change that was made.
pub open spec fn change_answer(mutation: MutationView, answer: bool) -> ResponseView {
    match mutation {
        MutationView::Delete { .. } | MutationView::Persist { .. } => ResponseView::Integer(
            integer_of(answer),
        ),
        _ => ResponseView::Success,
    }
}

/// A result with what a command leads to as a view.
pub open spec fn execution_view(execution: Result<Execution, ForgeError>) -> Result<
    ExecutionView,
    ForgeError,
> {
    match execution {
        Ok(execution) => Ok(execution@),
        Err(error) => Err(error),
    }
}

fn put_field(fields: &mut Vec<(String, String)>, name: &str, value: String)
    ensures
        info_view(final(fields)@) == info_view(old(fields)@).push((name@, value@)),
{
    let ghost pair = (name@, value@);
    fields.push((name.to_owned(), value));
    assert(info_view(fields@) =~= info_view(old(fields)@).push(pair));
}

fn append_or_fail(staged: Result<StagedWrite, PersistenceError>) -> (execution: Result<
    Execution,
    ForgeError,
>)
    ensures
        execution_view(execution) == appending(
            crate::persistence::database::staged_view(staged),
        ),
{
    match staged {
        Ok(staged) => Ok(Execution::Append(staged)),
        Err(error) => Err(ForgeError::Persistence(error)),
    }
}

impl Server {
    /// The cluster, if there is one, is in order.
    pub closed spec fn valid(self) -> bool {
        self.topology is Some ==> self.topology->0.valid()
    }

    /// A server with this configuration, which listens at this address.
    pub fn new(config: &Config, listening_address: String) -> (server: Result<Self, ConfigError>)
        ensures
            match server {
                Ok(server) => {
                    let nodes = topology_of(
                        config@.cluster_node_id,
                        config@.cluster_nodes,
                        config@.cluster_virtual_nodes,
                    );
                    &&& server.valid()
                    &&& server@.listening_address == listening_address@
                    &&& server@.fsync == config@.fsync
                    &&& server@.follower == (config@.replication_role == ReplicationRole::Follower)
                    &&& server@.max_connections == config@.max_connections
                    &&& server@.cluster is Some == config@.cluster_enabled
                    &&& config@.cluster_enabled ==> {
                        &&& nodes is Ok
                        &&& server@.cluster->0.members == nodes->Ok_0.to_set()
                        &&& server@.cluster->0.size == nodes->Ok_0.len()
                        &&& server@.cluster->0.replicas == config@.cluster_virtual_nodes
                        &&& server@.cluster->0.members.contains(server@.cluster->0.local)
                        &&& server@.cluster->0.local.id == config@.cluster_node_id
                    }
                },
                Err(error) => config@.cluster_enabled && topology_of(
                    config@.cluster_node_id,
                    config@.cluster_nodes,
                    config@.cluster_virtual_nodes,
                ) == Err::<Seq<NodeView>, ConfigErrorView>(error@),
            },
    {
        let topology: Option<ClusterTopology> = if config.cluster_enabled {
            match ClusterTopology::new(
                config.cluster_node_id.as_str(),
                config.cluster_nodes.as_str(),
                config.cluster_virtual_nodes,
            ) {
                Ok(topology) => Some(topology),
                Err(error) => return Err(error),
            }
        } else {
            None
        };
        Ok(
            Self {
                listening_address,
                fsync: config.fsync,
                follower: config.replication_role == ReplicationRole::Follower,
                topology,
                max_connections: config.max_connections,
            },
        )
    }

    /// Where a command is sent on to, if another node owns its key.
    fn route(&self, command: &Command) -> (address: Option<String>)
        requires
            self.valid(),
        ensures
            match address {
                Some(address) => redirect_of(self@, command@) == Some(address@),
                None => redirect_of(self@, command@) is None,
            },
    {
        match &self.topology {
            Some(topology) => match command.key() {
                Some(key) => {
                    if topology.is_local(key) {
                        None
                    } else {
                        Some(topology.owner(key).address().to_owned())
                    }
                },
                None => None,
            },
            None => None,
        }
    }

    /// Carries out a command at `now`, as far as that goes without the log: a change is staged. A
    /// command about a key that another node owns touches neither the data nor the log.
    pub fn execute(
        &self,
        command: Command,
        database: &mut Database,
        now: Timestamp,
        uptime: u64,
    ) -> (execution: Result<Execution, ForgeError>)
        requires
            self.valid(),
            old(database).valid(),
        ensures
            final(database).valid(),
            final(database)@ == database_after(self@, old(database)@, command@, now),
            execution_view(execution) == outcome(self@, old(database)@, command@, now, uptime),
    {
        if self.topology.is_some() && command.key().is_some() {
            match self.route(&command) {
                Some(address) => {
                    database.store_mut().metrics_mut().cluster_redirect();
                    return Ok(Execution::Answer(Response::Redirect(address)));
                },
                None => {
                    database.store_mut().metrics_mut().cluster_local_command();
                },
            }
        }
        if self.follower {
            let change: bool = match &command {
                Command::Put { .. } => true,
                Command::SetEx { .. } => true,
                Command::Del { .. } => true,
                Command::Persist { .. } => true,
                _ => false,
            };
            if change {
                return Ok(
                    Execution::Answer(
                        Response::InvalidRequest("follower is read-only".to_owned()),
                    ),
                );
            }
        }
        self.execute_here(command, database, now, uptime)
    }

    fn execute_here(
        &self,
        command: Command,
        database: &mut Database,
        now: Timestamp,
        uptime: u64,
    ) -> (execution: Result<Execution, ForgeError>)
        requires
            self.valid(),
            old(database).valid(),
        ensures
            final(database).valid(),
            final(database)@ == local_database(old(database)@, command@, now),
            execution_view(execution) == local_outcome(
                self@,
                old(database)@,
                command@,
                now,
                uptime,
            ),
    {
        match command {
            Command::Ping => Ok(Execution::Answer(Response::Pong)),
            Command::Put { key, value } => append_or_fail(database.set(key, value, now)),
            Command::SetEx { key, ttl, value } => append_or_fail(
                database.set_ex(key, value, ttl, now),
            ),
            Command::Del { key } => append_or_fail(database.delete(key, now)),
            Command::Persist { key } => append_or_fail(database.persist(key, now)),
            Command::Get { key } => match database.store_mut().get_at(as_slice(&key), now) {
                Ok(Some(value)) => Ok(Execution::Answer(Response::Value(value))),
                Ok(None) => Ok(Execution::Answer(Response::NotFound)),
                Err(error) => Err(ForgeError::Store(error)),
            },
            Command::Exists { key } => match database.store_mut().contains_at(
                as_slice(&key),
                now,
            ) {
                Ok(present) => Ok(Execution::Answer(Response::Integer(bool_to_integer(present)))),
                Err(error) => Err(ForgeError::Store(error)),
            },
            Command::Ttl { key } => match database.store_mut().ttl_at(as_slice(&key), now) {
                Ok(state) => Ok(Execution::Answer(Response::Integer(ttl_to_integer(state)))),
                Err(error) => Err(ForgeError::Store(error)),
            },
            Command::Info => {
                let shards: usize = database.store().shard_count();
                match database.store_mut().len_at(now) {
                    Ok(keys) => Ok(
                        Execution::Answer(Response::Info(self.describe(shards, keys, uptime))),
                    ),
                    Err(error) => Err(ForgeError::Store(error)),
                }
            },
            Command::Stats => {
                let counters: MetricsSnapshot = database.store().metrics().snapshot();
                Ok(Execution::Answer(Response::Stats(list_counters(counters))))
            },
        }
    }

    /// The fields about the server.
    fn describe(&self, shards: usize, keys: usize, uptime: u64) -> (fields: Vec<(String, String)>)
        requires
            self.valid(),
        ensures
            info_view(fields@) == info_fields(self@, shards as nat, keys as nat, uptime),
    {
        let mut fields: Vec<(String, String)> = Vec::new();
        put_field(&mut fields, "version", VERSION.to_owned());
        put_field(&mut fields, "uptime_seconds", decimal_string(uptime));
        put_field(&mut fields, "keys", decimal_string(keys as u64));
        put_field(&mut fields, "shards", decimal_string(shards as u64));
        put_field(&mut fields, "listening_address", self.listening_address.clone());
        put_field(&mut fields, "fsync", self.fsync.as_str().to_owned());
        match &self.topology {
            Some(topology) => {
                put_field(&mut fields, "cluster_enabled", "true".to_owned());
                put_field(&mut fields, "cluster_node_id", topology.local_node().id().to_owned());
                put_field(&mut fields, "cluster_nodes", decimal_string(topology.node_count() as u64));
                put_field(
                    &mut fields,
                    "cluster_virtual_nodes",
                    decimal_string(topology.virtual_nodes() as u64),
                );
            },
            None => {
                put_field(&mut fields, "cluster_enabled", "false".to_owned());
            },
        }
        assert(info_view(fields@) =~= info_fields(self@, shards as nat, keys as nat, uptime));
        fields
    }

    /// Makes a change whose bytes were appended to the log, and answers it.
    pub fn complete(&self, staged: StagedWrite, database: &mut Database, now: Timestamp) -> (
    response: Result<Response, ForgeError>)
        requires
            old(database).valid(),
        ensures
            final(database).valid(),
            final(database)@ == old(database)@.committed(staged@, now),
            match mutation_answer(old(database)@.data, staged@.mutation, now) {
                Ok(answer) => response is Ok && response->Ok_0@ == change_answer(
                    staged@.mutation,
                    answer,
                ),
                Err(error) => response == Err::<Response, ForgeError>(
                    ForgeError::Persistence(error),
                ),
            },
    {
        let counts: bool = match &staged.mutation {
            crate::persistence::database::Mutation::Delete { .. } => true,
            crate::persistence::database::Mutation::Persist { .. } => true,
            _ => false,
        };
        match database.commit(staged, now) {
            Ok(answer) => {
                if counts {
                    Ok(Response::Integer(bool_to_integer(answer)))
                } else {
                    Ok(Response::Success)
                }
            },
            Err(error) => Err(ForgeError::Persistence(error)),
        }
    }

    /// The most connections that the server serves at a time.
    pub fn max_connections(&self) -> (maximum: usize)
        ensures
            maximum == self@.max_connections,
    {
        self.max_connections
    }
}

fn bool_to_integer(value: bool) -> (number: i64)
    ensures
        number == integer_of(value),
{
    if value {
        1
    } else {
        0
    }
}

fn ttl_to_integer(state: TtlState) -> (number: i64)
    ensures
        number == ttl_number(state),
{
    match state {
        TtlState::Missing => -2,
        TtlState::Persistent => -1,
        TtlState::ExpiresIn(left) => {
            let millis: u128 = left.as_millis();
            if millis > i64::MAX as u128 {
                i64::MAX
            } else {
                millis as i64
            }
        },
    }
}

} // verus!
