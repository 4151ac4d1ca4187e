//! What clients can rely on, command by command.

use vstd::prelude::*;

use crate::cluster::membership::NodeView;
use crate::cluster::topology::{closest, distinct_names, law_closest_point_owns, topology_of};
use crate::command::parser::{command_of, CommandView};
use crate::config::{Config, FsyncMode, ReplicationRole};
use crate::error::{ConfigError, ForgeError, PersistenceError, ProtocolError};
use crate::hash::fnv1a_of;
use crate::metrics::MetricsSnapshot;
use crate::persistence::database::{DatabaseView, MutationView, StagedView};
use crate::persistence::record::{law_record_round_trip, record_of, RecordType, RecordView};
use crate::protocol::codec::{first_frame, law_frame_round_trip, law_frames_are_bounded};
use crate::protocol::frame::{FrameView, ProtocolLimits};
use crate::protocol::response::{law_response_round_trip, response_of, ResponseView};
use crate::server::connection::{
    answering, append_action, append_database, connection_counters, frame_action, frame_database,
    ActionView,
};
use crate::server::execute::{
    database_after, outcome, redirect_of, ExecutionView, Server, ServerView,
};
use crate::server::fields::stats_fields;
use crate::server::laws::serves;
use crate::server::lifecycle::{Event, Reaction};
use crate::store::entry::EntryView;
use crate::store::laws::present;
use crate::text::decimal;
use crate::time::{Duration, Timestamp};

verus! {

/// Whether a server answers a command at once with this response.
pub open spec fn answers(
    server: ServerView,
    db: DatabaseView,
    command: CommandView,
    now: Timestamp,
    response: ResponseView,
) -> bool {
    forall|uptime: u64|
        #[trigger] outcome(server, db, command, now, uptime) == Ok::<ExecutionView, ForgeError>(
            ExecutionView::Answer(response),
        )
}

/// Whether a server hands out this change to be appended to its log.
pub open spec fn stages(
    server: ServerView,
    db: DatabaseView,
    command: CommandView,
    now: Timestamp,
    staged: StagedView,
) -> bool {
    exists|uptime: u64|
        #[trigger] outcome(server, db, command, now, uptime) == Ok::<ExecutionView, ForgeError>(
            ExecutionView::Append(staged),
        )
}

/// Whether a number is the whole milliseconds in a span, or the largest number where there are
/// more.
pub open spec fn whole_millis(number: i64, nanos: int) -> bool {
    if nanos < (i64::MAX + 1) * 1_000_000 {
        number * 1_000_000 <= nanos < (number + 1) * 1_000_000
    } else {
        number == i64::MAX
    }
}

/// Every server that serves a key, follower or not, reads the data that it holds: GET answers the
/// value under a key that is there, and that there is none otherwise. EXISTS answers one or zero.
/// TTL answers the milliseconds that are left, minus one for a key that does not expire, and minus
/// two for one that is not there.
pub proof fn law_reads_answer_what_is_there(
    server: ServerView,
    db: DatabaseView,
    key: Seq<u8>,
    now: Timestamp,
)
    requires
        serves(server, key),
    ensures
        present(db.data, key, now) ==> answers(
            server,
            db,
            CommandView::Get { key },
            now,
            ResponseView::Value(db.data[key].value),
        ),
        !present(db.data, key, now) ==> answers(
            server,
            db,
            CommandView::Get { key },
            now,
            ResponseView::NotFound,
        ),
        answers(
            server,
            db,
            CommandView::Exists { key },
            now,
            ResponseView::Integer(if present(db.data, key, now) { 1 } else { 0 }),
        ),
        !present(db.data, key, now) ==> answers(
            server,
            db,
            CommandView::Ttl { key },
            now,
            ResponseView::Integer(-2i64),
        ),
        present(db.data, key, now) && db.data[key].expires_at is None ==> answers(
            server,
            db,
            CommandView::Ttl { key },
            now,
            ResponseView::Integer(-1i64),
        ),
        present(db.data, key, now) && db.data[key].expires_at is Some ==> exists|left: i64|
            #[trigger] whole_millis(left, db.data[key].expires_at->0.nanos - now.nanos) && answers(
                server,
                db,
                CommandView::Ttl { key },
                now,
                ResponseView::Integer(left),
            ),
{
    if present(db.data, key, now) && db.data[key].expires_at is Some {
        let nanos = db.data[key].expires_at->0.nanos - now.nanos;
        let left = if nanos / 1_000_000 > i64::MAX {
            i64::MAX
        } else {
            (nanos / 1_000_000) as i64
        };
        assert(whole_millis(left, nanos));
        assert(answers(
            server,
            db,
            CommandView::Ttl { key },
            now,
            ResponseView::Integer(left),
        ));
    }
}

/// EXISTS and GET agree: EXISTS answers one exactly where GET answers a value, and zero exactly
/// where GET answers that there is none. TTL answers minus two in the same case.
pub proof fn law_exists_agrees_with_get(
    server: ServerView,
    db: DatabaseView,
    key: Seq<u8>,
    now: Timestamp,
)
    requires
        serves(server, key),
    ensures
        answers(server, db, CommandView::Exists { key }, now, ResponseView::Integer(1)) <==> exists|
            value: Seq<u8>,
        |
            #[trigger] answers(
                server,
                db,
                CommandView::Get { key },
                now,
                ResponseView::Value(value),
            ),
        answers(server, db, CommandView::Exists { key }, now, ResponseView::Integer(0))
            <==> answers(server, db, CommandView::Get { key }, now, ResponseView::NotFound),
        answers(server, db, CommandView::Ttl { key }, now, ResponseView::Integer(-2i64))
            <==> answers(server, db, CommandView::Get { key }, now, ResponseView::NotFound),
{
    law_reads_answer_what_is_there(server, db, key, now);
    let get = outcome(server, db, CommandView::Get { key }, now, 0);
    let there = outcome(server, db, CommandView::Exists { key }, now, 0);
    let left = outcome(server, db, CommandView::Ttl { key }, now, 0);
    if present(db.data, key, now) {
        assert(answers(
            server,
            db,
            CommandView::Get { key },
            now,
            ResponseView::Value(db.data[key].value),
        ));
        assert(get == Ok::<ExecutionView, ForgeError>(
            ExecutionView::Answer(ResponseView::Value(db.data[key].value)),
        ));
        if db.data[key].expires_at is Some {
            let nanos = db.data[key].expires_at->0.nanos - now.nanos;
            let number = choose|number: i64|
                #[trigger] whole_millis(number, nanos) && answers(
                    server,
                    db,
                    CommandView::Ttl { key },
                    now,
                    ResponseView::Integer(number),
                );
            assert(number >= 0);
        }
    } else {
        assert forall|value: Seq<u8>|
            !#[trigger] answers(
                server,
                db,
                CommandView::Get { key },
                now,
                ResponseView::Value(value),
            ) by {
            assert(get == Ok::<ExecutionView, ForgeError>(
                ExecutionView::Answer(ResponseView::NotFound),
            ));
        }
    }
}

/// After SETEX, and until its time is up, counted from when the command was carried out, GET
/// answers the value, EXISTS answers one, and TTL answers the whole milliseconds that are left.
/// From then on the key is missing.
pub proof fn law_ttl_counts_down_after_setex(
    server: ServerView,
    db: DatabaseView,
    key: Seq<u8>,
    value: Seq<u8>,
    ttl: Duration,
    set_at: Timestamp,
    staged: StagedView,
    committed_at: Timestamp,
    now: Timestamp,
)
    requires
        serves(server, key),
        stages(server, db, CommandView::SetEx { key, ttl, value }, set_at, staged),
    ensures
        ({
            let after = db.committed(staged, committed_at);
            let left = set_at.nanos + ttl.nanos - now.nanos;
            &&& answers(
                server,
                after,
                CommandView::Exists { key },
                now,
                ResponseView::Integer(if left > 0 { 1 } else { 0 }),
            )
            &&& answers(
                server,
                after,
                CommandView::Get { key },
                now,
                if left > 0 {
                    ResponseView::Value(value)
                } else {
                    ResponseView::NotFound
                },
            )
            &&& left > 0 ==> exists|number: i64|
                #[trigger] whole_millis(number, left) && answers(
                    server,
                    after,
                    CommandView::Ttl { key },
                    now,
                    ResponseView::Integer(number),
                )
            &&& left <= 0 ==> answers(
                server,
                after,
                CommandView::Ttl { key },
                now,
                ResponseView::Integer(-2i64),
            )
        }),
{
    law_reads_answer_what_is_there(server, db.committed(staged, committed_at), key, now);
}

/// Whether a command changes data: SET, SETEX, DEL and PERSIST do.
pub open spec fn is_change(command: CommandView) -> bool {
    match command {
        CommandView::Put { .. } => true,
        CommandView::SetEx { .. } => true,
        CommandView::Del { .. } => true,
        CommandView::Persist { .. } => true,
        _ => false,
    }
}

/// Whether a command is about a key.
pub open spec fn about(command: CommandView, wanted: Seq<u8>) -> bool {
    match command {
        CommandView::Put { key, .. } => key == wanted,
        CommandView::SetEx { key, .. } => key == wanted,
        CommandView::Get { key } => key == wanted,
        CommandView::Del { key } => key == wanted,
        CommandView::Exists { key } => key == wanted,
        CommandView::Ttl { key } => key == wanted,
        CommandView::Persist { key } => key == wanted,
        _ => false,
    }
}

/// A follower refuses every change to a key that it serves. Nothing is staged, and nothing
/// changes but a counter of routed commands.
pub proof fn law_followers_refuse_changes(
    server: ServerView,
    db: DatabaseView,
    command: CommandView,
    key: Seq<u8>,
    now: Timestamp,
)
    requires
        server.follower,
        about(command, key),
        serves(server, key),
        is_change(command),
    ensures
        answers(
            server,
            db,
            command,
            now,
            ResponseView::InvalidRequest("follower is read-only"@),
        ),
        database_after(server, db, command, now).data == db.data,
        database_after(server, db, command, now).wal == db.wal,
{
}

/// What a follower took over from its leader is what it answers: after a record was applied, GET
/// answers the value that it wrote, until its time is up, and a key that it removed is missing.
/// A record that keeps a key for good leaves the value that was there. Other keys read as before.
pub proof fn law_replicated_changes_are_served(
    server: ServerView,
    db: DatabaseView,
    record: RecordView,
    staged: StagedView,
    committed_at: Timestamp,
    key: Seq<u8>,
    now: Timestamp,
)
    requires
        serves(server, key),
        staged.mutation == MutationView::Replicated(record),
        record.record_type == RecordType::SetEx ==> record.expires_at_ms is Some,
    ensures
        ({
            let after = db.committed(staged, committed_at);
            let get = CommandView::Get { key };
            if key != record.key {
                forall|response: ResponseView|
                    #[trigger] answers(server, after, get, now, response) <==> answers(
                        server,
                        db,
                        get,
                        now,
                        response,
                    )
            } else {
                let until = record.expires_at_ms->0 * 1_000_000;
                let value = match record.record_type {
                    RecordType::Put => Some(record.value),
                    RecordType::SetEx => if committed_at.nanos < until && now.nanos < until {
                        Some(record.value)
                    } else {
                        None
                    },
                    RecordType::Del => None,
                    RecordType::Persist => if present(db.data, key, committed_at) {
                        Some(db.data[key].value)
                    } else {
                        None
                    },
                };
                answers(
                    server,
                    after,
                    get,
                    now,
                    match value {
                        Some(value) => ResponseView::Value(value),
                        None => ResponseView::NotFound,
                    },
                )
            }
        }),
{
    let after = db.committed(staged, committed_at);
    law_reads_answer_what_is_there(server, after, key, now);
    law_reads_answer_what_is_there(server, db, key, now);
    if key != record.key {
        let get = CommandView::Get { key };
        assert(present(after.data, key, now) == present(db.data, key, now));
        assert forall|response: ResponseView|
            #[trigger] answers(server, after, get, now, response) <==> answers(
                server,
                db,
                get,
                now,
                response,
            ) by {
            assert forall|uptime: u64|
                #[trigger] outcome(server, after, get, now, uptime) == outcome(
                    server,
                    db,
                    get,
                    now,
                    uptime,
                ) by {}
            if answers(server, db, get, now, response) {
                assert forall|uptime: u64|
                    #[trigger] outcome(server, after, get, now, uptime) == Ok::<
                        ExecutionView,
                        ForgeError,
                    >(ExecutionView::Answer(response)) by {
                    assert(outcome(server, db, get, now, uptime) == Ok::<
                        ExecutionView,
                        ForgeError,
                    >(ExecutionView::Answer(response)));
                }
            }
            if answers(server, after, get, now, response) {
                assert forall|uptime: u64|
                    #[trigger] outcome(server, db, get, now, uptime) == Ok::<
                        ExecutionView,
                        ForgeError,
                    >(ExecutionView::Answer(response)) by {
                    assert(outcome(server, after, get, now, uptime) == Ok::<
                        ExecutionView,
                        ForgeError,
                    >(ExecutionView::Answer(response)));
                }
            }
        }
    }
}

/// No change that is acknowledged in the mode `always` is left unforced: whatever is staged there,
/// by a command or from the leader, is to be forced to disk before it is made. In the other modes
/// it is not. Once it is made, the log counts as written to in the mode that forces it to disk
/// every second, and has grown by the bytes.
pub proof fn law_changes_are_forced_to_disk_as_configured(
    server: ServerView,
    db: DatabaseView,
    command: CommandView,
    record: RecordView,
    staged: StagedView,
    now: Timestamp,
    committed_at: Timestamp,
)
    requires
        stages(server, db, command, now, staged) || db.staged(
            MutationView::Replicated(record),
            Ok(record),
        ) == Ok::<StagedView, PersistenceError>(staged),
    ensures
        match db.wal.fsync {
            FsyncMode::Always => staged.sync,
            FsyncMode::EverySecond => !staged.sync,
            FsyncMode::Never => !staged.sync,
        },
        ({
            let after = db.committed(staged, committed_at).wal;
            &&& after.fsync == db.wal.fsync
            &&& after.dirty <==> !staged.sync
            &&& db.wal.bytes_written + staged.encoded.len() <= u64::MAX ==> after.bytes_written
                == db.wal.bytes_written + staged.encoded.len()
            &&& after.bytes_written >= db.wal.bytes_written
        }),
{
}

/// The record that a change is logged with, by the command that asks for it.
pub open spec fn logs(
    command: CommandView,
    asked_at: Timestamp,
    record: RecordView,
) -> bool {
    let stamp = record.timestamp_ms * 1_000_000;
    &&& stamp <= asked_at.nanos < stamp + 1_000_000
    &&& match command {
        CommandView::Put { key, value } => {
            &&& record.record_type == RecordType::Put
            &&& record.key == key && record.value == value
            &&& record.expires_at_ms is None
        },
        CommandView::SetEx { key, ttl, value } => {
            let until = record.expires_at_ms->0 * 1_000_000;
            &&& record.record_type == RecordType::SetEx
            &&& record.key == key && record.value == value
            &&& record.expires_at_ms is Some
            &&& until <= asked_at.nanos + ttl.nanos < until + 1_000_000
        },
        CommandView::Del { key } => {
            &&& record.record_type == RecordType::Del
            &&& record.key == key && record.value.len() == 0
            &&& record.expires_at_ms is None
        },
        CommandView::Persist { key } => {
            &&& record.record_type == RecordType::Persist
            &&& record.key == key && record.value.len() == 0
            &&& record.expires_at_ms is None
        },
        _ => false,
    }
}

/// Whether the bytes of a staged change are those of one record that a command asks for.
pub open spec fn logged_as(
    staged: StagedView,
    command: CommandView,
    asked_at: Timestamp,
    record: RecordView,
    limits: ProtocolLimits,
) -> bool {
    &&& logs(command, asked_at, record)
    &&& forall|offset: u64|
        #[trigger] record_of(staged.encoded, limits, offset) == Ok::<RecordView, PersistenceError>(
            record,
        )
}

/// Whether the size of a key and of a value are within limits.
pub open spec fn sized_within(key: Seq<u8>, value: Seq<u8>, limits: ProtocolLimits) -> bool {
    &&& 0 < key.len() <= limits.max_key_size
    &&& value.len() <= limits.max_value_size
    &&& key.len() <= u32::MAX && value.len() <= u32::MAX
    &&& key.len() + value.len() + 36 <= usize::MAX
}

/// Whether a change can be made at an instant: the clock shows a time that the log can hold, the
/// key and the value are within limits, and a time to live ends within reach.
pub open spec fn in_reach(command: CommandView, limits: ProtocolLimits, now: Timestamp) -> bool {
    &&& 0 <= now.nanos < 18_446_744_073_709_551_615_000_000
    &&& match command {
        CommandView::Put { key, value } => sized_within(key, value, limits),
        CommandView::SetEx { key, ttl, value } => {
            &&& sized_within(key, value, limits)
            &&& ttl.nanos > 0
            &&& now.nanos + ttl.nanos < 18_446_744_073_709_551_615_000_000
        },
        CommandView::Del { key } => sized_within(key, seq![], limits),
        CommandView::Persist { key } => sized_within(key, seq![], limits),
        _ => false,
    }
}

/// A change is not refused without a reason: a server that serves the key and is no follower
/// stages it, whatever its data. The bytes that it hands out are those of one record, with the
/// key, the value and the expiration that were asked for.
pub proof fn law_changes_are_staged_and_logged(
    server: ServerView,
    db: DatabaseView,
    command: CommandView,
    key: Seq<u8>,
    now: Timestamp,
)
    requires
        about(command, key),
        serves(server, key),
        !server.follower,
        is_change(command),
        in_reach(command, db.limits, now),
    ensures
        exists|staged: StagedView, record: RecordView|
            stages(server, db, command, now, staged) && #[trigger] logged_as(
                staged,
                command,
                now,
                record,
                db.limits,
            ),
{
    let staged = match outcome(server, db, command, now, 0) {
        Ok(ExecutionView::Append(staged)) => staged,
        _ => arbitrary(),
    };
    let timestamp_ms = (now.nanos / 1_000_000) as u64;
    let record = match command {
        CommandView::Put { key, value } => RecordView {
            record_type: RecordType::Put,
            timestamp_ms,
            expires_at_ms: None,
            key,
            value,
        },
        CommandView::SetEx { key, ttl, value } => RecordView {
            record_type: RecordType::SetEx,
            timestamp_ms,
            expires_at_ms: Some(((now.nanos + ttl.nanos) / 1_000_000) as u64),
            key,
            value,
        },
        CommandView::Del { key } => RecordView {
            record_type: RecordType::Del,
            timestamp_ms,
            expires_at_ms: None,
            key,
            value: seq![],
        },
        CommandView::Persist { key } => RecordView {
            record_type: RecordType::Persist,
            timestamp_ms,
            expires_at_ms: None,
            key,
            value: seq![],
        },
        _ => arbitrary(),
    };
    assert(outcome(server, db, command, now, 0) == Ok::<ExecutionView, ForgeError>(
        ExecutionView::Append(staged),
    ));
    assert(stages(server, db, command, now, staged));
    assert(staged.encoded == record.encoded());
    assert forall|offset: u64|
        #[trigger] record_of(staged.encoded, db.limits, offset) == Ok::<
            RecordView,
            PersistenceError,
        >(record) by {
        law_record_round_trip(record, db.limits, offset);
    }
    assert(logged_as(staged, command, now, record, db.limits));
}

/// What is staged is what the command asked for: once it is made, the key holds what the command
/// says, and every other key holds what it held.
pub proof fn law_staged_changes_do_what_was_asked(
    server: ServerView,
    db: DatabaseView,
    command: CommandView,
    asked_at: Timestamp,
    staged: StagedView,
    committed_at: Timestamp,
    key: Seq<u8>,
)
    requires
        stages(server, db, command, asked_at, staged),
    ensures
        is_change(command),
        ({
            let after = db.committed(staged, committed_at).data;
            if !about(command, key) {
                &&& after.dom().contains(key) <==> db.data.dom().contains(key)
                &&& db.data.dom().contains(key) ==> after[key] == db.data[key]
            } else {
                match command {
                    CommandView::Put { value, .. } => after.dom().contains(key) && after[key]
                        == EntryView { value, expires_at: None },
                    CommandView::SetEx { ttl, value, .. } => {
                        &&& after.dom().contains(key) && after[key].value == value
                        &&& after[key].expires_at is Some
                        &&& after[key].expires_at->0.nanos == asked_at.nanos + ttl.nanos
                    },
                    CommandView::Del { .. } => !after.dom().contains(key),
                    CommandView::Persist { .. } => {
                        &&& after.dom().contains(key) <==> present(db.data, key, committed_at)
                        &&& after.dom().contains(key) ==> after[key] == EntryView {
                            value: db.data[key].value,
                            expires_at: None,
                        }
                    },
                    _ => false,
                }
            }
        }),
{
}

/// What a change is answered once it was made: SET and SETEX are done, DEL says whether there was
/// a value, and PERSIST whether there was an expiration. Where it could not be appended, nothing
/// is made and the answer is an error.
pub proof fn law_changes_are_answered(
    server: ServerView,
    db: DatabaseView,
    command: CommandView,
    key: Seq<u8>,
    asked_at: Timestamp,
    staged: StagedView,
    now: Timestamp,
)
    requires
        stages(server, db, command, asked_at, staged),
        about(command, key),
    ensures
        append_action(db, staged, true, now) == answering(
            match command {
                CommandView::Del { .. } => ResponseView::Integer(
                    if present(db.data, key, now) {
                        1
                    } else {
                        0
                    },
                ),
                CommandView::Persist { .. } => ResponseView::Integer(
                    if present(db.data, key, now) && db.data[key].expires_at is Some {
                        1
                    } else {
                        0
                    },
                ),
                _ => ResponseView::Success,
            },
            db.limits,
            false,
        ),
        append_action(db, staged, false, now) == answering(
            ResponseView::ServerError("internal server error"@),
            db.limits,
            false,
        ),
        append_database(db, staged, false, now) == db,
        append_database(db, staged, true, now) == db.committed(staged, now),
{
}

/// Where a key belongs to another node, by its closest point up the ring, every command about it
/// is answered with the address of that node. Where it belongs to this one, none is redirected.
pub proof fn law_keys_are_served_by_their_owner(
    server: ServerView,
    db: DatabaseView,
    command: CommandView,
    key: Seq<u8>,
    node: NodeView,
    index: nat,
    now: Timestamp,
)
    requires
        server.cluster is Some,
        about(command, key),
        distinct_names(server.cluster->0.members),
        server.cluster->0.members.finite(),
        server.cluster->0.members.contains(node),
        index < server.cluster->0.replicas,
        closest(
            server.cluster->0.members,
            server.cluster->0.replicas,
            fnv1a_of(key),
            node,
            index,
        ),
    ensures
        node != server.cluster->0.local ==> answers(
            server,
            db,
            command,
            now,
            ResponseView::Redirect(node.address),
        ),
        node != server.cluster->0.local ==> database_after(server, db, command, now) == (
        DatabaseView {
            counters: MetricsSnapshot {
                cluster_redirects_total: db.counters.cluster_redirects_total.wrapping_add(1),
                ..db.counters
            },
            ..db
        }),
        node == server.cluster->0.local ==> serves(server, key) && redirect_of(
            server,
            command,
        ) is None && forall|address: Seq<char>|
            !#[trigger] answers(server, db, command, now, ResponseView::Redirect(address)),
{
    let cluster = server.cluster->0;
    law_closest_point_owns(cluster.members, cluster.replicas, fnv1a_of(key), node, index);
    if node == cluster.local {
        assert forall|address: Seq<char>|
            !#[trigger] answers(server, db, command, now, ResponseView::Redirect(address)) by {
            let result = outcome(server, db, command, now, 0);
            assert(result != Ok::<ExecutionView, ForgeError>(
                ExecutionView::Answer(ResponseView::Redirect(address)),
            ));
        }
    }
}

/// PING is answered by every server, STATS with its counters, and neither touches anything.
pub proof fn law_ping_and_stats_are_answered(
    server: ServerView,
    db: DatabaseView,
    now: Timestamp,
)
    ensures
        answers(server, db, CommandView::Ping, now, ResponseView::Pong),
        database_after(server, db, CommandView::Ping, now) == db,
        answers(
            server,
            db,
            CommandView::Stats,
            now,
            ResponseView::Stats(stats_fields(db.counters)),
        ),
        database_after(server, db, CommandView::Stats, now) == db,
{
}

/// The keys that are there at an instant.
pub open spec fn present_keys(data: Map<Seq<u8>, EntryView>, now: Timestamp) -> Set<Seq<u8>> {
    Set::new(|key: Seq<u8>| present(data, key, now))
}

/// INFO is answered by every server with its version, how long it runs, how many keys are there,
/// how many shards it has, where it listens, and when it forces its log to disk. In a cluster it
/// names its node, the number of nodes and of virtual nodes.
pub proof fn law_info_describes_the_server(
    server: ServerView,
    db: DatabaseView,
    now: Timestamp,
    uptime: u64,
)
    requires
        present_keys(db.data, now).len() <= usize::MAX,
    ensures
        ({
            let result = outcome(server, db, CommandView::Info, now, uptime);
            let fields = result->Ok_0->Answer_0->Info_0;
            let fsync = match server.fsync {
                FsyncMode::Always => "always"@,
                FsyncMode::EverySecond => "everysec"@,
                FsyncMode::Never => "none"@,
            };
            &&& result == Ok::<ExecutionView, ForgeError>(
                ExecutionView::Answer(ResponseView::Info(fields)),
            )
            &&& fields.len() == (if server.cluster is Some {
                10nat
            } else {
                7nat
            })
            &&& fields[0] == ("version"@, "0.4.0"@)
            &&& fields[1] == ("uptime_seconds"@, decimal(uptime as nat))
            &&& fields[2] == ("keys"@, decimal(present_keys(db.data, now).len()))
            &&& fields[3] == ("shards"@, decimal(db.shards))
            &&& fields[4] == ("listening_address"@, server.listening_address)
            &&& fields[5] == ("fsync"@, fsync)
            &&& match server.cluster {
                None => fields[6] == ("cluster_enabled"@, "false"@),
                Some(cluster) => {
                    &&& fields[6] == ("cluster_enabled"@, "true"@)
                    &&& fields[7] == ("cluster_node_id"@, cluster.local.id)
                    &&& fields[8] == ("cluster_nodes"@, decimal(cluster.size))
                    &&& fields[9] == ("cluster_virtual_nodes"@, decimal(cluster.replicas))
                },
            }
        }),
{
    assert(crate::store::entry::live(db.data, now).dom() =~= present_keys(db.data, now));
}

/// A server that is in no cluster counts GET as a read that hit or missed, and every command that
/// looks a key up counts the entry that it had to drop. No command counts anything else.
pub proof fn law_commands_are_counted(
    server: ServerView,
    db: DatabaseView,
    key: Seq<u8>,
    now: Timestamp,
)
    requires
        server.cluster is None,
    ensures
        ({
            let there = present(db.data, key, now);
            let gone = db.data.dom().contains(key) && !there;
            let dropped = db.counters.expired_keys_total.wrapping_add(if gone { 1 } else { 0 });
            &&& database_after(server, db, CommandView::Get { key }, now).counters == (
            MetricsSnapshot {
                gets_total: db.counters.gets_total.wrapping_add(1),
                hits_total: db.counters.hits_total.wrapping_add(if there { 1 } else { 0 }),
                misses_total: db.counters.misses_total.wrapping_add(if there { 0 } else { 1 }),
                expired_keys_total: dropped,
                ..db.counters
            })
            &&& database_after(server, db, CommandView::Exists { key }, now).counters == (
            MetricsSnapshot { expired_keys_total: dropped, ..db.counters })
            &&& database_after(server, db, CommandView::Ttl { key }, now).counters == (
            MetricsSnapshot { expired_keys_total: dropped, ..db.counters })
        }),
{
}

/// A node of a cluster counts every command about a key as redirected or as its own.
pub proof fn law_routed_commands_are_counted(
    server: ServerView,
    db: DatabaseView,
    command: CommandView,
    key: Seq<u8>,
    now: Timestamp,
)
    requires
        server.cluster is Some,
        about(command, key),
    ensures
        ({
            let after = database_after(server, db, command, now).counters;
            let own = serves(server, key);
            &&& after.cluster_local_commands_total
                == db.counters.cluster_local_commands_total.wrapping_add(if own { 1 } else { 0 })
            &&& after.cluster_redirects_total == db.counters.cluster_redirects_total.wrapping_add(
                if own { 0 } else { 1 },
            )
        }),
{
}

/// A change that was made counts as one record in the log with its bytes, and as a write or a
/// removal. DEL and PERSIST count an entry that they had to drop because its time was up.
pub proof fn law_changes_are_counted(
    server: ServerView,
    db: DatabaseView,
    command: CommandView,
    key: Seq<u8>,
    asked_at: Timestamp,
    staged: StagedView,
    now: Timestamp,
)
    requires
        stages(server, db, command, asked_at, staged),
        about(command, key),
    ensures
        ({
            let gone = db.data.dom().contains(key) && !present(db.data, key, now);
            let write = command is Put || command is SetEx;
            db.committed(staged, now).counters == (MetricsSnapshot {
                wal_records_written: db.counters.wal_records_written.wrapping_add(1),
                wal_bytes_written: db.counters.wal_bytes_written.wrapping_add(
                    staged.encoded.len() as u64,
                ),
                sets_total: db.counters.sets_total.wrapping_add(if write { 1 } else { 0 }),
                deletes_total: db.counters.deletes_total.wrapping_add(
                    if command is Del { 1 } else { 0 },
                ),
                expired_keys_total: db.counters.expired_keys_total.wrapping_add(
                    if !write && gone { 1 } else { 0 },
                ),
                ..db.counters
            })
        }),
{
}

/// The connections of clients: an accepted one counts and is active until it ends, one that is
/// turned away counts as that, and nothing else is counted.
pub proof fn law_connections_are_counted(counters: MetricsSnapshot, reaction: Reaction)
    ensures
        connection_counters(counters, Event::Accepted, Reaction::Serve) == (MetricsSnapshot {
            connections_total: counters.connections_total.wrapping_add(1),
            connections_active: counters.connections_active.wrapping_add(1),
            ..counters
        }),
        connection_counters(counters, Event::Accepted, Reaction::Reject) == (MetricsSnapshot {
            connections_rejected_total: counters.connections_rejected_total.wrapping_add(1),
            ..counters
        }),
        connection_counters(counters, Event::ConnectionEnded, reaction) == (MetricsSnapshot {
            connections_active: counters.connections_active.wrapping_sub(1),
            ..counters
        }),
        connection_counters(counters, Event::ShutdownRequested, reaction) == counters,
{
}

/// Whether bytes are one frame that a client reads as this response, whatever follows them.
pub open spec fn reads_as(bytes: Seq<u8>, response: ResponseView, limits: ProtocolLimits) -> bool {
    exists|frame: FrameView|
        response_of(frame) == Ok::<ResponseView, ProtocolError>(response) && #[trigger] is_frame(
            bytes,
            frame,
            limits,
        )
}

/// Whether bytes are this frame, whatever follows them.
pub open spec fn is_frame(bytes: Seq<u8>, frame: FrameView, limits: ProtocolLimits) -> bool {
    forall|rest: Seq<u8>|
        #[trigger] first_frame(bytes + rest, limits) == Ok::<
            Option<(FrameView, nat)>,
            ProtocolError,
        >(Some((frame, bytes.len())))
}

/// An answer that fits in a frame is written so that the client reads that answer.
pub proof fn law_answers_are_written(response: ResponseView, limits: ProtocolLimits, close: bool)
    requires
        response.encodable(),
        response.payload().len() + 2 <= limits.max_frame_size,
        response.payload().len() + 2 <= u32::MAX,
        response.payload().len() + 6 <= usize::MAX,
    ensures
        match answering(response, limits, close) {
            ActionView::Reply(bytes) => !close && reads_as(bytes, response, limits),
            ActionView::ReplyAndClose(bytes) => close && reads_as(bytes, response, limits),
            _ => false,
        },
{
    let frame = response.frame();
    assert(frame.body().len() == response.payload().len() + 2);
    assert forall|rest: Seq<u8>|
        #[trigger] first_frame(frame.encoded() + rest, limits) == Ok::<
            Option<(FrameView, nat)>,
            ProtocolError,
        >(Some((frame, frame.encoded().len()))) by {
        law_frame_round_trip(frame, limits, rest);
    }
    law_response_round_trip(response);
    assert(is_frame(frame.encoded(), frame, limits));
    assert(reads_as(frame.encoded(), response, limits));
}

/// A frame with an acceptable command is counted and leads to what the command leads to. Where the
/// command is answered, the connection stays open.
pub proof fn law_frames_carry_commands(
    server: ServerView,
    db: DatabaseView,
    frame: FrameView,
    now: Timestamp,
    uptime: u64,
)
    requires
        command_of(frame, db.limits) is Ok,
    ensures
        ({
            let command = command_of(frame, db.limits)->Ok_0;
            let counted = DatabaseView {
                counters: MetricsSnapshot {
                    commands_total: db.counters.commands_total.wrapping_add(1),
                    ..db.counters
                },
                ..db
            };
            &&& frame_database(server, db, frame, now) == database_after(
                server,
                counted,
                command,
                now,
            )
            &&& frame_action(server, db, frame, now, uptime) == (match outcome(
                server,
                counted,
                command,
                now,
                uptime,
            ) {
                Ok(ExecutionView::Answer(response)) => answering(response, db.limits, false),
                Ok(ExecutionView::Append(staged)) => ActionView::Append(staged),
                Err(_) => answering(
                    ResponseView::ServerError("internal server error"@),
                    db.limits,
                    false,
                ),
            })
        }),
{
}

/// A frame without an acceptable command counts as a broken protocol, and as nothing else.
pub proof fn law_bad_frames_are_counted(
    server: ServerView,
    db: DatabaseView,
    frame: FrameView,
    now: Timestamp,
)
    requires
        command_of(frame, db.limits) is Err,
    ensures
        frame_database(server, db, frame, now) == (DatabaseView {
            counters: MetricsSnapshot {
                protocol_errors_total: db.counters.protocol_errors_total.wrapping_add(1),
                ..db.counters
            },
            ..db
        }),
{
}

/// An answer that is too long for a frame is not cut: the connection fails, with its length and the
/// limit.
pub proof fn law_answers_that_do_not_fit_fail(
    response: ResponseView,
    limits: ProtocolLimits,
    close: bool,
)
    requires
        response.encodable(),
        response.payload().len() + 2 > limits.max_frame_size,
        response.payload().len() + 2 <= u32::MAX,
        response.payload().len() + 6 <= usize::MAX,
    ensures
        answering(response, limits, close) == ActionView::Fail(
            (ProtocolError::FrameTooLarge {
                actual: (response.payload().len() + 2) as usize,
                maximum: limits.max_frame_size,
            }),
        ),
{
    let length = (response.payload().len() + 2) as u32;
    assert(response.frame().body().len() == length);
    law_frames_are_bounded(length, limits);
}

/// A server is what it was configured to be: it refuses changes exactly as a follower, serves as
/// many connections as it may, and is part of a cluster exactly where that is switched on. It cannot
/// be had only where the cluster is switched on and cannot be.
pub proof fn law_servers_are_as_configured(
    config: Config,
    address: String,
    server: Result<Server, ConfigError>,
)
    requires
        call_ensures(Server::new, (&config, address), server),
    ensures
        !config@.cluster_enabled ==> server is Ok && server->Ok_0@.cluster is None,
        config@.cluster_enabled ==> (server is Ok <==> topology_of(
            config@.cluster_node_id,
            config@.cluster_nodes,
            config@.cluster_virtual_nodes,
        ) is Ok),
        server is Ok ==> {
            let made = server->Ok_0@;
            &&& made.listening_address == address@
            &&& made.fsync == config@.fsync
            &&& made.follower <==> config@.replication_role == ReplicationRole::Follower
            &&& made.max_connections == config@.max_connections
            &&& config@.cluster_enabled ==> made.cluster is Some && made.cluster->0.local.id
                == config@.cluster_node_id && made.cluster->0.replicas
                == config@.cluster_virtual_nodes && made.cluster->0.members == topology_of(
                config@.cluster_node_id,
                config@.cluster_nodes,
                config@.cluster_virtual_nodes,
            )->Ok_0.to_set()
        },
{
}

} // verus!
