//! What holds of the server as a whole.

use vstd::prelude::*;

use crate::cluster::membership::NodeView;
use crate::cluster::topology::{law_every_key_has_an_owner};
use crate::command::parser::{command_of, CommandView};
use crate::error::ForgeError;
use crate::hash::fnv1a_of;
use crate::metrics::MetricsSnapshot;
use crate::persistence::database::{DatabaseView, StagedView};
use crate::protocol::frame::FrameView;
use crate::protocol::response::ResponseView;
use crate::server::connection::{
    answering, append_action, append_database, frame_action, frame_database, refused, ActionView,
};
use crate::server::execute::{
    changes_data, database_after, integer_of, key_owner, outcome, redirect_of, ttl_number,
    ExecutionView, ServerView,
};
use crate::store::sharded::{found, TtlState};
use crate::time::{Duration, Timestamp};

verus! {

/// A command about a key that another node owns is answered with the address of that node, and
/// touches neither the data nor the log.
pub proof fn law_redirects_touch_nothing(
    server: ServerView,
    db: DatabaseView,
    command: CommandView,
    now: Timestamp,
    uptime: u64,
)
    requires
        server.cluster is Some,
        command.key() is Some,
        key_owner(server.cluster->0, command.key()->0) != server.cluster->0.local,
    ensures
        outcome(server, db, command, now, uptime) == Ok::<ExecutionView, ForgeError>(
            ExecutionView::Answer(
                ResponseView::Redirect(
                    key_owner(server.cluster->0, command.key()->0).address,
                ),
            ),
        ),
        database_after(server, db, command, now) == (DatabaseView {
            counters: MetricsSnapshot {
                cluster_redirects_total: db.counters.cluster_redirects_total.wrapping_add(1),
                ..db.counters
            },
            ..db
        }),
{
}

/// A command without a key is never redirected, and neither is one to a server that is in no
/// cluster.
pub proof fn law_only_keys_are_redirected(server: ServerView, command: CommandView)
    requires
        command.key() is None || server.cluster is None,
    ensures
        redirect_of(server, command) is None,
{
}

/// Whether no two members have the same address.
pub open spec fn distinct_addresses(members: Set<NodeView>) -> bool {
    forall|a: NodeView, b: NodeView|
        #![trigger members.contains(a), members.contains(b)]
        members.contains(a) && members.contains(b) && a.address == b.address ==> a == b
}

/// Where all nodes have the same membership, a redirect leads to a node that answers the command
/// itself: the first redirect is the last.
pub proof fn law_redirects_settle(first: ServerView, second: ServerView, command: CommandView)
    requires
        first.cluster is Some,
        second.cluster is Some,
        first.cluster->0.members == second.cluster->0.members,
        first.cluster->0.replicas == second.cluster->0.replicas,
        first.cluster->0.members.finite(),
        first.cluster->0.members.contains(second.cluster->0.local),
        first.cluster->0.replicas > 0,
        distinct_addresses(first.cluster->0.members),
        redirect_of(first, command) == Some(second.cluster->0.local.address),
    ensures
        redirect_of(second, command) is None,
{
    let cluster = first.cluster->0;
    let key = command.key()->0;
    if cluster.members.len() == 0 {
        assert(cluster.members =~= Set::empty());
    }
    law_every_key_has_an_owner(cluster.members, cluster.replicas, fnv1a_of(key));
    assert(cluster.members.contains(key_owner(cluster, key)));
}

/// Of two nodes with the same membership, one at most answers a command about a key. The other one
/// redirects it.
pub proof fn law_at_most_one_node_answers(first: ServerView, second: ServerView, command: CommandView)
    requires
        first.cluster is Some,
        second.cluster is Some,
        first.cluster->0.members == second.cluster->0.members,
        first.cluster->0.replicas == second.cluster->0.replicas,
        first.cluster->0.local != second.cluster->0.local,
        command.key() is Some,
    ensures
        redirect_of(first, command) is Some || redirect_of(second, command) is Some,
{
}

/// A follower refuses every command that changes data, and nothing changes.
pub proof fn law_followers_are_read_only(
    server: ServerView,
    db: DatabaseView,
    command: CommandView,
    now: Timestamp,
    uptime: u64,
)
    requires
        server.follower,
        server.cluster is None,
        changes_data(command),
    ensures
        outcome(server, db, command, now, uptime) == Ok::<ExecutionView, ForgeError>(
            ExecutionView::Answer(ResponseView::InvalidRequest("follower is read-only"@)),
        ),
        database_after(server, db, command, now) == db,
{
}

/// No command changes the log before its bytes are appended, and a command that changes data
/// leaves the data as it is until then.
pub proof fn law_changes_wait_for_the_log(
    server: ServerView,
    db: DatabaseView,
    command: CommandView,
    now: Timestamp,
)
    ensures
        database_after(server, db, command, now).wal == db.wal,
        database_after(server, db, command, now).generation == db.generation,
        changes_data(command) ==> database_after(server, db, command, now).data == db.data,
{
}

/// A change that could not be appended is not made, and is answered with an error.
pub proof fn law_failed_appends_change_nothing(
    db: DatabaseView,
    staged: StagedView,
    now: Timestamp,
)
    ensures
        append_action(db, staged, false, now) == answering(
            ResponseView::ServerError("internal server error"@),
            db.limits,
            false,
        ),
        append_database(db, staged, false, now) == db,
{
}

/// No command changes how a key reads, at that instant and later, unless it leads to a change that
/// is appended to the log.
pub proof fn law_reads_change_nothing(
    server: ServerView,
    db: DatabaseView,
    command: CommandView,
    now: Timestamp,
    key: Seq<u8>,
    later: Timestamp,
)
    requires
        now.nanos <= later.nanos,
    ensures
        found(database_after(server, db, command, now).data, key, later) == found(
            db.data,
            key,
            later,
        ),
{
}

/// Whether a server answers commands about this key itself.
pub open spec fn serves(server: ServerView, key: Seq<u8>) -> bool {
    match server.cluster {
        Some(cluster) => key_owner(cluster, key) == cluster.local,
        None => true,
    }
}

/// What a server answers to GET.
pub open spec fn get_answer(
    server: ServerView,
    db: DatabaseView,
    key: Seq<u8>,
    now: Timestamp,
    uptime: u64,
) -> Result<ExecutionView, ForgeError> {
    outcome(server, db, CommandView::Get { key }, now, uptime)
}

/// A value that was set is what GET answers from then on, EXISTS answers one, and the key does not
/// expire.
pub proof fn law_get_after_set(
    server: ServerView,
    db: DatabaseView,
    key: Seq<u8>,
    value: Seq<u8>,
    set_at: Timestamp,
    staged: StagedView,
    committed_at: Timestamp,
    now: Timestamp,
    uptime: u64,
)
    requires
        serves(server, key),
        outcome(server, db, CommandView::Put { key, value }, set_at, uptime) == Ok::<
            ExecutionView,
            ForgeError,
        >(ExecutionView::Append(staged)),
    ensures
        ({
            let after = db.committed(staged, committed_at);
            &&& get_answer(server, after, key, now, uptime) == Ok::<ExecutionView, ForgeError>(
                ExecutionView::Answer(ResponseView::Value(value)),
            )
            &&& outcome(server, after, CommandView::Exists { key }, now, uptime) == Ok::<
                ExecutionView,
                ForgeError,
            >(ExecutionView::Answer(ResponseView::Integer(1)))
            &&& outcome(server, after, CommandView::Ttl { key }, now, uptime) == Ok::<
                ExecutionView,
                ForgeError,
            >(ExecutionView::Answer(ResponseView::Integer(-1i64)))
        }),
{
    assert(ttl_number(TtlState::Persistent) == -1);
}

/// A value that was set with a time to live is what GET answers until that time is up, counted
/// from when the command was carried out. From then on the key is missing.
pub proof fn law_get_after_set_with_ttl(
    server: ServerView,
    db: DatabaseView,
    key: Seq<u8>,
    value: Seq<u8>,
    ttl: Duration,
    set_at: Timestamp,
    staged: StagedView,
    committed_at: Timestamp,
    now: Timestamp,
    uptime: u64,
)
    requires
        serves(server, key),
        outcome(server, db, CommandView::SetEx { key, ttl, value }, set_at, uptime) == Ok::<
            ExecutionView,
            ForgeError,
        >(ExecutionView::Append(staged)),
    ensures
        ({
            let after = db.committed(staged, committed_at);
            let live = now.nanos < set_at.nanos + ttl.nanos;
            &&& get_answer(server, after, key, now, uptime) == Ok::<ExecutionView, ForgeError>(
                ExecutionView::Answer(
                    if live {
                        ResponseView::Value(value)
                    } else {
                        ResponseView::NotFound
                    },
                ),
            )
            &&& !live ==> outcome(server, after, CommandView::Ttl { key }, now, uptime) == Ok::<
                ExecutionView,
                ForgeError,
            >(ExecutionView::Answer(ResponseView::Integer(-2i64)))
        }),
{
    assert(ttl_number(TtlState::Missing) == -2);
}

/// After DEL a key is missing, and DEL answers one where there was a live value and zero where
/// there was none.
pub proof fn law_get_after_delete(
    server: ServerView,
    db: DatabaseView,
    key: Seq<u8>,
    deleted_at: Timestamp,
    staged: StagedView,
    committed_at: Timestamp,
    now: Timestamp,
    uptime: u64,
)
    requires
        serves(server, key),
        outcome(server, db, CommandView::Del { key }, deleted_at, uptime) == Ok::<
            ExecutionView,
            ForgeError,
        >(ExecutionView::Append(staged)),
    ensures
        ({
            let after = db.committed(staged, committed_at);
            &&& append_action(db, staged, true, committed_at) == answering(
                ResponseView::Integer(integer_of(found(db.data, key, committed_at) is Some)),
                db.limits,
                false,
            )
            &&& get_answer(server, after, key, now, uptime) == Ok::<ExecutionView, ForgeError>(
                ExecutionView::Answer(ResponseView::NotFound),
            )
            &&& outcome(server, after, CommandView::Exists { key }, now, uptime) == Ok::<
                ExecutionView,
                ForgeError,
            >(ExecutionView::Answer(ResponseView::Integer(0)))
            &&& outcome(server, after, CommandView::Ttl { key }, now, uptime) == Ok::<
                ExecutionView,
                ForgeError,
            >(ExecutionView::Answer(ResponseView::Integer(-2i64)))
        }),
{
    assert(ttl_number(TtlState::Missing) == -2);
}

/// PERSIST on a live key keeps its value for good, and answers one exactly where there was an
/// expiration to take away.
pub proof fn law_get_after_persist(
    server: ServerView,
    db: DatabaseView,
    key: Seq<u8>,
    asked_at: Timestamp,
    staged: StagedView,
    committed_at: Timestamp,
    now: Timestamp,
    uptime: u64,
)
    requires
        serves(server, key),
        outcome(server, db, CommandView::Persist { key }, asked_at, uptime) == Ok::<
            ExecutionView,
            ForgeError,
        >(ExecutionView::Append(staged)),
    ensures
        ({
            let after = db.committed(staged, committed_at);
            let before = found(db.data, key, committed_at);
            &&& append_action(db, staged, true, committed_at) == answering(
                ResponseView::Integer(integer_of(before is Some && before->0.expires_at is Some)),
                db.limits,
                false,
            )
            &&& before is Some ==> get_answer(server, after, key, now, uptime) == Ok::<
                ExecutionView,
                ForgeError,
            >(ExecutionView::Answer(ResponseView::Value(before->0.value)))
            &&& before is Some ==> outcome(
                server,
                after,
                CommandView::Ttl { key },
                now,
                uptime,
            ) == Ok::<ExecutionView, ForgeError>(ExecutionView::Answer(ResponseView::Integer(-1i64)))
            &&& before is None ==> get_answer(server, after, key, now, uptime) == Ok::<
                ExecutionView,
                ForgeError,
            >(ExecutionView::Answer(ResponseView::NotFound))
        }),
{
    assert(ttl_number(TtlState::Persistent) == -1);
}

/// A change of one key leaves what GET answers for the others.
pub proof fn law_changes_concern_one_key(
    server: ServerView,
    db: DatabaseView,
    command: CommandView,
    asked_at: Timestamp,
    staged: StagedView,
    committed_at: Timestamp,
    other: Seq<u8>,
    now: Timestamp,
    uptime: u64,
)
    requires
        outcome(server, db, command, asked_at, uptime) == Ok::<ExecutionView, ForgeError>(
            ExecutionView::Append(staged),
        ),
        command.key() != Some(other),
    ensures
        get_answer(server, db.committed(staged, committed_at), other, now, uptime) == get_answer(
            server,
            db,
            other,
            now,
            uptime,
        ),
{
}

/// A frame that holds no acceptable command is answered with what is wrong with it, changes
/// nothing but a counter, and leaves the connection open.
pub proof fn law_bad_commands_change_nothing(
    server: ServerView,
    db: DatabaseView,
    frame: FrameView,
    now: Timestamp,
    uptime: u64,
)
    requires
        command_of(frame, db.limits) is Err,
    ensures
        frame_action(server, db, frame, now, uptime) == answering(
            ResponseView::InvalidRequest(command_of(frame, db.limits)->Err_0.text()),
            db.limits,
            false,
        ),
        frame_database(server, db, frame, now) == refused(db),
        refused(db).data == db.data,
        refused(db).wal == db.wal,
{
}

/// Every frame is answered, or leads to a change that is answered: a connection closes on a frame
/// only where its answer cannot be written.
pub proof fn law_every_frame_is_answered(
    server: ServerView,
    db: DatabaseView,
    frame: FrameView,
    now: Timestamp,
    uptime: u64,
    appended: bool,
    committed_at: Timestamp,
)
    ensures
        ({
            let action = frame_action(server, db, frame, now, uptime);
            let last = match action {
                ActionView::Append(staged) => append_action(
                    frame_database(server, db, frame, now),
                    staged,
                    appended,
                    committed_at,
                ),
                _ => action,
            };
            last is Reply || last is Fail
        }),
{
}

} // verus!
