//! What a restart finds again.

use vstd::prelude::*;

use crate::config::FsyncMode;
use crate::metrics::MetricsSnapshot;
use crate::persistence::batch::records_bytes;
use crate::persistence::database::{
    base_data, lists_live, mutated, open_outcome, opened_counters, opened_data, recovered_log,
    DatabaseView, MutationView, StagedView,
};
use crate::persistence::identity::DataFiles;
use crate::persistence::laws::{
    decided, entry_under, law_appended_records_are_read_back, law_follower_converges,
    law_recoveries_are_reported, law_replay_decides_written_keys, lemma_left_under, logged,
    persisted_since, records_accepted,
};
use crate::persistence::log::{all_applied, all_applied_counters, apply_problem, scan_log};
use crate::persistence::record::{instant_of, millis_of, RecordType, RecordView, NO_EXPIRATION};
use crate::persistence::snapshot::{
    law_loading_skips_what_has_expired, law_snapshot_round_trip, list_accepted, scan_snapshot,
    snapshot_bytes, stored, stored_list, unexpired,
};
use crate::protocol::frame::ProtocolLimits;
use crate::store::entry::{
    distinct_keys, entries_map, lemma_entries_map_keys, live, EntryView, SnapshotEntryView,
};
use crate::store::laws::present;
use crate::store::sharded::{found, kept_for_good};
use crate::time::Timestamp;

verus! {

/// A change that was staged, appended to the log and then made in memory.
#[verifier::ext_equal]
pub struct Change {
    pub mutation: MutationView,
    pub staged_at: Timestamp,
    pub made_at: Timestamp,
}

impl Change {
    /// The record of the change.
    pub open spec fn record(self) -> RecordView {
        logged(self.mutation, self.staged_at)->Ok_0
    }

    /// Whether the change has a record that can be applied.
    pub open spec fn sound(self) -> bool {
        logged(self.mutation, self.staged_at) is Ok && apply_problem(self.record()) is None
    }

    /// The key that the change is about.
    pub open spec fn key(self) -> Seq<u8> {
        self.record().key
    }
}

/// Whether changes were made one after the other, up to an instant.
pub open spec fn in_order(changes: Seq<Change>, until: Timestamp) -> bool
    decreases changes.len(),
{
    changes.len() > 0 ==> {
        &&& changes.last().sound()
        &&& changes.last().made_at.nanos <= until.nanos
        &&& in_order(changes.drop_last(), changes.last().made_at)
    }
}

/// The records of changes.
pub open spec fn records_of(changes: Seq<Change>) -> Seq<RecordView> {
    changes.map_values(|change: Change| change.record())
}

/// The data in memory after changes.
pub open spec fn after_changes(base: Map<Seq<u8>, EntryView>, changes: Seq<Change>) -> Map<
    Seq<u8>,
    EntryView,
>
    decreases changes.len(),
{
    if changes.len() == 0 {
        base
    } else {
        mutated(
            after_changes(base, changes.drop_last()),
            changes.last().mutation,
            changes.last().made_at,
        )
    }
}

/// An entry as a snapshot keeps it.
pub open spec fn stored_entry(key: Seq<u8>, entry: EntryView) -> EntryView {
    stored(
        SnapshotEntryView { key, value: entry.value, expires_at: entry.expires_at },
    ).entry()
}

/// Data as a snapshot keeps it.
pub open spec fn stored_data(data: Map<Seq<u8>, EntryView>) -> Map<Seq<u8>, EntryView> {
    Map::new(|key: Seq<u8>| data.dom().contains(key), |key: Seq<u8>| stored_entry(key, data[key]))
}

/// Whether a snapshot can keep the expiration of an entry: there are milliseconds for it, and they
/// are not those that stand for none.
pub open spec fn storable(entry: EntryView) -> bool {
    match entry.expires_at {
        Some(instant) => millis_of(instant) is Ok && millis_of(instant)->Ok_0 != NO_EXPIRATION,
        None => true,
    }
}

/// Whether a snapshot can keep the expiration of every entry.
pub open spec fn all_storable(data: Map<Seq<u8>, EntryView>) -> bool {
    forall|key: Seq<u8>| data.dom().contains(key) ==> storable(#[trigger] data[key])
}

/// An entry as memory has it from the change that wrote it last, and as the disk has it.
#[verifier::ext_equal]
pub struct Origin {
    pub written: EntryView,
    pub on_disk: EntryView,
}

/// Where the entry under a key comes from. None where it was removed last, or never written.
pub open spec fn origin(
    base: Map<Seq<u8>, EntryView>,
    changes: Seq<Change>,
    key: Seq<u8>,
) -> Option<Origin>
    decreases changes.len(),
{
    if changes.len() == 0 {
        match entry_under(base, key) {
            Some(entry) => Some(Origin { written: entry, on_disk: stored_entry(key, entry) }),
            None => None,
        }
    } else {
        let change = changes.last();
        let record = change.record();
        let logged_entry = EntryView {
            value: record.value,
            expires_at: if record.record_type == RecordType::SetEx {
                Some(instant_of(record.expires_at_ms->0))
            } else {
                None
            },
        };
        if change.key() != key || record.record_type == RecordType::Persist {
            origin(base, changes.drop_last(), key)
        } else if record.record_type == RecordType::Del {
            None
        } else {
            match change.mutation {
                MutationView::SetEx { value, expires_at, .. } => Some(
                    Origin {
                        written: EntryView { value, expires_at: Some(expires_at) },
                        on_disk: logged_entry,
                    },
                ),
                _ => if logged_entry.expired(change.made_at) {
                    None
                } else {
                    Some(Origin { written: logged_entry, on_disk: logged_entry })
                },
            }
        }
    }
}

/// Whether the expiration of a key was taken away, before an instant and after it was written
/// last.
pub open spec fn persisted(changes: Seq<Change>, key: Seq<u8>, before: Timestamp) -> bool
    decreases changes.len(),
{
    if changes.len() == 0 {
        false
    } else if changes.last().key() != key {
        persisted(changes.drop_last(), key, before)
    } else if changes.last().record().record_type == RecordType::Persist {
        changes.last().made_at.nanos < before.nanos || persisted(changes.drop_last(), key, before)
    } else {
        false
    }
}

/// Whether a restart at this instant finds a key as memory has it. It does not where the time of
/// the value, as the disk has it, is up by then, and memory has the value still: because its
/// expiration was taken away, or because its last millisecond runs.
pub open spec fn recoverable(
    base: Map<Seq<u8>, EntryView>,
    changes: Seq<Change>,
    key: Seq<u8>,
    at: Timestamp,
) -> bool {
    match origin(base, changes, key) {
        Some(origin) => origin.on_disk.expired(at) ==> origin.written.expired(at) && !persisted(
            changes,
            key,
            origin.written.expires_at->0,
        ),
        None => true,
    }
}

/// Whether an expiration is the same but for a part of a millisecond that was cut away.
pub open spec fn same_to_the_millisecond(
    exact: Option<Timestamp>,
    cut: Option<Timestamp>,
) -> bool {
    match (exact, cut) {
        (None, None) => true,
        (Some(exact), Some(cut)) => cut.nanos <= exact.nanos < cut.nanos + 1_000_000,
        _ => false,
    }
}

/// Whether a value that was found again is the one that memory has.
pub open spec fn recovered_as(kept: Option<EntryView>, recovered: Option<EntryView>) -> bool {
    match (kept, recovered) {
        (None, None) => true,
        (Some(kept), Some(recovered)) => recovered.value == kept.value && same_to_the_millisecond(
            kept.expires_at,
            recovered.expires_at,
        ),
        _ => false,
    }
}

/// How memory and a replay stand to where an entry comes from.
spec fn follows(
    origin: Option<Origin>,
    persisted: bool,
    memory: Option<EntryView>,
    replayed: Option<EntryView>,
    last: Timestamp,
    at: Timestamp,
) -> bool {
    match origin {
        None => memory is None && replayed is None,
        Some(origin) => {
            let kept = EntryView { value: origin.written.value, expires_at: None };
            &&& origin.on_disk.value == origin.written.value
            &&& same_to_the_millisecond(origin.written.expires_at, origin.on_disk.expires_at)
            &&& match origin.written.expires_at {
                None => memory == Some(kept) && replayed == Some(kept),
                Some(expires_at) => {
                    &&& persisted ==> memory == Some(kept)
                    &&& !persisted ==> memory == Some(origin.written) || (memory is None
                        && expires_at.nanos <= last.nanos)
                    &&& !origin.on_disk.expired(at) ==> replayed == (if persisted {
                        Some(kept)
                    } else {
                        Some(origin.on_disk)
                    })
                    &&& origin.on_disk.expired(at) ==> replayed is None || replayed == Some(
                        origin.on_disk,
                    )
                },
            }
        },
    }
}

/// Memory and a replay at a later instant, change by change.
proof fn lemma_follows(
    base: Map<Seq<u8>, EntryView>,
    changes: Seq<Change>,
    key: Seq<u8>,
    last: Timestamp,
    at: Timestamp,
)
    requires
        in_order(changes, last),
        last.nanos <= at.nanos,
        all_storable(base),
    ensures
        follows(
            origin(base, changes, key),
            origin(base, changes, key) is Some && persisted(
                changes,
                key,
                origin(base, changes, key)->0.written.expires_at->0,
            ),
            entry_under(after_changes(base, changes), key),
            entry_under(all_applied(stored_data(base), records_of(changes), at), key),
            last,
            at,
        ),
    decreases changes.len(),
{
    if changes.len() > 0 {
        let before = changes.drop_last();
        let change = changes.last();
        lemma_follows(base, before, key, change.made_at, at);
        assert(records_of(changes).drop_last() =~= records_of(before));
        assert(records_of(changes).last() == change.record());
    }
}

/// What was written before a restart is found after it: over a snapshot of the data that there was
/// once, the log gives every key as memory had it, but for a part of a millisecond of its
/// expiration. A key that was missing is missing.
pub proof fn law_restart_recovers_the_data(
    base: Map<Seq<u8>, EntryView>,
    changes: Seq<Change>,
    key: Seq<u8>,
    at: Timestamp,
)
    requires
        in_order(changes, at),
        all_storable(base),
        recoverable(base, changes, key, at),
    ensures
        recovered_as(
            found(after_changes(base, changes), key, at),
            found(all_applied(stored_data(base), records_of(changes), at), key, at),
        ),
{
    lemma_follows(base, changes, key, at, at);
}

proof fn lemma_unexpired_map(list: Seq<SnapshotEntryView>, at: Timestamp)
    requires
        distinct_keys(list),
    ensures
        entries_map(unexpired(list, at)) == live(entries_map(list), at),
    decreases list.len(),
{
    if list.len() > 0 {
        let shorter = list.drop_last();
        let last = list.last();
        assert(distinct_keys(shorter)) by {
            assert forall|i: int, j: int|
                #![trigger shorter[i], shorter[j]]
                0 <= i < j < shorter.len() implies shorter[i].key != shorter[j].key by {
                assert(list[i] == shorter[i] && list[j] == shorter[j]);
            }
        }
        lemma_unexpired_map(shorter, at);
        assert(!entries_map(shorter).dom().contains(last.key)) by {
            lemma_entries_map_keys(shorter, last.key);
            if entries_map(shorter).dom().contains(last.key) {
                let i = choose|i: int|
                    0 <= i < shorter.len() && (#[trigger] shorter[i]).key == last.key;
                assert(list[i].key == list[list.len() - 1].key);
            }
        }
        if !last.entry().expired(at) {
            let kept = unexpired(shorter, at);
            assert(kept.push(last).drop_last() =~= kept);
        }
        assert(entries_map(unexpired(list, at)) =~= live(entries_map(list), at));
    } else {
        assert(entries_map(unexpired(list, at)) =~= live(entries_map(list), at));
    }
}

proof fn lemma_stored_map(list: Seq<SnapshotEntryView>)
    ensures
        entries_map(stored_list(list)) == stored_data(entries_map(list)),
    decreases list.len(),
{
    if list.len() > 0 {
        lemma_stored_map(list.drop_last());
        assert(stored_list(list).drop_last() =~= stored_list(list.drop_last()));
    }
    assert(entries_map(stored_list(list)) =~= stored_data(entries_map(list)));
}

/// What is loaded from a snapshot of the data that there was at an earlier instant.
proof fn lemma_loaded(
    data: Map<Seq<u8>, EntryView>,
    list: Seq<SnapshotEntryView>,
    captured: Timestamp,
    files: DataFiles,
    limits: ProtocolLimits,
    at: Timestamp,
)
    requires
        all_storable(data),
        lists_live(data, captured, list),
        list_accepted(list, limits),
        list.len() <= u64::MAX,
        files.snapshot is Some,
        files.snapshot->0@ == snapshot_bytes(list),
        captured.nanos <= at.nanos,
    ensures
        base_data(Map::empty(), files, limits, at) == live(stored_data(data), at),
{
    law_snapshot_round_trip(list, limits);
    assert(distinct_keys(stored_list(list))) by {
        assert forall|i: int, j: int|
            #![trigger stored_list(list)[i], stored_list(list)[j]]
            0 <= i < j < list.len() implies stored_list(list)[i].key != stored_list(list)[j].key by {
            assert(list[i].key != list[j].key);
        }
    }
    lemma_unexpired_map(stored_list(list), at);
    lemma_stored_map(list);
    let loaded = base_data(Map::empty(), files, limits, at);
    let expected = live(stored_data(data), at);
    assert forall|key: Seq<u8>| true implies {
        &&& #[trigger] loaded.dom().contains(key) <==> expected.dom().contains(key)
        &&& loaded.dom().contains(key) ==> loaded[key] == expected[key]
    } by {
        if data.dom().contains(key) {
            assert(storable(data[key]));
        }
        assert(loaded.dom().contains(key) <==> live(
            stored_data(live(data, captured)),
            at,
        ).dom().contains(key));
    }
    assert(loaded =~= expected);
}

/// A database that is opened again reads as it did before: over a snapshot of the data that it had
/// once, and a log that holds the records of the changes since.
pub proof fn law_reopened_database_reads_as_before(
    base: Map<Seq<u8>, EntryView>,
    captured: Timestamp,
    list: Seq<SnapshotEntryView>,
    changes: Seq<Change>,
    files: DataFiles,
    limits: ProtocolLimits,
    key: Seq<u8>,
    at: Timestamp,
)
    requires
        all_storable(base),
        lists_live(base, captured, list),
        list_accepted(list, limits),
        list.len() <= u64::MAX,
        files.snapshot is Some,
        files.snapshot->0@ == snapshot_bytes(list),
        captured.nanos <= at.nanos,
        in_order(changes, at),
        scan_log(recovered_log(files), 8, limits).0 == records_of(changes),
        recoverable(base, changes, key, at),
    ensures
        recovered_as(
            found(after_changes(base, changes), key, at),
            found(opened_data(Map::empty(), files, limits, at), key, at),
        ),
{
    lemma_loaded(base, list, captured, files, limits, at);
    law_restart_recovers_the_data(base, changes, key, at);
    law_follower_converges(stored_data(base), records_of(changes), at, at);
    let replayed = all_applied(stored_data(base), records_of(changes), at);
    assert(found(live(replayed, at), key, at) == found(replayed, key, at));
}

/// The same without a snapshot, where the log holds all changes that were ever made.
pub proof fn law_reopened_log_reads_as_before(
    changes: Seq<Change>,
    files: DataFiles,
    limits: ProtocolLimits,
    key: Seq<u8>,
    at: Timestamp,
)
    requires
        files.snapshot is None,
        in_order(changes, at),
        scan_log(recovered_log(files), 8, limits).0 == records_of(changes),
        recoverable(Map::empty(), changes, key, at),
    ensures
        recovered_as(
            found(after_changes(Map::empty(), changes), key, at),
            found(opened_data(Map::empty(), files, limits, at), key, at),
        ),
{
    let nothing = Map::<Seq<u8>, EntryView>::empty();
    assert(stored_data(nothing) =~= nothing);
    law_restart_recovers_the_data(nothing, changes, key, at);
    let replayed = all_applied(nothing, records_of(changes), at);
    assert(found(live(replayed, at), key, at) == found(replayed, key, at));
}

/// A key that no change decides: where its entry comes from, and what is left of it.
proof fn lemma_undecided(
    base: Map<Seq<u8>, EntryView>,
    changes: Seq<Change>,
    key: Seq<u8>,
    last: Timestamp,
    expires_at: Timestamp,
)
    requires
        in_order(changes, last),
        !decided(records_of(changes), key),
    ensures
        origin(base, changes, key) == origin(base, seq![], key),
        !persisted_since(records_of(changes), key) ==> entry_under(
            after_changes(base, changes),
            key,
        ) == entry_under(base, key),
        persisted_since(records_of(changes), key) && !persisted(changes, key, expires_at)
            ==> expires_at.nanos <= last.nanos,
    decreases changes.len(),
{
    if changes.len() > 0 {
        let before = changes.drop_last();
        assert(records_of(changes).drop_last() =~= records_of(before));
        assert(records_of(changes).last() == changes.last().record());
        lemma_undecided(base, before, key, changes.last().made_at, expires_at);
    }
}

/// A compaction that a crash interrupts loses nothing: where the new snapshot is in place and the
/// log still holds the changes that led to it, the database reads as before.
pub proof fn law_interrupted_compaction_loses_nothing(
    base: Map<Seq<u8>, EntryView>,
    changes: Seq<Change>,
    captured: Timestamp,
    list: Seq<SnapshotEntryView>,
    files: DataFiles,
    limits: ProtocolLimits,
    key: Seq<u8>,
    at: Timestamp,
)
    requires
        all_storable(base),
        all_storable(after_changes(base, changes)),
        in_order(changes, captured),
        captured.nanos <= at.nanos,
        lists_live(after_changes(base, changes), captured, list),
        list_accepted(list, limits),
        list.len() <= u64::MAX,
        files.snapshot is Some,
        files.snapshot->0@ == snapshot_bytes(list),
        scan_log(recovered_log(files), 8, limits).0 == records_of(changes),
        recoverable(base, changes, key, at),
    ensures
        recovered_as(
            found(after_changes(base, changes), key, at),
            found(opened_data(Map::empty(), files, limits, at), key, at),
        ),
{
    let memory = after_changes(base, changes);
    let records = records_of(changes);
    let over = live(stored_data(memory), at);
    let replayed = all_applied(over, records, at);
    lemma_loaded(memory, list, captured, files, limits, at);
    assert(found(live(replayed, at), key, at) == found(replayed, key, at));
    lemma_left_under(over, records, key, at);
    lemma_follows(base, changes, key, captured, at);
    if memory.dom().contains(key) {
        assert(storable(memory[key]));
    }
    if decided(records, key) {
        law_replay_decides_written_keys(over, stored_data(base), records, key, at);
    } else {
        let origin = origin(base, changes, key);
        lemma_undecided(base, changes, key, captured, origin->0.written.expires_at->0);
    }
}

/// From the bytes alone: a log that is its header and the bytes of the records of all changes opens
/// with what memory had.
pub proof fn law_log_bytes_reopen(
    changes: Seq<Change>,
    files: DataFiles,
    limits: ProtocolLimits,
    key: Seq<u8>,
    at: Timestamp,
)
    requires
        files.snapshot is None,
        in_order(changes, at),
        records_accepted(records_of(changes), limits),
        files.wal@ == seq![0x46u8, 0x4b, 0x56, 0x57, 1, 0, 0, 0] + records_bytes(
            records_of(changes),
        ),
        recoverable(Map::empty(), changes, key, at),
    ensures
        recovered_as(
            found(after_changes(Map::empty(), changes), key, at),
            found(opened_data(Map::empty(), files, limits, at), key, at),
        ),
{
    let header = seq![0x46u8, 0x4b, 0x56, 0x57, 1, 0, 0, 0];
    assert(scan_log(header, 8, limits).0 =~= seq![]);
    law_appended_records_are_read_back(header, 8, records_of(changes), limits);
    assert(seq![] + records_of(changes) =~= records_of(changes));
    law_reopened_log_reads_as_before(changes, files, limits, key, at);
}

/// What a snapshot of live entries holds for a follower or for a restart: a key that is there when
/// it is loaded, with its value, and its expiration cut to the millisecond, and no other.
pub proof fn law_snapshots_carry_what_is_live(
    data: Map<Seq<u8>, EntryView>,
    captured: Timestamp,
    list: Seq<SnapshotEntryView>,
    limits: ProtocolLimits,
    at: Timestamp,
    key: Seq<u8>,
)
    requires
        all_storable(data),
        lists_live(data, captured, list),
        list_accepted(list, limits),
        list.len() <= u64::MAX,
        captured.nanos <= at.nanos,
    ensures
        ({
            let (read, problem) = scan_snapshot(snapshot_bytes(list), limits);
            let loaded = entries_map(unexpired(read, at));
            let until = data[key].expires_at->0.nanos / 1_000_000 * 1_000_000;
            let there = data.dom().contains(key) && (data[key].expires_at is Some ==> at.nanos
                < until);
            &&& problem is None
            &&& loaded.dom().contains(key) <==> there
            &&& there ==> loaded[key].value == data[key].value
            &&& there && data[key].expires_at is None ==> loaded[key].expires_at is None
            &&& there && data[key].expires_at is Some ==> loaded[key].expires_at == Some(
                Timestamp { nanos: until as i128 },
            )
        }),
{
    law_snapshot_round_trip(list, limits);
    assert(distinct_keys(stored_list(list))) by {
        assert forall|i: int, j: int|
            #![trigger stored_list(list)[i], stored_list(list)[j]]
            0 <= i < j < list.len() implies stored_list(list)[i].key != stored_list(list)[j].key by {
            assert(list[i].key != list[j].key);
        }
    }
    lemma_unexpired_map(stored_list(list), at);
    lemma_stored_map(list);
    if data.dom().contains(key) {
        assert(storable(data[key]));
    }
    let alive = live(data, captured);
    assert(entries_map(list) == alive);
    assert(alive.dom().contains(key) ==> alive[key] == data[key]);
}

/// A change that is made lengthens the log by the bytes that were staged for it, and leaves
/// something to be forced to disk in every mode but the one that forces each change. Nothing else
/// of the database changes but its data and its counters.
pub proof fn law_commits_lengthen_the_log(db: DatabaseView, staged: StagedView, now: Timestamp)
    ensures
        ({
            let after = db.committed(staged, now);
            let length = db.wal.bytes_written + staged.encoded.len();
            &&& length <= u64::MAX ==> after.wal.bytes_written == length
            &&& length > u64::MAX ==> after.wal.bytes_written == u64::MAX
            &&& after.wal.dirty <==> db.wal.fsync == FsyncMode::EverySecond || db.wal.fsync
                == FsyncMode::Never
            &&& after.wal.fsync == db.wal.fsync
            &&& after.generation == db.generation
            &&& after.node_id == db.node_id
            &&& after.limits == db.limits
            &&& after.shards == db.shards
            &&& after.compaction_threshold_bytes == db.compaction_threshold_bytes
        }),
{
}

/// Replaying the log counts the expired values that it comes across, and nothing else: not the
/// writes and removals that were counted when they were made.
pub proof fn law_replay_counts_expirations_only(
    counters: MetricsSnapshot,
    map: Map<Seq<u8>, EntryView>,
    records: Seq<RecordView>,
    record: RecordView,
    now: Timestamp,
)
    ensures
        all_applied_counters(counters, map, seq![], now) == counters,
        ({
            let data = all_applied(map, records, now);
            let before = all_applied_counters(counters, map, records, now);
            let gone = data.dom().contains(record.key) && !present(data, record.key, now);
            let kept = record.record_type == RecordType::SetEx && now.nanos
                < record.expires_at_ms->0 * 1_000_000;
            let dropped = gone && record.record_type != RecordType::Put && !kept;
            all_applied_counters(counters, map, records.push(record), now) == (MetricsSnapshot {
                expired_keys_total: if dropped {
                    before.expired_keys_total.wrapping_add(1)
                } else {
                    before.expired_keys_total
                },
                ..before
            })
        }),
{
    assert(records.push(record).drop_last() =~= records);
}

/// A data directory whose snapshot and log are sound opens, with or without the part of one more
/// record at the end of the log. The report counts the entries of the snapshot that were loaded
/// and those that had expired, the records of the log and the keys that are left, and says where
/// the log is whole.
pub proof fn law_sound_files_open(
    files: DataFiles,
    list: Seq<SnapshotEntryView>,
    records: Seq<RecordView>,
    torn: RecordView,
    kept: int,
    limits: ProtocolLimits,
    now: Timestamp,
    keys: usize,
)
    requires
        list_accepted(list, limits),
        list.len() < u64::MAX,
        records_accepted(records, limits),
        torn.encodable(),
        torn.accepted(limits),
        0 <= kept < torn.encoded().len(),
        8 + records_bytes(records).len() <= u64::MAX,
        records.len() <= u64::MAX,
        files.snapshot is Some ==> files.snapshot->0@ == snapshot_bytes(list),
        files.snapshot is None ==> list.len() == 0,
        files.wal@ == seq![0x46u8, 0x4b, 0x56, 0x57, 1, 0, 0, 0] + records_bytes(records)
            + torn.encoded().take(kept),
    ensures
        ({
            let opened = open_outcome(files, limits, now, keys as nat);
            let loaded = unexpired(stored_list(list), now).len();
            &&& opened is Ok
            &&& opened->Ok_0.records_replayed == records.len()
            &&& opened->Ok_0.recovered_keys == keys
            &&& opened->Ok_0.valid_bytes == 8 + records_bytes(records).len()
            &&& opened->Ok_0.truncated_tail_removed <==> kept > 0
            &&& opened->Ok_0.snapshot_entries_loaded == loaded
            &&& opened->Ok_0.snapshot_expired_entries_skipped == list.len() - loaded
        }),
{
    let header = seq![0x46u8, 0x4b, 0x56, 0x57, 1, 0, 0, 0];
    let log = header + records_bytes(records);
    assert(files.wal@.take(8) =~= header);
    assert(header =~= crate::persistence::record::WAL_HEADER@);
    if kept > 0 {
        law_recoveries_are_reported(records, torn, kept, limits, keys);
        assert(files.wal@ =~= log + torn.encoded().take(kept));
    } else {
        crate::persistence::record::lemma_record_layout(torn);
        law_recoveries_are_reported(records, torn, 1, limits, keys);
        assert(files.wal@ =~= log);
    }
    assert(stored_list(list).len() == list.len());
    if files.snapshot is Some {
        law_snapshot_round_trip(list, limits);
        law_loading_skips_what_has_expired(stored_list(list), arbitrary(), now);
    } else {
        assert(stored_list(list) =~= seq![]);
    }
}

/// A directory with nothing in it opens as an empty database. A log that starts otherwise than with
/// its header is refused, and so is a damaged snapshot: neither is taken for empty.
pub proof fn law_unsound_files_are_refused(
    files: DataFiles,
    limits: ProtocolLimits,
    now: Timestamp,
    keys: usize,
    key: Seq<u8>,
)
    ensures
        files.snapshot is None && files.wal@.len() == 0 ==> {
            let opened = open_outcome(files, limits, now, keys as nat);
            &&& opened is Ok && opened->Ok_0.records_replayed == 0
            &&& opened->Ok_0.valid_bytes == 8 && !opened->Ok_0.truncated_tail_removed
            &&& !opened_data(Map::empty(), files, limits, now).dom().contains(key)
        },
        files.snapshot is Some && scan_snapshot(files.snapshot->0@, limits).1 is Some
            ==> open_outcome(files, limits, now, keys as nat) is Err,
        0 < files.wal@.len() < 8 ==> open_outcome(files, limits, now, keys as nat) is Err,
        files.wal@.len() >= 8 && files.wal@.take(8) != seq![
            0x46u8,
            0x4b,
            0x56,
            0x57,
            1,
            0,
            0,
            0,
        ] ==> open_outcome(files, limits, now, keys as nat) is Err,
{
    let header = seq![0x46u8, 0x4b, 0x56, 0x57, 1, 0, 0, 0];
    assert(header =~= crate::persistence::record::WAL_HEADER@);
}

proof fn lemma_replay_counts(
    counters: MetricsSnapshot,
    map: Map<Seq<u8>, EntryView>,
    records: Seq<RecordView>,
    now: Timestamp,
)
    ensures
        ({
            let after = all_applied_counters(counters, map, records, now);
            after == (MetricsSnapshot { expired_keys_total: after.expired_keys_total, ..counters })
        }),
    decreases records.len(),
{
    if records.len() > 0 {
        lemma_replay_counts(counters, map, records.drop_last(), now);
    }
}

/// Opening a database counts what had expired by then, and leaves every other counter as it was.
/// With neither a snapshot nor a log, what had expired is what was in the store and is not there
/// any more.
pub proof fn law_opening_counts_expirations_only(
    counters: MetricsSnapshot,
    before: Map<Seq<u8>, EntryView>,
    files: DataFiles,
    limits: ProtocolLimits,
    now: Timestamp,
)
    ensures
        ({
            let after = opened_counters(counters, before, files, limits, now);
            &&& after == (MetricsSnapshot {
                expired_keys_total: after.expired_keys_total,
                ..counters
            })
            &&& files.wal@.len() == 0 && files.snapshot is None && before.dom().finite() && before.dom(
            ).len() <= u64::MAX ==> after.expired_keys_total
                == counters.expired_keys_total.wrapping_add(
                (before.dom().len() - live(before, now).dom().len()) as u64,
            )
        }),
{
    let records = scan_log(recovered_log(files), 8, limits).0;
    lemma_replay_counts(counters, base_data(before, files, limits, now), records, now);
    if files.wal@.len() == 0 {
        assert(recovered_log(files).len() == 8);
        assert(records =~= seq![]);
    }
    if before.dom().finite() {
        assert(live(before, now).dom() =~= before.dom().filter(
            |key: Seq<u8>| !before[key].expired(now),
        ));
        before.dom().lemma_len_filter(|key: Seq<u8>| !before[key].expired(now));
    }
}

} // verus!
