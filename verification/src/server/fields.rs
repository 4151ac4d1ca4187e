//! The fields of the answers about the server itself.

use vstd::prelude::*;

use crate::metrics::MetricsSnapshot;
use crate::protocol::response::stats_view;

verus! {

/// The counters by their names.
pub open spec fn stats_fields(counters: MetricsSnapshot) -> Seq<(Seq<char>, u64)> {
    seq![
        ("connections_total"@, counters.connections_total),
        ("connections_active"@, counters.connections_active),
        ("commands_total"@, counters.commands_total),
        ("gets_total"@, counters.gets_total),
        ("sets_total"@, counters.sets_total),
        ("deletes_total"@, counters.deletes_total),
        ("hits_total"@, counters.hits_total),
        ("misses_total"@, counters.misses_total),
        ("expired_keys_total"@, counters.expired_keys_total),
        ("protocol_errors_total"@, counters.protocol_errors_total),
        ("wal_records_written"@, counters.wal_records_written),
        ("wal_bytes_written"@, counters.wal_bytes_written),
        ("connections_rejected_total"@, counters.connections_rejected_total),
        ("snapshots_created_total"@, counters.snapshots_created_total),
        ("wal_compactions_total"@, counters.wal_compactions_total),
        ("snapshot_entries_written"@, counters.snapshot_entries_written),
        ("replication_connections_total"@, counters.replication_connections_total),
        ("replication_syncs_total"@, counters.replication_syncs_total),
        ("replication_full_syncs_total"@, counters.replication_full_syncs_total),
        ("replication_bytes_sent_total"@, counters.replication_bytes_sent_total),
        ("replication_bytes_received_total"@, counters.replication_bytes_received_total),
        ("replication_errors_total"@, counters.replication_errors_total),
        ("replication_lag_bytes"@, counters.replication_lag_bytes),
        ("cluster_redirects_total"@, counters.cluster_redirects_total),
        ("cluster_local_commands_total"@, counters.cluster_local_commands_total),
    ]
}

fn put_counter(fields: &mut Vec<(String, u64)>, name: &str, value: u64)
    ensures
        stats_view(final(fields)@) == stats_view(old(fields)@).push((name@, value)),
{
    fields.push((name.to_owned(), value));
    assert(stats_view(fields@) =~= stats_view(old(fields)@).push((name@, value)));
}

/// The counters by their names.
pub fn list_counters(counters: MetricsSnapshot) -> (fields: Vec<(String, u64)>)
    ensures
        stats_view(fields@) == stats_fields(counters),
{
    let mut fields: Vec<(String, u64)> = Vec::new();
    put_counter(&mut fields, "connections_total", counters.connections_total);
    put_counter(&mut fields, "connections_active", counters.connections_active);
    put_counter(&mut fields, "commands_total", counters.commands_total);
    put_counter(&mut fields, "gets_total", counters.gets_total);
    put_counter(&mut fields, "sets_total", counters.sets_total);
    put_counter(&mut fields, "deletes_total", counters.deletes_total);
    put_counter(&mut fields, "hits_total", counters.hits_total);
    put_counter(&mut fields, "misses_total", counters.misses_total);
    put_counter(&mut fields, "expired_keys_total", counters.expired_keys_total);
    put_counter(&mut fields, "protocol_errors_total", counters.protocol_errors_total);
    put_counter(&mut fields, "wal_records_written", counters.wal_records_written);
    put_counter(&mut fields, "wal_bytes_written", counters.wal_bytes_written);
    put_counter(&mut fields, "connections_rejected_total", counters.connections_rejected_total);
    put_counter(&mut fields, "snapshots_created_total", counters.snapshots_created_total);
    put_counter(&mut fields, "wal_compactions_total", counters.wal_compactions_total);
    put_counter(&mut fields, "snapshot_entries_written", counters.snapshot_entries_written);
    put_counter(&mut fields, "replication_connections_total", counters.replication_connections_total);
    put_counter(&mut fields, "replication_syncs_total", counters.replication_syncs_total);
    put_counter(&mut fields, "replication_full_syncs_total", counters.replication_full_syncs_total);
    put_counter(&mut fields, "replication_bytes_sent_total", counters.replication_bytes_sent_total);
    put_counter(&mut fields, "replication_bytes_received_total", counters.replication_bytes_received_total);
    put_counter(&mut fields, "replication_errors_total", counters.replication_errors_total);
    put_counter(&mut fields, "replication_lag_bytes", counters.replication_lag_bytes);
    put_counter(&mut fields, "cluster_redirects_total", counters.cluster_redirects_total);
    put_counter(&mut fields, "cluster_local_commands_total", counters.cluster_local_commands_total);
    assert(stats_view(fields@) =~= stats_fields(counters));
    fields
}

/// Whether a field with this name shows this number at its place.
pub open spec fn shows_counter(
    fields: Seq<(Seq<char>, u64)>,
    place: int,
    name: Seq<char>,
    value: u64,
) -> bool {
    0 <= place < fields.len() && fields[place].0 == name && fields[place].1 == value
}

/// Every counter is shown under its own name, the first twelve in their old order.
pub proof fn law_every_counter_has_its_field(counters: MetricsSnapshot)
    ensures
        ({
            let fields = stats_fields(counters);
            &&& fields.len() == 25
            &&& shows_counter(fields, 0, "connections_total"@, counters.connections_total)
            &&& shows_counter(fields, 1, "connections_active"@, counters.connections_active)
            &&& shows_counter(fields, 2, "commands_total"@, counters.commands_total)
            &&& shows_counter(fields, 3, "gets_total"@, counters.gets_total)
            &&& shows_counter(fields, 4, "sets_total"@, counters.sets_total)
            &&& shows_counter(fields, 5, "deletes_total"@, counters.deletes_total)
            &&& shows_counter(fields, 6, "hits_total"@, counters.hits_total)
            &&& shows_counter(fields, 7, "misses_total"@, counters.misses_total)
            &&& shows_counter(fields, 8, "expired_keys_total"@, counters.expired_keys_total)
            &&& shows_counter(fields, 9, "protocol_errors_total"@, counters.protocol_errors_total)
            &&& shows_counter(fields, 10, "wal_records_written"@, counters.wal_records_written)
            &&& shows_counter(fields, 11, "wal_bytes_written"@, counters.wal_bytes_written)
            &&& shows_counter(fields, 12, "connections_rejected_total"@, counters.connections_rejected_total)
            &&& shows_counter(fields, 13, "snapshots_created_total"@, counters.snapshots_created_total)
            &&& shows_counter(fields, 14, "wal_compactions_total"@, counters.wal_compactions_total)
            &&& shows_counter(fields, 15, "snapshot_entries_written"@, counters.snapshot_entries_written)
            &&& shows_counter(fields, 16, "replication_connections_total"@, counters.replication_connections_total)
            &&& shows_counter(fields, 17, "replication_syncs_total"@, counters.replication_syncs_total)
            &&& shows_counter(fields, 18, "replication_full_syncs_total"@, counters.replication_full_syncs_total)
            &&& shows_counter(fields, 19, "replication_bytes_sent_total"@, counters.replication_bytes_sent_total)
            &&& shows_counter(fields, 20, "replication_bytes_received_total"@, counters.replication_bytes_received_total)
            &&& shows_counter(fields, 21, "replication_errors_total"@, counters.replication_errors_total)
            &&& shows_counter(fields, 22, "replication_lag_bytes"@, counters.replication_lag_bytes)
            &&& shows_counter(fields, 23, "cluster_redirects_total"@, counters.cluster_redirects_total)
            &&& shows_counter(fields, 24, "cluster_local_commands_total"@, counters.cluster_local_commands_total)
        }),
{
}

/// Nothing has been counted before anything happens: every field shows zero.
pub proof fn law_counters_start_at_zero(place: int)
    requires
        0 <= place < 25,
    ensures
        stats_fields(crate::metrics::zero_metrics())[place].1 == 0,
{
}

} // verus!
