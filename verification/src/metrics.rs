//! Counters of what a server does.

use vstd::prelude::*;

verus! {

/// The counters at one moment.
#[derive(Clone, Copy, Debug, PartialEq, Eq, Structural)]
pub struct MetricsSnapshot {
    pub connections_total: u64,
    pub connections_active: u64,
    pub commands_total: u64,
    pub gets_total: u64,
    pub sets_total: u64,
    pub deletes_total: u64,
    pub hits_total: u64,
    pub misses_total: u64,
    pub expired_keys_total: u64,
    pub protocol_errors_total: u64,
    pub wal_records_written: u64,
    pub wal_bytes_written: u64,
    pub connections_rejected_total: u64,
    pub snapshots_created_total: u64,
    pub wal_compactions_total: u64,
    pub snapshot_entries_written: u64,
    pub replication_connections_total: u64,
    pub replication_syncs_total: u64,
    pub replication_full_syncs_total: u64,
    pub replication_bytes_sent_total: u64,
    pub replication_bytes_received_total: u64,
    pub replication_errors_total: u64,
    pub replication_lag_bytes: u64,
    pub cluster_redirects_total: u64,
    pub cluster_local_commands_total: u64,
}

/// Every counter at zero.
pub open spec fn zero_metrics() -> MetricsSnapshot {
    MetricsSnapshot {
        connections_total: 0,
        connections_active: 0,
        commands_total: 0,
        gets_total: 0,
        sets_total: 0,
        deletes_total: 0,
        hits_total: 0,
        misses_total: 0,
        expired_keys_total: 0,
        protocol_errors_total: 0,
        wal_records_written: 0,
        wal_bytes_written: 0,
        connections_rejected_total: 0,
        snapshots_created_total: 0,
        wal_compactions_total: 0,
        snapshot_entries_written: 0,
        replication_connections_total: 0,
        replication_syncs_total: 0,
        replication_full_syncs_total: 0,
        replication_bytes_sent_total: 0,
        replication_bytes_received_total: 0,
        replication_errors_total: 0,
        replication_lag_bytes: 0,
        cluster_redirects_total: 0,
        cluster_local_commands_total: 0,
    }
}

/// The running counters. They wrap around at their end.
#[derive(Clone, Copy, Debug, PartialEq, Eq, Structural)]
pub struct Metrics {
    counters: MetricsSnapshot,
}

impl View for Metrics {
    type V = MetricsSnapshot;

    closed spec fn view(&self) -> MetricsSnapshot {
        self.counters
    }
}

impl Default for Metrics {
    fn default() -> (metrics: Self)
        ensures
            metrics@ == zero_metrics(),
    {
        Self {
            counters: MetricsSnapshot {
                connections_total: 0,
                connections_active: 0,
                commands_total: 0,
                gets_total: 0,
                sets_total: 0,
                deletes_total: 0,
                hits_total: 0,
                misses_total: 0,
                expired_keys_total: 0,
                protocol_errors_total: 0,
                wal_records_written: 0,
                wal_bytes_written: 0,
                connections_rejected_total: 0,
                snapshots_created_total: 0,
                wal_compactions_total: 0,
                snapshot_entries_written: 0,
                replication_connections_total: 0,
                replication_syncs_total: 0,
                replication_full_syncs_total: 0,
                replication_bytes_sent_total: 0,
                replication_bytes_received_total: 0,
                replication_errors_total: 0,
                replication_lag_bytes: 0,
                cluster_redirects_total: 0,
                cluster_local_commands_total: 0,
            },
        }
    }
}

impl Metrics {
    /// A connection was accepted.
    pub fn connection_opened(&mut self)
        ensures
            final(self)@ == (MetricsSnapshot {
                connections_total: old(self)@.connections_total.wrapping_add(1),
                connections_active: old(self)@.connections_active.wrapping_add(1),
                ..old(self)@
            }),
    {
        self.counters.connections_total = self.counters.connections_total.wrapping_add(1);
        self.counters.connections_active = self.counters.connections_active.wrapping_add(1);
    }

    /// An accepted connection ended.
    pub fn connection_closed(&mut self)
        ensures
            final(self)@ == (MetricsSnapshot {
                connections_active: old(self)@.connections_active.wrapping_sub(1),
                ..old(self)@
            }),
    {
        self.counters.connections_active = self.counters.connections_active.wrapping_sub(1);
    }

    /// A command was received.
    pub fn command(&mut self)
        ensures
            final(self)@ == (MetricsSnapshot {
                commands_total: old(self)@.commands_total.wrapping_add(1),
                ..old(self)@
            }),
    {
        self.counters.commands_total = self.counters.commands_total.wrapping_add(1);
    }

    /// A value was asked for.
    pub fn get(&mut self)
        ensures
            final(self)@ == (MetricsSnapshot {
                gets_total: old(self)@.gets_total.wrapping_add(1),
                ..old(self)@
            }),
    {
        self.counters.gets_total = self.counters.gets_total.wrapping_add(1);
    }

    /// A value was written.
    pub fn set(&mut self)
        ensures
            final(self)@ == (MetricsSnapshot {
                sets_total: old(self)@.sets_total.wrapping_add(1),
                ..old(self)@
            }),
    {
        self.counters.sets_total = self.counters.sets_total.wrapping_add(1);
    }

    /// A removal was carried out.
    pub fn delete(&mut self)
        ensures
            final(self)@ == (MetricsSnapshot {
                deletes_total: old(self)@.deletes_total.wrapping_add(1),
                ..old(self)@
            }),
    {
        self.counters.deletes_total = self.counters.deletes_total.wrapping_add(1);
    }

    /// A value that was asked for was there.
    pub fn hit(&mut self)
        ensures
            final(self)@ == (MetricsSnapshot {
                hits_total: old(self)@.hits_total.wrapping_add(1),
                ..old(self)@
            }),
    {
        self.counters.hits_total = self.counters.hits_total.wrapping_add(1);
    }

    /// A value that was asked for was not there.
    pub fn miss(&mut self)
        ensures
            final(self)@ == (MetricsSnapshot {
                misses_total: old(self)@.misses_total.wrapping_add(1),
                ..old(self)@
            }),
    {
        self.counters.misses_total = self.counters.misses_total.wrapping_add(1);
    }

    /// `count` entries were dropped because they had expired.
    pub fn expired(&mut self, count: u64)
        ensures
            final(self)@ == (MetricsSnapshot {
                expired_keys_total: old(self)@.expired_keys_total.wrapping_add(count),
                ..old(self)@
            }),
    {
        self.counters.expired_keys_total = self.counters.expired_keys_total.wrapping_add(count);
    }

    /// A peer broke the protocol.
    pub fn protocol_error(&mut self)
        ensures
            final(self)@ == (MetricsSnapshot {
                protocol_errors_total: old(self)@.protocol_errors_total.wrapping_add(1),
                ..old(self)@
            }),
    {
        self.counters.protocol_errors_total = self.counters.protocol_errors_total.wrapping_add(1);
    }

    /// A connection was turned away.
    pub fn connection_rejected(&mut self)
        ensures
            final(self)@ == (MetricsSnapshot {
                connections_rejected_total: old(self)@.connections_rejected_total.wrapping_add(1),
                ..old(self)@
            }),
    {
        self.counters.connections_rejected_total = self.counters.connections_rejected_total.wrapping_add(1);
    }

    /// The log was replaced by a snapshot of `entries` entries.
    pub fn compaction_completed(&mut self, entries: u64)
        ensures
            final(self)@ == (MetricsSnapshot {
                snapshots_created_total: old(self)@.snapshots_created_total.wrapping_add(1),
                wal_compactions_total: old(self)@.wal_compactions_total.wrapping_add(1),
                snapshot_entries_written: old(self)@.snapshot_entries_written.wrapping_add(entries),
                ..old(self)@
            }),
    {
        self.counters.snapshots_created_total = self.counters.snapshots_created_total.wrapping_add(1);
        self.counters.wal_compactions_total = self.counters.wal_compactions_total.wrapping_add(1);
        self.counters.snapshot_entries_written = self.counters.snapshot_entries_written.wrapping_add(entries);
    }

    /// A snapshot of `entries` entries was made for a follower.
    pub fn replication_snapshot_created(&mut self, entries: u64)
        ensures
            final(self)@ == (MetricsSnapshot {
                snapshots_created_total: old(self)@.snapshots_created_total.wrapping_add(1),
                snapshot_entries_written: old(self)@.snapshot_entries_written.wrapping_add(entries),
                ..old(self)@
            }),
    {
        self.counters.snapshots_created_total = self.counters.snapshots_created_total.wrapping_add(1);
        self.counters.snapshot_entries_written = self.counters.snapshot_entries_written.wrapping_add(entries);
    }

    /// A record of `bytes` bytes was appended to the log.
    pub fn wal_write(&mut self, bytes: u64)
        ensures
            final(self)@ == (MetricsSnapshot {
                wal_records_written: old(self)@.wal_records_written.wrapping_add(1),
                wal_bytes_written: old(self)@.wal_bytes_written.wrapping_add(bytes),
                ..old(self)@
            }),
    {
        self.counters.wal_records_written = self.counters.wal_records_written.wrapping_add(1);
        self.counters.wal_bytes_written = self.counters.wal_bytes_written.wrapping_add(bytes);
    }

    /// A follower connected.
    pub fn replication_connection(&mut self)
        ensures
            final(self)@ == (MetricsSnapshot {
                replication_connections_total: old(self)@.replication_connections_total.wrapping_add(1),
                ..old(self)@
            }),
    {
        self.counters.replication_connections_total = self.counters.replication_connections_total.wrapping_add(1);
    }

    /// `bytes` bytes were sent to a follower, in a batch or in a full snapshot.
    pub fn replication_sent(&mut self, bytes: u64, full_sync: bool)
        ensures
            final(self)@ == (MetricsSnapshot {
                replication_syncs_total: old(self)@.replication_syncs_total.wrapping_add(1),
                replication_full_syncs_total: if full_sync {
                    old(self)@.replication_full_syncs_total.wrapping_add(1)
                } else {
                    old(self)@.replication_full_syncs_total
                },
                replication_bytes_sent_total: old(self)@.replication_bytes_sent_total.wrapping_add(
                    bytes,
                ),
                ..old(self)@
            }),
    {
        self.counters.replication_syncs_total =
        self.counters.replication_syncs_total.wrapping_add(1);
        if full_sync {
            self.counters.replication_full_syncs_total =
            self.counters.replication_full_syncs_total.wrapping_add(1);
        }
        self.counters.replication_bytes_sent_total =
        self.counters.replication_bytes_sent_total.wrapping_add(bytes);
    }

    /// `bytes` bytes came from the leader.
    pub fn replication_received(&mut self, bytes: u64)
        ensures
            final(self)@ == (MetricsSnapshot {
                replication_bytes_received_total: old(self)@.replication_bytes_received_total.wrapping_add(bytes),
                ..old(self)@
            }),
    {
        self.counters.replication_bytes_received_total = self.counters.replication_bytes_received_total.wrapping_add(bytes);
    }

    /// Replication failed.
    pub fn replication_error(&mut self)
        ensures
            final(self)@ == (MetricsSnapshot {
                replication_errors_total: old(self)@.replication_errors_total.wrapping_add(1),
                ..old(self)@
            }),
    {
        self.counters.replication_errors_total = self.counters.replication_errors_total.wrapping_add(1);
    }

    /// The follower is `bytes` bytes behind its leader.
    pub fn set_replication_lag(&mut self, bytes: u64)
        ensures
            final(self)@ == (MetricsSnapshot {
                replication_lag_bytes: bytes,
                ..old(self)@
            }),
    {
        self.counters.replication_lag_bytes = bytes;
    }

    /// A command was sent on to the node that owns its key.
    pub fn cluster_redirect(&mut self)
        ensures
            final(self)@ == (MetricsSnapshot {
                cluster_redirects_total: old(self)@.cluster_redirects_total.wrapping_add(1),
                ..old(self)@
            }),
    {
        self.counters.cluster_redirects_total = self.counters.cluster_redirects_total.wrapping_add(1);
    }

    /// A command was for a key that this node owns.
    pub fn cluster_local_command(&mut self)
        ensures
            final(self)@ == (MetricsSnapshot {
                cluster_local_commands_total: old(self)@.cluster_local_commands_total.wrapping_add(1),
                ..old(self)@
            }),
    {
        self.counters.cluster_local_commands_total = self.counters.cluster_local_commands_total.wrapping_add(1);
    }

    /// The counters as they stand.
    pub fn snapshot(&self) -> (snapshot: MetricsSnapshot)
        ensures
            snapshot == self@,
    {
        self.counters
    }
}

} // verus!
