//! What may be counted on of a running node: when it reads, what it reports, and who
//! compacts.

use vstd::prelude::*;

use crate::hlc;
use crate::hlc::HybridTimestamp;
use crate::raft_metrics;
use crate::raft_metrics::RaftMetricsSnapshot;
use crate::raft_metrics::RaftObservation;
use crate::raft_metrics::SnapshotStreamStats;
use crate::raft_metrics::SnapshotTransferEvent;
use crate::raft_metrics::SnapshotTransferMetrics;
use crate::runtime;
use crate::runtime::OrionCompactionLease;

verus! {

/// A node serves reads when it runs, knows the leader and has applied what is committed.
pub proof fn law_reads_wait_for_what_is_committed(raft: RaftMetricsSnapshot)
    ensures
        !raft.running ==> !raft.can_read(),
        raft.current_leader is None ==> !raft.can_read(),
        raft.committed_index matches Some(committed) ==> (raft.applied_index matches Some(applied)
            ==> (applied < committed ==> !raft.can_read())),
        raft.running && raft.current_leader is Some && (raft.committed_index is None
            || raft.applied_index is None || raft.applied_index->0 >= raft.committed_index->0)
            ==> raft.can_read(),
{
}

/// A time is reached by what was applied at it or later, and by nothing where nothing was
/// applied.
pub proof fn law_applied_times_are_reached(applied: HybridTimestamp, read_ts: HybridTimestamp)
    ensures
        !runtime::has_reached(None, read_ts),
        runtime::has_reached(Some(applied), applied),
        hlc::before(read_ts, applied) ==> runtime::has_reached(Some(applied), read_ts),
        hlc::before(applied, read_ts) ==> !runtime::has_reached(Some(applied), read_ts),
{
}

/// A peer lags by the entries that it does not have yet, and by none where it has more.
pub proof fn law_lag_is_what_is_missing(last: u64, matched: u64)
    ensures
        raft_metrics::lag(None, Some(matched)) is None,
        raft_metrics::lag(Some(last), None) is None,
        matched <= last ==> (raft_metrics::lag(Some(last), Some(matched)) matches Some(behind)
            && matched + behind == last),
        matched > last ==> raft_metrics::lag(Some(last), Some(matched)) == Some(0u64),
{
}

/// What a node reports is what was observed of it, and for every peer what it has and how
/// far it lags.
pub proof fn law_reports_are_observations(
    metrics: RaftMetricsSnapshot,
    observation: RaftObservation,
    i: int,
)
    requires
        raft_metrics::reports(metrics, observation),
    ensures
        metrics.node_id == observation.node_id,
        metrics.state == observation.state,
        metrics.running == observation.running,
        metrics.current_term == observation.current_term,
        metrics.current_leader == observation.current_leader,
        metrics.last_log_index == observation.last_log_index,
        metrics.committed_index == observation.committed_index,
        metrics.applied_index == observation.applied_index,
        metrics.snapshot_index == observation.snapshot_index,
        metrics.purged_index == observation.purged_index,
        metrics.voter_ids == observation.voter_ids,
        metrics.learner_ids == observation.learner_ids,
        metrics.replication@.len() == observation.matched@.len(),
        0 <= i < observation.matched@.len() ==> {
            let peer = metrics.replication@[i];
            &&& peer.node_id == observation.matched@[i].0
            &&& peer.matched_index == observation.matched@[i].1
            &&& peer.replication_lag == raft_metrics::lag(
                observation.last_log_index,
                observation.matched@[i].1,
            )
        },
{
}

/// Every event of a transfer is counted once, where it belongs: what was sent on the side
/// that sends, what was received on the other, and a failure never as a success.
pub proof fn law_transfers_are_counted(
    metrics: SnapshotTransferMetrics,
    event: SnapshotTransferEvent,
    stats: SnapshotStreamStats,
)
    requires
        raft_metrics::has_room(metrics, event),
        (event matches SnapshotTransferEvent::Streamed(streamed) ==> streamed == stats),
        (event matches SnapshotTransferEvent::Received(received) ==> received == stats),
    ensures
        ({
            let after = raft_metrics::after_transfer(metrics, event);
            let one = |counted: bool|
                if counted {
                    1int
                } else {
                    0int
                };
            let sent = event is Streamed;
            let received = event is Received;
            &&& after.snapshots_sent == metrics.snapshots_sent + one(event is Sent)
            &&& after.snapshots_received == metrics.snapshots_received + one(received)
            &&& after.snapshot_send_failures == metrics.snapshot_send_failures + one(
                event is SendFailed,
            )
            &&& after.snapshot_receive_failures == metrics.snapshot_receive_failures + one(
                event is ReceiveFailed,
            )
            &&& after.multipart_upload_failures == metrics.multipart_upload_failures + one(
                event is UploadFailed,
            )
            &&& after.multipart_upload_aborts == metrics.multipart_upload_aborts + one(
                event is UploadAborted,
            )
            &&& after.manifest_bytes_sent - metrics.manifest_bytes_sent == (if sent {
                stats.manifest_bytes as int
            } else {
                0
            })
            &&& after.checkpoint_objects_sent - metrics.checkpoint_objects_sent == (if sent {
                stats.checkpoint_objects as int
            } else {
                0
            })
            &&& after.checkpoint_object_bytes_sent - metrics.checkpoint_object_bytes_sent == (if sent {
                stats.checkpoint_object_bytes as int
            } else {
                0
            })
            &&& after.manifest_bytes_received - metrics.manifest_bytes_received == (if received {
                stats.manifest_bytes as int
            } else {
                0
            })
            &&& after.checkpoint_objects_received - metrics.checkpoint_objects_received == (
            if received {
                stats.checkpoint_objects as int
            } else {
                0
            })
            &&& after.checkpoint_object_bytes_received - metrics.checkpoint_object_bytes_received
                == (if received {
                stats.checkpoint_object_bytes as int
            } else {
                0
            })
        }),
{
}

/// A lease is in another node's way exactly while that node holds it and it has not run out.
pub proof fn law_leases_run_out(lease: OrionCompactionLease, owner_node_id: u64, now_ms: u64)
    ensures
        !runtime::is_held_by_other(None, owner_node_id, now_ms),
        lease.owner_node_id == owner_node_id ==> !runtime::is_held_by_other(
            Some(lease),
            owner_node_id,
            now_ms,
        ),
        lease.expires_at_ms <= now_ms ==> !runtime::is_held_by_other(
            Some(lease),
            owner_node_id,
            now_ms,
        ),
        lease.owner_node_id != owner_node_id && now_ms < lease.expires_at_ms
            ==> runtime::is_held_by_other(Some(lease), owner_node_id, now_ms),
{
}

/// A lease that is granted names its owner and the time of the grant. A node that renews its
/// lease keeps the time since which it holds it, and whoever takes a lease over keeps what
/// was compacted under it; each grant has a later number.
pub proof fn law_granted_lease_carries_on(
    lease: OrionCompactionLease,
    existing: Option<OrionCompactionLease>,
    name: Seq<char>,
    owner_node_id: u64,
    now_ms: u64,
    ttl_ms: u64,
)
    requires
        runtime::is_granted(lease, existing, name, owner_node_id, now_ms, ttl_ms),
        owner_node_id <= i64::MAX,
        now_ms + ttl_ms <= i64::MAX,
    ensures
        lease.name@ == name,
        lease.owner_node_id == owner_node_id,
        lease.renewed_at_ms == now_ms,
        lease.expires_at_ms == now_ms + ttl_ms,
        match existing {
            None => lease.epoch == 1 && lease.acquired_at_ms == now_ms
                && lease.last_compacted_version is None,
            Some(held) => {
                &&& held.epoch < i64::MAX ==> lease.epoch == held.epoch + 1
                &&& held.owner_node_id == owner_node_id && held.acquired_at_ms <= i64::MAX
                    ==> lease.acquired_at_ms == held.acquired_at_ms
                &&& held.owner_node_id != owner_node_id ==> lease.acquired_at_ms == now_ms
                &&& held.last_compacted_version is None ==> lease.last_compacted_version is None
                &&& held.last_compacted_version matches Some(version) ==> (version <= i64::MAX
                    ==> lease.last_compacted_version == Some(version))
            },
        },
{
}

/// A number that fits a column is stored as it is, and any other as the greatest that does.
pub proof fn law_columns_hold_what_fits(value: int)
    requires
        value >= 0,
    ensures
        value <= i64::MAX ==> runtime::column(value) == value,
        value > i64::MAX ==> runtime::column(value) == i64::MAX,
        value <= u64::MAX ==> runtime::saturated(value) == value,
        value > u64::MAX ==> runtime::saturated(value) == u64::MAX,
{
}

} // verus!
