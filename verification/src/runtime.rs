//! What a node serves of its databases, and how nodes agree on who compacts them.

use vstd::prelude::*;
use vstd::string::*;

use crate::bytes::str_equal;
use crate::hlc;
use crate::hlc::HybridTimestamp;
use crate::large_payload::LargePayloadConfig;
use crate::page_purge::SqlitePageCompactionMetrics;
use crate::raft_metrics::RaftMetricsSnapshot;
use crate::text;
use crate::text::append_number;
use crate::upload::LargeBatchOptions;
use crate::upload::DEFAULT_LARGE_BATCH_CHUNK_BYTES;
use crate::upload::DEFAULT_LARGE_BATCH_THRESHOLD_BYTES;

verus! {

broadcast use group_string_axioms;

/// The database in which nodes keep what they have to agree on.
pub const ORION_SYSTEM_DATABASE: &'static str = "_orion";

/// How far a replica is.
#[derive(Debug, Clone, PartialEq, Eq)]
pub struct OrionSqliteReplicaFreshness {
    pub raft: RaftMetricsSnapshot,
    pub applied_commit_ts: Option<HybridTimestamp>,
    pub closed_commit_ts: Option<HybridTimestamp>,
    pub staleness_ms: Option<u64>,
}

/// Up to where a node's databases are durable.
#[derive(Debug, Clone, Copy, PartialEq, Eq, Structural)]
pub struct OrionSqliteRuntimeWatermark {
    pub applied_index: Option<u64>,
    pub applied_commit_ts: Option<HybridTimestamp>,
}

/// Whether a timestamp is there and not before another one.
pub open spec fn has_reached(reached: Option<HybridTimestamp>, read_ts: HybridTimestamp) -> bool {
    reached matches Some(timestamp) && !hlc::before(timestamp, read_ts)
}

impl OrionSqliteReplicaFreshness {
    /// How far a replica is, given when its last request was committed and what the
    /// clock on the wall shows.
    pub fn at(
        raft: RaftMetricsSnapshot,
        applied_commit_ts: Option<HybridTimestamp>,
        now_ms: u64,
    ) -> (freshness: OrionSqliteReplicaFreshness)
        ensures
            freshness.raft == raft,
            freshness.applied_commit_ts == applied_commit_ts,
            freshness.closed_commit_ts == applied_commit_ts,
            freshness.staleness_ms == match applied_commit_ts {
                Some(timestamp) => Some(
                    if now_ms >= timestamp.physical_ms {
                        (now_ms - timestamp.physical_ms) as u64
                    } else {
                        0
                    },
                ),
                None => None,
            },
    {
        let staleness_ms: Option<u64> = match applied_commit_ts {
            Some(timestamp) => Some(now_ms.saturating_sub(timestamp.physical_ms)),
            None => None,
        };
        OrionSqliteReplicaFreshness {
            raft,
            applied_commit_ts,
            closed_commit_ts: applied_commit_ts,
            staleness_ms,
        }
    }

    /// Whether the replica can serve a read at a time: it is ready, and everything up
    /// to that time is closed and applied.
    pub fn can_serve_at_timestamp(&self, read_ts: HybridTimestamp) -> (can: bool)
        ensures
            can == (self.raft.can_read() && has_reached(self.closed_commit_ts, read_ts)
                && has_reached(self.applied_commit_ts, read_ts)),
    {
        let closed = match self.closed_commit_ts {
            Some(timestamp) => timestamp >= read_ts,
            None => false,
        };
        let applied = match self.applied_commit_ts {
            Some(timestamp) => timestamp >= read_ts,
            None => false,
        };
        self.raft.is_ready_for_linearizable_reads() && closed && applied
    }
}

/// How a node runs its databases.
#[derive(Debug, Clone, PartialEq, Eq)]
pub struct OrionSqliteRuntimeConfig {
    pub cache_root: String,
    pub large_batch_threshold_bytes: usize,
    pub large_batch_chunk_bytes: usize,
    pub large_payload_max_staged_uploads: usize,
    pub large_payload_max_staged_bytes: u64,
    pub large_payload_staging_ttl_ms: u64,
    pub large_payload_cleanup_batch_size: usize,
}

impl OrionSqliteRuntimeConfig {
    /// The defaults, with files under a directory.
    pub fn new(cache_root: String) -> (config: OrionSqliteRuntimeConfig)
        ensures
            config.cache_root == cache_root,
            config.large_batch_threshold_bytes == DEFAULT_LARGE_BATCH_THRESHOLD_BYTES,
            config.large_batch_chunk_bytes == DEFAULT_LARGE_BATCH_CHUNK_BYTES,
            config.large_payload_max_staged_uploads == 32,
            config.large_payload_max_staged_bytes == 512 * 1024 * 1024,
            config.large_payload_staging_ttl_ms == 30 * 60 * 1000,
            config.large_payload_cleanup_batch_size == 128,
    {
        let large = LargePayloadConfig::default();
        OrionSqliteRuntimeConfig {
            cache_root,
            large_batch_threshold_bytes: DEFAULT_LARGE_BATCH_THRESHOLD_BYTES,
            large_batch_chunk_bytes: DEFAULT_LARGE_BATCH_CHUNK_BYTES,
            large_payload_max_staged_uploads: large.max_staged_uploads,
            large_payload_max_staged_bytes: large.max_staged_bytes,
            large_payload_staging_ttl_ms: large.staging_ttl_ms,
            large_payload_cleanup_batch_size: large.cleanup_batch_size,
        }
    }

    /// When a batch is cut, and into what pieces.
    pub fn large_batch_options(&self) -> (options: LargeBatchOptions)
        ensures
            options.threshold_bytes == self.large_batch_threshold_bytes,
            options.chunk_bytes == self.large_batch_chunk_bytes,
    {
        LargeBatchOptions {
            threshold_bytes: self.large_batch_threshold_bytes,
            chunk_bytes: self.large_batch_chunk_bytes,
        }
    }
}

/// A database that is open under a file system of its own.
#[derive(Debug, Clone, PartialEq, Eq)]
pub struct OrionSqliteDb {
    pub database: String,
    pub vfs_name: String,
}

impl OrionSqliteDb {
    /// Where the database is opened.
    pub fn uri(&self) -> (uri: String)
        ensures
            uri@ == "file:"@ + self.database@ + ".db?vfs="@ + self.vfs_name@,
    {
        let mut uri: String = "file:".to_owned();
        uri.append(self.database.as_str());
        uri.append(".db?vfs=");
        uri.append(self.vfs_name.as_str());
        uri
    }
}

/// The name of a file system: by its prefix, the process and a number.
pub fn vfs_name(prefix: &str, process: u32, number: u64) -> (name: String)
    ensures
        name@ == prefix@ + "_"@ + text::number_text(process as nat) + "_"@ + text::number_text(
            number as nat,
        ),
{
    let mut name: String = prefix.to_owned();
    name.append("_");
    append_number(&mut name, process as u64);
    name.append("_");
    append_number(&mut name, number);
    name
}

/// A number as a column of a table can hold it.
pub open spec fn column(value: int) -> i64 {
    if value <= i64::MAX {
        value as i64
    } else {
        i64::MAX
    }
}

/// A number as a column of a table can hold it.
pub fn sqlite_i64(value: u64) -> (held: i64)
    ensures
        held == column(value as int),
{
    if value <= i64::MAX as u64 {
        value as i64
    } else {
        i64::MAX
    }
}

/// A number as a column of a table can hold it.
pub fn sqlite_usize(value: usize) -> (held: i64)
    ensures
        held == column(value as int),
{
    sqlite_i64(value as u64)
}

/// A number as it is read from a column; what is negative reads as zero.
pub fn sqlite_u64(value: i64) -> (read: u64)
    ensures
        read == if value < 0 {
            0
        } else {
            value as int
        },
{
    if value < 0 {
        0
    } else {
        value as u64
    }
}

/// What is written reads back, as far as a column can hold it.
pub proof fn law_columns_read_back(value: u64)
    ensures
        column(value as int) >= 0,
        value <= i64::MAX ==> column(value as int) == value,
{
}

/// A row about a compaction.
#[derive(Debug, Clone, Copy, PartialEq, Eq, Structural)]
pub struct CompactionRun {
    pub started_at_ms: i64,
    pub finished_at_ms: i64,
    pub duration_ms: i64,
    pub files_scanned: i64,
    pub files_compacted: i64,
    pub versions_scanned: i64,
    pub obsolete_versions: i64,
    pub deleted_versions: i64,
    pub bytes_scanned: i64,
    pub obsolete_bytes: i64,
    pub deleted_bytes: i64,
    pub errors: i64,
    pub highest_deleted_version: Option<i64>,
}

/// The row about a compaction.
pub fn compaction_run(
    started_at_ms: u64,
    finished_at_ms: u64,
    status: &str,
    metrics: &SqlitePageCompactionMetrics,
) -> (run: CompactionRun)
    ensures
        run.started_at_ms == column(started_at_ms as int),
        run.finished_at_ms == column(finished_at_ms as int),
        run.duration_ms == column(
            if finished_at_ms >= started_at_ms {
                finished_at_ms - started_at_ms
            } else {
                0
            },
        ),
        run.files_scanned == column(metrics.files_scanned as int),
        run.files_compacted == column(metrics.files_compacted as int),
        run.versions_scanned == column(metrics.versions_scanned as int),
        run.obsolete_versions == column(metrics.obsolete_versions as int),
        run.deleted_versions == column(metrics.deleted_versions as int),
        run.bytes_scanned == column(metrics.bytes_scanned as int),
        run.obsolete_bytes == column(metrics.obsolete_bytes as int),
        run.deleted_bytes == column(metrics.deleted_bytes as int),
        run.errors == if status@ == "error"@ {
            1int
        } else {
            0int
        },
        run.highest_deleted_version == match metrics.highest_deleted_version {
            Some(version) => Some(column(version as int)),
            None => None,
        },
        started_at_ms <= finished_at_ms <= i64::MAX ==> run.started_at_ms + run.duration_ms
            == run.finished_at_ms,
        metrics.deleted_bytes <= i64::MAX ==> run.deleted_bytes == metrics.deleted_bytes,
        metrics.deleted_versions <= i64::MAX ==> run.deleted_versions == metrics.deleted_versions,
        run.highest_deleted_version is Some <==> metrics.highest_deleted_version is Some,
{
    CompactionRun {
        started_at_ms: sqlite_i64(started_at_ms),
        finished_at_ms: sqlite_i64(finished_at_ms),
        duration_ms: sqlite_i64(finished_at_ms.saturating_sub(started_at_ms)),
        files_scanned: sqlite_usize(metrics.files_scanned),
        files_compacted: sqlite_usize(metrics.files_compacted),
        versions_scanned: sqlite_usize(metrics.versions_scanned),
        obsolete_versions: sqlite_usize(metrics.obsolete_versions),
        deleted_versions: sqlite_usize(metrics.deleted_versions),
        bytes_scanned: sqlite_i64(metrics.bytes_scanned),
        obsolete_bytes: sqlite_i64(metrics.obsolete_bytes),
        deleted_bytes: sqlite_i64(metrics.deleted_bytes),
        errors: if str_equal(status, "error") {
            1
        } else {
            0
        },
        highest_deleted_version: match metrics.highest_deleted_version {
            Some(version) => Some(sqlite_i64(version)),
            None => None,
        },
    }
}

/// What all compactions together did.
#[derive(Debug, Clone, Copy, PartialEq, Eq, Structural)]
pub struct CompactionTotals {
    pub total_runs: i64,
    pub total_errors: i64,
    pub total_deleted_versions: i64,
    pub total_deleted_bytes: i64,
}

/// The totals before the first compaction.
pub open spec fn no_compactions() -> CompactionTotals {
    CompactionTotals {
        total_runs: 0,
        total_errors: 0,
        total_deleted_versions: 0,
        total_deleted_bytes: 0,
    }
}

/// The totals that there are, or those before the first compaction.
pub open spec fn totals_or_none(totals: Option<CompactionTotals>) -> CompactionTotals {
    match totals {
        Some(found) => found,
        None => no_compactions(),
    }
}

/// Whether the totals have room for a compaction.
pub open spec fn totals_have_room(totals: CompactionTotals, run: CompactionRun) -> bool {
    &&& totals.total_runs < i64::MAX
    &&& i64::MIN <= totals.total_errors + run.errors <= i64::MAX
    &&& i64::MIN <= totals.total_deleted_versions + run.deleted_versions <= i64::MAX
    &&& i64::MIN <= totals.total_deleted_bytes + run.deleted_bytes <= i64::MAX
}

/// The totals after a compaction, unless a column cannot hold them.
pub fn totals_after(totals: Option<CompactionTotals>, run: &CompactionRun) -> (after: Option<
    CompactionTotals,
>)
    ensures
        after == if totals_have_room(totals_or_none(totals), *run) {
            Some(
                CompactionTotals {
                    total_runs: (totals_or_none(totals).total_runs + 1) as i64,
                    total_errors: (totals_or_none(totals).total_errors + run.errors) as i64,
                    total_deleted_versions: (totals_or_none(totals).total_deleted_versions
                        + run.deleted_versions) as i64,
                    total_deleted_bytes: (totals_or_none(totals).total_deleted_bytes
                        + run.deleted_bytes) as i64,
                },
            )
        } else {
            None
        },
        match (totals, after) {
            (Some(before), Some(sum)) => {
                &&& sum.total_runs == before.total_runs + 1
                &&& sum.total_errors == before.total_errors + run.errors
                &&& sum.total_deleted_versions == before.total_deleted_versions
                    + run.deleted_versions
                &&& sum.total_deleted_bytes == before.total_deleted_bytes + run.deleted_bytes
            },
            (None, Some(sum)) => {
                &&& sum.total_runs == 1 && sum.total_errors == run.errors
                &&& sum.total_deleted_versions == run.deleted_versions
                &&& sum.total_deleted_bytes == run.deleted_bytes
            },
            (Some(before), None) => {
                ||| before.total_runs + 1 > i64::MAX
                ||| !(i64::MIN <= before.total_errors + run.errors <= i64::MAX)
                ||| !(i64::MIN <= before.total_deleted_versions + run.deleted_versions <= i64::MAX)
                ||| !(i64::MIN <= before.total_deleted_bytes + run.deleted_bytes <= i64::MAX)
            },
            (None, None) => false,
        },
{
    let before = match totals {
        Some(found) => found,
        None => CompactionTotals {
            total_runs: 0,
            total_errors: 0,
            total_deleted_versions: 0,
            total_deleted_bytes: 0,
        },
    };
    let total_runs: i64 = match before.total_runs.checked_add(1) {
        Some(sum) => sum,
        None => return None,
    };
    let total_errors: i64 = match before.total_errors.checked_add(run.errors) {
        Some(sum) => sum,
        None => return None,
    };
    let total_deleted_versions: i64 = match before.total_deleted_versions.checked_add(
        run.deleted_versions,
    ) {
        Some(sum) => sum,
        None => return None,
    };
    let total_deleted_bytes: i64 = match before.total_deleted_bytes.checked_add(
        run.deleted_bytes,
    ) {
        Some(sum) => sum,
        None => return None,
    };
    Some(CompactionTotals { total_runs, total_errors, total_deleted_versions, total_deleted_bytes })
}

/// The last version that was compacted away, after a compaction: it only grows.
pub fn last_compacted_after(last: Option<i64>, highest_deleted: Option<i64>) -> (after: Option<i64>)
    ensures
        after == match highest_deleted {
            Some(version) => if version > (match last {
                Some(before) => before,
                None => 0i64,
            }) {
                Some(version)
            } else {
                last
            },
            None => last,
        },
        after == last || after == highest_deleted,
        highest_deleted is None ==> after == last,
        last matches Some(before) ==> (after matches Some(found) && before <= found),
        highest_deleted matches Some(version) ==> version <= 0 || (after matches Some(found)
            && version <= found),
{
    match highest_deleted {
        Some(version) => {
            let before: i64 = match last {
                Some(found) => found,
                None => 0,
            };
            if version > before {
                Some(version)
            } else {
                last
            }
        },
        None => last,
    }
}

/// Whether nodes may compact.
#[derive(Debug, Clone, Copy, PartialEq, Eq, Structural)]
pub struct OrionCompactionControl {
    pub paused: bool,
    pub force_requested: bool,
    pub updated_at_ms: u64,
}

impl OrionCompactionControl {
    /// The control as a row holds it.
    pub fn from_columns(paused: i64, force_requested: i64, updated_at_ms: i64) -> (control:
        OrionCompactionControl)
        ensures
            control.paused == (paused != 0),
            control.force_requested == (force_requested != 0),
            control.updated_at_ms == if updated_at_ms < 0 {
                0
            } else {
                updated_at_ms as int
            },
    {
        OrionCompactionControl {
            paused: paused != 0,
            force_requested: force_requested != 0,
            updated_at_ms: sqlite_u64(updated_at_ms),
        }
    }

    /// The control with compaction paused or not, from now on.
    pub fn with_paused(&self, paused: bool, now_ms: u64) -> (control: OrionCompactionControl)
        ensures
            control.paused == paused,
            control.force_requested == self.force_requested,
            control.updated_at_ms == column(now_ms as int),
    {
        OrionCompactionControl {
            paused,
            force_requested: self.force_requested,
            updated_at_ms: sqlite_u64(sqlite_i64(now_ms)),
        }
    }

    /// The control with a compaction asked for or not, from now on.
    pub fn with_force_requested(&self, force_requested: bool, now_ms: u64) -> (control:
        OrionCompactionControl)
        ensures
            control.paused == self.paused,
            control.force_requested == force_requested,
            control.updated_at_ms == column(now_ms as int),
    {
        OrionCompactionControl {
            paused: self.paused,
            force_requested,
            updated_at_ms: sqlite_u64(sqlite_i64(now_ms)),
        }
    }
}

/// Which versions have to be kept.
#[derive(Debug, Clone, PartialEq, Eq)]
pub struct OrionCompactionRetentionFloor {
    pub min_retained_version: Option<u64>,
    pub reason: Option<String>,
    pub updated_at_ms: u64,
}

impl OrionCompactionRetentionFloor {
    /// The floor as a row holds it.
    pub fn from_columns(
        min_retained_version: Option<i64>,
        reason: Option<String>,
        updated_at_ms: i64,
    ) -> (floor: OrionCompactionRetentionFloor)
        ensures
            floor.min_retained_version == match min_retained_version {
                Some(version) => Some(
                    if version < 0 {
                        0u64
                    } else {
                        version as u64
                    },
                ),
                None => None,
            },
            floor.reason == reason,
            floor.updated_at_ms == if updated_at_ms < 0 {
                0
            } else {
                updated_at_ms as int
            },
    {
        OrionCompactionRetentionFloor {
            min_retained_version: match min_retained_version {
                Some(version) => Some(sqlite_u64(version)),
                None => None,
            },
            reason,
            updated_at_ms: sqlite_u64(updated_at_ms),
        }
    }

    /// The floor that is set from now on.
    pub fn set(min_retained_version: Option<u64>, reason: Option<String>, now_ms: u64) -> (floor:
        OrionCompactionRetentionFloor)
        ensures
            floor.min_retained_version == match min_retained_version {
                Some(version) => Some(column(version as int) as u64),
                None => None,
            },
            floor.reason == reason,
            floor.updated_at_ms == column(now_ms as int),
    {
        OrionCompactionRetentionFloor {
            min_retained_version: match min_retained_version {
                Some(version) => Some(sqlite_u64(sqlite_i64(version))),
                None => None,
            },
            reason,
            updated_at_ms: sqlite_u64(sqlite_i64(now_ms)),
        }
    }
}

/// Who compacts, and until when.
#[derive(Debug, Clone, PartialEq, Eq)]
pub struct OrionCompactionLease {
    pub name: String,
    pub owner_node_id: u64,
    pub epoch: u64,
    pub acquired_at_ms: u64,
    pub renewed_at_ms: u64,
    pub expires_at_ms: u64,
    pub last_compacted_version: Option<u64>,
}

/// A sum as far as 64 bits reach.
pub open spec fn saturated(value: int) -> int {
    if value <= u64::MAX {
        value
    } else {
        u64::MAX as int
    }
}

/// Whether a lease keeps another node from compacting.
pub open spec fn is_held_by_other(
    lease: Option<OrionCompactionLease>,
    owner_node_id: u64,
    now_ms: u64,
) -> bool {
    lease matches Some(held) && held.owner_node_id != owner_node_id && held.expires_at_ms > now_ms
}

/// Whether a lease is the one that a node gets, given the one that there was.
pub open spec fn is_granted(
    lease: OrionCompactionLease,
    existing: Option<OrionCompactionLease>,
    name: Seq<char>,
    owner_node_id: u64,
    now_ms: u64,
    ttl_ms: u64,
) -> bool {
    &&& lease.name@ == name
    &&& lease.owner_node_id == column(owner_node_id as int)
    &&& lease.epoch == column(
        match existing {
            Some(held) => saturated(held.epoch + 1),
            None => 1,
        },
    )
    &&& lease.acquired_at_ms == column(
        match existing {
            Some(held) if held.owner_node_id == owner_node_id => held.acquired_at_ms as int,
            _ => now_ms as int,
        },
    )
    &&& lease.renewed_at_ms == column(now_ms as int)
    &&& lease.expires_at_ms == column(saturated(now_ms + ttl_ms))
    &&& lease.last_compacted_version == match existing {
        Some(held) => match held.last_compacted_version {
            Some(version) => Some(column(version as int) as u64),
            None => None,
        },
        None => None,
    }
}

/// Decides whether a node gets a lease, given the one that there is: it does unless
/// another node holds one that has not expired.
pub fn acquire_compaction_lease(
    existing: &Option<OrionCompactionLease>,
    name: &str,
    owner_node_id: u64,
    now_ms: u64,
    ttl_ms: u64,
) -> (lease: Option<OrionCompactionLease>)
    ensures
        lease is None <==> is_held_by_other(*existing, owner_node_id, now_ms),
        lease matches Some(granted) ==> is_granted(
            granted,
            *existing,
            name@,
            owner_node_id,
            now_ms,
            ttl_ms,
        ),
{
    let mut epoch: u64 = 1;
    let mut acquired_at_ms: u64 = now_ms;
    let mut last_compacted_version: Option<u64> = None;
    if let Some(held) = existing {
        if held.owner_node_id != owner_node_id && held.expires_at_ms > now_ms {
            return None;
        }
        epoch = held.epoch.saturating_add(1);
        if held.owner_node_id == owner_node_id {
            acquired_at_ms = held.acquired_at_ms;
        }
        last_compacted_version =
        match held.last_compacted_version {
            Some(version) => Some(sqlite_u64(sqlite_i64(version))),
            None => None,
        };
    }
    Some(
        OrionCompactionLease {
            name: name.to_owned(),
            owner_node_id: sqlite_u64(sqlite_i64(owner_node_id)),
            epoch: sqlite_u64(sqlite_i64(epoch)),
            acquired_at_ms: sqlite_u64(sqlite_i64(acquired_at_ms)),
            renewed_at_ms: sqlite_u64(sqlite_i64(now_ms)),
            expires_at_ms: sqlite_u64(sqlite_i64(now_ms.saturating_add(ttl_ms))),
            last_compacted_version,
        },
    )
}

/// At any time at most one node compacts: from the moment a node gets a lease until
/// the lease expires, no other node gets it, while the node itself does. Each lease
/// has a greater epoch than the one before.
pub proof fn law_lease_is_exclusive(
    lease: OrionCompactionLease,
    existing: Option<OrionCompactionLease>,
    name: Seq<char>,
    owner_node_id: u64,
    other_node_id: u64,
    now_ms: u64,
    ttl_ms: u64,
    later_ms: u64,
)
    requires
        is_granted(lease, existing, name, owner_node_id, now_ms, ttl_ms),
        owner_node_id <= i64::MAX,
        now_ms + ttl_ms <= i64::MAX,
    ensures
        other_node_id != owner_node_id && later_ms < now_ms + ttl_ms ==> is_held_by_other(
            Some(lease),
            other_node_id,
            later_ms,
        ),
        !is_held_by_other(Some(lease), owner_node_id, later_ms),
        later_ms >= now_ms + ttl_ms ==> !is_held_by_other(Some(lease), other_node_id, later_ms),
        existing matches Some(held) ==> (held.epoch < i64::MAX ==> lease.epoch > held.epoch),
{
}

/// A replica that serves a read at a time has applied everything that was committed
/// up to that time, as far as it knows of it.
pub proof fn law_served_reads_are_applied(
    raft: RaftMetricsSnapshot,
    applied: Option<HybridTimestamp>,
    read_ts: HybridTimestamp,
    earlier_ts: HybridTimestamp,
)
    requires
        raft.can_read(),
        has_reached(applied, read_ts),
        !hlc::before(read_ts, earlier_ts),
    ensures
        has_reached(applied, earlier_ts),
        raft.committed_index matches Some(committed) ==> (raft.applied_index matches Some(
            index,
        ) ==> index >= committed),
{
}

} // verus!
