//! What nodes report of their groups, and what a node knows of the others.

use vstd::prelude::*;

use crate::hlc::current_time_millis;
use crate::node_map::NodeMap;

verus! {

/// The schema versions that a node's software can read and write.
#[derive(Debug, Clone, Copy, PartialEq, Eq, Structural)]
pub struct NodeSoftwareCapabilities {
    pub catalog_min_read_schema_version: u32,
    pub catalog_max_read_schema_version: u32,
    pub catalog_max_write_schema_version: u32,
}

/// How far a leader knows a peer to be.
#[derive(Debug, Clone, Copy, PartialEq, Eq, Structural)]
pub struct RaftPeerMetricsSnapshot {
    pub node_id: u64,
    pub matched_index: Option<u64>,
    pub replication_lag: Option<u64>,
}

/// Counters of the snapshots that a node has sent and received.
#[derive(Debug, Clone, Copy, PartialEq, Eq, Structural)]
pub struct SnapshotTransferMetrics {
    pub snapshots_sent: u64,
    pub snapshots_received: u64,
    pub snapshot_send_failures: u64,
    pub snapshot_receive_failures: u64,
    pub manifest_bytes_sent: u64,
    pub manifest_bytes_received: u64,
    pub checkpoint_objects_sent: u64,
    pub checkpoint_objects_received: u64,
    pub checkpoint_object_bytes_sent: u64,
    pub checkpoint_object_bytes_received: u64,
    pub multipart_upload_failures: u64,
    pub multipart_upload_aborts: u64,
}

/// Counters of a node that has sent and received nothing.
pub open spec fn no_transfers() -> SnapshotTransferMetrics {
    SnapshotTransferMetrics {
        snapshots_sent: 0,
        snapshots_received: 0,
        snapshot_send_failures: 0,
        snapshot_receive_failures: 0,
        manifest_bytes_sent: 0,
        manifest_bytes_received: 0,
        checkpoint_objects_sent: 0,
        checkpoint_objects_received: 0,
        checkpoint_object_bytes_sent: 0,
        checkpoint_object_bytes_received: 0,
        multipart_upload_failures: 0,
        multipart_upload_aborts: 0,
    }
}

impl Default for SnapshotTransferMetrics {
    fn default() -> (metrics: SnapshotTransferMetrics)
        ensures
            metrics == no_transfers(),
    {
        SnapshotTransferMetrics {
            snapshots_sent: 0,
            snapshots_received: 0,
            snapshot_send_failures: 0,
            snapshot_receive_failures: 0,
            manifest_bytes_sent: 0,
            manifest_bytes_received: 0,
            checkpoint_objects_sent: 0,
            checkpoint_objects_received: 0,
            checkpoint_object_bytes_sent: 0,
            checkpoint_object_bytes_received: 0,
            multipart_upload_failures: 0,
            multipart_upload_aborts: 0,
        }
    }
}

/// What passed over a stream of a snapshot.
#[derive(Debug, Clone, Copy, PartialEq, Eq, Structural)]
pub struct SnapshotStreamStats {
    pub manifest_bytes: u64,
    pub checkpoint_objects: u64,
    pub checkpoint_object_bytes: u64,
}

/// Something that happened to a snapshot under way.
#[derive(Debug, Clone, Copy, PartialEq, Eq, Structural)]
pub enum SnapshotTransferEvent {
    /// Everything was written to the stream.
    Streamed(SnapshotStreamStats),
    /// Writing to the stream failed.
    SendFailed,
    /// The receiver answered.
    Sent,
    /// A snapshot arrived whole.
    Received(SnapshotStreamStats),
    /// A snapshot did not arrive.
    ReceiveFailed,
    /// An object that arrived could not be completed.
    UploadFailed,
    /// An object that was arriving was given up.
    UploadAborted,
}

/// Whether the counters have room for an event.
pub open spec fn has_room(metrics: SnapshotTransferMetrics, event: SnapshotTransferEvent) -> bool {
    match event {
        SnapshotTransferEvent::Streamed(stats) => {
            &&& metrics.manifest_bytes_sent + stats.manifest_bytes <= u64::MAX
            &&& metrics.checkpoint_objects_sent + stats.checkpoint_objects <= u64::MAX
            &&& metrics.checkpoint_object_bytes_sent + stats.checkpoint_object_bytes <= u64::MAX
        },
        SnapshotTransferEvent::SendFailed => metrics.snapshot_send_failures < u64::MAX,
        SnapshotTransferEvent::Sent => metrics.snapshots_sent < u64::MAX,
        SnapshotTransferEvent::Received(stats) => {
            &&& metrics.snapshots_received < u64::MAX
            &&& metrics.manifest_bytes_received + stats.manifest_bytes <= u64::MAX
            &&& metrics.checkpoint_objects_received + stats.checkpoint_objects <= u64::MAX
            &&& metrics.checkpoint_object_bytes_received + stats.checkpoint_object_bytes
                <= u64::MAX
        },
        SnapshotTransferEvent::ReceiveFailed => metrics.snapshot_receive_failures < u64::MAX,
        SnapshotTransferEvent::UploadFailed => metrics.multipart_upload_failures < u64::MAX,
        SnapshotTransferEvent::UploadAborted => metrics.multipart_upload_aborts < u64::MAX,
    }
}

/// The counters after an event.
pub open spec fn after_transfer(
    metrics: SnapshotTransferMetrics,
    event: SnapshotTransferEvent,
) -> SnapshotTransferMetrics {
    match event {
        SnapshotTransferEvent::Streamed(stats) => SnapshotTransferMetrics {
            manifest_bytes_sent: (metrics.manifest_bytes_sent + stats.manifest_bytes) as u64,
            checkpoint_objects_sent: (metrics.checkpoint_objects_sent
                + stats.checkpoint_objects) as u64,
            checkpoint_object_bytes_sent: (metrics.checkpoint_object_bytes_sent
                + stats.checkpoint_object_bytes) as u64,
            ..metrics
        },
        SnapshotTransferEvent::SendFailed => SnapshotTransferMetrics {
            snapshot_send_failures: (metrics.snapshot_send_failures + 1) as u64,
            ..metrics
        },
        SnapshotTransferEvent::Sent => SnapshotTransferMetrics {
            snapshots_sent: (metrics.snapshots_sent + 1) as u64,
            ..metrics
        },
        SnapshotTransferEvent::Received(stats) => SnapshotTransferMetrics {
            snapshots_received: (metrics.snapshots_received + 1) as u64,
            manifest_bytes_received: (metrics.manifest_bytes_received
                + stats.manifest_bytes) as u64,
            checkpoint_objects_received: (metrics.checkpoint_objects_received
                + stats.checkpoint_objects) as u64,
            checkpoint_object_bytes_received: (metrics.checkpoint_object_bytes_received
                + stats.checkpoint_object_bytes) as u64,
            ..metrics
        },
        SnapshotTransferEvent::ReceiveFailed => SnapshotTransferMetrics {
            snapshot_receive_failures: (metrics.snapshot_receive_failures + 1) as u64,
            ..metrics
        },
        SnapshotTransferEvent::UploadFailed => SnapshotTransferMetrics {
            multipart_upload_failures: (metrics.multipart_upload_failures + 1) as u64,
            ..metrics
        },
        SnapshotTransferEvent::UploadAborted => SnapshotTransferMetrics {
            multipart_upload_aborts: (metrics.multipart_upload_aborts + 1) as u64,
            ..metrics
        },
    }
}

impl SnapshotTransferMetrics {
    /// Counts an event.
    pub fn record(&mut self, event: SnapshotTransferEvent)
        requires
            has_room(*old(self), event),
        ensures
            *final(self) == after_transfer(*old(self), event),
    {
        match event {
            SnapshotTransferEvent::Streamed(stats) => {
                self.manifest_bytes_sent = self.manifest_bytes_sent + stats.manifest_bytes;
                self.checkpoint_objects_sent =
                self.checkpoint_objects_sent + stats.checkpoint_objects;
                self.checkpoint_object_bytes_sent =
                self.checkpoint_object_bytes_sent + stats.checkpoint_object_bytes;
            },
            SnapshotTransferEvent::SendFailed => {
                self.snapshot_send_failures = self.snapshot_send_failures + 1;
            },
            SnapshotTransferEvent::Sent => {
                self.snapshots_sent = self.snapshots_sent + 1;
            },
            SnapshotTransferEvent::Received(stats) => {
                self.snapshots_received = self.snapshots_received + 1;
                self.manifest_bytes_received = self.manifest_bytes_received + stats.manifest_bytes;
                self.checkpoint_objects_received =
                self.checkpoint_objects_received + stats.checkpoint_objects;
                self.checkpoint_object_bytes_received =
                self.checkpoint_object_bytes_received + stats.checkpoint_object_bytes;
            },
            SnapshotTransferEvent::ReceiveFailed => {
                self.snapshot_receive_failures = self.snapshot_receive_failures + 1;
            },
            SnapshotTransferEvent::UploadFailed => {
                self.multipart_upload_failures = self.multipart_upload_failures + 1;
            },
            SnapshotTransferEvent::UploadAborted => {
                self.multipart_upload_aborts = self.multipart_upload_aborts + 1;
            },
        }
    }
}

/// What a node's group shows of itself at a moment.
#[derive(Debug, Clone, PartialEq, Eq)]
pub struct RaftObservation {
    pub node_id: u64,
    pub state: String,
    pub running: bool,
    pub current_term: u64,
    pub current_leader: Option<u64>,
    pub last_log_index: Option<u64>,
    pub committed_index: Option<u64>,
    pub applied_index: Option<u64>,
    pub snapshot_index: Option<u64>,
    pub purged_index: Option<u64>,
    pub voter_ids: Vec<u64>,
    pub learner_ids: Vec<u64>,
    /// The peers, each with the index up to which it is known to match.
    pub matched: Vec<(u64, Option<u64>)>,
}

/// What a node reports of its group.
#[derive(Debug, Clone, PartialEq, Eq)]
pub struct RaftMetricsSnapshot {
    pub node_id: u64,
    pub state: String,
    pub running: bool,
    pub current_term: u64,
    pub current_leader: Option<u64>,
    pub last_log_index: Option<u64>,
    pub committed_index: Option<u64>,
    pub applied_index: Option<u64>,
    pub snapshot_index: Option<u64>,
    pub purged_index: Option<u64>,
    pub voter_ids: Vec<u64>,
    pub learner_ids: Vec<u64>,
    pub replication: Vec<RaftPeerMetricsSnapshot>,
    pub snapshot_transfer: SnapshotTransferMetrics,
    pub capabilities: Option<NodeSoftwareCapabilities>,
}

/// How many entries a peer is behind; a peer is never behind a negative number.
pub open spec fn lag(last_log_index: Option<u64>, matched_index: Option<u64>) -> Option<u64> {
    match (last_log_index, matched_index) {
        (Some(last), Some(matched)) => Some(
            if last >= matched {
                (last - matched) as u64
            } else {
                0
            },
        ),
        _ => None,
    }
}

/// How many entries a peer is behind.
pub fn replication_lag(last_log_index: Option<u64>, matched_index: Option<u64>) -> (behind: Option<
    u64,
>)
    ensures
        behind == lag(last_log_index, matched_index),
{
    match (last_log_index, matched_index) {
        (Some(last), Some(matched)) => Some(last.saturating_sub(matched)),
        _ => None,
    }
}

/// Whether a report is what a group shows of itself.
pub open spec fn reports(metrics: RaftMetricsSnapshot, observation: RaftObservation) -> bool {
    &&& metrics.node_id == observation.node_id
    &&& metrics.state == observation.state
    &&& metrics.running == observation.running
    &&& metrics.current_term == observation.current_term
    &&& metrics.current_leader == observation.current_leader
    &&& metrics.last_log_index == observation.last_log_index
    &&& metrics.committed_index == observation.committed_index
    &&& metrics.applied_index == observation.applied_index
    &&& metrics.snapshot_index == observation.snapshot_index
    &&& metrics.purged_index == observation.purged_index
    &&& metrics.voter_ids == observation.voter_ids
    &&& metrics.learner_ids == observation.learner_ids
    &&& metrics.replication@.len() == observation.matched@.len()
    &&& forall|i: int|
        0 <= i < metrics.replication@.len() ==> #[trigger] metrics.replication@[i] == (
        RaftPeerMetricsSnapshot {
            node_id: observation.matched@[i].0,
            matched_index: observation.matched@[i].1,
            replication_lag: lag(observation.last_log_index, observation.matched@[i].1),
        })
}

impl RaftMetricsSnapshot {
    /// Reports what a group shows of itself.
    pub fn observe(observation: RaftObservation) -> (metrics: RaftMetricsSnapshot)
        ensures
            reports(metrics, observation),
            metrics.snapshot_transfer == no_transfers(),
            metrics.capabilities is None,
    {
        let mut replication: Vec<RaftPeerMetricsSnapshot> = Vec::new();
        let mut i: usize = 0;
        while i < observation.matched.len()
            invariant
                i <= observation.matched@.len(),
                replication@.len() == i,
                forall|k: int|
                    0 <= k < i ==> #[trigger] replication@[k] == (RaftPeerMetricsSnapshot {
                        node_id: observation.matched@[k].0,
                        matched_index: observation.matched@[k].1,
                        replication_lag: lag(observation.last_log_index, observation.matched@[k].1),
                    }),
            decreases observation.matched@.len() - i,
        {
            let (node_id, matched_index) = observation.matched[i];
            replication.push(
                RaftPeerMetricsSnapshot {
                    node_id,
                    matched_index,
                    replication_lag: replication_lag(observation.last_log_index, matched_index),
                },
            );
            i = i + 1;
        }
        RaftMetricsSnapshot {
            node_id: observation.node_id,
            state: observation.state,
            running: observation.running,
            current_term: observation.current_term,
            current_leader: observation.current_leader,
            last_log_index: observation.last_log_index,
            committed_index: observation.committed_index,
            applied_index: observation.applied_index,
            snapshot_index: observation.snapshot_index,
            purged_index: observation.purged_index,
            voter_ids: observation.voter_ids,
            learner_ids: observation.learner_ids,
            replication,
            snapshot_transfer: SnapshotTransferMetrics::default(),
            capabilities: None,
        }
    }

    /// Whether the node leads its group.
    pub fn is_leader(&self) -> (leads: bool)
        ensures
            leads == (self.current_leader == Some(self.node_id)),
    {
        match self.current_leader {
            Some(leader) => leader == self.node_id,
            None => false,
        }
    }

    /// Whether the node knows a leader.
    pub fn has_known_leader(&self) -> (known: bool)
        ensures
            known == (self.current_leader is Some),
    {
        self.current_leader.is_some()
    }

    /// Whether the node votes.
    pub fn is_voter(&self) -> (votes: bool)
        ensures
            votes == self.voter_ids@.contains(self.node_id),
    {
        let mut i: usize = 0;
        while i < self.voter_ids.len()
            invariant
                i <= self.voter_ids@.len(),
                forall|k: int| 0 <= k < i ==> self.voter_ids@[k] != self.node_id,
            decreases self.voter_ids@.len() - i,
        {
            if self.voter_ids[i] == self.node_id {
                return true;
            }
            i = i + 1;
        }
        false
    }

    /// Whether the node can serve reads that must see every committed write: it runs,
    /// knows a leader, and has applied whatever it knows to be committed.
    pub open spec fn can_read(&self) -> bool {
        &&& self.running
        &&& self.current_leader is Some
        &&& match (self.committed_index, self.applied_index) {
            (Some(committed), Some(applied)) => applied >= committed,
            _ => true,
        }
    }

    /// Whether the node can serve reads that must see every committed write.
    pub fn is_ready_for_linearizable_reads(&self) -> (ready: bool)
        ensures
            ready == self.can_read(),
    {
        let caught_up = match (self.committed_index, self.applied_index) {
            (Some(committed), Some(applied)) => applied >= committed,
            _ => true,
        };
        self.running && self.has_known_leader() && caught_up
    }
}

/// A report together with the time at which it was recorded.
#[derive(Debug, Clone, PartialEq, Eq)]
pub struct ClusterRaftMetricsEntry {
    pub observed_at_ms: u64,
    pub metrics: RaftMetricsSnapshot,
}

/// What a node knows of the nodes of its cluster.
#[derive(Debug, Clone)]
pub struct ClusterRaftMetricsRegistry {
    entries: NodeMap<ClusterRaftMetricsEntry>,
    local_capabilities: Option<NodeSoftwareCapabilities>,
    snapshot_transfers: NodeMap<SnapshotTransferMetrics>,
}

impl Default for ClusterRaftMetricsRegistry {
    fn default() -> (registry: ClusterRaftMetricsRegistry)
        ensures
            registry.wf(),
            registry.reports() == Map::<u64, ClusterRaftMetricsEntry>::empty(),
            registry.capabilities() is None,
            registry.transfers() == Map::<u64, SnapshotTransferMetrics>::empty(),
    {
        ClusterRaftMetricsRegistry {
            entries: NodeMap::new(),
            local_capabilities: None,
            snapshot_transfers: NodeMap::new(),
        }
    }
}

impl ClusterRaftMetricsRegistry {
    /// Whether the registry is well formed.
    pub closed spec fn wf(&self) -> bool {
        self.entries.wf() && self.snapshot_transfers.wf()
    }

    /// The last report of each node.
    pub closed spec fn reports(&self) -> Map<u64, ClusterRaftMetricsEntry> {
        self.entries@
    }

    /// The nodes with a report, in ascending order.
    pub closed spec fn reporting_nodes(&self) -> Seq<u64> {
        self.entries.ids()
    }

    /// What this node's software can do.
    pub closed spec fn capabilities(&self) -> Option<NodeSoftwareCapabilities> {
        self.local_capabilities
    }

    /// The counters of the nodes that have sent or received snapshots.
    pub closed spec fn transfers(&self) -> Map<u64, SnapshotTransferMetrics> {
        self.snapshot_transfers@
    }

    /// The counters of a node.
    pub open spec fn transfers_of(&self, node_id: u64) -> SnapshotTransferMetrics {
        if self.transfers().dom().contains(node_id) {
            self.transfers()[node_id]
        } else {
            no_transfers()
        }
    }

    /// Says what this node's software can do.
    pub fn set_local_capabilities(&mut self, capabilities: NodeSoftwareCapabilities)
        requires
            old(self).wf(),
        ensures
            final(self).wf(),
            final(self).capabilities() == Some(capabilities),
            final(self).reports() == old(self).reports(),
            final(self).transfers() == old(self).transfers(),
    {
        self.local_capabilities = Some(capabilities);
    }

    /// Records a report at a time, in place of the node's last one.
    pub fn record_at(&mut self, metrics: RaftMetricsSnapshot, observed_at_ms: u64)
        requires
            old(self).wf(),
        ensures
            final(self).wf(),
            final(self).reports() == old(self).reports().insert(
                metrics.node_id,
                ClusterRaftMetricsEntry { observed_at_ms, metrics },
            ),
            final(self).capabilities() == old(self).capabilities(),
            final(self).transfers() == old(self).transfers(),
    {
        let node_id: u64 = metrics.node_id;
        self.entries.insert(node_id, ClusterRaftMetricsEntry { observed_at_ms, metrics });
    }

    /// Records a report now, in place of the node's last one.
    pub fn record(&mut self, metrics: RaftMetricsSnapshot)
        requires
            old(self).wf(),
        ensures
            final(self).wf(),
            final(self).reports().dom() == old(self).reports().dom().insert(metrics.node_id),
            final(self).reports()[metrics.node_id].metrics == metrics,
            forall|node: u64|
                node != metrics.node_id && old(self).reports().dom().contains(node)
                    ==> #[trigger] final(self).reports()[node] == old(self).reports()[node],
            final(self).capabilities() == old(self).capabilities(),
            final(self).transfers() == old(self).transfers(),
    {
        self.record_at(metrics, current_time_millis());
    }

    /// What a node reports with everything that the registry adds: the node's own
    /// counters, and what this node's software can do.
    pub fn complete(&self, observation: RaftObservation) -> (metrics: RaftMetricsSnapshot)
        requires
            self.wf(),
        ensures
            reports(metrics, observation),
            metrics.snapshot_transfer == self.transfers_of(observation.node_id),
            metrics.capabilities == self.capabilities(),
    {
        let mut metrics = RaftMetricsSnapshot::observe(observation);
        metrics.snapshot_transfer = self.snapshot_transfer(metrics.node_id);
        metrics.capabilities = self.local_capabilities;
        metrics
    }

    /// Counts something that happened to a snapshot of a node.
    pub fn record_snapshot_transfer(&mut self, node_id: u64, event: SnapshotTransferEvent)
        requires
            old(self).wf(),
            has_room(old(self).transfers_of(node_id), event),
        ensures
            final(self).wf(),
            final(self).transfers() == old(self).transfers().insert(
                node_id,
                after_transfer(old(self).transfers_of(node_id), event),
            ),
            final(self).reports() == old(self).reports(),
            final(self).capabilities() == old(self).capabilities(),
    {
        let mut metrics = self.snapshot_transfer(node_id);
        metrics.record(event);
        self.snapshot_transfers.insert(node_id, metrics);
    }

    /// The counters of a node.
    pub fn snapshot_transfer(&self, node_id: u64) -> (metrics: SnapshotTransferMetrics)
        requires
            self.wf(),
        ensures
            metrics == self.transfers_of(node_id),
            self.transfers().dom().contains(node_id) ==> metrics == self.transfers()[node_id],
            !self.transfers().dom().contains(node_id) ==> metrics == no_transfers(),
    {
        match self.snapshot_transfers.get(node_id) {
            Some(metrics) => *metrics,
            None => SnapshotTransferMetrics::default(),
        }
    }

    /// The last report of a node, with its time.
    pub fn get(&self, node_id: u64) -> (entry: Option<&ClusterRaftMetricsEntry>)
        requires
            self.wf(),
        ensures
            match entry {
                Some(found) => self.reports().dom().contains(node_id) && *found
                    == self.reports()[node_id],
                None => !self.reports().dom().contains(node_id),
            },
    {
        self.entries.get(node_id)
    }

    /// The last report of a node.
    pub fn get_metrics(&self, node_id: u64) -> (metrics: Option<&RaftMetricsSnapshot>)
        requires
            self.wf(),
        ensures
            match metrics {
                Some(found) => self.reports().dom().contains(node_id) && *found
                    == self.reports()[node_id].metrics,
                None => !self.reports().dom().contains(node_id),
            },
    {
        match self.get(node_id) {
            Some(entry) => Some(&entry.metrics),
            None => None,
        }
    }

    /// The last reports of all nodes, in ascending order of the nodes.
    pub fn snapshot(&self) -> (entries: &Vec<ClusterRaftMetricsEntry>)
        requires
            self.wf(),
        ensures
            crate::node_map::ascending(self.reporting_nodes()),
            forall|node: u64|
                self.reports().dom().contains(node) <==> self.reporting_nodes().contains(node),
            entries@.len() == self.reporting_nodes().len(),
            forall|i: int|
                0 <= i < entries@.len() ==> #[trigger] entries@[i]
                    == self.reports()[self.reporting_nodes()[i]],
    {
        self.entries.values()
    }
}

} // verus!
