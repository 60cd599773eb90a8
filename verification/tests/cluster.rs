use orion::hlc::HybridTimestamp;
use orion::page_purge::SqlitePageCompactionMetrics;
use orion::raft_metrics::replication_lag;
use orion::raft_metrics::ClusterRaftMetricsRegistry;
use orion::raft_metrics::NodeSoftwareCapabilities;
use orion::raft_metrics::RaftMetricsSnapshot;
use orion::raft_metrics::RaftObservation;
use orion::raft_metrics::SnapshotStreamStats;
use orion::raft_metrics::SnapshotTransferEvent;
use orion::runtime::acquire_compaction_lease;
use orion::runtime::compaction_run;
use orion::runtime::last_compacted_after;
use orion::runtime::sqlite_i64;
use orion::runtime::sqlite_u64;
use orion::runtime::sqlite_usize;
use orion::runtime::totals_after;
use orion::runtime::vfs_name;
use orion::runtime::OrionCompactionControl;
use orion::runtime::OrionCompactionRetentionFloor;
use orion::runtime::OrionSqliteDb;
use orion::runtime::OrionSqliteReplicaFreshness;
use orion::runtime::OrionSqliteRuntimeConfig;
use orion::transport::admit_group;
use orion::transport::check_client_group_id;
use orion::transport::check_group_id;
use orion::transport::check_wire_version;
use orion::transport::client_barrier_error_text;
use orion::transport::client_write_error_text;
use orion::transport::ensure_snapshot_group_id;
use orion::transport::node_error;
use orion::transport::normalize_endpoint;
use orion::transport::refuse;
use orion::transport::snapshot_stream_chunk_size;
use orion::transport::EndpointRegistry;
use orion::transport::StatusCode;
use orion::transport::TonicRaftTransportConfig;
use orion::transport::DEFAULT_RAFT_GROUP_ID;
use orion::transport::DEFAULT_SNAPSHOT_STREAM_CHUNK_SIZE;
use orion::transport::WIRE_VERSION;

fn observation(node_id: u64) -> RaftObservation {
    RaftObservation {
        node_id,
        state: "Leader".to_string(),
        running: true,
        current_term: 2,
        current_leader: Some(1),
        last_log_index: Some(10),
        committed_index: Some(9),
        applied_index: Some(9),
        snapshot_index: None,
        purged_index: None,
        voter_ids: vec![1, 2],
        learner_ids: Vec::new(),
        matched: vec![(2, Some(7)), (1, Some(10))],
    }
}

#[test]
fn a_node_is_observed() {
    let metrics = RaftMetricsSnapshot::observe(observation(1));
    assert!(metrics.is_leader());
    assert!(metrics.has_known_leader());
    assert!(metrics.is_voter());
    assert!(metrics.is_ready_for_linearizable_reads());
    assert_eq!(metrics.replication.len(), 2);
    let peer = metrics.replication.iter().find(|peer| peer.node_id == 2).unwrap();
    assert_eq!(peer.replication_lag, Some(3));
    let mut lost = observation(3);
    lost.current_leader = None;
    let metrics = RaftMetricsSnapshot::observe(lost);
    assert!(!metrics.is_leader());
    assert!(!metrics.has_known_leader());
    assert!(!metrics.is_voter());
    assert_eq!(replication_lag(Some(5), Some(9)), Some(0));
    assert_eq!(replication_lag(None, Some(9)), replication_lag(None, None));
}

#[test]
fn the_nodes_of_a_cluster_are_registered_in_order() {
    let mut registry = ClusterRaftMetricsRegistry::default();
    registry.record_at(RaftMetricsSnapshot::observe(observation(2)), 5);
    registry.record_at(RaftMetricsSnapshot::observe(observation(1)), 6);
    registry.record_at(RaftMetricsSnapshot::observe(observation(2)), 7);
    assert_eq!(registry.get(2).unwrap().observed_at_ms, 7);
    assert_eq!(registry.get_metrics(1).unwrap().node_id, 1);
    assert!(registry.get(9).is_none());
    let ids: Vec<u64> = registry.snapshot().iter().map(|entry| entry.metrics.node_id).collect();
    assert_eq!(ids, vec![1, 2]);
    registry.record(RaftMetricsSnapshot::observe(observation(4)));
    assert!(registry.get(4).unwrap().observed_at_ms > 1_600_000_000_000);
}

#[test]
fn own_metrics_carry_transfers_and_capabilities() {
    let mut registry = ClusterRaftMetricsRegistry::default();
    let capabilities = NodeSoftwareCapabilities {
        catalog_min_read_schema_version: 1,
        catalog_max_read_schema_version: 2,
        catalog_max_write_schema_version: 2,
    };
    registry.set_local_capabilities(capabilities.clone());
    let stats = SnapshotStreamStats {
        manifest_bytes: 4,
        checkpoint_objects: 2,
        checkpoint_object_bytes: 50,
    };
    registry.record_snapshot_transfer(1, SnapshotTransferEvent::Received(stats));
    registry.record_snapshot_transfer(1, SnapshotTransferEvent::SendFailed);
    registry.record_snapshot_transfer(1, SnapshotTransferEvent::Sent);
    let transfers = registry.snapshot_transfer(1);
    assert_eq!(transfers.snapshots_received, 1);
    assert_eq!(transfers.manifest_bytes_received, 4);
    assert_eq!(transfers.checkpoint_object_bytes_received, 50);
    assert_eq!(transfers.snapshot_send_failures, 1);
    assert_eq!(transfers.snapshots_sent, 1);
    let metrics = registry.complete(observation(1));
    assert_eq!(metrics.capabilities, Some(capabilities));
    assert_eq!(metrics.snapshot_transfer, transfers);
    assert_eq!(registry.snapshot_transfer(2).snapshots_received, 0);
}

#[test]
fn a_replica_serves_what_it_has_applied() {
    let raft = RaftMetricsSnapshot::observe(observation(1));
    let applied = HybridTimestamp { physical_ms: 100, logical: 2 };
    let fresh = OrionSqliteReplicaFreshness::at(raft, Some(applied), 130);
    assert_eq!(fresh.staleness_ms, Some(30));
    assert!(fresh.can_serve_at_timestamp(applied));
    assert!(!fresh.can_serve_at_timestamp(HybridTimestamp { physical_ms: 100, logical: 3 }));
    let raft = RaftMetricsSnapshot::observe(observation(1));
    let empty = OrionSqliteReplicaFreshness::at(raft, None, 130);
    assert!(!empty.can_serve_at_timestamp(HybridTimestamp::default()));
}

#[test]
fn a_lease_is_held_until_it_expires() {
    let first = acquire_compaction_lease(&None, "pages", 1, 1000, 50).unwrap();
    assert_eq!(first.owner_node_id, 1);
    assert_eq!(first.expires_at_ms, 1050);
    let held = Some(first.clone());
    assert!(acquire_compaction_lease(&held, "pages", 2, 1040, 50).is_none());
    let renewed = acquire_compaction_lease(&held, "pages", 1, 1040, 50).unwrap();
    assert_eq!(renewed.epoch, first.epoch + 1);
    assert_eq!(renewed.acquired_at_ms, 1000);
    assert_eq!(renewed.expires_at_ms, 1090);
    let taken = acquire_compaction_lease(&held, "pages", 2, 1050, 50).unwrap();
    assert_eq!(taken.owner_node_id, 2);
    assert_eq!(taken.epoch, first.epoch + 1);
}

#[test]
fn numbers_fit_into_columns() {
    assert_eq!(sqlite_i64(7), 7);
    assert_eq!(sqlite_i64(u64::MAX), i64::MAX);
    assert_eq!(sqlite_usize(9), 9);
    assert_eq!(sqlite_u64(sqlite_i64(12345)), 12345);
    assert_eq!(sqlite_u64(-1), 0);
}

#[test]
fn compaction_runs_are_totalled() {
    let metrics = SqlitePageCompactionMetrics {
        deleted_versions: 4,
        deleted_bytes: 40,
        highest_deleted_version: Some(9),
        ..SqlitePageCompactionMetrics::default()
    };
    let run = compaction_run(10, 25, "ok", &metrics);
    assert_eq!(run.errors, 0);
    assert_eq!(run.deleted_versions, 4);
    let failed = compaction_run(10, 25, "error", &metrics);
    assert_eq!(failed.errors, 1);
    let totals = totals_after(None, &run).unwrap();
    let totals = totals_after(Some(totals), &failed).unwrap();
    assert_eq!(totals.total_runs, 2);
    assert_eq!(totals.total_errors, 1);
    assert_eq!(totals.total_deleted_versions, 8);
    assert_eq!(totals.total_deleted_bytes, 80);
    assert_eq!(last_compacted_after(Some(5), Some(9)), Some(9));
    assert_eq!(last_compacted_after(Some(9), Some(5)), Some(9));
    assert_eq!(last_compacted_after(Some(9), None), Some(9));
}

#[test]
fn compaction_is_paused_and_forced() {
    let control = OrionCompactionControl::from_columns(0, 0, 5);
    assert!(!control.paused);
    let paused = control.with_paused(true, 9);
    assert!(paused.paused && !paused.force_requested);
    assert_eq!(paused.updated_at_ms, 9);
    let forced = paused.with_force_requested(true, 11);
    assert!(forced.paused && forced.force_requested);
    let floor = OrionCompactionRetentionFloor::set(Some(4), Some("backup".to_string()), 3);
    assert_eq!(floor.min_retained_version, Some(4));
    let read =
        OrionCompactionRetentionFloor::from_columns(Some(4), Some("backup".to_string()), 3);
    assert_eq!(read, floor);
}

#[test]
fn databases_are_opened_by_uri() {
    let db = OrionSqliteDb { database: "tenant".to_string(), vfs_name: "orion_1_2".to_string() };
    assert_eq!(db.uri(), "file:tenant.db?vfs=orion_1_2");
    assert_eq!(vfs_name("orion", 1, 2), "orion_1_2");
    let config = OrionSqliteRuntimeConfig::new("cache".to_string());
    assert_eq!(config.cache_root, "cache");
    assert_eq!(
        config.large_batch_options().chunk_bytes,
        config.large_batch_chunk_bytes
    );
}

#[test]
fn endpoints_are_normalized_and_found() {
    assert_eq!(normalize_endpoint("127.0.0.1:7001"), "http://127.0.0.1:7001");
    assert_eq!(normalize_endpoint("https://node/"), normalize_endpoint("https://node/"));
    let once = normalize_endpoint("node:1");
    assert_eq!(normalize_endpoint(&once), once);
    let mut registry = EndpointRegistry::new();
    registry.register_endpoint(2, "node2:1");
    assert_eq!(registry.endpoint_for(2, ""), Ok("http://node2:1".to_string()));
    assert_eq!(registry.endpoint_for(3, "node3:1"), Ok("http://node3:1".to_string()));
    assert!(registry.endpoint_for(3, "").is_err());
    assert_eq!(
        registry.endpoint_for(3, ""),
        Err("missing endpoint for node 3".to_string())
    );
    assert_eq!(node_error(3, "gone"), "node 3: gone");
}

#[test]
fn messages_of_other_versions_and_groups_are_refused() {
    assert!(check_wire_version(WIRE_VERSION).is_ok());
    assert_eq!(
        check_wire_version(WIRE_VERSION + 1),
        Err("unsupported raft transport wire version 2".to_string())
    );
    assert_eq!(check_group_id("").unwrap_err().code, StatusCode::InvalidArgument);
    assert!(check_group_id(DEFAULT_RAFT_GROUP_ID).is_ok());
    assert!(check_client_group_id("").is_err());
    assert_eq!(admit_group("g", false).unwrap_err().code, StatusCode::NotFound);
    assert!(admit_group("g", true).is_ok());
    assert!(ensure_snapshot_group_id("a", "a").is_ok());
    assert!(ensure_snapshot_group_id("a", "b").is_err());
    assert_eq!(refuse(StatusCode::Internal, "x".to_string()).message, "x");
    assert_eq!(admit_group("g", false).unwrap_err().message, "raft group g is not loaded");
    assert_eq!(
        ensure_snapshot_group_id("a", "b").unwrap_err().message,
        "snapshot chunk group_id a does not match header group_id b"
    );
    assert_eq!(client_write_error_text("boom"), "client write transport error: boom");
    assert_eq!(client_barrier_error_text("boom"), "client barrier transport error: boom");
}

#[test]
fn snapshot_chunks_fit_into_messages() {
    let config = TonicRaftTransportConfig::default();
    assert!(snapshot_stream_chunk_size(config.max_message_size) <= config.max_message_size);
    assert!(snapshot_stream_chunk_size(0) > 0);
    assert!(snapshot_stream_chunk_size(usize::MAX) <= DEFAULT_SNAPSHOT_STREAM_CHUNK_SIZE);
}

#[test]
fn tonic_network_reports_missing_endpoint_without_panicking() {
    assert!(EndpointRegistry::new().endpoint_for(42, "").is_err());
}

#[test]
fn tonic_service_rejects_missing_or_unknown_raft_group_id() {
    let empty = admit_group("", false).unwrap_err();
    assert_eq!(empty.code, StatusCode::InvalidArgument);
    let padded = admit_group(&format!(" {DEFAULT_RAFT_GROUP_ID} "), false).unwrap_err();
    assert_eq!(padded.code, StatusCode::InvalidArgument);
    let unknown = admit_group("rg_missing", false).unwrap_err();
    assert_eq!(unknown.code, StatusCode::NotFound);
}
