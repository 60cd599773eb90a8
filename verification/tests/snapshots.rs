use orion::checkpoint::check_referenced_objects;
use orion::checkpoint::checkpoint_manifest_required_paths;
use orion::checkpoint::ensure_checkpoint_object_path_allowed;
use orion::checkpoint::ensure_checkpoint_object_path_has_prefix;
use orion::checkpoint::finish_object_copy;
use orion::checkpoint::manifest_object_path;
use orion::checkpoint::objects_under_path;
use orion::checkpoint::plan_checkpoint_clone;
use orion::checkpoint::plan_object_copy;
use orion::checkpoint::read_checkpoint_id;
use orion::checkpoint::read_object_path;
use orion::checkpoint::sstable_object_path;
use orion::checkpoint::CheckpointTables;
use orion::checkpoint::SlateDbCheckpointArtifact;
use orion::checkpoint::SlateDbCheckpointMaterializeMetrics;
use orion::checkpoint::TableId;
use orion::checkpoint::TableLevels;
use orion::raft_metrics::SnapshotStreamStats;
use orion::raft_snapshot::build_manifest;
use orion::raft_snapshot::check_cloned_snapshot;
use orion::raft_snapshot::check_install;
use orion::raft_snapshot::check_manifest_format;
use orion::raft_snapshot::database_checkpoint_name;
use orion::raft_snapshot::database_entry;
use orion::raft_snapshot::empty_snapshot_id;
use orion::raft_snapshot::installed_records;
use orion::raft_snapshot::plan_database_clone;
use orion::raft_snapshot::plan_root_clone;
use orion::raft_snapshot::same_identity;
use orion::raft_snapshot::snapshot_checkpoint_artifacts;
use orion::raft_snapshot::snapshot_checkpoint_name;
use orion::raft_snapshot::snapshot_id;
use orion::raft_snapshot::supported_snapshot_manifest_format;
use orion::raft_snapshot::OrionSnapshotManifest;
use orion::raft_snapshot::SnapshotIdentity;
use orion::raft_snapshot::SNAPSHOT_MANIFEST_FORMAT_VERSION;
use orion::snapshot_send::SnapshotSender;
use orion::snapshot_stream::check_completed_object;
use orion::snapshot_stream::check_first_frame;
use orion::snapshot_stream::ensure_snapshot_object_path_allowed;
use orion::snapshot_stream::open_object_location;
use orion::snapshot_stream::split_pieces;
use orion::snapshot_stream::unframed_stats;
use orion::snapshot_stream::ReceiveRefusal;
use orion::snapshot_stream::ReceiveStep;
use orion::snapshot_stream::SendingCheckpointObject;
use orion::snapshot_stream::SnapshotFrame;
use orion::snapshot_stream::SnapshotReceiver;
use orion::transport::StatusCode;
use std::collections::BTreeMap;

const CHECKPOINT: &str = "67e55044-10b1-426f-9247-bb680e5fe0c8";

fn artifact() -> SlateDbCheckpointArtifact {
    SlateDbCheckpointArtifact::of_store("root/db", CHECKPOINT, 3)
}

fn identity() -> SnapshotIdentity {
    SnapshotIdentity {
        last_log_id: Some(vec![1, 2]),
        last_membership: vec![3],
        snapshot_id: snapshot_id("1-1", 9),
    }
}

fn manifest() -> OrionSnapshotManifest {
    build_manifest(
        identity(),
        "root/db",
        CHECKPOINT,
        3,
        vec![database_entry("tenant".to_string(), "root/db/tenant", CHECKPOINT, 4)],
    )
}

#[test]
fn objects_of_a_checkpoint_lie_under_its_prefix() {
    let artifact = artifact();
    let inside = manifest_object_path(&artifact.object_prefix_path(), 3);
    assert!(ensure_checkpoint_object_path_allowed(&artifact, &inside).is_ok());
    assert!(ensure_checkpoint_object_path_allowed(&artifact, "elsewhere/x").is_err());
    assert!(ensure_checkpoint_object_path_has_prefix("a/b", "a/b/c").is_ok());
    assert!(ensure_checkpoint_object_path_has_prefix("a/b", "a/bc").is_err());
}

#[test]
fn a_checkpoint_names_the_objects_that_it_needs() {
    let tables = CheckpointTables {
        levels: TableLevels {
            l0: vec![TableId::Compacted("01B".to_string()), TableId::Compacted("01A".to_string())],
            compacted: vec![vec![TableId::Compacted("01A".to_string())]],
        },
        segments: Vec::new(),
        replay_after_wal_id: 4,
        next_wal_sst_id: 7,
    };
    let paths = checkpoint_manifest_required_paths(&artifact(), &tables);
    assert!(paths.windows(2).all(|pair| pair[0] < pair[1]));
    assert!(paths.contains(&manifest_object_path("root/db", 3)));
    assert!(paths.contains(&sstable_object_path("root/db", &TableId::Wal(5))));
    assert!(paths.contains(&sstable_object_path("root/db", &TableId::Wal(6))));
    assert!(paths.contains(&sstable_object_path(
        "root/db",
        &TableId::Compacted("01A".to_string())
    )));
    assert_eq!(paths.len(), 5);
}

#[test]
fn objects_are_copied_only_where_they_are_missing() {
    let mut metrics = SlateDbCheckpointMaterializeMetrics::default();
    assert!(plan_object_copy(&mut metrics, 10, None));
    assert!(!plan_object_copy(&mut metrics, 10, Some(10)));
    assert!(plan_object_copy(&mut metrics, 10, Some(9)));
    assert_eq!(metrics.objects_seen, 3);
    assert_eq!(metrics.objects_copied, 2);
    assert_eq!(metrics.objects_reused, 1);
    assert_eq!(metrics.bytes_seen, 30);
    assert_eq!(metrics.bytes_copied, 20);
    assert!(finish_object_copy(CHECKPOINT, metrics).is_ok());
    assert_eq!(
        finish_object_copy("c", SlateDbCheckpointMaterializeMetrics::default()),
        Err("checkpoint artifact c has no objects to materialize".to_string())
    );
    assert!(check_referenced_objects(CHECKPOINT, 1).is_ok());
    assert_eq!(
        check_referenced_objects("c", 0),
        Err("checkpoint artifact c has no referenced objects".to_string())
    );
    assert_eq!(
        manifest_object_path("root/db", 3),
        "root/db/manifest/00000000000000000003.manifest"
    );
    assert_eq!(
        sstable_object_path("root/db/", &TableId::Wal(5)),
        "root/db/wal/00000000000000000005.sst"
    );
    assert_eq!(
        sstable_object_path("root/db", &TableId::Compacted("01A".to_string())),
        "root/db/compacted/01A.sst"
    );
}

fn copy_objects(
    objects: &[(&str, u64)],
    target: &mut BTreeMap<String, u64>,
) -> (SlateDbCheckpointMaterializeMetrics, Vec<String>) {
    let mut metrics = SlateDbCheckpointMaterializeMetrics::default();
    let mut written = Vec::new();
    for (place, size) in objects {
        let found = target.get(*place).copied();
        if plan_object_copy(&mut metrics, *size, found) {
            target.insert(place.to_string(), *size);
            written.push(place.to_string());
        }
    }
    (finish_object_copy(CHECKPOINT, metrics).unwrap(), written)
}

#[test]
fn a_checkpoint_that_was_copied_is_not_copied_again() {
    let objects = [("db/a", 10), ("db/b", 20), ("db/c", u64::MAX), ("db/d", 0)];
    let mut target = BTreeMap::new();
    target.insert("db/a".to_string(), 10);
    target.insert("db/b".to_string(), 21);
    target.insert("elsewhere".to_string(), 5);
    let (first, written) = copy_objects(&objects, &mut target);
    assert_eq!(written, vec!["db/b", "db/c", "db/d"]);
    assert_eq!(first.objects_seen, 4);
    assert_eq!(first.objects_copied, 3);
    assert_eq!(first.objects_reused, 1);
    assert_eq!(first.bytes_seen, u64::MAX);
    assert_eq!(first.bytes_copied, u64::MAX);
    for (place, size) in objects {
        assert_eq!(target.get(place), Some(&size));
    }
    assert_eq!(target.get("elsewhere"), Some(&5));

    let held = target.clone();
    let (second, written) = copy_objects(&objects, &mut target);
    assert!(written.is_empty());
    assert_eq!(second.objects_seen, 4);
    assert_eq!(second.objects_copied, 0);
    assert_eq!(second.objects_reused, 4);
    assert_eq!(second.bytes_copied, 0);
    assert_eq!(target, held);
}

#[test]
fn paths_and_checkpoint_ids_are_read() {
    assert_eq!(read_object_path("a/b").unwrap(), "a/b");
    assert!(read_object_path("a//b").is_err());
    assert_eq!(
        read_checkpoint_id("00000000-0000-0000-0000-0000000000ff").unwrap(),
        255
    );
    assert!(read_checkpoint_id("nonsense").is_err());
    assert_eq!(
        SlateDbCheckpointArtifact::of_store("/root//db/", CHECKPOINT, 1).object_prefix_path(),
        "root/db"
    );
}

#[test]
fn a_checkpoint_is_not_cloned_onto_itself_or_by_a_bad_name() {
    assert!(plan_checkpoint_clone(&artifact(), "root/copy").is_ok());
    assert_eq!(
        plan_checkpoint_clone(&artifact(), "root/db"),
        Err("checkpoint clone target path root/db matches source path root/db".to_string())
    );
    let mut broken = artifact();
    broken.checkpoint_id = "nonsense".to_string();
    assert!(plan_checkpoint_clone(&broken, "root/copy").is_err());
}

#[test]
fn objects_below_a_path_are_found() {
    let locations = vec!["a/b/c".to_string(), "a/bc".to_string(), "a/b/d/e".to_string()];
    assert_eq!(objects_under_path(&locations, "a/b"), vec![0, 2]);
}

#[test]
fn snapshots_are_named_by_their_position() {
    assert_eq!(snapshot_id("1-1", 9), "1-1-9");
    assert_eq!(empty_snapshot_id(), "empty");
    assert!(snapshot_checkpoint_name("s1").contains("s1"));
    assert_ne!(database_checkpoint_name("s1", "a"), database_checkpoint_name("s1", "b"));
}

#[test]
fn a_built_snapshot_can_be_installed() {
    let manifest = manifest();
    assert!(check_install(&manifest, &identity()).is_ok());
    let mut other = identity();
    other.last_membership = vec![4];
    assert!(!same_identity(&identity(), &other));
    assert_eq!(
        check_install(&manifest, &other),
        Err("snapshot metadata does not match payload".to_string())
    );

    let root = plan_root_clone("state", &identity(), &manifest).unwrap();
    assert!(root.target_path.starts_with("state/installed-snapshot-"));
    assert_eq!(root.source_path, "root/db");
    let database = plan_database_clone(&root.target_path, &manifest.sqlite_databases[0]).unwrap();
    assert_eq!(database.source_path, "root/db/tenant");
    assert_ne!(database.target_path, root.target_path);
    let artifacts = snapshot_checkpoint_artifacts(manifest).unwrap();
    assert_eq!(artifacts.len(), 2);
}

#[test]
fn a_cloned_snapshot_is_checked_against_its_identity() {
    let meta = identity();
    assert!(check_cloned_snapshot(&Some(vec![1, 2]), &vec![3], &meta).is_ok());
    assert!(check_cloned_snapshot(&Some(vec![1, 3]), &vec![3], &meta).is_err());
    assert!(check_cloned_snapshot(&Some(vec![1, 2]), &vec![4], &meta).is_err());
    assert!(!installed_records(&meta, vec![7]).is_empty());
}

#[test]
fn manifests_of_other_formats_are_refused() {
    assert!(supported_snapshot_manifest_format(1));
    assert!(supported_snapshot_manifest_format(SNAPSHOT_MANIFEST_FORMAT_VERSION));
    assert!(!supported_snapshot_manifest_format(0));
    assert!(check_manifest_format(SNAPSHOT_MANIFEST_FORMAT_VERSION + 1).is_err());
    let mut plain = manifest();
    plain.sqlite_databases[0].checkpoint_artifact = None;
    assert_eq!(snapshot_checkpoint_artifacts(plain).unwrap().len(), 1);
    let mut later = manifest();
    later.format_version = 3;
    assert_eq!(
        snapshot_checkpoint_artifacts(later),
        Err("unsupported snapshot manifest version 3".to_string())
    );
}

fn send(payload: &[u8], objects: &[(&str, &[u8])], chunk: usize) -> Vec<SnapshotFrame> {
    let (mut sender, mut messages) =
        SnapshotSender::begin("group".to_string(), vec![7, 7], payload, chunk);
    for (path, bytes) in objects {
        messages.push(sender.begin_object(&artifact(), path, bytes.len() as u64).unwrap());
        for piece in bytes.chunks(5) {
            messages.extend(sender.stream(piece).unwrap());
        }
        sender.finish_object().unwrap();
    }
    let (last, stats) = sender.end();
    messages.push(last);
    assert_eq!(stats.manifest_bytes, payload.len() as u64);
    assert_eq!(stats.checkpoint_objects, objects.len() as u64);
    assert_eq!(
        stats.checkpoint_object_bytes,
        objects.iter().map(|(_, bytes)| bytes.len() as u64).sum::<u64>()
    );
    assert!(messages.iter().all(|message| message.group_id == "group"));
    assert_eq!(messages[0].frame, SnapshotFrame::Header);
    assert_eq!(messages[0].metrics_payload, vec![7, 7]);
    assert!(messages[1..].iter().all(|message| message.metrics_payload.is_empty()));
    messages.into_iter().skip(1).map(|message| message.frame).collect()
}

#[test]
fn a_snapshot_is_sent_as_header_manifest_objects_and_end() {
    assert_eq!(
        send(b"abcde", &[("root/db/a", b"123456")], 2),
        vec![
            SnapshotFrame::ManifestChunk(b"ab".to_vec()),
            SnapshotFrame::ManifestChunk(b"cd".to_vec()),
            SnapshotFrame::ManifestChunk(b"e".to_vec()),
            SnapshotFrame::CheckpointObjectHeader { path: "root/db/a".to_string(), size: 6 },
            SnapshotFrame::CheckpointObjectChunk(b"12".to_vec()),
            SnapshotFrame::CheckpointObjectChunk(b"34".to_vec()),
            SnapshotFrame::CheckpointObjectChunk(b"5".to_vec()),
            SnapshotFrame::CheckpointObjectChunk(b"6".to_vec()),
            SnapshotFrame::End,
        ]
    );
    assert_eq!(send(b"", &[], 2), vec![SnapshotFrame::End]);

    let (mut sender, _) = SnapshotSender::begin(String::new(), Vec::new(), b"", 4);
    assert!(sender.begin_object(&artifact(), "elsewhere/a", 1).is_err());
    sender.begin_object(&artifact(), "root/db/a", 4).unwrap();
    sender.stream(b"abc").unwrap();
    assert_eq!(sender.stats().checkpoint_object_bytes, 3);
    assert_eq!(
        sender.finish_object(),
        Err("checkpoint object root/db/a streamed 3 bytes but listed 4".to_string())
    );
    assert_eq!(
        sender.stream(b"de").err(),
        Some("checkpoint object root/db/a exceeded listed size 4".to_string())
    );
}

#[test]
fn a_sent_snapshot_arrives_whole() {
    let frames = send(
        b"manifest-bytes",
        &[("root/db/a", b"0123456789"), ("root/db/b", b"xyz")],
        4,
    );
    let mut receiver = SnapshotReceiver::new();
    let mut files: Vec<(String, Vec<u8>)> = Vec::new();
    let mut done = false;
    for frame in frames {
        if receiver.wants_artifacts(&frame) {
            assert_eq!(receiver.manifest(), b"manifest-bytes");
            receiver.set_artifacts(vec![artifact()]);
        }
        match receiver.accept(frame).ok().unwrap() {
            ReceiveStep::Continue => {}
            ReceiveStep::NextObject { path, .. } => files.push((path, Vec::new())),
            ReceiveStep::Write(bytes) => files.last_mut().unwrap().1.extend(bytes),
            ReceiveStep::Done { .. } => done = true,
        }
    }
    assert!(done);
    assert_eq!(files[0], ("root/db/a".to_string(), b"0123456789".to_vec()));
    assert_eq!(files[1], ("root/db/b".to_string(), b"xyz".to_vec()));
    let (payload, stats) = receiver.finish();
    assert_eq!(payload, b"manifest-bytes");
    assert_eq!(stats.checkpoint_objects, 2);
    assert_eq!(stats.checkpoint_object_bytes, 13);
}

#[test]
fn objects_outside_the_checkpoint_are_not_sent_or_taken() {
    let mut stats = SnapshotStreamStats {
        manifest_bytes: 0,
        checkpoint_objects: 0,
        checkpoint_object_bytes: 0,
    };
    assert!(SendingCheckpointObject::begin(&artifact(), "elsewhere/a", 1, &mut stats).is_err());
    let artifacts = vec![artifact()];
    assert!(ensure_snapshot_object_path_allowed(&artifacts, "root/db/a").is_ok());
    assert_eq!(
        ensure_snapshot_object_path_allowed(&artifacts, "elsewhere/a").unwrap_err().code,
        StatusCode::InvalidArgument
    );
}

#[test]
fn incomplete_objects_are_refused() {
    let mut stats = SnapshotStreamStats {
        manifest_bytes: 0,
        checkpoint_objects: 0,
        checkpoint_object_bytes: 0,
    };
    let (mut sending, _) =
        SendingCheckpointObject::begin(&artifact(), "root/db/a", 4, &mut stats).unwrap();
    assert!(sending.finish().is_err());
    sending.stream(b"abc", 10, &mut stats).unwrap();
    assert_eq!(
        sending.finish(),
        Err("checkpoint object root/db/a streamed 3 bytes but listed 4".to_string())
    );
    assert_eq!(
        sending.stream(b"abc", 10, &mut stats).err(),
        Some("checkpoint object root/db/a exceeded listed size 4".to_string())
    );

    let mut receiver = SnapshotReceiver::new();
    receiver.set_artifacts(vec![artifact()]);
    let header =
        SnapshotFrame::CheckpointObjectHeader { path: "root/db/a".to_string(), size: 4 };
    receiver.accept(header).ok().unwrap();
    receiver.accept(SnapshotFrame::CheckpointObjectChunk(b"abc".to_vec())).ok().unwrap();
    let refusal = receiver.accept(SnapshotFrame::End).err().unwrap();
    assert!(refusal.aborted || refusal.failed);
    assert_eq!(
        refusal.error.message,
        "checkpoint object root/db/a byte count mismatch: received 3, expected 4"
    );
}

#[test]
fn a_stream_that_breaks_off_is_refused() {
    let mut receiver = SnapshotReceiver::new();
    receiver.accept(SnapshotFrame::ManifestChunk(b"part".to_vec())).ok().unwrap();
    assert_eq!(
        receiver.cut_off().error.message,
        "snapshot stream ended before end frame"
    );
    let refusal = receiver.accept(SnapshotFrame::Header).err().unwrap();
    assert_eq!(
        refusal.error.message,
        "snapshot stream contained duplicate header frame"
    );
    let refusal =
        receiver.accept(SnapshotFrame::CheckpointObjectChunk(vec![1])).err().unwrap();
    assert_eq!(
        refusal.error.message,
        "checkpoint object chunk arrived before object header"
    );
    assert!(check_first_frame(&SnapshotFrame::Header).is_ok());
    assert_eq!(
        check_first_frame(&SnapshotFrame::End).unwrap_err().message,
        "first snapshot frame must be a header"
    );
}

#[test]
fn bytes_are_cut_into_pieces() {
    assert_eq!(
        split_pieces(b"abcdefg", 3),
        vec![b"abc".to_vec(), b"def".to_vec(), b"g".to_vec()]
    );
    assert!(split_pieces(b"", 3).is_empty());
}

#[test]
fn received_objects_are_checked() {
    assert_eq!(open_object_location("a/b").unwrap(), "a/b");
    assert!(open_object_location("a//b").is_err());
    assert!(check_completed_object("a/b", 4, 4).is_ok());
    assert!(check_completed_object("a/b", 3, 4).is_err());
    assert_eq!(unframed_stats(&vec![1, 2, 3]).manifest_bytes, 3);
}

/// Takes frames in until the stream is refused or breaks off.
fn refusal_of(frames: Vec<SnapshotFrame>) -> ReceiveRefusal {
    let mut receiver = SnapshotReceiver::new();
    for frame in frames {
        if receiver.wants_artifacts(&frame) {
            receiver.set_artifacts(vec![artifact()]);
        }
        if let Err(refusal) = receiver.accept(frame) {
            return refusal;
        }
    }
    receiver.cut_off()
}

fn object_header(path: &str, size: u64) -> SnapshotFrame {
    SnapshotFrame::CheckpointObjectHeader { path: path.to_string(), size }
}

#[test]
fn framed_snapshot_truncated_checkpoint_object_aborts_upload() {
    let refusal = refusal_of(vec![
        SnapshotFrame::ManifestChunk(b"manifest".to_vec()),
        object_header("root/db/a", 4),
        SnapshotFrame::CheckpointObjectChunk(b"ab".to_vec()),
    ]);
    assert_eq!(refusal.error.code, StatusCode::InvalidArgument);
    assert!(refusal
        .error
        .message
        .contains("snapshot stream ended before checkpoint object completed"));
    assert!(refusal.aborted);
}

#[test]
fn framed_snapshot_oversized_checkpoint_object_chunk_aborts_upload() {
    let refusal = refusal_of(vec![
        SnapshotFrame::ManifestChunk(b"manifest".to_vec()),
        object_header("root/db/a", 3),
        SnapshotFrame::CheckpointObjectChunk(b"toolong".to_vec()),
        SnapshotFrame::End,
    ]);
    assert_eq!(refusal.error.code, StatusCode::InvalidArgument);
    assert!(refusal.error.message.contains("exceeded expected size"));
    assert!(refusal.aborted);
}

#[test]
fn framed_snapshot_checkpoint_object_path_outside_artifact_is_rejected() {
    let refusal = refusal_of(vec![
        SnapshotFrame::ManifestChunk(b"manifest".to_vec()),
        object_header("outside-snapshot-artifact/malformed-object", 4),
        SnapshotFrame::CheckpointObjectChunk(b"data".to_vec()),
        SnapshotFrame::End,
    ]);
    assert_eq!(refusal.error.code, StatusCode::InvalidArgument);
    assert!(refusal.error.message.contains("does not match snapshot artifacts"));
    assert!(!refusal.aborted);
}
