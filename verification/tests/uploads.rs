use orion::commit::VfsFileOp;
use orion::commit::VfsWrite;
use orion::hlc::HybridClock;
use orion::large_payload::announced_at;
use orion::large_payload::begin_large_payload;
use orion::large_payload::ensure_large_payload_admitted;
use orion::large_payload::expired_large_payloads;
use orion::large_payload::large_payload_label;
use orion::large_payload::large_payload_pressure;
use orion::large_payload::sanitize_large_payload_config;
use orion::large_payload::ExpiredUploads;
use orion::large_payload::LargePayloadConfig;
use orion::large_payload::LargePayloadErrorKind;
use orion::large_payload::LargePayloadKind;
use orion::large_payload::LargePayloadMetrics;
use orion::large_payload::LargePayloadPressure;
use orion::large_payload::StagedUpload;
use orion::ordered::SqliteDatabasePageSyncEntry;
use orion::page_batch::StoreWrite;
use orion::page_sync::apply_sqlite_database_page_delta;
use orion::page_sync::SqliteDatabasePageSyncDelta;
use orion::request::LargeSqliteBatchChunk;
use orion::request::LargeSqliteBatchManifest;
use orion::request::LargeSqliteBatchRequest;
use orion::request::LargeSqlitePageDeltaManifest;
use orion::request::LargeSqlitePageDeltaRequest;
use orion::staging::assemble_large_sqlite_batch;
use orion::staging::assemble_large_sqlite_page_delta;
use orion::staging::drop_large_payload;
use orion::staging::large_payload_area;
use orion::staging::large_payload_chunk_key;
use orion::staging::large_payload_is_manifest_key;
use orion::staging::large_payload_manifest_key;
use orion::staging::large_payload_prefix;
use orion::staging::sqlite_page_delta_entries_payload_bytes;
use orion::staging::stage_chunk;
use orion::staging::stage_manifest;
use orion::staging::LargePayloadCommit;
use orion::types::convert_sqlite_batch;
use orion::types::convert_sqlite_ops;
use orion::types::log_batch;
use orion::types::sqlite_op_payload_bytes;
use orion::types::sqlite_ops_payload_bytes;
use orion::types::SqliteFileKind;
use orion::types::SqliteVfsBatch;
use orion::types::SqliteVfsOp;
use orion::types::SqliteVfsWrite;
use orion::upload::abort_large_batch;
use orion::upload::abort_large_sqlite_page_delta;
use orion::upload::drops_on_failure;
use orion::upload::large_sqlite_batch_request;
use orion::upload::large_sqlite_page_delta_request;
use orion::upload::new_upload_id;
use orion::upload::plan_large_batch;
use orion::upload::plan_large_page_delta;
use orion::upload::split_large_batch_ops;
use orion::upload::split_page_delta_entries;
use orion::upload::sqlite_page_delta_payload_bytes;
use orion::upload::LargeBatchOptions;
use orion::upload_step::aborted_upload;
use orion::upload_step::begin_upload;
use orion::upload_step::chunk_upload;
use orion::upload_step::clean_up_expired;
use orion::upload_step::committed_upload;
use orion::upload_step::large_payload_metrics_key;
use std::collections::BTreeMap;

fn write(offset: u64, bytes: Vec<u8>) -> SqliteVfsOp {
    SqliteVfsOp::Write(SqliteVfsWrite { offset, bytes })
}

fn batch(ops: Vec<SqliteVfsOp>) -> SqliteVfsBatch {
    SqliteVfsBatch {
        database: "tenant".to_string(),
        file_path: "main.db".to_string(),
        file_kind: SqliteFileKind::MainDb,
        ops,
    }
}

fn entry(key: &[u8], value: &[u8]) -> SqliteDatabasePageSyncEntry {
    SqliteDatabasePageSyncEntry { key: key.to_vec(), value: value.to_vec() }
}

fn staged(upload_id: &str, total_bytes: u64, created_at_ms: u64) -> StagedUpload {
    StagedUpload { upload_id: upload_id.to_string(), total_bytes, created_at_ms }
}

fn contents(ops: &[VfsFileOp]) -> Vec<u8> {
    let mut file: Vec<u8> = Vec::new();
    for op in ops {
        match op {
            VfsFileOp::Write(VfsWrite { offset, bytes }) => {
                let end = *offset as usize + bytes.len();
                if file.len() < end {
                    file.resize(end, 0);
                }
                file[*offset as usize..end].copy_from_slice(bytes);
            }
            VfsFileOp::Truncate { size } => file.resize(*size as usize, 0),
            VfsFileOp::Delete => file.clear(),
        }
    }
    file
}

#[test]
fn payloads_are_measured() {
    assert_eq!(sqlite_op_payload_bytes(&write(4, vec![1; 10])), 10);
    let ops = vec![write(0, vec![1; 10]), SqliteVfsOp::Delete];
    assert_eq!(
        sqlite_ops_payload_bytes(&ops),
        10 + sqlite_op_payload_bytes(&SqliteVfsOp::Delete)
    );
    let options = LargeBatchOptions { threshold_bytes: 100, chunk_bytes: 0 };
    assert!(options.sanitized().chunk_bytes > 0);
    assert!(!options.is_large(100) || !options.is_large(99));
    assert!(options.is_large(101));
}

#[test]
fn a_large_batch_travels_in_pieces_and_is_assembled() {
    let ops = vec![
        write(0, (0..100u8).collect()),
        SqliteVfsOp::Truncate { size: 70 },
        write(65, vec![9; 20]),
    ];
    let whole = contents(&convert_sqlite_ops(&ops));
    let total = sqlite_ops_payload_bytes(&ops) as u64;
    let chunks = split_large_batch_ops(&ops, 16);
    assert!(chunks.len() > 1);
    let requests = plan_large_batch(batch(ops), chunks, "u1", total, 77);
    let mut manifest: Option<LargeSqliteBatchManifest> = None;
    let mut pieces: Vec<Option<Vec<SqliteVfsOp>>> = Vec::new();
    let mut committed = false;
    for request in requests {
        match request {
            LargeSqliteBatchRequest::Begin(begun) => manifest = Some(begun),
            LargeSqliteBatchRequest::Chunk(chunk) => {
                assert_eq!(chunk.chunk_index as usize, pieces.len());
                pieces.push(Some(chunk.ops));
            }
            LargeSqliteBatchRequest::Commit { upload_id } => {
                assert_eq!(upload_id, "u1");
                committed = true;
            }
            LargeSqliteBatchRequest::Abort { .. } => panic!("an upload does not abort itself"),
        }
    }
    assert!(committed);
    assert_eq!(manifest.as_ref().unwrap().total_bytes, total);
    assert_eq!(manifest.as_ref().unwrap().created_at_ms, 77);
    let assembled = assemble_large_sqlite_batch("u1", &manifest, &pieces).unwrap();
    assert_eq!(contents(&assembled), whole);

    let last = pieces.len() - 1;
    pieces[last] = None;
    let missing = assemble_large_sqlite_batch("u1", &manifest, &pieces).unwrap_err();
    assert_eq!(missing.kind, LargePayloadErrorKind::Other);
    assert_eq!(
        missing.message,
        format!("missing large SQLite batch chunk u1/{last}")
    );
    pieces[last] = Some(Vec::new());
    let mismatch = assemble_large_sqlite_batch("u1", &manifest, &pieces).unwrap_err();
    assert_eq!(mismatch.kind, LargePayloadErrorKind::Other);
    assert!(mismatch.message.starts_with("large SQLite batch u1 byte count mismatch: expected "));
    let unknown = assemble_large_sqlite_batch("u2", &None, &Vec::new()).unwrap_err();
    assert_eq!(unknown.kind, LargePayloadErrorKind::NotFound);
    assert_eq!(unknown.message, "missing large SQLite batch manifest u2");
}

#[test]
fn a_large_page_delta_travels_in_pieces_and_is_assembled() {
    let delta = SqliteDatabasePageSyncDelta {
        min_exclusive_version: 4,
        entries: (0..10u8).map(|i| entry(&[i], &[i; 30])).collect(),
        metadata_deletes: vec![vec![1, 2]],
        current_page_deletes: Vec::new(),
    };
    assert_eq!(sqlite_page_delta_entries_payload_bytes(&delta.entries), 310);
    assert!(sqlite_page_delta_payload_bytes(&delta) >= 310);
    let chunks = split_page_delta_entries(delta.entries.clone(), 64);
    assert!(chunks.len() > 1);
    assert_eq!(chunks.concat(), delta.entries);

    let requests = plan_large_page_delta("tenant", delta.clone(), "u3", 64, 5).unwrap();
    let mut manifest = None;
    let mut pieces: Vec<Option<Vec<SqliteDatabasePageSyncEntry>>> = Vec::new();
    for request in requests {
        match request {
            LargeSqlitePageDeltaRequest::Begin(begun) => manifest = Some(begun),
            LargeSqlitePageDeltaRequest::Chunk(chunk) => pieces.push(Some(chunk.entries)),
            LargeSqlitePageDeltaRequest::Commit { upload_id } => assert_eq!(upload_id, "u3"),
            LargeSqlitePageDeltaRequest::Abort { .. } => panic!("an upload does not abort itself"),
        }
    }
    let assembled = assemble_large_sqlite_page_delta("u3", manifest, pieces).unwrap();
    assert_eq!(assembled, delta);
    assert!(assemble_large_sqlite_page_delta("u3", None, Vec::new()).is_err());
}

#[test]
fn a_commit_counts_what_was_announced() {
    let kind = LargePayloadKind::SqlitePageDelta;
    let mut commit = LargePayloadCommit::open(kind, "u", Some((2, 30))).unwrap();
    assert_eq!(commit.wanted(), Some(0));
    commit.accept("u", Some(10)).unwrap();
    assert_eq!(commit.wanted(), Some(1));
    assert_eq!(
        commit.accept("u", None).unwrap_err().kind,
        LargePayloadErrorKind::NotFound
    );
    commit.accept("u", Some(10)).unwrap();
    assert_eq!(commit.wanted(), None);
    let mismatch = commit.close("u").unwrap_err();
    assert_eq!(mismatch.kind, LargePayloadErrorKind::InvalidData);
    assert_eq!(
        mismatch.message,
        "large SQLite page delta u byte count mismatch: expected 30, got 20"
    );
    commit.bytes_seen = 30;
    assert!(commit.close("u").is_ok());
    assert!(LargePayloadCommit::open(kind, "u", None).is_err());
}

#[test]
fn staged_records_of_uploads_are_apart() {
    let kind = LargePayloadKind::SqlitePageDelta;
    let other = LargePayloadKind::SqliteBatch;
    assert_ne!(large_payload_area(kind), large_payload_area(other));
    let prefix = large_payload_prefix(kind, "u1");
    assert!(large_payload_manifest_key(kind, "u1").starts_with(&prefix));
    assert!(large_payload_chunk_key(kind, "u1", 3).starts_with(&prefix));
    assert!(!large_payload_chunk_key(kind, "u12", 3).starts_with(&prefix));
    assert_eq!(
        large_payload_chunk_key(other, "u1", 3),
        b"openraft/large_sqlite_batch/u1/chunk/00000000000000000003".to_vec()
    );
    assert_eq!(
        large_payload_manifest_key(kind, "u1"),
        b"openraft/large_sqlite_page_delta/u1/manifest".to_vec()
    );
    assert!(large_payload_is_manifest_key(&large_payload_manifest_key(kind, "u1")));
    assert!(!large_payload_is_manifest_key(&large_payload_chunk_key(kind, "u1", 3)));
    assert_ne!(large_payload_label(kind), large_payload_label(other));
}

#[test]
fn a_staged_upload_is_dropped_whole() {
    let kind = LargePayloadKind::SqliteBatch;
    let mut records: BTreeMap<Vec<u8>, Vec<u8>> = BTreeMap::new();
    let mut commit = |records: &mut BTreeMap<Vec<u8>, Vec<u8>>, writes: Vec<StoreWrite>| {
        for write in writes {
            match write {
                StoreWrite::Put { key, value } => {
                    records.insert(key, value);
                }
                StoreWrite::Delete { key } => {
                    records.remove(&key);
                }
            }
        }
    };
    commit(&mut records, stage_manifest(kind, "u", vec![1], &Vec::new()));
    commit(&mut records, vec![stage_chunk(kind, "u", 0, true, vec![2]).unwrap()]);
    commit(&mut records, stage_manifest(kind, "v", vec![3], &Vec::new()));
    assert_eq!(records[&large_payload_chunk_key(kind, "u", 0)], vec![2]);
    assert_eq!(
        stage_chunk(kind, "w", 0, false, vec![2]).unwrap_err().kind,
        LargePayloadErrorKind::NotFound
    );
    let prefix = large_payload_prefix(kind, "u");
    let keys: Vec<Vec<u8>> =
        records.keys().filter(|key| key.starts_with(&prefix)).cloned().collect();
    assert_eq!(keys.len(), 2);
    commit(&mut records, drop_large_payload(kind, "u", &keys));
    assert_eq!(records.len(), 1);
    assert_eq!(records[&large_payload_manifest_key(kind, "v")], vec![3]);
}

#[test]
fn uploads_are_admitted_up_to_the_limits() {
    let config = LargePayloadConfig {
        max_staged_uploads: 2,
        max_staged_bytes: 100,
        staging_ttl_ms: 50,
        cleanup_batch_size: 1,
    };
    let kind = LargePayloadKind::SqliteBatch;
    let pressure = large_payload_pressure(&vec![staged("a", 60, 0)], &Vec::new());
    assert_eq!(pressure, LargePayloadPressure { uploads: 1, bytes: 60 });
    assert!(ensure_large_payload_admitted(kind, pressure, &config, 40).is_ok());
    assert_eq!(
        ensure_large_payload_admitted(kind, pressure, &config, 41).unwrap_err().kind,
        LargePayloadErrorKind::OutOfMemory
    );
    let full = LargePayloadPressure { uploads: 2, bytes: 0 };
    assert_eq!(
        ensure_large_payload_admitted(kind, full, &config, 1).unwrap_err().message,
        "large SQLite batch admission rejected: active uploads 3 exceeds limit 2"
    );
    let none = LargePayloadPressure { uploads: 0, bytes: 0 };
    assert!(begin_large_payload(kind, "u", 1, 1, none, &config).is_ok());
    assert_eq!(
        begin_large_payload(kind, "u", 0, 1, none, &config).unwrap_err().kind,
        LargePayloadErrorKind::InvalidData
    );
}

#[test]
fn old_uploads_expire() {
    let config = LargePayloadConfig {
        max_staged_uploads: 9,
        max_staged_bytes: 1000,
        staging_ttl_ms: 50,
        cleanup_batch_size: 10,
    };
    let expired = expired_large_payloads(
        &vec![staged("old", 1, 10), staged("new", 1, 100)],
        &vec![staged("stale", 1, 5)],
        &config,
        120,
    );
    assert_eq!(expired.batches, vec!["old"]);
    assert_eq!(expired.page_deltas, vec!["stale"]);
    assert_eq!(announced_at(0, 9), 9);
    assert_eq!(announced_at(3, 9), 3);
}

#[test]
fn limits_of_nothing_are_raised() {
    let sane = sanitize_large_payload_config(LargePayloadConfig {
        max_staged_uploads: 0,
        max_staged_bytes: 0,
        staging_ttl_ms: 0,
        cleanup_batch_size: 0,
    });
    assert!(sane.max_staged_uploads > 0);
    assert!(sane.max_staged_bytes > 0);
    assert!(sane.cleanup_batch_size > 0);
}

#[test]
fn uploads_are_counted() {
    let mut metrics = LargePayloadMetrics::default();
    metrics.record_started(2);
    metrics.record_chunk(10);
    metrics.record_committed(10);
    metrics.record_aborted();
    metrics.record_rejected();
    metrics.record_cleanup();
    assert_eq!(metrics.uploads_started, 1);
    assert_eq!(metrics.bytes_staged, 10);
    assert_eq!(metrics.bytes_committed, 10);
    assert_eq!(metrics.uploads_aborted, 1);
    assert_eq!(metrics.uploads_rejected, 1);
    assert_eq!(metrics.cleanup_uploads, 2);
    let seen = metrics.with_pressure(LargePayloadPressure { uploads: 3, bytes: 30 });
    assert_eq!(seen.active_uploads, 3);
    assert_eq!(seen.active_bytes, 30);
}

#[test]
fn upload_names_are_fresh_and_hold_no_slash() {
    let first = new_upload_id();
    let second = new_upload_id();
    assert_ne!(first, second);
    assert!(!first.is_empty());
    assert!(!first.contains('/'));
}

#[test]
fn a_failed_upload_is_aborted() {
    assert!(drops_on_failure(1));
    match abort_large_batch("u") {
        LargeSqliteBatchRequest::Abort { upload_id } => assert_eq!(upload_id, "u"),
        other => panic!("not an abort: {other:?}"),
    }
    match abort_large_sqlite_page_delta("u") {
        LargeSqlitePageDeltaRequest::Abort { upload_id } => assert_eq!(upload_id, "u"),
        other => panic!("not an abort: {other:?}"),
    }
    let mut clock = HybridClock::default();
    let request = large_sqlite_batch_request(abort_large_batch("u"), &mut clock);
    assert!(request.large_sqlite_batch.is_some());
    assert!(request.commit_timestamp().is_some());
    let request = large_sqlite_page_delta_request(abort_large_sqlite_page_delta("u"), &mut clock);
    assert!(request.large_sqlite_page_delta.is_some());
    assert!(request.sqlite_batches.is_empty());
}

#[test]
fn batches_are_logged_and_read_back() {
    let logged = batch(vec![write(3, vec![1, 2]), SqliteVfsOp::Truncate { size: 9 }]);
    let converted = convert_sqlite_batch(&logged);
    assert_eq!(converted.ops.len(), 2);
    assert_eq!(log_batch(&converted), logged);
}

#[test]
fn the_steps_of_an_upload_are_written_and_counted() {
    let config = LargePayloadConfig {
        max_staged_uploads: 1,
        max_staged_bytes: 100,
        staging_ttl_ms: 50,
        cleanup_batch_size: 4,
    };
    let kind = LargePayloadKind::SqliteBatch;
    let none = LargePayloadPressure { uploads: 0, bytes: 0 };
    let mut metrics = LargePayloadMetrics::default();
    let keys = Vec::new();
    let writes =
        begin_upload(kind, "u", (2, 6), vec![1], &keys, none, &config, 3, &mut metrics).unwrap();
    assert_eq!(
        writes,
        vec![StoreWrite::Put { key: large_payload_manifest_key(kind, "u"), value: vec![1] }]
    );
    assert_eq!(metrics.uploads_started, 1);
    assert_eq!(metrics.cleanup_uploads, 3);
    let full = LargePayloadPressure { uploads: 1, bytes: 6 };
    let refused = begin_upload(kind, "v", (1, 1), vec![1], &keys, full, &config, 0, &mut metrics);
    assert!(refused.is_err());
    assert_eq!(metrics.uploads_rejected, 1);

    let put = chunk_upload(kind, "u", 0, true, vec![7], 3, &mut metrics).unwrap();
    assert_eq!(
        put,
        StoreWrite::Put { key: large_payload_chunk_key(kind, "u", 0), value: vec![7] }
    );
    assert!(chunk_upload(kind, "w", 0, false, vec![7], 3, &mut metrics).is_err());
    assert_eq!(metrics.bytes_staged, 3);
    assert_eq!(metrics.uploads_rejected, 2);

    let stored = vec![
        large_payload_manifest_key(kind, "u"),
        large_payload_chunk_key(kind, "u", 0),
        large_payload_chunk_key(kind, "x", 0),
    ];
    assert_eq!(committed_upload(kind, "u", 6, &stored, &mut metrics).len(), 2);
    assert_eq!(metrics.bytes_committed, 6);
    assert_eq!(aborted_upload(kind, "x", &stored, &mut metrics).len(), 1);
    assert_eq!(metrics.uploads_aborted, 1);

    let expired = ExpiredUploads {
        batches: vec!["u".to_string(), "x".to_string()],
        page_deltas: Vec::new(),
    };
    assert_eq!(clean_up_expired(&expired, &stored, &keys, &mut metrics).len(), 3);
    assert_eq!(metrics.cleanup_runs, 1);
    let idle = ExpiredUploads { batches: Vec::new(), page_deltas: Vec::new() };
    assert!(clean_up_expired(&idle, &stored, &keys, &mut metrics).is_empty());
    assert_eq!(metrics.cleanup_runs, 1);
    assert_eq!(
        large_payload_metrics_key(),
        b"openraft/large_sqlite_batch_metrics".to_vec()
    );
}

#[test]
fn a_complete_page_delta_is_committed_and_its_upload_is_dropped() {
    let kind = LargePayloadKind::SqlitePageDelta;
    let delta = SqliteDatabasePageSyncDelta {
        min_exclusive_version: 4,
        entries: vec![entry(b"a", b"one"), entry(b"b", b"two"), entry(b"a", b"three")],
        metadata_deletes: vec![b"gone".to_vec()],
        current_page_deletes: Vec::new(),
    };
    let manifest = LargeSqlitePageDeltaManifest {
        upload_id: "u".to_string(),
        database: "tenant-a".to_string(),
        min_exclusive_version: 4,
        total_chunks: 2,
        total_bytes: 14,
        metadata_deletes: delta.metadata_deletes.clone(),
        current_page_deletes: Vec::new(),
        created_at_ms: 1,
    };
    let chunks = vec![Some(delta.entries[..1].to_vec()), Some(delta.entries[1..].to_vec())];
    let assembled =
        assemble_large_sqlite_page_delta("u", Some(manifest.clone()), chunks.clone()).unwrap();
    assert_eq!(assembled, delta);
    let (writes, _) = apply_sqlite_database_page_delta(&assembled, &Vec::new());
    let mut target = BTreeMap::from([(b"gone".to_vec(), vec![1]), (b"kept".to_vec(), vec![2])]);
    for write in writes {
        match write {
            StoreWrite::Put { key, value } => target.insert(key, value),
            StoreWrite::Delete { key } => target.remove(&key),
        };
    }
    assert_eq!(
        target,
        BTreeMap::from([
            (b"a".to_vec(), b"three".to_vec()),
            (b"b".to_vec(), b"two".to_vec()),
            (b"kept".to_vec(), vec![2]),
        ])
    );
    let staged = vec![
        large_payload_chunk_key(kind, "u", 0),
        large_payload_chunk_key(kind, "u", 1),
        large_payload_manifest_key(kind, "u"),
        large_payload_manifest_key(kind, "v"),
    ];
    let mut metrics = LargePayloadMetrics::default();
    let dropped = committed_upload(kind, "u", manifest.total_bytes, &staged, &mut metrics);
    assert_eq!(dropped.len(), 3);
    assert!(!dropped.contains(&StoreWrite::Delete { key: staged[3].clone() }));
    assert_eq!(metrics.uploads_committed, 1);
    assert_eq!(metrics.bytes_committed, 14);

    let missing = vec![chunks[0].clone(), None];
    let refused = assemble_large_sqlite_page_delta("u", Some(manifest.clone()), missing);
    assert_eq!(refused.unwrap_err().kind, LargePayloadErrorKind::NotFound);
    let short = LargeSqlitePageDeltaManifest { total_bytes: 13, ..manifest };
    let refused = assemble_large_sqlite_page_delta("u", Some(short), chunks);
    assert_eq!(refused.unwrap_err().kind, LargePayloadErrorKind::InvalidData);
}

/// The uploads of a node: their staged records, and what the records say.
#[derive(Default)]
struct Uploads {
    records: BTreeMap<Vec<u8>, Vec<u8>>,
    batches: BTreeMap<String, LargeSqliteBatchManifest>,
    chunks: BTreeMap<(String, u32), Vec<SqliteVfsOp>>,
    metrics: LargePayloadMetrics,
    file: Vec<VfsFileOp>,
}

impl Uploads {
    fn commit(&mut self, writes: Vec<StoreWrite>) {
        for write in writes {
            match write {
                StoreWrite::Put { key, value } => {
                    self.records.insert(key, value);
                }
                StoreWrite::Delete { key } => {
                    self.records.remove(&key);
                }
            }
        }
    }

    fn keys(&self) -> Vec<Vec<u8>> {
        self.records.keys().cloned().collect()
    }

    fn staged(&self) -> Vec<StagedUpload> {
        self.batches
            .values()
            .filter(|manifest| {
                let kind = LargePayloadKind::SqliteBatch;
                self.records.contains_key(&large_payload_manifest_key(kind, &manifest.upload_id))
            })
            .map(|manifest| {
                staged(&manifest.upload_id, manifest.total_bytes, manifest.created_at_ms)
            })
            .collect()
    }

    fn counts(&self) -> LargePayloadMetrics {
        self.metrics.with_pressure(large_payload_pressure(&self.staged(), &Vec::new()))
    }

    fn apply(
        &mut self,
        config: &LargePayloadConfig,
        now_ms: u64,
        request: LargeSqliteBatchRequest,
    ) -> Result<(), String> {
        let kind = LargePayloadKind::SqliteBatch;
        match request {
            LargeSqliteBatchRequest::Begin(manifest) => {
                let none = Vec::new();
                let expired =
                    expired_large_payloads(&self.staged(), &none, config, now_ms);
                let count = expired.batches.len() as u64;
                let writes =
                    clean_up_expired(&expired, &self.keys(), &Vec::new(), &mut self.metrics);
                self.commit(writes);
                let begun = begin_upload(
                    kind,
                    &manifest.upload_id,
                    (manifest.total_chunks, manifest.total_bytes),
                    vec![1],
                    &self.keys(),
                    large_payload_pressure(&self.staged(), &none),
                    config,
                    count,
                    &mut self.metrics,
                );
                let writes = begun.map_err(|error| error.message)?;
                self.commit(writes);
                self.batches.insert(manifest.upload_id.clone(), manifest);
            }
            LargeSqliteBatchRequest::Chunk(chunk) => {
                let manifest_key = large_payload_manifest_key(kind, &chunk.upload_id);
                let put = chunk_upload(
                    kind,
                    &chunk.upload_id,
                    chunk.chunk_index,
                    self.records.contains_key(&manifest_key),
                    vec![2],
                    sqlite_ops_payload_bytes(&chunk.ops) as u64,
                    &mut self.metrics,
                )
                .map_err(|error| error.message)?;
                self.commit(vec![put]);
                self.chunks.insert((chunk.upload_id, chunk.chunk_index), chunk.ops);
            }
            LargeSqliteBatchRequest::Commit { upload_id } => {
                let manifest = self.batches.get(&upload_id).cloned();
                let total_chunks = manifest.as_ref().map_or(0, |manifest| manifest.total_chunks);
                let chunks = (0..total_chunks)
                    .map(|index| self.chunks.get(&(upload_id.clone(), index)).cloned())
                    .collect();
                self.file = assemble_large_sqlite_batch(&upload_id, &manifest, &chunks)
                    .map_err(|error| error.message)?;
                let total_bytes = manifest.map_or(0, |manifest| manifest.total_bytes);
                let keys = self.keys();
                let writes =
                    committed_upload(kind, &upload_id, total_bytes, &keys, &mut self.metrics);
                self.commit(writes);
            }
            LargeSqliteBatchRequest::Abort { upload_id } => {
                let keys = self.keys();
                let writes = aborted_upload(kind, &upload_id, &keys, &mut self.metrics);
                self.commit(writes);
            }
        }
        Ok(())
    }
}

fn large_manifest(
    upload_id: &str,
    total_chunks: u32,
    total_bytes: u64,
    created_at_ms: u64,
) -> LargeSqliteBatchManifest {
    LargeSqliteBatchManifest {
        upload_id: upload_id.to_string(),
        database: "tenant-a".to_string(),
        file_path: "tenant-a.db-wal".to_string(),
        file_kind: SqliteFileKind::Wal,
        total_chunks,
        total_bytes,
        created_at_ms,
    }
}

fn large_chunk(
    upload_id: &str,
    chunk_index: u32,
    offset: u64,
    bytes: &[u8],
) -> LargeSqliteBatchRequest {
    LargeSqliteBatchRequest::Chunk(LargeSqliteBatchChunk {
        upload_id: upload_id.to_string(),
        chunk_index,
        ops: vec![write(offset, bytes.to_vec())],
    })
}

const NOW_MS: u64 = 1_700_000_000_000;

#[test]
fn large_payload_admission_rejects_too_many_active_uploads() {
    let config = LargePayloadConfig {
        max_staged_uploads: 1,
        max_staged_bytes: 1024,
        staging_ttl_ms: 60_000,
        cleanup_batch_size: 8,
    };
    let mut uploads = Uploads::default();
    let first = LargeSqliteBatchRequest::Begin(large_manifest("upload-a", 1, 40, NOW_MS));
    uploads.apply(&config, NOW_MS, first).unwrap();
    let second = LargeSqliteBatchRequest::Begin(large_manifest("upload-b", 1, 40, NOW_MS));
    let error = uploads.apply(&config, NOW_MS, second).unwrap_err();

    assert!(error.contains("admission rejected"));
    let metrics = uploads.counts();
    assert_eq!(metrics.uploads_started, 1);
    assert_eq!(metrics.uploads_rejected, 1);
    assert_eq!(metrics.active_uploads, 1);
    assert_eq!(metrics.active_bytes, 40);
}

#[test]
fn large_payload_begin_cleans_expired_uploads() {
    let config = LargePayloadConfig {
        max_staged_uploads: 8,
        max_staged_bytes: 1024,
        staging_ttl_ms: 1_000,
        cleanup_batch_size: 80,
    };
    let mut uploads = Uploads::default();
    let expired = LargeSqliteBatchRequest::Begin(large_manifest("expired", 1, 40, 1_000));
    uploads.apply(&config, NOW_MS, expired).unwrap();
    let fresh = LargeSqliteBatchRequest::Begin(large_manifest("fresh", 1, 40, NOW_MS));
    uploads.apply(&config, NOW_MS, fresh).unwrap();

    let metrics = uploads.counts();
    assert_eq!(metrics.uploads_started, 2);
    assert_eq!(metrics.cleanup_runs, 1);
    assert_eq!(metrics.cleanup_uploads, 1);
    assert_eq!(metrics.active_uploads, 1);
    assert_eq!(metrics.active_bytes, 40);
}

#[test]
fn large_payload_metrics_track_successful_commit() {
    let config = LargePayloadConfig::default();
    let mut uploads = Uploads::default();
    let upload_id = "commit-upload";
    for request in [
        LargeSqliteBatchRequest::Begin(large_manifest(upload_id, 2, 6, NOW_MS)),
        large_chunk(upload_id, 0, 0, b"abc"),
        large_chunk(upload_id, 1, 3, b"def"),
        LargeSqliteBatchRequest::Commit { upload_id: upload_id.to_string() },
    ] {
        uploads.apply(&config, NOW_MS, request).unwrap();
    }

    assert_eq!(contents(&uploads.file), b"abcdef");
    let metrics = uploads.counts();
    assert_eq!(metrics.uploads_started, 1);
    assert_eq!(metrics.chunks_staged, 2);
    assert_eq!(metrics.bytes_staged, 6);
    assert_eq!(metrics.uploads_committed, 1);
    assert_eq!(metrics.bytes_committed, 6);
    assert_eq!(metrics.active_uploads, 0);
    assert_eq!(metrics.active_bytes, 0);
}

#[test]
fn large_sqlite_commit_rejects_missing_or_mismatched_chunks() {
    let config = LargePayloadConfig::default();
    let mut uploads = Uploads::default();
    let upload_id = "invalid-upload".to_string();
    let begin = LargeSqliteBatchRequest::Begin(large_manifest(&upload_id, 2, 4, 1));
    uploads.apply(&config, 1, begin).unwrap();
    uploads.apply(&config, 1, large_chunk(&upload_id, 0, 0, b"abc")).unwrap();
    let commit = LargeSqliteBatchRequest::Commit { upload_id: upload_id.clone() };
    let error = uploads.apply(&config, 1, commit).unwrap_err();
    assert!(
        error.contains("missing large SQLite batch chunk") || error.contains("byte count mismatch"),
        "unexpected error: {error}"
    );
    assert!(uploads.file.is_empty());

    uploads.apply(&config, 1, large_chunk(&upload_id, 1, 3, b"de")).unwrap();
    let commit = LargeSqliteBatchRequest::Commit { upload_id };
    let error = uploads.apply(&config, 1, commit).unwrap_err();
    assert!(error.contains("byte count mismatch"), "unexpected error: {error}");
}
