use orion::apply::applied_response;
use orion::apply::apply_steps;
use orion::apply::entry_commit_timestamp;
use orion::apply::entry_metadata;
use orion::apply::ApplyStep;
use orion::hlc::encode_timestamp;
use orion::hlc::HybridClock;
use orion::hlc::HybridTimestamp;
use orion::log_store::append_entries;
use orion::log_store::check_store_format;
use orion::log_store::entries_before;
use orion::log_store::index_from_log_key;
use orion::log_store::last_log_id;
use orion::log_store::log_key;
use orion::log_store::log_range;
use orion::log_store::purge;
use orion::log_store::save_committed;
use orion::log_store::save_vote;
use orion::log_store::truncate_after;
use orion::log_store::LogBound;
use orion::log_store::LogRecord;
use orion::log_store::LogWrite;
use orion::log_store::StoredLogId;
use orion::log_store::RAFT_STORE_FORMAT_VERSION;
use orion::page_batch::StoreWrite;
use orion::request::OrionRaftRequest;
use orion::request::OrionRaftRequestMeta;
use orion::state::applied_commit_timestamp;
use orion::state::applied_index;
use orion::state::list_sqlite_databases;
use orion::state::sanitize_path_segment;
use orion::state::sqlite_database_marker_key;
use orion::state::sqlite_database_path;
use orion::state::sqlite_database_ready_key;
use orion::state::validate_sqlite_database_name;
use orion::types::SqliteFileKind;
use orion::types::SqliteVfsBatch;
use orion::types::SqliteVfsOp;
use std::collections::BTreeMap;

#[derive(Default)]
struct Log {
    meta: BTreeMap<Vec<u8>, Vec<u8>>,
    entries: BTreeMap<Vec<u8>, Vec<u8>>,
}

impl Log {
    fn write(&mut self, writes: Vec<LogWrite>) {
        for write in writes {
            match write {
                LogWrite::PutMeta { key, value } => {
                    self.meta.insert(key, value);
                }
                LogWrite::RemoveMeta { key } => {
                    self.meta.remove(&key);
                }
                LogWrite::PutEntry { key, value } => {
                    self.entries.insert(key, value);
                }
                LogWrite::RemoveEntry { key } => {
                    self.entries.remove(&key);
                }
            }
        }
    }

    fn append(&mut self, indexes: &[u64]) {
        let records = indexes
            .iter()
            .map(|index| LogRecord {
                index: *index,
                log_id: vec![1, *index as u8],
                entry: vec![*index as u8; 3],
            })
            .collect();
        self.write(append_entries(records));
    }

    fn keys_from(&self, index: u64) -> Vec<Vec<u8>> {
        self.entries.range(log_key(index)..).map(|(key, _)| key.clone()).collect()
    }

    fn last_log_id(&self) -> Option<Vec<u8>> {
        last_log_id(
            self.meta.get(b"last_log_id".as_slice()).cloned(),
            self.meta.get(b"purged".as_slice()).cloned(),
        )
    }

    fn entries_between(&self, start: u64, end: u64) -> usize {
        let (first, behind) = log_range(LogBound::Included(start), LogBound::Excluded(end));
        entries_before(&self.keys_from(first), behind).unwrap()
    }

    fn indexes(&self) -> Vec<u64> {
        self.entries.keys().map(|key| index_from_log_key(key).unwrap()).collect()
    }
}

fn stored(index: u64) -> StoredLogId {
    StoredLogId { index, encoded: vec![1, index as u8] }
}

#[test]
fn log_keys_sort_by_index() {
    assert_eq!(log_key(258), vec![0, 0, 0, 0, 0, 0, 1, 2]);
    assert!(log_key(255) < log_key(256));
    assert_eq!(index_from_log_key(&log_key(u64::MAX)), Ok(u64::MAX));
    assert_eq!(index_from_log_key(&[1]), Err("invalid log index".to_string()));
}

#[test]
fn appended_entries_are_read_back_by_range() {
    let mut log = Log::default();
    log.append(&[1, 2, 3, 4]);
    assert_eq!(log_range(LogBound::Included(2), LogBound::Excluded(4)), (2, 4));
    assert_eq!(log_range(LogBound::Excluded(2), LogBound::Included(4)), (3, 5));
    assert_eq!(log_range(LogBound::Unbounded, LogBound::Unbounded), (0, u64::MAX));
    let keys = log.keys_from(2);
    assert_eq!(entries_before(&keys, 4), Ok(2));
    assert!(entries_before(&vec![vec![1]], 4).is_err());
}

#[test]
fn truncation_keeps_the_front_of_the_log() {
    let mut log = Log::default();
    log.append(&[1, 2, 3, 4]);
    let writes = truncate_after(Some(stored(2)), &log.keys_from(3));
    log.write(writes);
    assert_eq!(log.indexes(), vec![1, 2]);
}

#[test]
fn purging_keeps_the_rest_of_the_log() {
    let mut log = Log::default();
    log.append(&[1, 2, 3, 4]);
    let writes = purge(&stored(2), Some(4), &log.keys_from(0)).unwrap();
    log.write(writes);
    assert_eq!(log.indexes(), vec![3, 4]);
    assert!(purge(&stored(2), Some(4), &vec![vec![0]]).is_err());
}

#[test]
fn votes_and_commits_are_recorded() {
    let mut log = Log::default();
    log.write(vec![save_vote(vec![9]), save_committed(Some(vec![8]))]);
    assert_eq!(log.meta.len(), 2);
    log.write(vec![save_committed(None)]);
    assert_eq!(log.meta.len(), 1);
    assert_eq!(last_log_id(Some(vec![1]), Some(vec![2])), Some(vec![1]));
    assert_eq!(last_log_id(None, Some(vec![2])), Some(vec![2]));
    assert_eq!(last_log_id(None, None), None);
}

#[test]
fn stores_of_another_format_are_refused() {
    assert_eq!(check_store_format(RAFT_STORE_FORMAT_VERSION), Ok(()));
    assert_eq!(
        check_store_format(RAFT_STORE_FORMAT_VERSION + 1),
        Err("unsupported raft store format version 2".to_string())
    );
}

#[test]
fn openraft_log_store_persists_entries_vote_and_commit() {
    let mut log = Log::default();
    log.write(vec![save_vote(vec![5, 5])]);
    log.append(&[1]);
    log.write(vec![save_committed(Some(vec![1, 1]))]);

    assert_eq!(log.meta.get(b"vote".as_slice()), Some(&vec![5, 5]));
    assert_eq!(log.meta.get(b"committed".as_slice()), Some(&vec![1, 1]));
    assert_eq!(log.last_log_id(), Some(vec![1, 1]));
    assert_eq!(log.entries_between(1, 2), 1);
}

#[test]
fn openraft_log_store_truncates_and_purges_logs() {
    let mut log = Log::default();
    log.append(&[1, 2, 3]);
    assert_eq!(log.last_log_id(), Some(vec![1, 3]));

    let writes = truncate_after(Some(stored(2)), &log.keys_from(3));
    log.write(writes);
    assert_eq!(log.last_log_id(), Some(vec![1, 2]));
    assert_eq!(log.entries_between(1, 4), 2);

    let writes = purge(&stored(2), Some(2), &log.keys_from(0)).unwrap();
    log.write(writes);
    assert_eq!(log.meta.get(b"purged".as_slice()), Some(&vec![1, 2]));
    assert_eq!(log.last_log_id(), Some(vec![1, 2]));
    assert_eq!(log.entries_between(1, 4), 0);
}

fn batch() -> SqliteVfsBatch {
    SqliteVfsBatch {
        database: "tenant".to_string(),
        file_path: "main.db".to_string(),
        file_kind: SqliteFileKind::MainDb,
        ops: vec![SqliteVfsOp::Delete],
    }
}

#[test]
fn an_entry_is_applied_step_by_step() {
    let mut clock = HybridClock::default();
    let mut request = OrionRaftRequest::sqlite_batch(batch(), &mut clock);
    request.sqlite_batches.push(batch());
    assert_eq!(apply_steps(&request), vec![ApplyStep::Batch(0), ApplyStep::Batch(1)]);
    let committed = request.commit_timestamp().unwrap();
    assert_eq!(entry_commit_timestamp(&request, &mut clock), committed);
    let response = applied_response(&request, committed);
    assert_eq!(response.sqlite_batches_applied, 2);
    assert_eq!(response.sqlite_page_deltas_applied, 0);
    assert_eq!(response.commit_ts, Some(committed));
}

#[test]
fn an_entry_without_a_timestamp_gets_one() {
    let mut clock = HybridClock::default();
    let mut request = OrionRaftRequest::sqlite_batch(batch(), &mut clock);
    request.meta = None;
    let committed = entry_commit_timestamp(&request, &mut clock);
    assert!(committed.physical_ms > 0);
    let observed = HybridTimestamp { physical_ms: u64::MAX - 1, logical: 3 };
    request.meta = Some(OrionRaftRequestMeta::new(observed));
    assert_eq!(entry_commit_timestamp(&request, &mut clock), observed);
    assert!(clock.advance(None, 5).unwrap() > observed);
}

#[test]
fn an_assigned_timestamp_lies_behind_the_one_before() {
    let mut clock = HybridClock::default();
    let mut request = OrionRaftRequest::sqlite_batch(batch(), &mut clock);
    let first = request.commit_timestamp().unwrap();
    request = request.assign_commit_timestamp(&mut clock);
    assert!(request.commit_timestamp().unwrap() > first);
    assert_eq!(request.sqlite_batches.len(), 1);
}

#[test]
fn the_position_of_an_applied_entry_is_recorded() {
    let now = HybridTimestamp { physical_ms: 40, logical: 1 };
    let writes = entry_metadata(vec![7, 7], Some(vec![6]), None, now);
    let mut records: BTreeMap<Vec<u8>, Vec<u8>> = BTreeMap::new();
    for write in writes {
        match write {
            StoreWrite::Put { key, value } => {
                records.insert(key, value);
            }
            StoreWrite::Delete { key } => {
                records.remove(&key);
            }
        }
    }
    assert_eq!(records[&b"openraft/sm/last_log_id".to_vec()], vec![7, 7]);
    assert_eq!(records[&b"openraft/sm/membership".to_vec()], vec![6]);
}

#[test]
fn openraft_state_machine_applies_normal_entries_to_slate_db() {
    let commit_ts = HybridTimestamp { physical_ms: 4_000, logical: 7 };
    let mut clock = HybridClock::default();
    let mut request = OrionRaftRequest::sqlite_batch(batch(), &mut clock);
    request.meta = Some(OrionRaftRequestMeta::new(commit_ts));

    let committed = entry_commit_timestamp(&request, &mut clock);
    let now = HybridTimestamp { physical_ms: 9_000, logical: 0 };
    let mut records: BTreeMap<Vec<u8>, Vec<u8>> = BTreeMap::new();
    for write in entry_metadata(vec![1, 1], None, Some(committed), now) {
        if let StoreWrite::Put { key, value } = write {
            records.insert(key, value);
        }
    }
    assert_eq!(records.get(b"openraft/sm/last_log_id".as_slice()), Some(&vec![1, 1]));
    let encoded = Some(encode_timestamp(commit_ts));
    assert_eq!(records.get(b"openraft/sm/applied_commit_ts".as_slice()), encoded.as_ref());
    let watermark = records.get(b"sys/ranges/default/applied_commit_ts".as_slice()).cloned();
    assert_eq!(applied_commit_timestamp(&watermark), Ok(Some(commit_ts)));
}

#[test]
fn database_names_are_checked() {
    assert_eq!(validate_sqlite_database_name("tenant-a_1.x"), Ok(()));
    assert_eq!(
        validate_sqlite_database_name(""),
        Err("sqlite database name must not be empty".to_string())
    );
    assert_eq!(
        validate_sqlite_database_name("a/b"),
        Err("sqlite database name contains unsupported characters".to_string())
    );
}

#[test]
fn databases_keep_apart() {
    assert_ne!(sqlite_database_path("root", "a"), sqlite_database_path("root", "b"));
    assert_ne!(sqlite_database_marker_key("a"), sqlite_database_marker_key("b"));
    assert_ne!(sqlite_database_marker_key("a"), sqlite_database_ready_key("a"));
    assert!(!sanitize_path_segment("a/b c").contains('/'));
    assert_eq!(sqlite_database_path("root", "a"), "root__sqlite/databases/a/state");
    assert_eq!(sqlite_database_marker_key("a"), b"sys/sqlite_databases/a".to_vec());
    assert_eq!(sqlite_database_ready_key("a"), b"sys/sqlite_database_ready/a".to_vec());
}

#[test]
fn the_databases_of_a_store_are_listed() {
    let names = list_sqlite_databases(&vec![b"b".to_vec(), b"a".to_vec()]).unwrap();
    assert_eq!(names.len(), 2);
    assert_eq!(
        list_sqlite_databases(&vec![vec![0xff]]),
        Err("invalid sqlite database marker value".to_string())
    );
}

#[test]
fn applied_records_are_read() {
    assert_eq!(applied_index(&None), Ok(0));
    assert_eq!(applied_index(&Some(9u64.to_be_bytes().to_vec())), Ok(9));
    assert_eq!(
        applied_index(&Some(vec![1, 2])),
        Err("invalid applied index watermark".to_string())
    );
    let timestamp = HybridTimestamp { physical_ms: 5, logical: 6 };
    assert_eq!(
        applied_commit_timestamp(&Some(encode_timestamp(timestamp))),
        Ok(Some(timestamp))
    );
    assert_eq!(applied_commit_timestamp(&None), Ok(None));
}

#[test]
fn requests_say_what_they_hold() {
    let mut clock = HybridClock::default();
    let request = OrionRaftRequest::sqlite_batch(batch(), &mut clock);
    assert_eq!(request.counts_text(), "1 sqlite batch(es), 0 sqlite page delta(s)");
}
