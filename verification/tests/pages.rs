use orion::commit::FileKind;
use orion::commit::VfsFileOp;
use orion::commit::VfsWrite;
use orion::dirty_page::covers_range;
use orion::dirty_page::merge_overlay;
use orion::dirty_page::normalize_ranges;
use orion::dirty_page::DirtyPage;
use orion::dirty_page::DirtyPageMaterialization;
use orion::dirty_page::PageRange;
use orion::dirty_page::SQLITE_PAGE_SIZE;
use orion::manifest::decode_manifest;
use orion::manifest::encode_manifest;
use orion::manifest::manifest_kind_from_number;
use orion::manifest::FileManifest;
use orion::manifest::FileManifestKind;
use orion::ordered::SqliteDatabasePageSyncEntry;
use orion::page_batch::PageBatch;
use orion::page_batch::StoreWrite;
use orion::page_batch::StoredPage;
use orion::page_keys::current_page_key;
use orion::page_keys::current_pages_prefix;
use orion::page_keys::file_manifest_key;
use orion::page_keys::all_pages_prefix;
use orion::page_keys::database_pages_prefix;
use orion::page_keys::file_path_from_file_prefix;
use orion::page_keys::latest_manifest_key;
use orion::page_keys::page_file_prefix;
use orion::page_keys::page_index_from_key;
use orion::page_keys::parse_current_page_key;
use orion::page_keys::parse_file_manifest_key;
use orion::page_keys::parse_latest_manifest_key;
use orion::page_keys::size_key;
use orion::page_keys::sqlite_file_kind_from_path;
use orion::page_keys::u64_from_be_bytes;
use orion::page_purge::add_compaction;
use orion::page_purge::add_purge_pass;
use orion::page_purge::add_storage_pressure;
use orion::page_purge::compact_sqlite_page_versions_in_state;
use orion::page_purge::compaction_targets;
use orion::page_purge::idle_purge;
use orion::page_purge::purge_nowhere;
use orion::page_purge::purge_sqlite_database_in_state;
use orion::page_purge::purge_target;
use orion::page_purge::purge_tombstoned_sqlite_database;
use orion::page_purge::sqlite_storage_pressure_in_state;
use orion::page_purge::PurgeTarget;
use orion::page_purge::SqliteDatabasePurgeMetrics;
use orion::page_purge::SqliteDatabasePurgePolicy;
use orion::page_purge::SqlitePageCompactionMetrics;
use orion::page_purge::SqliteStoragePressureMetrics;
use orion::page_purge::TombstonePurge;
use orion::page_read::pages_spanned;
use orion::page_read::plan_delete;
use orion::page_read::plan_resize;
use orion::page_read::read_pages;
use orion::page_read::resize_page_needed;
use orion::page_snapshot::count_snapshot;
use orion::page_snapshot::count_snapshot_file;
use orion::page_snapshot::export_sqlite_database_file_snapshot;
use orion::page_snapshot::snapshot_file_ops;
use orion::page_snapshot::sqlite_snapshot_candidate_paths;
use orion::page_sync::apply_sqlite_database_page_delta;
use orion::page_sync::export_sqlite_database_live_snapshot;
use orion::page_sync::export_sqlite_database_pages_since;
use orion::page_sync::pages_for;
use orion::page_sync::SqliteDatabasePageSyncDelta;
use orion::page_sync::SqliteDatabasePageSyncMetrics;
use orion::read_cache::ReadPageCache;
use orion::read_cache::SQLITE_READ_PAGE_CACHE_CAPACITY;
use std::collections::BTreeMap;

const DATABASE: &str = "tenant-a";

#[derive(Default, Clone, PartialEq, Debug)]
struct PageStore {
    records: BTreeMap<Vec<u8>, Vec<u8>>,
}

impl PageStore {
    fn commit(&mut self, writes: Vec<StoreWrite>) {
        for write in writes {
            match write {
                StoreWrite::Put { key, value } => {
                    self.records.insert(key, value);
                }
                StoreWrite::Delete { key } => {
                    self.records.remove(&key);
                }
            }
        }
    }

    fn scan(&self) -> Vec<SqliteDatabasePageSyncEntry> {
        self.records
            .iter()
            .map(|(key, value)| SqliteDatabasePageSyncEntry {
                key: key.clone(),
                value: value.clone(),
            })
            .collect()
    }

    fn page_keys(&self, path: &str) -> Vec<Vec<u8>> {
        let prefix = current_pages_prefix(DATABASE, path);
        self.records.keys().filter(|key| key.starts_with(&prefix)).cloned().collect()
    }

    fn size(&self, path: &str) -> Option<u64> {
        self.records
            .get(&size_key(DATABASE, path))
            .map(|bytes| u64_from_be_bytes(bytes, "file size").unwrap())
    }

    fn page(&self, path: &str, index: u64) -> Vec<u8> {
        self.records
            .get(&current_page_key(DATABASE, path, index))
            .cloned()
            .unwrap_or_default()
    }

    /// Applies a batch, and counts the stored pages that it had to see.
    fn apply(&mut self, path: &str, version: u64, ops: &[VfsFileOp]) -> usize {
        let mut batch = PageBatch::begin(self.size(path));
        let mut pages_read = 0;
        for op in ops {
            let base = match batch.page_needed(op) {
                Some(index) => {
                    pages_read += 1;
                    self.page(path, index)
                }
                None => Vec::new(),
            };
            batch.apply_op(op, base);
        }
        let pages: Vec<StoredPage> = batch
            .pages_needed()
            .into_iter()
            .map(|index| StoredPage { index, bytes: self.page(path, index) })
            .collect();
        let pages_read = pages_read + pages.len();
        let writes = batch.finish(&page_file_prefix(DATABASE, path), version, &self.page_keys(path), &pages);
        self.commit(writes);
        pages_read
    }

    fn purge(&mut self, database: &str, max_keys: usize) -> SqliteDatabasePurgeMetrics {
        let (metrics, writes) = purge_sqlite_database_in_state(&self.scan(), database, max_keys);
        self.commit(writes);
        metrics
    }

    fn read(&self, path: &str, offset: u64, len: usize) -> Vec<u8> {
        let size = self.size(path).unwrap_or(0);
        let (first, count) = pages_spanned(size, offset, len);
        let pages: Vec<StoredPage> = (first..first + count)
            .map(|index| StoredPage { index, bytes: self.page(path, index) })
            .collect();
        read_pages(&pages, size, offset, len)
    }

    fn apply_delta(&mut self, delta: &SqliteDatabasePageSyncDelta) -> SqliteDatabasePageSyncMetrics {
        let scans: Vec<Vec<Vec<u8>>> = delta
            .current_page_deletes
            .iter()
            .map(|range| {
                self.records
                    .keys()
                    .filter(|key| key.starts_with(&range.current_pages_prefix))
                    .cloned()
                    .collect()
            })
            .collect();
        let (writes, metrics) = apply_sqlite_database_page_delta(delta, &scans);
        self.commit(writes);
        metrics
    }
}

fn write(offset: u64, bytes: Vec<u8>) -> VfsFileOp {
    VfsFileOp::Write(VfsWrite { offset, bytes })
}

#[test]
fn applies_cross_page_writes_as_current_pages() {
    let mut store = PageStore::default();
    let payload = vec![7; 32];
    store.apply("main.db", 1, &[write(SQLITE_PAGE_SIZE as u64 - 8, payload.clone())]);

    assert_eq!(store.size("main.db"), Some(SQLITE_PAGE_SIZE as u64 + 24));
    assert_eq!(store.page("main.db", 0).len(), SQLITE_PAGE_SIZE);
    assert_eq!(store.page("main.db", 1).len(), 24);
    assert_eq!(store.read("main.db", SQLITE_PAGE_SIZE as u64 - 8, 32), payload);
}

#[test]
fn truncation_removes_pages_beyond_new_size() {
    let mut store = PageStore::default();
    store.apply("main.db", 1, &[write(0, vec![1; SQLITE_PAGE_SIZE * 3])]);

    let new_size = SQLITE_PAGE_SIZE as u64 + 3;
    let old_size = store.size("main.db").unwrap();
    let page = match resize_page_needed(old_size, new_size) {
        Some(index) => store.page("main.db", index),
        None => Vec::new(),
    };
    let writes = plan_resize(
        &page_file_prefix(DATABASE, "main.db"),
        old_size,
        new_size,
        page,
        &store.page_keys("main.db"),
    );
    store.commit(writes);

    assert_eq!(store.size("main.db"), Some(SQLITE_PAGE_SIZE as u64 + 3));
    assert_eq!(store.page("main.db", 0).len(), SQLITE_PAGE_SIZE);
    assert_eq!(store.page("main.db", 1).len(), 3);
    assert!(store.page("main.db", 2).is_empty());
}

#[test]
fn same_batch_writes_to_one_page_preserve_prior_writes() {
    let mut store = PageStore::default();
    store.apply(
        "main.db",
        1,
        &[
            write(128, b"CREATE TABLE se".to_vec()),
            write(128 + b"CREATE TABLE se".len() as u64, b"rvices (id integer)".to_vec()),
        ],
    );
    let read = store.read("main.db", 128, "CREATE TABLE services (id integer)".len());
    assert_eq!(read, b"CREATE TABLE services (id integer)");
}

#[test]
fn delete_batch_removes_size_and_pages() {
    let mut store = PageStore::default();
    store.apply("main.db-wal", 1, &[write(0, vec![9; SQLITE_PAGE_SIZE + 12])]);
    store.apply("main.db-wal", 2, &[VfsFileOp::Delete]);

    assert_eq!(store.size("main.db-wal"), None);
    assert!(store.page("main.db-wal", 0).is_empty());
    assert!(store.page("main.db-wal", 1).is_empty());
    assert!(store.read("main.db-wal", 0, 8).is_empty());
}

#[test]
fn a_batch_on_a_stored_file_keeps_what_it_does_not_touch() {
    let mut store = PageStore::default();
    store.apply("main.db", 1, &[write(0, vec![1; 100])]);
    store.apply("main.db", 2, &[write(10, vec![2; 5])]);
    store.apply("main.db", 3, &[VfsFileOp::Truncate { size: 50 }]);
    assert_eq!(store.size("main.db"), Some(50));
    let read = store.read("main.db", 0, 100);
    assert_eq!(read.len(), 50);
    assert_eq!(read[9..16], [1, 2, 2, 2, 2, 2, 1]);

    store.apply("main.db", 4, &[write(60, vec![3])]);
    assert_eq!(store.read("main.db", 48, 13), vec![1, 1, 0, 0, 0, 0, 0, 0, 0, 0, 0, 0, 3]);
}

#[test]
fn every_change_of_a_file_leaves_its_manifest() {
    let mut store = PageStore::default();
    store.apply("main.db", 5, &[write(0, vec![1; 10])]);
    let latest = store.records.get(&latest_manifest_key(DATABASE, "main.db")).unwrap();
    assert_eq!(u64_from_be_bytes(latest, "latest manifest version"), Ok(5));
    let manifest = decode_manifest(&store.records[&file_manifest_key(DATABASE, "main.db", 5)]).unwrap();
    assert_eq!(
        manifest,
        FileManifest { version: 5, kind: FileManifestKind::Write, size: 10 }
    );
    store.apply("main.db", 6, &[VfsFileOp::Truncate { size: 4 }]);
    let manifest = decode_manifest(&store.records[&file_manifest_key(DATABASE, "main.db", 6)]).unwrap();
    assert_eq!(manifest.size, 4);
    store.apply("main.db", 7, &[VfsFileOp::Delete]);
    let manifest = decode_manifest(&store.records[&file_manifest_key(DATABASE, "main.db", 7)]).unwrap();
    assert_eq!(manifest.kind, FileManifestKind::Delete);
}

#[test]
fn manifests_are_stored_and_read_back() {
    let manifest = FileManifest { version: 300, kind: FileManifestKind::Truncate, size: 7 };
    let bytes = encode_manifest(&manifest);
    assert_eq!(bytes, vec![0xac, 0x02, 0x01, 0x07]);
    assert_eq!(decode_manifest(&bytes), Ok(manifest));
    let cut_off = "Hit the end of buffer, expected more data";
    assert_eq!(decode_manifest(&[]).unwrap_err(), cut_off);
    assert_eq!(decode_manifest(&[1, 1]).unwrap_err(), cut_off);
    assert_eq!(decode_manifest(&[1, 9, 1]).unwrap_err(), "Serde Deserialization Error");
    assert_eq!(decode_manifest(&[1, 9]).unwrap_err(), "Serde Deserialization Error");
    assert_eq!(manifest_kind_from_number(2), Some(FileManifestKind::Delete));
    assert_eq!(manifest_kind_from_number(3), None);
}

#[test]
fn deleting_a_file_of_the_store_removes_its_records() {
    let mut store = PageStore::default();
    store.apply("a.db", 1, &[write(0, vec![1; 10])]);
    store.apply("b.db", 2, &[write(0, vec![2; 10])]);
    let writes = plan_delete(&page_file_prefix(DATABASE, "a.db"), &store.page_keys("a.db"));
    store.commit(writes);
    assert_eq!(store.size("a.db"), None);
    assert!(store.page("a.db", 0).is_empty());
    assert_eq!(store.read("b.db", 0, 10), vec![2; 10]);
}

#[test]
fn record_keys_are_spelled_out() {
    assert_eq!(page_file_prefix(DATABASE, "/db/./main.db"), b"sqlite/pages/tenant-a/db/main.db/".to_vec());
    assert_eq!(size_key(DATABASE, "main.db"), b"sqlite/pages/tenant-a/main.db/size".to_vec());
    assert_eq!(
        current_page_key(DATABASE, "main.db", 7),
        b"sqlite/pages/tenant-a/main.db/current/00000000000000000007".to_vec()
    );
    assert_eq!(
        file_manifest_key(DATABASE, "main.db", 12),
        b"sqlite/pages/tenant-a/main.db/manifests/00000000000000000012".to_vec()
    );
    assert_eq!(latest_manifest_key(DATABASE, "main.db"), b"sqlite/pages/tenant-a/main.db/latest_manifest".to_vec());
}

#[test]
fn record_keys_of_any_database_are_read_back() {
    for database in ["current", "xcurrent", "manifests", "latest_manifest", "main.db"] {
        let prefix = page_file_prefix(database, "main.db");
        assert_eq!(database_pages_prefix(database), format!("sqlite/pages/{database}/").into_bytes());
        assert_eq!(
            parse_current_page_key(&current_page_key(database, "main.db", 3)),
            Some((prefix.clone(), 3))
        );
        assert_eq!(
            parse_file_manifest_key(&file_manifest_key(database, "main.db", 4)),
            Some((prefix.clone(), 4))
        );
        assert_eq!(file_path_from_file_prefix(database, &prefix), Some("main.db".to_string()));
    }
    assert_eq!(all_pages_prefix(), b"sqlite/pages/".to_vec());
    assert_eq!(parse_current_page_key(b"x/current/5"), Some((b"x/".to_vec(), 5)));
    assert_eq!(parse_current_page_key(b"sqlite/pages/tenant-a/x/current/y/current/5"), None);
}

#[test]
fn record_keys_are_read_back() {
    let prefix = page_file_prefix(DATABASE, "main.db");
    assert_eq!(
        parse_current_page_key(&current_page_key(DATABASE, "main.db", 7)),
        Some((prefix.clone(), 7))
    );
    assert_eq!(
        parse_file_manifest_key(&file_manifest_key(DATABASE, "main.db", 12)),
        Some((prefix.clone(), 12))
    );
    assert_eq!(
        parse_latest_manifest_key(&latest_manifest_key(DATABASE, "main.db"), &[0, 0, 0, 0, 0, 0, 1, 2]),
        Ok(Some((prefix.clone(), 258)))
    );
    assert_eq!(parse_latest_manifest_key(b"elsewhere", &[]), Ok(None));
    assert!(parse_latest_manifest_key(&latest_manifest_key(DATABASE, "main.db"), &[1]).is_err());
    assert_eq!(parse_current_page_key(b"sqlite/pages/tenant-a/main.db/size"), None);
    assert_eq!(
        page_index_from_key(&current_pages_prefix(DATABASE, "main.db"), &current_page_key(DATABASE, "main.db", 9)),
        Some(9)
    );
    assert_eq!(file_path_from_file_prefix(DATABASE, &prefix), Some("main.db".to_string()));
    assert_eq!(file_path_from_file_prefix("tenant-b", &prefix), None);
    assert_eq!(file_path_from_file_prefix(DATABASE, b"sqlite/pages/tenant-a/\xff/"), None);
    assert_eq!(
        u64_from_be_bytes(&[1], "file size"),
        Err("invalid SQLite file size metadata".to_string())
    );
}

#[test]
fn kinds_follow_from_paths() {
    assert_eq!(sqlite_file_kind_from_path("main.db-wal"), FileKind::Wal);
    assert_eq!(sqlite_file_kind_from_path("main.db-journal"), FileKind::Journal);
    assert_eq!(sqlite_file_kind_from_path("main.db"), FileKind::MainDb);
    assert_eq!(sqlite_file_kind_from_path("notes"), FileKind::Other);
}

#[test]
fn ranges_are_joined() {
    let mut ranges = vec![
        PageRange { start: 10, end: 20 },
        PageRange { start: 0, end: 5 },
        PageRange { start: 5, end: 11 },
    ];
    normalize_ranges(&mut ranges);
    assert_eq!(ranges, vec![PageRange { start: 0, end: 20 }]);
    assert!(covers_range(&ranges, 3, 20));
    assert!(!covers_range(&ranges, 3, 21));
}

#[test]
fn a_page_that_is_not_written_whole_is_laid_over_the_stored_one() {
    let mut page = DirtyPage::new();
    page.apply_write(2, b"xy");
    assert!(!page.stands_alone());
    match page.into_page() {
        DirtyPageMaterialization::Overlay { overlay, covered } => {
            assert_eq!(merge_overlay(b"abcdef".to_vec(), &overlay, &covered), b"abxyef");
        }
        DirtyPageMaterialization::Complete(_) => panic!("a page with gaps was taken as whole"),
    }
    let mut page = DirtyPage::new();
    page.mark_base_zeroed();
    page.apply_write(2, b"xy");
    assert!(page.stands_alone());
    match page.into_page() {
        DirtyPageMaterialization::Complete(bytes) => assert_eq!(bytes, b"\0\0xy"),
        DirtyPageMaterialization::Overlay { .. } => panic!("a zeroed page needs no base"),
    }
    let mut page = DirtyPage::from_existing(b"abcdef".to_vec());
    page.truncate(3);
    page.apply_write(0, b"Z");
    match page.into_page() {
        DirtyPageMaterialization::Complete(bytes) => assert_eq!(bytes, b"Zbc"),
        DirtyPageMaterialization::Overlay { .. } => panic!("a stored page needs no base"),
    }
}

#[test]
fn page_counts_round_up() {
    assert_eq!(pages_for(0), 0);
    assert_eq!(pages_for(1), 1);
    assert_eq!(pages_for(SQLITE_PAGE_SIZE as u64), 1);
    assert_eq!(pages_for(SQLITE_PAGE_SIZE as u64 + 1), 2);
}

#[test]
fn a_live_snapshot_rebuilds_the_pages_elsewhere() {
    let mut source = PageStore::default();
    source.apply("main.db", 1, &[write(0, vec![1; SQLITE_PAGE_SIZE * 2])]);
    source.apply("main.db", 2, &[write(3, vec![2; 4]), VfsFileOp::Truncate { size: 20 }]);
    let delta = export_sqlite_database_live_snapshot(&source.scan()).unwrap();
    let mut target = PageStore::default();
    let metrics = target.apply_delta(&delta);
    assert_eq!(metrics.keys_copied, delta.entries.len());
    assert_eq!(target.read("main.db", 0, 100), source.read("main.db", 0, 100));
    assert_eq!(target.size("main.db"), Some(20));
}

#[test]
fn an_incremental_delta_brings_a_replica_up_to_date() {
    let mut source = PageStore::default();
    source.apply("main.db", 1, &[write(0, vec![1; SQLITE_PAGE_SIZE * 3])]);
    source.apply("main.db-wal", 2, &[write(0, vec![8; 50])]);
    let mut target = source.clone();
    source.apply("main.db", 3, &[write(5, vec![4; 10])]);
    source.apply("main.db", 4, &[VfsFileOp::Truncate { size: SQLITE_PAGE_SIZE as u64 + 1 }]);
    source.apply("main.db-wal", 5, &[VfsFileOp::Delete]);
    let delta = export_sqlite_database_pages_since(&source.scan(), 2).unwrap();
    target.apply_delta(&delta);
    let len = SQLITE_PAGE_SIZE * 3;
    assert_eq!(target.size("main.db"), Some(SQLITE_PAGE_SIZE as u64 + 1));
    assert_eq!(target.read("main.db", 0, len), source.read("main.db", 0, len));
    assert!(target.page("main.db", 2).is_empty());
    assert_eq!(target.size("main.db-wal"), None);
    let nothing = export_sqlite_database_pages_since(&source.scan(), 5).unwrap();
    assert!(nothing.entries.iter().all(|entry| parse_file_manifest_key(&entry.key).is_none()));
}

#[test]
fn a_broken_record_stops_an_export() {
    let mut source = PageStore::default();
    source.apply("main.db", 1, &[write(0, vec![1; 10])]);
    source.records.insert(latest_manifest_key(DATABASE, "main.db"), vec![1, 2]);
    assert!(export_sqlite_database_pages_since(&source.scan(), 0).is_err());
}

#[test]
fn a_file_snapshot_holds_the_files_in_chunks() {
    let mut source = PageStore::default();
    let content: Vec<u8> = (0..40000u32).map(|i| (i % 251) as u8).collect();
    source.apply("main.db", 1, &[write(0, content.clone())]);
    source.apply("other.bin", 2, &[write(0, vec![1])]);
    let snapshot =
        export_sqlite_database_file_snapshot(&source.scan(), DATABASE, SQLITE_PAGE_SIZE).unwrap();
    assert_eq!(snapshot.files.len(), 1);
    let file = &snapshot.files[0];
    assert_eq!(file.path, "main.db");
    assert_eq!(file.kind, FileKind::MainDb);
    assert_eq!(file.size, 40000);
    assert_eq!(file.chunks.len(), 3);

    let ops = snapshot_file_ops(file);
    assert_eq!(ops[0], VfsFileOp::Truncate { size: 40000 });
    let mut target = PageStore::default();
    target.apply("main.db", 1, &ops);
    assert_eq!(target.read("main.db", 0, 50000), content);
    let counted = count_snapshot_file(SqliteDatabasePageSyncMetrics::default(), file);
    assert_eq!(counted.keys_copied, 3);
    assert_eq!(counted.pages_copied, 3);
    assert_eq!(counted.metadata_copied, 1);
    assert_eq!(count_snapshot(&snapshot), counted);
}

#[test]
fn a_file_snapshot_brings_all_files_over() {
    let mut source = PageStore::default();
    let main: Vec<u8> = (0..SQLITE_PAGE_SIZE * 3 + 9).map(|i| (i % 241) as u8).collect();
    source.apply("main.db", 1, &[write(0, main.clone())]);
    source.apply("main.db-wal", 2, &[write(SQLITE_PAGE_SIZE as u64 + 4, vec![8; 40])]);
    source.apply("tenant-a-journal", 3, &[VfsFileOp::Truncate { size: 0 }]);
    let snapshot =
        export_sqlite_database_file_snapshot(&source.scan(), DATABASE, SQLITE_PAGE_SIZE).unwrap();
    let paths: Vec<&str> = snapshot.files.iter().map(|file| file.path.as_str()).collect();
    assert_eq!(paths, vec!["main.db", "main.db-wal", "tenant-a-journal"]);

    let mut target = PageStore::default();
    target.apply("main.db", 5, &[write(0, vec![7; SQLITE_PAGE_SIZE * 6])]);
    target.apply("stale.db", 6, &[write(0, vec![7; 10])]);
    assert!(target.purge(DATABASE, 10_000).complete);
    for file in &snapshot.files {
        target.apply(&file.path, 9, &snapshot_file_ops(file));
    }
    for path in ["main.db", "main.db-wal", "tenant-a-journal"] {
        assert_eq!(target.size(path), source.size(path));
        assert_eq!(
            target.read(path, 0, SQLITE_PAGE_SIZE * 8),
            source.read(path, 0, SQLITE_PAGE_SIZE * 8)
        );
    }
    assert_eq!(target.read("main.db", 0, SQLITE_PAGE_SIZE * 8), main);
    assert_eq!(target.size("stale.db"), None);
    let counted = count_snapshot(&snapshot);
    assert_eq!(counted.metadata_copied, 3);
    assert_eq!(counted.keys_copied, 4 + 2);
}

#[test]
fn the_files_of_a_database_have_fixed_names() {
    assert_eq!(
        sqlite_snapshot_candidate_paths("main"),
        vec!["main.db", "main.db-journal", "main.db-wal"]
    );
    let paths = sqlite_snapshot_candidate_paths("tenant");
    assert_eq!(paths.len(), 9);
    assert!(paths.contains(&"tenant.db-wal".to_string()));
    assert!(paths.windows(2).all(|pair| pair[0] < pair[1]));
}

#[test]
fn purge_sqlite_database_deletes_only_target_database_keys() {
    let names = vec!["tenant-a".to_string(), "tenant-b".to_string()];
    assert_eq!(purge_target(&names, "tenant-a"), PurgeTarget::Database);
    let mut target = PageStore::default();
    let mut neighbor = PageStore::default();
    target.apply("main.db", 10, &[write(0, vec![7; SQLITE_PAGE_SIZE + 16])]);
    neighbor.apply("main.db", 10, &[write(0, vec![9; SQLITE_PAGE_SIZE + 16])]);

    let first = target.purge("tenant-a", 2);
    assert_eq!(first.database, "tenant-a");
    assert_eq!(first.keys_deleted, 2);
    assert_eq!(first.retention_elapsed_ms, None);
    assert!(!first.skipped_for_retention);
    assert!(!first.complete);

    let second = target.purge("tenant-a", 100);
    assert!(second.keys_deleted > 0);
    assert!(second.complete);

    assert_eq!(target.size("main.db"), None);
    assert!(target.page("main.db", 0).is_empty());
    assert!(neighbor.size("main.db").is_some());
    assert_eq!(neighbor.page("main.db", 0)[0], 9);

    let third = target.purge("tenant-a", 100);
    assert_eq!(third.keys_deleted, 0);
    assert!(third.complete);
}

#[test]
fn a_purge_spares_other_records() {
    let names = vec!["tenant-a".to_string(), "tenant-b".to_string()];
    assert_eq!(purge_target(&names, "tenant-c"), PurgeTarget::Nowhere);
    assert_eq!(purge_target(&Vec::new(), "tenant-a"), PurgeTarget::Shared);
    assert!(purge_nowhere("tenant-c").complete);

    let mut store = PageStore::default();
    store.apply("main.db", 1, &[write(0, vec![1; SQLITE_PAGE_SIZE * 2])]);
    store.records.insert(b"raft/meta".to_vec(), vec![1]);
    let pages: Vec<SqliteDatabasePageSyncEntry> = store
        .scan()
        .into_iter()
        .filter(|entry| entry.key.starts_with(b"sqlite/pages/"))
        .collect();
    let count = pages.len();
    let (metrics, writes) = purge_sqlite_database_in_state(&pages, "tenant-a", 100);
    store.commit(writes);
    assert!(metrics.complete);
    assert_eq!(metrics.keys_deleted, count);
    assert_eq!(store.records.len(), 1);
}

#[test]
fn tombstoned_sqlite_database_purge_waits_for_retention_window() {
    let mut target = PageStore::default();
    target.apply("main.db", 10, &[write(0, vec![7; SQLITE_PAGE_SIZE])]);
    let policy = SqliteDatabasePurgePolicy { retention_ms: 1_000, max_keys_per_pass: 100 };

    let skipped = match purge_tombstoned_sqlite_database("tenant-a", 10_000, 10_999, &policy) {
        Ok(TombstonePurge::Keep(metrics)) => metrics,
        other => panic!("purged too early: {other:?}"),
    };
    assert_eq!(skipped.retention_elapsed_ms, Some(999));
    assert!(skipped.skipped_for_retention);
    assert_eq!(skipped.keys_deleted, 0);
    assert!(target.size("main.db").is_some());

    match purge_tombstoned_sqlite_database("tenant-a", 10_000, 11_000, &policy) {
        Ok(TombstonePurge::Purge { retention_elapsed_ms }) => {
            assert_eq!(retention_elapsed_ms, 1_000);
        }
        other => panic!("kept too long: {other:?}"),
    }
    let purged = target.purge("tenant-a", policy.max_keys_per_pass);
    assert!(!purged.skipped_for_retention);
    assert!(purged.keys_deleted > 0);
    assert!(purged.complete);
    assert_eq!(target.size("main.db"), None);
}

#[test]
fn ordered_batch_ops_can_delete_and_recreate_file() {
    let mut store = PageStore::default();
    store.apply("main.db", 1, &[write(0, vec![1; SQLITE_PAGE_SIZE + 16])]);
    store.apply(
        "main.db",
        2,
        &[
            VfsFileOp::Delete,
            VfsFileOp::Truncate { size: 64 },
            write(8, b"new-image".to_vec()),
        ],
    );

    let read = store.read("main.db", 0, 64);
    assert_eq!(read.len(), 64);
    assert_eq!(&read[8..17], b"new-image");
    assert!(read[..8].iter().all(|byte| *byte == 0));
    assert!(read[17..].iter().all(|byte| *byte == 0));
    assert!(store.page("main.db", 1).is_empty());
}

#[test]
fn full_page_writes_replace_current_page() {
    let mut store = PageStore::default();
    let page_v10 = vec![10; SQLITE_PAGE_SIZE];
    let page_v11 = vec![11; SQLITE_PAGE_SIZE];
    store.apply("main.db", 10, &[write(0, page_v10.clone())]);
    store.apply("main.db", 11, &[write(0, page_v11.clone())]);

    assert_eq!(store.records[&current_page_key(DATABASE, "main.db", 0)], page_v11);
    assert_eq!(store.page("main.db", 0), page_v11);
    assert_ne!(store.page("main.db", 0), page_v10);
}

#[test]
fn full_page_overwrite_does_not_read_previous_page() {
    let mut store = PageStore::default();
    store.apply("main.db", 30, &[write(0, vec![1; SQLITE_PAGE_SIZE])]);
    let pages_read = store.apply("main.db", 31, &[write(0, vec![2; SQLITE_PAGE_SIZE])]);

    assert_eq!(pages_read, 0);
    assert_eq!(store.page("main.db", 0), vec![2; SQLITE_PAGE_SIZE]);
}

#[test]
fn partial_writes_to_same_existing_page_read_previous_page_once() {
    let mut store = PageStore::default();
    store.apply("main.db", 40, &[write(0, vec![1; SQLITE_PAGE_SIZE])]);
    let pages_read =
        store.apply("main.db", 41, &[write(8, vec![2; 4]), write(16, vec![3; 4])]);

    assert_eq!(pages_read, 1);
    let page = store.page("main.db", 0);
    assert_eq!(&page[..8], &[1; 8]);
    assert_eq!(&page[8..12], &[2; 4]);
    assert_eq!(&page[12..16], &[1; 4]);
    assert_eq!(&page[16..20], &[3; 4]);
}

#[test]
fn full_page_covered_by_multiple_writes_does_not_read_previous_page() {
    let mut store = PageStore::default();
    store.apply("main.db", 50, &[write(0, vec![1; SQLITE_PAGE_SIZE])]);
    let pages_read = store.apply(
        "main.db",
        51,
        &[
            write(0, vec![2; SQLITE_PAGE_SIZE / 2]),
            write((SQLITE_PAGE_SIZE / 2) as u64, vec![3; SQLITE_PAGE_SIZE / 2]),
        ],
    );

    assert_eq!(pages_read, 0);
    let page = store.page("main.db", 0);
    assert_eq!(&page[..SQLITE_PAGE_SIZE / 2], vec![2; SQLITE_PAGE_SIZE / 2]);
    assert_eq!(&page[SQLITE_PAGE_SIZE / 2..], vec![3; SQLITE_PAGE_SIZE / 2]);
}

#[test]
fn partial_write_merges_current_page() {
    let mut store = PageStore::default();
    store.apply("main.db", 20, &[write(0, vec![1; SQLITE_PAGE_SIZE])]);
    store.apply("main.db", 21, &[write(8, vec![2; 4])]);

    let page = store.page("main.db", 0);
    assert_eq!(&page[..8], &[1; 8]);
    assert_eq!(&page[8..12], &[2; 4]);
    assert_eq!(&page[12..16], &[1; 4]);
}

#[test]
fn policy_compaction_reports_no_obsolete_versions_for_current_pages() {
    let mut store = PageStore::default();
    for version in 1..=5 {
        store.apply("main.db", version, &[write(0, vec![version as u8; SQLITE_PAGE_SIZE])]);
    }
    let metrics = compact_sqlite_page_versions_in_state(0);
    assert_eq!(metrics.files_scanned, 0);
    assert_eq!(metrics.files_compacted, 0);
    assert_eq!(metrics.obsolete_versions, 0);
    assert_eq!(metrics.deleted_versions, 0);
    assert_eq!(store.records[&current_page_key(DATABASE, "main.db", 0)], vec![5; SQLITE_PAGE_SIZE]);
}

#[test]
fn database_page_sync_copies_current_pages_and_removes_truncated_pages() {
    let mut source = PageStore::default();
    let mut target = PageStore::default();
    source.apply("main.db", 1, &[write(0, vec![1; SQLITE_PAGE_SIZE * 2])]);
    let delta = export_sqlite_database_pages_since(&source.scan(), 0).unwrap();
    let first = target.apply_delta(&delta);
    assert_eq!(first.pages_copied, 2);
    assert_eq!(target.page("main.db", 1), vec![1; SQLITE_PAGE_SIZE]);

    source.apply(
        "main.db",
        2,
        &[
            VfsFileOp::Truncate { size: SQLITE_PAGE_SIZE as u64 },
            write(0, vec![2; SQLITE_PAGE_SIZE]),
        ],
    );
    let delta = export_sqlite_database_pages_since(&source.scan(), 1).unwrap();
    assert!(
        !delta.entries.iter().any(|entry| entry.key == current_page_key(DATABASE, "main.db", 1)),
        "remote delta must not include pages beyond the truncated file size"
    );
    let second = target.apply_delta(&delta);
    assert_eq!(second.pages_copied, 1);
    assert!(second.metadata_copied > 0);
    assert!(second.keys_deleted > 0);
    assert_eq!(target.page("main.db", 0), vec![2; SQLITE_PAGE_SIZE]);
    assert!(
        target.page("main.db", 1).is_empty(),
        "target visible metadata for truncated pages must be removed"
    );
    assert!(
        !target.records.contains_key(&current_page_key(DATABASE, "main.db", 1)),
        "truncated current pages must be removed"
    );
}

#[test]
fn live_snapshot_exports_only_current_pages() {
    let mut source = PageStore::default();
    for version in 1..=4 {
        source.apply(
            "main.db",
            version,
            &[
                write(0, vec![version as u8; SQLITE_PAGE_SIZE]),
                write(SQLITE_PAGE_SIZE as u64, vec![(version + 10) as u8; SQLITE_PAGE_SIZE]),
            ],
        );
    }
    let delta = export_sqlite_database_live_snapshot(&source.scan()).unwrap();
    let current_pages = delta
        .entries
        .iter()
        .filter(|entry| parse_current_page_key(&entry.key).is_some())
        .count();
    assert_eq!(current_pages, 2, "{delta:?}");
    assert!(delta.entries.iter().any(|entry| {
        parse_current_page_key(&entry.key) == Some((page_file_prefix(DATABASE, "main.db"), 0))
            && entry.value == vec![4; SQLITE_PAGE_SIZE]
    }));
    assert!(delta.entries.iter().any(|entry| {
        parse_current_page_key(&entry.key) == Some((page_file_prefix(DATABASE, "main.db"), 1))
            && entry.value == vec![14; SQLITE_PAGE_SIZE]
    }));

    let mut target = PageStore::default();
    target.apply("main.db", 9, &[write(0, vec![9; SQLITE_PAGE_SIZE * 3])]);
    assert!(target.purge("tenant-a", 10_000).complete);
    target.apply_delta(&delta);
    assert_eq!(target.page("main.db", 0), vec![4; SQLITE_PAGE_SIZE]);
    assert_eq!(target.page("main.db", 1), vec![14; SQLITE_PAGE_SIZE]);
    let target_current_pages = target
        .records
        .keys()
        .filter(|key| parse_current_page_key(key).is_some())
        .count();
    assert_eq!(target_current_pages, 2);
}

#[test]
fn file_snapshot_exports_current_file_chunks() {
    let bytes =
        (0..SQLITE_PAGE_SIZE * 4 + 17).map(|index| (index % 251) as u8).collect::<Vec<_>>();
    let mut source = PageStore::default();
    source.apply("main.db", 1, &[write(0, vec![1; SQLITE_PAGE_SIZE * 4 + 17])]);
    source.apply("main.db", 2, &[write(0, bytes.clone())]);

    let snapshot =
        export_sqlite_database_file_snapshot(&source.scan(), "tenant-a", SQLITE_PAGE_SIZE * 2)
            .unwrap();
    assert_eq!(snapshot.files.len(), 1);
    assert_eq!(snapshot.files[0].path, "main.db");
    assert_eq!(snapshot.files[0].chunks.len(), 3);
    let snapshot_bytes: usize =
        snapshot.files[0].chunks.iter().map(|chunk| chunk.bytes.len()).sum();
    assert_eq!(snapshot_bytes, bytes.len());

    let mut target = PageStore::default();
    target.apply("main.db", 1, &snapshot_file_ops(&snapshot.files[0]));
    assert_eq!(target.read("main.db", 0, bytes.len() + 1), bytes);
}

#[test]
fn a_purge_goes_on_until_nothing_is_left() {
    let mut store = PageStore::default();
    store.apply("main.db", 1, &[write(0, vec![1; SQLITE_PAGE_SIZE * 4])]);
    let mut total = idle_purge("tenant-a");
    let mut passes = 0;
    loop {
        let (pass, writes) = purge_sqlite_database_in_state(&store.scan(), "tenant-a", 3);
        store.commit(writes);
        passes += 1;
        if add_purge_pass(&mut total, &pass) {
            break;
        }
    }
    assert!(passes > 1);
    assert!(total.complete);
    assert!(store.records.is_empty());
}

#[test]
fn a_deleted_database_is_kept_for_its_retention() {
    let policy = SqliteDatabasePurgePolicy { retention_ms: 100, max_keys_per_pass: 5 };
    match purge_tombstoned_sqlite_database("gone", 1000, 1099, &policy) {
        Ok(TombstonePurge::Keep(metrics)) => {
            assert!(metrics.skipped_for_retention);
            assert_eq!(metrics.retention_elapsed_ms, Some(99));
        }
        other => panic!("purged too early: {other:?}"),
    }
    match purge_tombstoned_sqlite_database("gone", 1000, 1100, &policy) {
        Ok(TombstonePurge::Purge { retention_elapsed_ms }) => assert_eq!(retention_elapsed_ms, 100),
        other => panic!("kept too long: {other:?}"),
    }
    assert_eq!(SqliteDatabasePurgePolicy::default().retention_ms, 604_800_000);
}

#[test]
fn storage_pressure_counts_files_and_pages() {
    let mut store = PageStore::default();
    assert_eq!(
        sqlite_storage_pressure_in_state(&store.scan(), 1),
        SqliteStoragePressureMetrics::default()
    );
    store.apply("main.db", 1, &[write(0, vec![1; SQLITE_PAGE_SIZE + 1])]);
    store.apply("main.db-wal", 2, &[write(0, vec![1; 10])]);
    let part = sqlite_storage_pressure_in_state(&store.scan(), 1);
    assert_eq!(part.databases, 1);
    assert_eq!(part.files, 2);
    assert_eq!(part.current_pages, 3);
    assert_eq!(part.bytes_scanned, SQLITE_PAGE_SIZE as u64 + 11);
    let mut total = SqliteStoragePressureMetrics::default();
    add_storage_pressure(&mut total, &part);
    add_storage_pressure(&mut total, &part);
    assert_eq!(total.files, 4);
}

#[test]
fn compaction_spares_excluded_databases() {
    let names = |list: &[&str]| list.iter().map(|name| name.to_string()).collect::<Vec<_>>();
    assert_eq!(
        compaction_targets(&names(&["a", "_orion", "b"]), &names(&["_orion", "x"])),
        names(&["a", "b"])
    );
    let mut total = SqlitePageCompactionMetrics::default();
    add_compaction(&mut total, &compact_sqlite_page_versions_in_state(7));
    add_compaction(&mut total, &compact_sqlite_page_versions_in_state(5));
    assert_eq!(total.duration_ms, 12);
    assert_eq!(total.highest_deleted_version, None);
}

#[test]
fn a_cut_takes_a_partly_written_page_without_its_stored_bytes() {
    let mut store = PageStore::default();
    store.apply("main.db", 1, &[write(0, vec![1; SQLITE_PAGE_SIZE * 2])]);
    let ops = [write(10, vec![2]), VfsFileOp::Truncate { size: 100 }];
    assert_eq!(store.apply("main.db", 2, &ops), 0);
    let mut wanted = vec![0; 100];
    wanted[10] = 2;
    assert_eq!(store.read("main.db", 0, 200), wanted);
}

#[test]
fn a_cut_through_a_removed_page_takes_up_the_stored_page() {
    let mut store = PageStore::default();
    store.apply("main.db", 1, &[write(0, vec![1; SQLITE_PAGE_SIZE * 2])]);
    let ops = [
        VfsFileOp::Delete,
        VfsFileOp::Truncate { size: SQLITE_PAGE_SIZE as u64 + 7 },
        VfsFileOp::Truncate { size: 100 },
    ];
    assert_eq!(store.apply("main.db", 2, &ops), 1);
    assert_eq!(store.read("main.db", 0, 200), vec![1; 100]);
}

#[test]
fn the_latest_cut_decides_which_stored_pages_count_as_zeros() {
    let mut store = PageStore::default();
    store.apply("main.db", 1, &[write(0, vec![1; SQLITE_PAGE_SIZE * 2])]);
    let size = SQLITE_PAGE_SIZE as u64;
    let ops = [
        VfsFileOp::Delete,
        write(size * 3, vec![5]),
        VfsFileOp::Truncate { size: size * 2 },
        write(size + 3, vec![9]),
    ];
    assert_eq!(store.apply("main.db", 2, &ops), 1);
    let mut wanted = vec![0; SQLITE_PAGE_SIZE];
    wanted.extend(vec![1; SQLITE_PAGE_SIZE]);
    wanted[SQLITE_PAGE_SIZE + 3] = 9;
    assert_eq!(store.read("main.db", 0, SQLITE_PAGE_SIZE * 3), wanted);
}

#[test]
fn reads_reach_the_pages_that_they_start_in() {
    let content: Vec<u8> = (0..SQLITE_PAGE_SIZE * 4).map(|i| (i / 100) as u8).collect();
    let mut store = PageStore::default();
    store.apply("main.db", 1, &[write(0, content.clone())]);
    let from = SQLITE_PAGE_SIZE * 2 + 5;
    assert_eq!(pages_spanned(content.len() as u64, from as u64, SQLITE_PAGE_SIZE), (2, 2));
    assert_eq!(
        store.read("main.db", from as u64, SQLITE_PAGE_SIZE),
        content[from..from + SQLITE_PAGE_SIZE]
    );
}

#[test]
fn reads_stop_at_the_end_of_the_file() {
    let mut store = PageStore::default();
    store.apply("main.db", 1, &[write(0, b"abcdef".to_vec())]);
    assert_eq!(store.read("main.db", 4, 10), b"ef");
    assert!(store.read("main.db", 6, 10).is_empty());
    assert!(store.read("missing.db", 0, 10).is_empty());
    assert_eq!(pages_spanned(10, 10, 4), (0, 0));
}

#[test]
fn a_cache_gives_back_the_pages_of_their_version() {
    let mut cache = ReadPageCache::new();
    cache.insert("main.db", 1, Some(4), vec![1, 2]);
    assert_eq!(cache.get("main.db", 1, Some(4)), Some(&vec![1, 2]));
    assert_eq!(cache.get("main.db", 1, Some(5)), None);
    assert_eq!(cache.get("main.db", 2, Some(4)), None);
    for index in 0..SQLITE_READ_PAGE_CACHE_CAPACITY as u64 + 10 {
        cache.insert("main.db", index, None, vec![3]);
    }
    assert_eq!(
        cache.get("main.db", SQLITE_READ_PAGE_CACHE_CAPACITY as u64 + 9, None),
        Some(&vec![3])
    );
    cache.clear();
    assert_eq!(
        cache.get("main.db", SQLITE_READ_PAGE_CACHE_CAPACITY as u64 + 9, None),
        None
    );
}
