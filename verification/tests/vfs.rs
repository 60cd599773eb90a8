use orion::commit::CommitDecision;
use orion::commit::FileKind;
use orion::commit::RaftWalCommitSink;
use orion::commit::RecordingCommitSink;
use orion::commit::VfsFileOp;
use orion::commit::VfsSyncBatch;
use orion::commit::VfsWrite;
use orion::file_store::SqliteFileStore;
use orion::vfs::OrionVfs;
use orion::vfs::OrionVfsConfig;
use orion::vfs_state::clear_orion_vfs_shared_state;
use orion::vfs_state::VfsSharedState;
use orion::vfs_types::CreateMode;
use orion::vfs_types::LockLevel;
use orion::vfs_types::OpenKind;
use orion::vfs_types::OpenMode;
use orion::vfs_types::OpenOpts;
use orion::vfs_types::ShmLockMode;
use orion::vfs_types::VfsError;
use std::collections::BTreeMap;

#[derive(Default)]
struct MemoryFileStore {
    files: BTreeMap<String, Vec<u8>>,
    broken: bool,
}

impl MemoryFileStore {
    fn answer<T>(&self, value: T) -> Result<T, String> {
        if self.broken {
            Err("store is broken".to_string())
        } else {
            Ok(value)
        }
    }
}

impl SqliteFileStore for MemoryFileStore {
    fn file_exists(&mut self, path: &str) -> Result<bool, String> {
        self.answer(self.files.contains_key(path))
    }

    fn delete(&mut self, path: &str) -> Result<(), String> {
        self.answer(())?;
        self.files.remove(path);
        Ok(())
    }

    fn file_size(&mut self, path: &str) -> Result<usize, String> {
        self.answer(self.files.get(path).map_or(0, |bytes| bytes.len()))
    }

    fn truncate(&mut self, path: &str, size: usize) -> Result<(), String> {
        self.answer(())?;
        self.files.entry(path.to_string()).or_default().resize(size, 0);
        Ok(())
    }

    fn read_at(&mut self, path: &str, offset: u64, len: usize) -> Result<Vec<u8>, String> {
        let offset = offset as usize;
        let bytes = match self.files.get(path) {
            Some(bytes) if offset < bytes.len() => {
                bytes[offset..bytes.len().min(offset + len)].to_vec()
            }
            _ => Vec::new(),
        };
        self.answer(bytes)
    }

    fn apply_batch(&mut self, batch: &VfsSyncBatch) -> Result<(), String> {
        self.answer(())?;
        for op in &batch.ops {
            match op {
                VfsFileOp::Delete => {
                    self.files.remove(&batch.file_path);
                }
                VfsFileOp::Truncate { size } => {
                    let file = self.files.entry(batch.file_path.clone()).or_default();
                    file.resize(*size as usize, 0);
                }
                VfsFileOp::Write(write) => {
                    let file = self.files.entry(batch.file_path.clone()).or_default();
                    let start = write.offset as usize;
                    let end = start + write.bytes.len();
                    if file.len() < end {
                        file.resize(end, 0);
                    }
                    file[start..end].copy_from_slice(&write.bytes);
                }
            }
        }
        Ok(())
    }

    fn sync(&mut self, _path: &str) -> Result<(), String> {
        self.answer(())
    }
}

struct RefusingSink;

impl RaftWalCommitSink for RefusingSink {
    fn commit_sync_batch(&mut self, _batch: VfsSyncBatch) -> Result<CommitDecision, String> {
        Err("no quorum".to_string())
    }
}

struct MaterializingSink;

impl RaftWalCommitSink for MaterializingSink {
    fn commit_sync_batch(&mut self, _batch: VfsSyncBatch) -> Result<CommitDecision, String> {
        Ok(CommitDecision { raft_log_index: 7, materialized_by_commit: true })
    }
}

type TestVfs = OrionVfs<RecordingCommitSink, MemoryFileStore>;

fn test_config() -> OrionVfsConfig {
    OrionVfsConfig::new("tenant-a".to_string(), "cache".to_string())
}

fn test_vfs() -> (TestVfs, VfsSharedState) {
    let vfs = OrionVfs::with_file_store(
        test_config(),
        RecordingCommitSink::default(),
        MemoryFileStore::default(),
    )
    .ok()
    .unwrap();
    (vfs, VfsSharedState::default())
}

fn opts(kind: OpenKind, create: CreateMode) -> OpenOpts {
    OpenOpts {
        kind,
        mode: OpenMode::ReadWrite { create },
        delete_on_close: false,
    }
}

fn read_only(kind: OpenKind) -> OpenOpts {
    OpenOpts { kind, mode: OpenMode::ReadOnly, delete_on_close: false }
}

#[test]
fn sync_commits_persistent_writes_to_sink_before_acknowledgement() {
    let (mut vfs, mut shared) = test_vfs();
    let mut handle = vfs
        .open(
            &mut shared,
            Some("tenant-a.db-wal"),
            opts(OpenKind::Wal, CreateMode::Create),
        )
        .unwrap();

    vfs.write(&mut handle, 32, b"wal-frame").unwrap();
    assert!(vfs.commit_sink.committed_batches().is_empty());

    vfs.sync(&mut shared, &mut handle).unwrap();
    let committed = vfs.commit_sink.committed_batches();
    assert_eq!(committed.len(), 1);
    assert_eq!(committed[0].batch.database, "tenant-a");
    assert_eq!(committed[0].batch.file_kind, FileKind::Wal);
    assert_eq!(
        committed[0].batch.ops[0],
        VfsFileOp::Write(VfsWrite {
            offset: 32,
            bytes: b"wal-frame".to_vec()
        })
    );
}

#[test]
fn unknown_open_kind_infers_main_database_from_db_path() {
    let (mut vfs, mut shared) = test_vfs();
    let mut handle = vfs
        .open(
            &mut shared,
            Some("tenant-a.db"),
            opts(OpenKind::Unknown, CreateMode::Create),
        )
        .unwrap();

    vfs.write(&mut handle, 0, b"SQLite format 3\0").unwrap();
    vfs.sync(&mut shared, &mut handle).unwrap();

    let committed = vfs.commit_sink.committed_batches();
    assert_eq!(committed.len(), 1);
    assert_eq!(committed[0].batch.file_kind, FileKind::MainDb);
}

#[test]
fn temp_files_are_not_replicated() {
    let (mut vfs, mut shared) = test_vfs();
    let mut handle = vfs
        .open(&mut shared, None, opts(OpenKind::TempDb, CreateMode::Create))
        .unwrap();

    vfs.write(&mut handle, 0, b"scratch").unwrap();
    vfs.sync(&mut shared, &mut handle).unwrap();

    assert!(vfs.commit_sink.committed_batches().is_empty());
}

#[test]
fn delete_commits_replicated_files_before_removal() {
    let (mut vfs, mut shared) = test_vfs();
    let mut handle = vfs
        .open(
            &mut shared,
            Some("tenant-a.db-wal"),
            opts(OpenKind::Wal, CreateMode::Create),
        )
        .unwrap();

    vfs.write(&mut handle, 0, b"wal-frame").unwrap();
    vfs.sync(&mut shared, &mut handle).unwrap();
    assert!(vfs.access(&mut shared, "tenant-a.db-wal").unwrap());

    vfs.delete(&mut shared, "tenant-a.db-wal").unwrap();

    let committed = vfs.commit_sink.committed_batches();
    assert_eq!(committed.len(), 2);
    assert_eq!(committed[1].batch.file_kind, FileKind::Wal);
    assert_eq!(committed[1].batch.ops, vec![VfsFileOp::Delete]);
    assert!(!vfs.access(&mut shared, "tenant-a.db-wal").unwrap());
}

#[test]
fn delete_on_close_commits_replicated_files_before_removal() {
    let (mut vfs, mut shared) = test_vfs();
    let handle = vfs
        .open(
            &mut shared,
            Some("tenant-a.db-journal"),
            OpenOpts {
                kind: OpenKind::MainJournal,
                mode: OpenMode::ReadWrite { create: CreateMode::Create },
                delete_on_close: true,
            },
        )
        .unwrap();

    vfs.close(&mut shared, handle).unwrap();

    let committed = vfs.commit_sink.committed_batches();
    assert_eq!(committed.len(), 1);
    assert_eq!(committed[0].batch.file_kind, FileKind::Journal);
    assert_eq!(committed[0].batch.ops, vec![VfsFileOp::Delete]);
}

#[test]
fn close_does_not_commit_unsynced_replicated_writes() {
    let (mut vfs, mut shared) = test_vfs();
    let mut handle = vfs
        .open(
            &mut shared,
            Some("tenant-a.db"),
            opts(OpenKind::MainDb, CreateMode::Create),
        )
        .unwrap();

    vfs.write(&mut handle, 0, b"sqlite-page").unwrap();
    vfs.close(&mut shared, handle).unwrap();

    assert!(vfs.commit_sink.committed_batches().is_empty());
    let err = match vfs.open(
        &mut shared,
        Some("tenant-a.db"),
        opts(OpenKind::MainDb, CreateMode::Never),
    ) {
        Ok(_) => panic!("unsynced replicated create unexpectedly remained openable"),
        Err(err) => err,
    };
    assert_eq!(err, VfsError::CantOpen);
    assert!(!vfs.access(&mut shared, "tenant-a.db").unwrap());
}

#[test]
fn replicated_writes_become_visible_to_other_handles_after_xsync() {
    let (mut vfs, mut shared) = test_vfs();
    let create = opts(OpenKind::MainDb, CreateMode::Create);
    let mut writer = vfs.open(&mut shared, Some("tenant-a.db"), create).unwrap();
    let reader = vfs.open(&mut shared, Some("tenant-a.db"), create).unwrap();

    vfs.write(&mut writer, 0, b"visible-now").unwrap();
    assert!(vfs.commit_sink.committed_batches().is_empty());

    let seen = vfs.read(&writer, 0, 11).unwrap();
    assert_eq!(seen.read, 11);
    assert_eq!(&seen.data, b"visible-now");

    let seen = vfs.read(&reader, 0, 11).unwrap();
    assert_eq!(seen.read, 0);
    assert_eq!(&seen.data, &[0; 11]);

    vfs.sync(&mut shared, &mut writer).unwrap();
    assert_eq!(vfs.commit_sink.committed_batches().len(), 1);

    let seen = vfs.read(&reader, 0, 11).unwrap();
    assert_eq!(seen.read, 11);
    assert_eq!(&seen.data, b"visible-now");

    vfs.close(&mut shared, writer).unwrap();
    vfs.close(&mut shared, reader).unwrap();
}

#[test]
fn open_without_create_does_not_create_missing_file() {
    let (mut vfs, mut shared) = test_vfs();

    let err = match vfs.open(
        &mut shared,
        Some("missing.db"),
        opts(OpenKind::MainDb, CreateMode::Never),
    ) {
        Ok(_) => panic!("open without create unexpectedly created a missing file"),
        Err(err) => err,
    };
    assert_eq!(err, VfsError::CantOpen);
    assert!(!vfs.access(&mut shared, "missing.db").unwrap());
}

#[test]
fn create_open_does_not_materialize_replicated_file_before_sync() {
    let (mut vfs, mut shared) = test_vfs();
    let handle = vfs
        .open(
            &mut shared,
            Some("tenant-a.db"),
            opts(OpenKind::MainDb, CreateMode::Create),
        )
        .unwrap();

    assert!(vfs.access(&mut shared, "tenant-a.db").unwrap());
    assert_eq!(vfs.file_size(&handle).unwrap(), 0);
    vfs.close(&mut shared, handle).unwrap();
    assert!(vfs.commit_sink.committed_batches().is_empty());
    assert!(!vfs.access(&mut shared, "tenant-a.db").unwrap());
}

#[test]
fn close_clears_unsynced_replicated_wal_create_marker() {
    let (mut vfs, mut shared) = test_vfs();
    let handle = vfs
        .open(
            &mut shared,
            Some("tenant-a.db-wal"),
            opts(OpenKind::Wal, CreateMode::Create),
        )
        .unwrap();

    assert!(vfs.access(&mut shared, "tenant-a.db-wal").unwrap());
    vfs.close(&mut shared, handle).unwrap();

    assert!(vfs.commit_sink.committed_batches().is_empty());
    assert!(!vfs.access(&mut shared, "tenant-a.db-wal").unwrap());
    let err = match vfs.open(
        &mut shared,
        Some("tenant-a.db-wal"),
        opts(OpenKind::Wal, CreateMode::Never),
    ) {
        Ok(_) => panic!("unsynced replicated WAL create unexpectedly remained openable"),
        Err(err) => err,
    };
    assert_eq!(err, VfsError::CantOpen);
}

#[test]
fn readonly_open_missing_file_fails() {
    let (mut vfs, mut shared) = test_vfs();

    let err = match vfs.open(&mut shared, Some("missing.db"), read_only(OpenKind::MainDb)) {
        Ok(_) => panic!("readonly open unexpectedly created a missing file"),
        Err(err) => err,
    };
    assert_eq!(err, VfsError::CantOpen);
}

#[test]
fn main_lock_shared_allows_multiple_readers() {
    let (mut vfs, mut shared) = test_vfs();
    let create = opts(OpenKind::MainDb, CreateMode::Create);
    let mut first = vfs.open(&mut shared, Some("tenant-a.db"), create).unwrap();
    let mut second = vfs.open(&mut shared, Some("tenant-a.db"), create).unwrap();

    vfs.lock(&mut shared, &mut first, LockLevel::Shared).unwrap();
    vfs.lock(&mut shared, &mut second, LockLevel::Shared).unwrap();
    assert!(!vfs.check_reserved_lock(&shared, &second).unwrap());

    vfs.close(&mut shared, first).unwrap();
    vfs.close(&mut shared, second).unwrap();
}

#[test]
fn main_locks_are_shared_across_vfs_registrations_for_same_database_file() {
    let (mut vfs_a, mut shared) = test_vfs();
    let (mut vfs_b, _) = test_vfs();
    let create_opts = opts(OpenKind::MainDb, CreateMode::Create);
    let reopen_opts = opts(OpenKind::MainDb, CreateMode::Never);
    let mut first = vfs_a.open(&mut shared, Some("tenant-a.db"), create_opts).unwrap();
    let mut second = vfs_b.open(&mut shared, Some("tenant-a.db"), reopen_opts).unwrap();

    vfs_a.lock(&mut shared, &mut first, LockLevel::Shared).unwrap();
    vfs_a.lock(&mut shared, &mut first, LockLevel::Reserved).unwrap();

    assert!(vfs_b.check_reserved_lock(&shared, &second).unwrap());
    assert_eq!(
        vfs_b.lock(&mut shared, &mut second, LockLevel::Reserved).unwrap_err(),
        VfsError::Busy
    );

    vfs_a.close(&mut shared, first).unwrap();
    vfs_b.lock(&mut shared, &mut second, LockLevel::Reserved).unwrap();
    vfs_b.close(&mut shared, second).unwrap();
}

#[test]
fn main_lock_reserved_is_single_owner_and_visible_to_other_handles() {
    let (mut vfs, mut shared) = test_vfs();
    let create = opts(OpenKind::MainDb, CreateMode::Create);
    let mut first = vfs.open(&mut shared, Some("tenant-a.db"), create).unwrap();
    let mut second = vfs.open(&mut shared, Some("tenant-a.db"), create).unwrap();

    vfs.lock(&mut shared, &mut first, LockLevel::Shared).unwrap();
    vfs.lock(&mut shared, &mut second, LockLevel::Shared).unwrap();
    vfs.lock(&mut shared, &mut first, LockLevel::Reserved).unwrap();

    assert!(vfs.check_reserved_lock(&shared, &second).unwrap());
    assert_eq!(
        vfs.lock(&mut shared, &mut second, LockLevel::Reserved).unwrap_err(),
        VfsError::Busy
    );

    vfs.close(&mut shared, first).unwrap();
    vfs.lock(&mut shared, &mut second, LockLevel::Reserved).unwrap();
    vfs.close(&mut shared, second).unwrap();
}

#[test]
fn main_lock_exclusive_requires_other_handles_unlocked() {
    let (mut vfs, mut shared) = test_vfs();
    let create = opts(OpenKind::MainDb, CreateMode::Create);
    let mut first = vfs.open(&mut shared, Some("tenant-a.db"), create).unwrap();
    let mut second = vfs.open(&mut shared, Some("tenant-a.db"), create).unwrap();

    vfs.lock(&mut shared, &mut first, LockLevel::Shared).unwrap();
    vfs.lock(&mut shared, &mut second, LockLevel::Shared).unwrap();
    assert_eq!(
        vfs.lock(&mut shared, &mut first, LockLevel::Exclusive).unwrap_err(),
        VfsError::Busy
    );

    vfs.unlock(&mut shared, &mut second, LockLevel::Unlocked).unwrap();
    vfs.lock(&mut shared, &mut first, LockLevel::Exclusive).unwrap();

    vfs.close(&mut shared, first).unwrap();
    vfs.close(&mut shared, second).unwrap();
}

#[test]
fn shm_lock_shared_allows_multiple_holders_but_exclusive_conflicts() {
    let (mut vfs, mut shared) = test_vfs();
    let create = opts(OpenKind::Wal, CreateMode::Create);
    let first = vfs.open(&mut shared, Some("tenant-a.db-wal"), create).unwrap();
    let second = vfs.open(&mut shared, Some("tenant-a.db-wal"), create).unwrap();

    vfs.shm_lock(&mut shared, &first, 3, 1, ShmLockMode::LockShared).unwrap();
    vfs.shm_lock(&mut shared, &second, 3, 1, ShmLockMode::LockShared).unwrap();
    assert_eq!(
        vfs.shm_lock(&mut shared, &first, 3, 1, ShmLockMode::LockExclusive)
            .unwrap_err(),
        VfsError::Busy
    );

    vfs.shm_lock(&mut shared, &second, 3, 1, ShmLockMode::UnlockShared).unwrap();
    vfs.shm_lock(&mut shared, &first, 3, 1, ShmLockMode::LockExclusive).unwrap();

    vfs.close(&mut shared, first).unwrap();
    vfs.close(&mut shared, second).unwrap();
}

#[test]
fn shm_lock_range_acquire_is_atomic_on_conflict() {
    let (mut vfs, mut shared) = test_vfs();
    let create = opts(OpenKind::Wal, CreateMode::Create);
    let first = vfs.open(&mut shared, Some("tenant-a.db-wal"), create).unwrap();
    let second = vfs.open(&mut shared, Some("tenant-a.db-wal"), create).unwrap();

    vfs.shm_lock(&mut shared, &first, 4, 1, ShmLockMode::LockExclusive).unwrap();
    assert_eq!(
        vfs.shm_lock(&mut shared, &second, 3, 2, ShmLockMode::LockShared)
            .unwrap_err(),
        VfsError::Busy
    );
    vfs.shm_lock(&mut shared, &first, 4, 1, ShmLockMode::UnlockExclusive).unwrap();
    vfs.shm_lock(&mut shared, &first, 3, 1, ShmLockMode::LockExclusive).unwrap();

    vfs.close(&mut shared, first).unwrap();
    vfs.close(&mut shared, second).unwrap();
}

#[test]
fn shm_map_region_pointer_survives_later_region_extension() {
    let (mut vfs, mut shared) = test_vfs();
    let create = opts(OpenKind::Wal, CreateMode::Create);
    let handle = vfs.open(&mut shared, Some("tenant-a.db-wal"), create).unwrap();

    let region0 = vfs
        .shm_map(&mut shared, &handle, 0, 32 * 1024, true)
        .unwrap()
        .unwrap();
    shared.states[handle.slot].shm.region_mut(region0)[0] = 0x2a;
    let place = shared.states[handle.slot].shm.region(region0).unwrap().as_ptr();
    let _region1 = vfs
        .shm_map(&mut shared, &handle, 1, 32 * 1024, true)
        .unwrap()
        .unwrap();

    let later = shared.states[handle.slot].shm.region(region0).unwrap();
    assert!(std::ptr::eq(place, later.as_ptr()));
    assert_eq!(later[0], 0x2a);
    vfs.close(&mut shared, handle).unwrap();
}

#[test]
fn shm_unmap_delete_waits_for_last_mapping() {
    let (mut vfs, mut shared) = test_vfs();
    let create = opts(OpenKind::Wal, CreateMode::Create);
    let first = vfs.open(&mut shared, Some("tenant-a.db-wal"), create).unwrap();
    let second = vfs.open(&mut shared, Some("tenant-a.db-wal"), create).unwrap();

    let first_region = vfs
        .shm_map(&mut shared, &first, 0, 32 * 1024, true)
        .unwrap()
        .unwrap();
    let second_region = vfs
        .shm_map(&mut shared, &second, 0, 32 * 1024, false)
        .unwrap()
        .unwrap();
    shared.states[first.slot].shm.region_mut(first_region)[0] = 0x7b;

    vfs.shm_unmap(&mut shared, &first, true).unwrap();
    assert_eq!(shared.states[second.slot].shm.region(second_region).unwrap()[0], 0x7b);

    vfs.shm_unmap(&mut shared, &second, true).unwrap();
    let third = vfs
        .open(
            &mut shared,
            Some("tenant-a.db-wal"),
            opts(OpenKind::Wal, CreateMode::Never),
        )
        .unwrap();
    let remapped = vfs
        .shm_map(&mut shared, &third, 0, 32 * 1024, true)
        .unwrap()
        .unwrap();
    assert_eq!(shared.states[third.slot].shm.region(remapped).unwrap()[0], 0);

    vfs.close(&mut shared, first).unwrap();
    vfs.close(&mut shared, second).unwrap();
    vfs.close(&mut shared, third).unwrap();
}

#[test]
fn a_configuration_without_names_is_refused() {
    let refused = |database: &str, root: &str| {
        OrionVfs::with_file_store(
            OrionVfsConfig::new(database.to_string(), root.to_string()),
            RecordingCommitSink::new(),
            MemoryFileStore::default(),
        )
        .err()
    };
    assert_eq!(refused("", ""), Some("database name must not be empty".to_string()));
    assert_eq!(refused("a", ""), Some("cache_root must not be empty".to_string()));
    assert_eq!(refused("a", "b"), None);
}

#[test]
fn paths_that_name_no_file_are_refused() {
    let (mut vfs, mut shared) = test_vfs();
    let create = opts(OpenKind::MainDb, CreateMode::Create);
    assert_eq!(
        vfs.open(&mut shared, Some("/../."), create).unwrap_err(),
        VfsError::CantOpen
    );
    assert_eq!(vfs.access(&mut shared, "").unwrap_err(), VfsError::CantOpen);
    assert_eq!(vfs.delete(&mut shared, "..").unwrap_err(), VfsError::CantOpen);
}

#[test]
fn a_file_that_must_be_new_may_not_be_there() {
    let (mut vfs, mut shared) = test_vfs();
    let must = opts(OpenKind::MainDb, CreateMode::MustCreate);
    let handle = vfs.open(&mut shared, Some("tenant-a.db"), must).unwrap();
    assert_eq!(
        vfs.open(&mut shared, Some("tenant-a.db"), must).unwrap_err(),
        VfsError::CantOpen
    );
    vfs.close(&mut shared, handle).unwrap();
}

#[test]
fn temporary_files_are_numbered_and_made_at_once() {
    let (mut vfs, mut shared) = test_vfs();
    let create = opts(OpenKind::TempDb, CreateMode::Create);
    let first = vfs.open(&mut shared, None, create).unwrap();
    let second = vfs.open(&mut shared, None, create).unwrap();
    assert_eq!(first.logical_path, "__orion_tmp/TempDb-1");
    assert_eq!(second.logical_path, "__orion_tmp/TempDb-2");
    assert!(first.id != second.id);
    assert_eq!(first.kind, FileKind::Temp);
    assert!(vfs.file_store.files.contains_key("__orion_tmp/TempDb-1"));
}

#[test]
fn requests_keep_the_number_of_the_next_temporary_file() {
    let (mut vfs, mut shared) = test_vfs();
    let create = opts(OpenKind::MainDb, CreateMode::Create);
    let mut handle = vfs.open(&mut shared, Some("tenant-a.db"), create).unwrap();
    assert_eq!(vfs.next_temp_id, 1);
    vfs.write(&mut handle, 0, b"page").unwrap();
    vfs.sync(&mut shared, &mut handle).unwrap();
    vfs.access(&mut shared, "tenant-a.db").unwrap();
    vfs.close(&mut shared, handle).unwrap();
    vfs.delete(&mut shared, "tenant-a.db").unwrap();
    assert_eq!(vfs.next_temp_id, 1);
    vfs.next_temp_id = u64::MAX;
    let temp = opts(OpenKind::TempDb, CreateMode::Create);
    let last = vfs.open(&mut shared, None, temp).unwrap();
    assert_eq!(last.logical_path, format!("__orion_tmp/TempDb-{}", u64::MAX));
    assert_eq!(vfs.next_temp_id, 0);
}

#[test]
fn requests_are_carried_out_apart_and_settled_later() {
    let (mut vfs, mut shared) = test_vfs();
    let create = opts(OpenKind::MainDb, CreateMode::Create);
    let mut handle = vfs.open(&mut shared, Some("tenant-a.db"), create).unwrap();
    vfs.write(&mut handle, 0, b"page").unwrap();
    let outcome = vfs.sync_apart(&mut handle);
    assert_eq!(outcome.done, Ok(()));
    assert_eq!(outcome.created, Some(true));
    assert_eq!(vfs.commit_sink.committed_batches().len(), 1);
    assert_eq!(vfs.sync_apart(&mut handle).created, None);
    vfs.settle(&mut shared, "tenant-a.db", outcome.created);

    let outcome = vfs.delete_apart("tenant-a.db");
    assert_eq!(outcome.created, Some(false));
    assert!(vfs.access(&mut shared, "tenant-a.db").unwrap());
    vfs.settle(&mut shared, "tenant-a.db", outcome.created);
    assert!(!vfs.access(&mut shared, "tenant-a.db").unwrap());
    vfs.release(&mut shared, &handle);
    assert_eq!(vfs.remove_apart(&handle).created, Some(false));
    assert_eq!(vfs.commit_sink.committed_batches().len(), 3);
}

#[test]
fn writes_through_a_read_only_handle_are_refused() {
    let (mut vfs, mut shared) = test_vfs();
    let create = opts(OpenKind::MainDb, CreateMode::Create);
    let mut writer = vfs.open(&mut shared, Some("tenant-a.db"), create).unwrap();
    vfs.write(&mut writer, 0, b"page").unwrap();
    vfs.sync(&mut shared, &mut writer).unwrap();
    let mut reader =
        vfs.open(&mut shared, Some("tenant-a.db"), read_only(OpenKind::MainDb)).unwrap();
    assert_eq!(vfs.write(&mut reader, 0, b"x").unwrap_err(), VfsError::ReadOnly);
    assert_eq!(vfs.truncate(&mut reader, 0).unwrap_err(), VfsError::ReadOnly);
    assert_eq!(vfs.file_size(&reader).unwrap(), 4);
}

#[test]
fn a_handle_sees_its_operations_in_order() {
    let (mut vfs, mut shared) = test_vfs();
    let create = opts(OpenKind::MainDb, CreateMode::Create);
    let mut handle = vfs.open(&mut shared, Some("tenant-a.db"), create).unwrap();
    vfs.write(&mut handle, 0, b"abcdefgh").unwrap();
    vfs.sync(&mut shared, &mut handle).unwrap();

    vfs.write(&mut handle, 2, b"XY").unwrap();
    vfs.truncate(&mut handle, 5).unwrap();
    vfs.write(&mut handle, 7, b"Z").unwrap();
    assert_eq!(vfs.file_size(&handle).unwrap(), 8);
    let seen = vfs.read(&handle, 1, 7).unwrap();
    assert_eq!(&seen.data, b"bXYe\0\0Z");
    assert_eq!(seen.read, 7);
    let seen = vfs.read(&handle, 6, 4).unwrap();
    assert_eq!(&seen.data, b"\0Z\0\0");
    assert_eq!(seen.read, 2);

    vfs.sync(&mut shared, &mut handle).unwrap();
    let seen = vfs.read(&handle, 0, 8).unwrap();
    assert_eq!(&seen.data, b"abXYe\0\0Z");
}

#[test]
fn an_uncommitted_batch_never_reaches_the_store() {
    let mut shared = VfsSharedState::default();
    let mut vfs =
        OrionVfs::with_file_store(test_config(), RefusingSink, MemoryFileStore::default())
            .ok()
            .unwrap();
    let create = opts(OpenKind::MainDb, CreateMode::Create);
    let mut handle = vfs.open(&mut shared, Some("tenant-a.db"), create).unwrap();
    vfs.write(&mut handle, 0, b"page").unwrap();
    assert_eq!(vfs.sync(&mut shared, &mut handle).unwrap_err(), VfsError::IoErrFsync);
    assert!(vfs.file_store.files.is_empty());
    assert!(handle.pending_ops.is_empty());
    assert_eq!(
        vfs.delete(&mut shared, "tenant-a.db").unwrap_err(),
        VfsError::IoErrDelete
    );
}

#[test]
fn a_materialized_batch_is_not_applied_again() {
    let mut shared = VfsSharedState::default();
    let mut vfs =
        OrionVfs::with_file_store(test_config(), MaterializingSink, MemoryFileStore::default())
            .ok()
            .unwrap();
    let create = opts(OpenKind::MainDb, CreateMode::Create);
    let mut handle = vfs.open(&mut shared, Some("tenant-a.db"), create).unwrap();
    vfs.write(&mut handle, 0, b"page").unwrap();
    vfs.sync(&mut shared, &mut handle).unwrap();
    assert!(vfs.file_store.files.is_empty());
    assert!(vfs.access(&mut shared, "tenant-a.db").unwrap());
}

#[test]
fn each_failure_of_the_store_has_its_code() {
    let (mut vfs, mut shared) = test_vfs();
    let create = opts(OpenKind::MainDb, CreateMode::Create);
    let mut handle = vfs.open(&mut shared, Some("tenant-a.db"), create).unwrap();
    let temporary = opts(OpenKind::TempDb, CreateMode::Create);
    let mut scratch = vfs.open(&mut shared, None, temporary).unwrap();
    vfs.file_store.broken = true;
    assert_eq!(vfs.file_size(&handle).unwrap_err(), VfsError::IoErrFstat);
    assert_eq!(vfs.read(&handle, 0, 4).unwrap_err(), VfsError::IoErrRead);
    assert_eq!(vfs.write(&mut scratch, 0, b"x").unwrap_err(), VfsError::IoErrWrite);
    assert_eq!(vfs.truncate(&mut scratch, 0).unwrap_err(), VfsError::IoErrTruncate);
    assert_eq!(vfs.access(&mut shared, "other.db").unwrap_err(), VfsError::IoErrAccess);
    assert_eq!(
        vfs.open(&mut shared, Some("other.db"), create).unwrap_err(),
        VfsError::CantOpen
    );
    assert_eq!(
        vfs.open(&mut shared, None, temporary).unwrap_err(),
        VfsError::CantOpen
    );
    assert_eq!(vfs.sync(&mut shared, &mut handle).unwrap_err(), VfsError::IoErrFsync);
    assert_eq!(vfs.delete(&mut shared, "a.txt").unwrap_err(), VfsError::IoErrDelete);
    assert_eq!(vfs.close(&mut shared, handle).unwrap_err(), VfsError::IoErrClose);
    scratch.delete_on_close = true;
    assert_eq!(vfs.close(&mut shared, scratch).unwrap_err(), VfsError::IoErrDelete);
}

#[test]
fn shared_memory_of_no_size_or_another_size_is_refused() {
    let (mut vfs, mut shared) = test_vfs();
    let create = opts(OpenKind::Wal, CreateMode::Create);
    let handle = vfs.open(&mut shared, Some("tenant-a.db-wal"), create).unwrap();
    assert_eq!(
        vfs.shm_map(&mut shared, &handle, 0, 0, true).unwrap_err(),
        VfsError::IoErrShmMap
    );
    assert_eq!(vfs.shm_map(&mut shared, &handle, 0, 8, false).unwrap(), None);
    assert_eq!(vfs.shm_map(&mut shared, &handle, 1, 8, true).unwrap(), Some(1));
    assert_eq!(
        vfs.shm_map(&mut shared, &handle, 0, 16, true).unwrap_err(),
        VfsError::IoErrShmMap
    );
    assert_eq!(
        vfs.shm_lock(&mut shared, &handle, u32::MAX, 1, ShmLockMode::LockShared)
            .unwrap_err(),
        VfsError::IoErrShmLock
    );
    vfs.shm_lock(&mut shared, &handle, u32::MAX, 0, ShmLockMode::LockShared)
        .unwrap();
}

#[test]
fn clearing_a_database_leaves_the_others_and_the_open_handles() {
    let (mut vfs, mut shared) = test_vfs();
    let mut other = OrionVfs::with_file_store(
        OrionVfsConfig::new("tenant".to_string(), "cache".to_string()),
        RecordingCommitSink::new(),
        MemoryFileStore::default(),
    )
    .ok()
    .unwrap();
    let create = opts(OpenKind::MainDb, CreateMode::Create);
    let mut first = vfs.open(&mut shared, Some("x.db"), create).unwrap();
    let mut foreign = other.open(&mut shared, Some("x.db"), create).unwrap();
    vfs.lock(&mut shared, &mut first, LockLevel::Exclusive).unwrap();
    other.lock(&mut shared, &mut foreign, LockLevel::Exclusive).unwrap();

    assert_eq!(clear_orion_vfs_shared_state(&mut shared, "cache", "tenant-a"), 1);
    assert_eq!(clear_orion_vfs_shared_state(&mut shared, "cache", "tenant-a"), 0);
    let mut second = vfs.open(&mut shared, Some("x.db"), create).unwrap();
    vfs.lock(&mut shared, &mut second, LockLevel::Exclusive).unwrap();
    assert!(vfs.check_reserved_lock(&shared, &first).unwrap());

    let mut again = other.open(&mut shared, Some("x.db"), create).unwrap();
    assert_eq!(
        other.lock(&mut shared, &mut again, LockLevel::Shared).unwrap_err(),
        VfsError::Busy
    );
}

#[test]
fn a_pending_writer_keeps_new_readers_out() {
    let (mut vfs, mut shared) = test_vfs();
    let create = opts(OpenKind::MainDb, CreateMode::Create);
    let mut first = vfs.open(&mut shared, Some("tenant-a.db"), create).unwrap();
    let mut second = vfs.open(&mut shared, Some("tenant-a.db"), create).unwrap();
    vfs.lock(&mut shared, &mut first, LockLevel::Pending).unwrap();
    assert_eq!(
        vfs.lock(&mut shared, &mut second, LockLevel::Shared).unwrap_err(),
        VfsError::Busy
    );
    assert_eq!(first.lock_level, LockLevel::Pending);
    vfs.unlock(&mut shared, &mut first, LockLevel::Shared).unwrap();
    vfs.lock(&mut shared, &mut second, LockLevel::Shared).unwrap();
    assert!(!vfs.check_reserved_lock(&shared, &first).unwrap());
}
