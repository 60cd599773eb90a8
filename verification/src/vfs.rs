//! The file system that SQLite works on: operations on replicated files are kept with
//! the handle until a sync commits them.

use vstd::prelude::*;
use vstd::string::*;

use crate::bytes::copy_bytes;
use crate::commit::copy_batch;
use crate::commit::FileKind;
use crate::commit::RaftWalCommitSink;
use crate::commit::VfsFileOp;
use crate::commit::VfsSyncBatch;
use crate::commit::VfsWrite;
use crate::file_lock;
use crate::file_model::FileOp;
use crate::file_store;
use crate::file_store::SqliteFileStore;
use crate::file_store::StoreCall;
use crate::pending;
use crate::pending::overlay_file_size;
use crate::pending::visible_read;
use crate::pending::VisibleRead;
use crate::shm;
use crate::vfs_model;
use crate::vfs_model::plan_open;
use crate::vfs_model::OpenPlan;
use crate::vfs_model::OrionVfsHandle;
use crate::vfs_model::Outcome;
use crate::vfs_model::VfsModel;
use crate::vfs_state;
use crate::vfs_state::SharedModel;
use crate::vfs_state::StateModel;
use crate::vfs_state::VfsSharedState;
use crate::vfs_types;
use crate::vfs_types::check_path;
use crate::vfs_types::file_kind_for_open;
use crate::vfs_types::file_kind_from_path;
use crate::vfs_types::should_replicate;
use crate::vfs_types::temp_path;
use crate::vfs_types::LockLevel;
use crate::vfs_types::OpenKind;
use crate::vfs_types::OpenMode;
use crate::vfs_types::OpenOpts;
use crate::vfs_types::ShmLockMode;
use crate::vfs_types::VfsError;

verus! {

broadcast use group_string_axioms;

/// Which database the files belong to, and where they are cached.
#[derive(Debug, Clone)]
pub struct OrionVfsConfig {
    pub database: String,
    pub cache_root: String,
}

impl OrionVfsConfig {
    /// A configuration.
    pub fn new(database: String, cache_root: String) -> (config: OrionVfsConfig)
        ensures
            config.database@ == database@,
            config.cache_root@ == cache_root@,
    {
        OrionVfsConfig { database, cache_root }
    }

    /// Refuses a configuration without names.
    pub fn validate(&self) -> (valid: Result<(), String>)
        ensures
            match valid {
                Ok(_) => self.database@.len() > 0 && self.cache_root@.len() > 0,
                Err(message) => if self.database@.len() == 0 {
                    message@ == "database name must not be empty"@
                } else {
                    self.cache_root@.len() == 0 && message@ == "cache_root must not be empty"@
                },
            },
    {
        if self.database.as_str().unicode_len() == 0 {
            return Err("database name must not be empty".to_owned());
        }
        if self.cache_root.as_str().unicode_len() == 0 {
            return Err("cache_root must not be empty".to_owned());
        }
        Ok(())
    }
}

/// A file system over a commit sink and a file store.
pub struct OrionVfs<S, F> {
    pub config: OrionVfsConfig,
    pub commit_sink: S,
    pub file_store: F,
    pub next_temp_id: u64,
}

impl<S: RaftWalCommitSink, F: SqliteFileStore> OrionVfs<S, F> {
    /// What the file system has done so far, and what its handles share.
    pub open spec fn model(&self, shared: VfsSharedState) -> VfsModel {
        self.beside(shared@)
    }

    /// What the file system has done so far, beside what its handles share.
    pub open spec fn beside(&self, shared: SharedModel) -> VfsModel {
        VfsModel { handed: self.commit_sink.handed(), calls: self.file_store.calls(), shared }
    }

    /// The name of a file among those of the process.
    pub open spec fn name_of(&self, path: Seq<char>) -> Seq<char> {
        vfs_state::file_name_of(self.config.cache_root@, self.config.database@, path)
    }

    /// A file system over a sink and a store.
    pub fn with_file_store(config: OrionVfsConfig, commit_sink: S, file_store: F) -> (vfs: Result<
        OrionVfs<S, F>,
        String,
    >)
        ensures
            match vfs {
                Ok(made) => config.database@.len() > 0 && config.cache_root@.len() > 0
                    && made.config == config && made.commit_sink == commit_sink
                    && made.file_store == file_store && made.next_temp_id == 1,
                Err(message) => if config.database@.len() == 0 {
                    message@ == "database name must not be empty"@
                } else {
                    config.cache_root@.len() == 0 && message@ == "cache_root must not be empty"@
                },
            },
    {
        match config.validate() {
            Err(message) => Err(message),
            Ok(_) => Ok(
                OrionVfs {
                    config,
                    commit_sink,
                    file_store,
                    next_temp_id: 1,
                },
            ),
        }
    }

    /// The path of a file that is opened; one without a path gets its own.
    fn resolve_path(&mut self, path: Option<&str>, kind: OpenKind) -> (resolved: Result<
        String,
        VfsError,
    >)
        ensures
            ({
                let wanted = vfs_model::path_of_open(path, kind, old(self).next_temp_id);
                if vfs_model::is_file_path(wanted) {
                    resolved matches Ok(found) && found@ == wanted
                } else {
                    resolved == Err::<String, VfsError>(VfsError::CantOpen)
                }
            }),
            final(self).config == old(self).config,
            final(self).commit_sink == old(self).commit_sink,
            final(self).file_store == old(self).file_store,
            final(self).next_temp_id == vfs_model::temp_id_after(path, old(self).next_temp_id),
    {
        let logical_path: String = match path {
            Some(found) => found.to_owned(),
            None => {
                let id: u64 = self.next_temp_id;
                self.next_temp_id = id.wrapping_add(1);
                temp_path(kind, id)
            },
        };
        if !check_path(logical_path.as_str()) {
            return Err(VfsError::CantOpen);
        }
        Ok(logical_path)
    }

    fn file_slot(&self, shared: &mut VfsSharedState, path: &str) -> (slot: usize)
        requires
            old(shared).wf(),
        ensures
            final(shared).wf(),
            slot < final(shared).states@.len(),
            final(shared)@ == vfs_state::with_file(old(shared)@, self.name_of(path@)),
            slot == vfs_state::slot_for(old(shared)@, self.name_of(path@)),
            old(shared).states@.len() <= final(shared).states@.len(),
            final(shared).states@[slot as int].locally_created == vfs_state::is_created(
                old(shared)@,
                self.name_of(path@),
            ),
    {
        let ghost before = *shared;
        let slot = shared.shared_database_file_state(
            self.config.cache_root.as_str(),
            self.config.database.as_str(),
            path,
        );
        assert(shared@.states.len() == shared.states@.len());
        assert(before@.states.len() == before.states@.len());
        assert(shared@.states[slot as int] == shared.states@[slot as int]@);
        slot
    }

    /// Opens a file. A file that is not there is made by the next sync, or at once if it
    /// is not replicated.
    pub fn open(&mut self, shared: &mut VfsSharedState, path: Option<&str>, opts: OpenOpts) -> (
        opened: Result<OrionVfsHandle, VfsError>)
        requires
            old(shared).wf(),
        ensures
            final(shared).wf(),
            old(shared).states@.len() <= final(shared).states@.len(),
            opened matches Ok(handle) ==> handle.wf(*final(shared)),
            final(self).config == old(self).config,
            final(self).next_temp_id == vfs_model::temp_id_after(path, old(self).next_temp_id),
            ({
                let wanted = vfs_model::path_of_open(path, opts.kind, old(self).next_temp_id);
                vfs_model::opens(
                    old(self).model(*old(shared)),
                    final(self).model(*final(shared)),
                    old(self).name_of(wanted),
                    wanted,
                    opts,
                    opened,
                )
            }),
    {
        let ghost before = self.model(*shared);
        let logical_path = match self.resolve_path(path, opts.kind) {
            Ok(found) => found,
            Err(error) => return Err(error),
        };
        let kind = file_kind_for_open(opts.kind, logical_path.as_str());
        let slot = self.file_slot(shared, logical_path.as_str());
        let present: bool = if shared.states[slot].locally_created {
            true
        } else {
            match self.file_store.file_exists(logical_path.as_str()) {
                Ok(found) => found,
                Err(_) => return Err(VfsError::CantOpen),
            }
        };
        match plan_open(present, &opts.mode, kind) {
            OpenPlan::Refuse => {
                return Err(VfsError::CantOpen);
            },
            OpenPlan::Use => {},
            OpenPlan::CreateOnSync => {
                shared.mark_created(slot, true);
            },
            OpenPlan::CreateNow => {
                if self.file_store.truncate(logical_path.as_str(), 0).is_err() {
                    return Err(VfsError::CantOpen);
                }
                shared.mark_created(slot, true);
            },
        }
        let readonly: bool = match opts.mode {
            OpenMode::ReadOnly => true,
            OpenMode::ReadWrite { .. } => false,
        };
        let handle = OrionVfsHandle {
            id: shared.take_handle_id(),
            logical_path,
            kind,
            readonly,
            delete_on_close: opts.delete_on_close,
            lock_level: LockLevel::Unlocked,
            slot,
            pending_ops: Vec::new(),
        };
        assert(handle.pending() =~= Seq::<FileOp>::empty());
        Ok(handle)
    }

    /// Records whether a file is there, where a request says so.
    pub fn settle(&self, shared: &mut VfsSharedState, path: &str, created: Option<bool>)
        requires
            old(shared).wf(),
        ensures
            final(shared).wf(),
            old(shared).states@.len() <= final(shared).states@.len(),
            final(shared)@ == vfs_model::settled(old(shared)@, self.name_of(path@), created),
    {
        if let Some(there) = created {
            let slot = self.file_slot(shared, path);
            shared.mark_created(slot, there);
        }
    }

    /// Commits a batch, and has the store apply it unless the commit has. Says whether its
    /// file is there now.
    fn commit_and_apply_batch(&mut self, batch: VfsSyncBatch, error: VfsError) -> (outcome: Outcome)
        ensures
            final(self).config == old(self).config,
            final(self).next_temp_id == old(self).next_temp_id,
            forall|shared: SharedModel, name: Seq<char>|
                vfs_model::commits(
                    old(self).beside(shared),
                    final(self).beside(
                        #[trigger] vfs_model::settled(shared, name, outcome.created),
                    ),
                    name,
                    batch@,
                    error,
                    outcome.done,
                ),
    {
        let decision = match self.commit_sink.commit_sync_batch(copy_batch(&batch)) {
            Ok(decision) => decision,
            Err(_) => return Outcome { created: None, done: Err(error) },
        };
        if !decision.materialized_by_commit {
            if self.file_store.apply_batch(&batch).is_err() {
                return Outcome { created: None, done: Err(error) };
            }
        }
        let deleted: bool = if batch.ops.len() == 0 {
            false
        } else {
            match batch.ops[batch.ops.len() - 1] {
                VfsFileOp::Delete => true,
                _ => false,
            }
        };
        Outcome { created: Some(!deleted), done: Ok(()) }
    }

    /// Deletes a file. The deletion of a replicated file is committed first.
    pub fn delete(&mut self, shared: &mut VfsSharedState, path: &str) -> (done: Result<
        (),
        VfsError,
    >)
        requires
            old(shared).wf(),
        ensures
            final(shared).wf(),
            old(shared).states@.len() <= final(shared).states@.len(),
            final(self).config == old(self).config,
            final(self).next_temp_id == old(self).next_temp_id,
            vfs_model::deletes(
                old(self).model(*old(shared)),
                final(self).model(*final(shared)),
                old(self).config.database@,
                old(self).name_of(path@),
                path@,
                done,
            ),
    {
        let outcome = self.delete_apart(path);
        self.settle(shared, path, outcome.created);
        outcome.done
    }

    /// Deletes a file apart from what the handles share, which [`Self::settle`] records.
    pub fn delete_apart(&mut self, path: &str) -> (outcome: Outcome)
        ensures
            final(self).config == old(self).config,
            final(self).next_temp_id == old(self).next_temp_id,
            forall|shared: SharedModel, name: Seq<char>|
                vfs_model::deletes(
                    old(self).beside(shared),
                    final(self).beside(
                        #[trigger] vfs_model::settled(shared, name, outcome.created),
                    ),
                    old(self).config.database@,
                    name,
                    path@,
                    outcome.done,
                ),
    {
        let logical_path = match self.resolve_path(Some(path), OpenKind::Unknown) {
            Ok(found) => found,
            Err(error) => return Outcome { created: None, done: Err(error) },
        };
        let kind = file_kind_from_path(logical_path.as_str());
        if should_replicate(kind) {
            let batch = VfsSyncBatch {
                database: self.config.database.clone(),
                file_path: logical_path,
                file_kind: kind,
                ops: vec![VfsFileOp::Delete],
            };
            assert(batch@.ops =~= seq![FileOp::Delete]);
            self.commit_and_apply_batch(batch, VfsError::IoErrDelete)
        } else {
            if self.file_store.delete(logical_path.as_str()).is_err() {
                return Outcome { created: None, done: Err(VfsError::IoErrDelete) };
            }
            Outcome { created: Some(false), done: Ok(()) }
        }
    }

    /// Whether a file is there.
    pub fn access(&mut self, shared: &mut VfsSharedState, path: &str) -> (present: Result<
        bool,
        VfsError,
    >)
        requires
            old(shared).wf(),
        ensures
            final(shared).wf(),
            old(shared).states@.len() <= final(shared).states@.len(),
            final(self).config == old(self).config,
            final(self).next_temp_id == old(self).next_temp_id,
            ({
                let before = old(self).model(*old(shared));
                let after = final(self).model(*final(shared));
                let name = old(self).name_of(path@);
                let reply = vfs_model::look_reply(before, after);
                if !vfs_model::is_file_path(path@) {
                    after == before && present == Err::<bool, VfsError>(VfsError::CantOpen)
                } else {
                    after == vfs_model::looked(before, name, path@, reply) && present == match vfs_model::found_file(
                        before,
                        name,
                        reply,
                    ) {
                        Some(found) => Ok::<bool, VfsError>(found),
                        None => Err::<bool, VfsError>(VfsError::IoErrAccess),
                    }
                }
            }),
    {
        let logical_path = match self.resolve_path(Some(path), OpenKind::Unknown) {
            Ok(found) => found,
            Err(error) => return Err(error),
        };
        let slot = self.file_slot(shared, logical_path.as_str());
        if shared.states[slot].locally_created {
            return Ok(true);
        }
        match self.file_store.file_exists(logical_path.as_str()) {
            Ok(found) => Ok(found),
            Err(_) => Err(VfsError::IoErrAccess),
        }
    }

    /// The size that a handle sees of its file.
    pub fn file_size(&mut self, handle: &OrionVfsHandle) -> (size: Result<usize, VfsError>)
        requires
            handle.fits(),
        ensures
            final(self).config == old(self).config,
            final(self).next_temp_id == old(self).next_temp_id,
            final(self).commit_sink == old(self).commit_sink,
            ({
                let reply = file_store::said_size(final(self).file_store.calls().last());
                &&& final(self).file_store.calls() == old(self).file_store.calls().push(
                    StoreCall::FileSize { path: handle.logical_path@, reply },
                )
                &&& match reply {
                    Some(base) => size matches Ok(seen) && seen == pending::size_after_all(
                        base as int,
                        handle.pending(),
                    ),
                    None => size == Err::<usize, VfsError>(VfsError::IoErrFstat),
                }
            }),
    {
        match self.file_store.file_size(handle.logical_path.as_str()) {
            Ok(base) => Ok(overlay_file_size(&handle.pending_ops, base)),
            Err(_) => Err(VfsError::IoErrFstat),
        }
    }

    /// Sets the size of a file; with the next sync if it is replicated.
    pub fn truncate(&mut self, handle: &mut OrionVfsHandle, size: usize) -> (done: Result<
        (),
        VfsError,
    >)
        requires
            old(handle).fits(),
        ensures
            final(handle).fits(),
            final(self).config == old(self).config,
            final(self).next_temp_id == old(self).next_temp_id,
            final(self).commit_sink == old(self).commit_sink,
            *final(handle) == (OrionVfsHandle {
                pending_ops: final(handle).pending_ops,
                ..*old(handle)
            }),
            final(handle).pending() == if done is Ok && vfs_types::is_replicated(old(handle).kind) {
                old(handle).pending().push(FileOp::Truncate { size: size as int })
            } else {
                old(handle).pending()
            },
            if old(handle).readonly {
                done == Err::<(), VfsError>(VfsError::ReadOnly) && final(self).file_store.calls()
                    == old(self).file_store.calls()
            } else if vfs_types::is_replicated(old(handle).kind) {
                done is Ok && final(self).file_store.calls() == old(self).file_store.calls()
            } else {
                let cut = file_store::said_done(final(self).file_store.calls().last());
                final(self).file_store.calls() == old(self).file_store.calls().push(
                    StoreCall::Truncate { path: old(handle).logical_path@, size, done: cut },
                ) && done == if cut {
                    Ok::<(), VfsError>(())
                } else {
                    Err::<(), VfsError>(VfsError::IoErrTruncate)
                }
            },
            old(handle).readonly ==> done is Err && *final(handle) == *old(handle),
            match old(handle).kind {
                FileKind::MainDb | FileKind::Wal | FileKind::Journal => {
                    &&& final(self).file_store.calls() == old(self).file_store.calls()
                    &&& done is Ok ==> final(handle).pending().last() == (FileOp::Truncate {
                        size: size as int,
                    })
                },
                _ => final(handle).pending() == old(handle).pending(),
            },
    {
        if handle.readonly {
            return Err(VfsError::ReadOnly);
        }
        if should_replicate(handle.kind) {
            handle.add_op(VfsFileOp::Truncate { size: size as u64 });
            Ok(())
        } else {
            match self.file_store.truncate(handle.logical_path.as_str(), size) {
                Ok(_) => Ok(()),
                Err(_) => Err(VfsError::IoErrTruncate),
            }
        }
    }

    /// Writes bytes to a file; with the next sync if it is replicated.
    pub fn write(&mut self, handle: &mut OrionVfsHandle, offset: usize, data: &[u8]) -> (written:
        Result<usize, VfsError>)
        requires
            old(handle).fits(),
            offset + data@.len() <= usize::MAX,
        ensures
            final(handle).fits(),
            final(self).config == old(self).config,
            final(self).next_temp_id == old(self).next_temp_id,
            final(self).commit_sink == old(self).commit_sink,
            *final(handle) == (OrionVfsHandle {
                pending_ops: final(handle).pending_ops,
                ..*old(handle)
            }),
            ({
                let op = FileOp::Write { offset: offset as int, bytes: data@ };
                let calls = old(self).file_store.calls();
                &&& final(handle).pending() == if written is Ok && vfs_types::is_replicated(
                    old(handle).kind,
                ) {
                    old(handle).pending().push(op)
                } else {
                    old(handle).pending()
                }
                &&& if old(handle).readonly {
                    written == Err::<usize, VfsError>(VfsError::ReadOnly)
                        && final(self).file_store.calls() == calls
                } else if vfs_types::is_replicated(old(handle).kind) {
                    (written matches Ok(count) && count == data@.len())
                        && final(self).file_store.calls() == calls
                } else {
                    let applied = file_store::said_done(final(self).file_store.calls().last());
                    let batch = vfs_model::batch_of(
                        old(self).config.database@,
                        old(handle).logical_path@,
                        old(handle).kind,
                        seq![op],
                    );
                    final(self).file_store.calls() == calls.push(
                        StoreCall::ApplyBatch { batch, done: applied },
                    ) && if applied {
                        written matches Ok(count) && count == data@.len()
                    } else {
                        written == Err::<usize, VfsError>(VfsError::IoErrWrite)
                    }
                }
            }),
            old(handle).readonly ==> written is Err && *final(handle) == *old(handle),
            written matches Ok(count) ==> count == data@.len(),
            match old(handle).kind {
                FileKind::MainDb | FileKind::Wal | FileKind::Journal => {
                    &&& final(self).file_store.calls() == old(self).file_store.calls()
                    &&& written is Ok ==> final(handle).pending().last() == (FileOp::Write {
                        offset: offset as int,
                        bytes: data@,
                    })
                },
                _ => final(handle).pending() == old(handle).pending(),
            },
    {
        if handle.readonly {
            return Err(VfsError::ReadOnly);
        }
        let write = VfsFileOp::Write(VfsWrite { offset: offset as u64, bytes: copy_bytes(data) });
        if should_replicate(handle.kind) {
            handle.add_op(write);
        } else {
            let ghost op = write@;
            let batch = VfsSyncBatch {
                database: self.config.database.clone(),
                file_path: handle.logical_path.clone(),
                file_kind: handle.kind,
                ops: vec![write],
            };
            assert(batch@.ops =~= seq![op]);
            if self.file_store.apply_batch(&batch).is_err() {
                return Err(VfsError::IoErrWrite);
            }
        }
        Ok(data.len())
    }

    /// Reads bytes of a file as the handle sees it. What lies behind the end reads as
    /// zeros.
    pub fn read(&mut self, handle: &OrionVfsHandle, offset: usize, len: usize) -> (read: Result<
        VisibleRead,
        VfsError,
    >)
        requires
            handle.fits(),
            offset + len <= usize::MAX,
        ensures
            final(self).config == old(self).config,
            final(self).next_temp_id == old(self).next_temp_id,
            final(self).commit_sink == old(self).commit_sink,
            ({
                let before = old(self).file_store.calls();
                let after = final(self).file_store.calls();
                let path = handle.logical_path@;
                let given = file_store::said_bytes(after[before.len() as int]);
                let asked = before.push(
                    StoreCall::ReadAt { path, offset: offset as u64, len, reply: given },
                );
                match given {
                    None => after == asked && read == Err::<VisibleRead, VfsError>(
                        VfsError::IoErrRead,
                    ),
                    Some(stored) => {
                        let size = file_store::said_size(after.last());
                        let base: int = match size {
                            Some(found) => found as int,
                            None => 0,
                        };
                        after == asked.push(StoreCall::FileSize { path, reply: size }) && (
                        read matches Ok(seen) && seen.data@ == pending::shown_all(
                            pending::filled(stored, len as int),
                            offset as int,
                            handle.pending(),
                        ) && seen.read == pending::read_count(
                            stored.len() as int,
                            offset as int,
                            len as int,
                            pending::size_after_all(base, handle.pending()),
                        ))
                    },
                }
            }),
    {
        let stored = match self.file_store.read_at(
            handle.logical_path.as_str(),
            offset as u64,
            len,
        ) {
            Ok(bytes) => bytes,
            Err(_) => return Err(VfsError::IoErrRead),
        };
        let base: usize = match self.file_store.file_size(handle.logical_path.as_str()) {
            Ok(size) => size,
            Err(_) => 0,
        };
        Ok(visible_read(&handle.pending_ops, offset, len, stored, base))
    }

    /// Hands the operations of a handle on. Whatever happens, they are no longer with
    /// the handle.
    fn flush_pending_handle(&mut self, handle: &mut OrionVfsHandle, error: VfsError) -> (
    outcome: Outcome)
        ensures
            final(self).config == old(self).config,
            final(self).next_temp_id == old(self).next_temp_id,
            *final(handle) == (OrionVfsHandle {
                pending_ops: final(handle).pending_ops,
                ..*old(handle)
            }),
            final(handle).pending() == Seq::<FileOp>::empty(),
            forall|shared: SharedModel, name: Seq<char>|
                vfs_model::flushes(
                    old(self).beside(shared),
                    final(self).beside(
                        #[trigger] vfs_model::settled(shared, name, outcome.created),
                    ),
                    name,
                    vfs_model::batch_of(
                        old(self).config.database@,
                        old(handle).logical_path@,
                        old(handle).kind,
                        old(handle).pending(),
                    ),
                    error,
                    outcome.done,
                ),
    {
        let mut ops: Vec<VfsFileOp> = Vec::new();
        std::mem::swap(&mut ops, &mut handle.pending_ops);
        assert(handle.pending() =~= Seq::<FileOp>::empty());
        if ops.len() == 0 {
            return Outcome { created: None, done: Ok(()) };
        }
        let batch = VfsSyncBatch {
            database: self.config.database.clone(),
            file_path: handle.logical_path.clone(),
            file_kind: handle.kind,
            ops,
        };
        if should_replicate(handle.kind) {
            self.commit_and_apply_batch(batch, error)
        } else {
            let done = match self.file_store.apply_batch(&batch) {
                Ok(_) => Ok(()),
                Err(_) => Err(error),
            };
            Outcome { created: None, done }
        }
    }

    /// Commits the operations of a handle, and makes its file durable.
    pub fn sync(&mut self, shared: &mut VfsSharedState, handle: &mut OrionVfsHandle) -> (done:
        Result<(), VfsError>)
        requires
            old(shared).wf(),
            old(handle).wf(*old(shared)),
        ensures
            final(shared).wf(),
            old(shared).states@.len() <= final(shared).states@.len(),
            final(handle).wf(*final(shared)),
            final(self).config == old(self).config,
            final(self).next_temp_id == old(self).next_temp_id,
            *final(handle) == (OrionVfsHandle {
                pending_ops: final(handle).pending_ops,
                ..*old(handle)
            }),
            final(handle).pending() == Seq::<FileOp>::empty(),
            vfs_model::syncs(
                old(self).model(*old(shared)),
                final(self).model(*final(shared)),
                old(self).name_of(old(handle).logical_path@),
                vfs_model::batch_of(
                    old(self).config.database@,
                    old(handle).logical_path@,
                    old(handle).kind,
                    old(handle).pending(),
                ),
                done,
            ),
    {
        let outcome = self.sync_apart(handle);
        self.settle(shared, handle.logical_path.as_str(), outcome.created);
        outcome.done
    }

    /// Commits the operations of a handle, and makes its file durable, apart from what the
    /// handles share, which [`Self::settle`] records.
    pub fn sync_apart(&mut self, handle: &mut OrionVfsHandle) -> (outcome: Outcome)
        ensures
            final(self).config == old(self).config,
            final(self).next_temp_id == old(self).next_temp_id,
            *final(handle) == (OrionVfsHandle {
                pending_ops: final(handle).pending_ops,
                ..*old(handle)
            }),
            final(handle).pending() == Seq::<FileOp>::empty(),
            forall|shared: SharedModel, name: Seq<char>|
                vfs_model::syncs(
                    old(self).beside(shared),
                    final(self).beside(
                        #[trigger] vfs_model::settled(shared, name, outcome.created),
                    ),
                    name,
                    vfs_model::batch_of(
                        old(self).config.database@,
                        old(handle).logical_path@,
                        old(handle).kind,
                        old(handle).pending(),
                    ),
                    outcome.done,
                ),
    {
        let flushed = self.flush_pending_handle(handle, VfsError::IoErrFsync);
        if flushed.done.is_err() {
            return flushed;
        }
        let ghost before = *self;
        let durable = self.file_store.sync(handle.logical_path.as_str());
        let done = match durable {
            Ok(_) => Ok(()),
            Err(_) => Err(VfsError::IoErrFsync),
        };
        proof {
            assert forall|shared: SharedModel, name: Seq<char>| vfs_model::syncs(
                old(self).beside(shared),
                self.beside(#[trigger] vfs_model::settled(shared, name, flushed.created)),
                name,
                vfs_model::batch_of(
                    old(self).config.database@,
                    old(handle).logical_path@,
                    old(handle).kind,
                    old(handle).pending(),
                ),
                done,
            ) by {
                let marked = vfs_model::settled(shared, name, flushed.created);
                assert(VfsModel {
                    calls: self.beside(marked).calls.drop_last(),
                    ..self.beside(marked)
                } =~= before.beside(marked));
            }
        }
        Outcome { created: flushed.created, done }
    }
}

impl<S: RaftWalCommitSink, F: SqliteFileStore> OrionVfs<S, F> {
    /// Takes back that a file was created here, if the store does not hold it.
    fn clear_unmaterialized_local_create(&mut self, shared: &mut VfsSharedState, path: &str) -> (
        done: Result<(), VfsError>)
        requires
            old(shared).wf(),
        ensures
            final(shared).wf(),
            old(shared).states@.len() <= final(shared).states@.len(),
            final(self).config == old(self).config,
            final(self).next_temp_id == old(self).next_temp_id,
            vfs_model::forgets_create(
                old(self).model(*old(shared)),
                final(self).model(*final(shared)),
                old(self).name_of(path@),
                path@,
                done,
            ),
    {
        let slot = self.file_slot(shared, path);
        if !shared.states[slot].locally_created {
            return Ok(());
        }
        match self.file_store.file_exists(path) {
            Err(_) => Err(VfsError::IoErrClose),
            Ok(present) => {
                if !present {
                    shared.mark_created(slot, false);
                }
                Ok(())
            },
        }
    }

    /// Lets go of the locks and of the memory of a handle.
    pub fn release(&self, shared: &mut VfsSharedState, handle: &OrionVfsHandle)
        requires
            old(shared).wf(),
            handle.wf(*old(shared)),
        ensures
            final(shared).wf(),
            final(shared).states@.len() == old(shared).states@.len(),
            final(shared)@ == vfs_model::left(
                vfs_model::relocked(
                    old(shared)@,
                    handle.slot as int,
                    file_lock::released(old(shared)@.states[handle.slot as int].lock, handle.id),
                ),
                handle.slot as int,
                handle.id,
                false,
            ),
    {
        shared.release_lock(handle.slot, handle.id);
        shared.release_memory(handle.slot, handle.id, false);
    }

    /// Removes the file of a closed handle apart from what the handles share, which
    /// [`Self::settle`] records.
    pub fn remove_apart(&mut self, handle: &OrionVfsHandle) -> (outcome: Outcome)
        ensures
            final(self).config == old(self).config,
            final(self).next_temp_id == old(self).next_temp_id,
            forall|shared: SharedModel, name: Seq<char>|
                vfs_model::removes(
                    old(self).beside(shared),
                    final(self).beside(
                        #[trigger] vfs_model::settled(shared, name, outcome.created),
                    ),
                    old(self).config.database@,
                    name,
                    *handle,
                    outcome.done,
                ),
    {
        if should_replicate(handle.kind) {
            let batch = VfsSyncBatch {
                database: self.config.database.clone(),
                file_path: handle.logical_path.clone(),
                file_kind: handle.kind,
                ops: vec![VfsFileOp::Delete],
            };
            assert(batch@.ops =~= seq![FileOp::Delete]);
            self.commit_and_apply_batch(batch, VfsError::IoErrDelete)
        } else {
            let done = match self.file_store.delete(handle.logical_path.as_str()) {
                Ok(_) => Ok(()),
                Err(_) => Err(VfsError::IoErrDelete),
            };
            Outcome { created: None, done }
        }
    }

    /// Closes a handle. Operations that were not synced are dropped.
    pub fn close(&mut self, shared: &mut VfsSharedState, handle: OrionVfsHandle) -> (done: Result<
        (),
        VfsError,
    >)
        requires
            old(shared).wf(),
            handle.wf(*old(shared)),
        ensures
            final(shared).wf(),
            old(shared).states@.len() <= final(shared).states@.len(),
            final(self).config == old(self).config,
            final(self).next_temp_id == old(self).next_temp_id,
            vfs_model::closes(
                old(self).model(*old(shared)),
                final(self).model(*final(shared)),
                old(self).config.database@,
                old(self).name_of(handle.logical_path@),
                handle,
                done,
            ),
    {
        self.release(shared, &handle);
        if handle.delete_on_close {
            let outcome = self.remove_apart(&handle);
            self.settle(shared, handle.logical_path.as_str(), outcome.created);
            outcome.done
        } else if should_replicate(handle.kind) {
            self.clear_unmaterialized_local_create(shared, handle.logical_path.as_str())
        } else {
            Ok(())
        }
    }

    /// Takes the lock of a file at a level.
    pub fn lock(
        &self,
        shared: &mut VfsSharedState,
        handle: &mut OrionVfsHandle,
        level: LockLevel,
    ) -> (taken: Result<(), VfsError>)
        requires
            old(shared).wf(),
            old(handle).wf(*old(shared)),
        ensures
            final(shared).wf(),
            final(handle).wf(*final(shared)),
            final(shared).states@.len() == old(shared).states@.len(),
            ({
                let slot = old(handle).slot as int;
                let lock = old(shared)@.states[slot].lock;
                if file_lock::must_wait(lock, old(handle).id, level) {
                    taken == Err::<(), VfsError>(VfsError::Busy) && final(shared)@ == old(shared)@
                        && *final(handle) == *old(handle)
                } else {
                    taken is Ok && final(shared)@ == vfs_model::relocked(
                        old(shared)@,
                        slot,
                        file_lock::locked(lock, old(handle).id, level),
                    ) && *final(handle) == (OrionVfsHandle { lock_level: level, ..*old(handle) })
                }
            }),
    {
        let taken = shared.take_lock(handle.slot, handle.id, level);
        if taken.is_ok() {
            handle.lock_level = level;
        }
        taken
    }

    /// Lets the lock of a file go, down to a level.
    pub fn unlock(
        &self,
        shared: &mut VfsSharedState,
        handle: &mut OrionVfsHandle,
        level: LockLevel,
    ) -> (done: Result<(), VfsError>)
        requires
            old(shared).wf(),
            old(handle).wf(*old(shared)),
        ensures
            final(shared).wf(),
            final(handle).wf(*final(shared)),
            final(shared).states@.len() == old(shared).states@.len(),
            done is Ok,
            final(shared)@ == vfs_model::relocked(
                old(shared)@,
                old(handle).slot as int,
                file_lock::unlocked(
                    old(shared)@.states[old(handle).slot as int].lock,
                    old(handle).id,
                    level,
                ),
            ),
            *final(handle) == (OrionVfsHandle { lock_level: level, ..*old(handle) }),
    {
        shared.lower_lock(handle.slot, handle.id, level);
        handle.lock_level = level;
        Ok(())
    }

    /// Whether a handle is about to write a file, or writes it.
    pub fn check_reserved_lock(&self, shared: &VfsSharedState, handle: &OrionVfsHandle) -> (
        reserved: Result<bool, VfsError>)
        requires
            shared.wf(),
            handle.wf(*shared),
        ensures
            ({
                let lock = shared@.states[handle.slot as int].lock;
                reserved == Ok::<bool, VfsError>(
                    lock.reserved is Some || lock.pending is Some || lock.exclusive is Some,
                )
            }),
            reserved == Ok::<bool, VfsError>(false) ==> ({
                let lock = shared@.states[handle.slot as int].lock;
                lock.reserved is None && lock.pending is None && lock.exclusive is None
            }),
    {
        Ok(shared.states[handle.slot].file_lock.is_reserved())
    }

    /// Maps a region of the shared memory of a file, and gives its number.
    pub fn shm_map(
        &self,
        shared: &mut VfsSharedState,
        handle: &OrionVfsHandle,
        region_idx: usize,
        region_size: usize,
        extend: bool,
    ) -> (mapped: Result<Option<usize>, VfsError>)
        requires
            old(shared).wf(),
            handle.wf(*old(shared)),
            region_idx < usize::MAX,
        ensures
            final(shared).wf(),
            final(shared).states@.len() == old(shared).states@.len(),
            ({
                let slot = handle.slot as int;
                let after = final(shared)@.states[slot].shm;
                &&& vfs_model::maps(
                    old(shared)@.states[slot].shm,
                    after,
                    handle.id,
                    region_idx,
                    region_size,
                    extend,
                    mapped,
                )
                &&& final(shared)@ == vfs_state::with_state(
                    old(shared)@,
                    slot,
                    StateModel { shm: after, ..old(shared)@.states[slot] },
                )
            }),
    {
        shared.map_memory(handle.slot, handle.id, region_idx, region_size, extend)
    }

    /// Takes or lets go of the locks on a range of the shared memory of a file.
    pub fn shm_lock(
        &self,
        shared: &mut VfsSharedState,
        handle: &OrionVfsHandle,
        offset: u32,
        count: u32,
        mode: ShmLockMode,
    ) -> (done: Result<(), VfsError>)
        requires
            old(shared).wf(),
            handle.wf(*old(shared)),
        ensures
            final(shared).wf(),
            final(shared).states@.len() == old(shared).states@.len(),
            ({
                let slot = handle.slot as int;
                let state = old(shared)@.states[slot];
                &&& done == shm::range_outcome(state.shm_locks, handle.id, offset, count, mode)
                &&& final(shared)@ == vfs_state::with_state(
                    old(shared)@,
                    slot,
                    StateModel {
                        shm_locks: shm::range_after(
                            state.shm_locks,
                            handle.id,
                            offset,
                            count,
                            mode,
                        ),
                        ..state
                    },
                )
            }),
    {
        shared.lock_memory(handle.slot, handle.id, offset, count, mode)
    }

    /// Orders the accesses to the shared memory of a file. The states are held by one
    /// caller at a time, so nothing is left to do.
    pub fn shm_barrier(&self, shared: &VfsSharedState, handle: &OrionVfsHandle)
        requires
            shared.wf(),
            handle.wf(*shared),
    {
    }

    /// Lets the shared memory of a file go, and the locks on it. When the last handle
    /// that has it mapped asks for it, the memory is dropped.
    pub fn shm_unmap(&self, shared: &mut VfsSharedState, handle: &OrionVfsHandle, delete: bool) -> (
        done: Result<(), VfsError>)
        requires
            old(shared).wf(),
            handle.wf(*old(shared)),
        ensures
            final(shared).wf(),
            final(shared).states@.len() == old(shared).states@.len(),
            done is Ok,
            final(shared)@ == vfs_model::left(old(shared)@, handle.slot as int, handle.id, delete),
    {
        shared.release_memory(handle.slot, handle.id, delete);
        Ok(())
    }
}

} // verus!
