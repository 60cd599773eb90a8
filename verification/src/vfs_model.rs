//! What the file system of a database does: what each request asks of the commit sink
//! and of the file store, and how it ends.

use vstd::prelude::*;

use crate::commit;
use crate::commit::CommitDecision;
use crate::commit::FileKind;
use crate::commit::SyncBatchModel;
use crate::commit::VfsFileOp;
use crate::file_lock;
use crate::file_model::FileOp;
use crate::file_store;
use crate::file_store::StoreCall;
use crate::pending;
use crate::shm;
use crate::vfs_state;
use crate::vfs_state::SharedModel;
use crate::vfs_state::StateModel;
use crate::vfs_state::VfsSharedState;
use crate::vfs_types;
use crate::vfs_types::create_mode;
use crate::vfs_types::should_replicate;
use crate::vfs_types::CreateMode;
use crate::vfs_types::LockLevel;
use crate::vfs_types::OpenKind;
use crate::vfs_types::OpenMode;
use crate::vfs_types::OpenOpts;
use crate::vfs_types::VfsError;

verus! {

/// An open file. `pending_ops` are the operations that were not synced yet.
#[derive(Debug)]
pub struct OrionVfsHandle {
    pub id: u64,
    pub logical_path: String,
    pub kind: FileKind,
    pub readonly: bool,
    pub delete_on_close: bool,
    pub lock_level: LockLevel,
    pub slot: usize,
    pub pending_ops: Vec<VfsFileOp>,
}

impl OrionVfsHandle {
    /// Whether a handle belongs to a table of shared states.
    pub open spec fn wf(&self, shared: VfsSharedState) -> bool {
        self.slot < shared.states@.len() && self.fits()
    }

    /// Whether the operations of a handle end within the sizes that a file can have.
    pub open spec fn fits(&self) -> bool {
        pending::ops_fit(self.pending())
    }

    /// The operations of a handle that were not synced yet.
    pub open spec fn pending(&self) -> Seq<FileOp> {
        commit::op_models(self.pending_ops@)
    }
}

impl OrionVfsHandle {
    /// Adds an operation to those that were not synced yet.
    pub fn add_op(&mut self, op: VfsFileOp)
        requires
            old(self).fits(),
            pending::op_fits(op@),
        ensures
            final(self).fits(),
            *final(self) == (OrionVfsHandle {
                pending_ops: final(self).pending_ops,
                ..*old(self)
            }),
            final(self).pending() == old(self).pending().push(op@),
    {
        let ghost before = self.pending();
        let ghost model = op@;
        self.pending_ops.push(op);
        assert(self.pending() =~= before.push(model));
        assert forall|i: int| 0 <= i < self.pending().len() implies pending::op_fits(
            #[trigger] self.pending()[i],
        ) by {
            if i < before.len() {
                assert(pending::op_fits(before[i]));
            }
        }
    }
}

/// What happens when a file is opened.
#[derive(Debug, Clone, Copy, PartialEq, Eq, Structural)]
pub enum OpenPlan {
    Refuse,
    Use,
    CreateOnSync,
    CreateNow,
}

/// What happens when a file is opened, by whether it is there.
pub open spec fn plan_of_open(present: bool, mode: OpenMode, kind: FileKind) -> OpenPlan {
    if present {
        if vfs_types::creates(mode) == CreateMode::MustCreate {
            OpenPlan::Refuse
        } else {
            OpenPlan::Use
        }
    } else if vfs_types::creates(mode) == CreateMode::Never {
        OpenPlan::Refuse
    } else if vfs_types::is_replicated(kind) {
        OpenPlan::CreateOnSync
    } else {
        OpenPlan::CreateNow
    }
}

/// What happens when a file is opened, by whether it is there.
pub fn plan_open(present: bool, mode: &OpenMode, kind: FileKind) -> (plan: OpenPlan)
    ensures
        plan == plan_of_open(present, *mode, kind),
{
    let create = create_mode(mode);
    if present {
        if create == CreateMode::MustCreate {
            OpenPlan::Refuse
        } else {
            OpenPlan::Use
        }
    } else if create == CreateMode::Never {
        OpenPlan::Refuse
    } else if should_replicate(kind) {
        OpenPlan::CreateOnSync
    } else {
        OpenPlan::CreateNow
    }
}

/// What a file system has done so far, and what its handles share.
#[verifier::ext_equal]
pub struct VfsModel {
    pub handed: Seq<(SyncBatchModel, Option<CommitDecision>)>,
    pub calls: Seq<StoreCall>,
    pub shared: SharedModel,
}

/// The file system after one more call of its store.
pub open spec fn called(vfs: VfsModel, call: StoreCall) -> VfsModel {
    VfsModel { calls: vfs.calls.push(call), ..vfs }
}

/// The file system with other shared states.
pub open spec fn sharing(vfs: VfsModel, shared: SharedModel) -> VfsModel {
    VfsModel { shared, ..vfs }
}

/// How a request ended that was carried out apart from what the handles share: whether its
/// file is there now, where that is to be recorded, and the answer.
#[derive(Debug, Clone, Copy, PartialEq, Eq)]
pub struct Outcome {
    pub created: Option<bool>,
    pub done: Result<(), VfsError>,
}

/// The shared states after it was recorded whether a file is there.
pub open spec fn settled(shared: SharedModel, name: Seq<char>, created: Option<bool>) -> SharedModel {
    match created {
        Some(there) => vfs_state::marked(shared, name, there),
        None => shared,
    }
}

/// Whether a sequence of operations ends by deleting its file.
pub open spec fn ends_deleted(ops: Seq<FileOp>) -> bool {
    ops.len() > 0 && ops.last() == FileOp::Delete
}

/// A batch is committed first. Unless the commit has applied it, the store then applies
/// it. A batch that was not committed reaches the store in no case.
pub open spec fn commits(
    before: VfsModel,
    after: VfsModel,
    name: Seq<char>,
    batch: SyncBatchModel,
    error: VfsError,
    done: Result<(), VfsError>,
) -> bool {
    let decision = after.handed.last().1;
    let handed = VfsModel { handed: before.handed.push((batch, decision)), ..before };
    let settled = vfs_state::marked(before.shared, name, !ends_deleted(batch.ops));
    match decision {
        None => after == handed && done == Err::<(), VfsError>(error),
        Some(found) => if found.materialized_by_commit {
            after == sharing(handed, settled) && done == Ok::<(), VfsError>(())
        } else {
            let applied = file_store::said_done(after.calls.last());
            let stored = called(handed, StoreCall::ApplyBatch { batch, done: applied });
            if applied {
                after == sharing(stored, settled) && done == Ok::<(), VfsError>(())
            } else {
                after == stored && done == Err::<(), VfsError>(error)
            }
        },
    }
}

/// The number of the next file without a path, after one was opened.
pub open spec fn temp_id_after(path: Option<&str>, id: u64) -> u64 {
    if path is Some {
        id
    } else if id == u64::MAX {
        0
    } else {
        (id + 1) as u64
    }
}

/// The path of a file that is opened.
pub open spec fn path_of_open(path: Option<&str>, kind: OpenKind, id: u64) -> Seq<char> {
    match path {
        Some(found) => found@,
        None => vfs_types::temp_path_of(kind, id),
    }
}

/// Whether a path names a file.
pub open spec fn is_file_path(path: Seq<char>) -> bool {
    vfs_types::names_file(vstd::utf8::encode_utf8(path))
}

/// The file system after it looked for a file: one that was created here is there, any
/// other is looked for in the store.
pub open spec fn looked(vfs: VfsModel, name: Seq<char>, path: Seq<char>, reply: Option<bool>) -> VfsModel {
    let named = sharing(vfs, vfs_state::with_file(vfs.shared, name));
    if vfs_state::is_created(vfs.shared, name) {
        named
    } else {
        called(named, StoreCall::Exists { path, reply })
    }
}

/// What is found when a file is looked for.
pub open spec fn found_file(vfs: VfsModel, name: Seq<char>, reply: Option<bool>) -> Option<bool> {
    if vfs_state::is_created(vfs.shared, name) {
        Some(true)
    } else {
        reply
    }
}

/// What the store said when a file was looked for, by the calls before and after.
pub open spec fn look_reply(before: VfsModel, after: VfsModel) -> Option<bool> {
    if before.calls.len() < after.calls.len() {
        file_store::said_exists(after.calls[before.calls.len() as int])
    } else {
        None
    }
}

/// A handle of a file that was opened.
pub open spec fn is_opened(
    handle: OrionVfsHandle,
    id: u64,
    path: Seq<char>,
    kind: FileKind,
    opts: OpenOpts,
    slot: int,
) -> bool {
    &&& handle.id == id
    &&& handle.logical_path@ == path
    &&& handle.kind == kind
    &&& handle.readonly == (opts.mode == OpenMode::ReadOnly)
    &&& handle.delete_on_close == opts.delete_on_close
    &&& handle.lock_level == LockLevel::Unlocked
    &&& handle.slot == slot
    &&& handle.pending() == Seq::<FileOp>::empty()
}

/// How opening a file ends.
pub open spec fn opens(
    before: VfsModel,
    after: VfsModel,
    name: Seq<char>,
    path: Seq<char>,
    opts: OpenOpts,
    opened: Result<OrionVfsHandle, VfsError>,
) -> bool {
    let refused = Err::<OrionVfsHandle, VfsError>(VfsError::CantOpen);
    let kind = vfs_types::kind_of_open(opts.kind, vstd::utf8::encode_utf8(path));
    let reply = look_reply(before, after);
    let seen = looked(before, name, path, reply);
    let created = vfs_state::marked(before.shared, name, true);
    let slot = vfs_state::slot_for(before.shared, name);
    let id = before.shared.next_handle_id;
    if !is_file_path(path) {
        after == before && opened == refused
    } else {
        match found_file(before, name, reply) {
            None => after == seen && opened == refused,
            Some(present) => match plan_of_open(present, opts.mode, kind) {
                OpenPlan::Refuse => after == seen && opened == refused,
                OpenPlan::Use => after == sharing(seen, vfs_state::numbered(seen.shared)) && (
                opened matches Ok(handle) && is_opened(handle, id, path, kind, opts, slot)),
                OpenPlan::CreateOnSync => after == sharing(seen, vfs_state::numbered(created)) && (
                opened matches Ok(handle) && is_opened(handle, id, path, kind, opts, slot)),
                OpenPlan::CreateNow => {
                    let done = file_store::said_done(after.calls.last());
                    let made = called(seen, StoreCall::Truncate { path, size: 0, done });
                    if done {
                        after == sharing(made, vfs_state::numbered(created)) && (opened matches Ok(
                            handle,
                        ) && is_opened(handle, id, path, kind, opts, slot))
                    } else {
                        after == made && opened == refused
                    }
                },
            },
        }
    }
}

/// The batch that a handle hands on.
pub open spec fn batch_of(database: Seq<char>, path: Seq<char>, kind: FileKind, ops: Seq<FileOp>) -> SyncBatchModel {
    SyncBatchModel { database, file_path: path, file_kind: kind, ops }
}

/// How deleting a file ends.
pub open spec fn deletes(
    before: VfsModel,
    after: VfsModel,
    database: Seq<char>,
    name: Seq<char>,
    path: Seq<char>,
    done: Result<(), VfsError>,
) -> bool {
    let kind = vfs_types::kind_by_path(vstd::utf8::encode_utf8(path));
    let batch = batch_of(database, path, kind, seq![FileOp::Delete]);
    if !is_file_path(path) {
        after == before && done == Err::<(), VfsError>(VfsError::CantOpen)
    } else if vfs_types::is_replicated(kind) {
        commits(before, after, name, batch, VfsError::IoErrDelete, done)
    } else {
        let removed = file_store::said_done(after.calls.last());
        let asked = called(before, StoreCall::Delete { path, done: removed });
        if removed {
            after == sharing(asked, vfs_state::marked(before.shared, name, false)) && done == Ok::<
                (),
                VfsError,
            >(())
        } else {
            after == asked && done == Err::<(), VfsError>(VfsError::IoErrDelete)
        }
    }
}

/// How handing on the operations of a handle ends.
pub open spec fn flushes(
    before: VfsModel,
    after: VfsModel,
    name: Seq<char>,
    batch: SyncBatchModel,
    error: VfsError,
    done: Result<(), VfsError>,
) -> bool {
    if batch.ops.len() == 0 {
        after == before && done == Ok::<(), VfsError>(())
    } else if vfs_types::is_replicated(batch.file_kind) {
        commits(before, after, name, batch, error, done)
    } else {
        let applied = file_store::said_done(after.calls.last());
        after == called(before, StoreCall::ApplyBatch { batch, done: applied }) && done
            == if applied {
            Ok::<(), VfsError>(())
        } else {
            Err::<(), VfsError>(error)
        }
    }
}

/// How a sync ends: the operations are handed on, then the file is made durable.
pub open spec fn syncs(
    before: VfsModel,
    after: VfsModel,
    name: Seq<char>,
    batch: SyncBatchModel,
    done: Result<(), VfsError>,
) -> bool {
    let path = batch.file_path;
    if done is Err && flushes(before, after, name, batch, VfsError::IoErrFsync, done) {
        true
    } else {
        let durable = file_store::said_done(after.calls.last());
        let flushed = VfsModel { calls: after.calls.drop_last(), ..after };
        flushes(before, flushed, name, batch, VfsError::IoErrFsync, Ok(())) && after == called(
            flushed,
            StoreCall::Sync { path, done: durable },
        ) && done == if durable {
            Ok::<(), VfsError>(())
        } else {
            Err::<(), VfsError>(VfsError::IoErrFsync)
        }
    }
}

/// The shared states after a handle let go of its locks and its memory.
pub open spec fn left(shared: SharedModel, slot: int, id: u64, delete: bool) -> SharedModel {
    let state = shared.states[slot];
    vfs_state::with_state(
        shared,
        slot,
        StateModel {
            shm_locks: |byte: u32| shm::byte_released((state.shm_locks)(byte), id),
            shm: unmapped(state.shm, id, delete),
            ..state
        },
    )
}

/// Shared memory after a handle let go of it.
pub open spec fn unmapped(memory: shm::ShmModel, id: u64, delete: bool) -> shm::ShmModel {
    shm::ShmModel {
        regions: if delete && memory.mapped.remove(id) == Set::<u64>::empty() {
            Seq::empty()
        } else {
            memory.regions
        },
        mapped: memory.mapped.remove(id),
    }
}

/// The shared states after a lock on a file has changed.
pub open spec fn relocked(shared: SharedModel, slot: int, lock: file_lock::LockModel) -> SharedModel {
    vfs_state::with_state(shared, slot, StateModel { lock, ..shared.states[slot] })
}

/// How the removal of the file of a closed handle ends.
pub open spec fn removes(
    before: VfsModel,
    after: VfsModel,
    database: Seq<char>,
    name: Seq<char>,
    handle: OrionVfsHandle,
    done: Result<(), VfsError>,
) -> bool {
    let path = handle.logical_path@;
    let batch = batch_of(database, path, handle.kind, seq![FileOp::Delete]);
    if vfs_types::is_replicated(handle.kind) {
        commits(before, after, name, batch, VfsError::IoErrDelete, done)
    } else {
        let removed = file_store::said_done(after.calls.last());
        after == called(before, StoreCall::Delete { path, done: removed }) && done == if removed {
            Ok::<(), VfsError>(())
        } else {
            Err::<(), VfsError>(VfsError::IoErrDelete)
        }
    }
}

/// How closing a handle ends.
pub open spec fn closes(
    before: VfsModel,
    after: VfsModel,
    database: Seq<char>,
    name: Seq<char>,
    handle: OrionVfsHandle,
    done: Result<(), VfsError>,
) -> bool {
    let slot = handle.slot as int;
    let path = handle.logical_path@;
    let unlocked = relocked(
        before.shared,
        slot,
        file_lock::released(before.shared.states[slot].lock, handle.id),
    );
    let freed = sharing(before, left(unlocked, slot, handle.id, false));
    if handle.delete_on_close {
        removes(freed, after, database, name, handle, done)
    } else if vfs_types::is_replicated(handle.kind) {
        forgets_create(freed, after, name, path, done)
    } else {
        after == freed && done == Ok::<(), VfsError>(())
    }
}

/// How a file ends that was created here and of which the store knows nothing: it was
/// not created after all.
pub open spec fn forgets_create(
    before: VfsModel,
    after: VfsModel,
    name: Seq<char>,
    path: Seq<char>,
    done: Result<(), VfsError>,
) -> bool {
    let named = sharing(before, vfs_state::with_file(before.shared, name));
    if !vfs_state::is_created(before.shared, name) {
        after == named && done == Ok::<(), VfsError>(())
    } else {
        let reply = file_store::said_exists(after.calls.last());
        let asked = called(named, StoreCall::Exists { path, reply });
        match reply {
            None => after == asked && done == Err::<(), VfsError>(VfsError::IoErrClose),
            Some(present) => done == Ok::<(), VfsError>(()) && after == if present {
                asked
            } else {
                sharing(asked, vfs_state::marked(before.shared, name, false))
            },
        }
    }
}

/// How mapping shared memory ends.
pub open spec fn maps(
    before: shm::ShmModel,
    after: shm::ShmModel,
    id: u64,
    region: usize,
    size: usize,
    extend: bool,
    mapped: Result<Option<usize>, VfsError>,
) -> bool {
    let regions = if extend {
        shm::extended(before.regions, region + 1, size as int)
    } else {
        before.regions
    };
    if size == 0 {
        mapped == Err::<Option<usize>, VfsError>(VfsError::IoErrShmMap) && after == before
    } else if regions.len() <= region {
        mapped == Ok::<Option<usize>, VfsError>(None) && after == before
    } else if regions[region as int].len() != size {
        mapped == Err::<Option<usize>, VfsError>(VfsError::IoErrShmMap) && after == before
    } else {
        mapped == Ok::<Option<usize>, VfsError>(Some(region)) && after == (shm::ShmModel {
            regions,
            mapped: before.mapped.insert(id),
        })
    }
}

} // verus!
