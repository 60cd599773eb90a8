//! What holds of the file system of a database whatever its requests are.

use vstd::prelude::*;
use vstd::string::*;

use crate::bytes;
use crate::commit::FileKind;
use crate::commit::SyncBatchModel;
use crate::file_lock;
use crate::file_model::FileOp;
use crate::file_store::StoreCall;
use crate::text;
use crate::vfs_model;
use crate::vfs_model::OpenPlan;
use crate::vfs_model::OrionVfsHandle;
use crate::vfs_model::VfsModel;
use crate::vfs_state;
use crate::vfs_state::SharedModel;
use crate::vfs_types;
use crate::vfs_types::CreateMode;
use crate::vfs_types::LockLevel;
use crate::vfs_types::OpenKind;
use crate::vfs_types::OpenMode;
use crate::vfs_types::OpenOpts;
use crate::vfs_types::VfsError;

verus! {

broadcast use group_string_axioms;

/// Whether every name has a state.
pub open spec fn names_have_states(shared: SharedModel) -> bool {
    forall|i: int|
        0 <= i < shared.files.len() ==> 0 <= (#[trigger] shared.files[i]).1 < shared.states.len()
}

proof fn lemma_slot_in_range(files: Seq<(Seq<char>, int)>, states: int, name: Seq<char>)
    requires
        forall|i: int| 0 <= i < files.len() ==> 0 <= (#[trigger] files[i]).1 < states,
    ensures
        vfs_state::slot_of(files, name) matches Some(slot) ==> 0 <= slot < states,
    decreases files.len(),
{
    if files.len() > 0 {
        let front = files.drop_last();
        assert forall|i: int| 0 <= i < front.len() implies 0 <= (#[trigger] front[i]).1 < states by {
            assert(front[i] == files[i]);
        }
        lemma_slot_in_range(front, states, name);
        assert(files[files.len() - 1] == files.last());
    }
}

proof fn lemma_marked(shared: SharedModel, name: Seq<char>, created: bool)
    requires
        names_have_states(shared),
    ensures
        vfs_state::is_created(vfs_state::marked(shared, name, created), name) == created,
        vfs_state::is_created(vfs_state::with_file(shared, name), name) == vfs_state::is_created(
            shared,
            name,
        ),
        vfs_state::marked(vfs_state::with_file(shared, name), name, created) == vfs_state::marked(
            shared,
            name,
            created,
        ),
{
    lemma_slot_in_range(shared.files, shared.states.len() as int, name);
    let named = vfs_state::with_file(shared, name);
    let slot = vfs_state::slot_for(shared, name);
    if vfs_state::slot_of(shared.files, name) is None {
        assert(named.files.last() == (name, slot));
    }
    assert(vfs_state::slot_of(named.files, name) == Some(slot));
    assert(0 <= slot < named.states.len());
}

/// A sync of a replicated file that ends well was committed: the sink was handed
/// exactly the operations of the handle and committed them, and the store has applied
/// them unless the commit had.
pub proof fn law_acknowledged_sync_was_committed(
    before: VfsModel,
    after: VfsModel,
    name: Seq<char>,
    batch: SyncBatchModel,
    done: Result<(), VfsError>,
)
    requires
        vfs_model::syncs(before, after, name, batch, done),
        vfs_types::is_replicated(batch.file_kind),
        batch.ops.len() > 0,
    ensures
        done is Ok ==> {
            &&& after.handed.len() == before.handed.len() + 1
            &&& after.handed.drop_last() == before.handed
            &&& after.handed.last().0 == batch
            &&& after.handed.last().1 matches Some(decision)
            &&& !decision.materialized_by_commit ==> after.calls.contains(
                StoreCall::ApplyBatch { batch, done: true },
            )
        },
{
    if done is Ok {
        let flushed = VfsModel { calls: after.calls.drop_last(), ..after };
        let decision = after.handed.last().1;
        assert(after.handed == before.handed.push((batch, decision)));
        assert(after.handed.drop_last() =~= before.handed);
        if let Some(found) = decision {
            if !found.materialized_by_commit {
                let call = StoreCall::ApplyBatch { batch, done: true };
                assert(flushed.calls == before.calls.push(call));
                assert(after.calls[before.calls.len() as int] == call);
            }
        }
    }
}

/// A batch that was not committed changes nothing: the store is not asked for anything,
/// what the handles share stays, and the request fails.
pub proof fn law_uncommitted_batch_changes_nothing(
    before: VfsModel,
    after: VfsModel,
    name: Seq<char>,
    batch: SyncBatchModel,
    error: VfsError,
    done: Result<(), VfsError>,
)
    requires
        vfs_model::commits(before, after, name, batch, error, done),
        after.handed.last().1 is None,
    ensures
        after.calls == before.calls,
        after.shared == before.shared,
        done == Err::<(), VfsError>(error),
{
}

/// Closing a handle commits none of its operations: unless the file is to be deleted,
/// nothing is committed and nothing is applied.
pub proof fn law_close_commits_no_operations(
    before: VfsModel,
    after: VfsModel,
    database: Seq<char>,
    name: Seq<char>,
    handle: OrionVfsHandle,
    done: Result<(), VfsError>,
)
    requires
        vfs_model::closes(before, after, database, name, handle, done),
    ensures
        !handle.delete_on_close ==> {
            &&& after.handed == before.handed
            &&& after.calls == before.calls || (after.calls.drop_last() == before.calls
                && after.calls.last() is Exists)
        },
        handle.delete_on_close && vfs_types::is_replicated(handle.kind) ==> {
            &&& after.handed.drop_last() == before.handed
            &&& after.handed.last().0.ops == seq![FileOp::Delete]
        },
{
    if !handle.delete_on_close {
        if vfs_types::is_replicated(handle.kind) && after.calls != before.calls {
            assert(after.calls.drop_last() =~= before.calls);
        }
    } else if vfs_types::is_replicated(handle.kind) {
        assert(after.handed.drop_last() =~= before.handed);
    }
}

/// A replicated file that is opened to be created is there from then on, for every handle, though
/// the store does not hold it yet; and if the store still does not hold it when the
/// handle is closed, it is no longer there.
pub proof fn law_created_file_is_there_until_closed(
    before: VfsModel,
    opened: VfsModel,
    name: Seq<char>,
    path: Seq<char>,
    opts: OpenOpts,
    result: Result<OrionVfsHandle, VfsError>,
    closing: VfsModel,
    after: VfsModel,
    done: Result<(), VfsError>,
)
    requires
        names_have_states(before.shared),
        names_have_states(closing.shared),
        vfs_model::is_file_path(path),
        vfs_model::opens(before, opened, name, path, opts, result),
        vfs_model::found_file(before, name, vfs_model::look_reply(before, opened)) == Some(false),
        vfs_model::plan_of_open(
            false,
            opts.mode,
            vfs_types::kind_of_open(opts.kind, vstd::utf8::encode_utf8(path)),
        ) == OpenPlan::CreateOnSync,
        vfs_model::forgets_create(closing, after, name, path, done),
    ensures
        result is Ok,
        vfs_state::is_created(opened.shared, name),
        vfs_state::is_created(closing.shared, name) && crate::file_store::said_exists(
            after.calls.last(),
        ) == Some(false) ==> !vfs_state::is_created(after.shared, name),
{
    lemma_marked(before.shared, name, true);
    lemma_marked(closing.shared, name, false);
    let created = vfs_state::marked(before.shared, name, true);
    assert(opened.shared.files == created.files);
    assert(opened.shared.states == created.states);
}

/// The files of a database, its write-ahead log and its rollback journal are replicated,
/// whatever the use that they are opened for; no other file is.
pub proof fn law_database_files_are_replicated(kind: OpenKind)
    ensures
        vfs_types::is_replicated(FileKind::MainDb),
        vfs_types::is_replicated(FileKind::Wal),
        vfs_types::is_replicated(FileKind::Journal),
        !vfs_types::is_replicated(FileKind::Temp),
        !vfs_types::is_replicated(FileKind::Other),
        vfs_types::is_replicated(vfs_types::kind_by_use(kind)) <==> kind == OpenKind::MainDb
            || kind == OpenKind::Wal || kind == OpenKind::MainJournal || kind
            == OpenKind::SuperJournal,
        vfs_types::kind_by_use(kind) == FileKind::Other <==> kind == OpenKind::Unknown,
{
}

/// A path that ends in `-wal` is that of a write-ahead log, one that ends in `-journal` that
/// of a rollback journal and one that ends in `.db` that of a database, whatever comes
/// before.
pub proof fn law_kind_follows_the_ending(stem: Seq<u8>)
    ensures
        vfs_types::kind_by_path(stem + bytes::text("-wal")) == FileKind::Wal,
        vfs_types::kind_by_path(stem + bytes::text("-journal")) == FileKind::Journal,
        vfs_types::kind_by_path(stem + bytes::text(".db")) == FileKind::MainDb,
{
    lemma_endings();
    let wal = stem + bytes::text("-wal");
    let journal = stem + bytes::text("-journal");
    let database = stem + bytes::text(".db");
    assert(wal.subrange(wal.len() - 4, wal.len() as int) =~= bytes::text("-wal"));
    assert(journal.subrange(journal.len() - 8, journal.len() as int) =~= bytes::text("-journal"));
    assert(database.subrange(database.len() - 3, database.len() as int) =~= bytes::text(".db"));
    assert(journal[journal.len() - 1] == 108);
    assert(database[database.len() - 1] == 98);
    assert(bytes::text("-wal")[3] == 108);
    if bytes::has_suffix(journal, bytes::text("-wal")) {
        assert(journal.subrange(journal.len() - 4, journal.len() as int)[0] == 45);
        assert(journal[journal.len() - 4] == 114);
    }
    if bytes::has_suffix(database, bytes::text("-wal")) {
        assert(database.subrange(database.len() - 4, database.len() as int)[3] == 108);
    }
    if bytes::has_suffix(database, bytes::text("-journal")) {
        assert(database.subrange(database.len() - 8, database.len() as int)[7] == 108);
    }
}

proof fn lemma_endings()
    ensures
        bytes::text("-wal") == seq![45u8, 119, 97, 108],
        bytes::text("-journal") == seq![45u8, 106, 111, 117, 114, 110, 97, 108],
        bytes::text(".db") == seq![46u8, 100, 98],
{
    reveal_strlit("-wal");
    reveal_strlit("-journal");
    reveal_strlit(".db");
    assert(is_ascii("-wal"));
    assert(is_ascii("-journal"));
    assert(is_ascii(".db"));
    assert(bytes::text("-wal") =~= seq![45u8, 119, 97, 108]);
    assert(bytes::text("-journal") =~= seq![45u8, 106, 111, 117, 114, 110, 97, 108]);
    assert(bytes::text(".db") =~= seq![46u8, 100, 98]);
}

/// Whether a path consists of something and an ending.
pub open spec fn ends_in(path: Seq<u8>, ending: Seq<u8>) -> bool {
    exists|stem: Seq<u8>| path == #[trigger] (stem + ending)
}

proof fn lemma_ends_in(path: Seq<u8>, ending: Seq<u8>)
    ensures
        bytes::has_suffix(path, ending) ==> ends_in(path, ending),
{
    if bytes::has_suffix(path, ending) {
        let stem = path.take(path.len() - ending.len());
        assert(path =~= stem + ending);
    }
}

/// Any other path is that of a database where it has no dot, and of no known kind where it
/// has one; no path is that of a temporary file.
pub proof fn law_kind_of_other_paths(path: Seq<u8>)
    ensures
        vfs_types::kind_by_path(path) != FileKind::Temp,
        !ends_in(path, bytes::text("-wal")) && !ends_in(path, bytes::text("-journal")) && !ends_in(
            path,
            bytes::text(".db"),
        ) ==> vfs_types::kind_by_path(path) == (if path.contains(46u8) {
            FileKind::Other
        } else {
            FileKind::MainDb
        }),
{
    lemma_ends_in(path, bytes::text("-wal"));
    lemma_ends_in(path, bytes::text("-journal"));
    lemma_ends_in(path, bytes::text(".db"));
}

/// What a file is opened for decides its kind, and where it says nothing the path does. So a
/// database, a write-ahead log or a rollback journal that is opened as such has the kind
/// under which its path is deleted.
pub proof fn law_kind_is_that_of_the_use(kind: OpenKind, path: Seq<u8>, stem: Seq<u8>)
    ensures
        vfs_types::kind_of_open(OpenKind::Unknown, path) == vfs_types::kind_by_path(path),
        kind != OpenKind::Unknown ==> vfs_types::kind_of_open(kind, path)
            == vfs_types::kind_by_use(kind),
        vfs_types::kind_by_use(OpenKind::MainDb) == vfs_types::kind_by_path(
            stem + bytes::text(".db"),
        ),
        vfs_types::kind_by_use(OpenKind::Wal) == vfs_types::kind_by_path(
            stem + bytes::text("-wal"),
        ),
        vfs_types::kind_by_use(OpenKind::MainJournal) == vfs_types::kind_by_path(
            stem + bytes::text("-journal"),
        ),
        vfs_types::kind_by_use(OpenKind::SuperJournal) == vfs_types::kind_by_use(
            OpenKind::MainJournal,
        ),
        kind == OpenKind::TempDb || kind == OpenKind::TempJournal || kind == OpenKind::TransientDb
            || kind == OpenKind::SubJournal <==> vfs_types::kind_by_use(kind) == FileKind::Temp,
{
    law_kind_follows_the_ending(stem);
}

/// Deleting a database, a write-ahead log or a rollback journal, by the ending of its path,
/// is committed: the sink is handed one batch that deletes the file, under the kind of its
/// path, and only a commit makes the file go away. Where it is not committed, the store is
/// not asked for anything.
pub proof fn law_deleting_a_database_file_is_committed(
    before: VfsModel,
    after: VfsModel,
    database: Seq<char>,
    name: Seq<char>,
    path: Seq<char>,
    stem: Seq<char>,
    done: Result<(), VfsError>,
)
    requires
        vfs_model::deletes(before, after, database, name, path, done),
        vfs_model::is_file_path(path),
        path == stem + "-wal"@ || path == stem + "-journal"@ || path == stem + ".db"@,
    ensures
        after.handed.len() == before.handed.len() + 1,
        after.handed.drop_last() == before.handed,
        ({
            let (batch, decision) = after.handed.last();
            &&& batch.database == database
            &&& batch.file_path == path
            &&& batch.ops == seq![FileOp::Delete]
            &&& path == stem + "-wal"@ ==> batch.file_kind == FileKind::Wal
            &&& path == stem + "-journal"@ ==> batch.file_kind == FileKind::Journal
            &&& path == stem + ".db"@ ==> batch.file_kind == FileKind::MainDb
            &&& decision is None ==> done is Err && after.calls == before.calls && after.shared
                == before.shared
            &&& done is Ok ==> decision is Some
            &&& decision matches Some(found) ==> if found.materialized_by_commit {
                done is Ok && after.calls == before.calls
            } else {
                &&& after.calls.len() == before.calls.len() + 1
                &&& after.calls.last() == (StoreCall::ApplyBatch { batch, done: done is Ok })
            }
        }),
{
    text::lemma_encode_both(stem, "-wal"@);
    text::lemma_encode_both(stem, "-journal"@);
    text::lemma_encode_both(stem, ".db"@);
    law_kind_follows_the_ending(vstd::utf8::encode_utf8(stem));
    assert(after.handed.drop_last() =~= before.handed);
}

/// Deleting any other file asks the store alone, once.
pub proof fn law_deleting_a_local_file_is_not_committed(
    before: VfsModel,
    after: VfsModel,
    database: Seq<char>,
    name: Seq<char>,
    path: Seq<char>,
    done: Result<(), VfsError>,
)
    requires
        vfs_model::deletes(before, after, database, name, path, done),
    ensures
        !vfs_model::is_file_path(path) ==> after == before && done is Err,
        vfs_model::is_file_path(path) && vfs_types::kind_by_path(vstd::utf8::encode_utf8(path))
            == FileKind::Other ==> {
            &&& after.handed == before.handed
            &&& after.calls == before.calls.push(StoreCall::Delete { path, done: done is Ok })
        },
{
}

/// A batch that is committed under one of the replicated kinds reaches the sink once, and
/// the file is there afterwards unless its last operation deleted it.
pub proof fn law_committed_batch_settles_the_file(
    before: VfsModel,
    after: VfsModel,
    name: Seq<char>,
    batch: SyncBatchModel,
    error: VfsError,
    done: Result<(), VfsError>,
)
    requires
        names_have_states(before.shared),
        vfs_model::commits(before, after, name, batch, error, done),
    ensures
        after.handed.len() == before.handed.len() + 1,
        after.handed.last().0 == batch,
        done is Ok ==> vfs_state::is_created(after.shared, name) == !(batch.ops.len() > 0
            && batch.ops[batch.ops.len() - 1] == FileOp::Delete),
        done is Err ==> done == Err::<(), VfsError>(error) && after.shared == before.shared,
        done is Ok <==> (after.handed.last().1 matches Some(found) && (found.materialized_by_commit
            || after.calls == before.calls.push(StoreCall::ApplyBatch { batch, done: true }))),
{
    lemma_marked(before.shared, name, true);
    lemma_marked(before.shared, name, false);
}

/// Opening a file finds it or creates it: a file that is there is opened unless it had to be
/// created, one that is not is opened only if it may be created. Nothing is committed by
/// opening; a local file is made in the store at once, a replicated one only when it is
/// synced.
pub proof fn law_opening_finds_or_creates(
    before: VfsModel,
    after: VfsModel,
    name: Seq<char>,
    path: Seq<char>,
    opts: OpenOpts,
    opened: Result<OrionVfsHandle, VfsError>,
)
    requires
        vfs_model::opens(before, after, name, path, opts, opened),
    ensures
        after.handed == before.handed,
        opened is Err ==> opened->Err_0 == VfsError::CantOpen,
        !vfs_model::is_file_path(path) ==> opened is Err && after == before,
        vfs_model::is_file_path(path) ==> {
            let there = vfs_model::found_file(before, name, vfs_model::look_reply(before, after));
            let must = opts.mode == OpenMode::ReadWrite { create: CreateMode::MustCreate };
            let may = must || opts.mode == OpenMode::ReadWrite { create: CreateMode::Create };
            let kind = vfs_types::kind_of_open(opts.kind, vstd::utf8::encode_utf8(path));
            let replicated = kind == FileKind::MainDb || kind == FileKind::Wal || kind
                == FileKind::Journal;
            &&& there is None ==> opened is Err
            &&& there == Some(true) ==> (opened is Ok <==> !must)
            &&& there == Some(false) && !may ==> opened is Err
            &&& there == Some(false) && may && replicated ==> opened is Ok
            &&& there == Some(false) && may && !replicated ==> after.calls.last() == (
            StoreCall::Truncate { path, size: 0, done: opened is Ok })
            &&& vfs_state::is_created(before.shared, name) ==> there == Some(true)
            &&& opened matches Ok(handle) ==> {
                &&& handle.id == before.shared.next_handle_id
                &&& after.shared.next_handle_id != before.shared.next_handle_id
                &&& handle.logical_path@ == path
                &&& handle.kind == kind
                &&& handle.readonly <==> opts.mode == OpenMode::ReadOnly
                &&& handle.delete_on_close == opts.delete_on_close
                &&& handle.lock_level == LockLevel::Unlocked
                &&& handle.pending().len() == 0
            }
        },
{
}

/// Closing a handle lets go of every lock of the handle and of its part of the shared
/// memory, and takes nothing from another handle.
pub proof fn law_closing_lets_go(
    before: VfsModel,
    after: VfsModel,
    database: Seq<char>,
    name: Seq<char>,
    handle: OrionVfsHandle,
    done: Result<(), VfsError>,
    other: u64,
    byte: u32,
)
    requires
        names_have_states(before.shared),
        handle.slot < before.shared.states.len(),
        other != handle.id,
        vfs_model::closes(before, after, database, name, handle, done),
    ensures
        handle.slot < after.shared.states.len(),
        ({
            let slot = handle.slot as int;
            let was = before.shared.states[slot];
            let now = after.shared.states[slot];
            &&& !now.lock.shared.contains(handle.id)
            &&& now.lock.reserved != Some(handle.id) && now.lock.pending != Some(handle.id)
                && now.lock.exclusive != Some(handle.id)
            &&& now.lock.shared.contains(other) == was.lock.shared.contains(other)
            &&& now.lock.exclusive == Some(other) <==> was.lock.exclusive == Some(other)
            &&& now.lock.pending == Some(other) <==> was.lock.pending == Some(other)
            &&& now.lock.reserved == Some(other) <==> was.lock.reserved == Some(other)
            &&& !(now.shm_locks)(byte).shared.contains(handle.id)
            &&& (now.shm_locks)(byte).exclusive != Some(handle.id)
            &&& (now.shm_locks)(byte).shared.contains(other) == (was.shm_locks)(
                byte,
            ).shared.contains(other)
            &&& (now.shm_locks)(byte).exclusive == Some(other) <==> (was.shm_locks)(byte).exclusive
                == Some(other)
            &&& !now.shm.mapped.contains(handle.id)
            &&& now.shm.mapped.contains(other) == was.shm.mapped.contains(other)
            &&& now.shm.regions == was.shm.regions
        }),
{
    let slot = handle.slot as int;
    let unlocked = vfs_model::relocked(
        before.shared,
        slot,
        file_lock::released(before.shared.states[slot].lock, handle.id),
    );
    let freed = vfs_model::left(unlocked, slot, handle.id, false);
    assert(names_have_states(freed));
    lemma_marking_keeps_the_rest(freed, name, true, slot);
    lemma_marking_keeps_the_rest(freed, name, false, slot);
}

proof fn lemma_marking_keeps_the_rest(shared: SharedModel, name: Seq<char>, created: bool, slot: int)
    requires
        names_have_states(shared),
        0 <= slot < shared.states.len(),
    ensures
        ({
            let after = vfs_state::marked(shared, name, created);
            &&& shared.states.len() <= after.states.len()
            &&& after.states[slot].lock == shared.states[slot].lock
            &&& after.states[slot].shm_locks == shared.states[slot].shm_locks
            &&& after.states[slot].shm == shared.states[slot].shm
        }),
        ({
            let after = vfs_state::with_file(shared, name);
            &&& shared.states.len() <= after.states.len()
            &&& after.states[slot] == shared.states[slot]
        }),
{
    lemma_slot_in_range(shared.files, shared.states.len() as int, name);
}

/// A file is opened under the path that it is given. One without a path gets a path that no
/// other such file of its use has, and the next one has another number.
pub proof fn law_files_without_a_path_get_their_own(
    path: Option<&str>,
    kind: OpenKind,
    id: u64,
    other: u64,
)
    ensures
        path matches Some(given) ==> vfs_model::path_of_open(path, kind, id) == given@
            && vfs_model::temp_id_after(path, id) == id,
        path is None ==> vfs_model::temp_id_after(path, id) != id,
        path is None && id < u64::MAX ==> vfs_model::temp_id_after(path, id) == id + 1,
        path is None && vfs_model::path_of_open(path, kind, id) == vfs_model::path_of_open(
            path,
            kind,
            other,
        ) ==> id == other,
{
    vfs_types::law_unnamed_files_are_apart(kind, id, other);
}

/// A sync that ends well ends with the store having made the file durable. One that has
/// nothing to hand on asks the store for just that, and ends as the store says.
pub proof fn law_sync_makes_the_file_durable(
    before: VfsModel,
    after: VfsModel,
    name: Seq<char>,
    batch: SyncBatchModel,
    done: Result<(), VfsError>,
)
    requires
        vfs_model::syncs(before, after, name, batch, done),
    ensures
        done is Ok ==> after.calls.len() > 0 && after.calls.last() == (StoreCall::Sync {
            path: batch.file_path,
            done: true,
        }),
        batch.ops.len() == 0 ==> after.calls == before.calls.push(
            StoreCall::Sync { path: batch.file_path, done: done is Ok },
        ) && after.handed == before.handed && after.shared == before.shared,
        done is Err ==> done->Err_0 == VfsError::IoErrFsync,
{
}

/// Closing a handle commits nothing. Of a file that stays, the store is asked only where it
/// was created here and may not be there yet, and then closing fails only if the store does
/// not answer.
pub proof fn law_closing_ends_well(
    before: VfsModel,
    after: VfsModel,
    database: Seq<char>,
    name: Seq<char>,
    handle: OrionVfsHandle,
    done: Result<(), VfsError>,
)
    requires
        names_have_states(before.shared),
        handle.slot < before.shared.states.len(),
        !handle.delete_on_close,
        vfs_model::closes(before, after, database, name, handle, done),
    ensures
        after.handed == before.handed,
        ({
            let replicated = handle.kind == FileKind::MainDb || handle.kind == FileKind::Wal
                || handle.kind == FileKind::Journal;
            let fresh = vfs_state::is_created(before.shared, name);
            &&& !replicated || !fresh ==> done is Ok && after.calls == before.calls
            &&& replicated && fresh ==> {
                &&& after.calls.len() == before.calls.len() + 1
                &&& match after.calls.last() {
                    StoreCall::Exists { path, reply } => path == handle.logical_path@ && (
                    reply is Some <==> done is Ok),
                    _ => false,
                }
            }
            &&& done is Err ==> done->Err_0 == VfsError::IoErrClose
        }),
{
    let slot = handle.slot as int;
    let unlocked = vfs_model::relocked(
        before.shared,
        slot,
        file_lock::released(before.shared.states[slot].lock, handle.id),
    );
    let freed = vfs_model::left(unlocked, slot, handle.id, false);
    lemma_slot_in_range(before.shared.files, before.shared.states.len() as int, name);
    assert(freed.files == before.shared.files);
    assert(vfs_state::is_created(freed, name) == vfs_state::is_created(before.shared, name));
}

/// What the store said of a file is the reply to the first question of a request.
pub proof fn law_first_reply_counts(before: VfsModel, after: VfsModel, path: Seq<char>, reply: Option<bool>)
    ensures
        before.calls.len() < after.calls.len() && after.calls[before.calls.len() as int] == (
        StoreCall::Exists { path, reply }) ==> vfs_model::look_reply(before, after) == reply,
        before.calls.len() >= after.calls.len() ==> vfs_model::look_reply(before, after) is None,
{
}

/// A file that goes away with its handle is deleted in the store by its path, and closing
/// ends as the store says; a replicated one is deleted by a commit.
pub proof fn law_files_may_go_with_their_handle(
    before: VfsModel,
    after: VfsModel,
    database: Seq<char>,
    name: Seq<char>,
    handle: OrionVfsHandle,
    done: Result<(), VfsError>,
)
    requires
        handle.delete_on_close,
        vfs_model::closes(before, after, database, name, handle, done),
    ensures
        ({
            let replicated = handle.kind == FileKind::MainDb || handle.kind == FileKind::Wal
                || handle.kind == FileKind::Journal;
            &&& !replicated ==> after.handed == before.handed && after.calls == before.calls.push(
                StoreCall::Delete { path: handle.logical_path@, done: done is Ok },
            )
            &&& replicated ==> {
                &&& after.handed.len() == before.handed.len() + 1
                &&& after.handed.last().0.file_path == handle.logical_path@
                &&& after.handed.last().0.ops == seq![FileOp::Delete]
                &&& done is Ok ==> after.handed.last().1 is Some
            }
            &&& done is Err ==> done->Err_0 == VfsError::IoErrDelete
        }),
{
}

} // verus!
