//! What holds of the states of the files that a process has opened.

use vstd::prelude::*;
use vstd::string::*;

use crate::file_lock::LockModel;
use crate::file_store::StoreCall;
use crate::vfs_model;
use crate::vfs_model::VfsModel;
use crate::vfs_state;
use crate::vfs_state::SharedModel;

verus! {

broadcast use group_string_axioms;

/// The state of a file is the one that its name was given last; a file without a name has
/// none.
pub proof fn law_state_is_the_last_named(files: Seq<(Seq<char>, int)>, name: Seq<char>, at: int)
    ensures
        0 <= at < files.len() && files[at].0 == name && (forall|i: int|
            at < i < files.len() ==> (#[trigger] files[i]).0 != name) ==> vfs_state::slot_of(
            files,
            name,
        ) == Some(files[at].1),
        (forall|i: int| 0 <= i < files.len() ==> (#[trigger] files[i]).0 != name)
            ==> vfs_state::slot_of(files, name) is None,
    decreases files.len(),
{
    if files.len() > 0 {
        let front = files.drop_last();
        assert(files.last() == files[files.len() - 1]);
        assert(forall|i: int| 0 <= i < front.len() ==> #[trigger] front[i] == files[i]);
        if at < files.len() - 1 {
            law_state_is_the_last_named(front, name, at);
        } else {
            law_state_is_the_last_named(front, name, -1);
        }
    }
}

/// Where a name stands last among those of a table, or `-1`.
spec fn last_at(files: Seq<(Seq<char>, int)>, name: Seq<char>) -> int
    decreases files.len(),
{
    if files.len() == 0 {
        -1
    } else if files.last().0 == name {
        files.len() - 1
    } else {
        last_at(files.drop_last(), name)
    }
}

proof fn lemma_last_at(files: Seq<(Seq<char>, int)>, name: Seq<char>)
    ensures
        -1 <= last_at(files, name) < files.len(),
        forall|i: int|
            last_at(files, name) < i < files.len() ==> (#[trigger] files[i]).0 != name,
        last_at(files, name) >= 0 ==> files[last_at(files, name)].0 == name,
        vfs_state::slot_of(files, name) == if last_at(files, name) >= 0 {
            Some(files[last_at(files, name)].1)
        } else {
            None
        },
    decreases files.len(),
{
    if files.len() > 0 {
        let front = files.drop_last();
        lemma_last_at(front, name);
        assert(files.last() == files[files.len() - 1]);
        assert forall|i: int| last_at(files, name) < i < files.len() implies (
        #[trigger] files[i]).0 != name by {
            if i < front.len() {
                assert(front[i] == files[i]);
            }
        }
    }
}

/// A file that has no state gets one of its own, in which nobody holds a lock, no memory
/// is mapped and the file was not created here. A file that has one keeps it. The states
/// of the other files stay.
pub proof fn law_file_gets_a_state_of_its_own(shared: SharedModel, name: Seq<char>, other: Seq<char>)
    ensures
        ({
            let after = vfs_state::with_file(shared, name);
            let had = exists|i: int| 0 <= i < shared.files.len() && (#[trigger] shared.files[i]).0 == name;
            &&& had ==> after == shared
            &&& !had ==> {
                let fresh = after.states.last();
                &&& after.files == shared.files.push((name, shared.states.len() as int))
                &&& after.states.drop_last() == shared.states
                &&& after.next_handle_id == shared.next_handle_id
                &&& after.states.len() == shared.states.len() + 1
                &&& vfs_state::slot_for(shared, name) == shared.states.len()
                &&& forall|id: u64| !#[trigger] fresh.lock.shared.contains(id)
                &&& fresh.lock.reserved is None && fresh.lock.pending is None
                &&& fresh.lock.exclusive is None
                &&& forall|byte: u32, id: u64|
                    !#[trigger] (fresh.shm_locks)(byte).shared.contains(id)
                &&& forall|byte: u32| (#[trigger] (fresh.shm_locks)(byte)).exclusive is None
                &&& !fresh.created
                &&& !vfs_state::is_created(shared, name)
            }
            &&& vfs_state::slot_of(after.files, name) == Some(vfs_state::slot_for(shared, name))
            &&& other != name ==> vfs_state::slot_of(after.files, other) == vfs_state::slot_of(
                shared.files,
                other,
            )
        }),
{
    lemma_last_at(shared.files, name);
    let after = vfs_state::with_file(shared, name);
    let at = last_at(shared.files, name);
    if at >= 0 {
        assert(shared.files[at].0 == name);
    } else {
        assert(after.files.drop_last() =~= shared.files);
        assert(after.states.drop_last() =~= shared.states);
    }
}

/// A file is said to be created here as it was marked last. Its locks and its memory stay,
/// and so do the states of all other files.
pub proof fn law_mark_is_kept_with_the_file(
    shared: SharedModel,
    name: Seq<char>,
    created: bool,
    other: Seq<char>,
    slot: int,
)
    requires
        forall|i: int|
            0 <= i < shared.files.len() ==> 0 <= (#[trigger] shared.files[i]).1
                < shared.states.len(),
        forall|i: int, j: int|
            0 <= i < shared.files.len() && 0 <= j < shared.files.len() && (
            #[trigger] shared.files[i]).1 == (#[trigger] shared.files[j]).1 ==> shared.files[i].0
                == shared.files[j].0,
    ensures
        ({
            let after = vfs_state::marked(shared, name, created);
            &&& vfs_state::is_created(after, name) == created
            &&& other != name ==> vfs_state::is_created(after, other) == vfs_state::is_created(
                shared,
                other,
            )
            &&& 0 <= slot < shared.states.len() ==> after.states[slot].lock
                == shared.states[slot].lock && after.states[slot].shm == shared.states[slot].shm
                && after.states[slot].shm_locks == shared.states[slot].shm_locks
            &&& 0 <= slot < shared.states.len() && slot != vfs_state::slot_for(shared, name)
                ==> after.states[slot] == shared.states[slot]
            &&& after.next_handle_id == shared.next_handle_id
        }),
{
    law_file_gets_a_state_of_its_own(shared, name, other);
    lemma_last_at(shared.files, name);
    lemma_last_at(shared.files, other);
    let at = last_at(shared.files, name);
    let there = last_at(shared.files, other);
    if at >= 0 && there >= 0 {
        assert(shared.files[at].0 == name && shared.files[there].0 == other);
    }
}

/// No two handles in a row have the same number, and numbering a handle touches no file.
pub proof fn law_handles_are_numbered_apart(shared: SharedModel)
    ensures
        ({
            let after = vfs_state::numbered(shared);
            &&& after.files == shared.files && after.states == shared.states
            &&& shared.next_handle_id < u64::MAX ==> after.next_handle_id == shared.next_handle_id
                + 1
            &&& after.next_handle_id != shared.next_handle_id
        }),
{
}

/// Clearing the names of a database takes exactly the names that start as its names do;
/// all other files keep their states.
pub proof fn law_cleared_names_are_those_below(
    files: Seq<(Seq<char>, int)>,
    prefix: Seq<char>,
    rest: Seq<char>,
    other: Seq<char>,
)
    ensures
        ({
            let left = vfs_state::names_apart(files, prefix);
            &&& vfs_state::slot_of(left, prefix + rest) is None
            &&& (forall|tail: Seq<char>| other != #[trigger] (prefix + tail))
                ==> vfs_state::slot_of(left, other) == vfs_state::slot_of(files, other)
        }),
    decreases files.len(),
{
    let name = prefix + rest;
    assert(name.take(prefix.len() as int) =~= prefix);
    if files.len() > 0 {
        let front = files.drop_last();
        law_cleared_names_are_those_below(front, prefix, rest, other);
        let kept = vfs_state::names_apart(front, prefix);
        let last = files.last();
        if vfs_state::is_under(last.0, prefix) {
            assert(last.0 =~= prefix + last.0.skip(prefix.len() as int));
        } else {
            assert(kept.push(last).drop_last() =~= kept);
            assert(last.0 != name);
        }
    }
}

/// The names of the files of a database start with the prefix of that database, and tell
/// its files apart. Those of another database, neither of whose names holds a slash, do
/// not start with it.
pub proof fn law_names_tell_databases_apart(
    root: Seq<char>,
    database: Seq<char>,
    other: Seq<char>,
    path: Seq<char>,
    second: Seq<char>,
    tail: Seq<char>,
)
    ensures
        ({
            let name = vfs_state::file_name_of(root, database, path);
            let prefix = vfs_state::database_prefix_of(root, database);
            &&& name == prefix + path
            &&& vfs_state::is_under(name, prefix)
            &&& name == vfs_state::file_name_of(root, database, second) ==> path == second
            &&& database != other && !database.contains('/') && !other.contains('/')
                ==> vfs_state::file_name_of(root, other, second) != prefix + tail
        }),
{
    let name = vfs_state::file_name_of(root, database, path);
    let prefix = vfs_state::database_prefix_of(root, database);
    assert(name.take(prefix.len() as int) =~= prefix);
    if name == vfs_state::file_name_of(root, database, second) {
        assert(name.skip(prefix.len() as int) =~= path);
        assert(name.skip(prefix.len() as int) =~= second);
    }
    let far = vfs_state::file_name_of(root, other, second);
    if !database.contains('/') && !other.contains('/') && far == prefix + tail {
        reveal_strlit(":");
        reveal_strlit("/");
        let from: int = root.len() as int + 1;
        assert(far[from + other.len()] == '/');
        assert((prefix + tail)[from + database.len()] == '/');
        if other.len() < database.len() {
            assert((prefix + tail)[from + other.len()] == database[other.len() as int]);
        } else if database.len() < other.len() {
            assert(far[from + database.len()] == other[database.len() as int]);
        } else {
            assert forall|i: int| 0 <= i < database.len() implies database[i] == other[i] by {
                assert(far[from + i] == other[i]);
                assert((prefix + tail)[from + i] == database[i]);
            }
            assert(database =~= other);
        }
    }
}

/// A lock that changes is that of one file: everything else of that file stays, and so do
/// all other files.
pub proof fn law_relocking_changes_one_lock(shared: SharedModel, slot: int, lock: LockModel, other: int)
    requires
        0 <= slot < shared.states.len(),
        0 <= other < shared.states.len(),
    ensures
        ({
            let after = vfs_model::relocked(shared, slot, lock);
            &&& after.states[slot].lock == lock
            &&& after.states[slot].shm_locks == shared.states[slot].shm_locks
            &&& after.states[slot].shm == shared.states[slot].shm
            &&& after.states[slot].created == shared.states[slot].created
            &&& other != slot ==> after.states[other] == shared.states[other]
            &&& after.states.len() == shared.states.len()
            &&& after.files == shared.files && after.next_handle_id == shared.next_handle_id
        }),
{
}

/// A handle that lets go of the memory of a file has no lock on a byte of it and no part in
/// it. The locks of others on its bytes stay, and so do the lock on the file, and all other
/// files.
pub proof fn law_leaving_memory_takes_from_nobody(
    shared: SharedModel,
    slot: int,
    id: u64,
    delete: bool,
    byte: u32,
    holder: u64,
    other: int,
)
    requires
        0 <= slot < shared.states.len(),
        0 <= other < shared.states.len(),
        holder != id,
    ensures
        ({
            let after = vfs_model::left(shared, slot, id, delete);
            let was = (shared.states[slot].shm_locks)(byte);
            let now = (after.states[slot].shm_locks)(byte);
            &&& !now.shared.contains(id) && now.exclusive != Some(id)
            &&& now.shared.contains(holder) == was.shared.contains(holder)
            &&& now.exclusive == Some(holder) <==> was.exclusive == Some(holder)
            &&& !after.states[slot].shm.mapped.contains(id)
            &&& after.states[slot].shm.mapped.contains(holder)
                == shared.states[slot].shm.mapped.contains(holder)
            &&& after.states[slot].lock == shared.states[slot].lock
            &&& after.states[slot].created == shared.states[slot].created
            &&& other != slot ==> after.states[other] == shared.states[other]
            &&& after.states.len() == shared.states.len()
            &&& after.files == shared.files && after.next_handle_id == shared.next_handle_id
        }),
{
}

/// A file that was created here is there, and the store is not asked. Any other file is
/// looked for in the store, once and by its path, and is there if the store says so. (`at`
/// is where the file is named last, or `-1`.)
pub proof fn law_store_is_asked_for_other_files(
    vfs: VfsModel,
    name: Seq<char>,
    path: Seq<char>,
    reply: Option<bool>,
    at: int,
)
    requires
        -1 <= at < vfs.shared.files.len(),
        at >= 0 ==> vfs.shared.files[at].0 == name,
        forall|i: int|
            at < i < vfs.shared.files.len() ==> (#[trigger] vfs.shared.files[i]).0 != name,
    ensures
        ({
            let after = vfs_model::looked(vfs, name, path, reply);
            let found = vfs_model::found_file(vfs, name, reply);
            let here = at >= 0 && vfs.shared.states[vfs.shared.files[at].1].created;
            &&& after.handed == vfs.handed
            &&& here ==> found == Some(true) && after.calls == vfs.calls
            &&& !here ==> found == reply && after.calls == vfs.calls.push(
                StoreCall::Exists { path, reply },
            )
        }),
{
    law_state_is_the_last_named(vfs.shared.files, name, at);
}

/// A request that says nothing of whether its file is there leaves what is known of it; one
/// that does say so settles it.
pub proof fn law_settling_records_what_is_said(
    shared: SharedModel,
    name: Seq<char>,
    there: bool,
    other: Seq<char>,
)
    requires
        forall|i: int|
            0 <= i < shared.files.len() ==> 0 <= (#[trigger] shared.files[i]).1
                < shared.states.len(),
        forall|i: int, j: int|
            0 <= i < shared.files.len() && 0 <= j < shared.files.len() && (
            #[trigger] shared.files[i]).1 == (#[trigger] shared.files[j]).1 ==> shared.files[i].0
                == shared.files[j].0,
        other != name,
    ensures
        vfs_model::settled(shared, name, None) == shared,
        vfs_state::is_created(vfs_model::settled(shared, name, Some(there)), name) == there,
        vfs_state::is_created(vfs_model::settled(shared, name, Some(there)), other)
            == vfs_state::is_created(shared, other),
{
    law_mark_is_kept_with_the_file(shared, name, there, other, 0);
}

} // verus!
