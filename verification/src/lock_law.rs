//! What handles may count on when they share a file: who waits for whom, and what a
//! handle that takes or lets go of a lock changes.

use vstd::prelude::*;

use crate::file_lock;
use crate::file_lock::LockModel;
use crate::shm;
use crate::shm::ByteModel;
use crate::shm::ShmModel;
use crate::vfs_model;
use crate::vfs_types::LockLevel;
use crate::vfs_types::ShmLockMode;
use crate::vfs_types::VfsError;

verus! {

/// Whether nobody holds a part of a lock, or the handle itself does.
pub open spec fn free_for(holder: Option<u64>, id: u64) -> bool {
    holder is None || holder == Some(id)
}

/// A handle reads if and only if no other one is about to write or writing. One that has
/// only reserved the file, whoever it is, keeps no reader waiting.
pub proof fn law_readers_wait_for_writers_only(lock: LockModel, id: u64, reserved: Option<u64>)
    ensures
        free_for(lock.pending, id) && free_for(lock.exclusive, id) <==> !file_lock::must_wait(
            lock,
            id,
            LockLevel::Shared,
        ),
        file_lock::must_wait((LockModel { reserved, ..lock }), id, LockLevel::Shared)
            == file_lock::must_wait(lock, id, LockLevel::Shared),
{
}

/// A handle that takes the reservation keeps no reader waiting that would not wait
/// without it, and sends no reader away; once it waits for the readers, no other handle
/// starts to read.
pub proof fn law_reserving_lets_readers_in(lock: LockModel, writer: u64, reader: u64)
    requires
        writer != reader,
    ensures
        !file_lock::must_wait(lock, writer, LockLevel::Reserved) ==> {
            let reserved = file_lock::locked(lock, writer, LockLevel::Reserved);
            &&& file_lock::must_wait(reserved, reader, LockLevel::Shared) == file_lock::must_wait(
                lock,
                reader,
                LockLevel::Shared,
            )
            &&& reserved.shared.contains(reader) == lock.shared.contains(reader)
            &&& file_lock::must_wait(reserved, reader, LockLevel::Reserved)
        },
        !file_lock::must_wait(lock, writer, LockLevel::Pending) ==> {
            let pending = file_lock::locked(lock, writer, LockLevel::Pending);
            &&& file_lock::must_wait(pending, reader, LockLevel::Shared)
            &&& pending.shared.contains(reader) == lock.shared.contains(reader)
        },
{
}

/// A handle reserves a file if and only if no other one has reserved it or is writing;
/// readers, and one that waits for them, are in nobody's way.
pub proof fn law_reserving_waits_for_the_reserved(
    lock: LockModel,
    id: u64,
    shared: Set<u64>,
    pending: Option<u64>,
)
    ensures
        free_for(lock.reserved, id) && free_for(lock.exclusive, id) <==> !file_lock::must_wait(
            lock,
            id,
            LockLevel::Reserved,
        ),
        file_lock::must_wait((LockModel { shared, pending, ..lock }), id, LockLevel::Reserved)
            == file_lock::must_wait(lock, id, LockLevel::Reserved),
{
}

/// A handle gets to wait for the readers if and only if no other one does or is writing;
/// readers, and one that has reserved the file, are not in the way.
pub proof fn law_pending_waits_for_the_pending(
    lock: LockModel,
    id: u64,
    shared: Set<u64>,
    reserved: Option<u64>,
)
    ensures
        free_for(lock.pending, id) && free_for(lock.exclusive, id) <==> !file_lock::must_wait(
            lock,
            id,
            LockLevel::Pending,
        ),
        file_lock::must_wait((LockModel { shared, reserved, ..lock }), id, LockLevel::Pending)
            == file_lock::must_wait(lock, id, LockLevel::Pending),
{
}

/// A handle writes if and only if no other handle has any part of the lock; and nobody
/// waits to be without a lock.
pub proof fn law_writing_waits_for_everybody(lock: LockModel, id: u64)
    ensures
        lock.shared.subset_of(set![id]) && free_for(lock.reserved, id) && free_for(
            lock.pending,
            id,
        ) && free_for(lock.exclusive, id) <==> !file_lock::must_wait(
            lock,
            id,
            LockLevel::Exclusive,
        ),
        !file_lock::must_wait(lock, id, LockLevel::Unlocked),
{
    if !lock.shared.subset_of(set![id]) {
        let other = choose|other: u64| lock.shared.contains(other) && !set![id].contains(other);
        assert(lock.shared.contains(other) && other != id);
    }
}

/// A handle that takes a level has it and what it had before, and no more; what another
/// handle has stays as it is.
pub proof fn law_taking_a_level_adds_to_a_handle(
    lock: LockModel,
    id: u64,
    level: LockLevel,
    other: u64,
)
    requires
        !file_lock::must_wait(lock, id, level),
        other != id,
    ensures
        ({
            let after = file_lock::locked(lock, id, level);
            &&& after.shared.contains(id) <==> lock.shared.contains(id) || level != (
            LockLevel::Unlocked)
            &&& after.reserved == Some(id) <==> lock.reserved == Some(id) || level
                == LockLevel::Reserved || level == LockLevel::Exclusive
            &&& after.pending == Some(id) <==> lock.pending == Some(id) || level
                == LockLevel::Pending || level == LockLevel::Exclusive
            &&& after.exclusive == Some(id) <==> lock.exclusive == Some(id) || level
                == LockLevel::Exclusive
            &&& after.shared.contains(other) <==> lock.shared.contains(other)
            &&& after.reserved == Some(other) <==> lock.reserved == Some(other)
            &&& after.pending == Some(other) <==> lock.pending == Some(other)
            &&& after.exclusive == Some(other) <==> lock.exclusive == Some(other)
        }),
{
}

/// A handle that goes down to a level that it has keeps this level and what lies below it,
/// and nothing above; what another handle has stays as it is.
pub proof fn law_going_down_keeps_the_level(
    lock: LockModel,
    id: u64,
    level: LockLevel,
    other: u64,
)
    requires
        level == LockLevel::Reserved ==> lock.reserved == Some(id),
        level == LockLevel::Pending ==> lock.pending == Some(id),
        level != LockLevel::Unlocked ==> lock.shared.contains(id),
        other != id,
    ensures
        ({
            let after = file_lock::unlocked(lock, id, level);
            &&& after.shared.contains(id) <==> level != LockLevel::Unlocked
            &&& after.reserved == Some(id) <==> match level {
                LockLevel::Unlocked | LockLevel::Shared => false,
                LockLevel::Reserved | LockLevel::Exclusive => lock.reserved == Some(id),
                LockLevel::Pending => free_for(lock.reserved, id),
            }
            &&& after.pending == Some(id) <==> (level == LockLevel::Pending || level
                == LockLevel::Exclusive) && lock.pending == Some(id)
            &&& after.exclusive == Some(id) <==> level == LockLevel::Exclusive && lock.exclusive
                == Some(id)
            &&& after.shared.contains(other) <==> lock.shared.contains(other)
            &&& after.reserved == Some(other) <==> lock.reserved == Some(other)
            &&& after.pending == Some(other) <==> lock.pending == Some(other)
            &&& after.exclusive == Some(other) <==> lock.exclusive == Some(other)
        }),
{
}

/// A handle that lets go has no part of the lock, and the others have what they had: what
/// a handle takes and lets go of leaves the lock as it was.
pub proof fn law_letting_go_undoes_taking(
    lock: LockModel,
    id: u64,
    level: LockLevel,
    other: u64,
)
    requires
        other != id,
    ensures
        ({
            let after = file_lock::released(lock, id);
            &&& !after.shared.contains(id)
            &&& after.reserved != Some(id) && after.pending != Some(id) && after.exclusive != Some(
                id,
            )
            &&& after.shared.contains(other) <==> lock.shared.contains(other)
            &&& after.reserved == Some(other) <==> lock.reserved == Some(other)
            &&& after.pending == Some(other) <==> lock.pending == Some(other)
            &&& after.exclusive == Some(other) <==> lock.exclusive == Some(other)
        }),
        file_lock::unlocked(lock, id, LockLevel::Unlocked) == file_lock::released(lock, id),
        !lock.shared.contains(id) && lock.reserved != Some(id) && lock.pending != Some(id)
            && lock.exclusive != Some(id) && !file_lock::must_wait(lock, id, level)
            ==> file_lock::released(file_lock::locked(lock, id, level), id) == lock,
{
    if !lock.shared.contains(id) {
        assert(lock.shared.insert(id).remove(id) =~= lock.shared);
        assert(lock.shared.remove(id) =~= lock.shared);
    }
    if !lock.shared.contains(id) && lock.reserved != Some(id) && lock.pending != Some(id)
        && lock.exclusive != Some(id) && !file_lock::must_wait(lock, id, level) {
        law_writing_waits_for_everybody(lock, id);
        assert(file_lock::released(file_lock::locked(lock, id, level), id) =~= lock);
    }
}

/// A byte of the shared memory is locked for reading if and only if no other handle writes
/// it, and for writing if and only if no other one reads or writes it; nobody waits to let
/// go.
pub proof fn law_bytes_wait_for_other_handles(lock: ByteModel, id: u64)
    ensures
        free_for(lock.exclusive, id) <==> !shm::byte_must_wait(lock, id, ShmLockMode::LockShared),
        free_for(lock.exclusive, id) && lock.shared.subset_of(set![id]) <==> !shm::byte_must_wait(
            lock,
            id,
            ShmLockMode::LockExclusive,
        ),
        !shm::byte_must_wait(lock, id, ShmLockMode::UnlockShared),
        !shm::byte_must_wait(lock, id, ShmLockMode::UnlockExclusive),
{
    if !lock.shared.subset_of(set![id]) {
        let other = choose|other: u64| lock.shared.contains(other) && !set![id].contains(other);
        assert(lock.shared.contains(other) && other != id);
    }
}

/// Locking a byte gives it to the handle, for reading or for writing, and letting go takes
/// that away; what another handle has of the byte stays as it is.
pub proof fn law_byte_locks_belong_to_handles(
    lock: ByteModel,
    id: u64,
    mode: ShmLockMode,
    other: u64,
)
    requires
        !shm::byte_must_wait(lock, id, mode),
        other != id,
    ensures
        ({
            let after = shm::byte_after(lock, id, mode);
            let gone = shm::byte_released(lock, id);
            &&& after.shared.contains(id) <==> match mode {
                ShmLockMode::LockShared => true,
                ShmLockMode::LockExclusive | ShmLockMode::UnlockShared => false,
                ShmLockMode::UnlockExclusive => lock.shared.contains(id),
            }
            &&& after.exclusive == Some(id) <==> match mode {
                ShmLockMode::LockExclusive => true,
                ShmLockMode::UnlockExclusive => false,
                ShmLockMode::LockShared | ShmLockMode::UnlockShared => lock.exclusive == Some(id),
            }
            &&& !gone.shared.contains(id) && gone.exclusive != Some(id)
            &&& after.shared.contains(other) <==> lock.shared.contains(other)
            &&& after.exclusive == Some(other) <==> lock.exclusive == Some(other)
            &&& gone.shared.contains(other) <==> lock.shared.contains(other)
            &&& gone.exclusive == Some(other) <==> lock.exclusive == Some(other)
        }),
{
}

/// Locking a range is done for all of its bytes or for none: it waits if and only if it
/// would wait for one of them, no byte outside it changes, and a range without bytes is
/// always locked.
pub proof fn law_ranges_are_locked_whole(
    locks: spec_fn(u32) -> ByteModel,
    id: u64,
    offset: u32,
    count: u32,
    mode: ShmLockMode,
    byte: u32,
)
    ensures
        ({
            let outcome = shm::range_outcome(locks, id, offset, count, mode);
            let after = shm::range_after(locks, id, offset, count, mode);
            let within = offset <= byte < offset + count;
            &&& count == 0 ==> outcome == Ok::<(), VfsError>(())
            &&& count > 0 && offset + count > u32::MAX <==> outcome == Err::<(), VfsError>(
                VfsError::IoErrShmLock,
            )
            &&& within && shm::byte_must_wait(locks(byte), id, mode) ==> outcome is Err
            &&& outcome == Err::<(), VfsError>(VfsError::Busy) ==> exists|busy: u32|
                offset <= busy < offset + count && #[trigger] shm::byte_must_wait(
                    locks(busy),
                    id,
                    mode,
                )
            &&& outcome is Err ==> after(byte) == locks(byte)
            &&& outcome is Ok && !within ==> after(byte) == locks(byte)
            &&& outcome is Ok && within ==> after(byte) == shm::byte_after(locks(byte), id, mode)
        }),
{
    let outcome = shm::range_outcome(locks, id, offset, count, mode);
    if outcome == Err::<(), VfsError>(VfsError::Busy) {
        assert(shm::some_must_wait(locks, offset as int, offset + count, id, mode));
    }
}

/// A region of the shared memory that a handle maps has the size that was asked for, and is
/// the same for every handle: mapping changes no byte of a region that is there, adds
/// regions only when asked to, and what it adds is zero.
pub proof fn law_mapping_keeps_the_memory(
    before: ShmModel,
    after: ShmModel,
    id: u64,
    region: usize,
    size: usize,
    extend: bool,
    mapped: Result<Option<usize>, VfsError>,
    at: int,
)
    requires
        vfs_model::maps(before, after, id, region, size, extend, mapped),
    ensures
        size == 0 ==> mapped is Err,
        mapped matches Ok(Some(found)) ==> found == region && region < after.regions.len()
            && after.regions[region as int].len() == size && after.mapped.contains(id),
        !(mapped matches Ok(Some(_))) ==> after == before,
        before.regions.len() <= after.regions.len(),
        0 <= at < before.regions.len() ==> after.regions[at] == before.regions[at],
        !extend ==> after.regions == before.regions,
        before.regions.len() <= at < after.regions.len() ==> at <= region && after.regions[at]
            == Seq::new(size as nat, |i: int| 0u8),
        size > 0 && region < before.regions.len() ==> (mapped matches Ok(Some(_))) == (
        before.regions[region as int].len() == size),
        size > 0 && region >= before.regions.len() ==> (if extend {
            mapped matches Ok(Some(_))
        } else {
            mapped == Ok::<Option<usize>, VfsError>(None)
        }),
        forall|other: u64|
            other != id ==> #[trigger] after.mapped.contains(other) == before.mapped.contains(
                other,
            ),
{
}

/// A handle that unmaps the memory has no part in it any more. The memory goes away only
/// when this was asked for and no other handle has it mapped.
pub proof fn law_unmapping_waits_for_the_last(
    memory: ShmModel,
    id: u64,
    delete: bool,
    other: u64,
)
    requires
        other != id,
    ensures
        ({
            let after = vfs_model::unmapped(memory, id, delete);
            &&& !after.mapped.contains(id)
            &&& after.mapped.contains(other) <==> memory.mapped.contains(other)
            &&& !delete || memory.mapped.contains(other) ==> after.regions == memory.regions
            &&& delete && memory.mapped.subset_of(set![id]) ==> after.regions.len() == 0
            &&& after.regions == memory.regions || after.regions.len() == 0
        }),
{
    if memory.mapped.contains(other) {
        assert(memory.mapped.remove(id).contains(other));
    }
    if memory.mapped.subset_of(set![id]) {
        assert(memory.mapped.remove(id) =~= Set::empty());
    }
}

} // verus!
