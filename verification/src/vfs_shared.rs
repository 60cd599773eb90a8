//! How a handle changes what it shares with the other handles of its file.

use vstd::prelude::*;

use crate::file_lock;
use crate::shm;
use crate::vfs_model;
use crate::vfs_state;
use crate::vfs_state::StateModel;
use crate::vfs_state::VfsSharedState;
use crate::vfs_types::LockLevel;
use crate::vfs_types::ShmLockMode;
use crate::vfs_types::VfsError;

verus! {

impl VfsSharedState {
    /// What stays when one state changes.
    proof fn lemma_one_state(before: VfsSharedState, after: VfsSharedState, slot: int)
        requires
            before.wf(),
            0 <= slot < before.states@.len(),
            after.files == before.files,
            after.next_handle_id == before.next_handle_id,
            after.states@ == before.states@.update(slot, after.states@[slot]),
            after.states@[slot].shm_lock.wf(),
        ensures
            after.wf(),
            after@ == vfs_state::with_state(before@, slot, after.states@[slot]@),
    {
        assert forall|i: int| 0 <= i < after.states@.len() implies (
        #[trigger] after.states@[i]).shm_lock.wf() by {
            if i != slot {
                assert(after.states@[i] == before.states@[i]);
            }
        }
        assert(after@.states =~= before@.states.update(slot, after.states@[slot]@));
        assert(after@.files =~= before@.files);
    }

    /// Takes the lock of a file for a handle.
    pub fn take_lock(&mut self, slot: usize, id: u64, level: LockLevel) -> (taken: Result<(), VfsError>)
        requires
            old(self).wf(),
            slot < old(self).states@.len(),
        ensures
            final(self).wf(),
            final(self).states@.len() == old(self).states@.len(),
            ({
                let lock = old(self)@.states[slot as int].lock;
                if file_lock::must_wait(lock, id, level) {
                    taken == Err::<(), VfsError>(VfsError::Busy) && final(self)@ == old(self)@
                } else {
                    taken is Ok && final(self)@ == vfs_model::relocked(
                        old(self)@,
                        slot as int,
                        file_lock::locked(lock, id, level),
                    )
                }
            }),
    {
        let ghost before = *self;
        let taken = self.states[slot].file_lock.lock_file(id, level);
        proof {
            VfsSharedState::lemma_one_state(before, *self, slot as int);
            let state = before@.states[slot as int];
            assert(self.states@[slot as int]@ =~= (StateModel {
                lock: self.states@[slot as int].file_lock@,
                ..state
            }));
            if taken is Err {
                assert(before@.states.update(slot as int, state) =~= before@.states);
            }
        }
        taken
    }

    /// Lets the lock of a file go, down to a level.
    pub fn lower_lock(&mut self, slot: usize, id: u64, level: LockLevel)
        requires
            old(self).wf(),
            slot < old(self).states@.len(),
        ensures
            final(self).wf(),
            final(self).states@.len() == old(self).states@.len(),
            final(self)@ == vfs_model::relocked(
                old(self)@,
                slot as int,
                file_lock::unlocked(old(self)@.states[slot as int].lock, id, level),
            ),
    {
        let ghost before = *self;
        self.states[slot].file_lock.unlock_file(id, level);
        proof {
            VfsSharedState::lemma_one_state(before, *self, slot as int);
            assert(self.states@[slot as int]@ =~= (StateModel {
                lock: self.states@[slot as int].file_lock@,
                ..before@.states[slot as int]
            }));
        }
    }

    /// Lets a handle let go of the lock of a file.
    pub fn release_lock(&mut self, slot: usize, id: u64)
        requires
            old(self).wf(),
            slot < old(self).states@.len(),
        ensures
            final(self).wf(),
            final(self).states@.len() == old(self).states@.len(),
            final(self)@ == vfs_model::relocked(
                old(self)@,
                slot as int,
                file_lock::released(old(self)@.states[slot as int].lock, id),
            ),
    {
        let ghost before = *self;
        self.states[slot].file_lock.release_file_locks(id);
        proof {
            VfsSharedState::lemma_one_state(before, *self, slot as int);
            assert(self.states@[slot as int]@ =~= (StateModel {
                lock: self.states@[slot as int].file_lock@,
                ..before@.states[slot as int]
            }));
        }
    }

    /// Lets a handle let go of the shared memory of a file.
    pub fn release_memory(&mut self, slot: usize, id: u64, delete: bool)
        requires
            old(self).wf(),
            slot < old(self).states@.len(),
        ensures
            final(self).wf(),
            final(self).states@.len() == old(self).states@.len(),
            final(self)@ == vfs_model::left(old(self)@, slot as int, id, delete),
    {
        let ghost before = *self;
        self.states[slot].shm_lock.release_shm_locks(id);
        self.states[slot].shm.release_shm_mapping(id, delete);
        proof {
            let state = before@.states[slot as int];
            assert(self.states@ =~= before.states@.update(
                slot as int,
                self.states@[slot as int],
            ));
            VfsSharedState::lemma_one_state(before, *self, slot as int);
            assert(self.states@[slot as int]@ =~= (StateModel {
                shm_locks: |byte: u32| shm::byte_released((state.shm_locks)(byte), id),
                shm: vfs_model::unmapped(state.shm, id, delete),
                ..state
            }));
        }
    }

    /// Maps a region of the shared memory of a file.
    pub fn map_memory(&mut self, slot: usize, id: u64, region: usize, size: usize, extend: bool) -> (
        mapped: Result<Option<usize>, VfsError>)
        requires
            old(self).wf(),
            slot < old(self).states@.len(),
            region < usize::MAX,
        ensures
            final(self).wf(),
            final(self).states@.len() == old(self).states@.len(),
            vfs_model::maps(
                old(self)@.states[slot as int].shm,
                final(self)@.states[slot as int].shm,
                id,
                region,
                size,
                extend,
                mapped,
            ),
            final(self)@ == vfs_state::with_state(
                old(self)@,
                slot as int,
                StateModel {
                    shm: final(self)@.states[slot as int].shm,
                    ..old(self)@.states[slot as int]
                },
            ),
    {
        let ghost before = *self;
        let mapped = self.states[slot].shm.shm_map(id, region, size, extend);
        proof {
            VfsSharedState::lemma_one_state(before, *self, slot as int);
            assert(self.states@[slot as int]@ =~= (StateModel {
                shm: self.states@[slot as int].shm@,
                ..before@.states[slot as int]
            }));
        }
        mapped
    }

    /// Takes or lets go of the locks on a range of the shared memory of a file.
    pub fn lock_memory(&mut self, slot: usize, id: u64, offset: u32, count: u32, mode: ShmLockMode) -> (
        done: Result<(), VfsError>)
        requires
            old(self).wf(),
            slot < old(self).states@.len(),
        ensures
            final(self).wf(),
            final(self).states@.len() == old(self).states@.len(),
            ({
                let state = old(self)@.states[slot as int];
                &&& done == shm::range_outcome(state.shm_locks, id, offset, count, mode)
                &&& final(self)@ == vfs_state::with_state(
                    old(self)@,
                    slot as int,
                    StateModel {
                        shm_locks: shm::range_after(state.shm_locks, id, offset, count, mode),
                        ..state
                    },
                )
            }),
    {
        let ghost before = *self;
        let done = self.states[slot].shm_lock.shm_lock_range(id, offset, count, mode);
        proof {
            let state = before@.states[slot as int];
            VfsSharedState::lemma_one_state(before, *self, slot as int);
            let was = before.states@[slot as int].shm_lock;
            assert forall|byte: u32| #[trigger] was.at(byte) == (state.shm_locks)(byte) by {}
            assert(was.range_must_wait(offset as int, offset + count, id, mode)
                == shm::some_must_wait(state.shm_locks, offset as int, offset + count, id, mode))
                by {
                if was.range_must_wait(offset as int, offset + count, id, mode) {
                    let byte = choose|byte: u32|
                        offset <= byte < offset + count && #[trigger] shm::byte_must_wait(
                            was.at(byte),
                            id,
                            mode,
                        );
                    assert(shm::byte_must_wait((state.shm_locks)(byte), id, mode));
                }
                if shm::some_must_wait(state.shm_locks, offset as int, offset + count, id, mode) {
                    let byte = choose|byte: u32|
                        offset <= byte < offset + count && #[trigger] shm::byte_must_wait(
                            (state.shm_locks)(byte),
                            id,
                            mode,
                        );
                    assert(shm::byte_must_wait(was.at(byte), id, mode));
                }
            }
            assert(self.states@[slot as int]@.shm_locks =~= shm::range_after(
                state.shm_locks,
                id,
                offset,
                count,
                mode,
            ));
            assert(self.states@[slot as int]@ =~= (StateModel {
                shm_locks: shm::range_after(state.shm_locks, id, offset, count, mode),
                ..state
            }));
        }
        done
    }
}

} // verus!
