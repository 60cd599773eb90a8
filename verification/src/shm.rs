//! The shared memory of a database file: its locks, byte by byte, and its regions.

use vstd::prelude::*;

use crate::bytes::zero_bytes;
use crate::file_lock;
use crate::holders::Holders;
use crate::vfs_types::ShmLockMode;
use crate::vfs_types::VfsError;

verus! {

/// Who holds the lock on one byte.
#[derive(Debug, Clone, PartialEq, Eq)]
pub struct ShmByteLock {
    byte: u32,
    shared_holders: Holders,
    exclusive_holder: Option<u64>,
}

/// The model of the lock on one byte.
#[verifier::ext_equal]
pub struct ByteModel {
    pub shared: Set<u64>,
    pub exclusive: Option<u64>,
}

/// A lock that nobody holds.
pub open spec fn unheld_byte() -> ByteModel {
    ByteModel { shared: Set::empty(), exclusive: None }
}

impl View for ShmByteLock {
    type V = ByteModel;

    closed spec fn view(&self) -> ByteModel {
        ByteModel { shared: self.shared_holders@, exclusive: self.exclusive_holder }
    }
}

/// The locks on the bytes of the shared memory of a file.
#[derive(Debug, Clone, PartialEq, Eq)]
pub struct ShmLockState {
    bytes: Vec<ShmByteLock>,
}

impl Default for ShmLockState {
    fn default() -> (lock: ShmLockState)
        ensures
            lock.wf(),
            forall|byte: u32| #[trigger] lock.at(byte) == unheld_byte(),
    {
        ShmLockState { bytes: Vec::new() }
    }
}

/// Whether a handle has to wait for a byte.
pub open spec fn byte_must_wait(lock: ByteModel, id: u64, mode: ShmLockMode) -> bool {
    match mode {
        ShmLockMode::LockShared => file_lock::is_other(lock.exclusive, id),
        ShmLockMode::LockExclusive => file_lock::is_other(lock.exclusive, id)
            || file_lock::has_other(lock.shared, id),
        ShmLockMode::UnlockShared => false,
        ShmLockMode::UnlockExclusive => false,
    }
}

/// The lock on a byte once a handle has taken it or let it go.
pub open spec fn byte_after(lock: ByteModel, id: u64, mode: ShmLockMode) -> ByteModel {
    match mode {
        ShmLockMode::LockShared => ByteModel { shared: lock.shared.insert(id), ..lock },
        ShmLockMode::LockExclusive => ByteModel {
            shared: lock.shared.remove(id),
            exclusive: Some(id),
        },
        ShmLockMode::UnlockShared => ByteModel { shared: lock.shared.remove(id), ..lock },
        ShmLockMode::UnlockExclusive => ByteModel {
            exclusive: file_lock::let_go(lock.exclusive, id),
            ..lock
        },
    }
}

/// The lock on a byte once a handle has let go of everything.
pub open spec fn byte_released(lock: ByteModel, id: u64) -> ByteModel {
    ByteModel { shared: lock.shared.remove(id), exclusive: file_lock::let_go(lock.exclusive, id) }
}

/// Whether a handle has to wait for one of some bytes.
pub open spec fn some_must_wait(
    locks: spec_fn(u32) -> ByteModel,
    from: int,
    to: int,
    id: u64,
    mode: ShmLockMode,
) -> bool {
    exists|byte: u32| from <= byte < to && #[trigger] byte_must_wait(locks(byte), id, mode)
}

/// Whether locks on a range of bytes can be taken or let go.
pub open spec fn range_outcome(
    locks: spec_fn(u32) -> ByteModel,
    id: u64,
    offset: u32,
    count: u32,
    mode: ShmLockMode,
) -> Result<(), VfsError> {
    if count > 0 && offset + count > u32::MAX {
        Err(VfsError::IoErrShmLock)
    } else if some_must_wait(locks, offset as int, offset + count, id, mode) {
        Err(VfsError::Busy)
    } else {
        Ok(())
    }
}

/// The locks once a handle has taken or let go those on a range of bytes: all of them,
/// or none where the handle has to wait for one.
pub open spec fn range_after(
    locks: spec_fn(u32) -> ByteModel,
    id: u64,
    offset: u32,
    count: u32,
    mode: ShmLockMode,
) -> spec_fn(u32) -> ByteModel {
    let done = range_outcome(locks, id, offset, count, mode) is Ok;
    |byte: u32|
        if done && offset <= byte < offset + count {
            byte_after(locks(byte), id, mode)
        } else {
            locks(byte)
        }
}

impl ShmByteLock {
    fn is_empty(&self) -> (empty: bool)
        ensures
            empty == (self@ == unheld_byte()),
    {
        self.shared_holders.is_empty() && self.exclusive_holder.is_none()
    }

    fn waits(&self, id: u64, mode: ShmLockMode) -> (waits: bool)
        ensures
            waits == byte_must_wait(self@, id, mode),
    {
        let other = match self.exclusive_holder {
            Some(holder) => holder != id,
            None => false,
        };
        match mode {
            ShmLockMode::LockShared => other,
            ShmLockMode::LockExclusive => other || self.shared_holders.has_other(id),
            _ => false,
        }
    }

    fn change(&mut self, id: u64, mode: ShmLockMode)
        ensures
            final(self).byte == old(self).byte,
            final(self)@ == byte_after(old(self)@, id, mode),
    {
        match mode {
            ShmLockMode::LockShared => {
                self.shared_holders.insert(id);
            },
            ShmLockMode::LockExclusive => {
                self.shared_holders.remove(id);
                self.exclusive_holder = Some(id);
            },
            ShmLockMode::UnlockShared => {
                self.shared_holders.remove(id);
            },
            ShmLockMode::UnlockExclusive => {
                self.let_go(id);
            },
        }
    }

    fn let_go(&mut self, id: u64)
        ensures
            final(self).byte == old(self).byte,
            final(self).shared_holders == old(self).shared_holders,
            final(self).exclusive_holder == file_lock::let_go(old(self).exclusive_holder, id),
    {
        if let Some(holder) = self.exclusive_holder {
            if holder == id {
                self.exclusive_holder = None;
            }
        }
    }
}

impl ShmLockState {
    /// Whether the state is well formed: each byte is there once, and only if it is
    /// held.
    pub closed spec fn wf(&self) -> bool {
        &&& forall|i: int, j: int|
            0 <= i < j < self.bytes@.len() ==> (#[trigger] self.bytes@[i]).byte != (
            #[trigger] self.bytes@[j]).byte
        &&& forall|i: int| 0 <= i < self.bytes@.len() ==> (#[trigger] self.bytes@[i])@ != unheld_byte()
    }

    spec fn is_listed(&self, byte: u32) -> bool {
        exists|i: int| 0 <= i < self.bytes@.len() && (#[trigger] self.bytes@[i]).byte == byte
    }

    spec fn position(&self, byte: u32) -> int {
        choose|i: int| 0 <= i < self.bytes@.len() && (#[trigger] self.bytes@[i]).byte == byte
    }

    /// The lock on a byte.
    pub closed spec fn at(&self, byte: u32) -> ByteModel {
        if self.is_listed(byte) {
            self.bytes@[self.position(byte)]@
        } else {
            unheld_byte()
        }
    }

    proof fn lemma_at(&self, i: int)
        requires
            self.wf(),
            0 <= i < self.bytes@.len(),
        ensures
            self.at(self.bytes@[i].byte) == self.bytes@[i]@,
    {
        let byte = self.bytes@[i].byte;
        assert(self.is_listed(byte));
        let k = self.position(byte);
        assert(k == i);
    }

    fn find(&self, byte: u32) -> (found: Option<usize>)
        requires
            self.wf(),
        ensures
            match found {
                Some(i) => i < self.bytes@.len() && self.bytes@[i as int].byte == byte
                    && self.bytes@[i as int]@ == self.at(byte),
                None => !self.is_listed(byte),
            },
    {
        let mut i: usize = 0;
        while i < self.bytes.len()
            invariant
                self.wf(),
                i <= self.bytes@.len(),
                forall|k: int| 0 <= k < i ==> (#[trigger] self.bytes@[k]).byte != byte,
            decreases self.bytes@.len() - i,
        {
            if self.bytes[i].byte == byte {
                proof {
                    self.lemma_at(i as int);
                }
                return Some(i);
            }
            i = i + 1;
        }
        None
    }

    fn byte_waits(&self, byte: u32, id: u64, mode: ShmLockMode) -> (waits: bool)
        requires
            self.wf(),
        ensures
            waits == byte_must_wait(self.at(byte), id, mode),
    {
        match self.find(byte) {
            Some(i) => self.bytes[i].waits(id, mode),
            None => {
                assert(!file_lock::has_other(Set::<u64>::empty(), id));
                false
            },
        }
    }

    /// Takes the lock of a byte out.
    fn take(&mut self, byte: u32) -> (lock: ShmByteLock)
        requires
            old(self).wf(),
        ensures
            final(self).wf(),
            lock.byte == byte,
            lock@ == old(self).at(byte),
            !final(self).is_listed(byte),
            forall|other: u32|
                other != byte ==> #[trigger] final(self).at(other) == old(self).at(other),
    {
        let ghost before = *self;
        match self.find(byte) {
            Some(i) => {
                let lock = self.bytes.remove(i);
                proof {
                    let at = i as int;
                    assert forall|k: int| 0 <= k < self.bytes@.len() implies (
                    #[trigger] self.bytes@[k]) == before.bytes@[if k < at {
                        k
                    } else {
                        k + 1
                    }] by {}
                    assert(self.wf());
                    assert forall|k: int| 0 <= k < self.bytes@.len() implies (
                    #[trigger] self.bytes@[k]).byte != byte by {}
                    assert forall|other: u32| other != byte implies #[trigger] self.at(other)
                        == before.at(other) by {
                        if self.is_listed(other) {
                            let k = self.position(other);
                            let m = if k < at {
                                k
                            } else {
                                k + 1
                            };
                            assert(self.bytes@[k] == before.bytes@[m]);
                            before.lemma_at(m);
                            self.lemma_at(k);
                        } else if before.is_listed(other) {
                            let m = before.position(other);
                            let k = if m < at {
                                m
                            } else {
                                m - 1
                            };
                            assert(self.bytes@[k] == before.bytes@[m]);
                        }
                    }
                }
                lock
            },
            None => ShmByteLock { byte, shared_holders: Holders::new(), exclusive_holder: None },
        }
    }

    /// Puts the lock of a byte in, if it is held.
    fn put(&mut self, lock: ShmByteLock)
        requires
            old(self).wf(),
            !old(self).is_listed(lock.byte),
        ensures
            final(self).wf(),
            final(self).at(lock.byte) == lock@,
            forall|other: u32|
                other != lock.byte ==> #[trigger] final(self).at(other) == old(self).at(other),
            forall|other: u32| #[trigger]
                final(self).is_listed(other) ==> other == lock.byte || old(self).is_listed(other),
    {
        if lock.is_empty() {
            return;
        }
        let ghost before = *self;
        let ghost byte = lock.byte;
        self.bytes.push(lock);
        proof {
            let at = before.bytes@.len() as int;
            assert forall|k: int| 0 <= k < at implies (#[trigger] self.bytes@[k])
                == before.bytes@[k] by {}
            assert(self.wf());
            self.lemma_at(at);
            assert forall|other: u32| #[trigger] self.is_listed(other) implies other == byte
                || before.is_listed(other) by {
                let k = self.position(other);
                if k < at {
                    assert(self.bytes@[k] == before.bytes@[k]);
                }
            }
            assert forall|other: u32| other != byte implies #[trigger] self.at(other)
                == before.at(other) by {
                if self.is_listed(other) {
                    let k = self.position(other);
                    assert(self.bytes@[k] == before.bytes@[k]);
                    before.lemma_at(k);
                    self.lemma_at(k);
                } else if before.is_listed(other) {
                    let m = before.position(other);
                    assert(self.bytes@[m] == before.bytes@[m]);
                }
            }
        }
    }

    /// Whether a handle has to wait for one of some bytes.
    pub open spec fn range_must_wait(&self, from: int, to: int, id: u64, mode: ShmLockMode) -> bool {
        exists|byte: u32| from <= byte < to && #[trigger] byte_must_wait(self.at(byte), id, mode)
    }

    /// Takes the locks on a range of bytes for a handle, or lets them go: all of them,
    /// or none where the handle has to wait for one.
    pub fn shm_lock_range(&mut self, id: u64, offset: u32, count: u32, mode: ShmLockMode) -> (done:
        Result<(), VfsError>)
        requires
            old(self).wf(),
        ensures
            final(self).wf(),
            done == if count > 0 && offset + count > u32::MAX {
                Err::<(), VfsError>(VfsError::IoErrShmLock)
            } else if old(self).range_must_wait(offset as int, offset + count, id, mode) {
                Err::<(), VfsError>(VfsError::Busy)
            } else {
                Ok::<(), VfsError>(())
            },
            forall|byte: u32| #[trigger]
                final(self).at(byte) == if done is Ok && offset <= byte < offset + count {
                    byte_after(old(self).at(byte), id, mode)
                } else {
                    old(self).at(byte)
                },
    {
        if count == 0 {
            return Ok(());
        }
        let end: u32 = match offset.checked_add(count) {
            Some(end) => end,
            None => return Err(VfsError::IoErrShmLock),
        };
        let mut byte: u32 = offset;
        while byte < end
            invariant
                *self == *old(self),
                self.wf(),
                offset <= byte <= end,
                end == offset + count,
                !self.range_must_wait(offset as int, byte as int, id, mode),
            decreases end - byte,
        {
            if self.byte_waits(byte, id, mode) {
                assert(self.range_must_wait(offset as int, offset + count, id, mode));
                return Err(VfsError::Busy);
            }
            byte = byte + 1;
        }
        let mut at: u32 = offset;
        while at < end
            invariant
                self.wf(),
                offset <= at <= end,
                end == offset + count,
                forall|other: u32| #[trigger]
                    self.at(other) == if offset <= other < at {
                        byte_after(old(self).at(other), id, mode)
                    } else {
                        old(self).at(other)
                    },
            decreases end - at,
        {
            let mut lock = self.take(at);
            lock.change(id, mode);
            self.put(lock);
            at = at + 1;
        }
        Ok(())
    }

    /// Lets a handle let go of all bytes.
    pub fn release_shm_locks(&mut self, id: u64)
        requires
            old(self).wf(),
        ensures
            final(self).wf(),
            forall|byte: u32| #[trigger]
                final(self).at(byte) == byte_released(old(self).at(byte), id),
    {
        let ghost before = *self;
        let mut left = ShmLockState { bytes: Vec::new() };
        let mut i: usize = 0;
        while i < self.bytes.len()
            invariant
                *self == before,
                before == *old(self),
                before.wf(),
                left.wf(),
                i <= self.bytes@.len(),
                forall|byte: u32| #[trigger]
                    left.at(byte) == if (exists|k: int|
                        0 <= k < i && (#[trigger] before.bytes@[k]).byte == byte) {
                        byte_released(before.at(byte), id)
                    } else {
                        unheld_byte()
                    },
                forall|k: int|
                    i <= k < before.bytes@.len() ==> !left.is_listed(
                        (#[trigger] before.bytes@[k]).byte,
                    ),
            decreases self.bytes@.len() - i,
        {
            let ghost so_far = left;
            let held = &self.bytes[i];
            let ghost byte = held.byte;
            let mut lock = ShmByteLock {
                byte: held.byte,
                shared_holders: held.shared_holders.copy(),
                exclusive_holder: held.exclusive_holder,
            };
            lock.shared_holders.remove(id);
            lock.let_go(id);
            proof {
                before.lemma_at(i as int);
                assert(!left.is_listed(before.bytes@[i as int].byte));
            }
            left.put(lock);
            proof {
                assert forall|other: u32| #[trigger] left.at(other) == if (exists|k: int|
                    0 <= k < i + 1 && (#[trigger] before.bytes@[k]).byte == other) {
                    byte_released(before.at(other), id)
                } else {
                    unheld_byte()
                } by {
                    if other == byte {
                        assert(before.bytes@[i as int].byte == other);
                    } else {
                        assert(left.at(other) == so_far.at(other));
                        if exists|k: int| 0 <= k < i + 1 && (#[trigger] before.bytes@[k]).byte
                            == other {
                            let k = choose|k: int|
                                0 <= k < i + 1 && (#[trigger] before.bytes@[k]).byte == other;
                            assert(0 <= k < i && before.bytes@[k].byte == other);
                        }
                    }
                }
                assert forall|k: int| i + 1 <= k < before.bytes@.len() implies !left.is_listed(
                    (#[trigger] before.bytes@[k]).byte,
                ) by {
                    assert(!so_far.is_listed(before.bytes@[k].byte));
                    assert(before.bytes@[i as int].byte != before.bytes@[k].byte);
                }
            }
            i = i + 1;
        }
        proof {
            assert forall|byte: u32| #[trigger] left.at(byte) == byte_released(
                before.at(byte),
                id,
            ) by {
                if before.is_listed(byte) {
                    let k = before.position(byte);
                    assert(0 <= k < i && before.bytes@[k].byte == byte);
                } else {
                    assert(byte_released(unheld_byte(), id) =~= unheld_byte());
                }
            }
        }
        *self = left;
    }
}

/// The regions of the shared memory of a file, and the handles that map them.
#[derive(Debug, Clone, PartialEq, Eq)]
pub struct ShmRegionState {
    regions: Vec<Vec<u8>>,
    mapped_holders: Holders,
}

/// The model of shared memory.
#[verifier::ext_equal]
pub struct ShmModel {
    pub regions: Seq<Seq<u8>>,
    pub mapped: Set<u64>,
}

impl View for ShmRegionState {
    type V = ShmModel;

    closed spec fn view(&self) -> ShmModel {
        ShmModel {
            regions: Seq::new(self.regions@.len(), |i: int| self.regions@[i]@),
            mapped: self.mapped_holders@,
        }
    }
}

/// Shared memory that nobody has mapped.
pub open spec fn no_memory() -> ShmModel {
    ShmModel { regions: Seq::empty(), mapped: Set::empty() }
}

impl Default for ShmRegionState {
    fn default() -> (shm: ShmRegionState)
        ensures
            shm@ == no_memory(),
    {
        let shm = ShmRegionState { regions: Vec::new(), mapped_holders: Holders::new() };
        assert(shm@ =~= no_memory());
        shm
    }
}

/// A region of zeros.
pub open spec fn zeros(size: int) -> Seq<u8> {
    Seq::new(size as nat, |i: int| 0u8)
}

/// The regions once there are at least so many, each new one filled with zeros.
pub open spec fn extended(regions: Seq<Seq<u8>>, count: int, size: int) -> Seq<Seq<u8>> {
    if regions.len() < count {
        regions + Seq::new((count - regions.len()) as nat, |i: int| zeros(size))
    } else {
        regions
    }
}

impl ShmRegionState {
    /// Maps a region for a handle, and makes it where that is asked for. `None` where it
    /// is not there. A region that was made with another size is refused.
    pub fn shm_map(&mut self, id: u64, region: usize, size: usize, extend: bool) -> (mapped: Result<
        Option<usize>,
        VfsError,
    >)
        requires
            region < usize::MAX,
        ensures
            ({
                let before = old(self)@;
                let regions = if extend {
                    extended(before.regions, region + 1, size as int)
                } else {
                    before.regions
                };
                if size == 0 {
                    mapped == Err::<Option<usize>, VfsError>(VfsError::IoErrShmMap)
                        && final(self)@ == before
                } else if regions.len() <= region {
                    mapped == Ok::<Option<usize>, VfsError>(None) && final(self)@ == before
                } else if regions[region as int].len() != size {
                    mapped == Err::<Option<usize>, VfsError>(VfsError::IoErrShmMap)
                        && final(self)@ == before
                } else {
                    mapped == Ok::<Option<usize>, VfsError>(Some(region)) && final(self)@ == (
                    ShmModel { regions, mapped: before.mapped.insert(id) })
                }
            }),
    {
        if size == 0 {
            return Err(VfsError::IoErrShmMap);
        }
        let ghost before = self@;
        if self.regions.len() <= region {
            if !extend {
                return Ok(None);
            }
            assert(self@.regions =~= before.regions + Seq::new(0, |i: int| zeros(size as int)));
            while self.regions.len() <= region
                invariant
                    size > 0,
                    region < usize::MAX,
                    before.regions.len() <= self.regions@.len() <= region + 1,
                    self.mapped_holders@ == before.mapped,
                    self@.regions == before.regions + Seq::new(
                        (self.regions@.len() - before.regions.len()) as nat,
                        |i: int| zeros(size as int),
                    ),
                decreases region + 1 - self.regions@.len(),
            {
                let ghost so_far = self@.regions;
                let fresh = zero_bytes(size);
                assert(fresh@ =~= zeros(size as int));
                self.regions.push(fresh);
                assert(self@.regions =~= so_far.push(zeros(size as int)));
                assert(self@.regions =~= before.regions + Seq::new(
                    (self.regions@.len() - before.regions.len()) as nat,
                    |i: int| zeros(size as int),
                ));
            }
            assert(self@.regions =~= extended(before.regions, region + 1, size as int));
            assert(self@.regions[region as int] == zeros(size as int));
        }
        assert(self@.regions[region as int] == self.regions@[region as int]@);
        if self.regions[region].len() != size {
            assert(self@ =~= before);
            return Err(VfsError::IoErrShmMap);
        }
        let ghost regions = self@.regions;
        self.mapped_holders.insert(id);
        assert(self@.regions =~= regions);
        Ok(Some(region))
    }

    /// Lets a handle let go of its mapping. When it was the last one and asks for it, the
    /// regions are dropped.
    pub fn release_shm_mapping(&mut self, id: u64, delete: bool)
        ensures
            final(self)@ == (ShmModel {
                regions: if delete && old(self)@.mapped.remove(id) == Set::<u64>::empty() {
                    Seq::empty()
                } else {
                    old(self)@.regions
                },
                mapped: old(self)@.mapped.remove(id),
            }),
    {
        let ghost regions = self@.regions;
        self.mapped_holders.remove(id);
        assert(self@.regions =~= regions);
        if delete && self.mapped_holders.is_empty() {
            self.regions.clear();
            assert(self@.regions =~= Seq::empty());
        }
    }

    /// The bytes of a region.
    pub fn region(&self, region: usize) -> (bytes: Option<&Vec<u8>>)
        ensures
            match bytes {
                Some(found) => region < self@.regions.len() && found@ == self@.regions[region as int],
                None => region >= self@.regions.len(),
            },
    {
        if region < self.regions.len() {
            Some(&self.regions[region])
        } else {
            None
        }
    }

    /// The bytes of a region, to be written. A region keeps its place in memory as long as
    /// it is there.
    pub fn region_mut(&mut self, region: usize) -> (bytes: &mut Vec<u8>)
        requires
            region < old(self)@.regions.len(),
        ensures
            bytes@ == old(self)@.regions[region as int],
            final(self)@ == (ShmModel {
                regions: old(self)@.regions.update(region as int, final(bytes)@),
                mapped: old(self)@.mapped,
            }),
    {
        &mut self.regions[region]
    }
}

/// Whether a handle that holds a byte alone is alone.
pub open spec fn byte_is_sound(lock: ByteModel) -> bool {
    lock.exclusive matches Some(writer) ==> !file_lock::has_other(lock.shared, writer)
}

/// A byte that one handle holds alone is held by no other. This holds of every byte
/// that begins unheld.
pub proof fn law_exclusive_byte_is_held_alone(lock: ByteModel, id: u64, mode: ShmLockMode)
    requires
        byte_is_sound(lock),
    ensures
        byte_is_sound(unheld_byte()),
        !byte_must_wait(lock, id, mode) ==> byte_is_sound(byte_after(lock, id, mode)),
        byte_is_sound(byte_released(lock, id)),
{
    let after = byte_after(lock, id, mode);
    if !byte_must_wait(lock, id, mode) {
        if let Some(writer) = after.exclusive {
            assert forall|holder: u64| #[trigger] after.shared.contains(holder) implies holder
                == writer by {
                if holder != id {
                    assert(lock.shared.contains(holder));
                }
            }
        }
    }
    let gone = byte_released(lock, id);
    if let Some(writer) = gone.exclusive {
        assert forall|holder: u64| #[trigger] gone.shared.contains(holder) implies holder
            == writer by {
            assert(lock.shared.contains(holder));
        }
    }
}

} // verus!
