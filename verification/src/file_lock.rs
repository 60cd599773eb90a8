//! The lock on a database file: many readers, one writer that waits for them.

use vstd::prelude::*;

use crate::holders::Holders;
use crate::vfs_types::LockLevel;
use crate::vfs_types::VfsError;

verus! {

/// Who holds the lock on a file, at which level.
#[derive(Debug, Clone, PartialEq, Eq)]
pub struct FileLockState {
    shared_holders: Holders,
    reserved_holder: Option<u64>,
    pending_holder: Option<u64>,
    exclusive_holder: Option<u64>,
}

/// The model of the lock on a file.
#[verifier::ext_equal]
pub struct LockModel {
    pub shared: Set<u64>,
    pub reserved: Option<u64>,
    pub pending: Option<u64>,
    pub exclusive: Option<u64>,
}

impl View for FileLockState {
    type V = LockModel;

    closed spec fn view(&self) -> LockModel {
        LockModel {
            shared: self.shared_holders@,
            reserved: self.reserved_holder,
            pending: self.pending_holder,
            exclusive: self.exclusive_holder,
        }
    }
}

/// A lock that nobody holds.
pub open spec fn unheld() -> LockModel {
    LockModel { shared: Set::empty(), reserved: None, pending: None, exclusive: None }
}

/// Whether somebody other than `id` is there.
pub open spec fn is_other(holder: Option<u64>, id: u64) -> bool {
    holder matches Some(found) && found != id
}

/// Whether somebody other than `id` is among the holders.
pub open spec fn has_other(holders: Set<u64>, id: u64) -> bool {
    exists|holder: u64| #[trigger] holders.contains(holder) && holder != id
}

/// Whether a handle has to wait for a level.
pub open spec fn must_wait(lock: LockModel, id: u64, level: LockLevel) -> bool {
    match level {
        LockLevel::Unlocked => false,
        LockLevel::Shared => is_other(lock.exclusive, id) || is_other(lock.pending, id),
        LockLevel::Reserved => is_other(lock.exclusive, id) || is_other(lock.reserved, id),
        LockLevel::Pending => is_other(lock.exclusive, id) || is_other(lock.pending, id),
        LockLevel::Exclusive => is_other(lock.exclusive, id) || is_other(lock.reserved, id)
            || is_other(lock.pending, id) || has_other(lock.shared, id),
    }
}

/// The lock once a handle has a level.
pub open spec fn locked(lock: LockModel, id: u64, level: LockLevel) -> LockModel {
    match level {
        LockLevel::Unlocked => lock,
        LockLevel::Shared => LockModel { shared: lock.shared.insert(id), ..lock },
        LockLevel::Reserved => LockModel {
            shared: lock.shared.insert(id),
            reserved: Some(id),
            ..lock
        },
        LockLevel::Pending => LockModel {
            shared: lock.shared.insert(id),
            pending: Some(id),
            ..lock
        },
        LockLevel::Exclusive => LockModel {
            shared: lock.shared.insert(id),
            reserved: Some(id),
            pending: Some(id),
            exclusive: Some(id),
        },
    }
}

/// A holder that has let go.
pub open spec fn let_go(holder: Option<u64>, id: u64) -> Option<u64> {
    if holder == Some(id) {
        None
    } else {
        holder
    }
}

/// The lock once a handle has let go of everything.
pub open spec fn released(lock: LockModel, id: u64) -> LockModel {
    LockModel {
        shared: lock.shared.remove(id),
        reserved: let_go(lock.reserved, id),
        pending: let_go(lock.pending, id),
        exclusive: let_go(lock.exclusive, id),
    }
}

/// The lock once a handle has gone down to a level.
pub open spec fn unlocked(lock: LockModel, id: u64, level: LockLevel) -> LockModel {
    match level {
        LockLevel::Unlocked => released(lock, id),
        LockLevel::Shared => LockModel {
            shared: lock.shared.insert(id),
            reserved: let_go(lock.reserved, id),
            pending: let_go(lock.pending, id),
            exclusive: let_go(lock.exclusive, id),
        },
        LockLevel::Reserved => LockModel {
            shared: lock.shared.insert(id),
            reserved: Some(id),
            pending: let_go(lock.pending, id),
            exclusive: let_go(lock.exclusive, id),
        },
        LockLevel::Pending => LockModel {
            shared: lock.shared.insert(id),
            reserved: match lock.reserved {
                Some(holder) => Some(holder),
                None => Some(id),
            },
            pending: Some(id),
            exclusive: let_go(lock.exclusive, id),
        },
        LockLevel::Exclusive => lock,
    }
}

fn held_by_other(holder: Option<u64>, id: u64) -> (other: bool)
    ensures
        other == is_other(holder, id),
{
    match holder {
        Some(found) => found != id,
        None => false,
    }
}

fn without(holder: Option<u64>, id: u64) -> (left: Option<u64>)
    ensures
        left == let_go(holder, id),
{
    match holder {
        Some(found) => {
            if found == id {
                None
            } else {
                holder
            }
        },
        None => None,
    }
}

impl Default for FileLockState {
    fn default() -> (lock: FileLockState)
        ensures
            lock@ == unheld(),
    {
        FileLockState {
            shared_holders: Holders::new(),
            reserved_holder: None,
            pending_holder: None,
            exclusive_holder: None,
        }
    }
}

impl FileLockState {
    /// Takes a level for a handle, unless it has to wait.
    pub fn lock_file(&mut self, id: u64, level: LockLevel) -> (taken: Result<(), VfsError>)
        ensures
            must_wait(old(self)@, id, level) ==> taken == Err::<(), VfsError>(VfsError::Busy)
                && final(self)@ == old(self)@,
            !must_wait(old(self)@, id, level) ==> taken is Ok && final(self)@ == locked(
                old(self)@,
                id,
                level,
            ),
    {
        match level {
            LockLevel::Unlocked => {},
            LockLevel::Shared => {
                if held_by_other(self.exclusive_holder, id) || held_by_other(
                    self.pending_holder,
                    id,
                ) {
                    return Err(VfsError::Busy);
                }
                self.shared_holders.insert(id);
            },
            LockLevel::Reserved => {
                if held_by_other(self.exclusive_holder, id) || held_by_other(
                    self.reserved_holder,
                    id,
                ) {
                    return Err(VfsError::Busy);
                }
                self.shared_holders.insert(id);
                self.reserved_holder = Some(id);
            },
            LockLevel::Pending => {
                if held_by_other(self.exclusive_holder, id) || held_by_other(
                    self.pending_holder,
                    id,
                ) {
                    return Err(VfsError::Busy);
                }
                self.shared_holders.insert(id);
                self.pending_holder = Some(id);
            },
            LockLevel::Exclusive => {
                if held_by_other(self.exclusive_holder, id) || held_by_other(
                    self.reserved_holder,
                    id,
                ) || held_by_other(self.pending_holder, id) || self.shared_holders.has_other(id) {
                    return Err(VfsError::Busy);
                }
                self.shared_holders.insert(id);
                self.reserved_holder = Some(id);
                self.pending_holder = Some(id);
                self.exclusive_holder = Some(id);
            },
        }
        Ok(())
    }

    /// Lets a handle go down to a level.
    pub fn unlock_file(&mut self, id: u64, level: LockLevel)
        ensures
            final(self)@ == unlocked(old(self)@, id, level),
    {
        match level {
            LockLevel::Unlocked => {
                self.release_file_locks(id);
            },
            LockLevel::Shared => {
                self.exclusive_holder = without(self.exclusive_holder, id);
                self.pending_holder = without(self.pending_holder, id);
                self.reserved_holder = without(self.reserved_holder, id);
                self.shared_holders.insert(id);
            },
            LockLevel::Reserved => {
                self.exclusive_holder = without(self.exclusive_holder, id);
                self.pending_holder = without(self.pending_holder, id);
                self.shared_holders.insert(id);
                self.reserved_holder = Some(id);
            },
            LockLevel::Pending => {
                self.exclusive_holder = without(self.exclusive_holder, id);
                self.shared_holders.insert(id);
                if self.reserved_holder.is_none() {
                    self.reserved_holder = Some(id);
                }
                self.pending_holder = Some(id);
            },
            LockLevel::Exclusive => {},
        }
    }

    /// Lets a handle let go of everything.
    pub fn release_file_locks(&mut self, id: u64)
        ensures
            final(self)@ == released(old(self)@, id),
    {
        self.shared_holders.remove(id);
        self.reserved_holder = without(self.reserved_holder, id);
        self.pending_holder = without(self.pending_holder, id);
        self.exclusive_holder = without(self.exclusive_holder, id);
    }

    /// Whether somebody is about to write or writing.
    pub fn is_reserved(&self) -> (reserved: bool)
        ensures
            reserved == (self@.reserved is Some || self@.pending is Some || self@.exclusive is Some),
    {
        self.reserved_holder.is_some() || self.pending_holder.is_some()
            || self.exclusive_holder.is_some()
    }
}

/// Whether a handle holds a level.
pub open spec fn holds(lock: LockModel, id: u64, level: LockLevel) -> bool {
    match level {
        LockLevel::Unlocked => true,
        LockLevel::Shared => lock.shared.contains(id),
        LockLevel::Reserved => lock.shared.contains(id) && lock.reserved == Some(id),
        LockLevel::Pending => lock.shared.contains(id) && lock.pending == Some(id),
        LockLevel::Exclusive => lock.shared.contains(id) && lock.reserved == Some(id)
            && lock.pending == Some(id) && lock.exclusive == Some(id),
    }
}

/// Whether a handle that writes is alone.
pub open spec fn writer_is_alone(lock: LockModel) -> bool {
    lock.exclusive matches Some(writer) ==> {
        &&& holds(lock, writer, LockLevel::Exclusive)
        &&& !has_other(lock.shared, writer)
    }
}

/// A handle that takes a level holds it, and a handle that writes is alone: no other
/// handle reads or is about to write. This holds of every lock that begins unheld, as
/// long as handles only go down to levels that they hold.
pub proof fn law_writer_is_alone(lock: LockModel, id: u64, level: LockLevel)
    requires
        writer_is_alone(lock),
    ensures
        writer_is_alone(unheld()),
        !must_wait(lock, id, level) ==> writer_is_alone(locked(lock, id, level)) && holds(
            locked(lock, id, level),
            id,
            level,
        ),
        holds(lock, id, level) ==> writer_is_alone(unlocked(lock, id, level)),
        writer_is_alone(released(lock, id)),
{
    let after = locked(lock, id, level);
    if !must_wait(lock, id, level) {
        if let Some(writer) = after.exclusive {
            assert forall|holder: u64| #[trigger] after.shared.contains(holder) implies holder
                == writer by {
                if holder != id {
                    assert(lock.shared.contains(holder));
                }
            }
        }
    }
    let down = unlocked(lock, id, level);
    if holds(lock, id, level) {
        if let Some(writer) = down.exclusive {
            assert(lock.exclusive == Some(writer));
            assert forall|holder: u64| #[trigger] down.shared.contains(holder) implies holder
                == writer by {
                if holder != id {
                    assert(lock.shared.contains(holder));
                }
            }
        }
    }
    let gone = released(lock, id);
    if let Some(writer) = gone.exclusive {
        assert forall|holder: u64| #[trigger] gone.shared.contains(holder) implies holder
            == writer by {
            assert(lock.shared.contains(holder));
        }
    }
}

/// While a handle writes, no other handle gets any level; and a handle that has let go
/// keeps nobody waiting.
pub proof fn law_lock_excludes(lock: LockModel, id: u64, other: u64, level: LockLevel)
    requires
        id != other,
    ensures
        lock.exclusive == Some(id) && level != LockLevel::Unlocked ==> must_wait(
            lock,
            other,
            level,
        ),
        lock.shared.contains(id) ==> must_wait(lock, other, LockLevel::Exclusive),
        lock.reserved == Some(id) ==> must_wait(lock, other, LockLevel::Reserved),
        lock.pending == Some(id) ==> must_wait(lock, other, LockLevel::Shared),
        lock.shared.subset_of(set![id]) && !is_other(lock.reserved, id) && !is_other(
            lock.pending,
            id,
        ) && !is_other(lock.exclusive, id) ==> !must_wait(released(lock, id), other, level),
{
}

} // verus!
