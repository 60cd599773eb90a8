//! What the handles of a process share: the locks and the shared memory of each file.

use vstd::prelude::*;
use vstd::string::*;

use crate::bytes::str_equal;
use crate::file_lock;
use crate::file_lock::FileLockState;
use crate::file_lock::LockModel;
use crate::shm;
use crate::shm::ByteModel;
use crate::shm::ShmLockState;
use crate::shm::ShmModel;
use crate::shm::ShmRegionState;
use crate::text::text_chars;

verus! {

broadcast use group_string_axioms;

/// What the handles of one file share. `locally_created` says that the file was
/// created here, though the store may not hold it yet.
#[derive(Debug, Clone)]
pub struct DatabaseFileState {
    pub file_lock: FileLockState,
    pub shm_lock: ShmLockState,
    pub shm: ShmRegionState,
    pub locally_created: bool,
}

/// The model of what the handles of one file share.
#[verifier::ext_equal]
pub struct StateModel {
    pub lock: LockModel,
    pub shm_locks: spec_fn(u32) -> ByteModel,
    pub shm: ShmModel,
    pub created: bool,
}

impl View for DatabaseFileState {
    type V = StateModel;

    open spec fn view(&self) -> StateModel {
        StateModel {
            lock: self.file_lock@,
            shm_locks: |byte: u32| self.shm_lock.at(byte),
            shm: self.shm@,
            created: self.locally_created,
        }
    }
}

/// The state of a file that nobody has opened.
pub open spec fn fresh_state() -> StateModel {
    StateModel {
        lock: file_lock::unheld(),
        shm_locks: |byte: u32| shm::unheld_byte(),
        shm: shm::no_memory(),
        created: false,
    }
}

impl Default for DatabaseFileState {
    fn default() -> (state: DatabaseFileState)
        ensures
            state.shm_lock.wf(),
            state@ == fresh_state(),
    {
        let state = DatabaseFileState {
            file_lock: FileLockState::default(),
            shm_lock: ShmLockState::default(),
            shm: ShmRegionState::default(),
            locally_created: false,
        };
        assert(state@ =~= fresh_state());
        state
    }
}

/// The place of a file's state.
#[derive(Debug, Clone)]
pub struct NamedFile {
    pub name: String,
    pub slot: usize,
}

/// The states of all files that a process has opened. A state whose name was cleared
/// stays for the handles that were opened with it.
#[derive(Debug, Clone)]
pub struct VfsSharedState {
    pub files: Vec<NamedFile>,
    pub states: Vec<DatabaseFileState>,
    pub next_handle_id: u64,
}

/// The model of the states of all files.
#[verifier::ext_equal]
pub struct SharedModel {
    pub files: Seq<(Seq<char>, int)>,
    pub states: Seq<StateModel>,
    pub next_handle_id: u64,
}

impl View for VfsSharedState {
    type V = SharedModel;

    open spec fn view(&self) -> SharedModel {
        SharedModel {
            files: Seq::new(
                self.files@.len(),
                |i: int| (self.files@[i].name@, self.files@[i].slot as int),
            ),
            states: Seq::new(self.states@.len(), |i: int| self.states@[i]@),
            next_handle_id: self.next_handle_id,
        }
    }
}

/// Where the state of a file is kept.
pub open spec fn slot_of(files: Seq<(Seq<char>, int)>, name: Seq<char>) -> Option<int>
    decreases files.len(),
{
    if files.len() == 0 {
        None
    } else if files.last().0 == name {
        Some(files.last().1)
    } else {
        slot_of(files.drop_last(), name)
    }
}

/// The states once a file has one.
pub open spec fn with_file(shared: SharedModel, name: Seq<char>) -> SharedModel {
    match slot_of(shared.files, name) {
        Some(_) => shared,
        None => SharedModel {
            files: shared.files.push((name, shared.states.len() as int)),
            states: shared.states.push(fresh_state()),
            ..shared
        },
    }
}

/// Where the state of a file is kept, once it has one.
pub open spec fn slot_for(shared: SharedModel, name: Seq<char>) -> int {
    match slot_of(shared.files, name) {
        Some(slot) => slot,
        None => shared.states.len() as int,
    }
}

/// Whether a file was created here.
pub open spec fn is_created(shared: SharedModel, name: Seq<char>) -> bool {
    match slot_of(shared.files, name) {
        Some(slot) => shared.states[slot].created,
        None => false,
    }
}

/// The states after one of them was replaced.
pub open spec fn with_state(shared: SharedModel, slot: int, state: StateModel) -> SharedModel {
    SharedModel { states: shared.states.update(slot, state), ..shared }
}

/// The states after a file was marked as created here, or not.
pub open spec fn marked(shared: SharedModel, name: Seq<char>, created: bool) -> SharedModel {
    let named = with_file(shared, name);
    let slot = slot_for(shared, name);
    with_state(named, slot, StateModel { created, ..named.states[slot] })
}

/// The states after a handle was numbered.
pub open spec fn numbered(shared: SharedModel) -> SharedModel {
    SharedModel {
        next_handle_id: if shared.next_handle_id == u64::MAX {
            0
        } else {
            (shared.next_handle_id + 1) as u64
        },
        ..shared
    }
}

/// The prefix of the names of all files of a database.
pub open spec fn database_prefix_of(cache_root: Seq<char>, database: Seq<char>) -> Seq<char> {
    cache_root + ":"@ + database + "/"@
}

/// The name of a file among those of a process.
pub open spec fn file_name_of(
    cache_root: Seq<char>,
    database: Seq<char>,
    path: Seq<char>,
) -> Seq<char> {
    database_prefix_of(cache_root, database) + path
}

/// Whether a name starts with a prefix.
pub open spec fn is_under(name: Seq<char>, prefix: Seq<char>) -> bool {
    prefix.len() <= name.len() && name.take(prefix.len() as int) == prefix
}

/// The names that do not start with a prefix.
pub open spec fn names_apart(files: Seq<(Seq<char>, int)>, prefix: Seq<char>) -> Seq<
    (Seq<char>, int),
>
    decreases files.len(),
{
    if files.len() == 0 {
        Seq::empty()
    } else {
        let front = names_apart(files.drop_last(), prefix);
        if is_under(files.last().0, prefix) {
            front
        } else {
            front.push(files.last())
        }
    }
}

fn database_prefix(cache_root: &str, database: &str) -> (prefix: String)
    ensures
        prefix@ == database_prefix_of(cache_root@, database@),
{
    let mut prefix: String = cache_root.to_owned();
    prefix.append(":");
    prefix.append(database);
    prefix.append("/");
    prefix
}

fn starts_under(name: &str, prefix: &Vec<char>) -> (under: bool)
    ensures
        under == is_under(name@, prefix@),
{
    let chars = text_chars(name);
    if chars.len() < prefix.len() {
        return false;
    }
    let mut i: usize = 0;
    while i < prefix.len()
        invariant
            i <= prefix@.len() <= chars@.len(),
            chars@ == name@,
            forall|k: int| 0 <= k < i ==> chars@[k] == prefix@[k],
        decreases prefix@.len() - i,
    {
        if chars[i] != prefix[i] {
            assert(name@.take(prefix@.len() as int)[i as int] != prefix@[i as int]);
            return false;
        }
        i = i + 1;
    }
    assert(name@.take(prefix@.len() as int) =~= prefix@);
    true
}

impl Default for VfsSharedState {
    fn default() -> (shared: VfsSharedState)
        ensures
            shared.wf(),
            shared@ == (SharedModel {
                files: Seq::empty(),
                states: Seq::empty(),
                next_handle_id: 1,
            }),
    {
        let shared = VfsSharedState { files: Vec::new(), states: Vec::new(), next_handle_id: 1 };
        assert(shared@.files =~= Seq::empty());
        assert(shared@.states =~= Seq::empty());
        shared
    }
}

impl VfsSharedState {
    /// Whether the table is well formed.
    pub open spec fn wf(&self) -> bool {
        &&& forall|i: int|
            0 <= i < self.files@.len() ==> (#[trigger] self.files@[i]).slot < self.states@.len()
        &&& forall|i: int| 0 <= i < self.states@.len() ==> (#[trigger] self.states@[i]).shm_lock.wf()
    }

    fn find(&self, name: &str) -> (found: Option<usize>)
        requires
            self.wf(),
        ensures
            match found {
                Some(slot) => slot_of(self@.files, name@) == Some(slot as int) && slot
                    < self.states@.len(),
                None => slot_of(self@.files, name@) is None,
            },
    {
        let mut i: usize = self.files.len();
        assert(self@.files.take(i as int) =~= self@.files);
        while i > 0
            invariant
                self.wf(),
                i <= self.files@.len(),
                slot_of(self@.files, name@) == slot_of(self@.files.take(i as int), name@),
            decreases i,
        {
            i = i - 1;
            assert(self@.files.take(i + 1).drop_last() =~= self@.files.take(i as int));
            assert(self@.files.take(i + 1).last() == self@.files[i as int]);
            if str_equal(self.files[i].name.as_str(), name) {
                return Some(self.files[i].slot);
            }
        }
        assert(self@.files.take(0) =~= Seq::empty());
        None
    }

    /// The state of a file, which is made where there is none.
    pub fn shared_database_file_state(
        &mut self,
        cache_root: &str,
        database: &str,
        logical_path: &str,
    ) -> (slot: usize)
        requires
            old(self).wf(),
        ensures
            final(self).wf(),
            slot < final(self).states@.len(),
            ({
                let name = file_name_of(cache_root@, database@, logical_path@);
                final(self)@ == with_file(old(self)@, name) && slot == slot_for(old(self)@, name)
            }),
    {
        let ghost before = *self;
        let mut name = database_prefix(cache_root, database);
        name.append(logical_path);
        match self.find(name.as_str()) {
            Some(slot) => slot,
            None => {
                let slot: usize = self.states.len();
                self.states.push(DatabaseFileState::default());
                self.files.push(NamedFile { name, slot });
                proof {
                    assert forall|i: int| 0 <= i < self.files@.len() implies (
                    #[trigger] self.files@[i]).slot < self.states@.len() by {
                        if i < before.files@.len() {
                            assert(self.files@[i] == before.files@[i]);
                        }
                    }
                    assert forall|i: int| 0 <= i < self.states@.len() implies (
                    #[trigger] self.states@[i]).shm_lock.wf() by {
                        if i < before.states@.len() {
                            assert(self.states@[i] == before.states@[i]);
                        }
                    }
                    assert(self@.files =~= before@.files.push((name@, slot as int)));
                    assert(self@.states =~= before@.states.push(fresh_state()));
                }
                slot
            },
        }
    }

    /// Marks a file as created here, or not.
    pub fn mark_created(&mut self, slot: usize, created: bool)
        requires
            old(self).wf(),
            slot < old(self).states@.len(),
        ensures
            final(self).wf(),
            final(self).states@.len() == old(self).states@.len(),
            final(self)@ == with_state(
                old(self)@,
                slot as int,
                StateModel { created, ..old(self)@.states[slot as int] },
            ),
    {
        let ghost before = *self;
        self.states[slot].locally_created = created;
        proof {
            assert forall|i: int| 0 <= i < self.states@.len() implies (
            #[trigger] self.states@[i]).shm_lock.wf() by {
                assert(before.states@[i].shm_lock.wf());
            }
            assert(self@.states[slot as int] =~= (StateModel {
                created,
                ..before@.states[slot as int]
            }));
            assert(self@.states =~= before@.states.update(
                slot as int,
                StateModel { created, ..before@.states[slot as int] },
            ));
            assert(self@.files =~= before@.files);
        }
    }

    /// The number of the next handle.
    pub fn take_handle_id(&mut self) -> (id: u64)
        requires
            old(self).wf(),
        ensures
            final(self).wf(),
            final(self).states@ == old(self).states@,
            id == old(self)@.next_handle_id,
            final(self)@ == numbered(old(self)@),
    {
        let id: u64 = self.next_handle_id;
        self.next_handle_id = id.wrapping_add(1);
        id
    }
}

/// Forgets the states of all files of a database, and says how many there were.
/// Handles that are open keep the states that they were opened with.
pub fn clear_orion_vfs_shared_state(shared: &mut VfsSharedState, cache_root: &str, database: &str)
    -> (cleared: usize)
    requires
        old(shared).wf(),
    ensures
        final(shared).wf(),
        final(shared)@ == (SharedModel {
            files: names_apart(
                old(shared)@.files,
                database_prefix_of(cache_root@, database@),
            ),
            ..old(shared)@
        }),
        cleared == old(shared)@.files.len() - final(shared)@.files.len(),
{
    let ghost before = *shared;
    let ghost prefix_text = database_prefix_of(cache_root@, database@);
    let prefix = text_chars(database_prefix(cache_root, database).as_str());
    let mut kept: Vec<NamedFile> = Vec::new();
    let mut i: usize = 0;
    let ghost mut kept_files: Seq<(Seq<char>, int)> = Seq::empty();
    assert(before@.files.take(0) =~= Seq::empty());
    while i < shared.files.len()
        invariant
            i <= shared.files@.len(),
            *shared == before,
            before.wf(),
            prefix@ == prefix_text,
            kept@.len() <= i,
            kept_files == names_apart(before@.files.take(i as int), prefix_text),
            kept_files.len() == kept@.len(),
            forall|k: int|
                0 <= k < kept@.len() ==> kept_files[k] == (
                    (#[trigger] kept@[k]).name@,
                    kept@[k].slot as int,
                ) && kept@[k].slot < before.states@.len(),
        decreases shared.files@.len() - i,
    {
        assert(before@.files.take(i + 1).drop_last() =~= before@.files.take(i as int));
        assert(before@.files.take(i + 1).last() == before@.files[i as int]);
        let file = &shared.files[i];
        if !starts_under(file.name.as_str(), &prefix) {
            kept.push(NamedFile { name: file.name.clone(), slot: file.slot });
            proof {
                kept_files = kept_files.push(before@.files[i as int]);
            }
        }
        i = i + 1;
    }
    let cleared: usize = shared.files.len() - kept.len();
    shared.files = kept;
    proof {
        assert(before@.files.take(i as int) =~= before@.files);
        assert(shared@.files =~= kept_files);
        assert(shared@.states =~= before@.states);
    }
    cleared
}

/// A file of one database is not among those of another: clearing one leaves the
/// other.
pub proof fn law_clearing_spares_other_databases(
    cache_root: Seq<char>,
    cleared: Seq<char>,
    database: Seq<char>,
    path: Seq<char>,
)
    requires
        !cleared.contains('/'),
        !database.contains('/'),
    ensures
        is_under(
            file_name_of(cache_root, database, path),
            database_prefix_of(cache_root, cleared),
        ) == (cleared == database),
{
    reveal_strlit(":");
    reveal_strlit("/");
    let name = file_name_of(cache_root, database, path);
    let prefix = database_prefix_of(cache_root, cleared);
    let at = cache_root.len() as int + 1;
    if cleared == database {
        assert(name.take(prefix.len() as int) =~= prefix);
    } else if is_under(name, prefix) {
        assert forall|i: int| 0 <= i < prefix.len() implies name[i] == prefix[i] by {
            assert(name.take(prefix.len() as int)[i] == prefix[i]);
        }
        assert(prefix[at + cleared.len()] == '/');
        if cleared.len() < database.len() {
            assert(name[at + cleared.len()] == database[cleared.len() as int]);
            assert(database.contains(database[cleared.len() as int]));
        } else if database.len() < cleared.len() {
            assert(name[at + database.len()] == '/');
            assert(prefix[at + database.len()] == cleared[database.len() as int]);
            assert(cleared.contains(cleared[database.len() as int]));
        } else {
            assert forall|i: int| 0 <= i < cleared.len() implies cleared[i] == database[i] by {
                assert(name[at + i] == database[i]);
                assert(prefix[at + i] == cleared[i]);
            }
            assert(cleared =~= database);
        }
    }
}

} // verus!
