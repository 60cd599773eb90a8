//! What SQLite asks of a file system, and which files are replicated.

use vstd::prelude::*;
use vstd::slice::*;
use vstd::string::*;

use crate::bytes;
use crate::bytes::ends_with;
use crate::commit::FileKind;
use crate::page_keys;
use crate::page_keys::append_normal_parts;
use crate::text;
use crate::text::append_number;

verus! {

broadcast use {group_string_axioms, group_slice_axioms};

/// Why a request of SQLite fails.
#[derive(Debug, Clone, Copy, PartialEq, Eq, Structural)]
pub enum VfsError {
    Busy,
    ReadOnly,
    CantOpen,
    IoErr,
    IoErrRead,
    IoErrWrite,
    IoErrFsync,
    IoErrTruncate,
    IoErrFstat,
    IoErrUnlock,
    IoErrDelete,
    IoErrAccess,
    IoErrLock,
    IoErrClose,
    IoErrShmOpen,
    IoErrShmLock,
    IoErrShmMap,
}

/// What SQLite opens a file for.
#[derive(Debug, Clone, Copy, PartialEq, Eq, Structural)]
pub enum OpenKind {
    Unknown,
    MainDb,
    MainJournal,
    TempDb,
    TempJournal,
    TransientDb,
    SubJournal,
    SuperJournal,
    Wal,
}

/// Whether a file is created when it is opened.
#[derive(Debug, Clone, Copy, PartialEq, Eq, Structural)]
pub enum CreateMode {
    Never,
    Create,
    MustCreate,
}

/// How a file is opened.
#[derive(Debug, Clone, Copy, PartialEq, Eq, Structural)]
pub enum OpenMode {
    ReadOnly,
    ReadWrite { create: CreateMode },
}

/// How and for what a file is opened.
#[derive(Debug, Clone, Copy, PartialEq, Eq, Structural)]
pub struct OpenOpts {
    pub kind: OpenKind,
    pub mode: OpenMode,
    pub delete_on_close: bool,
}

/// The levels of the lock on a file.
#[derive(Debug, Clone, Copy, PartialEq, Eq, Structural)]
pub enum LockLevel {
    Unlocked,
    Shared,
    Reserved,
    Pending,
    Exclusive,
}

/// What is done to locks on the shared memory of a file.
#[derive(Debug, Clone, Copy, PartialEq, Eq, Structural)]
pub enum ShmLockMode {
    LockShared,
    LockExclusive,
    UnlockShared,
    UnlockExclusive,
}

/// Whether a file is created, by how it is opened.
pub open spec fn creates(mode: OpenMode) -> CreateMode {
    match mode {
        OpenMode::ReadOnly => CreateMode::Never,
        OpenMode::ReadWrite { create } => create,
    }
}

/// Whether a file is created, by how it is opened.
pub fn create_mode(mode: &OpenMode) -> (create: CreateMode)
    ensures
        create == creates(*mode),
{
    match mode {
        OpenMode::ReadOnly => CreateMode::Never,
        OpenMode::ReadWrite { create } => *create,
    }
}

/// The kind of a file, by what it is opened for.
pub open spec fn kind_by_use(kind: OpenKind) -> FileKind {
    match kind {
        OpenKind::MainDb => FileKind::MainDb,
        OpenKind::Wal => FileKind::Wal,
        OpenKind::MainJournal => FileKind::Journal,
        OpenKind::SuperJournal => FileKind::Journal,
        OpenKind::TempDb => FileKind::Temp,
        OpenKind::TempJournal => FileKind::Temp,
        OpenKind::TransientDb => FileKind::Temp,
        OpenKind::SubJournal => FileKind::Temp,
        OpenKind::Unknown => FileKind::Other,
    }
}

/// The kind of a file, by what it is opened for.
pub fn file_kind(kind: OpenKind) -> (found: FileKind)
    ensures
        found == kind_by_use(kind),
{
    match kind {
        OpenKind::MainDb => FileKind::MainDb,
        OpenKind::Wal => FileKind::Wal,
        OpenKind::MainJournal => FileKind::Journal,
        OpenKind::SuperJournal => FileKind::Journal,
        OpenKind::TempDb => FileKind::Temp,
        OpenKind::TempJournal => FileKind::Temp,
        OpenKind::TransientDb => FileKind::Temp,
        OpenKind::SubJournal => FileKind::Temp,
        OpenKind::Unknown => FileKind::Other,
    }
}

/// The kind of a file, by its path: by its ending, and a path without a dot is that of
/// a database.
pub open spec fn kind_by_path(path: Seq<u8>) -> FileKind {
    if bytes::has_suffix(path, bytes::text("-wal")) {
        FileKind::Wal
    } else if bytes::has_suffix(path, bytes::text("-journal")) {
        FileKind::Journal
    } else if bytes::has_suffix(path, bytes::text(".db")) || !path.contains(46u8) {
        FileKind::MainDb
    } else {
        FileKind::Other
    }
}

fn has_dot(path: &[u8]) -> (dotted: bool)
    ensures
        dotted == path@.contains(46u8),
{
    let mut i: usize = 0;
    let len: usize = path.len();
    while i < len
        invariant
            len == path@.len(),
            i <= len,
            forall|k: int| 0 <= k < i ==> path@[k] != 46,
        decreases len - i,
    {
        if path[i] == 46 {
            assert(path@[i as int] == 46);
            return true;
        }
        i = i + 1;
    }
    false
}

/// The kind of a file, by its path.
pub fn file_kind_from_path(path: &str) -> (kind: FileKind)
    ensures
        kind == kind_by_path(bytes::text(path)),
{
    let bytes = path.as_bytes();
    if ends_with(bytes, "-wal".as_bytes()) {
        FileKind::Wal
    } else if ends_with(bytes, "-journal".as_bytes()) {
        FileKind::Journal
    } else if ends_with(bytes, ".db".as_bytes()) || !has_dot(bytes) {
        FileKind::MainDb
    } else {
        FileKind::Other
    }
}

/// The kind of a file that is opened: by what it is opened for, and where that says
/// nothing, by its path.
pub open spec fn kind_of_open(kind: OpenKind, path: Seq<u8>) -> FileKind {
    if kind_by_use(kind) == FileKind::Other {
        kind_by_path(path)
    } else {
        kind_by_use(kind)
    }
}

/// The kind of a file that is opened.
pub fn file_kind_for_open(kind: OpenKind, path: &str) -> (found: FileKind)
    ensures
        found == kind_of_open(kind, bytes::text(path)),
{
    match file_kind(kind) {
        FileKind::Other => file_kind_from_path(path),
        known => known,
    }
}

/// Whether files of a kind are replicated.
pub open spec fn is_replicated(kind: FileKind) -> bool {
    kind == FileKind::MainDb || kind == FileKind::Wal || kind == FileKind::Journal
}

/// Whether files of a kind are replicated.
pub fn should_replicate(kind: FileKind) -> (replicated: bool)
    ensures
        replicated == is_replicated(kind),
{
    match kind {
        FileKind::MainDb => true,
        FileKind::Wal => true,
        FileKind::Journal => true,
        _ => false,
    }
}

/// The name of what a file is opened for.
pub open spec fn use_name(kind: OpenKind) -> Seq<char> {
    match kind {
        OpenKind::Unknown => "Unknown"@,
        OpenKind::MainDb => "MainDb"@,
        OpenKind::MainJournal => "MainJournal"@,
        OpenKind::TempDb => "TempDb"@,
        OpenKind::TempJournal => "TempJournal"@,
        OpenKind::TransientDb => "TransientDb"@,
        OpenKind::SubJournal => "SubJournal"@,
        OpenKind::SuperJournal => "SuperJournal"@,
        OpenKind::Wal => "Wal"@,
    }
}

/// The path of a file without a name of its own.
pub open spec fn temp_path_of(kind: OpenKind, id: u64) -> Seq<char> {
    "__orion_tmp/"@ + use_name(kind) + "-"@ + text::number_text(id as nat)
}

/// The path of a file without a name of its own.
pub fn temp_path(kind: OpenKind, id: u64) -> (path: String)
    ensures
        path@ == temp_path_of(kind, id),
{
    let name: &str = match kind {
        OpenKind::Unknown => "Unknown",
        OpenKind::MainDb => "MainDb",
        OpenKind::MainJournal => "MainJournal",
        OpenKind::TempDb => "TempDb",
        OpenKind::TempJournal => "TempJournal",
        OpenKind::TransientDb => "TransientDb",
        OpenKind::SubJournal => "SubJournal",
        OpenKind::SuperJournal => "SuperJournal",
        OpenKind::Wal => "Wal",
    };
    let mut path: String = "__orion_tmp/".to_owned();
    path.append(name);
    path.append("-");
    append_number(&mut path, id);
    path
}

/// Whether a path names a file: it has a part that is neither empty nor a step to
/// another directory.
pub open spec fn names_file(path: Seq<u8>) -> bool {
    page_keys::joined_parts(path).len() > 0
}

/// Whether a path names a file.
pub fn check_path(path: &str) -> (named: bool)
    ensures
        named == names_file(bytes::text(path)),
{
    let mut parts: Vec<u8> = Vec::new();
    append_normal_parts(&mut parts, path.as_bytes());
    assert(parts@ =~= page_keys::joined_parts(bytes::text(path)));
    parts.len() > 0
}

/// The parts of a path that lead to a file below a directory.
pub fn local_parts(path: &str) -> (parts: Result<Vec<u8>, String>)
    ensures
        names_file(bytes::text(path)) ==> (parts matches Ok(found) && found@
            == page_keys::joined_parts(bytes::text(path))),
        !names_file(bytes::text(path)) ==> (parts matches Err(message) && message@
            == "SQLite file path must not be empty"@),
{
    let mut found: Vec<u8> = Vec::new();
    append_normal_parts(&mut found, path.as_bytes());
    assert(found@ =~= page_keys::joined_parts(bytes::text(path)));
    if found.len() == 0 {
        return Err("SQLite file path must not be empty".to_owned());
    }
    Ok(found)
}

/// Files without a path of their own never share one: of two that are opened for the same
/// use, each has the path of its number.
pub proof fn law_unnamed_files_are_apart(kind: OpenKind, id: u64, other: u64)
    ensures
        temp_path_of(kind, id) == temp_path_of(kind, other) ==> id == other,
{
    let front = "__orion_tmp/"@ + use_name(kind) + "-"@;
    let one = temp_path_of(kind, id);
    let two = temp_path_of(kind, other);
    assert(one.skip(front.len() as int) =~= text::number_text(id as nat));
    assert(two.skip(front.len() as int) =~= text::number_text(other as nat));
    text::lemma_number_text(id as nat, other as nat);
}

/// Temporary files are never replicated, whatever their path.
pub proof fn law_temporary_files_stay_local(kind: OpenKind, path: Seq<u8>)
    ensures
        kind_by_use(kind) == FileKind::Temp ==> !is_replicated(kind_of_open(kind, path)),
        is_replicated(kind_by_use(kind)) ==> is_replicated(kind_of_open(kind, path)),
{
}

} // verus!
