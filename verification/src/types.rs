//! The form in which a file's operations travel through the replicated log.

use vstd::prelude::*;

use crate::bytes::copy_bytes;
use crate::commit::FileKind;
use crate::commit::SyncBatchModel;
use crate::commit::VfsFileOp;
use crate::commit::VfsSyncBatch;
use crate::commit::VfsWrite;
use crate::file_model::FileOp;

verus! {

broadcast use vstd::seq::group_seq_axioms;

/// What a file of a database is, in a log entry.
#[derive(Debug, Clone, Copy, PartialEq, Eq, Structural)]
pub enum SqliteFileKind {
    MainDb,
    Wal,
    Journal,
    Temp,
    Other,
}

/// Bytes to be written at an offset of a file.
#[derive(Debug, Clone, PartialEq, Eq)]
pub struct SqliteVfsWrite {
    pub offset: u64,
    pub bytes: Vec<u8>,
}

/// One operation on a file.
#[derive(Debug, Clone, PartialEq, Eq)]
pub enum SqliteVfsOp {
    Write(SqliteVfsWrite),
    Truncate { size: u64 },
    Delete,
}

/// Operations on one file that one log entry carries.
#[derive(Debug, Clone, PartialEq, Eq)]
pub struct SqliteVfsBatch {
    pub database: String,
    pub file_path: String,
    pub file_kind: SqliteFileKind,
    pub ops: Vec<SqliteVfsOp>,
}

/// The kind of file that a kind in a log entry stands for.
pub open spec fn file_kind_of(kind: SqliteFileKind) -> FileKind {
    match kind {
        SqliteFileKind::MainDb => FileKind::MainDb,
        SqliteFileKind::Wal => FileKind::Wal,
        SqliteFileKind::Journal => FileKind::Journal,
        SqliteFileKind::Temp => FileKind::Temp,
        SqliteFileKind::Other => FileKind::Other,
    }
}

impl View for SqliteVfsOp {
    type V = FileOp;

    open spec fn view(&self) -> FileOp {
        match self {
            SqliteVfsOp::Write(write) => FileOp::Write {
                offset: write.offset as int,
                bytes: write.bytes@,
            },
            SqliteVfsOp::Truncate { size } => FileOp::Truncate { size: *size as int },
            SqliteVfsOp::Delete => FileOp::Delete,
        }
    }
}

/// The models of a sequence of operations.
pub open spec fn logged_ops(ops: Seq<SqliteVfsOp>) -> Seq<FileOp> {
    Seq::new(ops.len(), |i: int| ops[i]@)
}

impl View for SqliteVfsBatch {
    type V = SyncBatchModel;

    open spec fn view(&self) -> SyncBatchModel {
        SyncBatchModel {
            database: self.database@,
            file_path: self.file_path@,
            file_kind: file_kind_of(self.file_kind),
            ops: logged_ops(self.ops@),
        }
    }
}

/// The bytes that an operation carries.
pub open spec fn op_payload(op: FileOp) -> nat {
    match op {
        FileOp::Write { offset: _, bytes } => bytes.len(),
        _ => 0,
    }
}

/// The bytes that a sequence of operations carries.
pub open spec fn ops_payload(ops: Seq<FileOp>) -> nat
    decreases ops.len(),
{
    if ops.len() == 0 {
        0
    } else {
        ops_payload(ops.drop_last()) + op_payload(ops.last())
    }
}

/// A part of a sequence of operations carries no more than the whole.
pub proof fn lemma_part_payload(ops: Seq<FileOp>, upto: int)
    requires
        0 <= upto <= ops.len(),
    ensures
        ops_payload(ops.take(upto)) <= ops_payload(ops),
    decreases ops.len(),
{
    if upto == ops.len() {
        assert(ops.take(upto) =~= ops);
    } else {
        lemma_part_payload(ops.drop_last(), upto);
        assert(ops.drop_last().take(upto) =~= ops.take(upto));
    }
}

/// Two sequences of operations carry together what their concatenation carries.
pub proof fn lemma_payload_of_both(left: Seq<FileOp>, right: Seq<FileOp>)
    ensures
        ops_payload(left + right) == ops_payload(left) + ops_payload(right),
    decreases right.len(),
{
    if right.len() == 0 {
        assert(left + right =~= left);
    } else {
        lemma_payload_of_both(left, right.drop_last());
        assert((left + right).drop_last() =~= left + right.drop_last());
    }
}

/// Turns a kind of a log entry into the kind of file that it stands for.
pub fn convert_sqlite_file_kind(kind: SqliteFileKind) -> (converted: FileKind)
    ensures
        converted == file_kind_of(kind),
{
    match kind {
        SqliteFileKind::MainDb => FileKind::MainDb,
        SqliteFileKind::Wal => FileKind::Wal,
        SqliteFileKind::Journal => FileKind::Journal,
        SqliteFileKind::Temp => FileKind::Temp,
        SqliteFileKind::Other => FileKind::Other,
    }
}

/// Turns a kind of file into the form that a log entry carries.
pub fn log_file_kind(kind: FileKind) -> (converted: SqliteFileKind)
    ensures
        file_kind_of(converted) == kind,
{
    match kind {
        FileKind::MainDb => SqliteFileKind::MainDb,
        FileKind::Wal => SqliteFileKind::Wal,
        FileKind::Journal => SqliteFileKind::Journal,
        FileKind::Temp => SqliteFileKind::Temp,
        FileKind::Other => SqliteFileKind::Other,
    }
}

/// Turns an operation of a log entry into one on a file.
pub fn convert_sqlite_op(op: SqliteVfsOp) -> (converted: VfsFileOp)
    ensures
        converted@ == op@,
{
    match op {
        SqliteVfsOp::Write(write) => VfsFileOp::Write(
            VfsWrite { offset: write.offset, bytes: write.bytes },
        ),
        SqliteVfsOp::Truncate { size } => VfsFileOp::Truncate { size },
        SqliteVfsOp::Delete => VfsFileOp::Delete,
    }
}

/// Turns an operation on a file into the form that a log entry carries.
pub fn log_op(op: &VfsFileOp) -> (converted: SqliteVfsOp)
    ensures
        converted@ == op@,
{
    match op {
        VfsFileOp::Write(write) => SqliteVfsOp::Write(
            SqliteVfsWrite { offset: write.offset, bytes: copy_bytes(write.bytes.as_slice()) },
        ),
        VfsFileOp::Truncate { size } => SqliteVfsOp::Truncate { size: *size },
        VfsFileOp::Delete => SqliteVfsOp::Delete,
    }
}

/// Copies an operation of a log entry.
pub fn copy_sqlite_op(op: &SqliteVfsOp) -> (copy: SqliteVfsOp)
    ensures
        copy@ == op@,
{
    match op {
        SqliteVfsOp::Write(write) => SqliteVfsOp::Write(
            SqliteVfsWrite { offset: write.offset, bytes: copy_bytes(write.bytes.as_slice()) },
        ),
        SqliteVfsOp::Truncate { size } => SqliteVfsOp::Truncate { size: *size },
        SqliteVfsOp::Delete => SqliteVfsOp::Delete,
    }
}

/// Turns the operations of a log entry into operations on a file.
pub fn convert_sqlite_ops(ops: &Vec<SqliteVfsOp>) -> (converted: Vec<VfsFileOp>)
    ensures
        crate::commit::op_models(converted@) == logged_ops(ops@),
{
    let mut converted: Vec<VfsFileOp> = Vec::new();
    let mut i: usize = 0;
    while i < ops.len()
        invariant
            i <= ops.len(),
            converted@.len() == i,
            forall|k: int| 0 <= k < i ==> (#[trigger] converted@[k])@ == ops@[k]@,
        decreases ops.len() - i,
    {
        converted.push(convert_sqlite_op(copy_sqlite_op(&ops[i])));
        i = i + 1;
    }
    assert(crate::commit::op_models(converted@) =~= logged_ops(ops@));
    converted
}

/// Turns operations on a file into the form that a log entry carries.
pub fn log_ops(ops: &Vec<VfsFileOp>) -> (converted: Vec<SqliteVfsOp>)
    ensures
        logged_ops(converted@) == crate::commit::op_models(ops@),
{
    let mut converted: Vec<SqliteVfsOp> = Vec::new();
    let mut i: usize = 0;
    while i < ops.len()
        invariant
            i <= ops.len(),
            converted@.len() == i,
            forall|k: int| 0 <= k < i ==> (#[trigger] converted@[k])@ == ops@[k]@,
        decreases ops.len() - i,
    {
        converted.push(log_op(&ops[i]));
        i = i + 1;
    }
    assert(logged_ops(converted@) =~= crate::commit::op_models(ops@));
    converted
}

/// Turns a batch of a log entry into a batch of file operations. The batch that
/// [`log_batch`] made has the same model, so nothing is lost on the way through the
/// log.
pub fn convert_sqlite_batch(batch: &SqliteVfsBatch) -> (converted: VfsSyncBatch)
    ensures
        converted@ == batch@,
{
    VfsSyncBatch {
        database: batch.database.clone(),
        file_path: batch.file_path.clone(),
        file_kind: convert_sqlite_file_kind(batch.file_kind),
        ops: convert_sqlite_ops(&batch.ops),
    }
}

/// Turns a batch of file operations into the form that a log entry carries.
pub fn log_batch(batch: &VfsSyncBatch) -> (converted: SqliteVfsBatch)
    ensures
        converted@ == batch@,
{
    SqliteVfsBatch {
        database: batch.database.clone(),
        file_path: batch.file_path.clone(),
        file_kind: log_file_kind(batch.file_kind),
        ops: log_ops(&batch.ops),
    }
}

/// The bytes that one operation carries.
pub fn sqlite_op_payload_bytes(op: &SqliteVfsOp) -> (payload: usize)
    ensures
        payload == op_payload(op@),
{
    match op {
        SqliteVfsOp::Write(write) => write.bytes.len(),
        _ => 0,
    }
}

/// The bytes that the operations carry.
pub fn sqlite_ops_payload_bytes(ops: &Vec<SqliteVfsOp>) -> (payload: usize)
    requires
        ops_payload(logged_ops(ops@)) <= usize::MAX,
    ensures
        payload == ops_payload(logged_ops(ops@)),
{
    let ghost models = logged_ops(ops@);
    let mut payload: usize = 0;
    let mut i: usize = 0;
    assert(models.take(0) =~= Seq::<FileOp>::empty());
    while i < ops.len()
        invariant
            i <= ops.len(),
            models == logged_ops(ops@),
            ops_payload(models) <= usize::MAX,
            payload == ops_payload(models.take(i as int)),
        decreases ops.len() - i,
    {
        proof {
            lemma_part_payload(models, i + 1);
            assert(models.take(i + 1).drop_last() =~= models.take(i as int));
        }
        payload = payload + sqlite_op_payload_bytes(&ops[i]);
        i = i + 1;
    }
    assert(models.take(ops@.len() as int) =~= models);
    payload
}

} // verus!
