//! What a sync of a database file hands to the replicated log.

use vstd::prelude::*;

use crate::bytes::copy_bytes;
use crate::file_model::FileOp;

verus! {

/// What a file of a database is.
#[derive(Debug, Clone, Copy, PartialEq, Eq, Structural)]
pub enum FileKind {
    MainDb,
    Wal,
    Journal,
    Temp,
    Other,
}

/// Bytes to be written at an offset of a file.
#[derive(Debug, Clone, PartialEq, Eq)]
pub struct VfsWrite {
    pub offset: u64,
    pub bytes: Vec<u8>,
}

/// One operation on a file.
#[derive(Debug, Clone, PartialEq, Eq)]
pub enum VfsFileOp {
    Write(VfsWrite),
    Truncate { size: u64 },
    Delete,
}

/// The operations on one file that a sync makes durable together.
#[derive(Debug, Clone, PartialEq, Eq)]
pub struct VfsSyncBatch {
    pub database: String,
    pub file_path: String,
    pub file_kind: FileKind,
    pub ops: Vec<VfsFileOp>,
}

/// Where a batch was committed, and whether the commit already applied it.
#[derive(Debug, Clone, Copy, PartialEq, Eq, Structural)]
pub struct CommitDecision {
    pub raft_log_index: u64,
    pub materialized_by_commit: bool,
}

/// A batch together with its commit.
#[derive(Debug, Clone, PartialEq, Eq)]
pub struct CommittedVfsBatch {
    pub batch: VfsSyncBatch,
    pub decision: CommitDecision,
}

/// The model of a batch.
#[verifier::ext_equal]
pub ghost struct SyncBatchModel {
    pub database: Seq<char>,
    pub file_path: Seq<char>,
    pub file_kind: FileKind,
    pub ops: Seq<FileOp>,
}

impl View for VfsFileOp {
    type V = FileOp;

    open spec fn view(&self) -> FileOp {
        match self {
            VfsFileOp::Write(write) => FileOp::Write {
                offset: write.offset as int,
                bytes: write.bytes@,
            },
            VfsFileOp::Truncate { size } => FileOp::Truncate { size: *size as int },
            VfsFileOp::Delete => FileOp::Delete,
        }
    }
}

/// The models of a sequence of operations.
pub open spec fn op_models(ops: Seq<VfsFileOp>) -> Seq<FileOp> {
    Seq::new(ops.len(), |i: int| ops[i]@)
}

impl View for VfsSyncBatch {
    type V = SyncBatchModel;

    open spec fn view(&self) -> SyncBatchModel {
        SyncBatchModel {
            database: self.database@,
            file_path: self.file_path@,
            file_kind: self.file_kind,
            ops: op_models(self.ops@),
        }
    }
}

impl View for CommittedVfsBatch {
    type V = (SyncBatchModel, CommitDecision);

    open spec fn view(&self) -> (SyncBatchModel, CommitDecision) {
        (self.batch@, self.decision)
    }
}

/// Copies an operation.
pub fn copy_op(op: &VfsFileOp) -> (copy: VfsFileOp)
    ensures
        copy@ == op@,
{
    match op {
        VfsFileOp::Write(write) => VfsFileOp::Write(
            VfsWrite { offset: write.offset, bytes: copy_bytes(write.bytes.as_slice()) },
        ),
        VfsFileOp::Truncate { size } => VfsFileOp::Truncate { size: *size },
        VfsFileOp::Delete => VfsFileOp::Delete,
    }
}

/// Copies a sequence of operations.
pub fn copy_ops(ops: &Vec<VfsFileOp>) -> (copy: Vec<VfsFileOp>)
    ensures
        op_models(copy@) == op_models(ops@),
{
    let mut copy: Vec<VfsFileOp> = Vec::new();
    let mut i: usize = 0;
    while i < ops.len()
        invariant
            i <= ops.len(),
            copy@.len() == i,
            forall|k: int| 0 <= k < i ==> (#[trigger] copy@[k])@ == ops@[k]@,
        decreases ops.len() - i,
    {
        copy.push(copy_op(&ops[i]));
        i = i + 1;
    }
    assert(op_models(copy@) =~= op_models(ops@));
    copy
}

/// Copies a batch.
pub fn copy_batch(batch: &VfsSyncBatch) -> (copy: VfsSyncBatch)
    ensures
        copy@ == batch@,
{
    VfsSyncBatch {
        database: batch.database.clone(),
        file_path: batch.file_path.clone(),
        file_kind: batch.file_kind,
        ops: copy_ops(&batch.ops),
    }
}

/// The commit of a batch, if there was one.
pub open spec fn commit_of(decided: Result<CommitDecision, String>) -> Option<CommitDecision> {
    match decided {
        Ok(decision) => Some(decision),
        Err(_) => None,
    }
}

/// Makes a batch durable before the sync that made it returns.
pub trait RaftWalCommitSink: Sized {
    /// The batches that the sink was handed so far, each with its commit if there was
    /// one. A sink of which nothing is proved need not say what they are.
    open spec fn handed(&self) -> Seq<(SyncBatchModel, Option<CommitDecision>)> {
        arbitrary()
    }

    /// Commits a batch, or says why it was not committed.
    fn commit_sync_batch(&mut self, batch: VfsSyncBatch) -> (decided: Result<
        CommitDecision,
        String,
    >)
        ensures
            final(self).handed() == old(self).handed().push((batch@, commit_of(decided))),
    ;
}

/// A sink that keeps every batch, in order, and numbers them from one.
#[derive(Debug, Clone)]
pub struct RecordingCommitSink {
    committed: Vec<CommittedVfsBatch>,
}

impl View for RecordingCommitSink {
    type V = Seq<(SyncBatchModel, CommitDecision)>;

    closed spec fn view(&self) -> Seq<(SyncBatchModel, CommitDecision)> {
        Seq::new(self.committed@.len(), |i: int| self.committed@[i]@)
    }
}

impl RecordingCommitSink {
    /// A sink without batches.
    pub fn new() -> (sink: RecordingCommitSink)
        ensures
            sink@ == Seq::<(SyncBatchModel, CommitDecision)>::empty(),
    {
        let sink = RecordingCommitSink { committed: Vec::new() };
        assert(sink@ =~= Seq::<(SyncBatchModel, CommitDecision)>::empty());
        sink
    }

    /// The batches that were committed, in order.
    pub fn committed_batches(&self) -> (batches: Vec<CommittedVfsBatch>)
        ensures
            batches@.len() == self@.len(),
            forall|i: int| 0 <= i < batches@.len() ==> (#[trigger] batches@[i])@ == self@[i],
    {
        let mut batches: Vec<CommittedVfsBatch> = Vec::new();
        let mut i: usize = 0;
        while i < self.committed.len()
            invariant
                i <= self.committed.len(),
                batches@.len() == i,
                forall|k: int| 0 <= k < i ==> (#[trigger] batches@[k])@ == self.committed@[k]@,
            decreases self.committed.len() - i,
        {
            batches.push(
                CommittedVfsBatch {
                    batch: copy_batch(&self.committed[i].batch),
                    decision: self.committed[i].decision,
                },
            );
            i = i + 1;
        }
        batches
    }
}

impl Default for RecordingCommitSink {
    fn default() -> (sink: RecordingCommitSink)
        ensures
            sink@ == Seq::<(SyncBatchModel, CommitDecision)>::empty(),
    {
        RecordingCommitSink::new()
    }
}

impl RaftWalCommitSink for RecordingCommitSink {
    /// Every batch that the sink was handed was committed.
    open spec fn handed(&self) -> Seq<(SyncBatchModel, Option<CommitDecision>)> {
        Seq::new(self@.len(), |i: int| (self@[i].0, Some(self@[i].1)))
    }

    fn commit_sync_batch(&mut self, batch: VfsSyncBatch) -> (decided: Result<CommitDecision, String>)
        ensures
            decided matches Ok(decision) && !decision.materialized_by_commit && (old(self)@.len()
                < u64::MAX ==> decision.raft_log_index == old(self)@.len() + 1) && final(self)@
                == old(self)@.push((batch@, decision)),
    {
        let decision = CommitDecision {
            raft_log_index: (self.committed.len() as u64).saturating_add(1),
            materialized_by_commit: false,
        };
        self.committed.push(CommittedVfsBatch { batch, decision });
        assert(self@ =~= old(self)@.push((batch@, decision)));
        assert(self.handed() =~= old(self).handed().push((batch@, Some(decision))));
        Ok(decision)
    }
}

/// A recording sink holds exactly what it was handed: when it was handed one more batch
/// and committed it, that batch is the last that it holds, behind the others.
pub proof fn law_recorded_batches_are_the_handed_ones(
    before: RecordingCommitSink,
    after: RecordingCommitSink,
    batch: SyncBatchModel,
    decision: CommitDecision,
)
    requires
        after.handed() == before.handed().push((batch, Some(decision))),
    ensures
        after@ == before@.push((batch, decision)),
{
    assert(after.handed().len() == after@.len());
    assert forall|i: int| 0 <= i < after@.len() implies after@[i] == before@.push(
        (batch, decision),
    )[i] by {
        assert(after.handed()[i] == (after@[i].0, Some(after@[i].1)));
        if i < before@.len() {
            assert(before.handed()[i] == (before@[i].0, Some(before@[i].1)));
        }
    }
    assert(after@ =~= before@.push((batch, decision)));
}

} // verus!
