//! What a log entry asks the replicas to do, and what they answer.

use vstd::prelude::*;
use vstd::string::*;

use crate::hlc;
use crate::hlc::HybridClock;
use crate::hlc::HybridTimestamp;
use crate::ordered::SqliteCurrentPageDeleteRange;
use crate::ordered::SqliteDatabasePageSyncEntry;
use crate::page_sync::SqliteDatabasePageSyncDelta;
use crate::text;
use crate::text::append_number;
use crate::types::SqliteFileKind;
use crate::types::SqliteVfsBatch;
use crate::types::SqliteVfsOp;

verus! {

/// When a request was committed.
#[derive(Debug, Clone, Copy, PartialEq, Eq, Structural)]
pub struct OrionRaftRequestMeta {
    pub commit_ts: HybridTimestamp,
}

/// A delta of pages for one database.
#[derive(Debug, Clone, PartialEq, Eq)]
pub struct SqliteDatabasePageDeltaRequest {
    pub database: String,
    pub delta: SqliteDatabasePageSyncDelta,
}

/// What is announced of a delta of pages that travels in chunks.
#[derive(Debug, Clone, PartialEq, Eq)]
pub struct LargeSqlitePageDeltaManifest {
    pub upload_id: String,
    pub database: String,
    pub min_exclusive_version: u64,
    pub total_chunks: u32,
    pub total_bytes: u64,
    pub metadata_deletes: Vec<Vec<u8>>,
    pub current_page_deletes: Vec<SqliteCurrentPageDeleteRange>,
    pub created_at_ms: u64,
}

/// One chunk of a delta of pages.
#[derive(Debug, Clone, PartialEq, Eq)]
pub struct LargeSqlitePageDeltaChunk {
    pub upload_id: String,
    pub chunk_index: u32,
    pub entries: Vec<SqliteDatabasePageSyncEntry>,
}

/// A step of a delta of pages that travels in chunks.
#[derive(Debug, Clone, PartialEq, Eq)]
pub enum LargeSqlitePageDeltaRequest {
    Begin(LargeSqlitePageDeltaManifest),
    Chunk(LargeSqlitePageDeltaChunk),
    Commit { upload_id: String },
    Abort { upload_id: String },
}

/// What is announced of a batch of operations that travels in chunks.
#[derive(Debug, Clone, PartialEq, Eq)]
pub struct LargeSqliteBatchManifest {
    pub upload_id: String,
    pub database: String,
    pub file_path: String,
    pub file_kind: SqliteFileKind,
    pub total_chunks: u32,
    pub total_bytes: u64,
    pub created_at_ms: u64,
}

/// One chunk of a batch of operations.
#[derive(Debug, Clone, PartialEq, Eq)]
pub struct LargeSqliteBatchChunk {
    pub upload_id: String,
    pub chunk_index: u32,
    pub ops: Vec<SqliteVfsOp>,
}

/// A step of a batch of operations that travels in chunks.
#[derive(Debug, Clone, PartialEq, Eq)]
pub enum LargeSqliteBatchRequest {
    Begin(LargeSqliteBatchManifest),
    Chunk(LargeSqliteBatchChunk),
    Commit { upload_id: String },
    Abort { upload_id: String },
}

/// What one log entry asks for.
#[derive(Debug, Clone, PartialEq, Eq)]
pub struct OrionRaftRequest {
    pub meta: Option<OrionRaftRequestMeta>,
    pub sqlite_batches: Vec<SqliteVfsBatch>,
    pub sqlite_page_deltas: Vec<SqliteDatabasePageDeltaRequest>,
    pub large_sqlite_page_delta: Option<LargeSqlitePageDeltaRequest>,
    pub large_sqlite_batch: Option<LargeSqliteBatchRequest>,
}

/// What a replica answers once an entry is applied.
#[derive(Debug, Clone, Copy, PartialEq, Eq, Structural)]
pub struct OrionRaftResponse {
    pub sqlite_batches_applied: usize,
    pub sqlite_page_deltas_applied: usize,
    pub commit_ts: Option<HybridTimestamp>,
}

impl Default for OrionRaftResponse {
    fn default() -> (response: OrionRaftResponse)
        ensures
            response.sqlite_batches_applied == 0,
            response.sqlite_page_deltas_applied == 0,
            response.commit_ts is None,
    {
        OrionRaftResponse {
            sqlite_batches_applied: 0,
            sqlite_page_deltas_applied: 0,
            commit_ts: None,
        }
    }
}

impl OrionRaftRequestMeta {
    /// The meta data of a request that is committed at `commit_ts`.
    pub fn new(commit_ts: HybridTimestamp) -> (meta: OrionRaftRequestMeta)
        ensures
            meta.commit_ts == commit_ts,
    {
        OrionRaftRequestMeta { commit_ts }
    }
}

/// The text that says how many small parts a request has.
pub open spec fn counts_message(batches: nat, page_deltas: nat) -> Seq<char> {
    text::number_text(batches) + " sqlite batch(es), "@ + text::number_text(page_deltas)
        + " sqlite page delta(s)"@
}

impl OrionRaftRequest {
    /// When the request was committed.
    pub open spec fn committed_at(&self) -> Option<HybridTimestamp> {
        match self.meta {
            Some(meta) => Some(meta.commit_ts),
            None => None,
        }
    }

    /// A request that carries one batch, stamped with the next time of the clock.
    pub fn sqlite_batch(batch: SqliteVfsBatch, clock: &mut HybridClock) -> (request:
        OrionRaftRequest)
        requires
            old(clock)@.logical < u32::MAX,
        ensures
            request.committed_at() == Some(final(clock)@),
            hlc::follows(old(clock)@, final(clock)@),
            request.meta matches Some(meta) && meta.commit_ts == final(clock)@,
            hlc::before(old(clock)@, final(clock)@),
            request.sqlite_batches@ == seq![batch],
            request.sqlite_page_deltas@.len() == 0,
            request.large_sqlite_page_delta is None,
            request.large_sqlite_batch is None,
    {
        let mut sqlite_batches: Vec<SqliteVfsBatch> = Vec::new();
        sqlite_batches.push(batch);
        assert(sqlite_batches@ =~= seq![batch]);
        OrionRaftRequest {
            meta: Some(OrionRaftRequestMeta::new(clock.next())),
            sqlite_batches,
            sqlite_page_deltas: Vec::new(),
            large_sqlite_page_delta: None,
            large_sqlite_batch: None,
        }
    }

    /// A request that carries one delta of pages, stamped with the next time of the
    /// clock.
    pub fn sqlite_page_delta(
        database: String,
        delta: SqliteDatabasePageSyncDelta,
        clock: &mut HybridClock,
    ) -> (request: OrionRaftRequest)
        requires
            old(clock)@.logical < u32::MAX,
        ensures
            request.committed_at() == Some(final(clock)@),
            hlc::follows(old(clock)@, final(clock)@),
            request.meta matches Some(meta) && meta.commit_ts == final(clock)@,
            hlc::before(old(clock)@, final(clock)@),
            request.sqlite_batches@.len() == 0,
            request.sqlite_page_deltas@.len() == 1,
            request.sqlite_page_deltas@[0].database == database,
            request.sqlite_page_deltas@[0].delta == delta,
            request.large_sqlite_page_delta is None,
            request.large_sqlite_batch is None,
    {
        let mut sqlite_page_deltas: Vec<SqliteDatabasePageDeltaRequest> = Vec::new();
        sqlite_page_deltas.push(SqliteDatabasePageDeltaRequest { database, delta });
        OrionRaftRequest {
            meta: Some(OrionRaftRequestMeta::new(clock.next())),
            sqlite_batches: Vec::new(),
            sqlite_page_deltas,
            large_sqlite_page_delta: None,
            large_sqlite_batch: None,
        }
    }

    /// Stamps a request anew, past the stamp that it bears and past what the clock
    /// has handed out.
    pub fn assign_commit_timestamp(self, clock: &mut HybridClock) -> (request: OrionRaftRequest)
        requires
            hlc::later_of(old(clock)@, self.committed_at()).logical < u32::MAX,
        ensures
            request.committed_at() == Some(final(clock)@),
            hlc::follows(hlc::later_of(old(clock)@, self.committed_at()), final(clock)@),
            hlc::before(old(clock)@, final(clock)@),
            self.committed_at() matches Some(observed) ==> hlc::before(observed, final(clock)@),
            request.sqlite_batches == self.sqlite_batches,
            request.sqlite_page_deltas == self.sqlite_page_deltas,
            request.large_sqlite_page_delta == self.large_sqlite_page_delta,
            request.large_sqlite_batch == self.large_sqlite_batch,
    {
        let mut request = self;
        let observed = request.commit_timestamp();
        request.meta = Some(OrionRaftRequestMeta::new(clock.next_after(observed)));
        request
    }

    /// When the request was committed.
    pub fn commit_timestamp(&self) -> (committed: Option<HybridTimestamp>)
        ensures
            committed == self.committed_at(),
            match self.meta {
                Some(meta) => committed == Some(meta.commit_ts),
                None => committed is None,
            },
    {
        match &self.meta {
            Some(meta) => Some(meta.commit_ts),
            None => None,
        }
    }

    /// Says how many small parts the request has.
    pub fn counts_text(&self) -> (message: String)
        ensures
            message@ == counts_message(self.sqlite_batches@.len(), self.sqlite_page_deltas@.len()),
    {
        let mut message: String = String::new();
        append_number(&mut message, self.sqlite_batches.len() as u64);
        message.append(" sqlite batch(es), ");
        append_number(&mut message, self.sqlite_page_deltas.len() as u64);
        message.append(" sqlite page delta(s)");
        assert(message@ =~= counts_message(
            self.sqlite_batches@.len(),
            self.sqlite_page_deltas@.len(),
        ));
        message
    }
}

} // verus!
