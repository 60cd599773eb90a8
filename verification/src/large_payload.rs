//! Requests that are too large for one log entry: they are announced, staged chunk
//! by chunk, and then committed or dropped.

use vstd::prelude::*;
use vstd::string::*;

use crate::text;
use crate::text::append_number;

verus! {

broadcast use group_string_axioms;

/// The limits of what may be staged at a time.
#[derive(Debug, Clone, Copy, PartialEq, Eq, Structural)]
pub struct LargePayloadConfig {
    pub max_staged_uploads: usize,
    pub max_staged_bytes: u64,
    pub staging_ttl_ms: u64,
    pub cleanup_batch_size: usize,
}

impl Default for LargePayloadConfig {
    fn default() -> (config: LargePayloadConfig)
        ensures
            config.max_staged_uploads == 32,
            config.max_staged_bytes == 512 * 1024 * 1024,
            config.staging_ttl_ms == 30 * 60 * 1000,
            config.cleanup_batch_size == 128,
    {
        LargePayloadConfig {
            max_staged_uploads: 32,
            max_staged_bytes: 512 * 1024 * 1024,
            staging_ttl_ms: 30 * 60 * 1000,
            cleanup_batch_size: 128,
        }
    }
}

/// Raises limits of zero to one, except for the time to live, where zero means that
/// nothing expires.
pub fn sanitize_large_payload_config(config: LargePayloadConfig) -> (sane: LargePayloadConfig)
    ensures
        sane.max_staged_uploads == if config.max_staged_uploads == 0 {
            1
        } else {
            config.max_staged_uploads
        },
        sane.max_staged_bytes == if config.max_staged_bytes == 0 {
            1
        } else {
            config.max_staged_bytes
        },
        sane.staging_ttl_ms == config.staging_ttl_ms,
        sane.cleanup_batch_size == if config.cleanup_batch_size == 0 {
            1
        } else {
            config.cleanup_batch_size
        },
        1 <= sane.max_staged_uploads && 1 <= sane.max_staged_bytes && 1 <= sane.cleanup_batch_size,
        1 <= config.max_staged_uploads && 1 <= config.max_staged_bytes && 1
            <= config.cleanup_batch_size ==> sane == config,
{
    LargePayloadConfig {
        max_staged_uploads: if config.max_staged_uploads == 0 {
            1
        } else {
            config.max_staged_uploads
        },
        max_staged_bytes: if config.max_staged_bytes == 0 {
            1
        } else {
            config.max_staged_bytes
        },
        staging_ttl_ms: config.staging_ttl_ms,
        cleanup_batch_size: if config.cleanup_batch_size == 0 {
            1
        } else {
            config.cleanup_batch_size
        },
    }
}

/// Counters of what became of large payloads.
#[derive(Debug, Clone, Copy, PartialEq, Eq, Structural)]
pub struct LargePayloadMetrics {
    pub uploads_started: u64,
    pub chunks_staged: u64,
    pub bytes_staged: u64,
    pub uploads_committed: u64,
    pub bytes_committed: u64,
    pub uploads_aborted: u64,
    pub uploads_rejected: u64,
    pub cleanup_runs: u64,
    pub cleanup_uploads: u64,
    pub active_uploads: u64,
    pub active_bytes: u64,
}

impl Default for LargePayloadMetrics {
    fn default() -> (metrics: LargePayloadMetrics)
        ensures
            metrics == (LargePayloadMetrics {
                uploads_started: 0,
                chunks_staged: 0,
                bytes_staged: 0,
                uploads_committed: 0,
                bytes_committed: 0,
                uploads_aborted: 0,
                uploads_rejected: 0,
                cleanup_runs: 0,
                cleanup_uploads: 0,
                active_uploads: 0,
                active_bytes: 0,
            }),
    {
        LargePayloadMetrics {
            uploads_started: 0,
            chunks_staged: 0,
            bytes_staged: 0,
            uploads_committed: 0,
            bytes_committed: 0,
            uploads_aborted: 0,
            uploads_rejected: 0,
            cleanup_runs: 0,
            cleanup_uploads: 0,
            active_uploads: 0,
            active_bytes: 0,
        }
    }
}

impl LargePayloadMetrics {
    /// Counts an upload that was begun after `expired` others had been cleaned up.
    pub fn record_started(&mut self, expired: u64)
        requires
            old(self).uploads_started < u64::MAX,
            old(self).cleanup_uploads + expired <= u64::MAX,
        ensures
            *final(self) == (LargePayloadMetrics {
                uploads_started: (old(self).uploads_started + 1) as u64,
                cleanup_uploads: (old(self).cleanup_uploads + expired) as u64,
                ..*old(self)
            }),
    {
        self.uploads_started = self.uploads_started + 1;
        self.cleanup_uploads = self.cleanup_uploads + expired;
    }

    /// Counts a chunk that was staged.
    pub fn record_chunk(&mut self, bytes: u64)
        requires
            old(self).chunks_staged < u64::MAX,
            old(self).bytes_staged + bytes <= u64::MAX,
        ensures
            *final(self) == (LargePayloadMetrics {
                chunks_staged: (old(self).chunks_staged + 1) as u64,
                bytes_staged: (old(self).bytes_staged + bytes) as u64,
                ..*old(self)
            }),
    {
        self.chunks_staged = self.chunks_staged + 1;
        self.bytes_staged = self.bytes_staged + bytes;
    }

    /// Counts an upload that was committed.
    pub fn record_committed(&mut self, bytes: u64)
        requires
            old(self).uploads_committed < u64::MAX,
            old(self).bytes_committed + bytes <= u64::MAX,
        ensures
            *final(self) == (LargePayloadMetrics {
                uploads_committed: (old(self).uploads_committed + 1) as u64,
                bytes_committed: (old(self).bytes_committed + bytes) as u64,
                ..*old(self)
            }),
    {
        self.uploads_committed = self.uploads_committed + 1;
        self.bytes_committed = self.bytes_committed + bytes;
    }

    /// Counts an upload that was dropped on request.
    pub fn record_aborted(&mut self)
        requires
            old(self).uploads_aborted < u64::MAX,
        ensures
            *final(self) == (LargePayloadMetrics {
                uploads_aborted: (old(self).uploads_aborted + 1) as u64,
                ..*old(self)
            }),
    {
        self.uploads_aborted = self.uploads_aborted + 1;
    }

    /// Counts a request that was refused.
    pub fn record_rejected(&mut self)
        requires
            old(self).uploads_rejected < u64::MAX,
        ensures
            *final(self) == (LargePayloadMetrics {
                uploads_rejected: (old(self).uploads_rejected + 1) as u64,
                ..*old(self)
            }),
    {
        self.uploads_rejected = self.uploads_rejected + 1;
    }

    /// Counts a cleanup that found something to drop.
    pub fn record_cleanup(&mut self)
        requires
            old(self).cleanup_runs < u64::MAX,
        ensures
            *final(self) == (LargePayloadMetrics {
                cleanup_runs: (old(self).cleanup_runs + 1) as u64,
                ..*old(self)
            }),
    {
        self.cleanup_runs = self.cleanup_runs + 1;
    }

    /// The counters together with what is staged now.
    pub fn with_pressure(&self, pressure: LargePayloadPressure) -> (metrics: LargePayloadMetrics)
        ensures
            metrics == (LargePayloadMetrics {
                active_uploads: pressure.uploads as u64,
                active_bytes: pressure.bytes,
                ..*self
            }),
    {
        let mut metrics = *self;
        metrics.active_uploads = pressure.uploads as u64;
        metrics.active_bytes = pressure.bytes;
        metrics
    }
}

/// The two kinds of payload that can be staged.
#[derive(Debug, Clone, Copy, PartialEq, Eq, Structural)]
pub enum LargePayloadKind {
    SqliteBatch,
    SqlitePageDelta,
}

/// What a kind of payload is called in messages.
pub open spec fn label_of(kind: LargePayloadKind) -> Seq<char> {
    match kind {
        LargePayloadKind::SqliteBatch => "large SQLite batch"@,
        LargePayloadKind::SqlitePageDelta => "large SQLite page delta"@,
    }
}

/// What a kind of payload is called in messages.
pub fn large_payload_label(kind: LargePayloadKind) -> (label: &'static str)
    ensures
        label@ == label_of(kind),
{
    match kind {
        LargePayloadKind::SqliteBatch => "large SQLite batch",
        LargePayloadKind::SqlitePageDelta => "large SQLite page delta",
    }
}

/// Why a request for a large payload was refused.
#[derive(Debug, Clone, Copy, PartialEq, Eq, Structural)]
pub enum LargePayloadErrorKind {
    InvalidData,
    NotFound,
    OutOfMemory,
    Other,
}

/// The refusal of a request for a large payload.
#[derive(Debug, Clone, PartialEq, Eq)]
pub struct LargePayloadError {
    pub kind: LargePayloadErrorKind,
    pub message: String,
}

impl View for LargePayloadError {
    type V = (LargePayloadErrorKind, Seq<char>);

    open spec fn view(&self) -> (LargePayloadErrorKind, Seq<char>) {
        (self.kind, self.message@)
    }
}

/// What is known of an upload that is staged.
#[derive(Debug, Clone, PartialEq, Eq)]
pub struct StagedUpload {
    pub upload_id: String,
    pub total_bytes: u64,
    pub created_at_ms: u64,
}

/// How much is staged.
#[derive(Debug, Clone, Copy, PartialEq, Eq, Structural)]
pub struct LargePayloadPressure {
    pub uploads: usize,
    pub bytes: u64,
}

/// The bytes that uploads announce.
pub open spec fn announced_bytes(uploads: Seq<StagedUpload>) -> nat
    decreases uploads.len(),
{
    if uploads.len() == 0 {
        0
    } else {
        announced_bytes(uploads.drop_last()) + uploads.last().total_bytes as nat
    }
}

/// A number as far as 64 bits reach.
pub open spec fn as_far_as_u64(n: nat) -> u64 {
    if n <= u64::MAX {
        n as u64
    } else {
        u64::MAX
    }
}

fn add_uploads(pressure: &mut LargePayloadPressure, uploads: &Vec<StagedUpload>, Ghost(before): Ghost<
    nat,
>)
    requires
        old(pressure).uploads + uploads.len() <= usize::MAX,
        old(pressure).bytes == as_far_as_u64(before),
    ensures
        final(pressure).uploads == old(pressure).uploads + uploads.len(),
        final(pressure).bytes == as_far_as_u64(before + announced_bytes(uploads@)),
{
    let mut i: usize = 0;
    let mut bytes: u64 = pressure.bytes;
    while i < uploads.len()
        invariant
            i <= uploads.len(),
            bytes == as_far_as_u64(before + announced_bytes(uploads@.take(i as int))),
        decreases uploads.len() - i,
    {
        bytes = bytes.saturating_add(uploads[i].total_bytes);
        assert(uploads@.take(i + 1).drop_last() =~= uploads@.take(i as int));
        i = i + 1;
    }
    assert(uploads@.take(uploads@.len() as int) =~= uploads@);
    pressure.uploads = pressure.uploads + uploads.len();
    pressure.bytes = bytes;
}

/// How much is staged, given the uploads of both kinds.
pub fn large_payload_pressure(batches: &Vec<StagedUpload>, page_deltas: &Vec<StagedUpload>) -> (pressure:
    LargePayloadPressure)
    requires
        batches.len() + page_deltas.len() <= usize::MAX,
    ensures
        pressure.uploads == batches.len() + page_deltas.len(),
        pressure.bytes == as_far_as_u64(announced_bytes(batches@) + announced_bytes(page_deltas@)),
{
    let mut pressure = LargePayloadPressure { uploads: 0, bytes: 0 };
    add_uploads(&mut pressure, batches, Ghost(0));
    add_uploads(&mut pressure, page_deltas, Ghost(announced_bytes(batches@)));
    pressure
}

/// Why an upload of this size is not admitted now, if it is not.
pub open spec fn admission_refusal(
    label: Seq<char>,
    pressure: LargePayloadPressure,
    config: LargePayloadConfig,
    total_bytes: u64,
) -> Option<Seq<char>> {
    let uploads = pressure.uploads as nat + 1;
    let staged = as_far_as_u64(pressure.bytes as nat + total_bytes as nat);
    if uploads > config.max_staged_uploads {
        Some(
            label + " admission rejected: active uploads "@ + text::number_text(uploads)
                + " exceeds limit "@ + text::number_text(config.max_staged_uploads as nat),
        )
    } else if staged > config.max_staged_bytes {
        Some(
            label + " admission rejected: staged bytes "@ + text::number_text(staged as nat)
                + " exceeds limit "@ + text::number_text(config.max_staged_bytes as nat),
        )
    } else {
        None
    }
}

fn rejection(label: &str, what: &str, found: u64, limit: u64) -> (message: String)
    ensures
        message@ == label@ + what@ + text::number_text(found as nat) + " exceeds limit "@
            + text::number_text(limit as nat),
{
    let mut message: String = label.to_owned();
    message.append(what);
    append_number(&mut message, found);
    message.append(" exceeds limit ");
    append_number(&mut message, limit);
    message
}

/// Whether an upload of this size is admitted next to what is staged.
pub fn ensure_large_payload_admitted(
    kind: LargePayloadKind,
    pressure: LargePayloadPressure,
    config: &LargePayloadConfig,
    total_bytes: u64,
) -> (admitted: Result<(), LargePayloadError>)
    requires
        pressure.uploads < usize::MAX,
    ensures
        match admission_refusal(label_of(kind), pressure, *config, total_bytes) {
            None => admitted is Ok,
            Some(message) => admitted matches Err(error) && error@ == (
                LargePayloadErrorKind::OutOfMemory,
                message,
            ),
        },
{
    let label = large_payload_label(kind);
    let uploads: usize = pressure.uploads + 1;
    if uploads > config.max_staged_uploads {
        let message = rejection(
            label,
            " admission rejected: active uploads ",
            uploads as u64,
            config.max_staged_uploads as u64,
        );
        return Err(LargePayloadError { kind: LargePayloadErrorKind::OutOfMemory, message });
    }
    let staged: u64 = pressure.bytes.saturating_add(total_bytes);
    if staged > config.max_staged_bytes {
        let message = rejection(
            label,
            " admission rejected: staged bytes ",
            staged,
            config.max_staged_bytes,
        );
        return Err(LargePayloadError { kind: LargePayloadErrorKind::OutOfMemory, message });
    }
    Ok(())
}

/// The message for an upload that announces no chunks.
pub open spec fn no_chunks_message(label: Seq<char>, upload_id: Seq<char>) -> Seq<char> {
    label + " "@ + upload_id + " has no chunks"@
}

/// Why an upload cannot begin, if it cannot.
pub open spec fn begin_refusal(
    kind: LargePayloadKind,
    upload_id: Seq<char>,
    total_chunks: u32,
    total_bytes: u64,
    pressure: LargePayloadPressure,
    config: LargePayloadConfig,
) -> Option<(LargePayloadErrorKind, Seq<char>)> {
    if total_chunks == 0 {
        Some((LargePayloadErrorKind::InvalidData, no_chunks_message(label_of(kind), upload_id)))
    } else {
        match admission_refusal(label_of(kind), pressure, config, total_bytes) {
            Some(message) => Some((LargePayloadErrorKind::OutOfMemory, message)),
            None => None,
        }
    }
}

fn no_chunks_error(label: &str, upload_id: &str) -> (error: LargePayloadError)
    ensures
        error@ == (LargePayloadErrorKind::InvalidData, no_chunks_message(label@, upload_id@)),
{
    let mut message: String = label.to_owned();
    message.append(" ");
    message.append(upload_id);
    message.append(" has no chunks");
    LargePayloadError { kind: LargePayloadErrorKind::InvalidData, message }
}

/// Decides whether an upload may begin, given what is staged once expired uploads
/// are gone.
pub fn begin_large_payload(
    kind: LargePayloadKind,
    upload_id: &str,
    total_chunks: u32,
    total_bytes: u64,
    pressure: LargePayloadPressure,
    config: &LargePayloadConfig,
) -> (begun: Result<(), LargePayloadError>)
    requires
        pressure.uploads < usize::MAX,
    ensures
        match begin_refusal(kind, upload_id@, total_chunks, total_bytes, pressure, *config) {
            None => begun is Ok,
            Some(refusal) => begun matches Err(error) && error@ == refusal,
        },
{
    if total_chunks == 0 {
        return Err(no_chunks_error(large_payload_label(kind), upload_id));
    }
    ensure_large_payload_admitted(kind, pressure, config, total_bytes)
}

/// The time at which an upload was announced: what its manifest says, or now when
/// it says nothing.
pub fn announced_at(created_at_ms: u64, now_ms: u64) -> (announced: u64)
    ensures
        announced == if created_at_ms == 0 {
            now_ms
        } else {
            created_at_ms
        },
{
    if created_at_ms == 0 {
        now_ms
    } else {
        created_at_ms
    }
}

/// Whether an upload has been staged for at least the time to live.
pub open spec fn is_expired(upload: StagedUpload, now_ms: u64, ttl_ms: u64) -> bool {
    &&& ttl_ms > 0
    &&& upload.created_at_ms > 0
    &&& now_ms - upload.created_at_ms >= ttl_ms
}

/// The uploads that have expired, in order.
pub open spec fn expired_ids(uploads: Seq<StagedUpload>, now_ms: u64, ttl_ms: u64) -> Seq<Seq<char>>
    decreases uploads.len(),
{
    if uploads.len() == 0 {
        Seq::empty()
    } else if is_expired(uploads.last(), now_ms, ttl_ms) {
        expired_ids(uploads.drop_last(), now_ms, ttl_ms).push(uploads.last().upload_id@)
    } else {
        expired_ids(uploads.drop_last(), now_ms, ttl_ms)
    }
}

/// The first so many of a sequence, or all of them.
pub open spec fn at_most(ids: Seq<Seq<char>>, room: int) -> Seq<Seq<char>> {
    if ids.len() <= room {
        ids
    } else {
        ids.take(room)
    }
}

/// The models of texts.
pub open spec fn id_models(ids: Seq<String>) -> Seq<Seq<char>> {
    Seq::new(ids.len(), |i: int| ids[i]@)
}

fn pick_expired(uploads: &Vec<StagedUpload>, now_ms: u64, ttl_ms: u64, room: usize) -> (ids: Vec<
    String,
>)
    requires
        ttl_ms > 0,
    ensures
        id_models(ids@) == at_most(expired_ids(uploads@, now_ms, ttl_ms), room as int),
{
    let mut ids: Vec<String> = Vec::new();
    let mut i: usize = 0;
    assert(id_models(ids@) =~= at_most(expired_ids(uploads@.take(0), now_ms, ttl_ms), room as int));
    while i < uploads.len()
        invariant
            i <= uploads.len(),
            ttl_ms > 0,
            ids@.len() <= room,
            id_models(ids@) == at_most(
                expired_ids(uploads@.take(i as int), now_ms, ttl_ms),
                room as int,
            ),
        decreases uploads.len() - i,
    {
        let ghost so_far = expired_ids(uploads@.take(i as int), now_ms, ttl_ms);
        let ghost picked = id_models(ids@);
        assert(uploads@.take(i + 1).drop_last() =~= uploads@.take(i as int));
        assert(uploads@.take(i + 1).last() == uploads@[i as int]);
        let upload = &uploads[i];
        if ids.len() < room {
            if upload.created_at_ms > 0 && now_ms.saturating_sub(upload.created_at_ms) >= ttl_ms {
                ids.push(upload.upload_id.clone());
                assert(id_models(ids@) =~= picked.push(upload.upload_id@));
            }
        } else {
            assert(at_most(so_far.push(upload.upload_id@), room as int) =~= at_most(
                so_far,
                room as int,
            ));
        }
        i = i + 1;
    }
    assert(uploads@.take(uploads@.len() as int) =~= uploads@);
    ids
}

/// The uploads that a cleanup drops.
#[derive(Debug, Clone, PartialEq, Eq)]
pub struct ExpiredUploads {
    pub batches: Vec<String>,
    pub page_deltas: Vec<String>,
}

/// Picks the uploads that a cleanup drops: those that have expired, batches first,
/// and no more than the configuration allows at a time.
pub fn expired_large_payloads(
    batches: &Vec<StagedUpload>,
    page_deltas: &Vec<StagedUpload>,
    config: &LargePayloadConfig,
    now_ms: u64,
) -> (expired: ExpiredUploads)
    ensures
        id_models(expired.batches@) == at_most(
            expired_ids(batches@, now_ms, config.staging_ttl_ms),
            config.cleanup_batch_size as int,
        ),
        id_models(expired.page_deltas@) == at_most(
            expired_ids(page_deltas@, now_ms, config.staging_ttl_ms),
            config.cleanup_batch_size - expired.batches@.len(),
        ),
        expired.batches@.len() + expired.page_deltas@.len() <= config.cleanup_batch_size,
{
    if config.staging_ttl_ms == 0 {
        proof {
            lemma_nothing_expires(batches@, now_ms);
            lemma_nothing_expires(page_deltas@, now_ms);
        }
        let expired = ExpiredUploads { batches: Vec::new(), page_deltas: Vec::new() };
        assert(id_models(expired.batches@) =~= Seq::empty());
        assert(id_models(expired.page_deltas@) =~= Seq::empty());
        return expired;
    }
    let first = pick_expired(batches, now_ms, config.staging_ttl_ms, config.cleanup_batch_size);
    assert(first@.len() == id_models(first@).len());
    let room: usize = config.cleanup_batch_size - first.len();
    let second = pick_expired(page_deltas, now_ms, config.staging_ttl_ms, room);
    assert(second@.len() == id_models(second@).len());
    ExpiredUploads { batches: first, page_deltas: second }
}

proof fn lemma_nothing_expires(uploads: Seq<StagedUpload>, now_ms: u64)
    ensures
        expired_ids(uploads, now_ms, 0) == Seq::<Seq<char>>::empty(),
    decreases uploads.len(),
{
    if uploads.len() > 0 {
        lemma_nothing_expires(uploads.drop_last(), now_ms);
    }
}

/// What is admitted keeps the staging area within its limits: if it was within them
/// before, it is within them with the new upload. The limits hold of every state
/// that begins empty and only ever admits.
pub proof fn law_admission_keeps_the_limits(
    kind: LargePayloadKind,
    upload_id: Seq<char>,
    total_chunks: u32,
    uploads: Seq<StagedUpload>,
    upload: StagedUpload,
    pressure: LargePayloadPressure,
    config: LargePayloadConfig,
)
    requires
        pressure.uploads == uploads.len(),
        pressure.bytes == as_far_as_u64(announced_bytes(uploads)),
        begin_refusal(kind, upload_id, total_chunks, upload.total_bytes, pressure, config) is None,
        config.max_staged_bytes < u64::MAX,
    ensures
        uploads.push(upload).len() <= config.max_staged_uploads,
        announced_bytes(uploads.push(upload)) <= config.max_staged_bytes,
{
    assert(uploads.push(upload).drop_last() =~= uploads);
}

} // verus!
