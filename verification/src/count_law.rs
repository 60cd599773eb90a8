//! What holds of the counters.

use vstd::prelude::*;

use crate::checkpoint;
use crate::checkpoint::SlateDbCheckpointMaterializeMetrics;
use crate::dirty_page::SQLITE_PAGE_SIZE;
use crate::large_payload;
use crate::large_payload::LargePayloadMetrics;
use crate::page_batch;
use crate::page_law;
use crate::page_purge;
use crate::page_snapshot;
use crate::page_snapshot::SqliteDatabaseFileSnapshotChunk;
use crate::page_snapshot::SqliteDatabaseFileSnapshotFile;
use crate::raft_metrics;
use crate::snapshot_send;
use crate::snapshot_send::OpenObject;
use crate::snapshot_send::SendingModel;
use crate::snapshot_send::SentObject;
use crate::snapshot_stream;
use crate::upload_step;

verus! {

/// A sum that is held at the largest number is the sum wherever it fits, and never less
/// than what was added to.
pub proof fn law_held_sums_are_sums(left: u64, right: u64, a: usize, b: usize)
    ensures
        left + right <= u64::MAX ==> snapshot_stream::saturating_sum(left, right as int) == left
            + right && page_purge::capped_u64(left + right) == left + right
            && checkpoint::as_far_as_u64(left + right) == left + right
            && large_payload::as_far_as_u64((left + right) as nat) == left + right,
        left + right > u64::MAX ==> snapshot_stream::saturating_sum(left, right as int) == u64::MAX
            && page_purge::capped_u64(left + right) == u64::MAX && checkpoint::as_far_as_u64(
            left + right,
        ) == u64::MAX && large_payload::as_far_as_u64((left + right) as nat) == u64::MAX,
        a + b <= usize::MAX ==> page_purge::capped_usize(a + b) == a + b,
        a + b > usize::MAX ==> page_purge::capped_usize(a + b) == usize::MAX,
{
}

/// An upload that was refused is counted as such and as nothing else. One that was
/// committed is counted with its bytes.
pub proof fn law_uploads_are_counted_once(metrics: LargePayloadMetrics, total_bytes: u64)
    requires
        metrics.uploads_rejected < u64::MAX,
        metrics.uploads_committed < u64::MAX,
        metrics.bytes_committed + total_bytes <= u64::MAX,
    ensures
        ({
            let after = upload_step::after_refusal(metrics);
            &&& after.uploads_rejected == metrics.uploads_rejected + 1
            &&& after.uploads_started == metrics.uploads_started
            &&& after.chunks_staged == metrics.chunks_staged
            &&& after.bytes_staged == metrics.bytes_staged
            &&& after.uploads_committed == metrics.uploads_committed
            &&& after.bytes_committed == metrics.bytes_committed
            &&& after.uploads_aborted == metrics.uploads_aborted
            &&& after.cleanup_runs == metrics.cleanup_runs
            &&& after.cleanup_uploads == metrics.cleanup_uploads
        }),
        ({
            let after = upload_step::after_commit(metrics, total_bytes);
            &&& after.uploads_committed == metrics.uploads_committed + 1
            &&& after.bytes_committed == metrics.bytes_committed + total_bytes
            &&& after.uploads_started == metrics.uploads_started
            &&& after.chunks_staged == metrics.chunks_staged
            &&& after.bytes_staged == metrics.bytes_staged
            &&& after.uploads_aborted == metrics.uploads_aborted
            &&& after.uploads_rejected == metrics.uploads_rejected
            &&& after.cleanup_runs == metrics.cleanup_runs
            &&& after.cleanup_uploads == metrics.cleanup_uploads
        }),
{
}

/// An object of a checkpoint that the target holds with the same size is counted as reused,
/// any other as copied, with its bytes.
pub proof fn law_copied_objects_are_counted(
    metrics: SlateDbCheckpointMaterializeMetrics,
    size: u64,
    found: Option<u64>,
)
    requires
        metrics.objects_seen < usize::MAX,
        metrics.objects_copied < usize::MAX,
        metrics.objects_reused < usize::MAX,
    ensures
        ({
            let after = checkpoint::after_object(metrics, size, found);
            &&& after.objects_seen == metrics.objects_seen + 1
            &&& metrics.bytes_seen + size <= u64::MAX ==> after.bytes_seen == metrics.bytes_seen
                + size
            &&& match found {
                Some(held) if held == size => after.objects_reused == metrics.objects_reused + 1
                    && after.objects_copied == metrics.objects_copied && after.bytes_copied
                    == metrics.bytes_copied,
                _ => after.objects_copied == metrics.objects_copied + 1 && after.objects_reused
                    == metrics.objects_reused && (metrics.bytes_copied + size <= u64::MAX
                    ==> after.bytes_copied == metrics.bytes_copied + size),
            }
        }),
{
}

/// A chunk of a file takes the fewest pages that hold its bytes.
pub proof fn law_pages_of_chunks_are_counted(
    chunks: Seq<SqliteDatabaseFileSnapshotChunk>,
    upto: int,
)
    requires
        0 <= upto < chunks.len(),
    ensures
        page_snapshot::chunk_pages(chunks, 0) == 0,
        ({
            let more = page_snapshot::chunk_pages(chunks, upto + 1) - page_snapshot::chunk_pages(
                chunks,
                upto,
            );
            (more - 1) * SQLITE_PAGE_SIZE < chunks[upto].bytes@.len() <= more * SQLITE_PAGE_SIZE
        }),
{
    page_law::lemma_page_count(chunks[upto].bytes@.len() as int);
    let n = chunks[upto].bytes@.len() as int;
    let pages = page_batch::page_count(n);
    vstd::arithmetic::div_mod::lemma_fundamental_div_mod(
        n + SQLITE_PAGE_SIZE - 1,
        SQLITE_PAGE_SIZE as int,
    );
}

/// The files of a snapshot are counted with all of their chunks and pages.
pub proof fn law_files_of_a_snapshot_are_counted(
    files: Seq<SqliteDatabaseFileSnapshotFile>,
    upto: int,
)
    requires
        0 <= upto < files.len(),
    ensures
        page_snapshot::total_chunks(files, 0) == 0 && page_snapshot::total_pages(files, 0) == 0,
        page_snapshot::total_chunks(files, upto + 1) == page_snapshot::total_chunks(files, upto)
            + files[upto].chunks@.len(),
        page_snapshot::total_pages(files, upto + 1) == page_snapshot::total_pages(files, upto)
            + page_snapshot::chunk_pages(files[upto].chunks@, files[upto].chunks@.len() as int),
{
}

/// What is said to have been sent: an object counts from when it was begun, and its bytes
/// as they go out. Completing an object counts nothing twice.
pub proof fn law_sent_objects_are_counted(
    sending: SendingModel,
    object: OpenObject,
    chunk: Seq<u8>,
)
    requires
        sending.current is None,
    ensures
        ({
            let begun = SendingModel {
                current: Some(OpenObject { chunks: Seq::empty(), ..object }),
                ..sending
            };
            let before = SendingModel { current: Some(object), ..sending };
            let after = SendingModel {
                current: Some(OpenObject { chunks: object.chunks.push(chunk), ..object }),
                ..sending
            };
            let done = SendingModel {
                objects: sending.objects.push(
                    SentObject { path: object.path, chunks: object.chunks },
                ),
                ..sending
            };
            &&& snapshot_send::objects_begun(begun) == snapshot_send::objects_begun(sending) + 1
            &&& snapshot_send::object_bytes_sent(begun) == snapshot_send::object_bytes_sent(
                sending,
            )
            &&& snapshot_send::objects_begun(after) == snapshot_send::objects_begun(before)
            &&& snapshot_send::object_bytes_sent(after) == snapshot_send::object_bytes_sent(before)
                + chunk.len()
            &&& snapshot_send::objects_begun(done) == snapshot_send::objects_begun(before)
            &&& snapshot_send::object_bytes_sent(done) == snapshot_send::object_bytes_sent(before)
            &&& snapshot_send::object_bytes_sent(done) == snapshot_send::objects_size(done.objects)
            &&& snapshot_send::objects_begun(done) == done.objects.len()
        }),
{
    assert(object.chunks.push(chunk).drop_last() =~= object.chunks);
    let sent = SentObject { path: object.path, chunks: object.chunks };
    assert(sending.objects.push(sent).drop_last() =~= sending.objects);
}

/// Before anything has happened, all counters are zero.
pub proof fn law_counters_begin_at_zero(duration_ms: u64)
    ensures
        ({
            let sent = raft_metrics::no_transfers();
            &&& sent.snapshots_sent == 0 && sent.snapshots_received == 0
            &&& sent.snapshot_send_failures == 0 && sent.snapshot_receive_failures == 0
            &&& sent.manifest_bytes_sent == 0 && sent.manifest_bytes_received == 0
            &&& sent.checkpoint_objects_sent == 0 && sent.checkpoint_objects_received == 0
            &&& sent.checkpoint_object_bytes_sent == 0
            &&& sent.checkpoint_object_bytes_received == 0
            &&& sent.multipart_upload_failures == 0 && sent.multipart_upload_aborts == 0
        }),
        ({
            let pressure = page_purge::no_pressure();
            &&& pressure.databases == 0 && pressure.files == 0 && pressure.current_pages == 0
            &&& pressure.obsolete_page_versions == 0 && pressure.obsolete_versions == 0
            &&& pressure.bytes_scanned == 0 && pressure.obsolete_bytes == 0
            &&& pressure.compaction_eligible_files == 0
        }),
        ({
            let idle = page_purge::idle_compaction(duration_ms);
            &&& idle.files_scanned == 0 && idle.files_compacted == 0
            &&& idle.versions_scanned == 0 && idle.obsolete_versions == 0
            &&& idle.deleted_versions == 0 && idle.highest_deleted_version is None
            &&& idle.bytes_scanned == 0 && idle.obsolete_bytes == 0 && idle.deleted_bytes == 0
            &&& idle.duration_ms == duration_ms
        }),
{
}

} // verus!
