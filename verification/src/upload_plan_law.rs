//! How an upload that travels in chunks is announced, sent and put together.

use vstd::prelude::*;

use crate::large_payload;
use crate::large_payload::LargePayloadError;
use crate::large_payload::LargePayloadErrorKind;
use crate::large_payload::LargePayloadKind;
use crate::message_law;
use crate::ordered::SqliteCurrentPageDeleteRange;
use crate::ordered::SqliteDatabasePageSyncEntry;
use crate::page_sync::SqliteDatabasePageSyncDelta;
use crate::request::LargeSqliteBatchRequest;
use crate::request::LargeSqliteBatchManifest;
use crate::request::LargeSqlitePageDeltaManifest;
use crate::request::LargeSqlitePageDeltaRequest;
use crate::staging;
use crate::text;
use crate::types;
use crate::types::SqliteVfsBatch;
use crate::types::SqliteVfsOp;
use crate::upload;

verus! {

/// An upload is committed if and only if it was announced with chunks, every chunk is there,
/// and together they have the bytes that were announced.
pub proof fn law_upload_commits_when_complete(
    kind: LargePayloadKind,
    upload_id: Seq<char>,
    announced: Option<(u32, u64)>,
    payloads: Seq<Option<nat>>,
)
    ensures
        staging::payload_sum(payloads) <= u64::MAX ==> (staging::commit_refusal(
            kind,
            upload_id,
            announced,
            payloads,
        ) is None <==> announced is Some && (announced->0).0 > 0 && (forall|i: int|
            0 <= i < payloads.len() ==> (#[trigger] payloads[i]) is Some) && staging::payload_sum(
            payloads,
        ) == (announced->0).1),
        announced is None || (announced->0).0 == 0 || (exists|i: int|
            0 <= i < payloads.len() && (#[trigger] payloads[i]) is None) ==> staging::commit_refusal(
            kind,
            upload_id,
            announced,
            payloads,
        ) is Some,
        staging::payload_sum(payloads) > u64::MAX && announced is Some && (announced->0).1 < u64::MAX
            ==> staging::commit_refusal(kind, upload_id, announced, payloads) is Some,
{
    staging::lemma_none_missing(payloads);
}

/// The chunk that is said to be missing is the first one that is.
pub proof fn law_first_missing_chunk_is_named(payloads: Seq<Option<nat>>)
    ensures
        staging::first_missing(payloads) matches Some(at) ==> at < payloads.len()
            && payloads[at as int] is None && forall|i: int|
            0 <= i < at ==> (#[trigger] payloads[i]) is Some,
    decreases payloads.len(),
{
    if payloads.len() > 0 {
        let earlier = payloads.drop_last();
        law_first_missing_chunk_is_named(earlier);
        staging::lemma_none_missing(earlier);
        if let Some(at) = staging::first_missing(payloads) {
            assert forall|i: int| 0 <= i < at implies (#[trigger] payloads[i]) is Some by {
                assert(earlier[i] == payloads[i]);
            }
        }
    }
}

/// What a chunk carries counts once, and what a chunk holds is put behind what the chunks
/// before it hold.
pub proof fn law_chunks_are_put_together_in_order(
    payloads: Seq<Option<nat>>,
    payload: nat,
    batches: Seq<Option<Vec<SqliteVfsOp>>>,
    ops: Vec<SqliteVfsOp>,
    deltas: Seq<Option<Vec<SqliteDatabasePageSyncEntry>>>,
    entries: Vec<SqliteDatabasePageSyncEntry>,
    at: int,
)
    ensures
        staging::payload_sum(Seq::empty()) == 0,
        staging::payload_sum(payloads.push(Some(payload))) == staging::payload_sum(payloads)
            + payload,
        staging::joined_ops(Seq::empty()).len() == 0,
        staging::joined_ops(batches.push(Some(ops))) == staging::joined_ops(batches)
            + types::logged_ops(ops@),
        staging::joined_entries(Seq::empty()).len() == 0,
        staging::joined_entries(deltas.push(Some(entries))) == staging::joined_entries(deltas)
            + entries@,
        staging::op_payloads(batches).len() == batches.len(),
        0 <= at < batches.len() ==> staging::op_payloads(batches)[at] == (match batches[at] {
            Some(found) => Some(types::ops_payload(types::logged_ops(found@))),
            None => None,
        }),
        staging::entry_payloads(deltas).len() == deltas.len(),
        0 <= at < deltas.len() ==> staging::entry_payloads(deltas)[at] == (match deltas[at] {
            Some(found) => Some(staging::entries_payload(found@)),
            None => None,
        }),
{
    assert(payloads.push(Some(payload)).drop_last() =~= payloads);
    assert(batches.push(Some(ops)).drop_last() =~= batches);
    assert(deltas.push(Some(entries)).drop_last() =~= deltas);
}

/// A record carries its key and its value; what a delta carries besides are the keys that it
/// deletes and, for each range of pages, the prefix and a page number.
pub proof fn law_payload_of_a_delta(
    entries: Seq<SqliteDatabasePageSyncEntry>,
    entry: SqliteDatabasePageSyncEntry,
    keys: Seq<Vec<u8>>,
    key: Vec<u8>,
    ranges: Seq<SqliteCurrentPageDeleteRange>,
    range: SqliteCurrentPageDeleteRange,
    delta: SqliteDatabasePageSyncDelta,
)
    ensures
        staging::entries_payload(Seq::empty()) == 0 && upload::keys_payload(Seq::empty()) == 0
            && upload::ranges_payload(Seq::empty()) == 0,
        staging::entries_payload(entries.push(entry)) == staging::entries_payload(entries)
            + entry.key@.len() + entry.value@.len(),
        upload::keys_payload(keys.push(key)) == upload::keys_payload(keys) + key@.len(),
        upload::ranges_payload(ranges.push(range)) == upload::ranges_payload(ranges)
            + range.current_pages_prefix@.len() + 8,
        upload::delta_payload(delta) == staging::entries_payload(delta.entries@)
            + upload::keys_payload(delta.metadata_deletes@) + upload::ranges_payload(
            delta.current_page_deletes@,
        ),
{
    assert(entries.push(entry).drop_last() =~= entries);
    assert(keys.push(key).drop_last() =~= keys);
    assert(ranges.push(range).drop_last() =~= ranges);
}

/// A large batch is announced for its own file, sent in its chunks from the first to the
/// last, and then committed, all under one name.
pub proof fn law_large_batch_is_sent_in_order(
    requests: Seq<LargeSqliteBatchRequest>,
    batch: SqliteVfsBatch,
    chunks: Seq<Vec<SqliteVfsOp>>,
    upload_id: Seq<char>,
    total_bytes: u64,
    created_at_ms: u64,
    i: int,
)
    requires
        upload::is_batch_upload(requests, batch, chunks, upload_id, total_bytes, created_at_ms),
    ensures
        requests.len() == chunks.len() + 2,
        requests[0] matches LargeSqliteBatchRequest::Begin(manifest) && {
            &&& manifest.upload_id@ == upload_id
            &&& manifest.database == batch.database
            &&& manifest.file_path == batch.file_path
            &&& manifest.file_kind == batch.file_kind
            &&& manifest.total_chunks == chunks.len()
            &&& manifest.total_bytes == total_bytes
            &&& manifest.created_at_ms == created_at_ms
        },
        1 <= i <= chunks.len() ==> (requests[i] matches LargeSqliteBatchRequest::Chunk(chunk) && {
            &&& chunk.upload_id@ == upload_id
            &&& chunk.chunk_index == i - 1
            &&& chunk.ops == chunks[i - 1]
        }),
        requests[requests.len() - 1] matches LargeSqliteBatchRequest::Commit { upload_id: name }
            && name@ == upload_id,
{
    if 1 <= i <= chunks.len() {
        let k = i - 1;
        assert(requests[k + 1] is Chunk);
    }
}

/// A large delta is announced with what it deletes and the bytes that it copies, sent in its
/// chunks from the first to the last, and then committed, all under one name.
pub proof fn law_large_page_delta_is_sent_in_order(
    requests: Seq<LargeSqlitePageDeltaRequest>,
    database: Seq<char>,
    delta: SqliteDatabasePageSyncDelta,
    chunks: Seq<Vec<SqliteDatabasePageSyncEntry>>,
    upload_id: Seq<char>,
    created_at_ms: u64,
    i: int,
)
    requires
        upload::is_page_delta_upload(requests, database, delta, chunks, upload_id, created_at_ms),
    ensures
        requests.len() == chunks.len() + 2,
        requests[0] matches LargeSqlitePageDeltaRequest::Begin(manifest) && {
            &&& manifest.upload_id@ == upload_id
            &&& manifest.database@ == database
            &&& manifest.min_exclusive_version == delta.min_exclusive_version
            &&& manifest.total_chunks == chunks.len()
            &&& manifest.total_bytes == staging::entries_payload(delta.entries@)
            &&& manifest.metadata_deletes == delta.metadata_deletes
            &&& manifest.current_page_deletes == delta.current_page_deletes
            &&& manifest.created_at_ms == created_at_ms
        },
        1 <= i <= chunks.len() ==> (requests[i] matches LargeSqlitePageDeltaRequest::Chunk(chunk)
            && {
            &&& chunk.upload_id@ == upload_id
            &&& chunk.chunk_index == i - 1
            &&& chunk.entries@ == chunks[i - 1]@
        }),
        requests[requests.len() - 1] matches LargeSqlitePageDeltaRequest::Commit { upload_id: name }
            && name@ == upload_id,
{
    if 1 <= i <= chunks.len() {
        let k = i - 1;
        assert(requests[k + 1] is Chunk);
    }
}

/// A delta that was put together is the one that was announced: its records are those of the
/// chunks in their order, and it deletes and cuts what the announcement says.
pub proof fn law_assembled_page_delta_is_the_announced_one(
    upload_id: Seq<char>,
    manifest: Option<LargeSqlitePageDeltaManifest>,
    chunks: Seq<Option<Vec<SqliteDatabasePageSyncEntry>>>,
    assembled: Result<SqliteDatabasePageSyncDelta, LargePayloadError>,
)
    requires
        staging::assembles_page_delta(upload_id, manifest, chunks, assembled),
    ensures
        assembled matches Ok(delta) ==> manifest is Some && {
            let announced = manifest->0;
            &&& announced.total_chunks > 0
            &&& forall|i: int| 0 <= i < chunks.len() ==> (#[trigger] chunks[i]) is Some
            &&& delta.min_exclusive_version == announced.min_exclusive_version
            &&& delta.metadata_deletes == announced.metadata_deletes
            &&& delta.current_page_deletes == announced.current_page_deletes
            &&& delta.entries@ == staging::joined_entries(chunks)
            &&& large_payload::as_far_as_u64(
                staging::payload_sum(staging::entry_payloads(chunks)),
            ) == announced.total_bytes
        },
{
    let payloads = staging::entry_payloads(chunks);
    staging::lemma_none_missing(payloads);
    if assembled is Ok {
        assert forall|i: int| 0 <= i < chunks.len() implies (#[trigger] chunks[i]) is Some by {
            assert(payloads[i] is Some);
        }
    }
}

/// A size of chunks that is none counts as one.
pub proof fn law_chunks_hold_something(n: usize)
    ensures
        upload::at_least_one(n) >= 1,
        n >= 1 ==> upload::at_least_one(n) == n,
        upload::at_least_one(0) == 1,
{
}

/// A manifest announces the chunks and the bytes that it names; without one, nothing is
/// announced.
pub proof fn law_manifests_announce_their_upload(
    batch: LargeSqliteBatchManifest,
    delta: LargeSqlitePageDeltaManifest,
)
    ensures
        staging::batch_announces(Some(batch)) == Some((batch.total_chunks, batch.total_bytes)),
        staging::batch_announces(None) is None,
        staging::page_delta_announces(Some(delta)) == Some(
            (delta.total_chunks, delta.total_bytes),
        ),
        staging::page_delta_announces(None) is None,
{
}

/// An upload that cannot be committed is refused for the first thing that is wrong with it:
/// that it was not announced, that it has no chunks, that a chunk is missing, or that it
/// has another number of bytes. The refusal names the upload.
pub proof fn law_refused_uploads_say_why(
    kind: LargePayloadKind,
    upload_id: Seq<char>,
    announced: Option<(u32, u64)>,
    payloads: Seq<Option<nat>>,
    chunk: int,
)
    ensures
        ({
            let refusal = staging::commit_refusal(kind, upload_id, announced, payloads);
            let batch = kind == LargePayloadKind::SqliteBatch;
            let missing = announced is Some && (announced->0).0 > 0 && 0 <= chunk < payloads.len()
                && payloads[chunk] is None && forall|i: int|
                0 <= i < chunk ==> (#[trigger] payloads[i]) is Some;
            &&& refusal matches Some((_, message)) ==> message_law::names(message, upload_id)
            &&& announced is None ==> (refusal matches Some((why, _)) && why
                == LargePayloadErrorKind::NotFound)
            &&& announced is Some && (announced->0).0 == 0 ==> (refusal matches Some((why, _))
                && why == LargePayloadErrorKind::InvalidData)
            &&& missing && batch ==> (refusal matches Some((why, message)) && why
                == LargePayloadErrorKind::Other && message_law::ends_with(
                message,
                text::number_text(chunk as nat),
            ))
            &&& missing && !batch ==> (refusal matches Some((why, message)) && why
                == LargePayloadErrorKind::NotFound && message_law::ends_with(
                message,
                text::number_text(chunk as nat),
            ))
            &&& announced is Some && (announced->0).0 > 0 && refusal is Some && (forall|i: int|
                0 <= i < payloads.len() ==> (#[trigger] payloads[i]) is Some) && batch ==> (
            refusal->0).0 == LargePayloadErrorKind::Other
            &&& announced is Some && (announced->0).0 > 0 && refusal is Some && (forall|i: int|
                0 <= i < payloads.len() ==> (#[trigger] payloads[i]) is Some) && !batch ==> (
            refusal->0).0 == LargePayloadErrorKind::InvalidData
        }),
{
    let label = large_payload::label_of(kind);
    staging::lemma_none_missing(payloads);
    law_first_missing_chunk_is_named(payloads);
    let first: nat = match staging::first_missing(payloads) {
        Some(at) => at,
        None => 0,
    };
    let seen = large_payload::as_far_as_u64(staging::payload_sum(payloads));
    let expected: u64 = match announced {
        Some((_, total_bytes)) => total_bytes,
        None => 0,
    };
    message_law::law_uploads_are_named(label, upload_id, first, expected, seen);
}

} // verus!
