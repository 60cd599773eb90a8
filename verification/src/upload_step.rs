//! How a node applies the requests of an upload: what is written, what is counted, and
//! what is refused.

use vstd::prelude::*;
use vstd::slice::*;
use vstd::string::*;

use crate::bytes;
use crate::bytes::append_bytes;
use crate::large_payload;
use crate::large_payload::begin_large_payload;
use crate::large_payload::ExpiredUploads;
use crate::large_payload::LargePayloadConfig;
use crate::large_payload::LargePayloadError;
use crate::large_payload::LargePayloadErrorKind;
use crate::large_payload::LargePayloadKind;
use crate::large_payload::LargePayloadMetrics;
use crate::large_payload::LargePayloadPressure;
use crate::page_batch;
use crate::page_batch::StoreWrite;
use crate::page_batch::WriteModel;
use crate::staging;
use crate::staging::drop_large_payload;
use crate::staging::stage_chunk;
use crate::staging::stage_manifest;

verus! {

broadcast use {group_string_axioms, group_slice_axioms};

/// The key under which the counters of uploads are kept.
pub fn large_payload_metrics_key() -> (key: Vec<u8>)
    ensures
        key@ == bytes::text("openraft/large_sqlite_batch_metrics"),
{
    let mut key: Vec<u8> = Vec::new();
    append_bytes(&mut key, "openraft/large_sqlite_batch_metrics".as_bytes());
    assert(key@ =~= bytes::text("openraft/large_sqlite_batch_metrics"));
    key
}

/// The counters after a refusal.
pub open spec fn after_refusal(metrics: LargePayloadMetrics) -> LargePayloadMetrics {
    LargePayloadMetrics { uploads_rejected: (metrics.uploads_rejected + 1) as u64, ..metrics }
}

/// Begins an upload. A refused one writes nothing and is counted as such.
pub fn begin_upload(
    kind: LargePayloadKind,
    upload_id: &str,
    announced: (u32, u64),
    manifest: Vec<u8>,
    stored_keys: &Vec<Vec<u8>>,
    pressure: LargePayloadPressure,
    config: &LargePayloadConfig,
    expired: u64,
    metrics: &mut LargePayloadMetrics,
) -> (begun: Result<Vec<StoreWrite>, LargePayloadError>)
    requires
        pressure.uploads < usize::MAX,
        old(metrics).uploads_started < u64::MAX,
        old(metrics).uploads_rejected < u64::MAX,
        old(metrics).cleanup_uploads + expired <= u64::MAX,
    ensures
        match large_payload::begin_refusal(
            kind,
            upload_id@,
            announced.0,
            announced.1,
            pressure,
            *config,
        ) {
            Some(refusal) => (begun matches Err(error) && error@ == refusal) && *final(metrics)
                == after_refusal(*old(metrics)),
            None => (begun matches Ok(writes) && page_batch::write_models(writes@)
                == staging::drop_writes(
                stored_keys@,
                staging::upload_prefix_of(kind, bytes::text(upload_id)),
            ).push(
                WriteModel {
                    key: staging::manifest_key_of(kind, bytes::text(upload_id)),
                    value: Some(manifest@),
                },
            )) && *final(metrics) == (LargePayloadMetrics {
                uploads_started: (old(metrics).uploads_started + 1) as u64,
                cleanup_uploads: (old(metrics).cleanup_uploads + expired) as u64,
                ..*old(metrics)
            }),
        },
{
    match begin_large_payload(kind, upload_id, announced.0, announced.1, pressure, config) {
        Err(error) => {
            metrics.record_rejected();
            Err(error)
        },
        Ok(_) => {
            metrics.record_started(expired);
            Ok(stage_manifest(kind, upload_id, manifest, stored_keys))
        },
    }
}

/// Stages a chunk of an upload. A chunk of an upload that was not announced is refused,
/// which is counted.
pub fn chunk_upload(
    kind: LargePayloadKind,
    upload_id: &str,
    chunk_index: u32,
    announced: bool,
    chunk: Vec<u8>,
    payload: u64,
    metrics: &mut LargePayloadMetrics,
) -> (staged: Result<StoreWrite, LargePayloadError>)
    requires
        old(metrics).chunks_staged < u64::MAX,
        old(metrics).uploads_rejected < u64::MAX,
        old(metrics).bytes_staged + payload <= u64::MAX,
    ensures
        if announced {
            (staged matches Ok(put) && put@ == (WriteModel {
                key: staging::chunk_key_of(kind, bytes::text(upload_id), chunk_index),
                value: Some(chunk@),
            })) && *final(metrics) == (LargePayloadMetrics {
                chunks_staged: (old(metrics).chunks_staged + 1) as u64,
                bytes_staged: (old(metrics).bytes_staged + payload) as u64,
                ..*old(metrics)
            })
        } else {
            (staged matches Err(error) && error@ == (
                LargePayloadErrorKind::NotFound,
                staging::missing_manifest_message(large_payload::label_of(kind), upload_id@),
            )) && *final(metrics) == after_refusal(*old(metrics))
        },
{
    if announced {
        metrics.record_chunk(payload);
    } else {
        metrics.record_rejected();
    }
    stage_chunk(kind, upload_id, chunk_index, announced, chunk)
}

/// The counters after an upload was committed.
pub open spec fn after_commit(metrics: LargePayloadMetrics, total_bytes: u64) -> LargePayloadMetrics {
    LargePayloadMetrics {
        uploads_committed: (metrics.uploads_committed + 1) as u64,
        bytes_committed: (metrics.bytes_committed + total_bytes) as u64,
        ..metrics
    }
}

/// Drops an upload whose payload was applied.
pub fn committed_upload(
    kind: LargePayloadKind,
    upload_id: &str,
    total_bytes: u64,
    stored_keys: &Vec<Vec<u8>>,
    metrics: &mut LargePayloadMetrics,
) -> (writes: Vec<StoreWrite>)
    requires
        old(metrics).uploads_committed < u64::MAX,
        old(metrics).bytes_committed + total_bytes <= u64::MAX,
    ensures
        page_batch::write_models(writes@) == staging::drop_writes(
            stored_keys@,
            staging::upload_prefix_of(kind, bytes::text(upload_id)),
        ),
        *final(metrics) == after_commit(*old(metrics), total_bytes),
{
    metrics.record_committed(total_bytes);
    drop_large_payload(kind, upload_id, stored_keys)
}

/// Drops an upload on request.
pub fn aborted_upload(
    kind: LargePayloadKind,
    upload_id: &str,
    stored_keys: &Vec<Vec<u8>>,
    metrics: &mut LargePayloadMetrics,
) -> (writes: Vec<StoreWrite>)
    requires
        old(metrics).uploads_aborted < u64::MAX,
    ensures
        page_batch::write_models(writes@) == staging::drop_writes(
            stored_keys@,
            staging::upload_prefix_of(kind, bytes::text(upload_id)),
        ),
        *final(metrics) == (LargePayloadMetrics {
            uploads_aborted: (old(metrics).uploads_aborted + 1) as u64,
            ..*old(metrics)
        }),
{
    metrics.record_aborted();
    drop_large_payload(kind, upload_id, stored_keys)
}

/// The removals of all records of some uploads.
pub open spec fn expiry_writes(kind: LargePayloadKind, uploads: Seq<String>, keys: Seq<Vec<u8>>) -> Seq<
    WriteModel,
>
    decreases uploads.len(),
{
    if uploads.len() == 0 {
        Seq::empty()
    } else {
        expiry_writes(kind, uploads.drop_last(), keys) + staging::drop_writes(
            keys,
            staging::upload_prefix_of(kind, vstd::utf8::encode_utf8(uploads.last()@)),
        )
    }
}

fn append_expiry(
    writes: &mut Vec<StoreWrite>,
    kind: LargePayloadKind,
    uploads: &Vec<String>,
    keys: &Vec<Vec<u8>>,
)
    ensures
        page_batch::write_models(final(writes)@) == page_batch::write_models(old(writes)@)
            + expiry_writes(kind, uploads@, keys@),
{
    let ghost before = page_batch::write_models(writes@);
    let mut i: usize = 0;
    assert(before + expiry_writes(kind, uploads@.take(0), keys@) =~= before);
    while i < uploads.len()
        invariant
            i <= uploads@.len(),
            page_batch::write_models(writes@) == before + expiry_writes(
                kind,
                uploads@.take(i as int),
                keys@,
            ),
        decreases uploads@.len() - i,
    {
        let ghost so_far = page_batch::write_models(writes@);
        assert(uploads@.take(i + 1).drop_last() =~= uploads@.take(i as int));
        let mut dropped = drop_large_payload(kind, uploads[i].as_str(), keys);
        let ghost more = page_batch::write_models(dropped@);
        let ghost longer = writes@ + dropped@;
        writes.append(&mut dropped);
        assert(page_batch::write_models(longer) =~= so_far + more);
        assert(page_batch::write_models(writes@) =~= before + expiry_writes(
            kind,
            uploads@.take(i + 1),
            keys@,
        ));
        i = i + 1;
    }
    assert(uploads@.take(i as int) =~= uploads@);
}

/// Drops the uploads that have expired, given the stored keys of all uploads. A cleanup
/// that finds something is counted.
pub fn clean_up_expired(
    expired: &ExpiredUploads,
    batch_keys: &Vec<Vec<u8>>,
    page_delta_keys: &Vec<Vec<u8>>,
    metrics: &mut LargePayloadMetrics,
) -> (writes: Vec<StoreWrite>)
    requires
        old(metrics).cleanup_runs < u64::MAX,
    ensures
        page_batch::write_models(writes@) == expiry_writes(
            LargePayloadKind::SqliteBatch,
            expired.batches@,
            batch_keys@,
        ) + expiry_writes(
            LargePayloadKind::SqlitePageDelta,
            expired.page_deltas@,
            page_delta_keys@,
        ),
        *final(metrics) == if expired.batches@.len() + expired.page_deltas@.len() > 0 {
            LargePayloadMetrics {
                cleanup_runs: (old(metrics).cleanup_runs + 1) as u64,
                ..*old(metrics)
            }
        } else {
            *old(metrics)
        },
{
    let mut writes: Vec<StoreWrite> = Vec::new();
    assert(page_batch::write_models(writes@) =~= Seq::empty());
    append_expiry(&mut writes, LargePayloadKind::SqliteBatch, &expired.batches, batch_keys);
    append_expiry(
        &mut writes,
        LargePayloadKind::SqlitePageDelta,
        &expired.page_deltas,
        page_delta_keys,
    );
    if expired.batches.len() > 0 || expired.page_deltas.len() > 0 {
        metrics.record_cleanup();
    }
    assert(page_batch::write_models(writes@) =~= expiry_writes(
        LargePayloadKind::SqliteBatch,
        expired.batches@,
        batch_keys@,
    ) + expiry_writes(
        LargePayloadKind::SqlitePageDelta,
        expired.page_deltas@,
        page_delta_keys@,
    ));
    writes
}

} // verus!
