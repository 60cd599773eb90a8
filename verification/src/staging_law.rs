//! What holds of staged uploads as a whole.

use vstd::prelude::*;
use vstd::slice::*;
use vstd::string::*;

use crate::bytes;
use crate::large_payload::LargePayloadError;
use crate::large_payload::LargePayloadKind;
use crate::large_payload::LargePayloadMetrics;
use crate::ordered::SqliteDatabasePageSyncEntry;
use crate::page_batch;
use crate::page_batch::WriteModel;
use crate::page_law;
use crate::page_sync;
use crate::page_sync::SqliteDatabasePageSyncDelta;
use crate::request::LargeSqlitePageDeltaManifest;
use crate::staging;
use crate::upload_step;

verus! {

broadcast use {group_string_axioms, group_slice_axioms};

proof fn lemma_staging_markers()
    ensures
        bytes::text("/").len() == 1,
        bytes::text("/")[0] == 47,
        bytes::text("manifest").len() == 8,
        bytes::text("manifest")[0] == 109,
        bytes::text("/manifest") == bytes::text("/") + bytes::text("manifest"),
        bytes::text("/manifest").last() == 116,
        bytes::text("chunk/").len() == 6,
        bytes::text("chunk/")[0] == 99,
        bytes::text("openraft/large_sqlite_batch/").len() == 28,
        bytes::text("openraft/large_sqlite_batch/")[22] == 98,
        bytes::text("openraft/large_sqlite_page_delta/").len() == 33,
        bytes::text("openraft/large_sqlite_page_delta/")[22] == 112,
{
    reveal_strlit("/");
    reveal_strlit("manifest");
    reveal_strlit("/manifest");
    reveal_strlit("chunk/");
    reveal_strlit("openraft/large_sqlite_batch/");
    reveal_strlit("openraft/large_sqlite_page_delta/");
    assert(is_ascii("/"));
    assert(is_ascii("manifest"));
    assert(is_ascii("/manifest"));
    assert(is_ascii("chunk/"));
    assert(is_ascii("openraft/large_sqlite_batch/"));
    assert(is_ascii("openraft/large_sqlite_page_delta/"));
    assert(bytes::text("/manifest") =~= bytes::text("/") + bytes::text("manifest"));
}

/// The records of one upload are all under its prefix and never share a key; of
/// them, only the one that announces the upload is taken for a manifest.
pub proof fn law_records_of_an_upload_are_apart(
    kind: LargePayloadKind,
    upload_id: Seq<u8>,
    chunk: u32,
    other: u32,
)
    ensures
        bytes::has_prefix(
            staging::manifest_key_of(kind, upload_id),
            staging::upload_prefix_of(kind, upload_id),
        ),
        bytes::has_prefix(
            staging::chunk_key_of(kind, upload_id, chunk),
            staging::upload_prefix_of(kind, upload_id),
        ),
        staging::manifest_key_of(kind, upload_id) != staging::chunk_key_of(kind, upload_id, chunk),
        staging::chunk_key_of(kind, upload_id, chunk) == staging::chunk_key_of(
            kind,
            upload_id,
            other,
        ) ==> chunk == other,
        bytes::has_suffix(staging::manifest_key_of(kind, upload_id), bytes::text("/manifest")),
        !bytes::has_suffix(
            staging::chunk_key_of(kind, upload_id, chunk),
            bytes::text("/manifest"),
        ),
{
    lemma_staging_markers();
    bytes::lemma_decimal20_round_trip(chunk as u64);
    bytes::lemma_decimal20_round_trip(other as u64);
    let prefix = staging::upload_prefix_of(kind, upload_id);
    let manifest = staging::manifest_key_of(kind, upload_id);
    let key = staging::chunk_key_of(kind, upload_id, chunk);
    let other_key = staging::chunk_key_of(kind, upload_id, other);
    assert(manifest.subrange(0, prefix.len() as int) =~= prefix);
    assert(key.subrange(0, prefix.len() as int) =~= prefix);
    assert(manifest[prefix.len() as int] == 109);
    assert(key[prefix.len() as int] == 99);
    assert(key.skip(prefix.len() as int + 6) =~= bytes::decimal20(chunk as u64));
    assert(other_key.skip(prefix.len() as int + 6) =~= bytes::decimal20(other as u64));
    let suffix = bytes::text("/manifest");
    assert(manifest.subrange(manifest.len() - suffix.len(), manifest.len() as int) =~= suffix);
    assert(key.last() == bytes::decimal20(chunk as u64)[19]);
    if bytes::has_suffix(key, suffix) {
        assert(key.subrange(key.len() - suffix.len(), key.len() as int).last() == key.last());
    }
}

/// No key lies under the prefixes of two different uploads, as long as the names of
/// uploads hold no slash.
pub proof fn law_uploads_never_meet(
    kind: LargePayloadKind,
    upload_id: Seq<u8>,
    other_kind: LargePayloadKind,
    other_id: Seq<u8>,
    key: Seq<u8>,
)
    requires
        !upload_id.contains(47u8),
        !other_id.contains(47u8),
        bytes::has_prefix(key, staging::upload_prefix_of(kind, upload_id)),
        bytes::has_prefix(key, staging::upload_prefix_of(other_kind, other_id)),
    ensures
        kind == other_kind,
        upload_id == other_id,
{
    lemma_staging_markers();
    let one = staging::upload_prefix_of(kind, upload_id);
    let two = staging::upload_prefix_of(other_kind, other_id);
    assert forall|i: int| 0 <= i < one.len() implies key[i] == one[i] by {
        assert(key.subrange(0, one.len() as int)[i] == one[i]);
    }
    assert forall|i: int| 0 <= i < two.len() implies key[i] == two[i] by {
        assert(key.subrange(0, two.len() as int)[i] == two[i]);
    }
    assert(one[22] == staging::area_of(kind)[22]);
    assert(two[22] == staging::area_of(other_kind)[22]);
    assert(key[22] == one[22] && key[22] == two[22]);
    assert(kind == other_kind);
    let start = staging::area_of(kind).len() as int;
    let n = upload_id.len() as int;
    let m = other_id.len() as int;
    assert(one[start + n] == 47 && two[start + m] == 47);
    if n < m {
        assert(two[start + n] == other_id[n]);
        assert(other_id.contains(other_id[n]));
    } else if m < n {
        assert(one[start + m] == upload_id[m]);
        assert(upload_id.contains(upload_id[m]));
    }
    assert forall|i: int| 0 <= i < n implies upload_id[i] == other_id[i] by {
        assert(one[start + i] == upload_id[i]);
        assert(two[start + i] == other_id[i]);
    }
    assert(upload_id =~= other_id);
}

/// Whether `keys` lists at least the stored keys under a prefix.
pub open spec fn covers_prefix(
    store: Map<Seq<u8>, Seq<u8>>,
    keys: Seq<Vec<u8>>,
    prefix: Seq<u8>,
) -> bool {
    forall|key: Seq<u8>| #[trigger]
        store.dom().contains(key) && bytes::has_prefix(key, prefix) ==> lists(keys, key)
}

/// Whether a key is listed.
pub open spec fn lists(keys: Seq<Vec<u8>>, key: Seq<u8>) -> bool {
    exists|i: int| 0 <= i < keys.len() && (#[trigger] keys[i])@ == key
}

proof fn lemma_drops(
    store: Map<Seq<u8>, Seq<u8>>,
    keys: Seq<Vec<u8>>,
    prefix: Seq<u8>,
    key: Seq<u8>,
)
    ensures
        ({
            let after = page_batch::store_after_all(store, staging::drop_writes(keys, prefix));
            &&& bytes::has_prefix(key, prefix) && lists(keys, key) ==> !after.dom().contains(key)
            &&& !(bytes::has_prefix(key, prefix) && lists(keys, key)) ==> after.dom().contains(key)
                == store.dom().contains(key) && (store.dom().contains(key) ==> after[key]
                == store[key])
        }),
    decreases keys.len(),
{
    if keys.len() > 0 {
        let earlier = keys.drop_last();
        lemma_drops(store, earlier, prefix, key);
        let writes = staging::drop_writes(keys, prefix);
        assert(lists(keys, key) <==> lists(earlier, key) || keys.last()@ == key) by {
            if lists(earlier, key) {
                let i = choose|i: int| 0 <= i < earlier.len() && (#[trigger] earlier[i])@ == key;
                assert(keys[i]@ == key);
            }
            if keys.last()@ == key {
                assert(keys[keys.len() - 1]@ == key);
            }
            if lists(keys, key) {
                let i = choose|i: int| 0 <= i < keys.len() && (#[trigger] keys[i])@ == key;
                if i < earlier.len() {
                    assert(earlier[i]@ == key);
                }
            }
        }
        if bytes::has_prefix(keys.last()@, prefix) {
            assert(writes.drop_last() =~= staging::drop_writes(earlier, prefix));
        }
    }
}

/// Once an upload is dropped, no record of it is left, and no other record has
/// changed.
pub proof fn law_dropped_upload_is_gone(
    store: Map<Seq<u8>, Seq<u8>>,
    keys: Seq<Vec<u8>>,
    kind: LargePayloadKind,
    upload_id: Seq<u8>,
    key: Seq<u8>,
)
    requires
        covers_prefix(store, keys, staging::upload_prefix_of(kind, upload_id)),
    ensures
        ({
            let prefix = staging::upload_prefix_of(kind, upload_id);
            let after = page_batch::store_after_all(store, staging::drop_writes(keys, prefix));
            &&& bytes::has_prefix(key, prefix) ==> !after.dom().contains(key)
            &&& !bytes::has_prefix(key, prefix) ==> after.dom().contains(key)
                == store.dom().contains(key) && (store.dom().contains(key) ==> after[key]
                == store[key])
        }),
{
    lemma_drops(store, keys, staging::upload_prefix_of(kind, upload_id), key);
}

/// The writes that stage an upload: what it announces, then its chunks in order.
pub open spec fn staging_writes(
    keys: Seq<Vec<u8>>,
    kind: LargePayloadKind,
    upload_id: Seq<u8>,
    manifest: Seq<u8>,
    chunks: Seq<Seq<u8>>,
) -> Seq<WriteModel> {
    staging::drop_writes(keys, staging::upload_prefix_of(kind, upload_id)).push(
        WriteModel { key: staging::manifest_key_of(kind, upload_id), value: Some(manifest) },
    ) + Seq::new(
        chunks.len(),
        |i: int|
            WriteModel {
                key: staging::chunk_key_of(kind, upload_id, i as u32),
                value: Some(chunks[i]),
            },
    )
}

/// What an upload stages is what its commit finds: the announcement and every chunk
/// as they were staged, and no further chunk, whatever an earlier upload of the same
/// name had left.
pub proof fn law_staged_upload_reads_back(
    store: Map<Seq<u8>, Seq<u8>>,
    keys: Seq<Vec<u8>>,
    kind: LargePayloadKind,
    upload_id: Seq<u8>,
    manifest: Seq<u8>,
    chunks: Seq<Seq<u8>>,
    chunk: u32,
)
    requires
        covers_prefix(store, keys, staging::upload_prefix_of(kind, upload_id)),
        chunks.len() <= u32::MAX,
    ensures
        ({
            let after = page_batch::store_after_all(
                store,
                staging_writes(keys, kind, upload_id, manifest, chunks),
            );
            let manifest_key = staging::manifest_key_of(kind, upload_id);
            let chunk_key = staging::chunk_key_of(kind, upload_id, chunk);
            &&& after.dom().contains(manifest_key) && after[manifest_key] == manifest
            &&& after.dom().contains(chunk_key) <==> chunk < chunks.len()
            &&& chunk < chunks.len() ==> after[chunk_key] == chunks[chunk as int]
        }),
{
    let prefix = staging::upload_prefix_of(kind, upload_id);
    let drops = staging::drop_writes(keys, prefix);
    let writes = staging_writes(keys, kind, upload_id, manifest, chunks);
    let manifest_key = staging::manifest_key_of(kind, upload_id);
    let chunk_key = staging::chunk_key_of(kind, upload_id, chunk);
    let n = drops.len() as int;
    assert forall|i: int| n < i < writes.len() implies (#[trigger] writes[i]).key != manifest_key by {
        law_records_of_an_upload_are_apart(kind, upload_id, (i - n - 1) as u32, 0);
    }
    assert(writes[n].key == manifest_key);
    page_law::lemma_store_after_last(store, writes, n);
    if chunk < chunks.len() {
        let at = n + 1 + chunk;
        assert(writes[at].key == chunk_key);
        assert forall|i: int| at < i < writes.len() implies (#[trigger] writes[i]).key != chunk_key by {
            law_records_of_an_upload_are_apart(kind, upload_id, (i - n - 1) as u32, chunk);
        }
        page_law::lemma_store_after_last(store, writes, at);
    } else {
        law_records_of_an_upload_are_apart(kind, upload_id, chunk, 0);
        law_dropped_upload_is_gone(store, keys, kind, upload_id, chunk_key);
        let rest = writes.skip(n);
        assert(writes =~= drops + rest);
        page_law::lemma_store_after_concat(store, drops, rest);
        assert forall|i: int| 0 <= i < rest.len() implies (#[trigger] rest[i]).key != chunk_key by {
            if i > 0 {
                law_records_of_an_upload_are_apart(kind, upload_id, (i - 1) as u32, chunk);
            }
        }
        page_law::lemma_store_after_lookup(
            page_batch::store_after_all(store, drops),
            rest,
            chunk_key,
        );
    }
}

/// Whether an upload of a delta of pages is complete: it was announced with at least one
/// chunk, every chunk is there, and they carry as many bytes as were announced.
pub open spec fn is_complete_upload(
    manifest: Option<LargeSqlitePageDeltaManifest>,
    chunks: Seq<Option<Vec<SqliteDatabasePageSyncEntry>>>,
) -> bool {
    &&& manifest matches Some(announced)
    &&& announced.total_chunks > 0
    &&& forall|i: int| 0 <= i < chunks.len() ==> (#[trigger] chunks[i]) is Some
    &&& staging::payload_sum(staging::entry_payloads(chunks)) == announced.total_bytes
}

/// What the commit of a delta of pages works on: the store of the database, the store
/// with the staged uploads, and the counters.
pub struct CommitModel {
    pub target: Map<Seq<u8>, Seq<u8>>,
    pub staged: Map<Seq<u8>, Seq<u8>>,
    pub counted: LargePayloadMetrics,
}

/// The state after a delta was applied, its upload was dropped and the commit was
/// counted. `scans` are the target's keys under the prefixes of the delta's ranges, and
/// `keys` the staged keys of the upload.
pub open spec fn after_page_delta_commit(
    state: CommitModel,
    delta: SqliteDatabasePageSyncDelta,
    scans: Seq<Vec<Vec<u8>>>,
    upload_id: Seq<u8>,
    keys: Seq<Vec<u8>>,
    total_bytes: u64,
) -> CommitModel {
    CommitModel {
        target: page_batch::store_after_all(state.target, page_sync::delta_writes(delta, scans)),
        staged: page_batch::store_after_all(
            state.staged,
            staging::drop_writes(
                keys,
                staging::upload_prefix_of(LargePayloadKind::SqlitePageDelta, upload_id),
            ),
        ),
        counted: upload_step::after_commit(state.counted, total_bytes),
    }
}

/// An upload of a delta of pages is committed exactly if it is complete. Its commit
/// applies the announced deletions and the records of all chunks in order, leaves no
/// staged record of the upload and changes no other, and counts one upload and its bytes.
pub proof fn law_complete_page_delta_is_committed(
    upload_id: &str,
    manifest: Option<LargeSqlitePageDeltaManifest>,
    chunks: Seq<Option<Vec<SqliteDatabasePageSyncEntry>>>,
    assembled: Result<SqliteDatabasePageSyncDelta, LargePayloadError>,
    state: CommitModel,
    scans: Seq<Vec<Vec<u8>>>,
    keys: Seq<Vec<u8>>,
)
    requires
        staging::assembles_page_delta(upload_id@, manifest, chunks, assembled),
        manifest matches Some(announced) ==> chunks.len() == announced.total_chunks,
        staging::payload_sum(staging::entry_payloads(chunks)) <= u64::MAX,
        covers_prefix(
            state.staged,
            keys,
            staging::upload_prefix_of(LargePayloadKind::SqlitePageDelta, bytes::text(upload_id)),
        ),
        manifest matches Some(announced) ==> state.counted.bytes_committed + announced.total_bytes
            <= u64::MAX,
        state.counted.uploads_committed < u64::MAX,
    ensures
        assembled is Ok <==> is_complete_upload(manifest, chunks),
        assembled matches Ok(delta) ==> {
            let announced = manifest->0;
            let after = after_page_delta_commit(
                state,
                delta,
                scans,
                bytes::text(upload_id),
                keys,
                announced.total_bytes,
            );
            let prefix = staging::upload_prefix_of(
                LargePayloadKind::SqlitePageDelta,
                bytes::text(upload_id),
            );
            &&& delta.entries@ == staging::joined_entries(chunks)
            &&& delta.metadata_deletes == announced.metadata_deletes
            &&& delta.current_page_deletes == announced.current_page_deletes
            &&& delta.min_exclusive_version == announced.min_exclusive_version
            &&& forall|key: Seq<u8>| #[trigger]
                after.staged.dom().contains(key) <==> state.staged.dom().contains(key)
                    && !bytes::has_prefix(key, prefix)
            &&& forall|key: Seq<u8>| #[trigger]
                after.staged.dom().contains(key) ==> after.staged[key] == state.staged[key]
            &&& after.counted.uploads_committed == state.counted.uploads_committed + 1
            &&& after.counted.bytes_committed == state.counted.bytes_committed
                + announced.total_bytes
        },
{
    let payloads = staging::entry_payloads(chunks);
    staging::lemma_none_missing(payloads);
    assert((forall|i: int| 0 <= i < chunks.len() ==> (#[trigger] chunks[i]) is Some) <==> (forall|
        i: int,
    |
        0 <= i < payloads.len() ==> (#[trigger] payloads[i]) is Some)) by {
        if forall|i: int| 0 <= i < chunks.len() ==> (#[trigger] chunks[i]) is Some {
            assert forall|i: int| 0 <= i < payloads.len() implies (#[trigger] payloads[i]) is Some by {
                assert(chunks[i] is Some);
            }
        }
        if forall|i: int| 0 <= i < payloads.len() ==> (#[trigger] payloads[i]) is Some {
            assert forall|i: int| 0 <= i < chunks.len() implies (#[trigger] chunks[i]) is Some by {
                assert(payloads[i] is Some);
            }
        }
    }
    if let Ok(delta) = assembled {
        let kind = LargePayloadKind::SqlitePageDelta;
        let name = bytes::text(upload_id);
        let prefix = staging::upload_prefix_of(kind, name);
        let after = page_batch::store_after_all(state.staged, staging::drop_writes(keys, prefix));
        assert forall|key: Seq<u8>|
            (#[trigger] after.dom().contains(key) <==> state.staged.dom().contains(key)
                && !bytes::has_prefix(key, prefix)) && (after.dom().contains(key) ==> after[key]
                == state.staged[key]) by {
            law_dropped_upload_is_gone(state.staged, keys, kind, name, key);
        }
    }
}

} // verus!
