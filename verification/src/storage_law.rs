//! What may be counted on of files and of what is stored for them: reads, writes, purges,
//! and uploads that travel in chunks.

use vstd::prelude::*;
use vstd::string::*;

use crate::bytes;
use crate::file_model;
use crate::file_model::FileOp;
use crate::large_payload;
use crate::large_payload::LargePayloadConfig;
use crate::large_payload::LargePayloadKind;
use crate::large_payload::LargePayloadPressure;
use crate::large_payload::StagedUpload;
use crate::ordered;
use crate::ordered::SqliteDatabasePageSyncEntry;
use crate::page_batch;
use crate::page_batch::WriteModel;
use crate::page_keys;
use crate::page_law;
use crate::page_purge;
use crate::page_purge::SqliteDatabasePurgeMetrics;
use crate::page_read;
use crate::pending;
use crate::read_cache;
use crate::read_cache::CacheKey;
use crate::read_cache::SQLITE_READ_PAGE_CACHE_CAPACITY;
use crate::staging;
use crate::upload_step;

verus! {

broadcast use group_string_axioms;

/// A write puts its bytes where it says and nowhere else: what lies before and behind them
/// stays, and a gap up to them is zero. The file ends where it did, or with the bytes.
pub proof fn law_write_changes_its_bytes_only(
    content: Option<Seq<u8>>,
    offset: int,
    bytes: Seq<u8>,
    i: int,
)
    requires
        offset >= 0,
    ensures
        ({
            let before = match content {
                Some(held) => held,
                None => Seq::empty(),
            };
            let end = offset + bytes.len();
            let after = file_model::content_after(content, FileOp::Write { offset, bytes });
            &&& after is Some
            &&& after->0.len() == (if before.len() > end {
                before.len() as int
            } else {
                end
            })
            &&& 0 <= i < bytes.len() ==> after->0[offset + i] == bytes[i]
            &&& 0 <= i < before.len() && !(offset <= i < end) ==> after->0[i] == before[i]
            &&& before.len() <= i < offset ==> after->0[i] == 0
        }),
{
}

/// A file that is cut or extended has the size that was asked for, keeps what lies within
/// it and is zero behind what it held; a file that is deleted is not there.
pub proof fn law_resizing_keeps_what_fits(content: Option<Seq<u8>>, size: int, i: int)
    requires
        size >= 0,
    ensures
        ({
            let before = match content {
                Some(held) => held,
                None => Seq::empty(),
            };
            let after = file_model::content_after(content, FileOp::Truncate { size });
            &&& after is Some
            &&& after->0.len() == size
            &&& 0 <= i < size && i < before.len() ==> after->0[i] == before[i]
            &&& before.len() <= i < size ==> after->0[i] == 0
        }),
        file_model::content_after(content, FileOp::Delete) is None,
{
}

/// Operations are done one after the other.
pub proof fn law_operations_follow_each_other(
    content: Option<Seq<u8>>,
    ops: Seq<FileOp>,
    op: FileOp,
)
    ensures
        file_model::content_after_all(content, Seq::empty()) == content,
        file_model::content_after_all(content, ops.push(op)) == file_model::content_after(
            file_model::content_after_all(content, ops),
            op,
        ),
{
    assert(ops.push(op).drop_last() =~= ops);
}

/// A read gives what was asked for as far as the file reaches, and stops at its end.
pub proof fn law_reads_reach_to_the_end(size: int, offset: int, wanted: int)
    requires
        size >= 0,
        offset >= 0,
        wanted >= 0,
    ensures
        ({
            let count = page_read::readable(size, offset, wanted);
            &&& 0 <= count <= wanted
            &&& count > 0 ==> offset + count <= size
            &&& offset + wanted <= size ==> count == wanted
            &&& offset <= size < offset + wanted ==> count == size - offset
            &&& offset >= size ==> count == 0
        }),
{
}

/// A handle that reads is told that it read everything it asked for where its file reaches
/// that far, and otherwise what the store gave.
pub proof fn law_reads_report_what_was_given(given: int, offset: int, len: int, visible: int)
    requires
        given >= 0,
        len >= 0,
    ensures
        0 <= pending::read_count(given, offset, len, visible) <= len,
        offset + len <= visible ==> pending::read_count(given, offset, len, visible) == len,
        offset + len > visible && given <= len ==> pending::read_count(given, offset, len, visible)
            == given,
{
}

/// The size that a handle sees is that of the file after its operations.
pub proof fn law_visible_size_follows_operations(size: int, offset: int, bytes: Seq<u8>, cut: int)
    requires
        size >= 0,
        offset >= 0,
    ensures
        pending::size_after(size, FileOp::Write { offset, bytes }) >= size,
        pending::size_after(size, FileOp::Write { offset, bytes }) >= offset + bytes.len(),
        pending::size_after(size, FileOp::Write { offset, bytes }) == size || pending::size_after(
            size,
            FileOp::Write { offset, bytes },
        ) == offset + bytes.len(),
        pending::size_after(size, FileOp::Truncate { size: cut }) == cut,
        pending::size_after(size, FileOp::Delete) == 0,
{
}

/// The pages that are cached are those that were added, the latest ones: adding a page
/// changes no other, and only when the cache is full is the page dropped that came first.
pub proof fn law_cache_keeps_the_other_pages(
    cached: Seq<(CacheKey, Seq<u8>)>,
    key: CacheKey,
    bytes: Seq<u8>,
    at: int,
)
    requires
        0 <= at < cached.len() <= SQLITE_READ_PAGE_CACHE_CAPACITY,
        cached[at].0 != key,
        forall|a: int, b: int| 0 <= a < b < cached.len() ==> cached[a].0 != cached[b].0,
    ensures
        cached.len() < SQLITE_READ_PAGE_CACHE_CAPACITY || at > 0 || read_cache::cache_position(
            cached,
            key,
        ) is Some ==> read_cache::cache_after_insert(cached, key, bytes).contains(cached[at]),
{
    let after = read_cache::cache_after_insert(cached, key, bytes);
    match read_cache::cache_position(cached, key) {
        Some(place) => {
            assert(cached[place].0 == key);
            assert(after[at] == cached[at]);
        },
        None => {
            if cached.len() < SQLITE_READ_PAGE_CACHE_CAPACITY {
                assert(after[at] == cached[at]);
            } else if at > 0 {
                assert(after[at - 1] == cached[at]);
            }
        },
    }
}

/// The bytes of records, all together.
pub open spec fn all_value_bytes(scan: Seq<SqliteDatabasePageSyncEntry>, upto: int) -> int
    decreases upto,
{
    if upto <= 0 {
        0
    } else {
        all_value_bytes(scan, upto - 1) + scan[upto - 1].value@.len()
    }
}

/// A purge counts the bytes of what it removes, as far as the counter reaches.
pub proof fn law_purged_bytes_are_counted(scan: Seq<SqliteDatabasePageSyncEntry>, upto: int)
    requires
        0 <= upto <= scan.len(),
    ensures
        page_purge::value_bytes(scan, upto) == (if all_value_bytes(scan, upto) <= u64::MAX {
            all_value_bytes(scan, upto)
        } else {
            u64::MAX as int
        }),
        all_value_bytes(scan, upto) >= 0,
    decreases upto,
{
    if upto > 0 {
        law_purged_bytes_are_counted(scan, upto - 1);
    }
}

/// A purge removes the records that come first, as many as it may in one pass, and writes
/// nothing.
pub proof fn law_purge_removes_the_first_records(
    scan: Seq<SqliteDatabasePageSyncEntry>,
    max_keys: int,
    i: int,
)
    requires
        max_keys >= 0,
    ensures
        ({
            let writes = page_purge::purge_writes(scan, max_keys);
            &&& writes.len() <= max_keys && writes.len() <= scan.len()
            &&& writes.len() == max_keys || writes.len() == scan.len()
            &&& 0 <= i < writes.len() ==> writes[i].key == scan[i].key@ && writes[i].value is None
        }),
{
}

/// A purge that had nothing to do counts nothing.
pub proof fn law_idle_purge_counts_nothing(metrics: SqliteDatabasePurgeMetrics, database: Seq<char>)
    requires
        page_purge::is_idle_purge(metrics, database),
    ensures
        metrics.database@ == database,
        metrics.keys_scanned == 0 && metrics.keys_deleted == 0 && metrics.bytes_deleted == 0,
        metrics.retention_elapsed_ms is None && !metrics.skipped_for_retention && !metrics.complete,
{
}

/// A deleted database has been gone for the time since then; a clock that runs behind makes
/// that no time at all.
pub proof fn law_time_since_deletion(deleted_at_ms: u64, now_ms: u64)
    ensures
        deleted_at_ms <= now_ms ==> deleted_at_ms + page_purge::elapsed(deleted_at_ms, now_ms)
            == now_ms,
        deleted_at_ms > now_ms ==> page_purge::elapsed(deleted_at_ms, now_ms) == 0,
{
}

/// The pages among records are counted, each once.
pub proof fn law_pages_are_counted(scan: Seq<SqliteDatabasePageSyncEntry>, upto: int)
    requires
        0 <= upto <= scan.len(),
    ensures
        0 <= page_purge::page_total(scan, upto) <= upto,
        page_purge::page_bytes_total(scan, upto) >= 0,
        page_purge::page_total(scan, upto) == upto <==> forall|k: int|
            0 <= k < upto ==> page_purge::is_page((#[trigger] scan[k]).key@),
        page_purge::page_total(scan, upto) == 0 <==> forall|k: int|
            0 <= k < upto ==> !page_purge::is_page((#[trigger] scan[k]).key@),
        upto < scan.len() ==> page_purge::page_total(scan, upto + 1) - page_purge::page_total(
            scan,
            upto,
        ) == (if page_purge::is_page(scan[upto].key@) {
            1int
        } else {
            0int
        }),
        upto < scan.len() && !page_purge::is_page(scan[upto].key@) ==> page_purge::page_bytes_total(
            scan,
            upto + 1,
        ) == page_purge::page_bytes_total(scan, upto),
        upto < scan.len() && page_purge::is_page(scan[upto].key@) ==> page_purge::page_bytes_total(
            scan,
            upto + 1,
        ) == (if page_purge::page_bytes_total(scan, upto) + scan[upto].value@.len() <= u64::MAX {
            page_purge::page_bytes_total(scan, upto) + scan[upto].value@.len()
        } else {
            u64::MAX as int
        }),
    decreases upto,
{
    if upto > 0 {
        law_pages_are_counted(scan, upto - 1);
        if page_purge::page_total(scan, upto) == upto {
            assert(page_purge::is_page(scan[upto - 1].key@));
        }
        if forall|k: int| 0 <= k < upto ==> page_purge::is_page((#[trigger] scan[k]).key@) {
            assert(page_purge::is_page(scan[upto - 1].key@));
        }
        if forall|k: int| 0 <= k < upto ==> !page_purge::is_page((#[trigger] scan[k]).key@) {
            assert(!page_purge::is_page(scan[upto - 1].key@));
        }
    }
}

/// Of two versions the higher one counts, and one that is there counts before none.
pub proof fn law_higher_version_counts(left: Option<u64>, right: Option<u64>)
    ensures
        ({
            let higher = page_purge::higher_version(left, right);
            &&& higher == left || higher == right
            &&& higher is None <==> left is None && right is None
            &&& left matches Some(version) ==> higher->0 >= version
            &&& right matches Some(version) ==> higher->0 >= version
        }),
{
}

/// The databases that are compacted are those that are not left out, in their order, each as
/// often as it is listed.
pub proof fn law_excluded_databases_are_spared(
    databases: Seq<String>,
    excluded: Seq<String>,
    name: Seq<char>,
)
    ensures
        ({
            let targets = page_purge::targets_of(databases, excluded);
            &&& targets.contains(name) <==> (exists|i: int|
                0 <= i < databases.len() && (#[trigger] databases[i])@ == name) && !(exists|i: int|
                0 <= i < excluded.len() && (#[trigger] excluded[i])@ == name)
            &&& targets.len() <= databases.len()
            &&& excluded.len() == 0 ==> targets.len() == databases.len()
        }),
    decreases databases.len(),
{
    if databases.len() > 0 {
        let earlier = databases.drop_last();
        law_excluded_databases_are_spared(earlier, excluded, name);
        let before = page_purge::targets_of(earlier, excluded);
        let targets = page_purge::targets_of(databases, excluded);
        let last = databases.last()@;
        assert(databases[databases.len() - 1]@ == last);
        if targets.contains(name) {
            let k = choose|k: int| 0 <= k < targets.len() && targets[k] == name;
            if k < before.len() {
                assert(before[k] == name);
                let i = choose|i: int| 0 <= i < earlier.len() && (#[trigger] earlier[i])@ == name;
                assert(databases[i]@ == name);
            } else {
                assert(!page_purge::names_it(excluded, last));
            }
        }
        if (exists|i: int| 0 <= i < databases.len() && (#[trigger] databases[i])@ == name) && !(
        exists|i: int| 0 <= i < excluded.len() && (#[trigger] excluded[i])@ == name) {
            let i = choose|i: int| 0 <= i < databases.len() && (#[trigger] databases[i])@ == name;
            if i < earlier.len() {
                assert(earlier[i]@ == name);
                let k = choose|k: int| 0 <= k < before.len() && before[k] == name;
                assert(targets[k] == name);
            } else {
                assert(!page_purge::names_it(excluded, name));
                assert(targets[before.len() as int] == name);
            }
        }
    }
}

/// An upload expires once it has been there for the time that uploads are kept; where they
/// are kept for good, or where it is not known since when it is there, it never does.
pub proof fn law_uploads_expire_in_time(upload: StagedUpload, now_ms: u64, ttl_ms: u64)
    ensures
        ttl_ms == 0 || upload.created_at_ms == 0 ==> !large_payload::is_expired(
            upload,
            now_ms,
            ttl_ms,
        ),
        ttl_ms > 0 && upload.created_at_ms > 0 ==> (large_payload::is_expired(
            upload,
            now_ms,
            ttl_ms,
        ) <==> upload.created_at_ms + ttl_ms <= now_ms),
{
}

/// The uploads that are found to be expired are those that are, and no other; of these as
/// many are cleaned up at once as there is room for, the first ones.
pub proof fn law_expired_uploads_are_found(
    uploads: Seq<StagedUpload>,
    now_ms: u64,
    ttl_ms: u64,
    id: Seq<char>,
    room: int,
)
    requires
        room >= 0,
    ensures
        ({
            let expired = large_payload::expired_ids(uploads, now_ms, ttl_ms);
            let taken = large_payload::at_most(expired, room);
            &&& expired.contains(id) <==> exists|i: int|
                0 <= i < uploads.len() && (#[trigger] uploads[i]).upload_id@ == id
                    && large_payload::is_expired(uploads[i], now_ms, ttl_ms)
            &&& expired.len() <= uploads.len()
            &&& taken.len() <= room
            &&& taken == expired.take(taken.len() as int)
            &&& taken.len() == room || taken.len() == expired.len()
        }),
    decreases uploads.len(),
{
    let expired = large_payload::expired_ids(uploads, now_ms, ttl_ms);
    let taken = large_payload::at_most(expired, room);
    assert(taken =~= expired.take(taken.len() as int));
    if uploads.len() > 0 {
        let earlier = uploads.drop_last();
        law_expired_uploads_are_found(earlier, now_ms, ttl_ms, id, room);
        let before = large_payload::expired_ids(earlier, now_ms, ttl_ms);
        assert(uploads[uploads.len() - 1] == uploads.last());
        if expired.contains(id) {
            let k = choose|k: int| 0 <= k < expired.len() && expired[k] == id;
            if k < before.len() {
                assert(before[k] == id);
                let i = choose|i: int|
                    0 <= i < earlier.len() && (#[trigger] earlier[i]).upload_id@ == id
                        && large_payload::is_expired(earlier[i], now_ms, ttl_ms);
                assert(uploads[i] == earlier[i]);
            }
        }
        if exists|i: int|
            0 <= i < uploads.len() && (#[trigger] uploads[i]).upload_id@ == id
                && large_payload::is_expired(uploads[i], now_ms, ttl_ms) {
            let i = choose|i: int|
                0 <= i < uploads.len() && (#[trigger] uploads[i]).upload_id@ == id
                    && large_payload::is_expired(uploads[i], now_ms, ttl_ms);
            if i < earlier.len() {
                assert(earlier[i] == uploads[i]);
                let k = choose|k: int| 0 <= k < before.len() && before[k] == id;
                assert(expired[k] == id);
            } else {
                assert(expired[before.len() as int] == id);
            }
        }
    }
}

/// An upload is admitted if and only if it has chunks and, with what is staged already, stays
/// within the number of uploads and of bytes.
pub proof fn law_uploads_are_admitted_within_limits(
    kind: LargePayloadKind,
    upload_id: Seq<char>,
    total_chunks: u32,
    total_bytes: u64,
    pressure: LargePayloadPressure,
    config: LargePayloadConfig,
)
    ensures
        pressure.bytes + total_bytes <= u64::MAX ==> (large_payload::begin_refusal(
            kind,
            upload_id,
            total_chunks,
            total_bytes,
            pressure,
            config,
        ) is None <==> total_chunks > 0 && pressure.uploads + 1 <= config.max_staged_uploads
            && pressure.bytes + total_bytes <= config.max_staged_bytes),
        pressure.bytes + total_bytes > u64::MAX && config.max_staged_bytes < u64::MAX
            ==> large_payload::begin_refusal(
            kind,
            upload_id,
            total_chunks,
            total_bytes,
            pressure,
            config,
        ) is Some,
{
}

/// What is staged is announced: every upload counts with the bytes that it was announced
/// with.
pub proof fn law_announced_bytes_add_up(uploads: Seq<StagedUpload>, upload: StagedUpload)
    ensures
        large_payload::announced_bytes(Seq::empty()) == 0,
        large_payload::announced_bytes(uploads.push(upload)) == large_payload::announced_bytes(
            uploads,
        ) + upload.total_bytes,
{
    assert(uploads.push(upload).drop_last() =~= uploads);
}

/// The removals of the records under a prefix are those of the keys that have it, and no
/// other; nothing is written.
pub proof fn law_dropping_removes_what_lies_under(keys: Seq<Vec<u8>>, prefix: Seq<u8>)
    ensures
        ({
            let writes = staging::drop_writes(keys, prefix);
            &&& forall|i: int|
                0 <= i < keys.len() && bytes::has_prefix((#[trigger] keys[i])@, prefix)
                    ==> writes.contains(WriteModel { key: keys[i]@, value: None })
            &&& forall|k: int|
                0 <= k < writes.len() ==> (#[trigger] writes[k]).value is None && bytes::has_prefix(
                    writes[k].key,
                    prefix,
                ) && exists|i: int| 0 <= i < keys.len() && (#[trigger] keys[i])@ == writes[k].key
        }),
    decreases keys.len(),
{
    if keys.len() > 0 {
        let earlier = keys.drop_last();
        law_dropping_removes_what_lies_under(earlier, prefix);
        let before = staging::drop_writes(earlier, prefix);
        let writes = staging::drop_writes(keys, prefix);
        assert(keys[keys.len() - 1] == keys.last());
        assert forall|i: int|
            0 <= i < keys.len() && bytes::has_prefix(
                (#[trigger] keys[i])@,
                prefix,
            ) implies writes.contains(WriteModel { key: keys[i]@, value: None }) by {
            let write = WriteModel { key: keys[i]@, value: None };
            if i < earlier.len() {
                assert(earlier[i] == keys[i]);
                let k = choose|k: int| 0 <= k < before.len() && before[k] == write;
                assert(writes[k] == write);
            } else {
                assert(writes[before.len() as int] == write);
            }
        }
        assert forall|k: int| 0 <= k < writes.len() implies (#[trigger] writes[k]).value is None
            && bytes::has_prefix(writes[k].key, prefix) && exists|i: int|
            0 <= i < keys.len() && (#[trigger] keys[i])@ == writes[k].key by {
            if k < before.len() {
                assert(writes[k] == before[k]);
                let i = choose|i: int|
                    0 <= i < earlier.len() && (#[trigger] earlier[i])@ == before[k].key;
                assert(keys[i] == earlier[i]);
            }
        }
    }
}

/// Cleaning up removes every record of every upload that is expired, and no record of
/// another.
pub proof fn law_clean_up_removes_expired_uploads(
    kind: LargePayloadKind,
    uploads: Seq<String>,
    keys: Seq<Vec<u8>>,
)
    ensures
        ({
            let writes = upload_step::expiry_writes(kind, uploads, keys);
            &&& forall|u: int, i: int|
                0 <= u < uploads.len() && 0 <= i < keys.len() && bytes::has_prefix(
                    (#[trigger] keys[i])@,
                    staging::upload_prefix_of(
                        kind,
                        vstd::utf8::encode_utf8((#[trigger] uploads[u])@),
                    ),
                ) ==> writes.contains(WriteModel { key: keys[i]@, value: None })
            &&& forall|k: int|
                0 <= k < writes.len() ==> (#[trigger] writes[k]).value is None && exists|u: int|
                    0 <= u < uploads.len() && bytes::has_prefix(
                        writes[k].key,
                        staging::upload_prefix_of(
                            kind,
                            vstd::utf8::encode_utf8((#[trigger] uploads[u])@),
                        ),
                    )
        }),
    decreases uploads.len(),
{
    if uploads.len() > 0 {
        let earlier = uploads.drop_last();
        law_clean_up_removes_expired_uploads(kind, earlier, keys);
        let before = upload_step::expiry_writes(kind, earlier, keys);
        let writes = upload_step::expiry_writes(kind, uploads, keys);
        let prefix = staging::upload_prefix_of(kind, vstd::utf8::encode_utf8(uploads.last()@));
        let dropped = staging::drop_writes(keys, prefix);
        law_dropping_removes_what_lies_under(keys, prefix);
        assert(uploads[uploads.len() - 1] == uploads.last());
        assert forall|u: int, i: int|
            0 <= u < uploads.len() && 0 <= i < keys.len() && bytes::has_prefix(
                (#[trigger] keys[i])@,
                staging::upload_prefix_of(
                    kind,
                    vstd::utf8::encode_utf8((#[trigger] uploads[u])@),
                ),
            ) implies writes.contains(WriteModel { key: keys[i]@, value: None }) by {
            let write = WriteModel { key: keys[i]@, value: None };
            if u < earlier.len() {
                assert(earlier[u] == uploads[u]);
                let k = choose|k: int| 0 <= k < before.len() && before[k] == write;
                assert(writes[k] == write);
            } else {
                let k = choose|k: int| 0 <= k < dropped.len() && dropped[k] == write;
                assert(writes[before.len() + k] == write);
            }
        }
        assert forall|k: int| 0 <= k < writes.len() implies (#[trigger] writes[k]).value is None
            && exists|u: int|
            0 <= u < uploads.len() && bytes::has_prefix(
                writes[k].key,
                staging::upload_prefix_of(
                    kind,
                    vstd::utf8::encode_utf8((#[trigger] uploads[u])@),
                ),
            ) by {
            if k < before.len() {
                assert(writes[k] == before[k]);
                let u = choose|u: int|
                    0 <= u < earlier.len() && bytes::has_prefix(
                        before[k].key,
                        staging::upload_prefix_of(
                            kind,
                            vstd::utf8::encode_utf8((#[trigger] earlier[u])@),
                        ),
                    );
                assert(uploads[u] == earlier[u]);
            } else {
                assert(writes[k] == dropped[k - before.len()]);
            }
        }
    }
}

/// A store holds what was written last, and not what was removed last; what is not written
/// to stays.
pub proof fn law_writes_change_their_keys(
    store: Map<Seq<u8>, Seq<u8>>,
    writes: Seq<WriteModel>,
    write: WriteModel,
    key: Seq<u8>,
)
    ensures
        ({
            let before = page_batch::store_after_all(store, writes);
            let after = page_batch::store_after_all(store, writes.push(write));
            &&& write.value matches Some(value) ==> after.dom().contains(write.key)
                && after[write.key] == value
            &&& write.value is None ==> !after.dom().contains(write.key)
            &&& key != write.key ==> page_law::same_record(before, after, key)
        }),
        page_batch::store_after_all(store, Seq::empty()) == store,
{
    assert(writes.push(write).drop_last() =~= writes);
}

/// What a store gave for a read comes first, and the rest of what was asked for is zero.
pub proof fn law_missing_bytes_read_as_zero(given: Seq<u8>, len: int, i: int)
    requires
        0 <= i < len,
    ensures
        pending::filled(given, len).len() == len,
        i < given.len() ==> pending::filled(given, len)[i] == given[i],
        given.len() <= i ==> pending::filled(given, len)[i] == 0,
{
}

/// The files that take room are those that have a page: each of them is listed, and no
/// other is.
pub proof fn law_files_with_pages_take_room(
    files: Seq<Vec<u8>>,
    scan: Seq<SqliteDatabasePageSyncEntry>,
    at: int,
    file: Seq<u8>,
    page: u64,
    listed: int,
)
    requires
        page_purge::lists_paged_files(files, scan, scan.len() as int),
    ensures
        0 <= at < scan.len() && page_keys::current_key_parts(scan[at].key@) == Some((file, page))
            ==> exists|i: int| 0 <= i < files.len() && (#[trigger] files[i])@ == file,
        0 <= listed < files.len() ==> exists|k: int|
            0 <= k < scan.len() && (page_keys::current_key_parts(
                (#[trigger] scan[k]).key@,
            ) matches Some((found, _)) && found == files[listed]@),
{
    let n = scan.len() as int;
    if 0 <= at < scan.len() && page_keys::current_key_parts(scan[at].key@) == Some((file, page)) {
        assert(page_purge::paged_file(scan[at].key@) == Some(file));
        assert(page_purge::has_page(scan, n, file));
        assert(ordered::lists_key(files, file));
    }
    if 0 <= listed < files.len() {
        assert(ordered::lists_key(files, files[listed]@));
        assert(page_purge::has_page(scan, n, files[listed]@));
    }
}

} // verus!
