//! Which files a delta of pages tells of, and what it tells of them.

use vstd::prelude::*;
use vstd::string::*;

use crate::bytes;
use crate::manifest;
use crate::manifest::FileManifest;
use crate::manifest::FileManifestKind;
use crate::ordered;
use crate::ordered::SqliteCurrentPageDeleteRange;
use crate::ordered::SqliteDatabasePageSyncEntry;
use crate::page_batch;
use crate::page_keys;
use crate::page_snapshot_law;
use crate::page_sync;
use crate::page_sync::RecordKind;
use crate::page_sync::SqliteDatabasePageSyncDelta;

verus! {

broadcast use group_string_axioms;

/// A record is told by its key: the pages of a file, its manifests and the record of its
/// latest manifest, unless the path of the file holds one of the markers.
pub proof fn law_records_tell_their_kind(file: Seq<u8>, page: u64, version: u64)
    requires
        page_keys::marker_is_unambiguous(file, bytes::text("current/")),
        page_keys::marker_is_unambiguous(file, bytes::text("manifests/")),
    ensures
        page_sync::record_kind(page_keys::current_key_of(file, page)) == (RecordKind::Page {
            file,
            page,
        }),
        page_sync::record_kind(page_keys::manifest_key_of(file, version)) == (
        RecordKind::Manifest { file, version }),
        page_sync::record_kind(page_keys::latest_manifest_key_of(file)) == (RecordKind::Latest {
            file,
        }),
{
    page_keys::law_current_page_key_reads_back(file, page);
    page_keys::law_manifest_key_reads_back(file, version);
    page_keys::law_latest_manifest_key_reads_back(file);
    page_snapshot_law::lemma_other_records(file, version);
    lemma_latest_is_no_manifest(file);
}

proof fn lemma_latest_is_no_manifest(file: Seq<u8>)
    requires
        page_keys::marker_is_unambiguous(file, bytes::text("manifests/")),
    ensures
        page_keys::manifest_key_parts(page_keys::latest_manifest_key_of(file)) is None,
{
    let marker = bytes::text("manifests/");
    let tail = bytes::text("latest_manifest");
    let key = file + tail;
    let start = page_keys::path_start(file);
    reveal_strlit("manifests/");
    assert(is_ascii("manifests/"));
    assert(marker.len() == 10 && marker[9] == 47);
    page_keys::lemma_marker_bytes();
    page_keys::lemma_tail_bytes();
    page_keys::lemma_path_start_stays(file, tail);
    let path = key.skip(start);
    assert forall|k: int| !bytes::occurs_at(path, marker, k) by {
        if bytes::occurs_at(path, marker, k) {
            let at = start + k;
            let found = path.subrange(k, k + 10);
            assert(found == marker);
            assert(found[9] == key[at + 9]);
            if at + 10 <= file.len() {
                assert((file + marker).subrange(at, at + 10) =~= found);
                assert(bytes::occurs_at(file + marker, marker, at));
            } else {
                assert(key[at + 9] == tail[at + 9 - file.len()]);
            }
        }
    }
    assert(bytes::first_occurrence(path, marker) is None) by {
        reveal(bytes::first_occurrence);
    }
}

/// A file has changed since a version exactly when it has pages, or a manifest of a later
/// version, or its latest manifest is of a later version.
pub proof fn law_changed_files_are_told(
    scan: Seq<SqliteDatabasePageSyncEntry>,
    since: u64,
    file: Seq<u8>,
)
    ensures
        page_sync::is_changed(scan, scan.len() as int, since, file) <==> exists|k: int|
            0 <= k < scan.len() && #[trigger] tells_of(scan[k].key@, scan[k].value@, since, file),
{
    let n = scan.len() as int;
    if page_sync::is_changed(scan, n, since, file) {
        let k = choose|k: int|
            0 <= k < n && page_sync::changed_file((#[trigger] scan[k]).key@, scan[k].value@, since)
                == Some(file);
        match page_sync::record_kind(scan[k].key@) {
            RecordKind::Page { file: of, page } => {
                assert(page_sync::record_kind(scan[k].key@) == page_of(file, page));
            },
            RecordKind::Manifest { file: of, version } => {
                assert(page_sync::record_kind(scan[k].key@) == manifest_of(file, version));
            },
            _ => {},
        }
        assert(tells_of(scan[k].key@, scan[k].value@, since, file));
    }
    if exists|k: int|
        0 <= k < n && #[trigger] tells_of(scan[k].key@, scan[k].value@, since, file) {
        let k = choose|k: int|
            0 <= k < n && #[trigger] tells_of(scan[k].key@, scan[k].value@, since, file);
        assert(page_sync::changed_file(scan[k].key@, scan[k].value@, since) == Some(file));
    }
}

/// Whether a record is a page of the file, or tells of a version of it after `since`.
pub open spec fn tells_of(key: Seq<u8>, value: Seq<u8>, since: u64, file: Seq<u8>) -> bool {
    ||| exists|page: u64| page_sync::record_kind(key) == (#[trigger] page_of(file, page))
    ||| exists|version: u64|
        page_sync::record_kind(key) == (#[trigger] manifest_of(file, version)) && version > since
    ||| page_sync::record_kind(key) == (RecordKind::Latest { file }) && bytes::be_value(value)
        > since
}

/// A page record of a file.
pub open spec fn page_of(file: Seq<u8>, page: u64) -> RecordKind {
    RecordKind::Page { file, page }
}

/// A manifest record of a file.
pub open spec fn manifest_of(file: Seq<u8>, version: u64) -> RecordKind {
    RecordKind::Manifest { file, version }
}

/// A batch with a later version is told of: whatever file its manifest belongs to has
/// changed, its manifest and the record of the latest one go along, and so does the file's
/// size where it is there.
pub proof fn law_later_batches_are_told(
    scan: Seq<SqliteDatabasePageSyncEntry>,
    since: u64,
    delta: SqliteDatabasePageSyncDelta,
    file: Seq<u8>,
    version: u64,
)
    requires
        ordered::ordered_entries(scan),
        page_sync::is_delta_since(scan, since, delta),
        page_keys::marker_is_unambiguous(file, bytes::text("current/")),
        page_keys::marker_is_unambiguous(file, bytes::text("manifests/")),
        version > since,
        ordered::entry_map(scan).dom().contains(page_keys::manifest_key_of(file, version)),
    ensures
        delta.min_exclusive_version == since,
        page_sync::is_changed(scan, scan.len() as int, since, file),
        ({
            let store = ordered::entry_map(scan);
            let copies = ordered::entry_map(delta.entries@);
            let named = page_keys::manifest_key_of(file, version);
            let latest = page_keys::latest_manifest_key_of(file);
            let size = page_keys::size_key_of(file);
            &&& copies.dom().contains(named) && copies[named] == store[named]
            &&& store.dom().contains(latest) && bytes::be_value(store[latest]) > since
                ==> copies.dom().contains(latest) && copies[latest] == store[latest]
            &&& store.dom().contains(size) ==> copies.dom().contains(size) && copies[size]
                == store[size]
            &&& !store.dom().contains(size) ==> ordered::lists_key(delta.metadata_deletes@, size)
        }),
{
    law_records_tell_their_kind(file, 0, version);
    let store = ordered::entry_map(scan);
    let copies = ordered::entry_map(delta.entries@);
    let named = page_keys::manifest_key_of(file, version);
    let latest = page_keys::latest_manifest_key_of(file);
    let size = page_keys::size_key_of(file);
    let k = ordered::key_position(scan, named);
    assert(ordered::has_key(scan, named));
    ordered::lemma_entry_map(scan, k);
    assert(page_sync::changed_file(scan[k].key@, scan[k].value@, since) == Some(file));
    assert(page_sync::is_changed(scan, scan.len() as int, since, file));
    assert(page_sync::is_newer_metadata(named, scan[k].value@, since));
    assert(page_sync::is_direct(scan, scan.len() as int, since, named));
    assert(page_sync::delta_copies(scan, since, named));
    assert(copies.dom().contains(named));
    if store.dom().contains(latest) && bytes::be_value(store[latest]) > since {
        let l = ordered::key_position(scan, latest);
        assert(ordered::has_key(scan, latest));
        ordered::lemma_entry_map(scan, l);
        assert(page_sync::is_newer_metadata(latest, scan[l].value@, since));
        assert(page_sync::is_direct(scan, scan.len() as int, since, latest));
        assert(page_sync::delta_copies(scan, since, latest));
        assert(copies.dom().contains(latest));
    }
    if store.dom().contains(size) {
        assert(page_sync::file_exports(scan, file, size));
        assert(page_sync::delta_copies(scan, since, size));
        assert(copies.dom().contains(size));
    } else {
        assert(page_sync::delta_deletes(scan, since, size));
        assert(ordered::lists_key(delta.metadata_deletes@, size));
    }
}

/// Of manifests and of the records of the latest ones, those go along directly that are of
/// a later version, and no older ones.
pub proof fn law_only_later_metadata_goes_along(key: Seq<u8>, value: Seq<u8>, since: u64)
    ensures
        page_sync::record_kind(key) matches RecordKind::Manifest { file: _, version } ==> (
        page_sync::is_newer_metadata(key, value, since) <==> version > since),
        page_sync::record_kind(key) matches RecordKind::Latest { file: _ } ==> (
        page_sync::is_newer_metadata(key, value, since) <==> bytes::be_value(value) > since),
        page_sync::record_kind(key) is Page || page_sync::record_kind(key) is Other
            ==> !page_sync::is_newer_metadata(key, value, since),
{
}

/// What a later manifest says was removed: of a deleted file its size and all of its pages,
/// of a cut file the pages behind its size, of a written file nothing. What is older, or no
/// manifest, says nothing.
pub proof fn law_manifests_tell_what_was_removed(
    key: Seq<u8>,
    value: Seq<u8>,
    since: u64,
    file: Seq<u8>,
    version: u64,
    read: FileManifest,
)
    requires
        page_sync::record_kind(key) == (RecordKind::Manifest { file, version }),
        manifest::manifest_reading(value) == Ok::<FileManifest, Seq<char>>(read),
    ensures
        version <= since ==> page_sync::deleted_size_key(key, value, since) is None
            && page_sync::manifest_cut(key, value, since) is None,
        version > since && read.kind == FileManifestKind::Delete ==> page_sync::deleted_size_key(
            key,
            value,
            since,
        ) == Some(page_keys::size_key_of(file)) && page_sync::manifest_cut(key, value, since)
            == Some((page_keys::current_prefix_of(file), 0int)),
        version > since && read.kind == FileManifestKind::Truncate
            ==> page_sync::deleted_size_key(key, value, since) is None && page_sync::manifest_cut(
            key,
            value,
            since,
        ) == Some(
            (page_keys::current_prefix_of(file), page_batch::page_count(read.size as int)),
        ),
        version > since && read.kind == FileManifestKind::Write ==> page_sync::deleted_size_key(
            key,
            value,
            since,
        ) is None && page_sync::manifest_cut(key, value, since) is None,
{
}

/// Records that cannot be read are not passed over: a later manifest that is none, and a
/// record of the latest one that is no version.
pub proof fn law_unreadable_records_are_refused(key: Seq<u8>, value: Seq<u8>, since: u64)
    ensures
        page_sync::record_kind(key) matches RecordKind::Manifest { file: _, version } ==> (
        page_sync::record_error(key, value, since) is Some <==> version > since
            && manifest::manifest_reading(value) is Err),
        page_sync::record_kind(key) matches RecordKind::Latest { file: _ } ==> (
        page_sync::record_error(key, value, since) is Some <==> value.len() != 8),
        page_sync::record_kind(key) is Page || page_sync::record_kind(key) is Other
            ==> page_sync::record_error(key, value, since) is None,
{
}

/// A live copy holds the pages and the latest manifest of every file, and its size; it holds
/// nothing that the source does not, and removes nothing.
pub proof fn law_live_copy_holds_every_file(
    scan: Seq<SqliteDatabasePageSyncEntry>,
    delta: SqliteDatabasePageSyncDelta,
    file: Seq<u8>,
    page: u64,
)
    requires
        ordered::ordered_entries(scan),
        page_sync::is_live_snapshot(scan, delta),
        page_keys::marker_is_unambiguous(file, bytes::text("current/")),
        page_keys::marker_is_unambiguous(file, bytes::text("manifests/")),
    ensures
        delta.min_exclusive_version == 0,
        delta.metadata_deletes@.len() == 0 && delta.current_page_deletes@.len() == 0,
        ({
            let store = ordered::entry_map(scan);
            let copies = ordered::entry_map(delta.entries@);
            let record = page_keys::current_key_of(file, page);
            let latest = page_keys::latest_manifest_key_of(file);
            let size = page_keys::size_key_of(file);
            &&& store.dom().contains(record) ==> copies.dom().contains(record) && copies[record]
                == store[record]
            &&& store.dom().contains(latest) ==> copies.dom().contains(latest) && copies[latest]
                == store[latest]
            &&& store.dom().contains(size) && (store.dom().contains(record)
                || store.dom().contains(latest)) ==> copies.dom().contains(size) && copies[size]
                == store[size]
            &&& forall|key: Seq<u8>| #[trigger]
                copies.dom().contains(key) ==> store.dom().contains(key) && copies[key]
                    == store[key]
        }),
{
    law_records_tell_their_kind(file, page, 0);
    page_snapshot_law::lemma_other_records(file, 0);
    page_keys::law_current_page_key_reads_back(file, page);
    page_keys::law_latest_manifest_key_reads_back(file);
    let store = ordered::entry_map(scan);
    let copies = ordered::entry_map(delta.entries@);
    let record = page_keys::current_key_of(file, page);
    let latest = page_keys::latest_manifest_key_of(file);
    let size = page_keys::size_key_of(file);
    assert(page_sync::live_file(record) == Some(file));
    assert(page_sync::live_file(latest) == Some(file));
    if store.dom().contains(record) {
        let k = ordered::key_position(scan, record);
        assert(ordered::has_key(scan, record));
        assert(page_sync::live_file(scan[k].key@) == Some(file));
        assert(page_sync::is_live(scan, scan.len() as int, file));
        assert(page_sync::snapshot_copies(scan, record));
        assert(copies.dom().contains(record));
    }
    if store.dom().contains(latest) {
        let k = ordered::key_position(scan, latest);
        assert(ordered::has_key(scan, latest));
        assert(page_sync::live_file(scan[k].key@) == Some(file));
        assert(page_sync::is_live(scan, scan.len() as int, file));
        assert(page_sync::snapshot_copies(scan, latest));
        assert(copies.dom().contains(latest));
    }
    if store.dom().contains(size) && (store.dom().contains(record) || store.dom().contains(
        latest,
    )) {
        assert(page_sync::snapshot_copies(scan, size));
        assert(copies.dom().contains(size));
    }
}

/// A range of a file's pages holds the pages from its first one on, and no other record.
pub proof fn law_ranges_hold_later_pages(
    range: SqliteCurrentPageDeleteRange,
    file: Seq<u8>,
    page: u64,
    key: Seq<u8>,
)
    requires
        range.current_pages_prefix@ == page_keys::current_prefix_of(file),
    ensures
        page_sync::is_in_range(range, page_keys::current_key_of(file, page)) <==> page
            >= range.first_page,
        page_sync::is_in_range(range, key) ==> bytes::has_prefix(
            key,
            page_keys::current_prefix_of(file),
        ),
{
    page_keys::law_page_key_names_its_page(file, page, page);
}

/// The pages of a file that a copy keeps are those that its size takes, and none of a file
/// that is not there.
pub proof fn law_copies_keep_the_pages_of_a_size(
    scan: Seq<SqliteDatabasePageSyncEntry>,
    file: Seq<u8>,
)
    ensures
        ({
            let store = ordered::entry_map(scan);
            let size = page_keys::size_key_of(file);
            &&& !store.dom().contains(size) ==> page_sync::file_cut(scan, file) == 0
            &&& store.dom().contains(size) ==> page_sync::file_cut(scan, file)
                == page_batch::page_count(bytes::be_value(store[size]) as int)
            &&& page_sync::size_is_bad(scan, file) <==> store.dom().contains(size)
                && store[size].len() != 8
        }),
{
}

/// A live copy is refused only for a record of a latest manifest that is not a version, of
/// eight bytes; the pages of a file may hold anything.
pub proof fn law_only_bad_versions_are_refused(file: Seq<u8>, page: u64, value: Seq<u8>)
    ensures
        value.len() == 8 ==> !page_sync::live_error(file + bytes::text("latest_manifest"), value),
        value.len() != 8 && page_keys::current_key_parts(file + bytes::text("latest_manifest")) is None
            ==> page_sync::live_error(file + bytes::text("latest_manifest"), value),
        !bytes::has_suffix(file, bytes::text("latest_manifest")) ==> !page_sync::live_error(
            file,
            value,
        ),
{
    let marker = bytes::text("latest_manifest");
    let key = file + marker;
    assert(key.skip(key.len() - marker.len()) =~= marker);
    assert(bytes::has_suffix(key, marker));
}

/// What one of the records says was removed, the delta removes; and it removes the size of
/// a file only where a record says so, or where a changed file has no size any more.
pub proof fn law_removals_are_told(
    scan: Seq<SqliteDatabasePageSyncEntry>,
    since: u64,
    at: int,
    key: Seq<u8>,
)
    ensures
        0 <= at < scan.len() && page_sync::deleted_size_key(scan[at].key@, scan[at].value@, since)
            == Some(key) ==> page_sync::says_deleted(scan, scan.len() as int, since, key)
            && page_sync::delta_deletes(scan, since, key),
        (forall|k: int|
            0 <= k < scan.len() ==> page_sync::deleted_size_key(
                (#[trigger] scan[k]).key@,
                scan[k].value@,
                since,
            ) != Some(key)) && ordered::entry_map(scan).dom().contains(key)
            ==> !page_sync::delta_deletes(scan, since, key),
{
}

} // verus!
