//! Copying the pages of a database: deltas, snapshots, purges and pressure.

use vstd::prelude::*;

use crate::bytes;
use crate::bytes::copy_bytes;
use crate::bytes::starts_with;
use crate::dirty_page::SQLITE_PAGE_SIZE;
use crate::manifest;
use crate::manifest::decode_manifest;
use crate::manifest::FileManifest;
use crate::manifest::FileManifestKind;
use crate::ordered;
use crate::ordered::find_entry;
use crate::ordered::put_entry;
use crate::ordered::put_key;
use crate::ordered::put_range;
use crate::ordered::SqliteCurrentPageDeleteRange;
use crate::ordered::SqliteDatabasePageSyncEntry;
use crate::page_batch;
use crate::page_batch::append_delete;
use crate::page_batch::append_put;
use crate::page_batch::StoreWrite;
use crate::page_batch::WriteModel;
use crate::page_keys;
use crate::page_keys::current_pages_prefix_from_file_prefix;
use crate::page_keys::page_index_from_key;
use crate::page_keys::parse_current_page_key;
use crate::page_keys::parse_file_manifest_key;
use crate::page_keys::parse_latest_manifest_key;
use crate::page_keys::size_key_from_file_prefix;
use crate::page_keys::u64_from_be_bytes;

verus! {

/// What has to be done to a copy of a database to bring it up to date.
#[derive(Debug, Clone, PartialEq, Eq)]
pub struct SqliteDatabasePageSyncDelta {
    pub min_exclusive_version: u64,
    pub entries: Vec<SqliteDatabasePageSyncEntry>,
    pub metadata_deletes: Vec<Vec<u8>>,
    pub current_page_deletes: Vec<SqliteCurrentPageDeleteRange>,
}

/// What a record is.
#[verifier::ext_equal]
pub enum RecordKind {
    Page { file: Seq<u8>, page: u64 },
    Manifest { file: Seq<u8>, version: u64 },
    Latest { file: Seq<u8> },
    Other,
}

/// What a record is, by its key: a page, else a manifest, else the record of the
/// latest manifest.
pub open spec fn record_kind(key: Seq<u8>) -> RecordKind {
    match page_keys::current_key_parts(key) {
        Some((file, page)) => RecordKind::Page { file, page },
        None => match page_keys::manifest_key_parts(key) {
            Some((file, version)) => RecordKind::Manifest { file, version },
            None => match page_keys::latest_manifest_file(key) {
                Some(file) => RecordKind::Latest { file },
                None => RecordKind::Other,
            },
        },
    }
}

/// The file that a record marks as changed since a version. Every page marks its
/// file; a manifest does so if it is newer.
pub open spec fn changed_file(key: Seq<u8>, value: Seq<u8>, since: u64) -> Option<Seq<u8>> {
    match record_kind(key) {
        RecordKind::Page { file, page: _ } => Some(file),
        RecordKind::Manifest { file, version } => if version > since {
            Some(file)
        } else {
            None
        },
        RecordKind::Latest { file } => if bytes::be_value(value) > since {
            Some(file)
        } else {
            None
        },
        RecordKind::Other => None,
    }
}

/// Whether a record is a manifest record newer than a version.
pub open spec fn is_newer_metadata(key: Seq<u8>, value: Seq<u8>, since: u64) -> bool {
    match record_kind(key) {
        RecordKind::Manifest { file: _, version } => version > since,
        RecordKind::Latest { file: _ } => bytes::be_value(value) > since,
        _ => false,
    }
}

/// The message for a record that cannot be read, if it cannot.
pub open spec fn record_error(key: Seq<u8>, value: Seq<u8>, since: u64) -> Option<Seq<char>> {
    match record_kind(key) {
        RecordKind::Manifest { file: _, version } => if version > since {
            match manifest::manifest_reading(value) {
                Ok(_) => None,
                Err(message) => Some(message),
            }
        } else {
            None
        },
        RecordKind::Latest { file: _ } => if value.len() != 8 {
            Some(page_keys::invalid_metadata("latest manifest version"@))
        } else {
            None
        },
        _ => None,
    }
}

/// The manifest of a record that is newer than a version.
pub open spec fn newer_manifest(key: Seq<u8>, value: Seq<u8>, since: u64) -> Option<
    (Seq<u8>, FileManifest),
> {
    match record_kind(key) {
        RecordKind::Manifest { file, version } => if version > since {
            match manifest::decoded_manifest(value) {
                Some(read) => Some((file, read)),
                None => None,
            }
        } else {
            None
        },
        _ => None,
    }
}

/// Whether a file has changed, by the first `upto` records.
pub open spec fn is_changed(
    scan: Seq<SqliteDatabasePageSyncEntry>,
    upto: int,
    since: u64,
    file: Seq<u8>,
) -> bool {
    exists|k: int|
        0 <= k < upto && changed_file((#[trigger] scan[k]).key@, scan[k].value@, since) == Some(file)
}

/// The size record of the file that a newer manifest says was deleted.
pub open spec fn deleted_size_key(key: Seq<u8>, value: Seq<u8>, since: u64) -> Option<Seq<u8>> {
    match newer_manifest(key, value, since) {
        Some((file, read)) => if read.kind == FileManifestKind::Delete {
            Some(page_keys::size_key_of(file))
        } else {
            None
        },
        None => None,
    }
}

/// The pages that a newer manifest cuts away: their prefix and the first of them.
pub open spec fn manifest_cut(key: Seq<u8>, value: Seq<u8>, since: u64) -> Option<(Seq<u8>, int)> {
    match newer_manifest(key, value, since) {
        Some((file, read)) => match read.kind {
            FileManifestKind::Write => None,
            FileManifestKind::Truncate => Some(
                (page_keys::current_prefix_of(file), page_batch::page_count(read.size as int)),
            ),
            FileManifestKind::Delete => Some((page_keys::current_prefix_of(file), 0)),
        },
        None => None,
    }
}

/// Whether a newer manifest says that the file with this size record was deleted.
pub open spec fn says_deleted(
    scan: Seq<SqliteDatabasePageSyncEntry>,
    upto: int,
    since: u64,
    size_key: Seq<u8>,
) -> bool {
    exists|k: int|
        0 <= k < upto && deleted_size_key((#[trigger] scan[k]).key@, scan[k].value@, since) == Some(
            size_key,
        )
}

/// Whether a newer manifest cuts a file at a page.
pub open spec fn says_cut(
    scan: Seq<SqliteDatabasePageSyncEntry>,
    upto: int,
    since: u64,
    prefix: Seq<u8>,
    first_page: u64,
) -> bool {
    exists|k: int|
        0 <= k < upto && manifest_cut((#[trigger] scan[k]).key@, scan[k].value@, since) == Some(
            (prefix, first_page as int),
        )
}

/// The records of a scan that can be read.
pub open spec fn scan_is_readable(
    scan: Seq<SqliteDatabasePageSyncEntry>,
    upto: int,
    since: u64,
) -> bool {
    forall|k: int|
        0 <= k < upto ==> record_error((#[trigger] scan[k]).key@, scan[k].value@, since) is None
}

/// Whether a record goes into a delta by itself, by the first `upto` records.
pub open spec fn is_direct(
    scan: Seq<SqliteDatabasePageSyncEntry>,
    upto: int,
    since: u64,
    key: Seq<u8>,
) -> bool {
    exists|k: int|
        0 <= k < upto && (#[trigger] scan[k]).key@ == key && is_newer_metadata(
            key,
            scan[k].value@,
            since,
        )
}

/// What the scan of a source has shown so far.
struct ScanFindings {
    entries: Vec<SqliteDatabasePageSyncEntry>,
    files: Vec<Vec<u8>>,
    metadata_deletes: Vec<Vec<u8>>,
    ranges: Vec<SqliteCurrentPageDeleteRange>,
}

impl ScanFindings {
    spec fn holds(&self, scan: Seq<SqliteDatabasePageSyncEntry>, upto: int, since: u64) -> bool {
        &&& ordered::ordered_entries(self.entries@)
        &&& forall|key: Seq<u8>| #[trigger]
            ordered::entry_map(self.entries@).dom().contains(key) <==> is_direct(
                scan,
                upto,
                since,
                key,
            )
        &&& forall|key: Seq<u8>| #[trigger]
            ordered::entry_map(self.entries@).dom().contains(key) ==> ordered::entry_map(
                self.entries@,
            )[key] == ordered::entry_map(scan)[key]
        &&& ordered::ordered_keys(self.files@)
        &&& forall|file: Seq<u8>| #[trigger]
            ordered::lists_key(self.files@, file) <==> is_changed(scan, upto, since, file)
        &&& ordered::ordered_keys(self.metadata_deletes@)
        &&& forall|key: Seq<u8>| #[trigger]
            ordered::lists_key(self.metadata_deletes@, key) <==> says_deleted(
                scan,
                upto,
                since,
                key,
            )
        &&& ordered::ordered_ranges(self.ranges@)
        &&& forall|prefix: Seq<u8>, first_page: u64| #[trigger]
            ordered::lists_range(self.ranges@, prefix, first_page) <==> says_cut(
                scan,
                upto,
                since,
                prefix,
                first_page,
            )
    }
}

/// The number of pages that a size takes.
pub fn pages_for(size: u64) -> (count: u64)
    ensures
        count == page_batch::page_count(size as int),
{
    let unit: u64 = SQLITE_PAGE_SIZE as u64;
    proof {
        crate::page_law::lemma_page_count(size as int);
    }
    if size % unit == 0 {
        size / unit
    } else {
        size / unit + 1
    }
}

/// What one more record adds.
proof fn lemma_scan_step(scan: Seq<SqliteDatabasePageSyncEntry>, k: int, since: u64)
    requires
        0 <= k < scan.len(),
    ensures
        forall|file: Seq<u8>| #[trigger]
            is_changed(scan, k + 1, since, file) <==> is_changed(scan, k, since, file)
                || changed_file(scan[k].key@, scan[k].value@, since) == Some(file),
        forall|file: Seq<u8>| #[trigger]
            says_deleted(scan, k + 1, since, file) <==> says_deleted(scan, k, since, file)
                || deleted_size_key(scan[k].key@, scan[k].value@, since) == Some(file),
        forall|prefix: Seq<u8>, first_page: u64| #[trigger]
            says_cut(scan, k + 1, since, prefix, first_page) <==> says_cut(
                scan,
                k,
                since,
                prefix,
                first_page,
            ) || manifest_cut(scan[k].key@, scan[k].value@, since) == Some(
                (prefix, first_page as int),
            ),
        forall|key: Seq<u8>| #[trigger]
            is_direct(scan, k + 1, since, key) <==> is_direct(scan, k, since, key) || (scan[k].key@
                == key && is_newer_metadata(key, scan[k].value@, since)),
        scan_is_readable(scan, k + 1, since) <==> scan_is_readable(scan, k, since) && record_error(
            scan[k].key@,
            scan[k].value@,
            since,
        ) is None,
{
    assert forall|file: Seq<u8>| #[trigger] is_changed(scan, k + 1, since, file) <==> is_changed(
        scan,
        k,
        since,
        file,
    ) || changed_file(scan[k].key@, scan[k].value@, since) == Some(file) by {
        if is_changed(scan, k + 1, since, file) {
            let j = choose|j: int|
                0 <= j < k + 1 && changed_file((#[trigger] scan[j]).key@, scan[j].value@, since)
                    == Some(file);
            assert(j == k || is_changed(scan, k, since, file));
        }
        if is_changed(scan, k, since, file) {
            let j = choose|j: int|
                0 <= j < k && changed_file((#[trigger] scan[j]).key@, scan[j].value@, since) == Some(
                    file,
                );
            assert(0 <= j < k + 1);
        }
    }
    assert forall|file: Seq<u8>| #[trigger] says_deleted(scan, k + 1, since, file) <==> says_deleted(
        scan,
        k,
        since,
        file,
    ) || deleted_size_key(scan[k].key@, scan[k].value@, since) == Some(file) by {
        if says_deleted(scan, k + 1, since, file) {
            let j = choose|j: int|
                0 <= j < k + 1 && deleted_size_key((#[trigger] scan[j]).key@, scan[j].value@, since)
                    == Some(file);
            assert(j == k || says_deleted(scan, k, since, file));
        }
        if says_deleted(scan, k, since, file) {
            let j = choose|j: int|
                0 <= j < k && deleted_size_key((#[trigger] scan[j]).key@, scan[j].value@, since) == Some(
                    file,
                );
            assert(0 <= j < k + 1);
        }
    }
    assert forall|prefix: Seq<u8>, first_page: u64| #[trigger]
        says_cut(scan, k + 1, since, prefix, first_page) <==> says_cut(
            scan,
            k,
            since,
            prefix,
            first_page,
        ) || manifest_cut(scan[k].key@, scan[k].value@, since) == Some(
            (prefix, first_page as int),
        ) by {
        if says_cut(scan, k + 1, since, prefix, first_page) {
            let j = choose|j: int|
                0 <= j < k + 1 && manifest_cut((#[trigger] scan[j]).key@, scan[j].value@, since)
                    == Some((prefix, first_page as int));
            assert(j == k || says_cut(scan, k, since, prefix, first_page));
        }
        if says_cut(scan, k, since, prefix, first_page) {
            let j = choose|j: int|
                0 <= j < k && manifest_cut((#[trigger] scan[j]).key@, scan[j].value@, since) == Some(
                    (prefix, first_page as int),
                );
            assert(0 <= j < k + 1);
        }
    }
    assert forall|key: Seq<u8>| #[trigger] is_direct(scan, k + 1, since, key) <==> is_direct(
        scan,
        k,
        since,
        key,
    ) || (scan[k].key@ == key && is_newer_metadata(key, scan[k].value@, since)) by {
        if is_direct(scan, k + 1, since, key) {
            let j = choose|j: int|
                0 <= j < k + 1 && (#[trigger] scan[j]).key@ == key && is_newer_metadata(
                    key,
                    scan[j].value@,
                    since,
                );
            assert(j == k || is_direct(scan, k, since, key));
        }
        if is_direct(scan, k, since, key) {
            let j = choose|j: int|
                0 <= j < k && (#[trigger] scan[j]).key@ == key && is_newer_metadata(
                    key,
                    scan[j].value@,
                    since,
                );
            assert(0 <= j < k + 1);
        }
    }
    if scan_is_readable(scan, k + 1, since) {
        assert(record_error(scan[k].key@, scan[k].value@, since) is None);
    }
}

impl ScanFindings {
    fn new(Ghost(scan): Ghost<Seq<SqliteDatabasePageSyncEntry>>, Ghost(since): Ghost<u64>) -> (
    findings: ScanFindings)
        ensures
            findings.holds(scan, 0, since),
    {
        ScanFindings {
            entries: Vec::new(),
            files: Vec::new(),
            metadata_deletes: Vec::new(),
            ranges: Vec::new(),
        }
    }

    /// Takes one more record into account.
    fn take_record(
        &mut self,
        entry: &SqliteDatabasePageSyncEntry,
        since: u64,
        Ghost(scan): Ghost<Seq<SqliteDatabasePageSyncEntry>>,
        Ghost(k): Ghost<int>,
    ) -> (taken: Result<(), String>)
        requires
            ordered::ordered_entries(scan),
            0 <= k < scan.len(),
            scan[k] == *entry,
            old(self).holds(scan, k, since),
        ensures
            taken is Ok <==> record_error(entry.key@, entry.value@, since) is None,
            taken matches Err(message) ==> record_error(entry.key@, entry.value@, since) == Some(
                message@,
            ),
            taken is Ok ==> final(self).holds(scan, k + 1, since),
    {
        proof {
            lemma_scan_step(scan, k, since);
            ordered::lemma_entry_map(scan, k);
        }
        let key = entry.key.as_slice();
        let value = entry.value.as_slice();
        if let Some((file, _page)) = parse_current_page_key(key) {
            put_key(&mut self.files, file);
            return Ok(());
        }
        if let Some((file, version)) = parse_file_manifest_key(key) {
            if version > since {
                let read: FileManifest = match decode_manifest(value) {
                    Ok(read) => read,
                    Err(message) => {
                        return Err(message);
                    },
                };
                put_entry(&mut self.entries, copy_bytes(key), copy_bytes(value));
                match read.kind {
                    FileManifestKind::Write => {},
                    FileManifestKind::Truncate => {
                        put_range(
                            &mut self.ranges,
                            SqliteCurrentPageDeleteRange {
                                current_pages_prefix: current_pages_prefix_from_file_prefix(
                                    file.as_slice(),
                                ),
                                first_page: pages_for(read.size),
                            },
                        );
                    },
                    FileManifestKind::Delete => {
                        put_range(
                            &mut self.ranges,
                            SqliteCurrentPageDeleteRange {
                                current_pages_prefix: current_pages_prefix_from_file_prefix(
                                    file.as_slice(),
                                ),
                                first_page: 0,
                            },
                        );
                        put_key(
                            &mut self.metadata_deletes,
                            size_key_from_file_prefix(file.as_slice()),
                        );
                    },
                }
                put_key(&mut self.files, file);
                return Ok(());
            }
            return Ok(());
        }
        match parse_latest_manifest_key(key, value) {
            Err(message) => Err(message),
            Ok(None) => Ok(()),
            Ok(Some((file, version))) => {
                proof {
                    bytes::lemma_u64_be_round_trip(version);
                }
                if version > since {
                    put_key(&mut self.files, file);
                    put_entry(&mut self.entries, copy_bytes(key), copy_bytes(value));
                }
                Ok(())
            },
        }
    }
}

/// Whether a file that is there contributes a record to a delta: its size and its
/// pages.
pub open spec fn file_exports(
    scan: Seq<SqliteDatabasePageSyncEntry>,
    file: Seq<u8>,
    key: Seq<u8>,
) -> bool {
    let store = ordered::entry_map(scan);
    store.dom().contains(page_keys::size_key_of(file)) && (key == page_keys::size_key_of(file) || (
    store.dom().contains(key) && bytes::has_prefix(key, page_keys::current_prefix_of(file))))
}

/// The first page that a file no longer has: behind its size, or zero where there is
/// no file.
pub open spec fn file_cut(scan: Seq<SqliteDatabasePageSyncEntry>, file: Seq<u8>) -> int {
    let store = ordered::entry_map(scan);
    if store.dom().contains(page_keys::size_key_of(file)) {
        page_batch::page_count(bytes::be_value(store[page_keys::size_key_of(file)]) as int)
    } else {
        0
    }
}

/// Whether a file has a size record that does not hold eight bytes.
pub open spec fn size_is_bad(scan: Seq<SqliteDatabasePageSyncEntry>, file: Seq<u8>) -> bool {
    let store = ordered::entry_map(scan);
    store.dom().contains(page_keys::size_key_of(file)) && store[page_keys::size_key_of(
        file,
    )].len() != 8
}

/// Whether a delta copies a record.
pub open spec fn delta_copies(
    scan: Seq<SqliteDatabasePageSyncEntry>,
    since: u64,
    key: Seq<u8>,
) -> bool {
    is_direct(scan, scan.len() as int, since, key) || exists|file: Seq<u8>| #[trigger]
        is_changed(scan, scan.len() as int, since, file) && file_exports(scan, file, key)
}

/// Whether a delta deletes a size record.
pub open spec fn delta_deletes(
    scan: Seq<SqliteDatabasePageSyncEntry>,
    since: u64,
    key: Seq<u8>,
) -> bool {
    says_deleted(scan, scan.len() as int, since, key) || exists|file: Seq<u8>| #[trigger]
        is_changed(scan, scan.len() as int, since, file) && key == page_keys::size_key_of(file)
            && !ordered::entry_map(scan).dom().contains(key)
}

/// Whether a delta deletes pages.
pub open spec fn delta_cuts(
    scan: Seq<SqliteDatabasePageSyncEntry>,
    since: u64,
    prefix: Seq<u8>,
    first_page: u64,
) -> bool {
    says_cut(scan, scan.len() as int, since, prefix, first_page) || exists|file: Seq<u8>| #[trigger]
        is_changed(scan, scan.len() as int, since, file) && prefix == page_keys::current_prefix_of(
            file,
        ) && first_page == file_cut(scan, file)
}

/// Whether a delta is the one since a version.
pub open spec fn is_delta_since(
    scan: Seq<SqliteDatabasePageSyncEntry>,
    since: u64,
    delta: SqliteDatabasePageSyncDelta,
) -> bool {
    &&& delta.min_exclusive_version == since
    &&& ordered::ordered_entries(delta.entries@)
    &&& forall|key: Seq<u8>| #[trigger]
        ordered::entry_map(delta.entries@).dom().contains(key) <==> delta_copies(scan, since, key)
    &&& forall|key: Seq<u8>| #[trigger]
        ordered::entry_map(delta.entries@).dom().contains(key) ==> ordered::entry_map(
            delta.entries@,
        )[key] == ordered::entry_map(scan)[key]
    &&& ordered::ordered_keys(delta.metadata_deletes@)
    &&& forall|key: Seq<u8>| #[trigger]
        ordered::lists_key(delta.metadata_deletes@, key) <==> delta_deletes(scan, since, key)
    &&& ordered::ordered_ranges(delta.current_page_deletes@)
    &&& forall|prefix: Seq<u8>, first_page: u64| #[trigger]
        ordered::lists_range(delta.current_page_deletes@, prefix, first_page) <==> delta_cuts(
            scan,
            since,
            prefix,
            first_page,
        )
}

/// Whether one of the first `upto` files contributes a record.
spec fn files_export(
    scan: Seq<SqliteDatabasePageSyncEntry>,
    files: Seq<Vec<u8>>,
    upto: int,
    key: Seq<u8>,
) -> bool {
    exists|j: int| 0 <= j < upto && file_exports(scan, (#[trigger] files[j])@, key)
}

spec fn files_delete(
    scan: Seq<SqliteDatabasePageSyncEntry>,
    files: Seq<Vec<u8>>,
    upto: int,
    key: Seq<u8>,
) -> bool {
    exists|j: int|
        0 <= j < upto && key == page_keys::size_key_of((#[trigger] files[j])@)
            && !ordered::entry_map(scan).dom().contains(key)
}

spec fn files_cut(
    scan: Seq<SqliteDatabasePageSyncEntry>,
    files: Seq<Vec<u8>>,
    upto: int,
    prefix: Seq<u8>,
    first_page: u64,
) -> bool {
    exists|j: int|
        0 <= j < upto && prefix == page_keys::current_prefix_of((#[trigger] files[j])@)
            && first_page == file_cut(scan, files[j]@)
}

proof fn lemma_files_step(
    scan: Seq<SqliteDatabasePageSyncEntry>,
    files: Seq<Vec<u8>>,
    m: int,
)
    requires
        0 <= m < files.len(),
    ensures
        forall|key: Seq<u8>| #[trigger]
            files_export(scan, files, m + 1, key) <==> files_export(scan, files, m, key)
                || file_exports(scan, files[m]@, key),
        forall|key: Seq<u8>| #[trigger]
            files_delete(scan, files, m + 1, key) <==> files_delete(scan, files, m, key) || (key
                == page_keys::size_key_of(files[m]@) && !ordered::entry_map(scan).dom().contains(
                key,
            )),
        forall|prefix: Seq<u8>, first_page: u64| #[trigger]
            files_cut(scan, files, m + 1, prefix, first_page) <==> files_cut(
                scan,
                files,
                m,
                prefix,
                first_page,
            ) || (prefix == page_keys::current_prefix_of(files[m]@) && first_page == file_cut(
                scan,
                files[m]@,
            )),
{
    assert forall|key: Seq<u8>| #[trigger] files_export(scan, files, m + 1, key) <==> files_export(
        scan,
        files,
        m,
        key,
    ) || file_exports(scan, files[m]@, key) by {
        if files_export(scan, files, m + 1, key) {
            let j = choose|j: int|
                0 <= j < m + 1 && file_exports(scan, (#[trigger] files[j])@, key);
            assert(j == m || files_export(scan, files, m, key));
        }
        if files_export(scan, files, m, key) {
            let j = choose|j: int| 0 <= j < m && file_exports(scan, (#[trigger] files[j])@, key);
            assert(0 <= j < m + 1);
        }
    }
    assert forall|key: Seq<u8>| #[trigger] files_delete(scan, files, m + 1, key) <==> files_delete(
        scan,
        files,
        m,
        key,
    ) || (key == page_keys::size_key_of(files[m]@) && !ordered::entry_map(scan).dom().contains(key)) by {
        if files_delete(scan, files, m + 1, key) {
            let j = choose|j: int|
                0 <= j < m + 1 && key == page_keys::size_key_of((#[trigger] files[j])@)
                    && !ordered::entry_map(scan).dom().contains(key);
            assert(j == m || files_delete(scan, files, m, key));
        }
        if files_delete(scan, files, m, key) {
            let j = choose|j: int|
                0 <= j < m && key == page_keys::size_key_of((#[trigger] files[j])@)
                    && !ordered::entry_map(scan).dom().contains(key);
            assert(0 <= j < m + 1);
        }
    }
    assert forall|prefix: Seq<u8>, first_page: u64| #[trigger]
        files_cut(scan, files, m + 1, prefix, first_page) <==> files_cut(
            scan,
            files,
            m,
            prefix,
            first_page,
        ) || (prefix == page_keys::current_prefix_of(files[m]@) && first_page == file_cut(
            scan,
            files[m]@,
        )) by {
        if files_cut(scan, files, m + 1, prefix, first_page) {
            let j = choose|j: int|
                0 <= j < m + 1 && prefix == page_keys::current_prefix_of((#[trigger] files[j])@)
                    && first_page == file_cut(scan, files[j]@);
            assert(j == m || files_cut(scan, files, m, prefix, first_page));
        }
        if files_cut(scan, files, m, prefix, first_page) {
            let j = choose|j: int|
                0 <= j < m && prefix == page_keys::current_prefix_of((#[trigger] files[j])@)
                    && first_page == file_cut(scan, files[j]@);
            assert(0 <= j < m + 1);
        }
    }
}

/// Adds the records of a scan that lie under a prefix.
fn put_entries_under(
    entries: &mut Vec<SqliteDatabasePageSyncEntry>,
    scan: &Vec<SqliteDatabasePageSyncEntry>,
    prefix: &[u8],
)
    requires
        ordered::ordered_entries(old(entries)@),
        ordered::ordered_entries(scan@),
    ensures
        ordered::ordered_entries(final(entries)@),
        forall|key: Seq<u8>| #[trigger]
            ordered::entry_map(final(entries)@).dom().contains(key) <==> ordered::entry_map(
                old(entries)@,
            ).dom().contains(key) || (ordered::entry_map(scan@).dom().contains(key)
                && bytes::has_prefix(key, prefix@)),
        forall|key: Seq<u8>| #[trigger]
            ordered::entry_map(final(entries)@).dom().contains(key) ==> ordered::entry_map(
                final(entries)@,
            )[key] == (if ordered::entry_map(scan@).dom().contains(key) && bytes::has_prefix(
                key,
                prefix@,
            ) {
                ordered::entry_map(scan@)[key]
            } else {
                ordered::entry_map(old(entries)@)[key]
            }),
{
    let ghost before = ordered::entry_map(old(entries)@);
    let ghost store = ordered::entry_map(scan@);
    let mut i: usize = 0;
    while i < scan.len()
        invariant
            i <= scan.len(),
            ordered::ordered_entries(scan@),
            ordered::ordered_entries(entries@),
            store == ordered::entry_map(scan@),
            forall|key: Seq<u8>| #[trigger]
                ordered::entry_map(entries@).dom().contains(key) <==> before.dom().contains(key) || (
                ordered::has_key(scan@.take(i as int), key) && bytes::has_prefix(key, prefix@)),
            forall|key: Seq<u8>| #[trigger]
                ordered::entry_map(entries@).dom().contains(key) ==> ordered::entry_map(
                    entries@,
                )[key] == (if ordered::has_key(scan@.take(i as int), key) && bytes::has_prefix(
                    key,
                    prefix@,
                ) {
                    store[key]
                } else {
                    before[key]
                }),
        decreases scan.len() - i,
    {
        let entry: &SqliteDatabasePageSyncEntry = &scan[i];
        proof {
            ordered::lemma_entry_map(scan@, i as int);
            lemma_has_key_step(scan@, i as int);
        }
        if starts_with(entry.key.as_slice(), prefix) {
            put_entry(
                entries,
                copy_bytes(entry.key.as_slice()),
                copy_bytes(entry.value.as_slice()),
            );
        }
        i = i + 1;
    }
    assert(scan@.take(i as int) =~= scan@);
}

proof fn lemma_has_key_step(scan: Seq<SqliteDatabasePageSyncEntry>, i: int)
    requires
        0 <= i < scan.len(),
    ensures
        forall|key: Seq<u8>| #[trigger]
            ordered::has_key(scan.take(i + 1), key) <==> ordered::has_key(scan.take(i), key)
                || scan[i].key@ == key,
{
    assert forall|key: Seq<u8>| #[trigger] ordered::has_key(scan.take(i + 1), key)
        <==> ordered::has_key(scan.take(i), key) || scan[i].key@ == key by {
        if ordered::has_key(scan.take(i + 1), key) {
            let k = ordered::key_position(scan.take(i + 1), key);
            if k < i {
                assert(scan.take(i)[k] == scan.take(i + 1)[k]);
            }
        }
        if ordered::has_key(scan.take(i), key) {
            let k = ordered::key_position(scan.take(i), key);
            assert(scan.take(i + 1)[k] == scan.take(i)[k]);
        }
        if scan[i].key@ == key {
            assert(scan.take(i + 1)[i] == scan[i]);
        }
    }
}

/// Makes the delta that brings a copy of a database from a version up to date.
/// `scan` holds the page records of the source, in order of their keys.
pub fn export_sqlite_database_pages_since(
    scan: &Vec<SqliteDatabasePageSyncEntry>,
    min_exclusive_version: u64,
) -> (delta: Result<SqliteDatabasePageSyncDelta, String>)
    requires
        ordered::ordered_entries(scan@),
    ensures
        delta is Ok <==> scan_is_readable(scan@, scan@.len() as int, min_exclusive_version)
            && !exists|file: Seq<u8>| #[trigger]
            is_changed(scan@, scan@.len() as int, min_exclusive_version, file) && size_is_bad(
                scan@,
                file,
            ),
        delta matches Ok(made) ==> is_delta_since(scan@, min_exclusive_version, made),
        delta matches Err(message) ==> if scan_is_readable(
            scan@,
            scan@.len() as int,
            min_exclusive_version,
        ) {
            message@ == page_keys::invalid_metadata("file size"@)
        } else {
            exists|k: int|
                0 <= k < scan@.len() && scan_is_readable(scan@, k, min_exclusive_version)
                    && record_error(
                    (#[trigger] scan@[k]).key@,
                    scan@[k].value@,
                    min_exclusive_version,
                ) == Some(message@)
        },
        delta is Ok ==> forall|k: int|
            0 <= k < scan@.len() ==> record_error(
                (#[trigger] scan@[k]).key@,
                scan@[k].value@,
                min_exclusive_version,
            ) is None,
{
    let ghost since = min_exclusive_version;
    let ghost n = scan@.len() as int;
    let mut findings: ScanFindings = ScanFindings::new(Ghost(scan@), Ghost(since));
    let mut i: usize = 0;
    while i < scan.len()
        invariant
            i <= scan.len(),
            n == scan@.len(),
            since == min_exclusive_version,
            ordered::ordered_entries(scan@),
            scan_is_readable(scan@, i as int, since),
            findings.holds(scan@, i as int, since),
        decreases scan.len() - i,
    {
        proof {
            lemma_scan_step(scan@, i as int, since);
        }
        match findings.take_record(
            &scan[i],
            min_exclusive_version,
            Ghost(scan@),
            Ghost(i as int),
        ) {
            Ok(()) => {},
            Err(message) => {
                assert(record_error(scan@[i as int].key@, scan@[i as int].value@, since) == Some(
                    message@,
                ));
                return Err(message);
            },
        }
        i = i + 1;
    }
    let ScanFindings { entries, files, metadata_deletes, ranges } = findings;
    let mut entries: Vec<SqliteDatabasePageSyncEntry> = entries;
    let mut metadata_deletes: Vec<Vec<u8>> = metadata_deletes;
    let mut ranges: Vec<SqliteCurrentPageDeleteRange> = ranges;
    let ghost store = ordered::entry_map(scan@);
    let mut m: usize = 0;
    while m < files.len()
        invariant
            m <= files.len(),
            n == scan@.len(),
            since == min_exclusive_version,
            store == ordered::entry_map(scan@),
            ordered::ordered_entries(scan@),
            scan_is_readable(scan@, n, since),
            forall|file: Seq<u8>| #[trigger]
                ordered::lists_key(files@, file) <==> is_changed(scan@, n, since, file),
            forall|j: int| 0 <= j < m ==> !size_is_bad(scan@, (#[trigger] files@[j])@),
            ordered::ordered_entries(entries@),
            forall|key: Seq<u8>| #[trigger]
                ordered::entry_map(entries@).dom().contains(key) <==> is_direct(
                    scan@,
                    n,
                    since,
                    key,
                ) || files_export(scan@, files@, m as int, key),
            forall|key: Seq<u8>| #[trigger]
                ordered::entry_map(entries@).dom().contains(key) ==> ordered::entry_map(
                    entries@,
                )[key] == store[key],
            ordered::ordered_keys(metadata_deletes@),
            forall|key: Seq<u8>| #[trigger]
                ordered::lists_key(metadata_deletes@, key) <==> says_deleted(scan@, n, since, key)
                    || files_delete(scan@, files@, m as int, key),
            ordered::ordered_ranges(ranges@),
            forall|prefix: Seq<u8>, first_page: u64| #[trigger]
                ordered::lists_range(ranges@, prefix, first_page) <==> says_cut(
                    scan@,
                    n,
                    since,
                    prefix,
                    first_page,
                ) || files_cut(scan@, files@, m as int, prefix, first_page),
        decreases files.len() - m,
    {
        let file: &Vec<u8> = &files[m];
        proof {
            lemma_files_step(scan@, files@, m as int);
            assert(ordered::lists_key(files@, file@));
        }
        let size_key: Vec<u8> = size_key_from_file_prefix(file.as_slice());
        match find_entry(scan, size_key.as_slice()) {
            Some(at) => {
                let value: Vec<u8> = copy_bytes(scan[at].value.as_slice());
                let size: u64 = match u64_from_be_bytes(value.as_slice(), "file size") {
                    Ok(size) => size,
                    Err(message) => {
                        assert(is_changed(scan@, n, since, file@) && size_is_bad(scan@, file@));
                        return Err(message);
                    },
                };
                put_range(
                    &mut ranges,
                    SqliteCurrentPageDeleteRange {
                        current_pages_prefix: current_pages_prefix_from_file_prefix(
                            file.as_slice(),
                        ),
                        first_page: pages_for(size),
                    },
                );
                put_entry(&mut entries, size_key, value);
                let prefix: Vec<u8> = current_pages_prefix_from_file_prefix(file.as_slice());
                put_entries_under(&mut entries, scan, prefix.as_slice());
            },
            None => {
                put_range(
                    &mut ranges,
                    SqliteCurrentPageDeleteRange {
                        current_pages_prefix: current_pages_prefix_from_file_prefix(
                            file.as_slice(),
                        ),
                        first_page: 0,
                    },
                );
                put_key(&mut metadata_deletes, size_key);
            },
        }
        m = m + 1;
    }
    let delta = SqliteDatabasePageSyncDelta {
        min_exclusive_version,
        entries,
        metadata_deletes,
        current_page_deletes: ranges,
    };
    proof {
        lemma_files_are_changed(scan@, files@, since);
        assert(!exists|file: Seq<u8>| #[trigger]
            is_changed(scan@, n, since, file) && size_is_bad(scan@, file)) by {
            assert forall|file: Seq<u8>| #[trigger]
                is_changed(scan@, n, since, file) implies !size_is_bad(scan@, file) by {
                assert(ordered::lists_key(files@, file));
                let j = choose|j: int| 0 <= j < files@.len() && (#[trigger] files@[j])@ == file;
                assert(!size_is_bad(scan@, files@[j]@));
            }
        }
    }
    Ok(delta)
}

/// The listed files are the changed ones, so what they contribute is what the
/// changed files contribute.
proof fn lemma_files_are_changed(
    scan: Seq<SqliteDatabasePageSyncEntry>,
    files: Seq<Vec<u8>>,
    since: u64,
)
    requires
        forall|file: Seq<u8>| #[trigger]
            ordered::lists_key(files, file) <==> is_changed(scan, scan.len() as int, since, file),
    ensures
        forall|key: Seq<u8>| #[trigger]
            delta_copies(scan, since, key) <==> is_direct(scan, scan.len() as int, since, key)
                || files_export(scan, files, files.len() as int, key),
        forall|key: Seq<u8>| #[trigger]
            delta_deletes(scan, since, key) <==> says_deleted(scan, scan.len() as int, since, key)
                || files_delete(scan, files, files.len() as int, key),
        forall|prefix: Seq<u8>, first_page: u64| #[trigger]
            delta_cuts(scan, since, prefix, first_page) <==> says_cut(
                scan,
                scan.len() as int,
                since,
                prefix,
                first_page,
            ) || files_cut(scan, files, files.len() as int, prefix, first_page),
{
    let n = scan.len() as int;
    let count = files.len() as int;
    assert forall|key: Seq<u8>| #[trigger] delta_copies(scan, since, key) <==> is_direct(
        scan,
        n,
        since,
        key,
    ) || files_export(scan, files, count, key) by {
        if exists|file: Seq<u8>| #[trigger]
            is_changed(scan, n, since, file) && file_exports(scan, file, key) {
            let file = choose|file: Seq<u8>| #[trigger]
                is_changed(scan, n, since, file) && file_exports(scan, file, key);
            assert(ordered::lists_key(files, file));
            let j = choose|j: int| 0 <= j < files.len() && (#[trigger] files[j])@ == file;
            assert(file_exports(scan, files[j]@, key));
        }
        if files_export(scan, files, count, key) {
            let j = choose|j: int|
                0 <= j < count && file_exports(scan, (#[trigger] files[j])@, key);
            assert(ordered::lists_key(files, files[j]@));
            assert(is_changed(scan, n, since, files[j]@));
        }
    }
    assert forall|key: Seq<u8>| #[trigger] delta_deletes(scan, since, key) <==> says_deleted(
        scan,
        n,
        since,
        key,
    ) || files_delete(scan, files, count, key) by {
        if exists|file: Seq<u8>| #[trigger]
            is_changed(scan, n, since, file) && key == page_keys::size_key_of(file)
                && !ordered::entry_map(scan).dom().contains(key) {
            let file = choose|file: Seq<u8>| #[trigger]
                is_changed(scan, n, since, file) && key == page_keys::size_key_of(file)
                    && !ordered::entry_map(scan).dom().contains(key);
            assert(ordered::lists_key(files, file));
            let j = choose|j: int| 0 <= j < files.len() && (#[trigger] files[j])@ == file;
            assert(key == page_keys::size_key_of(files[j]@));
        }
        if files_delete(scan, files, count, key) {
            let j = choose|j: int|
                0 <= j < count && key == page_keys::size_key_of((#[trigger] files[j])@)
                    && !ordered::entry_map(scan).dom().contains(key);
            assert(ordered::lists_key(files, files[j]@));
            assert(is_changed(scan, n, since, files[j]@));
        }
    }
    assert forall|prefix: Seq<u8>, first_page: u64| #[trigger]
        delta_cuts(scan, since, prefix, first_page) <==> says_cut(
            scan,
            n,
            since,
            prefix,
            first_page,
        ) || files_cut(scan, files, count, prefix, first_page) by {
        if exists|file: Seq<u8>| #[trigger]
            is_changed(scan, n, since, file) && prefix == page_keys::current_prefix_of(file)
                && first_page == file_cut(scan, file) {
            let file = choose|file: Seq<u8>| #[trigger]
                is_changed(scan, n, since, file) && prefix == page_keys::current_prefix_of(file)
                    && first_page == file_cut(scan, file);
            assert(ordered::lists_key(files, file));
            let j = choose|j: int| 0 <= j < files.len() && (#[trigger] files[j])@ == file;
            assert(first_page == file_cut(scan, files[j]@));
        }
        if files_cut(scan, files, count, prefix, first_page) {
            let j = choose|j: int|
                0 <= j < count && prefix == page_keys::current_prefix_of((#[trigger] files[j])@)
                    && first_page == file_cut(scan, files[j]@);
            assert(ordered::lists_key(files, files[j]@));
            assert(is_changed(scan, n, since, files[j]@));
        }
    }
}

/// The file of a record that a live snapshot copies: a page, or the record of the
/// latest manifest.
pub open spec fn live_file(key: Seq<u8>) -> Option<Seq<u8>> {
    match page_keys::current_key_parts(key) {
        Some((file, _)) => Some(file),
        None => page_keys::latest_manifest_file(key),
    }
}

/// Whether a record of the latest manifest cannot be read.
pub open spec fn live_error(key: Seq<u8>, value: Seq<u8>) -> bool {
    page_keys::current_key_parts(key) is None && page_keys::latest_manifest_file(key) is Some
        && value.len() != 8
}

/// Whether one of the first `upto` records belongs to a file.
pub open spec fn is_live(
    scan: Seq<SqliteDatabasePageSyncEntry>,
    upto: int,
    file: Seq<u8>,
) -> bool {
    exists|k: int| 0 <= k < upto && live_file((#[trigger] scan[k]).key@) == Some(file)
}

/// Whether a live snapshot copies a record.
pub open spec fn snapshot_copies(scan: Seq<SqliteDatabasePageSyncEntry>, key: Seq<u8>) -> bool {
    ordered::entry_map(scan).dom().contains(key) && (live_file(key) is Some
        || exists|file: Seq<u8>| #[trigger]
        is_live(scan, scan.len() as int, file) && key == page_keys::size_key_of(file))
}

/// Whether a delta is the live snapshot of a database.
pub open spec fn is_live_snapshot(
    scan: Seq<SqliteDatabasePageSyncEntry>,
    delta: SqliteDatabasePageSyncDelta,
) -> bool {
    &&& delta.min_exclusive_version == 0
    &&& delta.metadata_deletes@.len() == 0
    &&& delta.current_page_deletes@.len() == 0
    &&& ordered::ordered_entries(delta.entries@)
    &&& forall|key: Seq<u8>| #[trigger]
        ordered::entry_map(delta.entries@).dom().contains(key) <==> snapshot_copies(scan, key)
    &&& forall|key: Seq<u8>| #[trigger]
        ordered::entry_map(delta.entries@).dom().contains(key) ==> ordered::entry_map(
            delta.entries@,
        )[key] == ordered::entry_map(scan)[key]
}

proof fn lemma_live_step(scan: Seq<SqliteDatabasePageSyncEntry>, k: int)
    requires
        0 <= k < scan.len(),
    ensures
        forall|file: Seq<u8>| #[trigger]
            is_live(scan, k + 1, file) <==> is_live(scan, k, file) || live_file(scan[k].key@)
                == Some(file),
{
    assert forall|file: Seq<u8>| #[trigger] is_live(scan, k + 1, file) <==> is_live(scan, k, file)
        || live_file(scan[k].key@) == Some(file) by {
        if is_live(scan, k + 1, file) {
            let j = choose|j: int|
                0 <= j < k + 1 && live_file((#[trigger] scan[j]).key@) == Some(file);
            assert(j == k || is_live(scan, k, file));
        }
        if is_live(scan, k, file) {
            let j = choose|j: int|
                0 <= j < k && live_file((#[trigger] scan[j]).key@) == Some(file);
            assert(0 <= j < k + 1);
        }
    }
}

/// Makes a delta that holds the current pages, the sizes and the latest manifest
/// versions of a database, and deletes nothing.
pub fn export_sqlite_database_live_snapshot(scan: &Vec<SqliteDatabasePageSyncEntry>) -> (delta:
    Result<SqliteDatabasePageSyncDelta, String>)
    requires
        ordered::ordered_entries(scan@),
    ensures
        delta is Ok <==> !exists|k: int|
            0 <= k < scan@.len() && live_error((#[trigger] scan@[k]).key@, scan@[k].value@),
        delta matches Err(message) ==> message@ == page_keys::invalid_metadata(
            "latest manifest version"@,
        ),
        delta matches Ok(made) ==> is_live_snapshot(scan@, made),
{
    let ghost store = ordered::entry_map(scan@);
    let ghost n = scan@.len() as int;
    let mut entries: Vec<SqliteDatabasePageSyncEntry> = Vec::new();
    let mut files: Vec<Vec<u8>> = Vec::new();
    let mut i: usize = 0;
    while i < scan.len()
        invariant
            i <= scan.len(),
            n == scan@.len(),
            store == ordered::entry_map(scan@),
            ordered::ordered_entries(scan@),
            ordered::ordered_entries(entries@),
            ordered::ordered_keys(files@),
            forall|k: int|
                0 <= k < i ==> !live_error((#[trigger] scan@[k]).key@, scan@[k].value@),
            forall|file: Seq<u8>| #[trigger]
                ordered::lists_key(files@, file) <==> is_live(scan@, i as int, file),
            forall|key: Seq<u8>| #[trigger]
                ordered::entry_map(entries@).dom().contains(key) <==> ordered::has_key(
                    scan@.take(i as int),
                    key,
                ) && live_file(key) is Some,
            forall|key: Seq<u8>| #[trigger]
                ordered::entry_map(entries@).dom().contains(key) ==> ordered::entry_map(
                    entries@,
                )[key] == store[key],
        decreases scan.len() - i,
    {
        let entry: &SqliteDatabasePageSyncEntry = &scan[i];
        let key = entry.key.as_slice();
        let value = entry.value.as_slice();
        proof {
            lemma_live_step(scan@, i as int);
            lemma_has_key_step(scan@, i as int);
            ordered::lemma_entry_map(scan@, i as int);
        }
        let found: Option<Vec<u8>> = match parse_current_page_key(key) {
            Some((file, _page)) => Some(file),
            None => match parse_latest_manifest_key(key, value) {
                Err(message) => {
                    assert(live_error(scan@[i as int].key@, scan@[i as int].value@));
                    return Err(message);
                },
                Ok(None) => None,
                Ok(Some((file, _version))) => Some(file),
            },
        };
        if let Some(file) = found {
            put_key(&mut files, file);
            put_entry(&mut entries, copy_bytes(key), copy_bytes(value));
        }
        i = i + 1;
    }
    assert(scan@.take(i as int) =~= scan@);
    let mut m: usize = 0;
    while m < files.len()
        invariant
            m <= files.len(),
            store == ordered::entry_map(scan@),
            ordered::ordered_entries(scan@),
            ordered::ordered_entries(entries@),
            forall|key: Seq<u8>| #[trigger]
                ordered::entry_map(entries@).dom().contains(key) <==> store.dom().contains(key) && (
                live_file(key) is Some || sizes_of(files@, m as int, key)),
            forall|key: Seq<u8>| #[trigger]
                ordered::entry_map(entries@).dom().contains(key) ==> ordered::entry_map(
                    entries@,
                )[key] == store[key],
        decreases files.len() - m,
    {
        proof {
            lemma_sizes_step(files@, m as int);
        }
        let size_key: Vec<u8> = size_key_from_file_prefix(files[m].as_slice());
        if let Some(at) = find_entry(scan, size_key.as_slice()) {
            put_entry(&mut entries, size_key, copy_bytes(scan[at].value.as_slice()));
        }
        m = m + 1;
    }
    proof {
        assert forall|key: Seq<u8>| #[trigger]
            ordered::entry_map(entries@).dom().contains(key) <==> snapshot_copies(scan@, key) by {
            if sizes_of(files@, m as int, key) {
                let j = choose|j: int|
                    0 <= j < m && key == page_keys::size_key_of((#[trigger] files@[j])@);
                assert(ordered::lists_key(files@, files@[j]@));
                assert(is_live(scan@, n, files@[j]@));
            }
            if exists|file: Seq<u8>| #[trigger]
                is_live(scan@, n, file) && key == page_keys::size_key_of(file) {
                let file = choose|file: Seq<u8>| #[trigger]
                    is_live(scan@, n, file) && key == page_keys::size_key_of(file);
                assert(ordered::lists_key(files@, file));
                let j = choose|j: int| 0 <= j < files@.len() && (#[trigger] files@[j])@ == file;
                assert(key == page_keys::size_key_of(files@[j]@));
            }
        }
    }
    Ok(
        SqliteDatabasePageSyncDelta {
            min_exclusive_version: 0,
            entries,
            metadata_deletes: Vec::new(),
            current_page_deletes: Vec::new(),
        },
    )
}

spec fn sizes_of(files: Seq<Vec<u8>>, upto: int, key: Seq<u8>) -> bool {
    exists|j: int| 0 <= j < upto && key == page_keys::size_key_of((#[trigger] files[j])@)
}

proof fn lemma_sizes_step(files: Seq<Vec<u8>>, m: int)
    requires
        0 <= m < files.len(),
    ensures
        forall|key: Seq<u8>| #[trigger]
            sizes_of(files, m + 1, key) <==> sizes_of(files, m, key) || key
                == page_keys::size_key_of(files[m]@),
{
    assert forall|key: Seq<u8>| #[trigger] sizes_of(files, m + 1, key) <==> sizes_of(files, m, key)
        || key == page_keys::size_key_of(files[m]@) by {
        if sizes_of(files, m + 1, key) {
            let j = choose|j: int|
                0 <= j < m + 1 && key == page_keys::size_key_of((#[trigger] files[j])@);
            assert(j == m || sizes_of(files, m, key));
        }
        if sizes_of(files, m, key) {
            let j = choose|j: int|
                0 <= j < m && key == page_keys::size_key_of((#[trigger] files[j])@);
            assert(0 <= j < m + 1);
        }
    }
}

/// What applying a delta did.
#[derive(Debug, Clone, Copy, PartialEq, Eq, Structural)]
pub struct SqliteDatabasePageSyncMetrics {
    pub keys_scanned: usize,
    pub keys_copied: usize,
    pub keys_deleted: usize,
    pub pages_copied: usize,
    pub metadata_copied: usize,
}

impl Default for SqliteDatabasePageSyncMetrics {
    fn default() -> (metrics: SqliteDatabasePageSyncMetrics)
        ensures
            metrics == (SqliteDatabasePageSyncMetrics {
                keys_scanned: 0,
                keys_copied: 0,
                keys_deleted: 0,
                pages_copied: 0,
                metadata_copied: 0,
            }),
    {
        SqliteDatabasePageSyncMetrics {
            keys_scanned: 0,
            keys_copied: 0,
            keys_deleted: 0,
            pages_copied: 0,
            metadata_copied: 0,
        }
    }
}

/// Whether a key names a page of a range.
pub open spec fn is_in_range(range: SqliteCurrentPageDeleteRange, key: Seq<u8>) -> bool {
    page_keys::index_under(range.current_pages_prefix@, key) matches Some(index) && index
        >= range.first_page
}

/// The removal of the keys of a range.
pub open spec fn range_deletes(
    range: SqliteCurrentPageDeleteRange,
    keys: Seq<Seq<u8>>,
) -> Seq<WriteModel> {
    keys.filter(|key: Seq<u8>| is_in_range(range, key)).map_values(
        |key: Seq<u8>| WriteModel { key, value: None },
    )
}

/// The removals of the first `upto` ranges; `scans` holds the target's keys under
/// the prefix of each range.
pub open spec fn all_range_deletes(
    ranges: Seq<SqliteCurrentPageDeleteRange>,
    scans: Seq<Vec<Vec<u8>>>,
    upto: int,
) -> Seq<WriteModel>
    decreases upto,
{
    if upto <= 0 {
        Seq::empty()
    } else {
        all_range_deletes(ranges, scans, upto - 1) + range_deletes(
            ranges[upto - 1],
            page_batch::key_models(scans[upto - 1]@),
        )
    }
}

/// The removals that a delta makes in a target.
pub open spec fn delta_removals(
    delta: SqliteDatabasePageSyncDelta,
    scans: Seq<Vec<Vec<u8>>>,
) -> Seq<WriteModel> {
    Seq::new(
        delta.metadata_deletes@.len(),
        |i: int| WriteModel { key: delta.metadata_deletes@[i]@, value: None },
    ) + all_range_deletes(
        delta.current_page_deletes@,
        scans,
        delta.current_page_deletes@.len() as int,
    )
}

/// The writes that a delta makes in a target: removals first, then copies.
pub open spec fn delta_writes(
    delta: SqliteDatabasePageSyncDelta,
    scans: Seq<Vec<Vec<u8>>>,
) -> Seq<WriteModel> {
    delta_removals(delta, scans) + Seq::new(
        delta.entries@.len(),
        |i: int|
            WriteModel {
                key: delta.entries@[i].key@,
                value: Some(delta.entries@[i].value@),
            },
    )
}

/// The number of pages among the first `upto` records of a delta.
pub open spec fn pages_among(entries: Seq<SqliteDatabasePageSyncEntry>, upto: int) -> int
    decreases upto,
{
    if upto <= 0 {
        0
    } else {
        pages_among(entries, upto - 1) + if page_keys::current_key_parts(
            entries[upto - 1].key@,
        ) is Some {
            1int
        } else {
            0int
        }
    }
}

fn append_range_deletes(
    writes: &mut Vec<StoreWrite>,
    range: &SqliteCurrentPageDeleteRange,
    keys: &Vec<Vec<u8>>,
)
    ensures
        page_batch::write_models(final(writes)@) == page_batch::write_models(old(writes)@)
            + range_deletes(*range, page_batch::key_models(keys@)),
{
    let ghost wanted = |key: Seq<u8>| is_in_range(*range, key);
    let ghost removal = |key: Seq<u8>| WriteModel { key, value: None };
    let ghost models = page_batch::key_models(keys@);
    let mut k: usize = 0;
    proof {
        assert(models.take(0).filter(wanted) =~= Seq::empty()) by {
            reveal(Seq::filter);
        }
        assert(page_batch::write_models(writes@) =~= page_batch::write_models(old(writes)@)
            + models.take(0).filter(wanted).map_values(removal));
    }
    while k < keys.len()
        invariant
            k <= keys.len(),
            wanted == (|key: Seq<u8>| is_in_range(*range, key)),
            removal == (|key: Seq<u8>| WriteModel { key, value: None }),
            models == page_batch::key_models(keys@),
            page_batch::write_models(writes@) == page_batch::write_models(old(writes)@)
                + models.take(k as int).filter(wanted).map_values(removal),
        decreases keys.len() - k,
    {
        let key: &Vec<u8> = &keys[k];
        let chosen: bool = match page_index_from_key(
            range.current_pages_prefix.as_slice(),
            key.as_slice(),
        ) {
            Some(index) => index >= range.first_page,
            None => false,
        };
        let ghost before = writes@;
        proof {
            assert(models[k as int] == key@);
            assert(chosen == wanted(models[k as int]));
            assert(models.take(k + 1) =~= models.take(k as int).push(models[k as int]));
            models.take(k as int).lemma_filter_push(models[k as int], wanted);
        }
        if chosen {
            append_delete(writes, copy_bytes(key.as_slice()));
        }
        proof {
            let kept = models.take(k as int).filter(wanted);
            if chosen {
                assert(kept.push(models[k as int]).map_values(removal) =~= kept.map_values(
                    removal,
                ).push(removal(models[k as int])));
            }
            assert(page_batch::write_models(writes@) =~= page_batch::write_models(old(writes)@)
                + models.take(k + 1).filter(wanted).map_values(removal));
        }
        k = k + 1;
    }
    assert(models.take(k as int) =~= models);
}

/// Gives the writes that a delta makes in a target, and counts them. `scans` holds
/// the target's keys under the prefix of each of the delta's page ranges.
pub fn apply_sqlite_database_page_delta(
    delta: &SqliteDatabasePageSyncDelta,
    scans: &Vec<Vec<Vec<u8>>>,
) -> (applied: (Vec<StoreWrite>, SqliteDatabasePageSyncMetrics))
    requires
        scans@.len() == delta.current_page_deletes@.len(),
    ensures
        page_batch::write_models(applied.0@) == delta_writes(*delta, scans@),
        applied.1.keys_scanned == delta.entries@.len(),
        applied.1.keys_copied == delta.entries@.len(),
        applied.1.keys_deleted == delta_removals(*delta, scans@).len(),
        applied.1.pages_copied == pages_among(delta.entries@, delta.entries@.len() as int),
        applied.1.metadata_copied == delta.entries@.len() - applied.1.pages_copied,
{
    let mut writes: Vec<StoreWrite> = Vec::new();
    let mut i: usize = 0;
    let ghost deletes = Seq::new(
        delta.metadata_deletes@.len(),
        |k: int| WriteModel { key: delta.metadata_deletes@[k]@, value: None },
    );
    while i < delta.metadata_deletes.len()
        invariant
            i <= delta.metadata_deletes.len(),
            deletes == Seq::new(
                delta.metadata_deletes@.len(),
                |k: int| WriteModel { key: delta.metadata_deletes@[k]@, value: None },
            ),
            page_batch::write_models(writes@) =~= deletes.take(i as int),
        decreases delta.metadata_deletes.len() - i,
    {
        append_delete(&mut writes, copy_bytes(delta.metadata_deletes[i].as_slice()));
        assert(deletes.take(i + 1) =~= deletes.take(i as int).push(deletes[i as int]));
        i = i + 1;
    }
    assert(deletes.take(i as int) =~= deletes);
    let mut r: usize = 0;
    assert(page_batch::write_models(writes@) =~= deletes + all_range_deletes(
        delta.current_page_deletes@,
        scans@,
        0,
    ));
    while r < delta.current_page_deletes.len()
        invariant
            r <= delta.current_page_deletes.len(),
            scans@.len() == delta.current_page_deletes@.len(),
            page_batch::write_models(writes@) == deletes + all_range_deletes(
                delta.current_page_deletes@,
                scans@,
                r as int,
            ),
        decreases delta.current_page_deletes.len() - r,
    {
        append_range_deletes(&mut writes, &delta.current_page_deletes[r], &scans[r]);
        assert(page_batch::write_models(writes@) =~= deletes + all_range_deletes(
            delta.current_page_deletes@,
            scans@,
            r + 1,
        ));
        r = r + 1;
    }
    let ghost removals = delta_removals(*delta, scans@);
    assert(page_batch::write_models(writes@) =~= removals);
    let keys_deleted: usize = writes.len();
    assert(keys_deleted == removals.len());
    let mut pages_copied: usize = 0;
    let mut e: usize = 0;
    let ghost copies = Seq::new(
        delta.entries@.len(),
        |k: int|
            WriteModel {
                key: delta.entries@[k].key@,
                value: Some(delta.entries@[k].value@),
            },
    );
    while e < delta.entries.len()
        invariant
            e <= delta.entries.len(),
            pages_copied <= e,
            pages_copied == pages_among(delta.entries@, e as int),
            copies == Seq::new(
                delta.entries@.len(),
                |k: int|
                    WriteModel {
                        key: delta.entries@[k].key@,
                        value: Some(delta.entries@[k].value@),
                    },
            ),
            page_batch::write_models(writes@) =~= removals + copies.take(e as int),
        decreases delta.entries.len() - e,
    {
        let entry: &SqliteDatabasePageSyncEntry = &delta.entries[e];
        if parse_current_page_key(entry.key.as_slice()).is_some() {
            pages_copied = pages_copied + 1;
        }
        append_put(
            &mut writes,
            copy_bytes(entry.key.as_slice()),
            copy_bytes(entry.value.as_slice()),
        );
        assert(removals + copies.take(e + 1) =~= (removals + copies.take(e as int)).push(
            copies[e as int],
        ));
        e = e + 1;
    }
    assert(copies.take(e as int) =~= copies);
    let metrics = SqliteDatabasePageSyncMetrics {
        keys_scanned: delta.entries.len(),
        keys_copied: delta.entries.len(),
        keys_deleted,
        pages_copied,
        metadata_copied: delta.entries.len() - pages_copied,
    };
    (writes, metrics)
}

} // verus!
