//! What a batch records of itself, and how paths and keys name the files of a database.

use vstd::prelude::*;
use vstd::string::*;

use crate::bytes;
use crate::commit::FileKind;
use crate::dirty_page;
use crate::dirty_page::DirtyModel;
use crate::dirty_page::SQLITE_PAGE_SIZE;
use crate::file_model::FileOp;
use crate::manifest;
use crate::manifest::FileManifest;
use crate::manifest::FileManifestKind;
use crate::ordered;
use crate::ordered::SqliteCurrentPageDeleteRange;
use crate::ordered::SqliteDatabasePageSyncEntry;
use crate::page_batch;
use crate::page_batch::BatchModel;
use crate::page_batch::StoredPage;
use crate::page_keys;
use crate::page_law;
use crate::page_snapshot;
use crate::vfs_law;

verus! {

broadcast use group_string_axioms;

/// A manifest reads back from its stored form; each kind has its own number.
pub proof fn law_manifest_reads_back(manifest: FileManifest, other: FileManifestKind)
    ensures
        manifest::manifest_reading(manifest::encoded_manifest(manifest)) == Ok::<
            FileManifest,
            Seq<char>,
        >(manifest),
        manifest::kind_of_number(manifest::kind_number(manifest.kind)) == Some(manifest.kind),
        manifest::kind_number(manifest.kind) == manifest::kind_number(other) ==> manifest.kind
            == other,
        manifest::kind_number(FileManifestKind::Write) == 0 && manifest::kind_number(
            FileManifestKind::Truncate,
        ) == 1 && manifest::kind_number(FileManifestKind::Delete) == 2,
{
    let version = crate::codec::varint(manifest.version as nat);
    let number = manifest::kind_number(manifest.kind);
    let kind = crate::codec::varint(number as nat);
    let size = crate::codec::varint(manifest.size as nat);
    assert(manifest::encoded_manifest(manifest) =~= version + (kind + size));
    assert(size + Seq::<u8>::empty() =~= size);
    crate::codec::law_u64_reads_back(manifest.version, kind + size);
    crate::codec::law_u32_reads_back(number, size);
    crate::codec::law_u64_reads_back(manifest.size, Seq::empty());
}

/// A batch with a version records what it did: the file's manifest for that version says
/// that the file was written, with its size, or deleted, and it is named as the latest one.
/// The file's size is recorded if and only if the file is there. A batch without a version
/// leaves no manifest.
pub proof fn law_batch_leaves_its_manifest(
    store: Map<Seq<u8>, Seq<u8>>,
    batch: BatchModel,
    file_prefix: Seq<u8>,
    version: u64,
    keys: Seq<Seq<u8>>,
    pages: Seq<StoredPage>,
    order: Seq<u64>,
)
    requires
        0 <= batch.size <= u64::MAX,
    ensures
        ({
            let after = page_batch::store_after_all(
                store,
                page_batch::batch_writes(batch, file_prefix, version, keys, pages, order),
            );
            let named = page_keys::manifest_key_of(file_prefix, version);
            let latest = page_keys::latest_manifest_key_of(file_prefix);
            let size = page_keys::size_key_of(file_prefix);
            &&& batch.exists ==> after.dom().contains(size) && bytes::be_value(after[size])
                == batch.size
            &&& !batch.exists && batch.deleted ==> !after.dom().contains(size)
            &&& version > 0 && (batch.exists || batch.deleted) ==> {
                &&& after.dom().contains(named)
                &&& after.dom().contains(latest) && after[latest].len() == 8 && bytes::be_value(
                    after[latest],
                ) == version
                &&& manifest::manifest_reading(after[named]) == Ok::<FileManifest, Seq<char>>(
                    FileManifest {
                        version,
                        kind: if batch.exists {
                            FileManifestKind::Write
                        } else {
                            FileManifestKind::Delete
                        },
                        size: if batch.exists {
                            batch.size as u64
                        } else {
                            0
                        },
                    },
                )
            }
        }),
{
    let writes = page_batch::batch_writes(batch, file_prefix, version, keys, pages, order);
    let meta = page_batch::metadata_writes(batch, file_prefix, version);
    let front = page_batch::removal_writes(keys, file_prefix, batch.removed_from) + Seq::new(
        order.len(),
        |i: int| page_batch::page_put(batch, file_prefix, pages, order[i]),
    );
    assert(writes =~= front + meta);
    page_law::lemma_store_after_concat(store, front, meta);
    let middle = page_batch::store_after_all(store, front);
    page_keys::law_records_of_a_file_are_apart(file_prefix, 0, version);
    bytes::lemma_u64_be_round_trip(version);
    bytes::lemma_u64_be_round_trip(batch.size as u64);
    let kind = if batch.exists {
        FileManifestKind::Write
    } else {
        FileManifestKind::Delete
    };
    let size = if batch.exists {
        batch.size as u64
    } else {
        0
    };
    law_manifest_reads_back(FileManifest { version, kind, size }, kind);
    if batch.exists || batch.deleted {
        page_law::lemma_store_after_last(middle, meta, 0);
        if version > 0 {
            assert(meta.len() == 3);
            page_law::lemma_store_after_last(middle, meta, 1);
            page_law::lemma_store_after_last(middle, meta, 2);
        }
    }
}

/// What an operation makes of a batch's file as a whole: whether it is there, how long it
/// is, and whether it was deleted on the way.
pub proof fn law_batch_follows_the_file(batch: BatchModel, op: FileOp, base: Seq<u8>)
    ensures
        ({
            let after = page_batch::batch_after(batch, op, base);
            &&& op is Delete ==> !after.exists && after.size == 0 && after.deleted
                && after.dirty.dom() == Set::<int>::empty()
            &&& !(op is Delete) ==> after.exists && after.deleted == batch.deleted
            &&& op matches FileOp::Truncate { size } ==> after.size == size
            &&& op matches FileOp::Write { offset, bytes } ==> {
                &&& after.size >= batch.size && after.size >= offset + bytes.len()
                &&& after.size == batch.size || after.size == offset + bytes.len()
            }
        }),
{
    if op is Delete {
        assert(page_batch::batch_after(batch, op, base).dirty.dom() =~= Set::<int>::empty());
    }
}

/// A cut asks for the stored bytes of the page that it goes through unless the batch has
/// written to that page; then it takes what was written there and does not look at the
/// stored bytes. Either way the page stands for itself afterwards.
pub proof fn law_cut_pages_stand_alone(batch: BatchModel, size: int, base: Seq<u8>, other: Seq<u8>)
    requires
        0 <= size < batch.size,
        size % SQLITE_PAGE_SIZE as int != 0,
    ensures
        ({
            let last = size / SQLITE_PAGE_SIZE as int;
            let op = FileOp::Truncate { size };
            let after = page_batch::batch_after(batch, op, base);
            &&& page_batch::page_needed_for(batch, op) == (if batch.dirty.dom().contains(last) {
                None::<int>
            } else {
                Some(last)
            })
            &&& batch.dirty.dom().contains(last) ==> after == page_batch::batch_after(
                batch,
                op,
                other,
            )
            &&& after.dirty.dom().contains(last)
            &&& !page_batch::needs_base(after, last)
            &&& after.cut_from == Some(last + 1)
            &&& !batch.dirty.dom().contains(last) ==> dirty_page::page_result(
                after.dirty[last],
                other,
            ) == (if base.len() <= size % SQLITE_PAGE_SIZE as int {
                base
            } else {
                base.take(size % SQLITE_PAGE_SIZE as int)
            })
        }),
{
    page_law::lemma_page_count(size);
    let last = size / SQLITE_PAGE_SIZE as int;
    let op = FileOp::Truncate { size };
    let after = page_batch::batch_after(batch, op, base);
    if batch.dirty.dom().contains(last) {
        assert(after =~= page_batch::batch_after(batch, op, other));
    }
    if base.len() == size % SQLITE_PAGE_SIZE as int {
        assert(base.take(base.len() as int) =~= base);
    }
}

/// The part of a path before the first slash stands for itself in keys, followed by a slash,
/// unless it is empty or a step to this or the next higher directory; then it is left out.
/// What follows the slash is taken in the same way.
pub proof fn law_paths_are_taken_part_by_part(part: Seq<u8>, rest: Seq<u8>)
    requires
        !part.contains(47u8),
    ensures
        page_keys::joined_parts(part) == (if part.len() == 0 || part == seq![46u8] || part
            == seq![46u8, 46u8] {
            Seq::empty()
        } else {
            part.push(47u8)
        }),
        page_keys::joined_parts(part + seq![47u8] + rest) == page_keys::joined_parts(part)
            + page_keys::joined_parts(rest),
{
    assert(part.take(part.len() as int) =~= part);
    lemma_first_slash(part, part);
    let whole = part + seq![47u8] + rest;
    assert(whole.take(part.len() as int) =~= part);
    lemma_first_slash(part, whole);
    assert(page_keys::joined_parts(Seq::empty()) =~= Seq::<u8>::empty());
    assert(whole.skip(part.len() as int + 1) =~= rest);
    let own = if page_keys::is_normal_part(part) {
        part.push(47u8)
    } else {
        Seq::empty()
    };
    if part.len() > 0 {
        assert(page_keys::joined_parts(part) =~= own);
    }
    assert(page_keys::joined_parts(whole) =~= own + page_keys::joined_parts(rest));
}

proof fn lemma_first_slash(part: Seq<u8>, whole: Seq<u8>)
    requires
        !part.contains(47u8),
        part.len() <= whole.len(),
        part == whole.take(part.len() as int),
        whole.len() == part.len() || whole[part.len() as int] == 47,
    ensures
        page_keys::first_slash(whole) == part.len(),
{
    page_keys::lemma_first_slash_bound(whole);
    let at = page_keys::first_slash(whole);
    if at < part.len() {
        assert(part[at] == whole[at]);
        assert(part.contains(47u8));
    }
}

/// Every record of a file has its own place below the file's prefix.
pub proof fn law_records_lie_below_their_file(
    database: Seq<u8>,
    path: Seq<u8>,
    page: u64,
    version: u64,
)
    ensures
        ({
            let file = page_keys::file_prefix_of(database, path);
            &&& file == bytes::text("sqlite/pages/") + database + bytes::text("/")
                + page_keys::joined_parts(path)
            &&& page_keys::size_key_of(file) == file + bytes::text("size")
            &&& page_keys::current_key_of(file, page) == file + bytes::text("current/")
                + bytes::decimal20(page)
            &&& page_keys::manifest_key_of(file, version) == file + bytes::text("manifests/")
                + bytes::decimal20(version)
            &&& page_keys::latest_manifest_key_of(file) == file + bytes::text("latest_manifest")
        }),
{
}

/// The kind of a stored file follows the ending of its path, as it does in the file system.
pub proof fn law_stored_kind_follows_the_ending(stem: Seq<u8>, path: Seq<u8>)
    ensures
        page_keys::file_kind_by_path(stem + bytes::text("-wal")) == FileKind::Wal,
        page_keys::file_kind_by_path(stem + bytes::text("-journal")) == FileKind::Journal,
        page_keys::file_kind_by_path(stem + bytes::text(".db")) == FileKind::MainDb,
        page_keys::file_kind_by_path(path) == crate::vfs_types::kind_by_path(path)
            || page_keys::file_kind_by_path(path) == FileKind::Other,
        page_keys::file_kind_by_path(path) == FileKind::Other ==> !vfs_law::ends_in(
            path,
            bytes::text("-wal"),
        ) && !vfs_law::ends_in(path, bytes::text("-journal")) && !vfs_law::ends_in(
            path,
            bytes::text(".db"),
        ),
{
    vfs_law::law_kind_follows_the_ending(stem);
    lemma_has_ending(stem, bytes::text("-wal"));
    lemma_has_ending(stem, bytes::text("-journal"));
    lemma_has_ending(stem, bytes::text(".db"));
    if vfs_law::ends_in(path, bytes::text("-wal")) {
        lemma_ending(path, bytes::text("-wal"));
    }
    if vfs_law::ends_in(path, bytes::text("-journal")) {
        lemma_ending(path, bytes::text("-journal"));
    }
    if vfs_law::ends_in(path, bytes::text(".db")) {
        lemma_ending(path, bytes::text(".db"));
    }
}

proof fn lemma_has_ending(stem: Seq<u8>, ending: Seq<u8>)
    ensures
        bytes::has_suffix(stem + ending, ending),
{
    let path = stem + ending;
    assert(path.subrange(path.len() - ending.len(), path.len() as int) =~= ending);
}

proof fn lemma_ending(path: Seq<u8>, ending: Seq<u8>)
    requires
        vfs_law::ends_in(path, ending),
    ensures
        bytes::has_suffix(path, ending),
{
    let stem = choose|stem: Seq<u8>| path == #[trigger] (stem + ending);
    lemma_has_ending(stem, ending);
}

/// A database consists of its file, its write-ahead log and its rollback journal, under the
/// name `main.db`, under the database's own name, and under that name with the ending of a
/// database.
pub open spec fn is_database_file(database: Seq<char>, path: Seq<char>) -> bool {
    exists|stem: Seq<char>|
        (stem == "main.db"@ || (database != "main"@ && (stem == database || stem == database
            + ".db"@))) && #[trigger] is_part_of(stem, path)
}

/// Whether a path is that of a database file, of its write-ahead log or of its journal.
pub open spec fn is_part_of(stem: Seq<char>, path: Seq<char>) -> bool {
    path == stem || path == stem + "-wal"@ || path == stem + "-journal"@
}

/// The paths that are looked for first are those of the database's files, and no other.
pub proof fn law_candidates_are_the_database_files(database: Seq<char>, path: Seq<char>)
    ensures
        page_snapshot::is_candidate_path(database, path) <==> is_database_file(database, path),
{
    let main = "main.db"@;
    let dotted = database + ".db"@;
    reveal_strlit("main.db");
    reveal_strlit("main.db-wal");
    reveal_strlit("main.db-journal");
    reveal_strlit("-wal");
    reveal_strlit("-journal");
    reveal_strlit(".db");
    reveal_strlit(".db-wal");
    reveal_strlit(".db-journal");
    assert("main.db-wal"@ =~= main + "-wal"@);
    assert("main.db-journal"@ =~= main + "-journal"@);
    assert(database + ".db-wal"@ =~= dotted + "-wal"@);
    assert(database + ".db-journal"@ =~= dotted + "-journal"@);
    assert(is_part_of(main, path) ==> is_database_file(database, path));
    assert(database != "main"@ && is_part_of(database, path) ==> is_database_file(database, path));
    assert(database != "main"@ && is_part_of(dotted, path) ==> is_database_file(database, path));
}

/// A file of the database that is stored belongs to the snapshot; where none of the
/// database's files is, every file with a manifest does. A file that is not stored never
/// does.
pub proof fn law_stored_files_are_snapshot(
    scan: Seq<SqliteDatabasePageSyncEntry>,
    database: Seq<char>,
    path: &str,
    file: Seq<u8>,
)
    requires
        page_keys::is_normal_path(bytes::text(path)),
        file == page_keys::file_prefix_of(ordered::text_bytes(database), bytes::text(path)),
    ensures
        ({
            let store = ordered::entry_map(scan);
            let stored = store.dom().contains(page_keys::size_key_of(file));
            &&& !stored ==> !page_snapshot::is_snapshot_file(scan, database, file)
            &&& stored && is_database_file(database, path@) ==> page_snapshot::is_snapshot_file(
                scan,
                database,
                file,
            )
            &&& stored && store.dom().contains(page_keys::latest_manifest_key_of(file))
                && !page_snapshot::has_candidate_file(scan, database)
                ==> page_snapshot::is_snapshot_file(scan, database, file)
        }),
{
    page_keys::law_file_prefix_reads_back(ordered::text_bytes(database), path);
    law_candidates_are_the_database_files(database, path@);
    let store = ordered::entry_map(scan);
    let latest = page_keys::latest_manifest_key_of(file);
    page_keys::law_latest_manifest_key_reads_back(file);
    if page_snapshot::is_candidate_path(database, path@) && store.dom().contains(
        page_keys::size_key_of(file),
    ) {
        assert(ordered::text_bytes(path@) == bytes::text(path));
        assert(page_snapshot::is_candidate_file(scan, database, file));
    }
    if store.dom().contains(latest) {
        let k = ordered::key_position(scan, latest);
        assert(ordered::has_key(scan, latest));
        assert(page_keys::latest_manifest_file(scan[k].key@) == Some(file));
        assert(page_snapshot::has_latest(scan, scan.len() as int, file));
    }
}

/// The pieces of a file snapshot are as large as was asked for, and never smaller than a
/// page.
pub proof fn law_snapshot_pieces_hold_a_page(target: usize)
    ensures
        page_snapshot::chunk_step(target) >= SQLITE_PAGE_SIZE,
        page_snapshot::chunk_step(target) >= target,
        target >= SQLITE_PAGE_SIZE ==> page_snapshot::chunk_step(target) == target,
        target < SQLITE_PAGE_SIZE ==> page_snapshot::chunk_step(target) == SQLITE_PAGE_SIZE,
{
}

/// A record's number is read from its decimal digits, with or without a plus sign; anything
/// else is no number.
pub proof fn law_numbers_are_read_from_digits(digits: Seq<u8>, n: u64)
    ensures
        bytes::parsed_u64(bytes::decimal20(n)) == Some(n),
        bytes::parsed_u64(Seq::empty()) is None,
        bytes::parsed_u64(seq![43u8]) is None,
        digits.len() > 0 && digits[0] != 43 ==> bytes::parsed_u64(seq![43u8] + digits)
            == bytes::parsed_u64(digits),
        digits.len() > 1 && !bytes::all_digits(digits.skip(1)) ==> bytes::parsed_u64(digits) is None,
{
    bytes::lemma_decimal20_round_trip(n);
    assert((seq![43u8] + digits).skip(1) =~= digits);
    assert(seq![43u8].skip(1) =~= Seq::<u8>::empty());
    if digits.len() > 1 && !bytes::all_digits(digits.skip(1)) {
        let tail = digits.skip(1);
        let i = choose|i: int| 0 <= i < tail.len() && !(48 <= #[trigger] tail[i] <= 57);
        assert(digits[i + 1] == tail[i]);
    }
}

/// The records of latest manifests are only looked at where no file of the database is
/// there, and only one that is no version, of eight bytes, is refused.
pub proof fn law_latest_versions_have_eight_bytes(
    scan: Seq<SqliteDatabasePageSyncEntry>,
    database: Seq<char>,
    at: int,
)
    ensures
        (forall|k: int|
            0 <= k < scan.len() && bytes::has_suffix(
                (#[trigger] scan[k]).key@,
                bytes::text("latest_manifest"),
            ) ==> scan[k].value@.len() == 8) ==> !page_snapshot::latest_is_bad(scan, database),
        page_snapshot::has_candidate_file(scan, database) ==> !page_snapshot::latest_is_bad(
            scan,
            database,
        ),
        !page_snapshot::has_candidate_file(scan, database) && 0 <= at < scan.len()
            && bytes::has_suffix(scan[at].key@, bytes::text("latest_manifest"))
            && scan[at].value@.len() != 8 ==> page_snapshot::latest_is_bad(scan, database),
{
}

/// A page that is written to holds the new bytes where they were written; all its other
/// bytes stay what they were, whether they come from earlier writes or from the stored page.
pub proof fn law_written_bytes_lie_over_the_page(
    page: DirtyModel,
    base: Seq<u8>,
    offset: int,
    bytes: Seq<u8>,
    i: int,
)
    requires
        forall|k: int| #[trigger] page.covered.contains(k) ==> 0 <= k < page.overlay.len(),
        page.overlay.len() <= SQLITE_PAGE_SIZE,
        base.len() <= SQLITE_PAGE_SIZE,
        0 <= offset,
        offset + bytes.len() <= SQLITE_PAGE_SIZE,
    ensures
        ({
            let before = dirty_page::page_result(page, base);
            let after = dirty_page::page_result(
                dirty_page::page_after_write(page, offset, bytes),
                base,
            );
            &&& offset <= i < offset + bytes.len() ==> i < after.len() && after[i] == bytes[i
                - offset]
            &&& 0 <= i < before.len() && !(offset <= i < offset + bytes.len()) ==> i < after.len()
                && after[i] == before[i]
            &&& before.len() <= i < after.len() && !(offset <= i < offset + bytes.len())
                ==> after[i] == 0
        }),
{
    let written = dirty_page::page_after_write(page, offset, bytes);
    if dirty_page::is_complete(written) && !dirty_page::is_complete(page) {
        assert(0 <= i < SQLITE_PAGE_SIZE ==> written.covered.contains(i));
        assert(written.overlay.len() >= SQLITE_PAGE_SIZE) by {
            assert(written.covered.contains(SQLITE_PAGE_SIZE - 1));
        }
    }
    if dirty_page::is_complete(page) && !page.base_zeroed {
        assert forall|k: int| 0 <= k < SQLITE_PAGE_SIZE implies written.covered.contains(k) by {
            assert(page.covered.contains(k));
        }
    }
}

/// A page that was cut holds what was written to it below the cut, and nothing of the stored
/// page shows through it any more.
pub proof fn law_cut_page_holds_what_was_written(page: DirtyModel, len: int, base: Seq<u8>, i: int)
    requires
        0 <= len,
    ensures
        ({
            let after = dirty_page::page_result(dirty_page::page_after_truncate(page, len), base);
            &&& after.len() <= len && after.len() <= page.overlay.len()
            &&& 0 <= i < len && i < page.overlay.len() ==> i < after.len() && after[i]
                == page.overlay[i]
        }),
        dirty_page::page_result(dirty_page::clean_page(), base) == base,
        dirty_page::page_result(dirty_page::existing_page(base), Seq::empty()) == base,
{
    let clean = dirty_page::clean_page();
    assert(!clean.covered.contains(0));
    assert(dirty_page::page_result(clean, base) =~= base);
}

/// A file counts as one of the database's own only if it has a size and lies where such a
/// file lies.
pub proof fn law_candidate_files_are_there(
    scan: Seq<SqliteDatabasePageSyncEntry>,
    database: Seq<char>,
    path: Seq<char>,
    file: Seq<u8>,
)
    requires
        file == page_keys::file_prefix_of(
            ordered::text_bytes(database),
            ordered::text_bytes(path),
        ),
    ensures
        page_snapshot::is_candidate_path(database, path) && ordered::entry_map(scan).dom().contains(
            page_keys::size_key_of(file),
        ) ==> page_snapshot::is_candidate_file(scan, database, file),
        !ordered::entry_map(scan).dom().contains(page_keys::size_key_of(file))
            ==> !page_snapshot::is_candidate_file(scan, database, file),
        (forall|other: Seq<char>|
            #[trigger] page_snapshot::is_candidate_path(database, other) ==> file
                != page_keys::file_prefix_of(
                ordered::text_bytes(database),
                ordered::text_bytes(other),
            )) ==> !page_snapshot::is_candidate_file(scan, database, file),
{
}

/// The bytes of a page are those that were read for it, and a page that was not read has
/// none.
pub proof fn law_pages_are_found_by_number(pages: Seq<StoredPage>, index: int, at: int)
    ensures
        0 <= at < pages.len() && pages[at].index == index && (forall|k: int|
            0 <= k < at ==> (#[trigger] pages[k]).index != index) ==> page_batch::page_bytes(
            pages,
            index,
        ) == pages[at].bytes@,
        (forall|k: int| 0 <= k < pages.len() ==> (#[trigger] pages[k]).index != index)
            ==> page_batch::page_bytes(pages, index).len() == 0,
    decreases pages.len(),
{
    if pages.len() > 0 {
        let rest = pages.skip(1);
        assert(forall|k: int| 0 <= k < rest.len() ==> #[trigger] rest[k] == pages[k + 1]);
        if pages[0].index != index {
            law_pages_are_found_by_number(rest, index, at - 1);
        }
    }
}

/// Lists that are kept in order hold nothing twice.
pub proof fn law_ordered_lists_hold_nothing_twice(
    texts: Seq<String>,
    keys: Seq<Vec<u8>>,
    ranges: Seq<SqliteCurrentPageDeleteRange>,
    i: int,
    j: int,
)
    requires
        0 <= i < j,
    ensures
        ordered::ordered_texts(texts) && j < texts.len() ==> texts[i]@ != texts[j]@,
        ordered::ordered_keys(keys) && j < keys.len() ==> keys[i]@ != keys[j]@,
        ordered::ordered_ranges(ranges) && j < ranges.len() ==> ranges[i].current_pages_prefix@
            != ranges[j].current_pages_prefix@ || ranges[i].first_page < ranges[j].first_page,
{
    if ordered::ordered_texts(texts) && j < texts.len() {
        bytes::lemma_lex_less_asymmetric(
            ordered::text_bytes(texts[i]@),
            ordered::text_bytes(texts[j]@),
        );
    }
    if ordered::ordered_keys(keys) && j < keys.len() {
        bytes::lemma_lex_less_asymmetric(keys[i]@, keys[j]@);
    }
    if ordered::ordered_ranges(ranges) && j < ranges.len() {
        assert(ordered::range_less(ranges[i], ranges[j]));
        if bytes::lex_less(ranges[i].current_pages_prefix@, ranges[j].current_pages_prefix@) {
            bytes::lemma_lex_less_asymmetric(
                ranges[i].current_pages_prefix@,
                ranges[j].current_pages_prefix@,
            );
        }
    }
}

/// A file has a latest manifest if and only if one of its records is that.
pub proof fn law_latest_manifests_are_found(
    scan: Seq<SqliteDatabasePageSyncEntry>,
    file: Seq<u8>,
    at: int,
)
    ensures
        0 <= at < scan.len() && scan[at].key@ == file + bytes::text("latest_manifest")
            ==> page_snapshot::has_latest(scan, scan.len() as int, file),
        (forall|k: int|
            0 <= k < scan.len() ==> (#[trigger] scan[k]).key@ != file + bytes::text(
                "latest_manifest",
            )) ==> !page_snapshot::has_latest(scan, scan.len() as int, file),
{
    let marker = bytes::text("latest_manifest");
    let key = file + marker;
    assert(key.skip(key.len() - marker.len()) =~= marker);
    assert(key.take(key.len() - marker.len()) =~= file);
    assert(page_keys::latest_manifest_file(key) == Some(file));
    if page_snapshot::has_latest(scan, scan.len() as int, file) {
        let k = choose|k: int|
            0 <= k < scan.len() && page_keys::latest_manifest_file((#[trigger] scan[k]).key@)
                == Some(file);
        let found = scan[k].key@;
        assert(found =~= found.take(found.len() - marker.len()) + found.skip(
            found.len() - marker.len(),
        ));
        assert(found == key);
    }
}

} // verus!
