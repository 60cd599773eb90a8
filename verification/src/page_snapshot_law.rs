//! A file snapshot brings the files of a database over.

use vstd::prelude::*;

use crate::bytes;
use crate::dirty_page::SQLITE_PAGE_SIZE;
use crate::file_model::FileOp;
use crate::ordered;
use crate::ordered::SqliteDatabasePageSyncEntry;
use crate::page_batch;
use crate::page_batch::StoredPage;
use crate::page_batch::WriteModel;
use crate::page_keys;
use crate::page_law;
use crate::page_snapshot;
use crate::page_snapshot::SqliteDatabaseFileSnapshot;
use crate::page_snapshot::SqliteDatabaseFileSnapshotFile;

verus! {

/// Whether a prefix is that of a database's file with a plain relative path, which does
/// not hold the marker of page records.
pub open spec fn is_plain_file(database: Seq<u8>, file: Seq<u8>) -> bool {
    &&& page_keys::path_of_prefix(database, file) matches Some(path)
    &&& page_keys::is_normal_path(ordered::text_bytes(path))
    &&& file == page_keys::file_prefix_of(database, ordered::text_bytes(path))
    &&& page_keys::marker_is_unambiguous(file, bytes::text("current/"))
}

/// Whether the page records of a file have the keys under which pages are written, and
/// none is longer than a page.
pub open spec fn pages_are_plain(store: Map<Seq<u8>, Seq<u8>>, file: Seq<u8>) -> bool {
    forall|key: Seq<u8>| #[trigger]
        store.dom().contains(key) ==> (page_keys::current_key_parts(key) matches Some((of, page))
            ==> (of == file ==> key == page_keys::current_key_of(file, page) && store[key].len()
            <= SQLITE_PAGE_SIZE))
}

/// Whether every file that a snapshot holds was written as files are.
pub open spec fn source_is_plain(
    scan: Seq<SqliteDatabasePageSyncEntry>,
    database: Seq<char>,
) -> bool {
    forall|file: Seq<u8>| #[trigger]
        page_snapshot::is_snapshot_file(scan, database, file) ==> is_plain_file(
            ordered::text_bytes(database),
            file,
        ) && pages_are_plain(ordered::entry_map(scan), file)
}

/// Whether a batch of operations on a file takes one store to another.
pub open spec fn applies_batch(
    store: Map<Seq<u8>, Seq<u8>>,
    after: Map<Seq<u8>, Seq<u8>>,
    file: Seq<u8>,
    version: u64,
    ops: Seq<FileOp>,
) -> bool {
    exists|keys: Seq<Seq<u8>>, pages: Seq<StoredPage>, order: Seq<u64>| #[trigger]
        applies_batch_with(store, after, file, version, ops, keys, pages, order)
}

/// Whether a batch of operations on a file takes one store to another, given the page
/// records that the store lists, the stored pages that were read and the order of the
/// touched pages.
pub open spec fn applies_batch_with(
    store: Map<Seq<u8>, Seq<u8>>,
    after: Map<Seq<u8>, Seq<u8>>,
    file: Seq<u8>,
    version: u64,
    ops: Seq<FileOp>,
    keys: Seq<Seq<u8>>,
    pages: Seq<StoredPage>,
    order: Seq<u64>,
) -> bool {
    let batch = page_law::batch_run_on(store, file, ops);
    &&& page_law::lists_page_keys(store, file, keys)
    &&& batch.size <= u64::MAX
    &&& forall|page: int| #[trigger] batch.dirty.dom().contains(page) ==> page <= u64::MAX
    &&& forall|page: int| #[trigger]
        page_batch::needs_base(batch, page) ==> page_batch::page_bytes(pages, page)
            == page_law::page_or_empty(page_law::file_pages(store, file), page)
    &&& page_batch::page_order(order, batch.dirty)
    &&& after == page_batch::store_after_all(
        store,
        page_batch::batch_writes(batch, file, version, keys, pages, order),
    )
}

/// The prefix under which a snapshot's file is written.
pub open spec fn written_prefix(database: Seq<char>, file: SqliteDatabaseFileSnapshotFile) -> Seq<u8> {
    page_keys::file_prefix_of(ordered::text_bytes(database), ordered::text_bytes(file.path@))
}

/// Whether a snapshot was written into a store: `stores` are the store without the
/// pages of the database, and then the store after each file.
pub open spec fn is_materialized(
    snapshot: SqliteDatabaseFileSnapshot,
    database: Seq<char>,
    stores: Seq<Map<Seq<u8>, Seq<u8>>>,
    versions: Seq<u64>,
) -> bool {
    &&& stores.len() == snapshot.files@.len() + 1
    &&& versions.len() == snapshot.files@.len()
    &&& forall|key: Seq<u8>| #[trigger]
        stores[0].dom().contains(key) ==> !bytes::has_prefix(
            key,
            page_keys::database_prefix_of(ordered::text_bytes(database)),
        )
    &&& forall|i: int|
        0 <= i < snapshot.files@.len() ==> applies_batch(
            stores[i],
            stores[i + 1],
            written_prefix(database, #[trigger] snapshot.files@[i]),
            versions[i],
            page_snapshot::snapshot_ops(snapshot.files@[i]),
        )
}

/// The records of two plain files are apart: what a batch on one of them writes is
/// neither the size nor a page of the other.
#[verifier::rlimit(40)]
proof fn lemma_files_apart(
    database: Seq<u8>,
    file: Seq<u8>,
    other: Seq<u8>,
    version: u64,
    page: u64,
)
    requires
        !database.contains(47u8),
        is_plain_file(database, file),
        is_plain_file(database, other),
        file != other,
    ensures
        !page_law::is_batch_key(file, version, page_keys::size_key_of(other)),
        !page_law::is_batch_key(file, version, page_keys::current_key_of(other, page)),
{
    let marker = bytes::text("current/");
    page_keys::lemma_marker_bytes();
    bytes::lemma_decimal20_round_trip(page);
    bytes::lemma_decimal20_round_trip(version);
    lemma_plain_shape(database, file);
    lemma_plain_shape(database, other);
    let a = file.len() as int;
    let b = other.len() as int;
    let current = page_keys::current_prefix_of(file);
    let size_key = page_keys::size_key_of(other);
    let page_key = page_keys::current_key_of(other, page);
    let digits = bytes::decimal20(page);
    // The last bytes tell the other records apart.
    assert(size_key[b + 3] == 101);
    assert(page_key[page_key.len() - 1] == digits[19]);
    assert(48 <= digits[19] <= 57);
    let latest = page_keys::latest_manifest_key_of(file);
    assert(latest[latest.len() - 1] == 116);
    let manifest = page_keys::manifest_key_of(file, version);
    assert(manifest[manifest.len() - 1] == bytes::decimal20(version)[19]);
    assert(48 <= bytes::decimal20(version)[19] <= 57);
    let own_size = page_keys::size_key_of(file);
    assert(own_size[a + 3] == 101);
    if size_key == own_size {
        assert(size_key.take(b) =~= other);
        assert(own_size.take(a) =~= file);
        assert(file =~= other);
    }
    if page_key == manifest {
        assert(a + 10 == b + 8);
        assert(page_key[b + 6] == 116);
        assert(manifest[a + 8] == 115);
    }
    if bytes::has_prefix(size_key, current) {
        assert forall|k: int| 0 <= k < 8 implies size_key[a + k] == marker[k] by {
            assert(size_key.subrange(0, current.len() as int)[a + k] == current[a + k]);
        }
        assert(a + 8 <= b + 4);
        if a + 8 <= b {
            assert((other + marker).subrange(a, a + 8) =~= marker);
            assert(bytes::occurs_at(other + marker, marker, a));
        } else {
            assert(size_key[b - 1] == 47);
            assert(size_key[a + (b - 1 - a)] == marker[b - 1 - a]);
        }
    }
    if bytes::has_prefix(page_key, current) {
        assert forall|k: int| 0 <= k < 8 implies page_key[a + k] == marker[k] by {
            assert(page_key.subrange(0, current.len() as int)[a + k] == current[a + k]);
        }
        if a < b {
            assert((other + marker).subrange(a, a + 8) =~= marker) by {
                assert forall|k: int| 0 <= k < 8 implies (other + marker)[a + k] == marker[k] by {
                    assert((other + marker)[a + k] == page_key[a + k]);
                }
            }
            assert(bytes::occurs_at(other + marker, marker, a));
        } else if a == b {
            assert(page_key.take(b) =~= other);
            assert(page_key.take(a) =~= file) by {
                assert forall|k: int| 0 <= k < a implies page_key[k] == file[k] by {
                    assert(page_key.subrange(0, current.len() as int)[k] == current[k]);
                }
            }
        } else {
            let d = a - b;
            assert(page_key[a] == 99);
            if d < 8 {
                assert(page_key[b + d] == marker[d]);
            } else {
                assert(page_key[b + d] == digits[d - 8]);
                assert(48 <= digits[d - 8] <= 57);
            }
        }
    }
}

/// What the prefix of a plain file looks like.
proof fn lemma_plain_shape(database: Seq<u8>, file: Seq<u8>)
    requires
        !database.contains(47u8),
        is_plain_file(database, file),
    ensures
        bytes::has_prefix(file, page_keys::database_prefix_of(database)),
        page_keys::path_start(file) == page_keys::database_prefix_of(database).len(),
        file.len() > page_keys::database_prefix_of(database).len(),
        file.last() == 47u8,
{
    let under = page_keys::database_prefix_of(database);
    let path = ordered::text_bytes(page_keys::path_of_prefix(database, file)->0);
    page_keys::lemma_path_start_of_file(database, path);
    page_keys::lemma_joined_normal_path(path);
    assert(file.subrange(0, under.len() as int) =~= under);
}

/// A batch makes no file but its own.
proof fn lemma_batch_makes_its_file(
    store: Map<Seq<u8>, Seq<u8>>,
    after: Map<Seq<u8>, Seq<u8>>,
    file: Seq<u8>,
    version: u64,
    ops: Seq<FileOp>,
    other: Seq<u8>,
)
    requires
        applies_batch(store, after, file, version, ops),
        page_law::file_is_there(after, other),
    ensures
        page_law::file_is_there(store, other) || other == file,
{
    let (keys, pages, order) = choose|keys: Seq<Seq<u8>>, pages: Seq<StoredPage>, order: Seq<u64>|
        #[trigger] applies_batch_with(store, after, file, version, ops, keys, pages, order);
    let batch = page_law::batch_run_on(store, file, ops);
    let writes = page_batch::batch_writes(batch, file, version, keys, pages, order);
    let key = page_keys::size_key_of(other);
    lemma_last_write(store, writes, key);
    if !store.dom().contains(key) {
        let i = choose|i: int|
            #![trigger writes[i]]
            0 <= i < writes.len() && writes[i].key == key && writes[i].value == Some(after[key]);
        let removals = page_batch::removal_writes(keys, file, batch.removed_from);
        let tail = page_batch::metadata_writes(batch, file, version);
        page_keys::lemma_marker_bytes();
        bytes::lemma_decimal20_round_trip(version);
        assert(key[other.len() as int + 3] == 101);
        if i < removals.len() {
            assert(writes[i] == removals[i]);
        } else if i < removals.len() + order.len() {
            let page = order[i - removals.len()];
            assert(writes[i] == page_batch::page_put(batch, file, pages, page));
            bytes::lemma_decimal20_round_trip(page);
            let page_key = page_keys::current_key_of(file, page);
            assert(page_key[page_key.len() - 1] == bytes::decimal20(page)[19]);
            assert(48 <= bytes::decimal20(page)[19] <= 57);
        } else {
            assert(writes[i] == tail[i - removals.len() - order.len()]);
            let manifest = page_keys::manifest_key_of(file, version);
            assert(manifest[manifest.len() - 1] == bytes::decimal20(version)[19]);
            assert(48 <= bytes::decimal20(version)[19] <= 57);
            let latest = page_keys::latest_manifest_key_of(file);
            assert(latest[latest.len() - 1] == 116);
            if key == page_keys::size_key_of(file) {
                assert(key.take(other.len() as int) =~= other);
                assert(page_keys::size_key_of(file).take(file.len() as int) =~= file);
            }
        }
    }
}

/// What a store holds of a file: its size and its pages.
pub open spec fn same_file(
    store: Map<Seq<u8>, Seq<u8>>,
    after: Map<Seq<u8>, Seq<u8>>,
    file: Seq<u8>,
) -> bool {
    &&& page_law::same_record(store, after, page_keys::size_key_of(file))
    &&& forall|page: u64| #[trigger]
        page_law::same_record(store, after, page_keys::current_key_of(file, page))
}

proof fn lemma_same_file(
    store: Map<Seq<u8>, Seq<u8>>,
    after: Map<Seq<u8>, Seq<u8>>,
    file: Seq<u8>,
)
    requires
        same_file(store, after, file),
    ensures
        page_law::file_content(after, file) == page_law::file_content(store, file),
{
    let before = page_law::file_pages(store, file);
    let got = page_law::file_pages(after, file);
    assert forall|page: int| #[trigger] got.dom().contains(page) == before.dom().contains(page) && (
    before.dom().contains(page) ==> got[page] == before[page]) by {
        if 0 <= page <= u64::MAX {
            assert(page_law::same_record(
                store,
                after,
                page_keys::current_key_of(file, page as u64),
            ));
        }
    }
    assert(got =~= before);
    assert(page_law::same_record(store, after, page_keys::size_key_of(file)));
}

/// A snapshot's file, written where there was none, reads as the file that was exported,
/// and no other plain file of the database changes.
proof fn lemma_one_file(
    scan: Seq<SqliteDatabasePageSyncEntry>,
    database: Seq<char>,
    origin: Seq<u8>,
    file: SqliteDatabaseFileSnapshotFile,
    step: int,
    store: Map<Seq<u8>, Seq<u8>>,
    after: Map<Seq<u8>, Seq<u8>>,
    version: u64,
)
    requires
        ordered::ordered_entries(scan),
        !ordered::text_bytes(database).contains(47u8),
        step > 0,
        page_snapshot::is_snapshot_of(file, scan, database, origin, step),
        page_snapshot::is_snapshot_file(scan, database, origin),
        is_plain_file(ordered::text_bytes(database), origin),
        pages_are_plain(ordered::entry_map(scan), origin),
        applies_batch(store, after, origin, version, page_snapshot::snapshot_ops(file)),
        !page_law::file_is_there(store, origin),
        forall|page: u64|
            !store.dom().contains(#[trigger] page_keys::current_key_of(origin, page)),
    ensures
        page_law::file_content(after, origin) == page_law::file_content(
            ordered::entry_map(scan),
            origin,
        ),
        page_law::file_content(after, origin) matches Some(content) && content.len() == file.size,
        forall|other: Seq<u8>|
            is_plain_file(ordered::text_bytes(database), other) && other != origin
                ==> #[trigger] same_file(store, after, other),
{
    let ops = page_snapshot::snapshot_ops(file);
    let (keys, pages, order) = choose|keys: Seq<Seq<u8>>, pages: Seq<StoredPage>, order: Seq<u64>|
        #[trigger] applies_batch_with(store, after, origin, version, ops, keys, pages, order);
    let none = page_law::file_pages(store, origin);
    assert(none =~= Map::<int, Seq<u8>>::empty());
    assert(page_law::file_is_sound(store, origin));
    assert(page_law::ops_are_valid(ops));
    page_law::lemma_run_over_nothing_is_clean(page_batch::batch_start(false, 0), ops);
    page_law::law_store_reads_as_it_says(store, origin, version, keys, pages, ops, order);
    assert(page_law::file_content(store, origin) is None);
    let records = page_snapshot::page_records(scan, scan.len() as int, origin);
    page_snapshot::law_snapshot_file_writes_back(file, records, step);
    let source = ordered::entry_map(scan);
    let stored = page_law::file_pages(source, origin);
    lemma_records_are_pages(scan, origin);
    let got = page_law::file_content(after, origin)->0;
    let wanted = page_law::file_content(source, origin)->0;
    assert forall|i: int| 0 <= i < file.size implies got[i] == wanted[i] by {
        page_snapshot::law_snapshot_holds_the_file(records, stored, i);
    }
    assert(got =~= wanted);
    assert forall|other: Seq<u8>|
        is_plain_file(ordered::text_bytes(database), other) && other != origin implies
        #[trigger] same_file(store, after, other) by {
        lemma_files_apart(ordered::text_bytes(database), origin, other, version, 0);
        assert forall|page: u64| #[trigger]
            page_law::same_record(store, after, page_keys::current_key_of(other, page)) by {
            lemma_files_apart(ordered::text_bytes(database), origin, other, version, page);
        }
    }
}

/// The page records of a plain file are its stored pages.
proof fn lemma_records_are_pages(scan: Seq<SqliteDatabasePageSyncEntry>, file: Seq<u8>)
    requires
        ordered::ordered_entries(scan),
        pages_are_plain(ordered::entry_map(scan), file),
        page_keys::marker_is_unambiguous(file, bytes::text("current/")),
    ensures
        ({
            let records = page_snapshot::page_records(scan, scan.len() as int, file);
            let pages = page_law::file_pages(ordered::entry_map(scan), file);
            &&& forall|i: int|
                0 <= i < records.len() ==> (#[trigger] records[i]).1.len() <= SQLITE_PAGE_SIZE
                    && pages.dom().contains(records[i].0 as int) && pages[records[i].0 as int]
                    == records[i].1
            &&& forall|page: int| #[trigger]
                pages.dom().contains(page) ==> exists|i: int|
                    0 <= i < records.len() && (#[trigger] records[i]).0 == page
        }),
{
    let n = scan.len() as int;
    let records = page_snapshot::page_records(scan, n, file);
    let source = ordered::entry_map(scan);
    let pages = page_law::file_pages(source, file);
    lemma_record_origins(scan, n, file);
    assert forall|i: int| 0 <= i < records.len() implies (#[trigger] records[i]).1.len()
        <= SQLITE_PAGE_SIZE && pages.dom().contains(records[i].0 as int)
        && pages[records[i].0 as int] == records[i].1 by {
        let k = choose|k: int|
            0 <= k < n && page_keys::current_key_parts((#[trigger] scan[k]).key@) == Some(
                (file, records[i].0),
            ) && scan[k].value@ == records[i].1;
        ordered::lemma_entry_map(scan, k);
        assert(source.dom().contains(scan[k].key@));
    }
    assert forall|page: int| #[trigger] pages.dom().contains(page) implies exists|i: int|
        0 <= i < records.len() && (#[trigger] records[i]).0 == page by {
        let key = page_keys::current_key_of(file, page as u64);
        let k = ordered::key_position(scan, key);
        assert(ordered::has_key(scan, key));
        page_keys::law_current_page_key_reads_back(file, page as u64);
        assert(page_keys::current_key_parts(scan[k].key@) == Some((file, page as u64)));
        assert(is_recorded(records, page as u64));
    }
}

/// Whether a page is among page records.
spec fn is_recorded(records: Seq<(u64, Seq<u8>)>, page: u64) -> bool {
    exists|i: int| 0 <= i < records.len() && (#[trigger] records[i]).0 == page
}

/// The page records of a file come from the records of a scan that name its pages, and
/// from all of them.
proof fn lemma_record_origins(scan: Seq<SqliteDatabasePageSyncEntry>, upto: int, file: Seq<u8>)
    requires
        0 <= upto <= scan.len(),
    ensures
        ({
            let records = page_snapshot::page_records(scan, upto, file);
            &&& forall|i: int|
                0 <= i < records.len() ==> exists|k: int|
                    0 <= k < upto && page_keys::current_key_parts((#[trigger] scan[k]).key@)
                        == Some((file, (#[trigger] records[i]).0)) && scan[k].value@ == records[i].1
            &&& forall|k: int|
                0 <= k < upto ==> (page_keys::current_key_parts((#[trigger] scan[k]).key@) matches Some(
                    (of, page),
                ) ==> (of == file ==> is_recorded(records, page)))
        }),
    decreases upto,
{
    let records = page_snapshot::page_records(scan, upto, file);
    if upto > 0 {
        let earlier = page_snapshot::page_records(scan, upto - 1, file);
        lemma_record_origins(scan, upto - 1, file);
        assert forall|i: int| 0 <= i < records.len() implies exists|k: int|
            0 <= k < upto && page_keys::current_key_parts((#[trigger] scan[k]).key@) == Some(
                (file, (#[trigger] records[i]).0),
            ) && scan[k].value@ == records[i].1 by {
            if i < earlier.len() {
                assert(earlier[i] == records[i]);
                let k = choose|k: int|
                    0 <= k < upto - 1 && page_keys::current_key_parts((#[trigger] scan[k]).key@)
                        == Some((file, earlier[i].0)) && scan[k].value@ == earlier[i].1;
                assert(page_keys::current_key_parts(scan[k].key@) == Some((file, records[i].0)));
            } else {
                assert(page_keys::current_key_parts(scan[upto - 1].key@) == Some(
                    (file, records[i].0),
                ));
            }
        }
        assert forall|k: int| 0 <= k < upto implies (page_keys::current_key_parts(
            (#[trigger] scan[k]).key@,
        ) matches Some((of, page)) ==> (of == file ==> is_recorded(records, page))) by {
            if let Some((of, page)) = page_keys::current_key_parts(scan[k].key@) {
                if of == file {
                    if k < upto - 1 {
                        assert(is_recorded(earlier, page));
                        let i = choose|i: int|
                            0 <= i < earlier.len() && (#[trigger] earlier[i]).0 == page;
                        assert(records[i] == earlier[i]);
                    } else {
                        assert(records[records.len() - 1].0 == page);
                    }
                }
            }
        }
    }
}

/// A snapshot brings the files of a database over. Exported from one store and written
/// into another, whatever that held of the database before, each of its files reads there
/// as in the source, with the size that the snapshot says; and the database has no other
/// file there.
pub proof fn law_file_snapshot_brings_the_files_over(
    scan: Seq<SqliteDatabasePageSyncEntry>,
    database: Seq<char>,
    step: int,
    snapshot: SqliteDatabaseFileSnapshot,
    stores: Seq<Map<Seq<u8>, Seq<u8>>>,
    versions: Seq<u64>,
)
    requires
        ordered::ordered_entries(scan),
        !ordered::text_bytes(database).contains(47u8),
        step > 0,
        page_snapshot::is_snapshot_in(snapshot, scan, database, step),
        source_is_plain(scan, database),
        is_materialized(snapshot, database, stores, versions),
    ensures
        forall|i: int|
            0 <= i < snapshot.files@.len() ==> {
                let file = written_prefix(database, #[trigger] snapshot.files@[i]);
                &&& page_law::file_content(stores.last(), file) == page_law::file_content(
                    ordered::entry_map(scan),
                    file,
                )
                &&& page_law::file_content(stores.last(), file) matches Some(content)
                &&& content.len() == snapshot.files@[i].size
            },
        forall|file: Seq<u8>|
            #![trigger page_law::file_is_there(stores.last(), file)]
            page_law::file_is_there(stores.last(), file) && bytes::has_prefix(
                file,
                page_keys::database_prefix_of(ordered::text_bytes(database)),
            ) ==> exists|i: int|
                0 <= i < snapshot.files@.len() && file == written_prefix(
                    database,
                    #[trigger] snapshot.files@[i],
                ),
{
    let origins = choose|origins: Seq<Seq<u8>>| #[trigger]
        page_snapshot::is_snapshot_from(snapshot, scan, database, origins, step);
    let n = snapshot.files@.len() as int;
    lemma_files_over(scan, database, step, snapshot, origins, stores, versions, n);
    assert(stores[n] == stores.last());
    assert forall|i: int| 0 <= i < n implies written_prefix(database, #[trigger] snapshot.files@[i])
        == origins[i] by {
        lemma_origin(scan, database, step, snapshot, origins, i);
    }
    assert forall|file: Seq<u8>|
        #![trigger page_law::file_is_there(stores.last(), file)]
        page_law::file_is_there(stores.last(), file) && bytes::has_prefix(
            file,
            page_keys::database_prefix_of(ordered::text_bytes(database)),
        ) implies exists|i: int|
        0 <= i < snapshot.files@.len() && file == written_prefix(
            database,
            #[trigger] snapshot.files@[i],
        ) by {
        assert(page_law::file_is_there(stores[n], file));
        let i = choose|i: int| 0 <= i < n && file == #[trigger] origins[i];
        assert(file == written_prefix(database, snapshot.files@[i]));
    }
}

/// A snapshot's file is written under the prefix that it was exported from, which no
/// other file of the snapshot shares.
proof fn lemma_origin(
    scan: Seq<SqliteDatabasePageSyncEntry>,
    database: Seq<char>,
    step: int,
    snapshot: SqliteDatabaseFileSnapshot,
    origins: Seq<Seq<u8>>,
    i: int,
)
    requires
        page_snapshot::is_snapshot_from(snapshot, scan, database, origins, step),
        source_is_plain(scan, database),
        0 <= i < snapshot.files@.len(),
    ensures
        written_prefix(database, snapshot.files@[i]) == origins[i],
        page_snapshot::is_snapshot_of(snapshot.files@[i], scan, database, origins[i], step),
        page_snapshot::is_snapshot_file(scan, database, origins[i]),
        is_plain_file(ordered::text_bytes(database), origins[i]),
        pages_are_plain(ordered::entry_map(scan), origins[i]),
        forall|j: int| 0 <= j < origins.len() && j != i ==> #[trigger] origins[j] != origins[i],
{
    let files = snapshot.files@;
    assert(page_snapshot::is_snapshot_of(files[i], scan, database, origins[i], step));
    assert(origins.contains(origins[i]));
    assert forall|j: int| 0 <= j < origins.len() && j != i implies #[trigger] origins[j]
        != origins[i] by {
        assert(page_snapshot::is_snapshot_of(files[j], scan, database, origins[j], step));
        if origins[j] == origins[i] {
            assert(files[j].path@ == files[i].path@);
            let key = ordered::text_bytes(files[i].path@);
            if bytes::lex_less(key, key) {
                bytes::lemma_lex_less_asymmetric(key, key);
            }
            if bytes::lex_less(origins[i], origins[i]) {
                bytes::lemma_lex_less_asymmetric(origins[i], origins[i]);
            }
            if j < i {
                assert(page_snapshot::comes_before(files, origins, j, i));
            } else {
                assert(page_snapshot::comes_before(files, origins, i, j));
            }
        }
    }
}

#[verifier::rlimit(40)]
proof fn lemma_files_over(
    scan: Seq<SqliteDatabasePageSyncEntry>,
    database: Seq<char>,
    step: int,
    snapshot: SqliteDatabaseFileSnapshot,
    origins: Seq<Seq<u8>>,
    stores: Seq<Map<Seq<u8>, Seq<u8>>>,
    versions: Seq<u64>,
    upto: int,
)
    requires
        ordered::ordered_entries(scan),
        !ordered::text_bytes(database).contains(47u8),
        step > 0,
        page_snapshot::is_snapshot_from(snapshot, scan, database, origins, step),
        source_is_plain(scan, database),
        is_materialized(snapshot, database, stores, versions),
        0 <= upto <= snapshot.files@.len(),
    ensures
        forall|i: int|
            0 <= i < upto ==> {
                &&& page_law::file_content(stores[upto], #[trigger] origins[i])
                    == page_law::file_content(ordered::entry_map(scan), origins[i])
                &&& page_law::file_content(stores[upto], origins[i]) matches Some(content)
                &&& content.len() == snapshot.files@[i].size
            },
        forall|i: int|
            upto <= i < origins.len() ==> is_absent(stores[upto], #[trigger] origins[i]),
        forall|file: Seq<u8>|
            #![trigger page_law::file_is_there(stores[upto], file)]
            page_law::file_is_there(stores[upto], file) && bytes::has_prefix(
                file,
                page_keys::database_prefix_of(ordered::text_bytes(database)),
            ) ==> exists|i: int| 0 <= i < upto && file == #[trigger] origins[i],
    decreases upto,
{
    let name = ordered::text_bytes(database);
    let under = page_keys::database_prefix_of(name);
    if upto == 0 {
        assert forall|i: int| 0 <= i < origins.len() implies is_absent(
            stores[0],
            #[trigger] origins[i],
        ) by {
            lemma_origin(scan, database, step, snapshot, origins, i);
            lemma_plain_shape(name, origins[i]);
            lemma_prefix_extends(origins[i], under, bytes::text("size"));
            assert forall|page: u64| !stores[0].dom().contains(
                #[trigger] page_keys::current_key_of(origins[i], page),
            ) by {
                let tail = bytes::text("current/") + bytes::decimal20(page);
                lemma_prefix_extends(origins[i], under, tail);
                assert(origins[i] + tail =~= page_keys::current_key_of(origins[i], page));
            }
        }
        assert forall|file: Seq<u8>|
            #![trigger page_law::file_is_there(stores[0], file)]
            page_law::file_is_there(stores[0], file) && bytes::has_prefix(
                file,
                under,
            ) implies false by {
            lemma_prefix_extends(file, under, bytes::text("size"));
        }
    } else {
        let last = upto - 1;
        lemma_files_over(scan, database, step, snapshot, origins, stores, versions, last);
        lemma_origin(scan, database, step, snapshot, origins, last);
        let file = snapshot.files@[last];
        assert(applies_batch(
            stores[last],
            stores[last + 1],
            written_prefix(database, file),
            versions[last],
            page_snapshot::snapshot_ops(file),
        ));
        assert(is_absent(stores[last], origins[last]));
        lemma_one_file(
            scan,
            database,
            origins[last],
            file,
            step,
            stores[last],
            stores[upto],
            versions[last],
        );
        assert forall|i: int| 0 <= i < origins.len() && i != last implies same_file(
            stores[last],
            stores[upto],
            #[trigger] origins[i],
        ) by {
            lemma_origin(scan, database, step, snapshot, origins, i);
        }
        assert forall|i: int| 0 <= i < upto implies {
            &&& page_law::file_content(stores[upto], #[trigger] origins[i])
                == page_law::file_content(ordered::entry_map(scan), origins[i])
            &&& page_law::file_content(stores[upto], origins[i]) matches Some(content)
            &&& content.len() == snapshot.files@[i].size
        } by {
            if i != last {
                assert(same_file(stores[last], stores[upto], origins[i]));
                lemma_same_file(stores[last], stores[upto], origins[i]);
            }
        }
        assert forall|i: int| upto <= i < origins.len() implies is_absent(
            stores[upto],
            #[trigger] origins[i],
        ) by {
            assert(is_absent(stores[last], origins[i]));
            assert(same_file(stores[last], stores[upto], origins[i]));
            assert forall|page: u64| !stores[upto].dom().contains(
                #[trigger] page_keys::current_key_of(origins[i], page),
            ) by {
                assert(page_law::same_record(
                    stores[last],
                    stores[upto],
                    page_keys::current_key_of(origins[i], page),
                ));
            }
        }
        assert forall|other: Seq<u8>|
            #![trigger page_law::file_is_there(stores[upto], other)]
            page_law::file_is_there(stores[upto], other) && bytes::has_prefix(
                other,
                under,
            ) implies exists|i: int| 0 <= i < upto && other == #[trigger] origins[i] by {
            lemma_batch_makes_its_file(
                stores[last],
                stores[upto],
                origins[last],
                versions[last],
                page_snapshot::snapshot_ops(file),
                other,
            );
            if other == origins[last] {
                assert(0 <= last < upto && other == origins[last]);
            } else {
                assert(page_law::file_is_there(stores[last], other));
                let i = choose|i: int| 0 <= i < last && other == #[trigger] origins[i];
                assert(0 <= i < upto && other == origins[i]);
            }
        }
    }
}

/// Whether a store holds neither the size nor a page of a file.
pub open spec fn is_absent(store: Map<Seq<u8>, Seq<u8>>, file: Seq<u8>) -> bool {
    &&& !page_law::file_is_there(store, file)
    &&& forall|page: u64|
        !store.dom().contains(#[trigger] page_keys::current_key_of(file, page))
}

proof fn lemma_prefix_extends(file: Seq<u8>, under: Seq<u8>, tail: Seq<u8>)
    requires
        bytes::has_prefix(file, under),
    ensures
        bytes::has_prefix(file + tail, under),
{
    assert((file + tail).subrange(0, under.len() as int) =~= file.subrange(0, under.len() as int));
}

/// A batch leaves the page records of every file as files are written: under the keys of
/// pages, and none longer than a page.
#[verifier::rlimit(40)]
pub proof fn law_batch_keeps_pages_plain(
    store: Map<Seq<u8>, Seq<u8>>,
    after: Map<Seq<u8>, Seq<u8>>,
    file: Seq<u8>,
    version: u64,
    ops: Seq<FileOp>,
    other: Seq<u8>,
)
    requires
        applies_batch(store, after, file, version, ops),
        page_law::ops_are_valid(ops),
        page_keys::marker_is_unambiguous(file, bytes::text("current/")),
        pages_are_plain(store, file),
        pages_are_plain(store, other),
    ensures
        pages_are_plain(after, other),
{
    let (keys, pages, order) = choose|keys: Seq<Seq<u8>>, pages: Seq<StoredPage>, order: Seq<u64>|
        #[trigger] applies_batch_with(store, after, file, version, ops, keys, pages, order);
    let batch = page_law::batch_run_on(store, file, ops);
    let writes = page_batch::batch_writes(batch, file, version, keys, pages, order);
    let stored = page_law::file_pages(store, file);
    let start = page_batch::batch_start(
        page_law::file_is_there(store, file),
        page_law::file_size(store, file),
    );
    page_law::lemma_overlays_fit(start, stored, ops);
    assert forall|key: Seq<u8>| #[trigger] after.dom().contains(key) implies (
    page_keys::current_key_parts(key) matches Some((of, page)) ==> (of == other ==> key
        == page_keys::current_key_of(other, page) && after[key].len() <= SQLITE_PAGE_SIZE)) by {
        lemma_last_write(store, writes, key);
        if exists|i: int|
            #![trigger writes[i]]
            0 <= i < writes.len() && writes[i].key == key && writes[i].value == Some(after[key]) {
            let i = choose|i: int|
                #![trigger writes[i]]
                0 <= i < writes.len() && writes[i].key == key && writes[i].value == Some(after[key]);
            let removals = page_batch::removal_writes(keys, file, batch.removed_from);
            let tail = page_batch::metadata_writes(batch, file, version);
            if i < removals.len() {
                assert(writes[i] == removals[i]);
            } else if i < removals.len() + order.len() {
                let page = order[i - removals.len()];
                assert(writes[i] == page_batch::page_put(batch, file, pages, page));
                page_keys::law_current_page_key_reads_back(file, page);
                assert(order.contains(page));
                assert(batch.dirty.dom().contains(page as int));
                if page_batch::needs_base(batch, page as int) {
                    let base = page_law::page_or_empty(stored, page as int);
                    assert(base.len() <= SQLITE_PAGE_SIZE) by {
                        let page_key = page_keys::current_key_of(file, page);
                        if stored.dom().contains(page as int) {
                            assert(store.dom().contains(page_key));
                        }
                    }
                    assert(page_batch::page_bytes(pages, page as int) == base);
                }
            } else {
                assert(writes[i] == tail[i - removals.len() - order.len()]);
                lemma_other_records(file, version);
            }
        } else {
            assert(store.dom().contains(key));
        }
    }
}

/// What a key holds after some writes, it held before, or one of them wrote.
proof fn lemma_last_write(store: Map<Seq<u8>, Seq<u8>>, writes: Seq<WriteModel>, key: Seq<u8>)
    requires
        page_batch::store_after_all(store, writes).dom().contains(key),
    ensures
        ({
            let after = page_batch::store_after_all(store, writes);
            (store.dom().contains(key) && after[key] == store[key]) || exists|i: int|
                #![trigger writes[i]]
                0 <= i < writes.len() && writes[i].key == key && writes[i].value == Some(after[key])
        }),
    decreases writes.len(),
{
    if writes.len() > 0 {
        let last = writes.last();
        assert(last == writes[writes.len() - 1]);
        if last.key != key {
            let earlier = writes.drop_last();
            lemma_last_write(store, earlier, key);
            let after = page_batch::store_after_all(store, earlier);
            if !(store.dom().contains(key) && after[key] == store[key]) {
                let i = choose|i: int|
                    #![trigger earlier[i]]
                    0 <= i < earlier.len() && earlier[i].key == key && earlier[i].value == Some(
                        after[key],
                    );
                assert(writes[i] == earlier[i]);
            }
        }
    }
}

/// What follows a file's prefix is not taken for a page record where no slash in it ends
/// the marker of page records.
proof fn lemma_no_page_key(file: Seq<u8>, tail: Seq<u8>)
    requires
        page_keys::marker_is_unambiguous(file, bytes::text("current/")),
        forall|i: int| 0 <= i < tail.len() && #[trigger] tail[i] == 47 ==> i > 0 && tail[i - 1] != 116,
    ensures
        page_keys::current_key_parts(file + tail) is None,
{
    let marker = bytes::text("current/");
    let path = (file + tail).skip(page_keys::path_start(file));
    page_keys::lemma_path_start_stays(file, tail);
    assert forall|k: int| !bytes::occurs_at(path, marker, k) by {
        if bytes::occurs_at(path, marker, k) {
            lemma_marker_in_path(file, tail, k);
        }
    }
    assert(bytes::first_occurrence(path, marker) is None) by {
        reveal(bytes::first_occurrence);
    }
}

#[verifier::rlimit(40)]
proof fn lemma_marker_in_path(file: Seq<u8>, tail: Seq<u8>, k: int)
    requires
        page_keys::marker_is_unambiguous(file, bytes::text("current/")),
        page_keys::path_start(file) <= file.len(),
        forall|i: int| 0 <= i < tail.len() && #[trigger] tail[i] == 47 ==> i > 0 && tail[i - 1] != 116,
    ensures
        !bytes::occurs_at(
            (file + tail).skip(page_keys::path_start(file)),
            bytes::text("current/"),
            k,
        ),
{
    let marker = bytes::text("current/");
    let start = page_keys::path_start(file);
    let key = file + tail;
    let path = key.skip(start);
    page_keys::lemma_marker_bytes();
    if bytes::occurs_at(path, marker, k) {
        let at = start + k;
        let found = path.subrange(k, k + 8);
        assert(found == marker);
        if at + 8 <= file.len() {
            assert((file + marker).subrange(at, at + 8) =~= found);
            assert(bytes::occurs_at(file + marker, marker, at));
        } else {
            let end = at + 7 - file.len();
            assert(found[7] == tail[end]);
            if end > 0 {
                assert(found[6] == tail[end - 1]);
            }
        }
    }
}

/// The other records of a file are not taken for page records.
pub proof fn lemma_other_records(file: Seq<u8>, version: u64)
    requires
        page_keys::marker_is_unambiguous(file, bytes::text("current/")),
    ensures
        page_keys::current_key_parts(page_keys::size_key_of(file)) is None,
        page_keys::current_key_parts(page_keys::latest_manifest_key_of(file)) is None,
        page_keys::current_key_parts(page_keys::manifest_key_of(file, version)) is None,
{
    page_keys::lemma_marker_bytes();
    page_keys::lemma_tail_bytes();
    bytes::lemma_decimal20_round_trip(version);
    let size = bytes::text("size");
    let latest = bytes::text("latest_manifest");
    let digits = bytes::decimal20(version);
    let manifest = bytes::text("manifests/") + digits;
    assert forall|i: int| 0 <= i < manifest.len() && #[trigger] manifest[i] == 47 implies i > 0
        && manifest[i - 1] != 116 by {
        if i >= 10 {
            assert(manifest[i] == digits[i - 10]);
        } else {
            assert(manifest[i] == bytes::text("manifests/")[i]);
            assert(manifest[8] == bytes::text("manifests/")[8]);
        }
    }
    lemma_no_page_key(file, size);
    lemma_no_page_key(file, latest);
    lemma_no_page_key(file, manifest);
    assert(file + manifest =~= page_keys::manifest_key_of(file, version));
}

} // verus!
