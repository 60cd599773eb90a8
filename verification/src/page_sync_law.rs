//! A delta brings a file of a copy to what the source holds.

use vstd::prelude::*;

use crate::bytes;
use crate::dirty_page::SQLITE_PAGE_SIZE;
use crate::ordered;
use crate::ordered::SqliteCurrentPageDeleteRange;
use crate::ordered::SqliteDatabasePageSyncEntry;
use crate::page_batch;
use crate::page_batch::WriteModel;
use crate::page_keys;
use crate::page_law;
use crate::page_sync;
use crate::page_sync::SqliteDatabasePageSyncDelta;

verus! {

/// Whether `scans` lists, for each page range of a delta, all keys that a target
/// holds under the range's prefix.
pub open spec fn scans_are_complete(
    ranges: Seq<SqliteCurrentPageDeleteRange>,
    scans: Seq<Vec<Vec<u8>>>,
    target: Map<Seq<u8>, Seq<u8>>,
) -> bool {
    scans.len() == ranges.len() && forall|r: int, key: Seq<u8>|
        #![trigger page_batch::key_models(scans[r]@).contains(key)]
        0 <= r < ranges.len() && target.dom().contains(key) && bytes::has_prefix(
            key,
            ranges[r].current_pages_prefix@,
        ) ==> page_batch::key_models(scans[r]@).contains(key)
}

proof fn lemma_range_deletes(
    range: SqliteCurrentPageDeleteRange,
    keys: Seq<Seq<u8>>,
    key: Seq<u8>,
)
    ensures
        forall|i: int|
            0 <= i < page_sync::range_deletes(range, keys).len() ==> (
            #[trigger] page_sync::range_deletes(range, keys)[i]).value is None,
        (exists|i: int|
            0 <= i < page_sync::range_deletes(range, keys).len() && (
            #[trigger] page_sync::range_deletes(range, keys)[i]).key == key) <==> keys.contains(key)
            && page_sync::is_in_range(range, key),
{
    let wanted = |k: Seq<u8>| page_sync::is_in_range(range, k);
    let kept = keys.filter(wanted);
    let writes = page_sync::range_deletes(range, keys);
    assert(writes.len() == kept.len());
    if exists|i: int| 0 <= i < writes.len() && (#[trigger] writes[i]).key == key {
        let i = choose|i: int| 0 <= i < writes.len() && (#[trigger] writes[i]).key == key;
        assert(kept[i] == key);
        keys.lemma_filter_pred(wanted, i);
        assert(kept.contains(key));
        keys.lemma_filter_contains_rev(wanted, key);
    }
    if keys.contains(key) && page_sync::is_in_range(range, key) {
        let j = choose|j: int| 0 <= j < keys.len() && keys[j] == key;
        keys.lemma_filter_contains(wanted, j);
        let i = choose|i: int| 0 <= i < kept.len() && kept[i] == key;
        assert(writes[i].key == key);
    }
}

/// Whether a key is removed by one of the first `upto` ranges.
spec fn in_some_range(
    ranges: Seq<SqliteCurrentPageDeleteRange>,
    scans: Seq<Vec<Vec<u8>>>,
    upto: int,
    key: Seq<u8>,
) -> bool {
    exists|r: int|
        0 <= r < upto && page_batch::key_models(scans[r]@).contains(key) && page_sync::is_in_range(
            #[trigger] ranges[r],
            key,
        )
}

proof fn lemma_all_range_deletes(
    ranges: Seq<SqliteCurrentPageDeleteRange>,
    scans: Seq<Vec<Vec<u8>>>,
    upto: int,
    key: Seq<u8>,
)
    requires
        0 <= upto <= ranges.len(),
        scans.len() == ranges.len(),
    ensures
        forall|i: int|
            0 <= i < page_sync::all_range_deletes(ranges, scans, upto).len() ==> (
            #[trigger] page_sync::all_range_deletes(ranges, scans, upto)[i]).value is None,
        (exists|i: int|
            0 <= i < page_sync::all_range_deletes(ranges, scans, upto).len() && (
            #[trigger] page_sync::all_range_deletes(ranges, scans, upto)[i]).key == key)
            <==> in_some_range(ranges, scans, upto, key),
    decreases upto,
{
    if upto > 0 {
        let r = upto - 1;
        let keys = page_batch::key_models(scans[r]@);
        lemma_all_range_deletes(ranges, scans, r, key);
        lemma_range_deletes(ranges[r], keys, key);
        let first = page_sync::all_range_deletes(ranges, scans, r);
        let second = page_sync::range_deletes(ranges[r], keys);
        let all = page_sync::all_range_deletes(ranges, scans, upto);
        assert(all == first + second);
        assert forall|i: int| 0 <= i < all.len() implies (#[trigger] all[i]).value is None by {
            if i < first.len() {
                assert(all[i] == first[i]);
            } else {
                assert(all[i] == second[i - first.len()]);
            }
        }
        if exists|i: int| 0 <= i < all.len() && (#[trigger] all[i]).key == key {
            let i = choose|i: int| 0 <= i < all.len() && (#[trigger] all[i]).key == key;
            if i < first.len() {
                assert(first[i].key == key);
                assert(in_some_range(ranges, scans, r, key));
                let q = choose|q: int|
                    0 <= q < r && page_batch::key_models(scans[q]@).contains(key)
                        && page_sync::is_in_range(#[trigger] ranges[q], key);
                assert(0 <= q < upto);
            } else {
                assert(second[i - first.len()].key == key);
                assert(page_sync::is_in_range(ranges[r], key));
            }
            assert(in_some_range(ranges, scans, upto, key));
        }
        if in_some_range(ranges, scans, upto, key) {
            let q = choose|q: int|
                0 <= q < upto && page_batch::key_models(scans[q]@).contains(key)
                    && page_sync::is_in_range(#[trigger] ranges[q], key);
            if q < r {
                assert(in_some_range(ranges, scans, r, key));
                let i = choose|i: int| 0 <= i < first.len() && (#[trigger] first[i]).key == key;
                assert(all[i].key == key);
            } else {
                let i = choose|i: int| 0 <= i < second.len() && (#[trigger] second[i]).key == key;
                assert(all[first.len() + i].key == key);
            }
        }
    }
}

/// What a record holds after a delta: what the delta copies; else nothing, where the
/// delta removes it; else what it held before.
proof fn lemma_delta_record(
    delta: SqliteDatabasePageSyncDelta,
    scans: Seq<Vec<Vec<u8>>>,
    target: Map<Seq<u8>, Seq<u8>>,
    key: Seq<u8>,
)
    requires
        scans.len() == delta.current_page_deletes@.len(),
        ordered::ordered_entries(delta.entries@),
    ensures
        ({
            let after = page_batch::store_after_all(
                target,
                page_sync::delta_writes(delta, scans),
            );
            let copies = ordered::entry_map(delta.entries@);
            let removed = ordered::lists_key(delta.metadata_deletes@, key) || in_some_range(
                delta.current_page_deletes@,
                scans,
                delta.current_page_deletes@.len() as int,
                key,
            );
            &&& after.dom().contains(key) <==> copies.dom().contains(key) || (
            target.dom().contains(key) && !removed)
            &&& copies.dom().contains(key) ==> after[key] == copies[key]
            &&& !copies.dom().contains(key) && after.dom().contains(key) ==> after[key]
                == target[key]
        }),
{
    let removals = page_sync::delta_removals(delta, scans);
    let copied = Seq::new(
        delta.entries@.len(),
        |i: int|
            WriteModel {
                key: delta.entries@[i].key@,
                value: Some(delta.entries@[i].value@),
            },
    );
    let writes = page_sync::delta_writes(delta, scans);
    assert(writes == removals + copied);
    let ranges = delta.current_page_deletes@;
    let count = ranges.len() as int;
    let copies = ordered::entry_map(delta.entries@);
    if copies.dom().contains(key) {
        let j = ordered::key_position(delta.entries@, key);
        ordered::lemma_entry_map(delta.entries@, j);
        let at = removals.len() + j;
        assert(writes[at] == copied[j]);
        assert forall|i: int| at < i < writes.len() implies (#[trigger] writes[i]).key
            != writes[at].key by {
            let m = i - removals.len();
            assert(writes[i] == copied[m]);
            bytes::lemma_lex_less_asymmetric(delta.entries@[j].key@, delta.entries@[m].key@);
        }
        page_law::lemma_store_after_last(target, writes, at);
    } else {
        page_law::lemma_store_after_concat(target, removals, copied);
        let middle = page_batch::store_after_all(target, removals);
        assert forall|i: int| 0 <= i < copied.len() implies (#[trigger] copied[i]).key != key by {
            assert(delta.entries@[i].key@ == copied[i].key);
            if copied[i].key == key {
                assert(ordered::has_key(delta.entries@, key));
            }
        }
        page_law::lemma_store_after_lookup(middle, copied, key);
        let deletes = Seq::new(
            delta.metadata_deletes@.len(),
            |i: int| WriteModel { key: delta.metadata_deletes@[i]@, value: None },
        );
        let cut = page_sync::all_range_deletes(ranges, scans, count);
        assert(removals == deletes + cut);
        lemma_all_range_deletes(ranges, scans, count, key);
        assert forall|i: int| 0 <= i < removals.len() implies (
        #[trigger] removals[i]).value is None by {
            if i < deletes.len() {
                assert(removals[i] == deletes[i]);
            } else {
                assert(removals[i] == cut[i - deletes.len()]);
            }
        }
        let removed = ordered::lists_key(delta.metadata_deletes@, key) || in_some_range(
            ranges,
            scans,
            count,
            key,
        );
        if removed {
            assert(exists|i: int| 0 <= i < removals.len() && (#[trigger] removals[i]).key == key) by {
                if ordered::lists_key(delta.metadata_deletes@, key) {
                    let i = choose|i: int|
                        0 <= i < delta.metadata_deletes@.len() && (
                        #[trigger] delta.metadata_deletes@[i])@ == key;
                    assert(removals[i].key == key);
                } else {
                    let i = choose|i: int| 0 <= i < cut.len() && (#[trigger] cut[i]).key == key;
                    assert(removals[deletes.len() + i].key == key);
                }
            }
            page_law::lemma_removed_key(target, removals, key);
        } else {
            assert forall|i: int| 0 <= i < removals.len() implies (#[trigger] removals[i]).key
                != key by {
                if i < deletes.len() {
                    assert(removals[i].key == delta.metadata_deletes@[i]@);
                } else {
                    assert(removals[i] == cut[i - deletes.len()]);
                }
            }
            page_law::lemma_store_after_lookup(target, removals, key);
        }
    }
}

/// A delta since any version brings every file that it mentions to what the source
/// holds, whatever the target held, as long as the target holds no bytes but zeros
/// in the pages that the source's file has as holes.
pub proof fn law_delta_brings_a_file_over(
    scan: Seq<SqliteDatabasePageSyncEntry>,
    since: u64,
    delta: SqliteDatabasePageSyncDelta,
    target: Map<Seq<u8>, Seq<u8>>,
    scans: Seq<Vec<Vec<u8>>>,
    file: Seq<u8>,
)
    requires
        ordered::ordered_entries(scan),
        page_sync::is_delta_since(scan, since, delta),
        page_sync::is_changed(scan, scan.len() as int, since, file),
        !page_sync::size_is_bad(scan, file),
        scans_are_complete(delta.current_page_deletes@, scans, target),
        forall|page: int, at: int|
            0 <= page < page_sync::file_cut(scan, file) && !page_law::file_pages(
                ordered::entry_map(scan),
                file,
            ).dom().contains(page) ==> #[trigger] page_law::byte_in_page(
                page_law::file_pages(target, file),
                page,
                at,
            ) == 0,
    ensures
        page_law::file_content(
            page_batch::store_after_all(target, page_sync::delta_writes(delta, scans)),
            file,
        ) == page_law::file_content(ordered::entry_map(scan), file),
{
    let source = ordered::entry_map(scan);
    let after = page_batch::store_after_all(target, page_sync::delta_writes(delta, scans));
    let size_key = page_keys::size_key_of(file);
    let n = scan.len() as int;
    let ranges = delta.current_page_deletes@;
    let cut = page_sync::file_cut(scan, file);
    lemma_delta_record(delta, scans, target, size_key);
    if source.dom().contains(size_key) {
        assert(page_sync::file_exports(scan, file, size_key));
        assert(page_sync::delta_copies(scan, since, size_key));
        assert(ordered::entry_map(delta.entries@).dom().contains(size_key));
    } else {
        assert(page_sync::delta_deletes(scan, since, size_key));
        assert(ordered::lists_key(delta.metadata_deletes@, size_key));
        if page_sync::delta_copies(scan, since, size_key) {
            lemma_copies_come_from_source(scan, since, size_key);
        }
        assert(!ordered::entry_map(delta.entries@).dom().contains(size_key));
    }
    assert(page_law::file_is_there(after, file) == page_law::file_is_there(source, file));
    assert(page_law::file_size(after, file) == page_law::file_size(source, file));
    if page_law::file_is_there(source, file) {
        let size = page_law::file_size(source, file);
        assert(size <= u64::MAX) by {
            bytes::lemma_be_value_of_eight(source[size_key]);
        }
        page_law::lemma_page_count(size);
        let got = page_law::file_content(after, file)->0;
        let wanted = page_law::file_content(source, file)->0;
        assert forall|i: int| 0 <= i < size implies got[i] == wanted[i] by {
            let page = i / SQLITE_PAGE_SIZE as int;
            let at = i % SQLITE_PAGE_SIZE as int;
            assert(0 <= page <= u64::MAX && page < cut) by {
                page_law::lemma_cut_position(size, page, at);
                assert(page * SQLITE_PAGE_SIZE + at == i);
            }
            let key = page_keys::current_key_of(file, page as u64);
            lemma_delta_record(delta, scans, target, key);
            page_keys::law_page_key_names_its_page(file, page as u64, page as u64);
            if source.dom().contains(key) {
                assert(page_sync::file_exports(scan, file, key));
                assert(page_sync::delta_copies(scan, since, key));
                assert(ordered::entry_map(delta.entries@).dom().contains(key));
            } else {
                if page_sync::delta_copies(scan, since, key) {
                    lemma_copies_come_from_source(scan, since, key);
                }
                assert(!ordered::entry_map(delta.entries@).dom().contains(key));
                assert(!page_law::file_pages(source, file).dom().contains(page));
                assert(page_law::byte_in_page(page_law::file_pages(target, file), page, at) == 0);
            }
        }
        assert(got =~= wanted);
    }
}

/// A live snapshot brings every file that has pages, or that was ever committed, over
/// to a target that holds no record of it, as a purged one does.
pub proof fn law_live_snapshot_brings_a_file_over(
    scan: Seq<SqliteDatabasePageSyncEntry>,
    delta: SqliteDatabasePageSyncDelta,
    target: Map<Seq<u8>, Seq<u8>>,
    file: Seq<u8>,
)
    requires
        ordered::ordered_entries(scan),
        page_sync::is_live_snapshot(scan, delta),
        page_sync::is_live(scan, scan.len() as int, file),
        page_keys::marker_is_unambiguous(file, bytes::text("current/")),
        !target.dom().contains(page_keys::size_key_of(file)),
        forall|page: u64|
            !target.dom().contains(#[trigger] page_keys::current_key_of(file, page)),
    ensures
        page_law::file_content(
            page_batch::store_after_all(target, page_sync::delta_writes(delta, Seq::empty())),
            file,
        ) == page_law::file_content(ordered::entry_map(scan), file),
        page_law::file_pages(
            page_batch::store_after_all(target, page_sync::delta_writes(delta, Seq::empty())),
            file,
        ) == page_law::file_pages(ordered::entry_map(scan), file),
{
    let source = ordered::entry_map(scan);
    let after = page_batch::store_after_all(target, page_sync::delta_writes(delta, Seq::empty()));
    let size_key = page_keys::size_key_of(file);
    lemma_delta_record(delta, Seq::empty(), target, size_key);
    assert(page_sync::snapshot_copies(scan, size_key) <==> source.dom().contains(size_key));
    let got = page_law::file_pages(after, file);
    let wanted = page_law::file_pages(source, file);
    assert forall|page: int| #[trigger] got.dom().contains(page) == wanted.dom().contains(page) && (
    wanted.dom().contains(page) ==> got[page] == wanted[page]) by {
        if 0 <= page <= u64::MAX {
            let key = page_keys::current_key_of(file, page as u64);
            page_keys::law_current_page_key_reads_back(file, page as u64);
            lemma_delta_record(delta, Seq::empty(), target, key);
            assert(page_sync::snapshot_copies(scan, key) <==> source.dom().contains(key));
        }
    }
    assert(got =~= wanted);
}

/// What a delta copies, the source holds.
proof fn lemma_copies_come_from_source(
    scan: Seq<SqliteDatabasePageSyncEntry>,
    since: u64,
    key: Seq<u8>,
)
    requires
        page_sync::delta_copies(scan, since, key),
    ensures
        ordered::entry_map(scan).dom().contains(key),
{
    if page_sync::is_direct(scan, scan.len() as int, since, key) {
        let k = choose|k: int|
            0 <= k < scan.len() && (#[trigger] scan[k]).key@ == key && page_sync::is_newer_metadata(
                key,
                scan[k].value@,
                since,
            );
        assert(ordered::has_key(scan, key));
    }
}

/// A delta removes from a target the pages that the source's file no longer has.
pub proof fn law_delta_removes_cut_pages(
    scan: Seq<SqliteDatabasePageSyncEntry>,
    since: u64,
    delta: SqliteDatabasePageSyncDelta,
    target: Map<Seq<u8>, Seq<u8>>,
    scans: Seq<Vec<Vec<u8>>>,
    file: Seq<u8>,
    page: u64,
)
    requires
        ordered::ordered_entries(scan),
        page_sync::is_delta_since(scan, since, delta),
        page_sync::is_changed(scan, scan.len() as int, since, file),
        !page_sync::size_is_bad(scan, file),
        scans_are_complete(delta.current_page_deletes@, scans, target),
        page >= page_sync::file_cut(scan, file),
        !page_law::file_pages(ordered::entry_map(scan), file).dom().contains(page as int),
    ensures
        !page_law::file_pages(
            page_batch::store_after_all(target, page_sync::delta_writes(delta, scans)),
            file,
        ).dom().contains(page as int),
{
    let source = ordered::entry_map(scan);
    let key = page_keys::current_key_of(file, page);
    let prefix = page_keys::current_prefix_of(file);
    let cut = page_sync::file_cut(scan, file);
    let ranges = delta.current_page_deletes@;
    assert(!source.dom().contains(key));
    lemma_delta_record(delta, scans, target, key);
    page_keys::law_page_key_names_its_page(file, page, page);
    if page_sync::delta_copies(scan, since, key) {
        lemma_copies_come_from_source(scan, since, key);
    }
    assert(cut >= 0) by {
        if source.dom().contains(page_keys::size_key_of(file)) {
            page_law::lemma_page_count(bytes::be_value(source[page_keys::size_key_of(file)]) as int);
        }
    }
    assert(page_sync::delta_cuts(scan, since, prefix, cut as u64));
    assert(ordered::lists_range(ranges, prefix, cut as u64));
    let r = choose|r: int|
        0 <= r < ranges.len() && (#[trigger] ranges[r]).current_pages_prefix@ == prefix
            && ranges[r].first_page == cut as u64;
    if target.dom().contains(key) {
        assert(page_batch::key_models(scans[r]@).contains(key));
        assert(page_sync::is_in_range(ranges[r], key));
        assert(in_some_range(ranges, scans, ranges.len() as int, key));
    }
}

/// A delta that is applied is there: the target holds every record that the delta copies, as
/// the delta has it, no longer holds what the delta deletes or cuts and does not copy, and
/// every other record stays as it was.
pub proof fn law_delta_is_applied(
    delta: SqliteDatabasePageSyncDelta,
    scans: Seq<Vec<Vec<u8>>>,
    target: Map<Seq<u8>, Seq<u8>>,
    key: Seq<u8>,
)
    requires
        ordered::ordered_entries(delta.entries@),
        scans_are_complete(delta.current_page_deletes@, scans, target),
    ensures
        ({
            let after = page_batch::store_after_all(
                target,
                page_sync::delta_writes(delta, scans),
            );
            let ranges = delta.current_page_deletes@;
            let deleted = exists|i: int|
                0 <= i < delta.metadata_deletes@.len() && (#[trigger] delta.metadata_deletes@[i])@
                    == key;
            let cut = exists|r: int|
                0 <= r < ranges.len() && page_sync::is_in_range(#[trigger] ranges[r], key);
            &&& forall|i: int|
                0 <= i < delta.entries@.len() ==> after.dom().contains(
                    (#[trigger] delta.entries@[i]).key@,
                ) && after[delta.entries@[i].key@] == delta.entries@[i].value@
            &&& !ordered::has_key(delta.entries@, key) && (deleted || cut) ==> !(
            after.dom().contains(key))
            &&& !ordered::has_key(delta.entries@, key) && !deleted && !cut
                ==> page_law::same_record(target, after, key)
        }),
{
    let after = page_batch::store_after_all(target, page_sync::delta_writes(delta, scans));
    let ranges = delta.current_page_deletes@;
    assert forall|i: int| 0 <= i < delta.entries@.len() implies after.dom().contains(
        (#[trigger] delta.entries@[i]).key@,
    ) && after[delta.entries@[i].key@] == delta.entries@[i].value@ by {
        lemma_delta_record(delta, scans, target, delta.entries@[i].key@);
        ordered::lemma_entry_map(delta.entries@, i);
    }
    lemma_delta_record(delta, scans, target, key);
    if exists|r: int| 0 <= r < ranges.len() && page_sync::is_in_range(#[trigger] ranges[r], key) {
        let r = choose|r: int|
            0 <= r < ranges.len() && page_sync::is_in_range(#[trigger] ranges[r], key);
        if target.dom().contains(key) {
            assert(bytes::has_prefix(key, ranges[r].current_pages_prefix@));
            assert(page_batch::key_models(scans[r]@).contains(key));
            assert(in_some_range(ranges, scans, ranges.len() as int, key));
        }
    }
}

/// The page records among those that a delta copies are counted, each once.
pub proof fn law_copied_pages_are_counted(entries: Seq<SqliteDatabasePageSyncEntry>, upto: int)
    requires
        0 <= upto <= entries.len(),
    ensures
        0 <= page_sync::pages_among(entries, upto) <= upto,
        upto < entries.len() ==> page_sync::pages_among(entries, upto + 1)
            - page_sync::pages_among(entries, upto) == (if page_keys::current_key_parts(
            entries[upto].key@,
        ) is Some {
            1int
        } else {
            0int
        }),
        page_sync::pages_among(entries, 0) == 0,
    decreases upto,
{
    if upto > 0 {
        law_copied_pages_are_counted(entries, upto - 1);
    }
}

} // verus!
