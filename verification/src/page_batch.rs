//! How a batch of file operations becomes writes to the page store.
//!
//! A [`PageBatch`] follows the operations one by one. Before an operation it says
//! which stored page it has to see, if any; when all operations are in, it says
//! which stored pages have to be merged, and then gives the writes.

use vstd::prelude::*;

use crate::bytes;
use crate::bytes::copy_bytes;
use crate::bytes::u64_to_be_bytes;
use crate::commit::VfsFileOp;
use crate::dirty_page;
use crate::dirty_page::merge_overlay;
use crate::dirty_page::DirtyModel;
use crate::dirty_page::DirtyPage;
use crate::dirty_page::DirtyPageMaterialization;
use crate::dirty_page::SQLITE_PAGE_SIZE;
use crate::file_model::FileOp;
use crate::manifest;
use crate::manifest::encode_manifest;
use crate::manifest::FileManifest;
use crate::manifest::FileManifestKind;
use crate::page_keys;
use crate::page_keys::current_page_key_from_file_prefix;
use crate::page_keys::current_pages_prefix_from_file_prefix;
use crate::page_keys::file_manifest_key_from_file_prefix;
use crate::page_keys::latest_manifest_key_from_file_prefix;
use crate::page_keys::page_index_from_key;
use crate::page_keys::size_key_from_file_prefix;

verus! {

/// One write to the page store.
#[derive(Debug, Clone, PartialEq, Eq)]
pub enum StoreWrite {
    Put { key: Vec<u8>, value: Vec<u8> },
    Delete { key: Vec<u8> },
}

/// The model of a write: the key and what it holds afterwards.
#[verifier::ext_equal]
pub struct WriteModel {
    pub key: Seq<u8>,
    pub value: Option<Seq<u8>>,
}

impl View for StoreWrite {
    type V = WriteModel;

    open spec fn view(&self) -> WriteModel {
        match self {
            StoreWrite::Put { key, value } => WriteModel { key: key@, value: Some(value@) },
            StoreWrite::Delete { key } => WriteModel { key: key@, value: None },
        }
    }
}

/// The models of a sequence of writes.
pub open spec fn write_models(writes: Seq<StoreWrite>) -> Seq<WriteModel> {
    Seq::new(writes.len(), |i: int| writes[i]@)
}

/// A store after one write.
pub open spec fn store_after(store: Map<Seq<u8>, Seq<u8>>, write: WriteModel) -> Map<
    Seq<u8>,
    Seq<u8>,
> {
    match write.value {
        Some(value) => store.insert(write.key, value),
        None => store.remove(write.key),
    }
}

/// A store after a sequence of writes.
pub open spec fn store_after_all(
    store: Map<Seq<u8>, Seq<u8>>,
    writes: Seq<WriteModel>,
) -> Map<Seq<u8>, Seq<u8>>
    decreases writes.len(),
{
    if writes.len() == 0 {
        store
    } else {
        store_after(store_after_all(store, writes.drop_last()), writes.last())
    }
}

/// A stored page.
#[derive(Debug, Clone, PartialEq, Eq)]
pub struct StoredPage {
    pub index: u64,
    pub bytes: Vec<u8>,
}

/// The bytes of one page among stored pages; a page that is not there is empty.
pub open spec fn page_bytes(pages: Seq<StoredPage>, index: int) -> Seq<u8>
    decreases pages.len(),
{
    if pages.len() == 0 {
        Seq::empty()
    } else if pages[0].index == index {
        pages[0].bytes@
    } else {
        page_bytes(pages.skip(1), index)
    }
}

/// The bytes of one page among stored pages.
pub fn find_page(pages: &Vec<StoredPage>, index: u64) -> (found: Option<usize>)
    ensures
        found matches Some(at) ==> at < pages.len() && pages@[at as int].index == index
            && pages@[at as int].bytes@ == page_bytes(pages@, index as int),
        found is None ==> page_bytes(pages@, index as int) == Seq::<u8>::empty(),
{
    let mut at: usize = 0;
    assert(pages@.skip(0) =~= pages@);
    while at < pages.len()
        invariant
            at <= pages.len(),
            page_bytes(pages@, index as int) == page_bytes(pages@.skip(at as int), index as int),
        decreases pages.len() - at,
    {
        assert(pages@.skip(at as int)[0] == pages@[at as int]);
        if pages[at].index == index {
            return Some(at);
        }
        assert(pages@.skip(at as int).skip(1) =~= pages@.skip(at + 1));
        at = at + 1;
    }
    None
}

/// A page that a batch has touched.
#[derive(Debug)]
pub struct DirtyEntry {
    pub index: u64,
    pub page: DirtyPage,
}

/// Whether entries are ordered by page, each page at most once.
pub open spec fn entries_ordered(entries: Seq<DirtyEntry>) -> bool {
    forall|a: int, b: int| 0 <= a < b < entries.len() ==> entries[a].index < entries[b].index
}

/// Whether every entry's page is well formed.
pub open spec fn entries_wf(entries: Seq<DirtyEntry>) -> bool {
    &&& entries_ordered(entries)
    &&& forall|a: int| 0 <= a < entries.len() ==> (#[trigger] entries[a]).page.wf()
}

/// Whether an entry for a page is there.
pub open spec fn has_entry(entries: Seq<DirtyEntry>, index: int) -> bool {
    exists|k: int| 0 <= k < entries.len() && (#[trigger] entries[k]).index == index
}

/// The position of a page's entry.
pub open spec fn entry_position(entries: Seq<DirtyEntry>, index: int) -> int {
    choose|k: int| 0 <= k < entries.len() && (#[trigger] entries[k]).index == index
}

/// The touched pages, by page.
pub open spec fn dirty_map(entries: Seq<DirtyEntry>) -> Map<int, DirtyModel> {
    Map::new(
        |index: int| has_entry(entries, index),
        |index: int| entries[entry_position(entries, index)].page@,
    )
}

proof fn lemma_dirty_map_entry(entries: Seq<DirtyEntry>, k: int)
    requires
        entries_ordered(entries),
        0 <= k < entries.len(),
    ensures
        dirty_map(entries).dom().contains(entries[k].index as int),
        dirty_map(entries)[entries[k].index as int] == entries[k].page@,
        entry_position(entries, entries[k].index as int) == k,
{
    let index = entries[k].index as int;
    assert(has_entry(entries, index));
    let at = entry_position(entries, index);
    if at < k {
        assert(entries[at].index < entries[k].index);
    } else if k < at {
        assert(entries[k].index < entries[at].index);
    }
}

/// Removes the entry of a page.
fn remove_entry(entries: &mut Vec<DirtyEntry>, index: u64) -> (removed: Option<DirtyPage>)
    requires
        entries_wf(old(entries)@),
    ensures
        entries_wf(final(entries)@),
        dirty_map(final(entries)@) == dirty_map(old(entries)@).remove(index as int),
        removed is Some <==> dirty_map(old(entries)@).dom().contains(index as int),
        removed matches Some(page) ==> page.wf() && page@ == dirty_map(old(entries)@)[index as int],
{
    let at: usize = entry_slot(entries, index);
    if at < entries.len() && entries[at].index == index {
        let ghost before = entries@;
        let entry: DirtyEntry = entries.remove(at);
        proof {
            lemma_dirty_map_entry(before, at as int);
            let after = entries@;
            assert(entries_wf(after));
            assert forall|p: int| has_entry(after, p) <==> has_entry(before, p) && p != index by {
                if has_entry(after, p) {
                    let k = entry_position(after, p);
                    if k < at {
                        assert(before[k] == after[k]);
                    } else {
                        assert(before[k + 1] == after[k]);
                    }
                }
                if has_entry(before, p) && p != index {
                    let k = entry_position(before, p);
                    if k < at {
                        assert(after[k] == before[k]);
                    } else {
                        assert(after[k - 1] == before[k]);
                    }
                }
            }
            assert forall|p: int| has_entry(after, p) implies dirty_map(after)[p] == dirty_map(
                before,
            )[p] by {
                let k = entry_position(after, p);
                lemma_dirty_map_entry(after, k);
                if k < at {
                    lemma_dirty_map_entry(before, k);
                } else {
                    lemma_dirty_map_entry(before, k + 1);
                }
            }
            assert(dirty_map(after) =~= dirty_map(before).remove(index as int));
        }
        Some(entry.page)
    } else {
        proof {
            assert(!has_entry(entries@, index as int));
            assert(dirty_map(entries@) =~= dirty_map(entries@).remove(index as int));
        }
        None
    }
}

/// The first position whose page is not below `index`.
fn entry_slot(entries: &Vec<DirtyEntry>, index: u64) -> (at: usize)
    requires
        entries_ordered(entries@),
    ensures
        at <= entries.len(),
        forall|k: int| 0 <= k < at ==> (#[trigger] entries@[k]).index < index,
        forall|k: int| at <= k < entries@.len() ==> (#[trigger] entries@[k]).index >= index,
{
    let mut low: usize = 0;
    let mut high: usize = entries.len();
    while low < high
        invariant
            low <= high <= entries.len(),
            entries_ordered(entries@),
            forall|k: int| 0 <= k < low ==> (#[trigger] entries@[k]).index < index,
            forall|k: int| high <= k < entries@.len() ==> (#[trigger] entries@[k]).index >= index,
        decreases high - low,
    {
        let middle: usize = low + (high - low) / 2;
        if entries[middle].index < index {
            low = middle + 1;
        } else {
            high = middle;
        }
    }
    low
}

/// Adds an entry for a page that has none.
fn insert_entry(entries: &mut Vec<DirtyEntry>, index: u64, page: DirtyPage)
    requires
        entries_wf(old(entries)@),
        !dirty_map(old(entries)@).dom().contains(index as int),
        page.wf(),
    ensures
        entries_wf(final(entries)@),
        dirty_map(final(entries)@) == dirty_map(old(entries)@).insert(index as int, page@),
{
    let at: usize = entry_slot(entries, index);
    let ghost before = entries@;
    proof {
        if at < before.len() && before[at as int].index == index {
            assert(has_entry(before, index as int));
        }
    }
    entries.insert(at, DirtyEntry { index, page });
    proof {
        let after = entries@;
        assert(entries_wf(after));
        assert(after[at as int].index == index);
        assert forall|p: int| has_entry(after, p) <==> has_entry(before, p) || p == index by {
            if has_entry(after, p) {
                let k = entry_position(after, p);
                if k < at {
                    assert(before[k] == after[k]);
                } else if k > at {
                    assert(before[k - 1] == after[k]);
                }
            }
            if has_entry(before, p) {
                let k = entry_position(before, p);
                if k < at {
                    assert(after[k] == before[k]);
                } else {
                    assert(after[k + 1] == before[k]);
                }
            }
        }
        assert forall|p: int| has_entry(after, p) implies dirty_map(after)[p] == dirty_map(
            before,
        ).insert(index as int, page@)[p] by {
            let k = entry_position(after, p);
            lemma_dirty_map_entry(after, k);
            if k < at {
                lemma_dirty_map_entry(before, k);
            } else if k > at {
                lemma_dirty_map_entry(before, k - 1);
            }
        }
        assert(dirty_map(after) =~= dirty_map(before).insert(index as int, page@));
    }
}

/// Drops the entries of all pages from `keep` on.
fn keep_entries_below(entries: &mut Vec<DirtyEntry>, keep: u64)
    requires
        entries_wf(old(entries)@),
    ensures
        entries_wf(final(entries)@),
        dirty_map(final(entries)@) == pages_below(dirty_map(old(entries)@), keep as int),
{
    let at: usize = entry_slot(entries, keep);
    let ghost before = entries@;
    entries.truncate(at);
    proof {
        let after = entries@;
        assert(after =~= before.take(at as int));
        assert forall|p: int| has_entry(after, p) <==> has_entry(before, p) && p < keep by {
            if has_entry(after, p) {
                let k = entry_position(after, p);
                assert(before[k] == after[k]);
            }
            if has_entry(before, p) && p < keep {
                let k = entry_position(before, p);
                assert(after[k] == before[k]);
            }
        }
        assert forall|p: int| has_entry(after, p) implies dirty_map(after)[p] == dirty_map(
            before,
        )[p] by {
            let k = entry_position(after, p);
            lemma_dirty_map_entry(after, k);
            lemma_dirty_map_entry(before, k);
        }
        assert(dirty_map(after) =~= pages_below(dirty_map(before), keep as int));
    }
}

/// The part of a map that lies below a page.
pub open spec fn pages_below(dirty: Map<int, DirtyModel>, keep: int) -> Map<int, DirtyModel> {
    Map::new(|p: int| dirty.dom().contains(p) && p < keep, |p: int| dirty[p])
}

/// How far a batch has got with a file.
#[verifier::ext_equal]
pub struct BatchModel {
    pub exists: bool,
    pub size: int,
    pub dirty: Map<int, DirtyModel>,
    /// The first page that the latest cut removed.
    pub cut_from: Option<int>,
    /// The first stored page that any cut removed.
    pub removed_from: Option<int>,
    pub deleted: bool,
}

/// The number of pages that `size` bytes take.
pub open spec fn page_count(size: int) -> int {
    (size + SQLITE_PAGE_SIZE - 1) / SQLITE_PAGE_SIZE as int
}

/// Whether a page lies at or behind a boundary.
pub open spec fn at_or_behind(boundary: Option<int>, page: int) -> bool {
    boundary matches Some(first) && page >= first
}

/// The lower of two boundaries.
pub open spec fn lower_boundary(boundary: Option<int>, first: int) -> Option<int> {
    match boundary {
        Some(earlier) if earlier <= first => Some(earlier),
        _ => Some(first),
    }
}

/// The state before the first operation.
pub open spec fn batch_start(exists: bool, size: int) -> BatchModel {
    BatchModel {
        exists,
        size,
        dirty: Map::empty(),
        cut_from: None,
        removed_from: None,
        deleted: false,
    }
}

/// The stored page that an operation has to see.
pub open spec fn page_needed_for(batch: BatchModel, op: FileOp) -> Option<int> {
    match op {
        FileOp::Truncate { size } if size < batch.size && size % SQLITE_PAGE_SIZE as int != 0
            && !batch.dirty.dom().contains(size / SQLITE_PAGE_SIZE as int) => Some(
            size / SQLITE_PAGE_SIZE as int,
        ),
        _ => None,
    }
}

/// Whether a write of `len` bytes at `offset` reaches into a page.
pub open spec fn touches(offset: int, len: int, page: int) -> bool {
    len > 0 && page >= 0 && offset < (page + 1) * SQLITE_PAGE_SIZE && page * SQLITE_PAGE_SIZE
        < offset + len
}

/// Where in a page a write begins.
pub open spec fn write_start(offset: int, page: int) -> int {
    if offset > page * SQLITE_PAGE_SIZE {
        offset - page * SQLITE_PAGE_SIZE
    } else {
        0
    }
}

/// The part of the written bytes that falls into a page.
pub open spec fn write_part(offset: int, bytes: Seq<u8>, page: int) -> Seq<u8> {
    let from = if offset > page * SQLITE_PAGE_SIZE {
        0
    } else {
        page * SQLITE_PAGE_SIZE - offset
    };
    let to = if offset + bytes.len() < (page + 1) * SQLITE_PAGE_SIZE {
        bytes.len() as int
    } else {
        (page + 1) * SQLITE_PAGE_SIZE - offset
    };
    bytes.subrange(from, to)
}

/// What one more piece of a write adds: it lies in the page at its position, and what the
/// write put into other pages stays.
proof fn lemma_write_piece(offset: int, bytes: Seq<u8>, done: int, count: int)
    requires
        offset >= 0,
        0 <= done < done + count <= bytes.len(),
        done > 0 ==> (offset + done) % SQLITE_PAGE_SIZE as int == 0,
        count <= SQLITE_PAGE_SIZE - (offset + done) % SQLITE_PAGE_SIZE as int,
    ensures
        ({
            let page = (offset + done) / SQLITE_PAGE_SIZE as int;
            &&& page * SQLITE_PAGE_SIZE + (offset + done) % SQLITE_PAGE_SIZE as int == offset + done
            &&& !touches(offset, done, page)
            &&& touches(offset, done + count, page)
            &&& write_start(offset, page) == (offset + done) % SQLITE_PAGE_SIZE as int
            &&& write_part(offset, bytes.take(done + count), page) == bytes.subrange(
                done,
                done + count,
            )
            &&& forall|p: int|
                p != page ==> #[trigger] touches(offset, done + count, p) == touches(
                    offset,
                    done,
                    p,
                )
            &&& forall|p: int|
                p != page && touches(offset, done, p) ==> #[trigger] write_part(
                    offset,
                    bytes.take(done + count),
                    p,
                ) == write_part(offset, bytes.take(done), p)
        }),
{
    let unit = SQLITE_PAGE_SIZE as int;
    let position = offset + done;
    let page = position / unit;
    let within = position % unit;
    assert(page * unit + within == position && 0 <= within < unit && page >= 0) by (nonlinear_arith)
        requires
            unit == 16384,
            page == position / unit,
            within == position % unit,
            position >= 0,
    ;
    assert((page + 1) * unit == page * unit + unit) by (nonlinear_arith);
    let longer = bytes.take(done + count);
    assert(write_part(offset, longer, page) =~= bytes.subrange(done, done + count));
    assert forall|p: int| p != page implies #[trigger] touches(offset, done + count, p) == touches(
        offset,
        done,
        p,
    ) by {
        lemma_page_apart(p, page);
    }
    assert forall|p: int| p != page && touches(offset, done, p) implies #[trigger] write_part(
        offset,
        longer,
        p,
    ) == write_part(offset, bytes.take(done), p) by {
        lemma_page_apart(p, page);
        assert((p + 1) * unit <= offset + done);
        assert(write_part(offset, longer, p) =~= write_part(offset, bytes.take(done), p));
    }
}

proof fn lemma_page_apart(p: int, page: int)
    ensures
        p < page ==> (p + 1) * SQLITE_PAGE_SIZE <= page * SQLITE_PAGE_SIZE,
        p > page ==> (page + 1) * SQLITE_PAGE_SIZE <= p * SQLITE_PAGE_SIZE,
        (p + 1) * SQLITE_PAGE_SIZE == p * SQLITE_PAGE_SIZE + SQLITE_PAGE_SIZE,
        (page + 1) * SQLITE_PAGE_SIZE == page * SQLITE_PAGE_SIZE + SQLITE_PAGE_SIZE,
{
}

/// Whether the stored page below a written page counts as zeros.
pub open spec fn base_is_gone(batch: BatchModel, page: int) -> bool {
    at_or_behind(batch.cut_from, page) || page * SQLITE_PAGE_SIZE >= batch.size
}

/// A page after its part of a write.
pub open spec fn written_page(batch: BatchModel, offset: int, bytes: Seq<u8>, page: int) -> DirtyModel {
    let before = if batch.dirty.dom().contains(page) {
        batch.dirty[page]
    } else {
        dirty_page::clean_page()
    };
    let marked = DirtyModel {
        base_zeroed: before.base_zeroed || base_is_gone(batch, page),
        ..before
    };
    dirty_page::page_after_write(
        marked,
        write_start(offset, page),
        write_part(offset, bytes, page),
    )
}

/// The touched pages after a write.
pub open spec fn dirty_after_write(batch: BatchModel, offset: int, bytes: Seq<u8>) -> Map<
    int,
    DirtyModel,
> {
    Map::new(
        |page: int|
            batch.dirty.dom().contains(page) || touches(offset, bytes.len() as int, page),
        |page: int|
            if touches(offset, bytes.len() as int, page) {
                written_page(batch, offset, bytes, page)
            } else {
                batch.dirty[page]
            },
    )
}

/// The touched pages after a cut at `size`; `base` is the stored page that the cut
/// goes through.
pub open spec fn dirty_after_cut(batch: BatchModel, size: int, base: Seq<u8>) -> Map<
    int,
    DirtyModel,
> {
    let kept = pages_below(batch.dirty, page_count(size));
    let last = size / SQLITE_PAGE_SIZE as int;
    if size % SQLITE_PAGE_SIZE as int == 0 {
        kept
    } else {
        let page = if batch.dirty.dom().contains(last) {
            batch.dirty[last]
        } else {
            dirty_page::existing_page(base)
        };
        kept.insert(last, dirty_page::page_after_truncate(page, size % SQLITE_PAGE_SIZE as int))
    }
}

/// The state after an operation; `base` is the stored page that it had to see.
pub open spec fn batch_after(batch: BatchModel, op: FileOp, base: Seq<u8>) -> BatchModel {
    match op {
        FileOp::Delete => BatchModel {
            exists: false,
            size: 0,
            dirty: Map::empty(),
            cut_from: Some(0),
            removed_from: Some(0),
            deleted: true,
        },
        FileOp::Truncate { size } => if size < batch.size {
            BatchModel {
                exists: true,
                size,
                dirty: dirty_after_cut(batch, size, base),
                cut_from: Some(page_count(size)),
                removed_from: lower_boundary(batch.removed_from, page_count(size)),
                deleted: batch.deleted,
            }
        } else {
            BatchModel { exists: true, size, ..batch }
        },
        FileOp::Write { offset, bytes } => BatchModel {
            exists: true,
            size: if batch.size < offset + bytes.len() {
                offset + bytes.len()
            } else {
                batch.size
            },
            dirty: dirty_after_write(batch, offset, bytes),
            ..batch
        },
    }
}

/// Whether the stored page below a touched page has to be read to finish.
pub open spec fn needs_base(batch: BatchModel, page: int) -> bool {
    batch.dirty.dom().contains(page) && !dirty_page::is_complete(batch.dirty[page])
        && !at_or_behind(batch.cut_from, page)
}

/// The bytes that a touched page is left with; `base` is the stored page.
pub open spec fn final_page(batch: BatchModel, page: int, base: Seq<u8>) -> Seq<u8> {
    dirty_page::page_result(
        batch.dirty[page],
        if at_or_behind(batch.cut_from, page) {
            Seq::empty()
        } else {
            base
        },
    )
}

/// Follows a batch of operations on one file.
#[derive(Debug)]
pub struct PageBatch {
    file_exists: bool,
    file_size: u64,
    dirty: Vec<DirtyEntry>,
    cut_from: Option<u64>,
    removed_from: Option<u64>,
    deleted: bool,
}

/// A page number as an integer.
pub open spec fn boundary(page: Option<u64>) -> Option<int> {
    match page {
        Some(first) => Some(first as int),
        None => None,
    }
}

impl View for PageBatch {
    type V = BatchModel;

    closed spec fn view(&self) -> BatchModel {
        BatchModel {
            exists: self.file_exists,
            size: self.file_size as int,
            dirty: dirty_map(self.dirty@),
            cut_from: boundary(self.cut_from),
            removed_from: boundary(self.removed_from),
            deleted: self.deleted,
        }
    }
}

impl PageBatch {
    /// Whether the touched pages are in order and well formed.
    pub closed spec fn wf(&self) -> bool {
        entries_wf(self.dirty@)
    }

    /// Begins a batch on a file: `None` where there is no file, otherwise its size.
    pub fn begin(size: Option<u64>) -> (batch: PageBatch)
        ensures
            batch.wf(),
            batch@ == batch_start(
                size is Some,
                match size {
                    Some(known) => known as int,
                    None => 0,
                },
            ),
    {
        let batch = PageBatch {
            file_exists: size.is_some(),
            file_size: size.unwrap_or(0),
            dirty: Vec::new(),
            cut_from: None,
            removed_from: None,
            deleted: false,
        };
        assert(batch@.dirty =~= Map::<int, DirtyModel>::empty());
        batch
    }

    /// The stored page that an operation has to see before it can be applied.
    pub fn page_needed(&self, op: &VfsFileOp) -> (needed: Option<u64>)
        requires
            self.wf(),
        ensures
            boundary(needed) == page_needed_for(self@, op@),
    {
        match op {
            VfsFileOp::Truncate { size } => {
                if *size < self.file_size && *size % SQLITE_PAGE_SIZE as u64 != 0 {
                    let last: u64 = *size / SQLITE_PAGE_SIZE as u64;
                    let at: usize = entry_slot(&self.dirty, last);
                    if at < self.dirty.len() && self.dirty[at].index == last {
                        proof {
                            lemma_dirty_map_entry(self.dirty@, at as int);
                        }
                        None
                    } else {
                        assert(!has_entry(self.dirty@, last as int));
                        Some(last)
                    }
                } else {
                    None
                }
            },
            _ => None,
        }
    }

    /// Applies an operation. `base` is the stored page that [`Self::page_needed`]
    /// named; where it named none, `base` is not looked at.
    pub fn apply_op(&mut self, op: &VfsFileOp, base: Vec<u8>)
        requires
            old(self).wf(),
            op matches VfsFileOp::Write(write) ==> write.offset + write.bytes.len() <= u64::MAX,
        ensures
            final(self).wf(),
            final(self)@ == batch_after(old(self)@, op@, base@),
    {
        match op {
            VfsFileOp::Delete => {
                self.dirty = Vec::new();
                self.file_exists = false;
                self.file_size = 0;
                self.cut_from = Some(0);
                self.removed_from = Some(0);
                self.deleted = true;
                assert(self@.dirty =~= Map::<int, DirtyModel>::empty());
            },
            VfsFileOp::Truncate { size } => {
                self.truncate(*size, base);
            },
            VfsFileOp::Write(write) => {
                self.write(write.offset, &write.bytes);
            },
        }
    }

    fn truncate(&mut self, size: u64, base: Vec<u8>)
        requires
            old(self).wf(),
        ensures
            final(self).wf(),
            final(self)@ == batch_after(old(self)@, FileOp::Truncate { size: size as int }, base@),
    {
        self.file_exists = true;
        if size < self.file_size {
            let page_size: u64 = SQLITE_PAGE_SIZE as u64;
            let rest: u64 = size % page_size;
            let last: u64 = size / page_size;
            let keep: u64 = if rest == 0 {
                last
            } else {
                last + 1
            };
            assert(keep == page_count(size as int));
            keep_entries_below(&mut self.dirty, keep);
            if rest != 0 {
                let mut page: DirtyPage = match remove_entry(&mut self.dirty, last) {
                    Some(page) => page,
                    None => DirtyPage::from_existing(base),
                };
                page.truncate(rest as usize);
                insert_entry(&mut self.dirty, last, page);
            }
            self.cut_from = Some(keep);
            self.removed_from =
            match self.removed_from {
                Some(earlier) if earlier <= keep => Some(earlier),
                _ => Some(keep),
            };
            proof {
                let model = dirty_after_cut(old(self)@, size as int, base@);
                assert(dirty_map(self.dirty@) =~= model);
            }
        }
        self.file_size = size;
    }

    fn write(&mut self, offset: u64, written: &Vec<u8>)
        requires
            old(self).wf(),
            offset + written.len() <= u64::MAX,
        ensures
            final(self).wf(),
            final(self)@ == batch_after(
                old(self)@,
                FileOp::Write { offset: offset as int, bytes: written@ },
                Seq::empty(),
            ),
    {
        let page_size: u64 = SQLITE_PAGE_SIZE as u64;
        let end: u64 = offset + written.len() as u64;
        self.file_exists = true;
        let ghost start = old(self)@;
        let mut done: usize = 0;
        proof {
            assert(dirty_map(self.dirty@) =~= dirty_after_write(start, offset as int, written@.take(0)));
        }
        while done < written.len()
            invariant
                done <= written.len(),
                offset + written.len() <= u64::MAX,
                page_size == SQLITE_PAGE_SIZE,
                start == old(self)@,
                self.file_size == old(self).file_size,
                self.cut_from == old(self).cut_from,
                self.removed_from == old(self).removed_from,
                self.deleted == old(self).deleted,
                self.file_exists,
                entries_wf(self.dirty@),
                done < written.len() && done > 0 ==> (offset + done) % page_size as int == 0,
                dirty_map(self.dirty@) == dirty_after_write(
                    start,
                    offset as int,
                    written@.take(done as int),
                ),
            decreases written.len() - done,
        {
            let position: u64 = offset + done as u64;
            let index: u64 = position / page_size;
            let page_offset: usize = (position % page_size) as usize;
            let left: usize = written.len() - done;
            let room: usize = SQLITE_PAGE_SIZE - page_offset;
            let count: usize = if left < room {
                left
            } else {
                room
            };
            let ghost before_map = dirty_map(self.dirty@);
            proof {
                lemma_write_piece(offset as int, written@, done as int, count as int);
                assert(before_map.dom().contains(index as int) <==> start.dirty.dom().contains(
                    index as int,
                ));
            }
            let mut page: DirtyPage = match remove_entry(&mut self.dirty, index) {
                Some(page) => page,
                None => DirtyPage::new(),
            };
            let cut: bool = match self.cut_from {
                Some(first) => index >= first,
                None => false,
            };
            if cut || index * page_size >= self.file_size {
                page.mark_base_zeroed();
            }
            let part = vstd::slice::slice_subrange(written.as_slice(), done, done + count);
            page.apply_write(page_offset, part);
            proof {
                assert(base_is_gone(start, index as int) == (cut || index * page_size
                    >= self.file_size));
                let model = written_page(start, offset as int, written@.take(done + count), index as int);
                assert(part@ =~= written@.subrange(done as int, done + count));
                assert(page@ =~= model);
            }
            let ghost page_model = page@;
            insert_entry(&mut self.dirty, index, page);
            proof {
                let next = dirty_after_write(start, offset as int, written@.take(done + count));
                assert(dirty_map(self.dirty@) =~= next);
            }
            done = done + count;
        }
        assert(written@.take(done as int) =~= written@);
        if self.file_size < end {
            self.file_size = end;
        }
    }

    /// The stored pages that have to be read to finish, in ascending order. A page
    /// that the batch wrote as a whole, or whose stored bytes are gone, is not
    /// among them.
    pub fn pages_needed(&self) -> (needed: Vec<u64>)
        requires
            self.wf(),
        ensures
            forall|a: int, b: int| 0 <= a < b < needed@.len() ==> needed@[a] < needed@[b],
            forall|page: u64| #[trigger]
                needed@.contains(page) <==> needs_base(self@, page as int),
    {
        let mut needed: Vec<u64> = Vec::new();
        let mut k: usize = 0;
        while k < self.dirty.len()
            invariant
                k <= self.dirty.len(),
                self.wf(),
                forall|a: int, b: int| 0 <= a < b < needed@.len() ==> needed@[a] < needed@[b],
                forall|a: int|
                    0 <= a < needed@.len() ==> (k > 0 && #[trigger] needed@[a] <= self.dirty@[k
                        - 1].index),
                forall|page: u64| #[trigger]
                    needed@.contains(page) <==> (needs_base(self@, page as int) && exists|j: int|
                        0 <= j < k && (#[trigger] self.dirty@[j]).index == page),
            decreases self.dirty.len() - k,
        {
            let entry: &DirtyEntry = &self.dirty[k];
            let cut: bool = match self.cut_from {
                Some(first) => entry.index >= first,
                None => false,
            };
            let ghost before = needed@;
            proof {
                lemma_dirty_map_entry(self.dirty@, k as int);
            }
            let wanted: bool = !entry.page.stands_alone() && !cut;
            assert(wanted == needs_base(self@, entry.index as int));
            if wanted {
                needed.push(entry.index);
            }
            proof {
                assert forall|page: u64| #[trigger] needed@.contains(page) <==> (needs_base(
                    self@,
                    page as int,
                ) && exists|j: int| 0 <= j < k + 1 && (#[trigger] self.dirty@[j]).index == page) by {
                    if needed@.contains(page) {
                        let a = choose|a: int| 0 <= a < needed@.len() && needed@[a] == page;
                        if a < before.len() {
                            assert(before[a] == page);
                            assert(before.contains(page));
                        } else {
                            assert(self.dirty@[k as int].index == page);
                        }
                    }
                    if needs_base(self@, page as int) && exists|j: int|
                        0 <= j < k + 1 && (#[trigger] self.dirty@[j]).index == page {
                        let j = choose|j: int|
                            0 <= j < k + 1 && (#[trigger] self.dirty@[j]).index == page;
                        if j < k {
                            assert(before.contains(page));
                            let a = choose|a: int| 0 <= a < before.len() && before[a] == page;
                            assert(needed@[a] == page);
                        } else {
                            assert(needed@[needed@.len() - 1] == page);
                        }
                    }
                }
            }
            k = k + 1;
        }
        proof {
            assert forall|page: u64| #[trigger] needed@.contains(page) <==> needs_base(
                self@,
                page as int,
            ) by {
                if needs_base(self@, page as int) {
                    assert(has_entry(self.dirty@, page as int));
                    let j = entry_position(self.dirty@, page as int);
                    assert(self.dirty@[j].index == page);
                }
            }
        }
        needed
    }

    /// Gives the writes of the batch. `stored_keys` are the keys that the store
    /// holds under the prefix of the file's page records, `stored_pages` the pages
    /// that [`Self::pages_needed`] named.
    pub fn finish(
        self,
        file_prefix: &[u8],
        version: u64,
        stored_keys: &Vec<Vec<u8>>,
        stored_pages: &Vec<StoredPage>,
    ) -> (writes: Vec<StoreWrite>)
        requires
            self.wf(),
        ensures
            exists|order: Seq<u64>|
                page_order(order, self@.dirty) && write_models(writes@) == batch_writes(
                    self@,
                    file_prefix@,
                    version,
                    key_models(stored_keys@),
                    stored_pages@,
                    order,
                ),
    {
        let ghost model = self@;
        let ghost entries = self.dirty@;
        let ghost order = Seq::new(entries.len(), |i: int| entries[i].index);
        let mut writes: Vec<StoreWrite> = Vec::new();
        if let Some(first) = self.removed_from {
            append_page_deletes(&mut writes, file_prefix, stored_keys, first);
        }
        let ghost removals = removal_writes(
            key_models(stored_keys@),
            file_prefix@,
            model.removed_from,
        );
        assert(write_models(writes@) =~= removals);
        let PageBatch { file_exists, file_size, dirty, cut_from, removed_from: _, deleted } = self;
        let mut rest: Vec<DirtyEntry> = dirty;
        let mut puts: Vec<StoreWrite> = Vec::new();
        while rest.len() > 0
            invariant
                rest@ == entries.take(rest@.len() as int),
                rest@.len() <= entries.len(),
                entries_wf(entries),
                model.dirty == dirty_map(entries),
                model.cut_from == boundary(cut_from),
                order == Seq::new(entries.len(), |i: int| entries[i].index),
                puts@.len() == entries.len() - rest@.len(),
                forall|i: int|
                    0 <= i < puts@.len() ==> (#[trigger] puts@[i])@ == page_put(
                        model,
                        file_prefix@,
                        stored_pages@,
                        order[entries.len() - 1 - i],
                    ),
            decreases rest.len(),
        {
            let ghost k = rest@.len() - 1;
            let entry: DirtyEntry = rest.pop().unwrap();
            proof {
                assert(entry == entries[k]);
                lemma_dirty_map_entry(entries, k);
            }
            let index: u64 = entry.index;
            let cut: bool = match cut_from {
                Some(first) => index >= first,
                None => false,
            };
            let ghost page_model = entry.page@;
            let ghost covered = entry.page.covered@;
            let bytes: Vec<u8> = match entry.page.into_page() {
                DirtyPageMaterialization::Complete(bytes) => bytes,
                DirtyPageMaterialization::Overlay { overlay, covered } => {
                    let base: Vec<u8> = if cut {
                        Vec::new()
                    } else {
                        match find_page(stored_pages, index) {
                            Some(at) => copy_bytes(stored_pages[at].bytes.as_slice()),
                            None => Vec::new(),
                        }
                    };
                    assert(cut ==> base@ =~= Seq::<u8>::empty());
                    assert(!cut ==> base@ =~= page_bytes(stored_pages@, index as int));
                    merge_overlay(base, &overlay, &covered)
                },
            };
            assert(bytes@ == final_page(
                model,
                index as int,
                page_bytes(stored_pages@, index as int),
            ));
            puts.push(
                StoreWrite::Put {
                    key: current_page_key_from_file_prefix(file_prefix, index),
                    value: bytes,
                },
            );
        }
        let ghost page_puts = Seq::new(
            order.len(),
            |i: int| page_put(model, file_prefix@, stored_pages@, order[i]),
        );
        while puts.len() > 0
            invariant
                puts@.len() <= entries.len(),
                order.len() == entries.len(),
                page_puts == Seq::new(
                    order.len(),
                    |i: int| page_put(model, file_prefix@, stored_pages@, order[i]),
                ),
                forall|i: int|
                    0 <= i < puts@.len() ==> (#[trigger] puts@[i])@ == page_put(
                        model,
                        file_prefix@,
                        stored_pages@,
                        order[entries.len() - 1 - i],
                    ),
                write_models(writes@) == removals + page_puts.take(entries.len() - puts@.len()),
            decreases puts.len(),
        {
            let ghost before = writes@;
            let ghost at = entries.len() - puts@.len();
            let put: StoreWrite = puts.pop().unwrap();
            writes.push(put);
            proof {
                assert(put@ == page_puts[at]);
                assert(page_puts.take(at + 1) =~= page_puts.take(at).push(page_puts[at]));
                assert(write_models(writes@) =~= write_models(before).push(put@));
                assert(write_models(writes@) =~= removals + page_puts.take(at + 1));
            }
        }
        assert(page_puts.take(entries.len() as int) =~= page_puts);
        if file_exists {
            append_put(&mut writes, size_key_from_file_prefix(file_prefix), u64_to_be_bytes(file_size));
            append_manifest(&mut writes, file_prefix, version, FileManifestKind::Write, file_size);
        } else if deleted {
            append_delete(&mut writes, size_key_from_file_prefix(file_prefix));
            append_manifest(&mut writes, file_prefix, version, FileManifestKind::Delete, 0);
        }
        proof {
            assert(page_order(order, model.dirty)) by {
                assert forall|page: u64| #[trigger] order.contains(page) <==> model.dirty.dom().contains(
                    page as int,
                ) by {
                    if order.contains(page) {
                        let i = choose|i: int| 0 <= i < order.len() && order[i] == page;
                        lemma_dirty_map_entry(entries, i);
                    }
                    if model.dirty.dom().contains(page as int) {
                        let i = entry_position(entries, page as int);
                        assert(order[i] == page);
                    }
                }
            }
            assert(write_models(writes@) =~= batch_writes(
                model,
                file_prefix@,
                version,
                key_models(stored_keys@),
                stored_pages@,
                order,
            ));
        }
        writes
    }
}

/// Keys as byte strings.
pub open spec fn key_models(keys: Seq<Vec<u8>>) -> Seq<Seq<u8>> {
    Seq::new(keys.len(), |i: int| keys[i]@)
}

/// Whether `order` lists the touched pages, each once, in ascending order.
pub open spec fn page_order(order: Seq<u64>, dirty: Map<int, DirtyModel>) -> bool {
    &&& forall|a: int, b: int| 0 <= a < b < order.len() ==> order[a] < order[b]
    &&& forall|page: u64| #[trigger] order.contains(page) <==> dirty.dom().contains(page as int)
}

/// Whether a key names a page from `first` on.
pub open spec fn is_page_from(file_prefix: Seq<u8>, key: Seq<u8>, first: int) -> bool {
    page_keys::index_under(page_keys::current_prefix_of(file_prefix), key) matches Some(index)
        && index >= first
}

/// The removal of the page records from `first` on.
pub open spec fn removal_writes(
    keys: Seq<Seq<u8>>,
    file_prefix: Seq<u8>,
    first: Option<int>,
) -> Seq<WriteModel> {
    match first {
        None => Seq::empty(),
        Some(page) => keys.filter(|key: Seq<u8>| is_page_from(file_prefix, key, page)).map_values(
            |key: Seq<u8>| WriteModel { key, value: None },
        ),
    }
}

/// The write of one touched page.
pub open spec fn page_put(
    batch: BatchModel,
    file_prefix: Seq<u8>,
    stored_pages: Seq<StoredPage>,
    page: u64,
) -> WriteModel {
    WriteModel {
        key: page_keys::current_key_of(file_prefix, page),
        value: Some(final_page(batch, page as int, page_bytes(stored_pages, page as int))),
    }
}

/// The writes of a manifest.
pub open spec fn manifest_writes(
    file_prefix: Seq<u8>,
    version: u64,
    kind: FileManifestKind,
    size: u64,
) -> Seq<WriteModel> {
    if version == 0 {
        Seq::empty()
    } else {
        seq![
            WriteModel {
                key: page_keys::manifest_key_of(file_prefix, version),
                value: Some(manifest::encoded_manifest(FileManifest { version, kind, size })),
            },
            WriteModel {
                key: page_keys::latest_manifest_key_of(file_prefix),
                value: Some(bytes::u64_be(version)),
            },
        ]
    }
}

/// The writes of a file's size and manifest at the end of a batch.
pub open spec fn metadata_writes(batch: BatchModel, file_prefix: Seq<u8>, version: u64) -> Seq<
    WriteModel,
> {
    if batch.exists {
        seq![
            WriteModel {
                key: page_keys::size_key_of(file_prefix),
                value: Some(bytes::u64_be(batch.size as u64)),
            },
        ] + manifest_writes(file_prefix, version, FileManifestKind::Write, batch.size as u64)
    } else if batch.deleted {
        seq![WriteModel { key: page_keys::size_key_of(file_prefix), value: None }]
            + manifest_writes(file_prefix, version, FileManifestKind::Delete, 0)
    } else {
        Seq::empty()
    }
}

/// All writes of a batch: page records that fell away, touched pages in `order`,
/// then the size and the manifest.
pub open spec fn batch_writes(
    batch: BatchModel,
    file_prefix: Seq<u8>,
    version: u64,
    stored_keys: Seq<Seq<u8>>,
    stored_pages: Seq<StoredPage>,
    order: Seq<u64>,
) -> Seq<WriteModel> {
    removal_writes(stored_keys, file_prefix, batch.removed_from) + Seq::new(
        order.len(),
        |i: int| page_put(batch, file_prefix, stored_pages, order[i]),
    ) + metadata_writes(batch, file_prefix, version)
}

/// Appends a record.
pub fn append_put(writes: &mut Vec<StoreWrite>, key: Vec<u8>, value: Vec<u8>)
    ensures
        write_models(final(writes)@) == write_models(old(writes)@).push(
            WriteModel { key: key@, value: Some(value@) },
        ),
{
    writes.push(StoreWrite::Put { key, value });
    assert(write_models(writes@) =~= write_models(old(writes)@).push(
        WriteModel { key: key@, value: Some(value@) },
    ));
}

/// Appends the removal of a record.
pub fn append_delete(writes: &mut Vec<StoreWrite>, key: Vec<u8>)
    ensures
        write_models(final(writes)@) == write_models(old(writes)@).push(
            WriteModel { key: key@, value: None },
        ),
{
    writes.push(StoreWrite::Delete { key });
    assert(write_models(writes@) =~= write_models(old(writes)@).push(
        WriteModel { key: key@, value: None },
    ));
}

/// Appends the writes of a manifest. Version zero stands for no manifest.
pub fn append_manifest(
    writes: &mut Vec<StoreWrite>,
    file_prefix: &[u8],
    version: u64,
    kind: FileManifestKind,
    size: u64,
)
    ensures
        write_models(final(writes)@) == write_models(old(writes)@) + manifest_writes(
            file_prefix@,
            version,
            kind,
            size,
        ),
{
    if version != 0 {
        append_put(
            writes,
            file_manifest_key_from_file_prefix(file_prefix, version),
            encode_manifest(&FileManifest { version, kind, size }),
        );
        append_put(
            writes,
            latest_manifest_key_from_file_prefix(file_prefix),
            u64_to_be_bytes(version),
        );
    }
    assert(write_models(writes@) =~= write_models(old(writes)@) + manifest_writes(
        file_prefix@,
        version,
        kind,
        size,
    ));
}

/// Appends the removal of the page records from `first` on.
pub fn append_page_deletes(
    writes: &mut Vec<StoreWrite>,
    file_prefix: &[u8],
    stored_keys: &Vec<Vec<u8>>,
    first: u64,
)
    ensures
        write_models(final(writes)@) == write_models(old(writes)@) + removal_writes(
            key_models(stored_keys@),
            file_prefix@,
            Some(first as int),
        ),
{
    let prefix: Vec<u8> = current_pages_prefix_from_file_prefix(file_prefix);
    let ghost wanted = |key: Seq<u8>| is_page_from(file_prefix@, key, first as int);
    let ghost removal = |key: Seq<u8>| WriteModel { key, value: None };
    let ghost keys = key_models(stored_keys@);
    let mut k: usize = 0;
    proof {
        assert(keys.take(0).filter(wanted) =~= Seq::empty()) by {
            reveal(Seq::filter);
        }
        assert(write_models(writes@) =~= write_models(old(writes)@) + keys.take(0).filter(
            wanted,
        ).map_values(removal));
    }
    while k < stored_keys.len()
        invariant
            k <= stored_keys.len(),
            prefix@ == page_keys::current_prefix_of(file_prefix@),
            wanted == |key: Seq<u8>| is_page_from(file_prefix@, key, first as int),
            removal == (|key: Seq<u8>| WriteModel { key, value: None }),
            keys == key_models(stored_keys@),
            write_models(writes@) == write_models(old(writes)@) + keys.take(k as int).filter(
                wanted,
            ).map_values(removal),
        decreases stored_keys.len() - k,
    {
        let key: &Vec<u8> = &stored_keys[k];
        let chosen: bool = match page_index_from_key(prefix.as_slice(), key.as_slice()) {
            Some(index) => index >= first,
            None => false,
        };
        let ghost before = writes@;
        proof {
            assert(keys[k as int] == key@);
            assert(chosen == wanted(keys[k as int]));
            assert(keys.take(k + 1) =~= keys.take(k as int).push(keys[k as int]));
            keys.take(k as int).lemma_filter_push(keys[k as int], wanted);
        }
        if chosen {
            append_delete(writes, copy_bytes(key.as_slice()));
        }
        proof {
            let kept = keys.take(k as int).filter(wanted);
            if chosen {
                assert(kept.push(keys[k as int]).map_values(removal) =~= kept.map_values(removal).push(
                    removal(keys[k as int]),
                ));
            }
            assert(write_models(writes@) =~= write_models(old(writes)@) + keys.take(k + 1).filter(
                wanted,
            ).map_values(removal));
        }
        k = k + 1;
    }
    assert(keys.take(k as int) =~= keys);
}

} // verus!
