//! A file reads as the operations on it say.
//!
//! The pages of a file, cut to its size, are its bytes. What a batch leaves in the
//! store reads as the bytes that the batch's operations give, one after the other, where
//! each of them keeps clear of stored bytes that the batch has not looked at.

use vstd::prelude::*;

use crate::bytes;
use crate::dirty_page;
use crate::dirty_page::SQLITE_PAGE_SIZE;
use crate::file_model;
use crate::file_model::FileOp;
use crate::page_batch;
use crate::page_batch::BatchModel;
use crate::page_batch::StoredPage;
use crate::page_batch::WriteModel;
use crate::page_keys;

verus! {

/// One byte of a page; what a page does not hold reads as zero.
pub open spec fn byte_in_page(pages: Map<int, Seq<u8>>, page: int, at: int) -> u8 {
    if pages.dom().contains(page) && 0 <= at < pages[page].len() {
        pages[page][at]
    } else {
        0u8
    }
}

/// One byte of a file made of pages.
pub open spec fn byte_at(pages: Map<int, Seq<u8>>, i: int) -> u8 {
    byte_in_page(pages, i / SQLITE_PAGE_SIZE as int, i % SQLITE_PAGE_SIZE as int)
}

/// The bytes of a file made of pages.
pub open spec fn paged_content(exists: bool, size: int, pages: Map<int, Seq<u8>>) -> Option<
    Seq<u8>,
> {
    if exists {
        Some(Seq::new(size as nat, |i: int| byte_at(pages, i)))
    } else {
        None
    }
}

/// A page, or no bytes where there is none.
pub open spec fn page_or_empty(pages: Map<int, Seq<u8>>, page: int) -> Seq<u8> {
    if pages.dom().contains(page) {
        pages[page]
    } else {
        Seq::empty()
    }
}

/// The pages of a file if the batch ended here.
pub open spec fn finished_pages(batch: BatchModel, stored: Map<int, Seq<u8>>) -> Map<
    int,
    Seq<u8>,
> {
    Map::new(
        |page: int|
            batch.dirty.dom().contains(page) || (stored.dom().contains(page)
                && !page_batch::at_or_behind(batch.removed_from, page)),
        |page: int|
            if batch.dirty.dom().contains(page) {
                page_batch::final_page(batch, page, page_or_empty(stored, page))
            } else {
                stored[page]
            },
    )
}

/// The bytes of a file if the batch ended here.
pub open spec fn batch_content(batch: BatchModel, stored: Map<int, Seq<u8>>) -> Option<Seq<u8>> {
    paged_content(batch.exists, batch.size, finished_pages(batch, stored))
}

/// Whether a page that the batch removed could be taken up again.
pub open spec fn is_stale(batch: BatchModel, page: int) -> bool {
    page_batch::at_or_behind(batch.removed_from, page) && !page_batch::at_or_behind(
        batch.cut_from,
        page,
    )
}

/// Whether an operation keeps clear of bytes that the batch has not looked at.
///
/// A cut through a page forgets the stored bytes below a page that was only partly
/// written, and takes up the stored bytes of a page that the batch had removed; so
/// does a write that covers only a part of a page that the batch had removed and
/// that a later cut lies behind. Where those bytes are zero, nothing is lost.
pub open spec fn op_is_clean(batch: BatchModel, stored: Map<int, Seq<u8>>, op: FileOp) -> bool {
    match op {
        FileOp::Delete => true,
        FileOp::Truncate { size } => {
            let last = size / SQLITE_PAGE_SIZE as int;
            let rest = size % SQLITE_PAGE_SIZE as int;
            size < batch.size && rest != 0 ==> (forall|at: int|
                0 <= at < rest ==> #[trigger] byte_in_page(stored, last, at) == 0 || (
                if batch.dirty.dom().contains(last) {
                    batch.dirty[last].base_zeroed || batch.dirty[last].covered.contains(at)
                } else {
                    !page_batch::at_or_behind(batch.removed_from, last)
                }))
        },
        FileOp::Write { offset, bytes } => forall|page: int, at: int|
            page_batch::touches(offset, bytes.len() as int, page) && is_stale(batch, page)
                && !batch.dirty.dom().contains(page) && page * SQLITE_PAGE_SIZE < batch.size
                && 0 <= at < SQLITE_PAGE_SIZE && !(offset <= page * SQLITE_PAGE_SIZE + at < offset
                + bytes.len())
                ==> #[trigger] byte_in_page(stored, page, at) == 0,
    }
}

/// One byte of a page if the batch ended here.
spec fn final_byte(batch: BatchModel, stored: Map<int, Seq<u8>>, page: int, at: int) -> u8 {
    if batch.dirty.dom().contains(page) {
        let dirty = batch.dirty[page];
        if dirty.covered.contains(at) {
            dirty.overlay[at]
        } else if dirty.base_zeroed || page_batch::at_or_behind(batch.cut_from, page) {
            0u8
        } else {
            byte_in_page(stored, page, at)
        }
    } else if page_batch::at_or_behind(batch.removed_from, page) {
        0u8
    } else {
        byte_in_page(stored, page, at)
    }
}

/// What holds of a batch between operations.
pub closed spec fn batch_inv(batch: BatchModel, stored: Map<int, Seq<u8>>) -> bool {
    &&& batch.size >= 0
    &&& !batch.exists ==> batch.size == 0
    &&& batch.cut_from is Some <==> batch.removed_from is Some
    &&& batch.cut_from matches Some(cut) ==> page_batch::at_or_behind(batch.removed_from, cut)
    &&& forall|page: int|
        #![trigger batch.dirty.dom().contains(page)]
        batch.dirty.dom().contains(page) ==> {
            &&& page >= 0
            &&& forall|at: int| #[trigger]
                batch.dirty[page].covered.contains(at) ==> 0 <= at < batch.dirty[page].overlay.len()
            &&& forall|at: int|
                0 <= at < batch.dirty[page].overlay.len() && !batch.dirty[page].covered.contains(at)
                    ==> #[trigger] batch.dirty[page].overlay[at] == 0
            &&& page_batch::at_or_behind(batch.cut_from, page) ==> batch.dirty[page].base_zeroed
        }
    &&& forall|page: int, at: int|
        page >= 0 && 0 <= at < SQLITE_PAGE_SIZE && page * SQLITE_PAGE_SIZE + at >= batch.size
            ==> #[trigger] final_byte(batch, stored, page, at) == 0
}

proof fn lemma_final_byte(batch: BatchModel, stored: Map<int, Seq<u8>>, page: int, at: int)
    requires
        batch_inv(batch, stored),
        0 <= at < SQLITE_PAGE_SIZE,
    ensures
        byte_in_page(finished_pages(batch, stored), page, at) == final_byte(batch, stored, page, at),
{
    if batch.dirty.dom().contains(page) {
        let dirty = batch.dirty[page];
        let base = if page_batch::at_or_behind(batch.cut_from, page) {
            Seq::empty()
        } else {
            page_or_empty(stored, page)
        };
        assert(finished_pages(batch, stored)[page] == dirty_page::page_result(dirty, base));
        assert(dirty.covered.contains(at) ==> 0 <= at < dirty.overlay.len());
        if dirty_page::is_complete(dirty) {
            if !dirty.covered.contains(at) {
                assert(dirty.base_zeroed);
                if at < dirty.overlay.len() {
                    assert(dirty.overlay[at] == 0);
                }
            }
        }
    }
}

proof fn lemma_content_byte(batch: BatchModel, stored: Map<int, Seq<u8>>, i: int)
    requires
        batch_inv(batch, stored),
        batch.exists,
        0 <= i < batch.size,
    ensures
        batch_content(batch, stored)->0[i] == final_byte(
            batch,
            stored,
            i / SQLITE_PAGE_SIZE as int,
            i % SQLITE_PAGE_SIZE as int,
        ),
{
    lemma_final_byte(batch, stored, i / SQLITE_PAGE_SIZE as int, i % SQLITE_PAGE_SIZE as int);
}

/// Nothing has happened yet: the batch stands for the stored file. The bytes of the
/// stored pages past the file's size are zero.
pub proof fn lemma_batch_start(exists: bool, size: int, stored: Map<int, Seq<u8>>)
    requires
        size >= 0,
        !exists ==> size == 0,
        forall|page: int, at: int|
            page >= 0 && 0 <= at < SQLITE_PAGE_SIZE && page * SQLITE_PAGE_SIZE + at >= size
                ==> #[trigger] byte_in_page(stored, page, at) == 0,
    ensures
        batch_inv(page_batch::batch_start(exists, size), stored),
        batch_content(page_batch::batch_start(exists, size), stored) == paged_content(
            exists,
            size,
            stored,
        ),
{
    let batch = page_batch::batch_start(exists, size);
    assert forall|page: int, at: int|
        page >= 0 && 0 <= at < SQLITE_PAGE_SIZE && page * SQLITE_PAGE_SIZE + at
            >= batch.size implies #[trigger] final_byte(batch, stored, page, at) == 0 by {
        assert(byte_in_page(stored, page, at) == 0);
    }
    assert(finished_pages(batch, stored) =~= stored);
}

proof fn lemma_write_step(batch: BatchModel, stored: Map<int, Seq<u8>>, offset: int, bytes: Seq<u8>)
    requires
        batch_inv(batch, stored),
        offset >= 0,
        op_is_clean(batch, stored, FileOp::Write { offset, bytes }),
    ensures
        batch_inv(
            page_batch::batch_after(batch, FileOp::Write { offset, bytes }, Seq::empty()),
            stored,
        ),
        batch_content(
            page_batch::batch_after(batch, FileOp::Write { offset, bytes }, Seq::empty()),
            stored,
        ) == file_model::content_after(
            batch_content(batch, stored),
            FileOp::Write { offset, bytes },
        ),
{
    let op = FileOp::Write { offset, bytes };
    let next = page_batch::batch_after(batch, op, Seq::empty());
    let len = bytes.len() as int;
    let size = SQLITE_PAGE_SIZE as int;
    assert forall|page: int|
        #![trigger next.dirty.dom().contains(page)]
        next.dirty.dom().contains(page) implies {
        &&& page >= 0
        &&& forall|at: int| #[trigger]
            next.dirty[page].covered.contains(at) ==> 0 <= at < next.dirty[page].overlay.len()
        &&& forall|at: int|
            0 <= at < next.dirty[page].overlay.len() && !next.dirty[page].covered.contains(at)
                ==> #[trigger] next.dirty[page].overlay[at] == 0
        &&& page_batch::at_or_behind(next.cut_from, page) ==> next.dirty[page].base_zeroed
    } by {
        assert(batch.dirty.dom().contains(page) || page_batch::touches(offset, len, page));
        if page_batch::touches(offset, len, page) {
            let part = page_batch::write_part(offset, bytes, page);
            let start = page_batch::write_start(offset, page);
            assert(start + part.len() <= size);
            if batch.dirty.dom().contains(page) {
                let before = batch.dirty[page];
                assert forall|at: int|
                    0 <= at < next.dirty[page].overlay.len() && !next.dirty[page].covered.contains(
                        at,
                    ) implies #[trigger] next.dirty[page].overlay[at] == 0 by {
                    assert(!before.covered.contains(at));
                    if at < before.overlay.len() {
                        assert(before.overlay[at] == 0);
                    }
                }
                assert forall|at: int| #[trigger]
                    next.dirty[page].covered.contains(at) implies 0 <= at
                    < next.dirty[page].overlay.len() by {
                    if before.covered.contains(at) {
                        assert(0 <= at < before.overlay.len());
                    }
                }
            }
        } else {
            assert(next.dirty[page] == batch.dirty[page]);
        }
    }
    assert forall|page: int, at: int|
        page >= 0 && 0 <= at < SQLITE_PAGE_SIZE implies #[trigger] final_byte(
        next,
        stored,
        page,
        at,
    ) == (if offset <= page * size + at < offset + len {
        bytes[page * size + at - offset]
    } else {
        final_byte(batch, stored, page, at)
    }) by {
        lemma_written_byte(batch, stored, offset, bytes, page, at);
    }
    assert(batch_inv(next, stored));
    let before = batch_content(batch, stored);
    let bytes_before = match before {
        Some(content) => content,
        None => Seq::empty(),
    };
    let after = batch_content(next, stored)->0;
    let wanted = file_model::overwrite(bytes_before, offset, bytes);
    assert(after.len() == wanted.len());
    assert forall|i: int| 0 <= i < after.len() implies after[i] == wanted[i] by {
        lemma_content_byte(next, stored, i);
        let page = i / size;
        let at = i % size;
        assert(page * size + at == i);
        if !(offset <= i < offset + len) {
            if i < batch.size {
                lemma_content_byte(batch, stored, i);
            } else {
                assert(final_byte(batch, stored, page, at) == 0);
            }
        }
    }
    assert(after =~= wanted);
}

proof fn lemma_written_byte(
    batch: BatchModel,
    stored: Map<int, Seq<u8>>,
    offset: int,
    bytes: Seq<u8>,
    page: int,
    at: int,
)
    requires
        batch_inv(batch, stored),
        offset >= 0,
        op_is_clean(batch, stored, FileOp::Write { offset, bytes }),
        page >= 0,
        0 <= at < SQLITE_PAGE_SIZE,
    ensures
        final_byte(
            page_batch::batch_after(batch, FileOp::Write { offset, bytes }, Seq::empty()),
            stored,
            page,
            at,
        ) == (if offset <= page * SQLITE_PAGE_SIZE + at < offset + bytes.len() {
            bytes[page * SQLITE_PAGE_SIZE + at - offset]
        } else {
            final_byte(batch, stored, page, at)
        }),
{
    let next = page_batch::batch_after(batch, FileOp::Write { offset, bytes }, Seq::empty());
    let len = bytes.len() as int;
    let i = page * SQLITE_PAGE_SIZE + at;
    if page_batch::touches(offset, len, page) {
        let part = page_batch::write_part(offset, bytes, page);
        let start = page_batch::write_start(offset, page);
        assert(next.dirty[page] == page_batch::written_page(batch, offset, bytes, page));
        assert(offset <= i < offset + len <==> start <= at < start + part.len());
        if offset <= i < offset + len {
            assert(part[at - start] == bytes[i - offset]);
        } else if batch.dirty.dom().contains(page) {
            let before = batch.dirty[page];
            if before.covered.contains(at) {
                assert(0 <= at < before.overlay.len());
            } else if !before.base_zeroed && page * SQLITE_PAGE_SIZE >= batch.size {
                assert(final_byte(batch, stored, page, at) == 0);
            }
        } else {
            if page * SQLITE_PAGE_SIZE >= batch.size {
                assert(final_byte(batch, stored, page, at) == 0);
            } else if page_batch::at_or_behind(batch.cut_from, page) {
                assert(page_batch::at_or_behind(batch.removed_from, page));
            } else if page_batch::at_or_behind(batch.removed_from, page) {
                assert(is_stale(batch, page));
                assert(byte_in_page(stored, page, at) == 0);
            }
        }
    } else {
        assert(!(offset <= i < offset + len));
        assert(next.dirty.dom().contains(page) == batch.dirty.dom().contains(page));
        if batch.dirty.dom().contains(page) {
            assert(next.dirty[page] == batch.dirty[page]);
        }
    }
}

/// The number of pages that a size takes.
pub proof fn lemma_page_count(size: int)
    requires
        size >= 0,
    ensures
        page_batch::page_count(size) == (if size % SQLITE_PAGE_SIZE as int == 0 {
            size / SQLITE_PAGE_SIZE as int
        } else {
            size / SQLITE_PAGE_SIZE as int + 1
        }),
{
    let unit = SQLITE_PAGE_SIZE as int;
    assert((size + unit - 1) / unit == (if size % unit == 0 {
        size / unit
    } else {
        size / unit + 1
    })) by (nonlinear_arith)
        requires
            unit == 16384,
            size >= 0,
    ;
}

/// The page and the place in it that a position stands for.
pub proof fn lemma_position(i: int)
    requires
        i >= 0,
    ensures
        i == (i / SQLITE_PAGE_SIZE as int) * SQLITE_PAGE_SIZE + i % SQLITE_PAGE_SIZE as int,
        i / SQLITE_PAGE_SIZE as int >= 0,
        0 <= i % (SQLITE_PAGE_SIZE as int) < SQLITE_PAGE_SIZE,
{
    let unit = SQLITE_PAGE_SIZE as int;
    assert(i == (i / unit) * unit + i % unit && i / unit >= 0 && 0 <= i % unit < unit)
        by (nonlinear_arith)
        requires
            unit == 16384,
            i >= 0,
    ;
}

/// On which side of a cut a position lies.
pub proof fn lemma_cut_position(size: int, page: int, at: int)
    requires
        size >= 0,
        page >= 0,
        0 <= at < SQLITE_PAGE_SIZE,
    ensures
        page * SQLITE_PAGE_SIZE + at < size <==> page < size / SQLITE_PAGE_SIZE as int || (page
            == size / SQLITE_PAGE_SIZE as int && at < size % SQLITE_PAGE_SIZE as int),
{
    let unit = SQLITE_PAGE_SIZE as int;
    let last = size / unit;
    let rest = size % unit;
    assert(size == last * unit + rest && 0 <= rest < unit) by (nonlinear_arith)
        requires
            unit == 16384,
            last == size / unit,
            rest == size % unit,
    ;
}

proof fn lemma_cut_step(batch: BatchModel, stored: Map<int, Seq<u8>>, size: int)
    requires
        batch_inv(batch, stored),
        0 <= size < batch.size,
        op_is_clean(batch, stored, FileOp::Truncate { size }),
    ensures
        batch_inv(
            page_batch::batch_after(
                batch,
                FileOp::Truncate { size },
                page_or_empty(stored, size / SQLITE_PAGE_SIZE as int),
            ),
            stored,
        ),
        batch_content(
            page_batch::batch_after(
                batch,
                FileOp::Truncate { size },
                page_or_empty(stored, size / SQLITE_PAGE_SIZE as int),
            ),
            stored,
        ) == file_model::content_after(batch_content(batch, stored), FileOp::Truncate { size }),
{
    let last = size / SQLITE_PAGE_SIZE as int;
    let rest = size % SQLITE_PAGE_SIZE as int;
    let base = page_or_empty(stored, last);
    let next = page_batch::batch_after(batch, FileOp::Truncate { size }, base);
    let keep = page_batch::page_count(size);
    lemma_page_count(size);
    assert(batch.exists);
    assert forall|page: int|
        #![trigger next.dirty.dom().contains(page)]
        next.dirty.dom().contains(page) implies {
        &&& page >= 0
        &&& forall|at: int| #[trigger]
            next.dirty[page].covered.contains(at) ==> 0 <= at < next.dirty[page].overlay.len()
        &&& forall|at: int|
            0 <= at < next.dirty[page].overlay.len() && !next.dirty[page].covered.contains(at)
                ==> #[trigger] next.dirty[page].overlay[at] == 0
        &&& page_batch::at_or_behind(next.cut_from, page) ==> next.dirty[page].base_zeroed
    } by {
        if rest != 0 && page == last {
            if batch.dirty.dom().contains(last) {
                let before = batch.dirty[last];
                assert forall|at: int|
                    0 <= at < next.dirty[page].overlay.len() && !next.dirty[page].covered.contains(
                        at,
                    ) implies #[trigger] next.dirty[page].overlay[at] == 0 by {
                    assert(!before.covered.contains(at));
                    assert(before.overlay[at] == 0);
                }
                assert forall|at: int| #[trigger]
                    next.dirty[page].covered.contains(at) implies 0 <= at
                    < next.dirty[page].overlay.len() by {
                    assert(before.covered.contains(at));
                }
            }
        } else {
            assert(batch.dirty.dom().contains(page));
            assert(next.dirty[page] == batch.dirty[page]);
        }
    }
    assert forall|page: int, at: int|
        page >= 0 && 0 <= at < SQLITE_PAGE_SIZE implies #[trigger] final_byte(
        next,
        stored,
        page,
        at,
    ) == (if page * SQLITE_PAGE_SIZE + at < size {
        final_byte(batch, stored, page, at)
    } else {
        0
    }) by {
        lemma_cut_byte(batch, stored, size, page, at);
    }
    assert(page_batch::at_or_behind(next.removed_from, keep));
    assert(batch_inv(next, stored));
    let content = batch_content(batch, stored)->0;
    let after = batch_content(next, stored)->0;
    let wanted = file_model::resized(content, size);
    assert forall|i: int| 0 <= i < size implies after[i] == wanted[i] by {
        lemma_content_byte(next, stored, i);
        lemma_content_byte(batch, stored, i);
    }
    assert(after =~= wanted);
}

proof fn lemma_cut_byte(
    batch: BatchModel,
    stored: Map<int, Seq<u8>>,
    size: int,
    page: int,
    at: int,
)
    requires
        batch_inv(batch, stored),
        0 <= size < batch.size,
        op_is_clean(batch, stored, FileOp::Truncate { size }),
        page >= 0,
        0 <= at < SQLITE_PAGE_SIZE,
    ensures
        final_byte(
            page_batch::batch_after(
                batch,
                FileOp::Truncate { size },
                page_or_empty(stored, size / SQLITE_PAGE_SIZE as int),
            ),
            stored,
            page,
            at,
        ) == (if page * SQLITE_PAGE_SIZE + at < size {
            final_byte(batch, stored, page, at)
        } else {
            0
        }),
{
    let last = size / SQLITE_PAGE_SIZE as int;
    let rest = size % SQLITE_PAGE_SIZE as int;
    let base = page_or_empty(stored, last);
    let next = page_batch::batch_after(batch, FileOp::Truncate { size }, base);
    let keep = page_batch::page_count(size);
    lemma_page_count(size);
    lemma_cut_position(size, page, at);
    if page >= keep {
        assert(!next.dirty.dom().contains(page));
        assert(page_batch::at_or_behind(next.removed_from, page));
    } else if rest != 0 && page == last {
        if at < rest {
            assert(byte_in_page(stored, last, at) == byte_in_page(stored, last, at));
            if batch.dirty.dom().contains(last) {
                let before = batch.dirty[last];
                if before.covered.contains(at) {
                    assert(0 <= at < before.overlay.len());
                }
            }
        }
    } else {
        assert(next.dirty.dom().contains(page) == batch.dirty.dom().contains(page));
        if batch.dirty.dom().contains(page) {
            assert(next.dirty[page] == batch.dirty[page]);
        }
        assert(page_batch::at_or_behind(next.removed_from, page) == page_batch::at_or_behind(
            batch.removed_from,
            page,
        ));
    }
}

/// An operation that keeps clear of unseen bytes does to a paged file what it says.
pub proof fn law_op_reads_as_it_says(batch: BatchModel, stored: Map<int, Seq<u8>>, op: FileOp)
    requires
        batch_inv(batch, stored),
        op_is_clean(batch, stored, op),
        op matches FileOp::Truncate { size } ==> size >= 0,
        op matches FileOp::Write { offset, bytes: _ } ==> offset >= 0,
    ensures
        batch_inv(batch_step(batch, stored, op), stored),
        batch_content(batch_step(batch, stored, op), stored) == file_model::content_after(
            batch_content(batch, stored),
            op,
        ),
{
    match op {
        FileOp::Delete => {
            let next = batch_step(batch, stored, op);
            assert(batch_inv(next, stored));
        },
        FileOp::Truncate { size } => {
            if size < batch.size {
                lemma_cut_step(batch, stored, size);
                if page_batch::page_needed_for(batch, op) is None {
                    let last = size / SQLITE_PAGE_SIZE as int;
                    let base = page_or_empty(stored, last);
                    assert(page_batch::batch_after(batch, op, base)
                        =~= page_batch::batch_after(batch, op, Seq::empty()));
                }
            } else {
                let next = batch_step(batch, stored, op);
                assert forall|page: int, at: int| #[trigger]
                    final_byte(next, stored, page, at) == final_byte(batch, stored, page, at) by {}
                assert(batch_inv(next, stored)) by {
                    assert forall|page: int|
                        #![trigger next.dirty.dom().contains(page)]
                        next.dirty.dom().contains(page) implies batch.dirty.dom().contains(page) by {}
                }
                let content = match batch_content(batch, stored) {
                    Some(bytes) => bytes,
                    None => Seq::empty(),
                };
                let after = batch_content(next, stored)->0;
                let wanted = file_model::resized(content, size);
                assert forall|i: int| 0 <= i < size implies after[i] == wanted[i] by {
                    lemma_content_byte(next, stored, i);
                    if i < batch.size {
                        lemma_content_byte(batch, stored, i);
                    } else {
                        assert(final_byte(
                            batch,
                            stored,
                            i / SQLITE_PAGE_SIZE as int,
                            i % SQLITE_PAGE_SIZE as int,
                        ) == 0);
                    }
                }
                assert(after =~= wanted);
            }
        },
        FileOp::Write { offset, bytes } => {
            lemma_write_step(batch, stored, offset, bytes);
        },
    }
}

/// The state after an operation on a stored file.
pub open spec fn batch_step(batch: BatchModel, stored: Map<int, Seq<u8>>, op: FileOp) -> BatchModel {
    page_batch::batch_after(
        batch,
        op,
        match page_batch::page_needed_for(batch, op) {
            Some(page) => page_or_empty(stored, page),
            None => Seq::empty(),
        },
    )
}

/// The state after a sequence of operations on a stored file.
pub open spec fn batch_run(
    batch: BatchModel,
    stored: Map<int, Seq<u8>>,
    ops: Seq<FileOp>,
) -> BatchModel
    decreases ops.len(),
{
    if ops.len() == 0 {
        batch
    } else {
        batch_step(batch_run(batch, stored, ops.drop_last()), stored, ops.last())
    }
}

/// Whether every operation keeps clear of unseen bytes.
pub open spec fn run_is_clean(
    batch: BatchModel,
    stored: Map<int, Seq<u8>>,
    ops: Seq<FileOp>,
) -> bool
    decreases ops.len(),
{
    ops.len() == 0 || (run_is_clean(batch, stored, ops.drop_last()) && op_is_clean(
        batch_run(batch, stored, ops.drop_last()),
        stored,
        ops.last(),
    ))
}

/// Where no page is stored, there are no unseen bytes.
pub proof fn lemma_run_over_nothing_is_clean(batch: BatchModel, ops: Seq<FileOp>)
    ensures
        run_is_clean(batch, Map::empty(), ops),
    decreases ops.len(),
{
    if ops.len() > 0 {
        lemma_run_over_nothing_is_clean(batch, ops.drop_last());
    }
}

/// Whether the offsets and sizes of operations are not negative.
pub open spec fn ops_are_valid(ops: Seq<FileOp>) -> bool {
    forall|i: int|
        0 <= i < ops.len() ==> match #[trigger] ops[i] {
            FileOp::Delete => true,
            FileOp::Truncate { size } => size >= 0,
            FileOp::Write { offset, bytes: _ } => offset >= 0,
        }
}

/// Whether no page that the batch has touched is longer than a page.
pub open spec fn overlays_fit(batch: BatchModel) -> bool {
    forall|page: int| #[trigger]
        batch.dirty.dom().contains(page) ==> batch.dirty[page].overlay.len() <= SQLITE_PAGE_SIZE
}

/// No operation makes a touched page longer than a page.
pub proof fn lemma_overlays_fit(batch: BatchModel, stored: Map<int, Seq<u8>>, ops: Seq<FileOp>)
    requires
        overlays_fit(batch),
        ops_are_valid(ops),
    ensures
        overlays_fit(batch_run(batch, stored, ops)),
    decreases ops.len(),
{
    if ops.len() > 0 {
        let earlier = ops.drop_last();
        assert forall|i: int| 0 <= i < earlier.len() implies match #[trigger] earlier[i] {
            FileOp::Delete => true,
            FileOp::Truncate { size } => size >= 0,
            FileOp::Write { offset, bytes: _ } => offset >= 0,
        } by {
            assert(ops[i] == earlier[i]);
        }
        lemma_overlays_fit(batch, stored, earlier);
        let before = batch_run(batch, stored, earlier);
        let op = ops.last();
        assert(op == ops[ops.len() - 1]);
        let after = batch_step(before, stored, op);
        assert forall|page: int| #[trigger] after.dirty.dom().contains(page) implies after.dirty[page].overlay.len()
            <= SQLITE_PAGE_SIZE by {
            match op {
                FileOp::Delete => {},
                FileOp::Truncate { size } => {
                    if size < before.size {
                        let last = size / SQLITE_PAGE_SIZE as int;
                        lemma_position(size);
                        if !(size % SQLITE_PAGE_SIZE as int != 0 && page == last) {
                            assert(before.dirty.dom().contains(page));
                        }
                    } else {
                        assert(before.dirty.dom().contains(page));
                    }
                },
                FileOp::Write { offset, bytes } => {
                    if page_batch::touches(offset, bytes.len() as int, page) {
                        let part = page_batch::write_part(offset, bytes, page);
                        let start = page_batch::write_start(offset, page);
                        assert(start + part.len() <= SQLITE_PAGE_SIZE);
                        assert(before.dirty.dom().contains(page) ==> before.dirty[page].overlay.len()
                            <= SQLITE_PAGE_SIZE);
                    } else {
                        assert(before.dirty.dom().contains(page));
                    }
                },
            }
        }
    }
}

/// A batch of operations that keep clear of unseen bytes does to a paged file what they
/// say, one after the other.
pub proof fn law_batch_reads_as_it_says(
    batch: BatchModel,
    stored: Map<int, Seq<u8>>,
    ops: Seq<FileOp>,
)
    requires
        batch_inv(batch, stored),
        run_is_clean(batch, stored, ops),
        ops_are_valid(ops),
    ensures
        batch_inv(batch_run(batch, stored, ops), stored),
        batch_content(batch_run(batch, stored, ops), stored) == file_model::content_after_all(
            batch_content(batch, stored),
            ops,
        ),
    decreases ops.len(),
{
    if ops.len() > 0 {
        let earlier = ops.drop_last();
        assert(ops_are_valid(earlier)) by {
            assert forall|i: int| 0 <= i < earlier.len() implies match #[trigger] earlier[i] {
                FileOp::Delete => true,
                FileOp::Truncate { size } => size >= 0,
                FileOp::Write { offset, bytes: _ } => offset >= 0,
            } by {
                assert(ops[i] == earlier[i]);
            }
        }
        law_batch_reads_as_it_says(batch, stored, earlier);
        assert(ops.last() == ops[ops.len() - 1]);
        law_op_reads_as_it_says(batch_run(batch, stored, earlier), stored, ops.last());
    }
}

/// The pages of a file in a store.
pub open spec fn file_pages(store: Map<Seq<u8>, Seq<u8>>, file_prefix: Seq<u8>) -> Map<
    int,
    Seq<u8>,
> {
    Map::new(
        |page: int|
            0 <= page <= u64::MAX && store.dom().contains(
                page_keys::current_key_of(file_prefix, page as u64),
            ),
        |page: int| store[page_keys::current_key_of(file_prefix, page as u64)],
    )
}

/// Whether a store holds a file.
pub open spec fn file_is_there(store: Map<Seq<u8>, Seq<u8>>, file_prefix: Seq<u8>) -> bool {
    store.dom().contains(page_keys::size_key_of(file_prefix))
}

/// The size of a file in a store; a file that is not there has size zero.
pub open spec fn file_size(store: Map<Seq<u8>, Seq<u8>>, file_prefix: Seq<u8>) -> int {
    if file_is_there(store, file_prefix) {
        bytes::be_value(store[page_keys::size_key_of(file_prefix)]) as int
    } else {
        0
    }
}

/// The bytes of a file in a store.
pub open spec fn file_content(store: Map<Seq<u8>, Seq<u8>>, file_prefix: Seq<u8>) -> Option<
    Seq<u8>,
> {
    paged_content(
        file_is_there(store, file_prefix),
        file_size(store, file_prefix),
        file_pages(store, file_prefix),
    )
}

/// Whether the page records of a file hold nothing but zeros past its size.
pub open spec fn file_is_sound(store: Map<Seq<u8>, Seq<u8>>, file_prefix: Seq<u8>) -> bool {
    forall|page: int, at: int|
        page >= 0 && 0 <= at < SQLITE_PAGE_SIZE && page * SQLITE_PAGE_SIZE + at >= file_size(
            store,
            file_prefix,
        ) ==> #[trigger] byte_in_page(file_pages(store, file_prefix), page, at) == 0
}

/// Whether `keys` lists every page record of a file that a store holds.
pub open spec fn lists_page_keys(
    store: Map<Seq<u8>, Seq<u8>>,
    file_prefix: Seq<u8>,
    keys: Seq<Seq<u8>>,
) -> bool {
    forall|key: Seq<u8>|
        store.dom().contains(key) && bytes::has_prefix(
            key,
            page_keys::current_prefix_of(file_prefix),
        ) ==> #[trigger] keys.contains(key)
}

/// Whether `keys` lists every page record of a file from `first` on.
pub open spec fn lists_page_keys_from(
    store: Map<Seq<u8>, Seq<u8>>,
    file_prefix: Seq<u8>,
    keys: Seq<Seq<u8>>,
    first: int,
) -> bool {
    forall|key: Seq<u8>|
        store.dom().contains(key) && page_batch::is_page_from(file_prefix, key, first)
            ==> #[trigger] keys.contains(key)
}

/// Whether a key holds the same in two stores.
pub open spec fn same_record(
    store: Map<Seq<u8>, Seq<u8>>,
    after: Map<Seq<u8>, Seq<u8>>,
    key: Seq<u8>,
) -> bool {
    after.dom().contains(key) == store.dom().contains(key) && (store.dom().contains(key)
        ==> after[key] == store[key])
}

/// Whether a key belongs to the records of a file that a batch writes.
pub open spec fn is_batch_key(file_prefix: Seq<u8>, version: u64, key: Seq<u8>) -> bool {
    ||| key == page_keys::size_key_of(file_prefix)
    ||| key == page_keys::latest_manifest_key_of(file_prefix)
    ||| key == page_keys::manifest_key_of(file_prefix, version)
    ||| bytes::has_prefix(key, page_keys::current_prefix_of(file_prefix))
}

/// Writes can be applied in two parts.
pub proof fn lemma_store_after_concat(
    store: Map<Seq<u8>, Seq<u8>>,
    first: Seq<WriteModel>,
    second: Seq<WriteModel>,
)
    ensures
        page_batch::store_after_all(store, first + second) == page_batch::store_after_all(
            page_batch::store_after_all(store, first),
            second,
        ),
    decreases second.len(),
{
    if second.len() == 0 {
        assert(first + second =~= first);
    } else {
        assert((first + second).drop_last() =~= first + second.drop_last());
        assert((first + second).last() == second.last());
        lemma_store_after_concat(store, first, second.drop_last());
    }
}

/// What a key holds after writes of which none, or exactly one, is to it.
pub proof fn lemma_store_after_lookup(
    store: Map<Seq<u8>, Seq<u8>>,
    writes: Seq<WriteModel>,
    key: Seq<u8>,
)
    ensures
        (forall|i: int| 0 <= i < writes.len() ==> (#[trigger] writes[i]).key != key) ==> {
            let after = page_batch::store_after_all(store, writes);
            after.dom().contains(key) == store.dom().contains(key) && (store.dom().contains(key)
                ==> after[key] == store[key])
        },
    decreases writes.len(),
{
    if writes.len() > 0 {
        if forall|i: int| 0 <= i < writes.len() ==> (#[trigger] writes[i]).key != key {
            let earlier = writes.drop_last();
            assert forall|i: int| 0 <= i < earlier.len() implies (#[trigger] earlier[i]).key
                != key by {
                assert(earlier[i] == writes[i]);
            }
            lemma_store_after_lookup(store, earlier, key);
            assert(writes.last() == writes[writes.len() - 1]);
        }
    }
}

/// The last write to a key decides what it holds.
pub proof fn lemma_store_after_last(
    store: Map<Seq<u8>, Seq<u8>>,
    writes: Seq<WriteModel>,
    at: int,
)
    requires
        0 <= at < writes.len(),
        forall|i: int| at < i < writes.len() ==> (#[trigger] writes[i]).key != writes[at].key,
    ensures
        match writes[at].value {
            Some(value) => page_batch::store_after_all(store, writes).dom().contains(
                writes[at].key,
            ) && page_batch::store_after_all(store, writes)[writes[at].key] == value,
            None => !page_batch::store_after_all(store, writes).dom().contains(writes[at].key),
        },
{
    let first = writes.take(at + 1);
    let second = writes.skip(at + 1);
    assert(writes =~= first + second);
    lemma_store_after_concat(store, first, second);
    assert(first.last() == writes[at]);
    let middle = page_batch::store_after_all(store, first);
    assert forall|i: int| 0 <= i < second.len() implies (#[trigger] second[i]).key
        != writes[at].key by {
        assert(second[i] == writes[at + 1 + i]);
    }
    lemma_store_after_lookup(middle, second, writes[at].key);
}

proof fn lemma_run_keeps_existence(
    batch: BatchModel,
    stored: Map<int, Seq<u8>>,
    ops: Seq<FileOp>,
)
    requires
        !batch.deleted,
    ensures
        !batch_run(batch, stored, ops).exists ==> batch_run(batch, stored, ops).deleted
            || !batch.exists,
    decreases ops.len(),
{
    if ops.len() > 0 {
        lemma_run_keeps_existence(batch, stored, ops.drop_last());
    }
}

/// The keys that a batch removes are the page records from its lowest cut on.
pub proof fn lemma_removal_keys(
    keys: Seq<Seq<u8>>,
    file_prefix: Seq<u8>,
    first: Option<int>,
    key: Seq<u8>,
)
    ensures
        ({
            let writes = page_batch::removal_writes(keys, file_prefix, first);
            &&& forall|i: int|
                0 <= i < writes.len() ==> (#[trigger] writes[i]).value is None
                    && bytes::has_prefix(writes[i].key, page_keys::current_prefix_of(file_prefix))
            &&& (exists|i: int| 0 <= i < writes.len() && (#[trigger] writes[i]).key == key) <==> (
            keys.contains(key) && first is Some && page_batch::is_page_from(
                file_prefix,
                key,
                first->0,
            ))
        }),
{
    let writes = page_batch::removal_writes(keys, file_prefix, first);
    if let Some(page) = first {
        let wanted = |k: Seq<u8>| page_batch::is_page_from(file_prefix, k, page);
        let kept = keys.filter(wanted);
        assert(writes.len() == kept.len());
        assert forall|i: int| 0 <= i < writes.len() implies (#[trigger] writes[i]).value is None
            && bytes::has_prefix(writes[i].key, page_keys::current_prefix_of(file_prefix)) by {
            assert(writes[i].key == kept[i]);
            keys.lemma_filter_pred(wanted, i);
        }
        if exists|i: int| 0 <= i < writes.len() && (#[trigger] writes[i]).key == key {
            let i = choose|i: int| 0 <= i < writes.len() && (#[trigger] writes[i]).key == key;
            assert(kept[i] == key);
            keys.lemma_filter_pred(wanted, i);
            assert(kept.contains(key));
            keys.lemma_filter_contains_rev(wanted, key);
        }
        if keys.contains(key) && page_batch::is_page_from(file_prefix, key, page) {
            let j = choose|j: int| 0 <= j < keys.len() && keys[j] == key;
            keys.lemma_filter_contains(wanted, j);
            let i = choose|i: int| 0 <= i < kept.len() && kept[i] == key;
            assert(writes[i].key == key);
        }
    }
}

/// The writes of a batch, applied to a store, make the file read as the batch's
/// operations say, leave it sound, and touch no record but the file's own.
#[verifier::rlimit(60)]
pub proof fn law_store_reads_as_it_says(
    store: Map<Seq<u8>, Seq<u8>>,
    file_prefix: Seq<u8>,
    version: u64,
    keys: Seq<Seq<u8>>,
    pages: Seq<StoredPage>,
    ops: Seq<FileOp>,
    order: Seq<u64>,
)
    requires
        file_is_sound(store, file_prefix),
        lists_page_keys(store, file_prefix, keys),
        ops_are_valid(ops),
        run_is_clean(
            page_batch::batch_start(
                file_is_there(store, file_prefix),
                file_size(store, file_prefix),
            ),
            file_pages(store, file_prefix),
            ops,
        ),
        batch_run_on(store, file_prefix, ops).size <= u64::MAX,
        forall|page: int| #[trigger]
            batch_run_on(store, file_prefix, ops).dirty.dom().contains(page) ==> page <= u64::MAX,
        forall|page: int| #[trigger]
            page_batch::needs_base(batch_run_on(store, file_prefix, ops), page)
                ==> page_batch::page_bytes(pages, page) == page_or_empty(
                file_pages(store, file_prefix),
                page,
            ),
        page_batch::page_order(order, batch_run_on(store, file_prefix, ops).dirty),
    ensures
        ({
            let after = page_batch::store_after_all(
                store,
                page_batch::batch_writes(
                    batch_run_on(store, file_prefix, ops),
                    file_prefix,
                    version,
                    keys,
                    pages,
                    order,
                ),
            );
            &&& file_content(after, file_prefix) == file_model::content_after_all(
                file_content(store, file_prefix),
                ops,
            )
            &&& file_is_sound(after, file_prefix)
            &&& forall|key: Seq<u8>|
                !is_batch_key(file_prefix, version, key) ==> #[trigger] same_record(
                    store,
                    after,
                    key,
                )
        }),
{
    let stored = file_pages(store, file_prefix);
    let start = page_batch::batch_start(
        file_is_there(store, file_prefix),
        file_size(store, file_prefix),
    );
    let batch = batch_run(start, stored, ops);
    assert(batch == batch_run_on(store, file_prefix, ops));
    lemma_batch_start(
        file_is_there(store, file_prefix),
        file_size(store, file_prefix),
        stored,
    );
    law_batch_reads_as_it_says(start, stored, ops);
    lemma_run_keeps_existence(start, stored, ops);

    let removals = page_batch::removal_writes(keys, file_prefix, batch.removed_from);
    let puts = Seq::new(
        order.len(),
        |i: int| page_batch::page_put(batch, file_prefix, pages, order[i]),
    );
    let tail = page_batch::metadata_writes(batch, file_prefix, version);
    let writes = page_batch::batch_writes(batch, file_prefix, version, keys, pages, order);
    assert(writes == removals + puts + tail);
    let after = page_batch::store_after_all(store, writes);
    let size_key = page_keys::size_key_of(file_prefix);
    page_keys::law_records_of_a_file_are_apart(file_prefix, 0, version);

    assert forall|key: Seq<u8>|
        !is_batch_key(file_prefix, version, key) implies #[trigger] same_record(
        store,
        after,
        key,
    ) by {
        lemma_removal_keys(keys, file_prefix, batch.removed_from, key);
        assert forall|i: int| 0 <= i < writes.len() implies (#[trigger] writes[i]).key != key by {
            lemma_batch_write_key(batch, file_prefix, version, keys, pages, order, i);
        }
        lemma_store_after_lookup(store, writes, key);
    }

    assert(file_is_there(after, file_prefix) == batch.exists && (batch.exists ==> file_size(
        after,
        file_prefix,
    ) == batch.size)) by {
        lemma_batch_size_record(store, batch, file_prefix, version, keys, pages, order);
        bytes::lemma_u64_be_round_trip(batch.size as u64);
        assert(batch.size >= 0);
    }

    let finished = finished_pages(batch, stored);
    assert(file_pages(after, file_prefix) =~= finished) by {
        assert forall|page: int| #[trigger]
            file_pages(after, file_prefix).dom().contains(page) == finished.dom().contains(page) && (
            finished.dom().contains(page) ==> file_pages(after, file_prefix)[page]
                == finished[page]) by {
            if 0 <= page <= u64::MAX {
                lemma_batch_page_record(
                    store,
                    batch,
                    file_prefix,
                    version,
                    keys,
                    pages,
                    order,
                    page as u64,
                );
                if batch.dirty.dom().contains(page) && !page_batch::needs_base(batch, page) {
                    assert(page_batch::final_page(batch, page, page_or_empty(stored, page))
                        == page_batch::final_page(
                        batch,
                        page,
                        page_batch::page_bytes(pages, page),
                    ));
                }
            }
        }
    }
    assert(batch_content(batch, stored) == file_content(after, file_prefix));
    assert(file_is_sound(after, file_prefix)) by {
        assert forall|page: int, at: int|
            page >= 0 && 0 <= at < SQLITE_PAGE_SIZE && page * SQLITE_PAGE_SIZE + at >= file_size(
                after,
                file_prefix,
            ) implies #[trigger] byte_in_page(file_pages(after, file_prefix), page, at) == 0 by {
            lemma_final_byte(batch, stored, page, at);
            assert(file_size(after, file_prefix) == batch.size);
            assert(final_byte(batch, stored, page, at) == 0);
        }
    }
}

/// The state after all operations on a file of a store.
pub open spec fn batch_run_on(
    store: Map<Seq<u8>, Seq<u8>>,
    file_prefix: Seq<u8>,
    ops: Seq<FileOp>,
) -> BatchModel {
    batch_run(
        page_batch::batch_start(file_is_there(store, file_prefix), file_size(store, file_prefix)),
        file_pages(store, file_prefix),
        ops,
    )
}

/// Which record each write of a batch goes to.
proof fn lemma_batch_write_key(
    batch: BatchModel,
    file_prefix: Seq<u8>,
    version: u64,
    keys: Seq<Seq<u8>>,
    pages: Seq<StoredPage>,
    order: Seq<u64>,
    i: int,
)
    requires
        0 <= i < page_batch::batch_writes(
            batch,
            file_prefix,
            version,
            keys,
            pages,
            order,
        ).len(),
    ensures
        is_batch_key(
            file_prefix,
            version,
            page_batch::batch_writes(batch, file_prefix, version, keys, pages, order)[i].key,
        ),
{
    let removals = page_batch::removal_writes(keys, file_prefix, batch.removed_from);
    let writes = page_batch::batch_writes(batch, file_prefix, version, keys, pages, order);
    if i < removals.len() {
        lemma_removal_keys(keys, file_prefix, batch.removed_from, removals[i].key);
        assert(writes[i] == removals[i]);
    } else if i < removals.len() + order.len() {
        let page = order[i - removals.len()];
        page_keys::law_page_key_names_its_page(file_prefix, page, page);
        assert(writes[i] == page_batch::page_put(batch, file_prefix, pages, page));
    } else {
        let tail = page_batch::metadata_writes(batch, file_prefix, version);
        assert(writes[i] == tail[i - removals.len() - order.len()]);
    }
}

/// What the size record holds after the writes of a batch.
proof fn lemma_batch_size_record(
    store: Map<Seq<u8>, Seq<u8>>,
    batch: BatchModel,
    file_prefix: Seq<u8>,
    version: u64,
    keys: Seq<Seq<u8>>,
    pages: Seq<StoredPage>,
    order: Seq<u64>,
)
    requires
        !batch.exists ==> batch.deleted || !store.dom().contains(
            page_keys::size_key_of(file_prefix),
        ),
    ensures
        ({
            let after = page_batch::store_after_all(
                store,
                page_batch::batch_writes(batch, file_prefix, version, keys, pages, order),
            );
            let size_key = page_keys::size_key_of(file_prefix);
            &&& after.dom().contains(size_key) == batch.exists
            &&& batch.exists ==> after[size_key] == bytes::u64_be(batch.size as u64)
        }),
{
    let removals = page_batch::removal_writes(keys, file_prefix, batch.removed_from);
    let tail = page_batch::metadata_writes(batch, file_prefix, version);
    let writes = page_batch::batch_writes(batch, file_prefix, version, keys, pages, order);
    let size_key = page_keys::size_key_of(file_prefix);
    let head = removals.len() + order.len();
    page_keys::law_records_of_a_file_are_apart(file_prefix, 0, version);
    if batch.exists || batch.deleted {
        assert(writes[head as int] == tail[0]);
        assert forall|i: int| head < i < writes.len() implies (#[trigger] writes[i]).key
            != size_key by {
            assert(writes[i] == tail[i - head]);
        }
        lemma_store_after_last(store, writes, head as int);
    } else {
        assert forall|i: int| 0 <= i < writes.len() implies (#[trigger] writes[i]).key
            != size_key by {
            if i < removals.len() {
                lemma_removal_keys(keys, file_prefix, batch.removed_from, size_key);
                assert(writes[i] == removals[i]);
            } else {
                let page = order[i - removals.len()];
                page_keys::law_records_of_a_file_are_apart(file_prefix, page, version);
                assert(writes[i] == page_batch::page_put(batch, file_prefix, pages, page));
            }
        }
        lemma_store_after_lookup(store, writes, size_key);
    }
}

/// What a page record holds after the writes of a batch.
proof fn lemma_batch_page_record(
    store: Map<Seq<u8>, Seq<u8>>,
    batch: BatchModel,
    file_prefix: Seq<u8>,
    version: u64,
    keys: Seq<Seq<u8>>,
    pages: Seq<StoredPage>,
    order: Seq<u64>,
    page: u64,
)
    requires
        lists_page_keys(store, file_prefix, keys),
        page_batch::page_order(order, batch.dirty),
    ensures
        ({
            let after = page_batch::store_after_all(
                store,
                page_batch::batch_writes(batch, file_prefix, version, keys, pages, order),
            );
            let key = page_keys::current_key_of(file_prefix, page);
            &&& after.dom().contains(key) == (batch.dirty.dom().contains(page as int) || (
            store.dom().contains(key) && !page_batch::at_or_behind(
                batch.removed_from,
                page as int,
            )))
            &&& batch.dirty.dom().contains(page as int) ==> after[key] == page_batch::final_page(
                batch,
                page as int,
                page_batch::page_bytes(pages, page as int),
            )
            &&& after.dom().contains(key) && !batch.dirty.dom().contains(page as int)
                ==> after[key] == store[key]
        }),
{
    let removals = page_batch::removal_writes(keys, file_prefix, batch.removed_from);
    let tail = page_batch::metadata_writes(batch, file_prefix, version);
    let writes = page_batch::batch_writes(batch, file_prefix, version, keys, pages, order);
    let key = page_keys::current_key_of(file_prefix, page);
    let head = removals.len() as int;
    page_keys::law_records_of_a_file_are_apart(file_prefix, page, version);
    page_keys::law_page_key_names_its_page(file_prefix, page, page);
    lemma_removal_keys(keys, file_prefix, batch.removed_from, key);
    assert forall|i: int| head <= i < writes.len() implies (#[trigger] writes[i]).key != key || (i
        < head + order.len() && order[i - head] == page) by {
        if i < head + order.len() {
            assert(writes[i] == page_batch::page_put(batch, file_prefix, pages, order[i - head]));
            page_keys::law_page_key_names_its_page(file_prefix, order[i - head], page);
        } else {
            assert(writes[i] == tail[i - head - order.len()]);
        }
    }
    if batch.dirty.dom().contains(page as int) {
        assert(order.contains(page));
        let j = choose|j: int| 0 <= j < order.len() && order[j] == page;
        assert(writes[head + j] == page_batch::page_put(batch, file_prefix, pages, page));
        assert forall|i: int| head + j < i < writes.len() implies (#[trigger] writes[i]).key
            != writes[head + j].key by {
            if i < head + order.len() {
                assert(order[j] < order[i - head]);
            }
        }
        lemma_store_after_last(store, writes, head + j);
    } else {
        assert forall|i: int| head <= i < writes.len() implies (#[trigger] writes[i]).key
            != key by {
            if i < head + order.len() && order[i - head] == page {
                assert(order.contains(page));
            }
        }
        if keys.contains(key) && page_batch::at_or_behind(batch.removed_from, page as int) {
            let first = choose|i: int| 0 <= i < removals.len() && (#[trigger] removals[i]).key == key;
            lemma_removed_key(store, removals, key);
            assert(writes =~= removals + writes.skip(head));
            lemma_store_after_concat(store, removals, writes.skip(head));
            assert forall|i: int| 0 <= i < writes.skip(head).len() implies (
            #[trigger] writes.skip(head)[i]).key != key by {
                assert(writes.skip(head)[i] == writes[head + i]);
            }
            lemma_store_after_lookup(
                page_batch::store_after_all(store, removals),
                writes.skip(head),
                key,
            );
        } else {
            assert forall|i: int| 0 <= i < writes.len() implies (#[trigger] writes[i]).key
                != key by {
                if i < head {
                    assert(writes[i] == removals[i]);
                }
            }
            lemma_store_after_lookup(store, writes, key);
            if page_batch::at_or_behind(batch.removed_from, page as int) {
                assert(bytes::has_prefix(key, page_keys::current_prefix_of(file_prefix)));
                assert(store.dom().contains(key) ==> keys.contains(key));
            }
        }
    }
}

/// A removed key is gone.
pub proof fn lemma_removed_key(
    store: Map<Seq<u8>, Seq<u8>>,
    removals: Seq<WriteModel>,
    key: Seq<u8>,
)
    requires
        forall|i: int| 0 <= i < removals.len() ==> (#[trigger] removals[i]).value is None,
        exists|i: int| 0 <= i < removals.len() && (#[trigger] removals[i]).key == key,
    ensures
        !page_batch::store_after_all(store, removals).dom().contains(key),
    decreases removals.len(),
{
    let i = choose|i: int| 0 <= i < removals.len() && (#[trigger] removals[i]).key == key;
    assert(removals.last() == removals[removals.len() - 1]);
    if removals.last().key != key {
        let earlier = removals.drop_last();
        assert(earlier[i] == removals[i]);
        assert forall|j: int| 0 <= j < earlier.len() implies (#[trigger] earlier[j]).value is None by {
            assert(earlier[j] == removals[j]);
        }
        lemma_removed_key(store, earlier, key);
    }
}

} // verus!
