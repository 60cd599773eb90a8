//! Pages that a batch of file operations has touched.

use vstd::prelude::*;
use vstd::slice::*;

use crate::file_model;

verus! {

/// The size of a stored page.
pub const SQLITE_PAGE_SIZE: usize = 16 * 1024;

/// A range of positions in a page, from `start` up to but not including `end`.
#[derive(Debug, Clone, Copy, PartialEq, Eq, Structural)]
pub struct PageRange {
    pub start: usize,
    pub end: usize,
}

/// Whether a position lies in one of the ranges.
pub open spec fn in_ranges(ranges: Seq<PageRange>, i: int) -> bool {
    exists|k: int| 0 <= k < ranges.len() && (#[trigger] ranges[k]).start <= i < ranges[k].end
}

/// Whether the ranges are ordered by where they start.
pub open spec fn ordered_by_start(ranges: Seq<PageRange>) -> bool {
    forall|a: int, b: int| 0 <= a <= b < ranges.len() ==> ranges[a].start <= ranges[b].start
}

/// Whether the ranges are not empty, in order, and apart from each other.
pub open spec fn normalized(ranges: Seq<PageRange>) -> bool {
    &&& forall|a: int| 0 <= a < ranges.len() ==> (#[trigger] ranges[a]).start < ranges[a].end
    &&& forall|a: int, b: int| 0 <= a < b < ranges.len() ==> ranges[a].end < ranges[b].start
}

/// Whether every range ends at or before `len`.
pub open spec fn ranges_within(ranges: Seq<PageRange>, len: int) -> bool {
    forall|a: int| 0 <= a < ranges.len() ==> (#[trigger] ranges[a]).end <= len
}

fn insert_by_start(sorted: &mut Vec<PageRange>, range: PageRange)
    requires
        ordered_by_start(old(sorted)@),
        forall|a: int| 0 <= a < old(sorted)@.len() ==> (#[trigger] old(sorted)@[a]).start < old(
            sorted,
        )@[a].end,
        range.start < range.end,
    ensures
        ordered_by_start(final(sorted)@),
        forall|a: int| 0 <= a < final(sorted)@.len() ==> (#[trigger] final(sorted)@[a]).start
            < final(sorted)@[a].end,
        forall|i: int|
            #![trigger in_ranges(final(sorted)@, i)]
            in_ranges(final(sorted)@, i) <==> in_ranges(old(sorted)@, i) || range.start <= i
                < range.end,
{
    let mut at: usize = sorted.len();
    while at > 0 && sorted[at - 1].start > range.start
        invariant
            at <= sorted.len(),
            sorted@ == old(sorted)@,
            forall|k: int| at <= k < sorted@.len() ==> (#[trigger] sorted@[k]).start > range.start,
        decreases at,
    {
        at = at - 1;
    }
    sorted.insert(at, range);
    proof {
        let before = old(sorted)@;
        let after = sorted@;
        assert(after == before.insert(at as int, range));
        assert forall|i: int| #![trigger in_ranges(after, i)] in_ranges(after, i) <==> in_ranges(before, i)
            || range.start <= i < range.end by {
            if in_ranges(after, i) {
                let k = choose|k: int|
                    0 <= k < after.len() && (#[trigger] after[k]).start <= i < after[k].end;
                if k < at {
                    assert(before[k] == after[k]);
                } else if k > at {
                    assert(before[k - 1] == after[k]);
                }
            }
            if in_ranges(before, i) {
                let k = choose|k: int|
                    0 <= k < before.len() && (#[trigger] before[k]).start <= i < before[k].end;
                if k < at {
                    assert(after[k] == before[k]);
                } else {
                    assert(after[k + 1] == before[k]);
                }
            }
            if range.start <= i < range.end {
                assert(after[at as int] == range);
            }
        }
    }
}

/// Drops empty ranges, orders the rest and joins those that touch. The covered
/// positions stay the same.
pub fn normalize_ranges(ranges: &mut Vec<PageRange>)
    ensures
        normalized(final(ranges)@),
        forall|i: int|
            #![trigger in_ranges(final(ranges)@, i)]
            in_ranges(final(ranges)@, i) <==> in_ranges(old(ranges)@, i),
{
    let mut sorted: Vec<PageRange> = Vec::new();
    let mut k: usize = 0;
    while k < ranges.len()
        invariant
            k <= ranges.len(),
            ranges@ == old(ranges)@,
            ordered_by_start(sorted@),
            forall|a: int| 0 <= a < sorted@.len() ==> (#[trigger] sorted@[a]).start < sorted@[a].end,
            forall|i: int|
                #![trigger in_ranges(sorted@, i)]
                in_ranges(sorted@, i) <==> in_ranges(ranges@.take(k as int), i),
        decreases ranges.len() - k,
    {
        let range: PageRange = ranges[k];
        let ghost before = sorted@;
        if range.start < range.end {
            insert_by_start(&mut sorted, range);
        }
        proof {
            assert forall|i: int| #![trigger in_ranges(sorted@, i)] in_ranges(sorted@, i) <==> in_ranges(
                ranges@.take(k + 1),
                i,
            ) by {
                lemma_in_ranges_push(ranges@.take(k as int), range, i);
                assert(ranges@.take(k + 1) =~= ranges@.take(k as int).push(range));
                assert(in_ranges(before, i) <==> in_ranges(ranges@.take(k as int), i));
            }
        }
        k = k + 1;
    }
    assert(ranges@.take(k as int) =~= ranges@);

    let mut joined: Vec<PageRange> = Vec::new();
    let mut m: usize = 0;
    while m < sorted.len()
        invariant
            m <= sorted.len(),
            ordered_by_start(sorted@),
            forall|a: int| 0 <= a < sorted@.len() ==> (#[trigger] sorted@[a]).start < sorted@[a].end,
            normalized(joined@),
            joined@.len() > 0 ==> m > 0 && joined@.last().start <= sorted@[m - 1].start,
            forall|i: int|
                #![trigger in_ranges(joined@, i)]
                in_ranges(joined@, i) <==> in_ranges(sorted@.take(m as int), i),
        decreases sorted.len() - m,
    {
        let range: PageRange = sorted[m];
        let ghost before = joined@;
        assert(sorted@.take(m + 1) =~= sorted@.take(m as int).push(range));
        if joined.len() > 0 && range.start <= joined[joined.len() - 1].end {
            let last: usize = joined.len() - 1;
            let start: usize = joined[last].start;
            let end: usize = if joined[last].end < range.end {
                range.end
            } else {
                joined[last].end
            };
            joined.set(last, PageRange { start, end });
            proof {
                let after = joined@;
                assert forall|i: int| #![trigger in_ranges(after, i)] in_ranges(after, i) <==> in_ranges(
                    sorted@.take(m + 1),
                    i,
                ) by {
                    lemma_in_ranges_push(sorted@.take(m as int), range, i);
                    assert(in_ranges(before, i) <==> in_ranges(sorted@.take(m as int), i));
                    if in_ranges(after, i) {
                        let k = choose|k: int|
                            0 <= k < after.len() && (#[trigger] after[k]).start <= i < after[k].end;
                        assert(before[k].start == after[k].start);
                        if k < last {
                            assert(before[k] == after[k]);
                        }
                    }
                    if in_ranges(before, i) {
                        let k = choose|k: int|
                            0 <= k < before.len() && (#[trigger] before[k]).start <= i
                                < before[k].end;
                        assert(after[k].start <= i < after[k].end);
                    }
                    if range.start <= i < range.end {
                        assert(after[last as int].start <= i < after[last as int].end);
                    }
                }
            }
        } else {
            joined.push(range);
            proof {
                assert forall|i: int| #![trigger in_ranges(joined@, i)] in_ranges(joined@, i)
                    <==> in_ranges(sorted@.take(m + 1), i) by {
                    lemma_in_ranges_push(before, range, i);
                    lemma_in_ranges_push(sorted@.take(m as int), range, i);
                    assert(in_ranges(before, i) <==> in_ranges(sorted@.take(m as int), i));
                }
            }
        }
        m = m + 1;
    }
    assert(sorted@.take(m as int) =~= sorted@);
    *ranges = joined;
    proof {
        assert forall|i: int| #![trigger in_ranges(ranges@, i)] in_ranges(ranges@, i) <==> in_ranges(
            old(ranges)@,
            i,
        ) by {
            assert(in_ranges(sorted@, i) <==> in_ranges(old(ranges)@, i));
        }
    }
}

proof fn lemma_in_ranges_push(ranges: Seq<PageRange>, range: PageRange, i: int)
    ensures
        in_ranges(ranges.push(range), i) <==> in_ranges(ranges, i) || range.start <= i < range.end,
{
    let longer = ranges.push(range);
    if in_ranges(longer, i) {
        let k = choose|k: int|
            0 <= k < longer.len() && (#[trigger] longer[k]).start <= i < longer[k].end;
        if k < ranges.len() {
            assert(ranges[k] == longer[k]);
        }
    }
    if in_ranges(ranges, i) {
        let k = choose|k: int|
            0 <= k < ranges.len() && (#[trigger] ranges[k]).start <= i < ranges[k].end;
        assert(longer[k] == ranges[k]);
    }
    if range.start <= i < range.end {
        assert(longer[ranges.len() as int] == range);
    }
}

/// Whether ordered ranges cover every position from `start` up to `end`.
pub fn covers_range(ranges: &Vec<PageRange>, start: usize, end: usize) -> (covered: bool)
    requires
        start < end,
        ordered_by_start(ranges@),
    ensures
        covered == (forall|i: int| start <= i < end ==> in_ranges(ranges@, i)),
{
    let mut cursor: usize = start;
    let mut k: usize = 0;
    while k < ranges.len()
        invariant
            k <= ranges.len(),
            start <= cursor,
            cursor < end,
            ordered_by_start(ranges@),
            forall|a: int| 0 <= a < k ==> (#[trigger] ranges@[a]).end <= cursor,
            forall|i: int| start <= i < cursor ==> in_ranges(ranges@, i),
        decreases ranges.len() - k,
    {
        let range: PageRange = ranges[k];
        if range.end > cursor {
            if range.start > cursor {
                assert(!in_ranges(ranges@, cursor as int)) by {
                    if in_ranges(ranges@, cursor as int) {
                        let a = choose|a: int|
                            0 <= a < ranges@.len() && (#[trigger] ranges@[a]).start <= cursor
                                < ranges@[a].end;
                        if a >= k {
                            assert(ranges@[k as int].start <= ranges@[a].start);
                        }
                    }
                }
                return false;
            }
            assert forall|i: int| start <= i < range.end implies in_ranges(ranges@, i) by {
                if i >= cursor {
                    assert(ranges@[k as int].start <= i < ranges@[k as int].end);
                }
            }
            cursor = range.end;
            if cursor >= end {
                return true;
            }
        }
        k = k + 1;
    }
    assert(!in_ranges(ranges@, cursor as int));
    false
}

/// What a batch has done to a page: the bytes that it wrote, where it wrote them,
/// and whether the rest of the page counts as zeros.
#[derive(Debug)]
pub struct DirtyPage {
    pub overlay: Vec<u8>,
    pub covered: Vec<PageRange>,
    pub base_zeroed: bool,
}

/// The model of a dirty page.
#[verifier::ext_equal]
pub ghost struct DirtyModel {
    pub overlay: Seq<u8>,
    pub covered: Set<int>,
    pub base_zeroed: bool,
}

/// What became of a dirty page.
#[derive(Debug)]
pub enum DirtyPageMaterialization {
    Complete(Vec<u8>),
    Overlay { overlay: Vec<u8>, covered: Vec<PageRange> },
}

impl View for DirtyPage {
    type V = DirtyModel;

    open spec fn view(&self) -> DirtyModel {
        DirtyModel {
            overlay: self.overlay@,
            covered: Set::new(|i: int| in_ranges(self.covered@, i)),
            base_zeroed: self.base_zeroed,
        }
    }
}

/// The model of an untouched page.
pub open spec fn clean_page() -> DirtyModel {
    DirtyModel { overlay: Seq::empty(), covered: Set::empty(), base_zeroed: false }
}

/// The model of a page that was read whole.
pub open spec fn existing_page(bytes: Seq<u8>) -> DirtyModel {
    DirtyModel {
        overlay: bytes,
        covered: Set::new(|i: int| 0 <= i < bytes.len()),
        base_zeroed: true,
    }
}

/// The model of a dirty page after one more write.
pub open spec fn page_after_write(page: DirtyModel, offset: int, bytes: Seq<u8>) -> DirtyModel {
    DirtyModel {
        overlay: file_model::overwrite(page.overlay, offset, bytes),
        covered: Set::new(|i: int| page.covered.contains(i) || offset <= i < offset + bytes.len()),
        base_zeroed: page.base_zeroed,
    }
}

/// The model of a dirty page that was cut at `len`.
pub open spec fn page_after_truncate(page: DirtyModel, len: int) -> DirtyModel {
    DirtyModel {
        overlay: if len <= page.overlay.len() {
            page.overlay.take(len)
        } else {
            page.overlay
        },
        covered: Set::new(|i: int| page.covered.contains(i) && i < len),
        base_zeroed: true,
    }
}

/// Whether a dirty page stands for itself, without the stored page below it.
pub open spec fn is_complete(page: DirtyModel) -> bool {
    page.base_zeroed || forall|i: int| 0 <= i < SQLITE_PAGE_SIZE ==> page.covered.contains(i)
}

/// The bytes of a page with the covered part of an overlay laid over its base.
pub open spec fn merged(base: Seq<u8>, overlay: Seq<u8>, covered: Set<int>) -> Seq<u8> {
    Seq::new(
        if base.len() < overlay.len() {
            overlay.len()
        } else {
            base.len()
        },
        |i: int|
            if covered.contains(i) {
                overlay[i]
            } else if i < base.len() {
                base[i]
            } else {
                0u8
            },
    )
}

/// The bytes of a page that a batch leaves behind, over the stored page `base`.
pub open spec fn page_result(page: DirtyModel, base: Seq<u8>) -> Seq<u8> {
    if is_complete(page) {
        page.overlay
    } else {
        merged(base, page.overlay, page.covered)
    }
}

impl DirtyPage {
    /// Whether the covered ranges are in order and lie inside the overlay.
    pub open spec fn wf(&self) -> bool {
        &&& normalized(self.covered@)
        &&& ranges_within(self.covered@, self.overlay@.len() as int)
    }

    /// An untouched page.
    pub fn new() -> (page: DirtyPage)
        ensures
            page.wf(),
            page@ == clean_page(),
    {
        let page = DirtyPage { overlay: Vec::new(), covered: Vec::new(), base_zeroed: false };
        assert(page@.covered =~= clean_page().covered);
        page
    }

    /// A page that was read whole.
    pub fn from_existing(bytes: Vec<u8>) -> (page: DirtyPage)
        ensures
            page.wf(),
            page@ == existing_page(bytes@),
    {
        let mut covered: Vec<PageRange> = Vec::new();
        if bytes.len() > 0 {
            covered.push(PageRange { start: 0, end: bytes.len() });
        }
        let ghost ranges = covered@;
        let page = DirtyPage { overlay: bytes, covered, base_zeroed: true };
        proof {
            assert forall|i: int| in_ranges(ranges, i) <==> 0 <= i < bytes@.len() by {
                if 0 <= i < bytes@.len() {
                    assert(ranges[0].start <= i < ranges[0].end);
                }
            }
            assert(page@.covered =~= existing_page(bytes@).covered);
        }
        page
    }

    /// Lets the rest of the page count as zeros.
    pub fn mark_base_zeroed(&mut self)
        requires
            old(self).wf(),
        ensures
            final(self).wf(),
            final(self)@ == (DirtyModel { base_zeroed: true, ..old(self)@ }),
    {
        self.base_zeroed = true;
    }

    /// Writes bytes into the page.
    pub fn apply_write(&mut self, offset: usize, bytes: &[u8])
        requires
            old(self).wf(),
            offset + bytes.len() <= usize::MAX,
        ensures
            final(self).wf(),
            final(self)@ == page_after_write(old(self)@, offset as int, bytes@),
    {
        let end: usize = offset + bytes.len();
        if self.overlay.len() < end {
            self.overlay.resize(end, 0);
        }
        let ghost grown = self.overlay@;
        assert forall|i: int| 0 <= i < grown.len() implies grown[i] == (if i < old(
            self,
        ).overlay@.len() {
            old(self).overlay@[i]
        } else {
            0u8
        }) by {
            if old(self).overlay@.len() < end && i < old(self).overlay@.len() {
                assert(grown.subrange(0, old(self).overlay@.len() as int)[i] == grown[i]);
            }
        }
        let mut k: usize = 0;
        while k < bytes.len()
            invariant
                k <= bytes.len(),
                end == offset + bytes.len(),
                end <= self.overlay.len(),
                self.overlay@.len() == grown.len(),
                self.covered@ == old(self).covered@,
                self.base_zeroed == old(self).base_zeroed,
                forall|i: int|
                    0 <= i < grown.len() ==> self.overlay@[i] == (if offset <= i < offset + k {
                        bytes@[i - offset]
                    } else {
                        grown[i]
                    }),
            decreases bytes.len() - k,
        {
            self.overlay.set(offset + k, bytes[k]);
            k = k + 1;
        }
        self.covered.push(PageRange { start: offset, end });
        let ghost pushed = self.covered@;
        normalize_ranges(&mut self.covered);
        proof {
            let model = page_after_write(old(self)@, offset as int, bytes@);
            assert(self.overlay@ =~= model.overlay);
            assert forall|i: int| #![trigger in_ranges(self.covered@, i)] in_ranges(
                self.covered@,
                i,
            ) <==> in_ranges(old(self).covered@, i) || offset <= i < end by {
                lemma_in_ranges_push(old(self).covered@, PageRange { start: offset, end }, i);
                assert(in_ranges(self.covered@, i) <==> in_ranges(pushed, i));
            }
            assert(self@.covered =~= model.covered);
            lemma_ranges_within(
                self.covered@,
                self.overlay@.len() as int,
                old(self).covered@,
                offset,
                end,
            );
        }
    }

    /// Cuts the page at `len`; what lay below counts as zeros from then on.
    pub fn truncate(&mut self, len: usize)
        requires
            old(self).wf(),
        ensures
            final(self).wf(),
            final(self)@ == page_after_truncate(old(self)@, len as int),
    {
        self.overlay.truncate(len);
        let mut kept: Vec<PageRange> = Vec::new();
        let mut k: usize = 0;
        while k < self.covered.len()
            invariant
                k <= self.covered.len(),
                self.covered@ == old(self).covered@,
                normalized(self.covered@),
                normalized(kept@),
                kept@.len() > 0 ==> k > 0 && kept@.last().end <= self.covered@[k - 1].end,
                ranges_within(kept@, len as int),
                forall|i: int|
                    #![trigger in_ranges(kept@, i)]
                    in_ranges(kept@, i) <==> in_ranges(self.covered@.take(k as int), i) && i < len,
            decreases self.covered.len() - k,
        {
            let range: PageRange = self.covered[k];
            let end: usize = if range.end < len {
                range.end
            } else {
                len
            };
            let ghost before = kept@;
            if range.start < end {
                kept.push(PageRange { start: range.start, end });
            }
            proof {
                assert(self.covered@.take(k + 1) =~= self.covered@.take(k as int).push(range));
                assert forall|i: int| #![trigger in_ranges(kept@, i)] in_ranges(kept@, i) <==> in_ranges(
                    self.covered@.take(k + 1),
                    i,
                ) && i < len by {
                    lemma_in_ranges_push(self.covered@.take(k as int), range, i);
                    lemma_in_ranges_push(before, PageRange { start: range.start, end }, i);
                    assert(in_ranges(before, i) <==> in_ranges(self.covered@.take(k as int), i) && i
                        < len);
                }
            }
            k = k + 1;
        }
        proof {
            assert(self.covered@.take(k as int) =~= self.covered@);
            assert forall|a: int| 0 <= a < kept@.len() implies (#[trigger] kept@[a]).end
                <= self.overlay@.len() by {
                let last = kept@[a].end - 1;
                assert(in_ranges(kept@, last)) by {
                    assert(kept@[a].start <= last < kept@[a].end);
                }
                assert(in_ranges(old(self).covered@, last));
                let b = choose|b: int|
                    0 <= b < old(self).covered@.len() && (#[trigger] old(self).covered@[b]).start
                        <= last < old(self).covered@[b].end;
                assert(old(self).covered@[b].end <= old(self).overlay@.len());
            }
        }
        self.covered = kept;
        self.base_zeroed = true;
        proof {
            let model = page_after_truncate(old(self)@, len as int);
            assert(self.overlay@ =~= model.overlay);
            assert(self@.covered =~= model.covered);
        }
    }

    /// Decides whether the page stands for itself.
    pub fn into_page(self) -> (page: DirtyPageMaterialization)
        requires
            self.wf(),
        ensures
            page matches DirtyPageMaterialization::Complete(bytes) ==> is_complete(self@) && bytes@
                == self@.overlay,
            page matches DirtyPageMaterialization::Overlay { overlay, covered } ==> !is_complete(
                self@,
            ) && overlay == self.overlay && covered == self.covered,
    {
        if self.stands_alone() {
            DirtyPageMaterialization::Complete(self.overlay)
        } else {
            DirtyPageMaterialization::Overlay { overlay: self.overlay, covered: self.covered }
        }
    }

    /// Whether the page needs nothing of the stored page below it.
    pub fn stands_alone(&self) -> (alone: bool)
        requires
            self.wf(),
        ensures
            alone == is_complete(self@),
    {
        assert forall|i: int| in_ranges(self.covered@, i) <==> self@.covered.contains(i) by {}
        self.base_zeroed || covers_range(&self.covered, 0, SQLITE_PAGE_SIZE)
    }
}

proof fn lemma_ranges_within(
    ranges: Seq<PageRange>,
    len: int,
    earlier: Seq<PageRange>,
    start: usize,
    end: usize,
)
    requires
        normalized(ranges),
        ranges_within(earlier, len),
        end <= len,
        forall|i: int|
            #![trigger in_ranges(ranges, i)]
            in_ranges(ranges, i) <==> in_ranges(earlier, i) || start <= i < end,
    ensures
        ranges_within(ranges, len),
{
    assert forall|a: int| 0 <= a < ranges.len() implies (#[trigger] ranges[a]).end <= len by {
        let last = ranges[a].end - 1;
        assert(in_ranges(ranges, last)) by {
            assert(ranges[a].start <= last < ranges[a].end);
        }
        if in_ranges(earlier, last) {
            let b = choose|b: int|
                0 <= b < earlier.len() && (#[trigger] earlier[b]).start <= last < earlier[b].end;
            assert(earlier[b].end <= len);
        }
    }
}

/// Lays the covered part of an overlay over a stored page.
pub fn merge_overlay(base: Vec<u8>, overlay: &Vec<u8>, covered: &Vec<PageRange>) -> (page: Vec<u8>)
    requires
        ranges_within(covered@, overlay@.len() as int),
    ensures
        page@ == merged(base@, overlay@, Set::new(|i: int| in_ranges(covered@, i))),
{
    let mut page: Vec<u8> = base;
    if page.len() < overlay.len() {
        page.resize(overlay.len(), 0);
    }
    let ghost grown = page@;
    assert forall|i: int| 0 <= i < grown.len() implies grown[i] == (if i < base@.len() {
        base@[i]
    } else {
        0u8
    }) by {
        if base@.len() < overlay@.len() && i < base@.len() {
            assert(grown.subrange(0, base@.len() as int)[i] == grown[i]);
        }
    }
    let mut k: usize = 0;
    while k < covered.len()
        invariant
            k <= covered.len(),
            ranges_within(covered@, overlay@.len() as int),
            overlay@.len() <= grown.len(),
            page@.len() == grown.len(),
            forall|i: int|
                0 <= i < grown.len() ==> page@[i] == (if in_ranges(covered@.take(k as int), i) {
                    overlay@[i]
                } else {
                    grown[i]
                }),
        decreases covered.len() - k,
    {
        let range: PageRange = covered[k];
        let mut i: usize = range.start;
        while i < range.end
            invariant
                k < covered.len(),
                range == covered@[k as int],
                range.start <= i,
                range.start < range.end ==> i <= range.end,
                range.start >= range.end ==> i == range.start,
                range.end <= overlay@.len(),
                overlay@.len() <= grown.len(),
                page@.len() == grown.len(),
                forall|j: int|
                    0 <= j < grown.len() ==> page@[j] == (if in_ranges(covered@.take(k as int), j)
                        || range.start <= j < i {
                        overlay@[j]
                    } else {
                        grown[j]
                    }),
            decreases range.end - i,
        {
            page.set(i, overlay[i]);
            i = i + 1;
        }
        proof {
            assert(covered@.take(k + 1) =~= covered@.take(k as int).push(range));
            assert forall|j: int| 0 <= j < grown.len() implies page@[j] == (if in_ranges(
                covered@.take(k + 1),
                j,
            ) {
                overlay@[j]
            } else {
                grown[j]
            }) by {
                lemma_in_ranges_push(covered@.take(k as int), range, j);
            }
        }
        k = k + 1;
    }
    proof {
        assert(covered@.take(k as int) =~= covered@);
        assert(page@ =~= merged(base@, overlay@, Set::new(|i: int| in_ranges(covered@, i))));
    }
    page
}

} // verus!
