//! Every part of a request is applied.

use vstd::prelude::*;

use crate::apply;
use crate::apply::ApplyStep;
use crate::request::LargeSqliteBatchRequest;
use crate::request::LargeSqlitePageDeltaRequest;
use crate::request::OrionRaftRequest;
use crate::types::SqliteFileKind;
use crate::types::SqliteVfsBatch;

verus! {

proof fn lemma_batch_steps(batches: Seq<SqliteVfsBatch>, upto: int)
    requires
        0 <= upto <= batches.len() <= usize::MAX,
    ensures
        ({
            let steps = apply::batch_steps(batches, upto);
            &&& forall|k: int|
                0 <= k < steps.len() ==> ((#[trigger] steps[k]) matches ApplyStep::Batch(i) && i
                    < upto && batches[i as int].file_kind != SqliteFileKind::Temp)
            &&& forall|k: int, m: int|
                0 <= k < m < steps.len() ==> (#[trigger] steps[k])->Batch_0 < (
                #[trigger] steps[m])->Batch_0
            &&& forall|i: int|
                0 <= i < upto && (#[trigger] batches[i]).file_kind != SqliteFileKind::Temp
                    ==> steps.contains(ApplyStep::Batch(i as usize))
        }),
    decreases upto,
{
    if upto > 0 {
        lemma_batch_steps(batches, upto - 1);
        let before = apply::batch_steps(batches, upto - 1);
        let steps = apply::batch_steps(batches, upto);
        assert forall|i: int|
            0 <= i < upto && (#[trigger] batches[i]).file_kind
                != SqliteFileKind::Temp implies steps.contains(ApplyStep::Batch(i as usize)) by {
            if i < upto - 1 {
                let k = choose|k: int|
                    0 <= k < before.len() && before[k] == ApplyStep::Batch(i as usize);
                assert(steps[k] == ApplyStep::Batch(i as usize));
            } else {
                assert(steps[before.len() as int] == ApplyStep::Batch(i as usize));
            }
        }
    }
}

/// Whether one step of a request comes before another: batches, deltas, the large delta,
/// the large batch, and among batches and deltas the one with the lower number.
pub open spec fn comes_before(first: ApplyStep, second: ApplyStep) -> bool {
    match (first, second) {
        (ApplyStep::Batch(i), ApplyStep::Batch(j)) => i < j,
        (ApplyStep::Batch(_), _) => true,
        (ApplyStep::PageDelta(_), ApplyStep::Batch(_)) => false,
        (ApplyStep::PageDelta(i), ApplyStep::PageDelta(j)) => i < j,
        (ApplyStep::PageDelta(_), _) => true,
        (ApplyStep::LargePageDelta, ApplyStep::LargeBatch) => true,
        (ApplyStep::LargePageDelta, _) => false,
        (ApplyStep::LargeBatch, _) => false,
    }
}

/// Every part of a request has its step: each batch of a file that is not temporary, each
/// delta of pages, the large delta and the large batch. There is no other step, and none
/// comes twice or out of order.
pub proof fn law_every_part_is_applied(request: OrionRaftRequest)
    ensures
        ({
            let steps = apply::steps_of(request);
            &&& forall|i: int|
                0 <= i < request.sqlite_batches@.len() ==> (steps.contains(
                    ApplyStep::Batch(i as usize),
                ) <==> (#[trigger] request.sqlite_batches@[i]).file_kind != SqliteFileKind::Temp)
            &&& forall|i: usize|
                #[trigger] steps.contains(ApplyStep::Batch(i)) ==> i
                    < request.sqlite_batches@.len()
            &&& forall|i: usize|
                #[trigger] steps.contains(ApplyStep::PageDelta(i)) <==> i
                    < request.sqlite_page_deltas@.len()
            &&& steps.contains(ApplyStep::LargePageDelta) <==> request.large_sqlite_page_delta
                is Some
            &&& steps.contains(ApplyStep::LargeBatch) <==> request.large_sqlite_batch is Some
            &&& forall|k: int, m: int|
                0 <= k < m < steps.len() ==> comes_before(#[trigger] steps[k], #[trigger] steps[m])
        }),
{
    let batches = request.sqlite_batches@;
    let count = request.sqlite_page_deltas@.len();
    assert(request.sqlite_batches.len() == batches.len());
    assert(request.sqlite_page_deltas.len() == count);
    let steps = apply::steps_of(request);
    let first = apply::batch_steps(batches, batches.len() as int);
    lemma_batch_steps(batches, batches.len() as int);
    let deltas = Seq::new(count, |i: int| ApplyStep::PageDelta(i as usize));
    let b = first.len() as int;
    let d = b + count;
    let l = d + if request.large_sqlite_page_delta is Some {
        1int
    } else {
        0int
    };
    assert(forall|k: int| 0 <= k < b ==> steps[k] == first[k]);
    assert(forall|k: int| b <= k < d ==> steps[k] == ApplyStep::PageDelta((k - b) as usize));
    assert(request.large_sqlite_page_delta is Some ==> steps[d] == ApplyStep::LargePageDelta);
    assert(request.large_sqlite_batch is Some ==> steps[l] == ApplyStep::LargeBatch);
    assert forall|i: int| 0 <= i < batches.len() implies (steps.contains(
        ApplyStep::Batch(i as usize),
    ) <==> (#[trigger] batches[i]).file_kind != SqliteFileKind::Temp) by {
        if batches[i].file_kind != SqliteFileKind::Temp {
            let k = choose|k: int| 0 <= k < first.len() && first[k] == ApplyStep::Batch(i as usize);
            assert(steps[k] == ApplyStep::Batch(i as usize));
        }
        if steps.contains(ApplyStep::Batch(i as usize)) {
            let k = choose|k: int| 0 <= k < steps.len() && steps[k] == ApplyStep::Batch(i as usize);
            assert(steps[k] == first[k]);
        }
    }
    assert forall|i: usize| #[trigger] steps.contains(ApplyStep::Batch(i)) implies i
        < batches.len() by {
        let k = choose|k: int| 0 <= k < steps.len() && steps[k] == ApplyStep::Batch(i);
        assert(steps[k] == first[k]);
    }
    assert forall|i: usize| #[trigger] steps.contains(ApplyStep::PageDelta(i)) <==> i < count by {
        if i < count {
            assert(steps[b + i] == ApplyStep::PageDelta(i));
        }
        if steps.contains(ApplyStep::PageDelta(i)) {
            let k = choose|k: int| 0 <= k < steps.len() && steps[k] == ApplyStep::PageDelta(i);
            if k < b {
                assert(steps[k] == first[k]);
            }
        }
    }
    assert forall|k: int, m: int| 0 <= k < m < steps.len() implies comes_before(
        #[trigger] steps[k],
        #[trigger] steps[m],
    ) by {
        if k < b {
            assert(steps[k] == first[k]);
        }
        if m < b {
            assert(steps[m] == first[m]);
        }
    }
    if steps.contains(ApplyStep::LargePageDelta) {
        let k = choose|k: int| 0 <= k < steps.len() && steps[k] == ApplyStep::LargePageDelta;
        if k < b {
            assert(steps[k] == first[k]);
        }
    }
    if steps.contains(ApplyStep::LargeBatch) {
        let k = choose|k: int| 0 <= k < steps.len() && steps[k] == ApplyStep::LargeBatch;
        if k < b {
            assert(steps[k] == first[k]);
        }
    }
}

/// What an answer counts was applied: beyond the batches and deltas of the request itself
/// it counts a large one exactly when the request commits it, and the steps then hold it.
pub proof fn law_counted_uploads_are_applied(request: OrionRaftRequest)
    ensures
        ({
            let steps = apply::steps_of(request);
            let batches = apply::batches_applied(request) - request.sqlite_batches@.len();
            let deltas = apply::page_deltas_applied(request) - request.sqlite_page_deltas@.len();
            &&& batches == 0 || (batches == 1 && steps.contains(ApplyStep::LargeBatch))
            &&& deltas == 0 || (deltas == 1 && steps.contains(ApplyStep::LargePageDelta))
            &&& batches == 1 <==> (request.large_sqlite_batch matches Some(
                LargeSqliteBatchRequest::Commit { .. },
            ))
            &&& deltas == 1 <==> (request.large_sqlite_page_delta matches Some(
                LargeSqlitePageDeltaRequest::Commit { .. },
            ))
        }),
{
    law_every_part_is_applied(request);
}

} // verus!
