//! What applying a log entry does, in which order, and what it records.

use vstd::prelude::*;
use vstd::slice::*;
use vstd::string::*;

use crate::bytes;
use crate::bytes::copy_bytes;
use crate::hlc;
use crate::hlc::encode_timestamp;
use crate::hlc::HybridClock;
use crate::hlc::HybridTimestamp;
use crate::page_batch;
use crate::page_batch::append_put;
use crate::page_batch::StoreWrite;
use crate::page_batch::WriteModel;
use crate::page_law;
use crate::request::LargeSqliteBatchRequest;
use crate::request::LargeSqlitePageDeltaRequest;
use crate::request::OrionRaftRequest;
use crate::request::OrionRaftResponse;
use crate::types::SqliteFileKind;
use crate::types::SqliteVfsBatch;

verus! {

broadcast use {group_string_axioms, group_slice_axioms};

/// One part of a request that has to be applied.
#[derive(Debug, Clone, Copy, PartialEq, Eq, Structural)]
pub enum ApplyStep {
    /// The batch with this number.
    Batch(usize),
    /// The delta of pages with this number.
    PageDelta(usize),
    /// The step of a large delta of pages.
    LargePageDelta,
    /// The step of a large batch.
    LargeBatch,
}

/// The batches among the first so many that have to be applied: files that are only
/// temporary are not replicated.
pub open spec fn batch_steps(batches: Seq<SqliteVfsBatch>, upto: int) -> Seq<ApplyStep>
    decreases upto,
{
    if upto <= 0 {
        Seq::empty()
    } else if batches[upto - 1].file_kind == SqliteFileKind::Temp {
        batch_steps(batches, upto - 1)
    } else {
        batch_steps(batches, upto - 1).push(ApplyStep::Batch((upto - 1) as usize))
    }
}

/// The steps of a request: its batches, its deltas of pages, then the large delta
/// and the large batch.
pub open spec fn steps_of(request: OrionRaftRequest) -> Seq<ApplyStep> {
    batch_steps(request.sqlite_batches@, request.sqlite_batches@.len() as int) + Seq::new(
        request.sqlite_page_deltas@.len(),
        |i: int| ApplyStep::PageDelta(i as usize),
    ) + (if request.large_sqlite_page_delta is Some {
        seq![ApplyStep::LargePageDelta]
    } else {
        Seq::empty()
    }) + (if request.large_sqlite_batch is Some {
        seq![ApplyStep::LargeBatch]
    } else {
        Seq::empty()
    })
}

/// The steps of a request, in the order in which they have to be applied.
pub fn apply_steps(request: &OrionRaftRequest) -> (steps: Vec<ApplyStep>)
    ensures
        steps@ == steps_of(*request),
{
    let mut steps: Vec<ApplyStep> = Vec::new();
    let mut i: usize = 0;
    while i < request.sqlite_batches.len()
        invariant
            i <= request.sqlite_batches.len(),
            steps@ == batch_steps(request.sqlite_batches@, i as int),
        decreases request.sqlite_batches.len() - i,
    {
        if request.sqlite_batches[i].file_kind != SqliteFileKind::Temp {
            steps.push(ApplyStep::Batch(i));
        }
        i = i + 1;
    }
    let ghost batches = steps@;
    let mut k: usize = 0;
    while k < request.sqlite_page_deltas.len()
        invariant
            k <= request.sqlite_page_deltas.len(),
            steps@ == batches + Seq::new(k as nat, |j: int| ApplyStep::PageDelta(j as usize)),
        decreases request.sqlite_page_deltas.len() - k,
    {
        steps.push(ApplyStep::PageDelta(k));
        k = k + 1;
        assert(steps@ =~= batches + Seq::new(k as nat, |j: int| ApplyStep::PageDelta(j as usize)));
    }
    if request.large_sqlite_page_delta.is_some() {
        steps.push(ApplyStep::LargePageDelta);
    }
    if request.large_sqlite_batch.is_some() {
        steps.push(ApplyStep::LargeBatch);
    }
    assert(steps@ =~= steps_of(*request));
    steps
}

/// How many batches count as applied: those of the request, and a large batch when
/// it is committed.
pub open spec fn batches_applied(request: OrionRaftRequest) -> nat {
    request.sqlite_batches@.len() + if request.large_sqlite_batch matches Some(
        LargeSqliteBatchRequest::Commit { upload_id },
    ) {
        1nat
    } else {
        0nat
    }
}

/// How many deltas count as applied: those of the request, and a large delta when
/// it is committed.
pub open spec fn page_deltas_applied(request: OrionRaftRequest) -> nat {
    request.sqlite_page_deltas@.len() + if request.large_sqlite_page_delta matches Some(
        LargeSqlitePageDeltaRequest::Commit { upload_id },
    ) {
        1nat
    } else {
        0nat
    }
}

/// The answer once every step of a request is applied.
pub fn applied_response(request: &OrionRaftRequest, commit_ts: HybridTimestamp) -> (response:
    OrionRaftResponse)
    requires
        request.sqlite_batches@.len() < usize::MAX,
        request.sqlite_page_deltas@.len() < usize::MAX,
    ensures
        response.sqlite_batches_applied == batches_applied(*request),
        response.sqlite_page_deltas_applied == page_deltas_applied(*request),
        response.commit_ts == Some(commit_ts),
{
    let large_batches: usize = match &request.large_sqlite_batch {
        Some(LargeSqliteBatchRequest::Commit { upload_id }) => 1,
        _ => 0,
    };
    let large_deltas: usize = match &request.large_sqlite_page_delta {
        Some(LargeSqlitePageDeltaRequest::Commit { upload_id }) => 1,
        _ => 0,
    };
    OrionRaftResponse {
        sqlite_batches_applied: request.sqlite_batches.len() + large_batches,
        sqlite_page_deltas_applied: request.sqlite_page_deltas.len() + large_deltas,
        commit_ts: Some(commit_ts),
    }
}

/// The time at which a request counts as committed: its own stamp, or the next time
/// of the clock when it bears none. Either way the clock moves up to it.
pub fn entry_commit_timestamp(request: &OrionRaftRequest, clock: &mut HybridClock) -> (commit_ts:
    HybridTimestamp)
    requires
        request.committed_at() is None ==> old(clock)@.logical < u32::MAX,
    ensures
        match request.committed_at() {
            Some(stamped) => commit_ts == stamped && final(clock)@ == hlc::later_of(
                old(clock)@,
                Some(stamped),
            ),
            None => hlc::follows(old(clock)@, commit_ts) && final(clock)@ == commit_ts,
        },
        match request.meta {
            Some(meta) => commit_ts == meta.commit_ts,
            None => hlc::before(old(clock)@, commit_ts),
        },
        !hlc::before(final(clock)@, commit_ts) && !hlc::before(final(clock)@, old(clock)@),
{
    let commit_ts = match request.commit_timestamp() {
        Some(stamped) => stamped,
        None => clock.next(),
    };
    clock.observe(commit_ts);
    commit_ts
}

/// The record of the last applied entry.
pub open spec fn last_log_id_key() -> Seq<u8> {
    bytes::text("openraft/sm/last_log_id")
}

/// The record of the members of the group.
pub open spec fn membership_key() -> Seq<u8> {
    bytes::text("openraft/sm/membership")
}

/// The record of the current snapshot.
pub open spec fn snapshot_key() -> Seq<u8> {
    bytes::text("openraft/sm/current_snapshot")
}

/// The record of when the last applied entry was committed.
pub open spec fn applied_commit_ts_key() -> Seq<u8> {
    bytes::text("openraft/sm/applied_commit_ts")
}

/// The record of when the last applied request was committed.
pub open spec fn state_applied_commit_ts_key() -> Seq<u8> {
    bytes::text("sys/ranges/default/applied_commit_ts")
}

fn put(writes: &mut Vec<StoreWrite>, key: &str, value: Vec<u8>)
    ensures
        page_batch::write_models(final(writes)@) == page_batch::write_models(old(writes)@).push(
            WriteModel { key: bytes::text(key), value: Some(value@) },
        ),
{
    append_put(writes, copy_bytes(key.as_bytes()), value);
}

/// What is recorded along with an applied entry.
pub open spec fn metadata_writes(
    log_id: Seq<u8>,
    membership: Option<Seq<u8>>,
    commit_ts: Option<HybridTimestamp>,
    now: HybridTimestamp,
) -> Seq<WriteModel> {
    seq![
        WriteModel { key: last_log_id_key(), value: Some(log_id) },
        WriteModel { key: applied_commit_ts_key(), value: Some(hlc::encoded_timestamp(now)) },
    ] + (match membership {
        Some(members) => seq![WriteModel { key: membership_key(), value: Some(members) }],
        None => Seq::empty(),
    }) + (match commit_ts {
        Some(committed) => seq![
            WriteModel {
                key: applied_commit_ts_key(),
                value: Some(hlc::encoded_timestamp(committed)),
            },
            WriteModel {
                key: state_applied_commit_ts_key(),
                value: Some(hlc::encoded_timestamp(committed)),
            },
        ],
        None => Seq::empty(),
    })
}

/// The model of bytes that may be missing.
pub open spec fn optional_bytes(bytes: Option<Vec<u8>>) -> Option<Seq<u8>> {
    match bytes {
        Some(found) => Some(found@),
        None => None,
    }
}

/// The records that go with an applied entry: its log id, the members if it changed
/// them, and when it was committed. An entry without a request takes the time `now`.
pub fn entry_metadata(
    log_id: Vec<u8>,
    membership: Option<Vec<u8>>,
    commit_ts: Option<HybridTimestamp>,
    now: HybridTimestamp,
) -> (writes: Vec<StoreWrite>)
    ensures
        page_batch::write_models(writes@) == metadata_writes(
            log_id@,
            optional_bytes(membership),
            commit_ts,
            now,
        ),
{
    let ghost members = optional_bytes(membership);
    let mut writes: Vec<StoreWrite> = Vec::new();
    assert(page_batch::write_models(writes@) =~= Seq::empty());
    put(&mut writes, "openraft/sm/last_log_id", log_id);
    put(&mut writes, "openraft/sm/applied_commit_ts", encode_timestamp(now));
    if let Some(found) = membership {
        put(&mut writes, "openraft/sm/membership", found);
    }
    if let Some(committed) = commit_ts {
        put(&mut writes, "openraft/sm/applied_commit_ts", encode_timestamp(committed));
        put(&mut writes, "sys/ranges/default/applied_commit_ts", encode_timestamp(committed));
    }
    assert(page_batch::write_models(writes@) =~= metadata_writes(log_id@, members, commit_ts, now));
    writes
}

/// The records of a group's state never share a key.
pub proof fn lemma_metadata_keys()
    ensures
        last_log_id_key() != membership_key(),
        last_log_id_key() != snapshot_key(),
        last_log_id_key() != applied_commit_ts_key(),
        last_log_id_key() != state_applied_commit_ts_key(),
        membership_key() != snapshot_key(),
        membership_key() != applied_commit_ts_key(),
        membership_key() != state_applied_commit_ts_key(),
        snapshot_key() != applied_commit_ts_key(),
        snapshot_key() != state_applied_commit_ts_key(),
        applied_commit_ts_key() != state_applied_commit_ts_key(),
{
    reveal_strlit("openraft/sm/last_log_id");
    reveal_strlit("openraft/sm/membership");
    reveal_strlit("openraft/sm/current_snapshot");
    reveal_strlit("openraft/sm/applied_commit_ts");
    reveal_strlit("sys/ranges/default/applied_commit_ts");
    assert(is_ascii("openraft/sm/last_log_id"));
    assert(is_ascii("openraft/sm/membership"));
    assert(is_ascii("openraft/sm/current_snapshot"));
    assert(is_ascii("openraft/sm/applied_commit_ts"));
    assert(is_ascii("sys/ranges/default/applied_commit_ts"));
    assert(last_log_id_key().len() == 23);
    assert(membership_key().len() == 22);
    assert(snapshot_key().len() == 28);
    assert(applied_commit_ts_key().len() == 29);
    assert(state_applied_commit_ts_key().len() == 36);
}

/// Once an entry is applied, the store names it as the last one, holds the members
/// that it set and otherwise those from before, and holds when it was committed; the
/// time at which the last request was committed changes with requests only.
pub proof fn law_applied_entry_is_recorded(
    store: Map<Seq<u8>, Seq<u8>>,
    log_id: Seq<u8>,
    membership: Option<Seq<u8>>,
    commit_ts: Option<HybridTimestamp>,
    now: HybridTimestamp,
)
    ensures
        ({
            let after = page_batch::store_after_all(
                store,
                metadata_writes(log_id, membership, commit_ts, now),
            );
            &&& after.dom().contains(last_log_id_key()) && after[last_log_id_key()] == log_id
            &&& match membership {
                Some(members) => after.dom().contains(membership_key()) && after[membership_key()]
                    == members,
                None => after.dom().contains(membership_key()) == store.dom().contains(
                    membership_key(),
                ) && (store.dom().contains(membership_key()) ==> after[membership_key()]
                    == store[membership_key()]),
            }
            &&& after.dom().contains(applied_commit_ts_key()) && after[applied_commit_ts_key()]
                == hlc::encoded_timestamp(
                match commit_ts {
                    Some(committed) => committed,
                    None => now,
                },
            )
            &&& match commit_ts {
                Some(committed) => after.dom().contains(state_applied_commit_ts_key())
                    && after[state_applied_commit_ts_key()] == hlc::encoded_timestamp(committed),
                None => after.dom().contains(state_applied_commit_ts_key()) == store.dom().contains(
                    state_applied_commit_ts_key(),
                ) && (store.dom().contains(state_applied_commit_ts_key())
                    ==> after[state_applied_commit_ts_key()]
                    == store[state_applied_commit_ts_key()]),
            }
        }),
{
    lemma_metadata_keys();
    let writes = metadata_writes(log_id, membership, commit_ts, now);
    page_law::lemma_store_after_last(store, writes, 0);
    let middle: int = if membership is Some {
        3
    } else {
        2
    };
    if membership is Some {
        page_law::lemma_store_after_last(store, writes, 2);
    } else {
        page_law::lemma_store_after_lookup(store, writes, membership_key());
    }
    if commit_ts is Some {
        page_law::lemma_store_after_last(store, writes, middle);
        page_law::lemma_store_after_last(store, writes, middle + 1);
    } else {
        page_law::lemma_store_after_last(store, writes, 1);
        page_law::lemma_store_after_lookup(store, writes, state_applied_commit_ts_key());
    }
}

} // verus!
