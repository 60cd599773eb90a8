//! The replicated log on disk: which records the operations of the log write, and
//! which they read.
//!
//! The log has two keyspaces. One holds the entries, each under the eight big-endian
//! bytes of its index; the other holds what is known of the log as a whole.

use vstd::prelude::*;
use vstd::slice::*;
use vstd::string::*;

use crate::bytes;
use crate::bytes::bytes_less;
use crate::bytes::copy_bytes;
use crate::bytes::read_u64_be;
use crate::bytes::u64_to_be_bytes;
use crate::text;
use crate::text::append_number;

verus! {

broadcast use {group_string_axioms, group_slice_axioms};

/// The version of the form in which the log's records are stored.
pub const RAFT_STORE_FORMAT_VERSION: u16 = 1;

/// The message for a record of another version.
pub open spec fn unsupported_store_message(version: u16) -> Seq<char> {
    "unsupported raft store format version "@ + text::number_text(version as nat)
}

/// Whether a record of this version can be read.
pub fn check_store_format(version: u16) -> (checked: Result<(), String>)
    ensures
        checked is Ok <==> version == RAFT_STORE_FORMAT_VERSION,
        checked matches Err(message) ==> message@ == unsupported_store_message(version),
{
    if version == RAFT_STORE_FORMAT_VERSION {
        Ok(())
    } else {
        let mut message: String = "unsupported raft store format version ".to_owned();
        append_number(&mut message, version as u64);
        Err(message)
    }
}

/// The record of an entry.
pub fn log_key(index: u64) -> (key: Vec<u8>)
    ensures
        key@ == bytes::u64_be(index),
{
    u64_to_be_bytes(index)
}

/// The index of the entry that a record holds.
pub open spec fn index_of_key(key: Seq<u8>) -> Option<u64> {
    if key.len() == 8 {
        Some(bytes::be_value(key) as u64)
    } else {
        None
    }
}

/// The index of the entry that a record holds.
pub fn index_from_log_key(key: &[u8]) -> (index: Result<u64, String>)
    ensures
        match index_of_key(key@) {
            Some(found) => index == Ok::<u64, String>(found),
            None => index matches Err(message) && message@ == "invalid log index"@,
        },
{
    match read_u64_be(key) {
        Some(index) => Ok(index),
        None => Err("invalid log index".to_owned()),
    }
}

/// One end of a range of indexes.
#[derive(Debug, Clone, Copy, PartialEq, Eq, Structural)]
pub enum LogBound {
    Included(u64),
    Excluded(u64),
    Unbounded,
}

/// The first index of a range.
pub open spec fn range_start(bound: LogBound) -> int {
    match bound {
        LogBound::Included(index) => index as int,
        LogBound::Excluded(index) => index + 1,
        LogBound::Unbounded => 0,
    }
}

/// The first index behind a range. A range without an end stops before the greatest
/// index.
pub open spec fn range_end(bound: LogBound) -> int {
    match bound {
        LogBound::Included(index) => index + 1,
        LogBound::Excluded(index) => index as int,
        LogBound::Unbounded => u64::MAX as int,
    }
}

/// The first index of a range and the first one behind it.
pub fn log_range(start: LogBound, end: LogBound) -> (range: (u64, u64))
    requires
        range_start(start) <= u64::MAX,
        range_end(end) <= u64::MAX,
    ensures
        range.0 == range_start(start),
        range.1 == range_end(end),
{
    let first: u64 = match start {
        LogBound::Included(index) => index,
        LogBound::Excluded(index) => index + 1,
        LogBound::Unbounded => 0,
    };
    let end_exclusive: u64 = match end {
        LogBound::Included(index) => index + 1,
        LogBound::Excluded(index) => index,
        LogBound::Unbounded => u64::MAX,
    };
    (first, end_exclusive)
}

/// Whether a record holds an entry before `end`.
pub open spec fn is_before(key: Vec<u8>, end: int) -> bool {
    index_of_key(key@) matches Some(index) && index < end
}

/// How many of the records, from the first on, hold entries before `end_exclusive`.
/// A record whose key is no index is refused when the count comes to it.
pub fn entries_before(keys: &Vec<Vec<u8>>, end_exclusive: u64) -> (count: Result<usize, String>)
    ensures
        match count {
            Ok(n) => n <= keys@.len() && (forall|i: int|
                0 <= i < n ==> is_before(#[trigger] keys@[i], end_exclusive as int)) && (n
                < keys@.len() ==> (index_of_key(keys@[n as int]@) matches Some(index) && index
                >= end_exclusive)),
            Err(message) => message@ == "invalid log index"@ && exists|n: int|
                0 <= n < keys@.len() && index_of_key((#[trigger] keys@[n])@) is None && forall|i: int|
                    0 <= i < n ==> is_before(#[trigger] keys@[i], end_exclusive as int),
        },
{
    let mut i: usize = 0;
    while i < keys.len()
        invariant
            i <= keys.len(),
            forall|k: int| 0 <= k < i ==> is_before(#[trigger] keys@[k], end_exclusive as int),
        decreases keys.len() - i,
    {
        match index_from_log_key(keys[i].as_slice()) {
            Err(message) => {
                assert(index_of_key(keys@[i as int]@) is None);
                return Err(message);
            },
            Ok(index) => {
                if index >= end_exclusive {
                    return Ok(i);
                }
            },
        }
        i = i + 1;
    }
    Ok(i)
}

/// One write to the log.
#[derive(Debug, Clone, PartialEq, Eq)]
pub enum LogWrite {
    PutMeta { key: Vec<u8>, value: Vec<u8> },
    RemoveMeta { key: Vec<u8> },
    PutEntry { key: Vec<u8>, value: Vec<u8> },
    RemoveEntry { key: Vec<u8> },
}

/// The model of the log: its two keyspaces.
#[verifier::ext_equal]
pub struct LogModel {
    pub meta: Map<Seq<u8>, Seq<u8>>,
    pub entries: Map<Seq<u8>, Seq<u8>>,
}

/// The log after one write.
pub open spec fn log_after(log: LogModel, write: LogWrite) -> LogModel {
    match write {
        LogWrite::PutMeta { key, value } => LogModel {
            meta: log.meta.insert(key@, value@),
            entries: log.entries,
        },
        LogWrite::RemoveMeta { key } => LogModel {
            meta: log.meta.remove(key@),
            entries: log.entries,
        },
        LogWrite::PutEntry { key, value } => LogModel {
            meta: log.meta,
            entries: log.entries.insert(key@, value@),
        },
        LogWrite::RemoveEntry { key } => LogModel {
            meta: log.meta,
            entries: log.entries.remove(key@),
        },
    }
}

/// The log after a sequence of writes.
pub open spec fn log_after_all(log: LogModel, writes: Seq<LogWrite>) -> LogModel
    decreases writes.len(),
{
    if writes.len() == 0 {
        log
    } else {
        log_after(log_after_all(log, writes.drop_last()), writes.last())
    }
}

/// The record of the last vote.
pub open spec fn vote_key() -> Seq<u8> {
    bytes::text("vote")
}

/// The record of the last committed entry.
pub open spec fn committed_key() -> Seq<u8> {
    bytes::text("committed")
}

/// The record of the last purged entry.
pub open spec fn purged_key() -> Seq<u8> {
    bytes::text("purged")
}

/// The record of the last entry of the log.
pub open spec fn last_key() -> Seq<u8> {
    bytes::text("last_log_id")
}

fn meta_key(name: &str) -> (key: Vec<u8>)
    ensures
        key@ == bytes::text(name),
{
    copy_bytes(name.as_bytes())
}

/// Records a vote.
pub fn save_vote(vote: Vec<u8>) -> (write: LogWrite)
    ensures
        forall|log: LogModel| #[trigger]
            log_after(log, write) == (LogModel {
                meta: log.meta.insert(vote_key(), vote@),
                entries: log.entries,
            }),
{
    LogWrite::PutMeta { key: meta_key("vote"), value: vote }
}

/// Records the last committed entry, or that there is none.
pub fn save_committed(log_id: Option<Vec<u8>>) -> (write: LogWrite)
    ensures
        forall|log: LogModel| #[trigger]
            log_after(log, write) == (LogModel {
                meta: match log_id {
                    Some(encoded) => log.meta.insert(committed_key(), encoded@),
                    None => log.meta.remove(committed_key()),
                },
                entries: log.entries,
            }),
{
    match log_id {
        Some(encoded) => LogWrite::PutMeta { key: meta_key("committed"), value: encoded },
        None => LogWrite::RemoveMeta { key: meta_key("committed") },
    }
}

/// The last entry of the log: the last one that is there, or else the last one that
/// was purged.
pub fn last_log_id(present: Option<Vec<u8>>, purged: Option<Vec<u8>>) -> (last: Option<Vec<u8>>)
    ensures
        last == if present is Some {
            present
        } else {
            purged
        },
{
    match present {
        Some(encoded) => Some(encoded),
        None => purged,
    }
}

/// An entry as it goes into the log.
#[derive(Debug, Clone, PartialEq, Eq)]
pub struct LogRecord {
    pub index: u64,
    pub log_id: Vec<u8>,
    pub entry: Vec<u8>,
}

/// The log after entries were appended: each under its index, and the last of them
/// as the last entry.
pub open spec fn appended(log: LogModel, records: Seq<LogRecord>) -> LogModel {
    LogModel {
        meta: if records.len() == 0 {
            log.meta
        } else {
            log.meta.insert(last_key(), records.last().log_id@)
        },
        entries: with_records(log.entries, records),
    }
}

/// Entries with more of them, each in place of what its index held.
pub open spec fn with_records(entries: Map<Seq<u8>, Seq<u8>>, records: Seq<LogRecord>) -> Map<
    Seq<u8>,
    Seq<u8>,
>
    decreases records.len(),
{
    if records.len() == 0 {
        entries
    } else {
        with_records(entries, records.drop_last()).insert(
            bytes::u64_be(records.last().index),
            records.last().entry@,
        )
    }
}

/// Whether writes append records to every log.
pub open spec fn writes_append(writes: Seq<LogWrite>, records: Seq<LogRecord>) -> bool {
    forall|log: LogModel| #[trigger] log_after_all(log, writes) == appended(log, records)
}

proof fn lemma_log_after_push(log: LogModel, writes: Seq<LogWrite>, write: LogWrite)
    ensures
        log_after_all(log, writes.push(write)) == log_after(log_after_all(log, writes), write),
{
    assert(writes.push(write).drop_last() =~= writes);
}

/// Appends entries to the log.
pub fn append_entries(records: Vec<LogRecord>) -> (writes: Vec<LogWrite>)
    ensures
        writes_append(writes@, records@),
        forall|log: LogModel| #[trigger] log_after_all(log, writes@) == appended(log, records@),
{
    let ghost all = records@;
    let mut rest = records;
    let mut writes: Vec<LogWrite> = Vec::new();
    let mut last: Option<Vec<u8>> = None;
    let ghost mut taken: int = 0;
    assert(rest@ =~= all.skip(0));
    while rest.len() > 0
        invariant
            0 <= taken <= all.len(),
            rest@ == all.skip(taken),
            taken == 0 <==> last is None,
            taken > 0 ==> last == Some(all[taken - 1].log_id),
            forall|log: LogModel|
                (#[trigger] log_after_all(log, writes@)) == (LogModel {
                    meta: log.meta,
                    entries: with_records(log.entries, all.take(taken)),
                }),
        decreases rest.len(),
    {
        let ghost before = writes@;
        let record = rest.remove(0);
        assert(record == all[taken]);
        assert(rest@ =~= all.skip(taken + 1));
        writes.push(LogWrite::PutEntry { key: log_key(record.index), value: record.entry });
        proof {
            assert(all.take(taken + 1).drop_last() =~= all.take(taken));
            assert forall|log: LogModel| (#[trigger] log_after_all(log, writes@)) == (LogModel {
                meta: log.meta,
                entries: with_records(log.entries, all.take(taken + 1)),
            }) by {
                lemma_log_after_push(log, before, writes@.last());
                assert(writes@ =~= before.push(writes@.last()));
            }
            taken = taken + 1;
        }
        last = Some(record.log_id);
    }
    assert(all.take(taken) =~= all);
    if let Some(log_id) = last {
        let ghost before = writes@;
        writes.push(LogWrite::PutMeta { key: meta_key("last_log_id"), value: log_id });
        assert forall|log: LogModel| (#[trigger] log_after_all(log, writes@)) == appended(
            log,
            all,
        ) by {
            lemma_log_after_push(log, before, writes@.last());
            assert(writes@ =~= before.push(writes@.last()));
        }
    }
    writes
}

/// A log id: the index and the stored form of the whole.
#[derive(Debug, Clone, PartialEq, Eq)]
pub struct StoredLogId {
    pub index: u64,
    pub encoded: Vec<u8>,
}

/// The entries without those keys of a list that are wanted gone.
pub open spec fn without(entries: Map<Seq<u8>, Seq<u8>>, gone: spec_fn(Seq<u8>) -> bool) -> Map<
    Seq<u8>,
    Seq<u8>,
> {
    Map::new(|key: Seq<u8>| entries.dom().contains(key) && !gone(key), |key: Seq<u8>| entries[key])
}

/// Whether a key is among the first so many.
pub open spec fn listed(keys: Seq<Vec<u8>>, upto: int, key: Seq<u8>) -> bool {
    exists|i: int| 0 <= i < upto && (#[trigger] keys[i])@ == key
}

/// The index behind which a truncation removes entries.
pub open spec fn kept_index(last: Option<StoredLogId>) -> u64 {
    match last {
        Some(log_id) => log_id.index,
        None => 0,
    }
}

/// Whether a truncation removes a record, by its key.
pub open spec fn is_truncated(last: Option<StoredLogId>, key: Seq<u8>) -> bool {
    !bytes::lex_less(key, bytes::u64_be((kept_index(last) + 1) as u64))
}

/// The log after a truncation, given the keys that it holds.
pub open spec fn truncated(
    log: LogModel,
    last: Option<StoredLogId>,
    keys: Seq<Vec<u8>>,
) -> LogModel {
    LogModel {
        meta: match last {
            Some(log_id) => log.meta.insert(last_key(), log_id.encoded@),
            None => log.meta.remove(last_key()),
        },
        entries: without(
            log.entries,
            |key: Seq<u8>| listed(keys, keys.len() as int, key) && is_truncated(last, key),
        ),
    }
}

/// Whether writes truncate every log.
pub open spec fn writes_truncate(
    writes: Seq<LogWrite>,
    last: Option<StoredLogId>,
    keys: Seq<Vec<u8>>,
) -> bool {
    forall|log: LogModel| #[trigger] log_after_all(log, writes) == truncated(log, last, keys)
}

/// Removes the entries behind `last`, which becomes the last one.
pub fn truncate_after(last: Option<StoredLogId>, keys: &Vec<Vec<u8>>) -> (writes: Vec<LogWrite>)
    requires
        kept_index(last) < u64::MAX,
    ensures
        writes_truncate(writes@, last, keys@),
        forall|log: LogModel| #[trigger] log_after_all(log, writes@) == truncated(log, last, keys@),
{
    let keep: u64 = match &last {
        Some(log_id) => log_id.index,
        None => 0,
    };
    let first = log_key(keep + 1);
    let mut writes: Vec<LogWrite> = Vec::new();
    let mut i: usize = 0;
    let ghost gone = |upto: int, key: Seq<u8>| listed(keys@, upto, key) && is_truncated(last, key);
    assert forall|log: LogModel| (#[trigger] log_after_all(log, writes@)) == (LogModel {
        meta: log.meta,
        entries: without(log.entries, |key: Seq<u8>| gone(0, key)),
    }) by {
        assert(log.entries =~= without(log.entries, |key: Seq<u8>| gone(0, key)));
    }
    while i < keys.len()
        invariant
            i <= keys.len(),
            first@ == bytes::u64_be((kept_index(last) + 1) as u64),
            gone == (|upto: int, key: Seq<u8>|
                listed(keys@, upto, key) && is_truncated(last, key)),
            forall|log: LogModel|
                (#[trigger] log_after_all(log, writes@)) == (LogModel {
                    meta: log.meta,
                    entries: without(log.entries, |key: Seq<u8>| gone(i as int, key)),
                }),
        decreases keys.len() - i,
    {
        let ghost before = writes@;
        if !bytes_less(keys[i].as_slice(), first.as_slice()) {
            writes.push(LogWrite::RemoveEntry { key: copy_bytes(keys[i].as_slice()) });
        }
        proof {
            assert forall|key: Seq<u8>| #[trigger] listed(keys@, i + 1, key) <==> listed(
                keys@,
                i as int,
                key,
            ) || keys@[i as int]@ == key by {
                lemma_listed_step(keys@, i as int, key);
            }
            assert forall|log: LogModel| (#[trigger] log_after_all(log, writes@)) == (LogModel {
                meta: log.meta,
                entries: without(log.entries, |key: Seq<u8>| gone(i + 1, key)),
            }) by {
                if writes@ != before {
                    assert(writes@ =~= before.push(writes@.last()));
                    lemma_log_after_push(log, before, writes@.last());
                }
                assert(log_after_all(log, writes@).entries =~= without(
                    log.entries,
                    |key: Seq<u8>| gone(i + 1, key),
                ));
            }
        }
        i = i + 1;
    }
    let ghost before = writes@;
    match &last {
        Some(log_id) => {
            writes.push(
                LogWrite::PutMeta {
                    key: meta_key("last_log_id"),
                    value: copy_bytes(log_id.encoded.as_slice()),
                },
            );
        },
        None => {
            writes.push(LogWrite::RemoveMeta { key: meta_key("last_log_id") });
        },
    }
    assert forall|log: LogModel| (#[trigger] log_after_all(log, writes@)) == truncated(
        log,
        last,
        keys@,
    ) by {
        assert(writes@ =~= before.push(writes@.last()));
        lemma_log_after_push(log, before, writes@.last());
        assert(log_after_all(log, writes@).entries =~= truncated(log, last, keys@).entries);
    }
    writes
}

proof fn lemma_listed_step(keys: Seq<Vec<u8>>, upto: int, key: Seq<u8>)
    requires
        0 <= upto < keys.len(),
    ensures
        listed(keys, upto + 1, key) <==> listed(keys, upto, key) || keys[upto]@ == key,
{
    if listed(keys, upto, key) {
        let i = choose|i: int| 0 <= i < upto && (#[trigger] keys[i])@ == key;
        assert(keys[i]@ == key);
    }
}

/// Where a purge stops: the first record behind `index`.
pub open spec fn purge_stop(keys: Seq<Vec<u8>>, index: u64, stop: int) -> bool {
    &&& 0 <= stop <= keys.len()
    &&& forall|i: int| 0 <= i < stop ==> is_before(#[trigger] keys[i], index + 1)
    &&& stop < keys.len() ==> (index_of_key(keys[stop]@) matches Some(found) && found > index)
}

/// The log after a purge that stops at a record.
pub open spec fn purged(
    log: LogModel,
    log_id: StoredLogId,
    last_present: Option<u64>,
    keys: Seq<Vec<u8>>,
    stop: int,
) -> LogModel {
    let meta = log.meta.insert(purged_key(), log_id.encoded@);
    LogModel {
        meta: if last_present matches Some(last) && last <= log_id.index {
            meta.insert(last_key(), log_id.encoded@)
        } else {
            meta
        },
        entries: without(log.entries, |key: Seq<u8>| listed(keys, stop, key)),
    }
}

/// Whether writes purge every log.
pub open spec fn writes_purge(
    writes: Seq<LogWrite>,
    log_id: StoredLogId,
    last_present: Option<u64>,
    keys: Seq<Vec<u8>>,
    stop: int,
) -> bool {
    forall|log: LogModel| #[trigger]
        log_after_all(log, writes) == purged(log, log_id, last_present, keys, stop)
}

/// Removes the entries up to `log_id`, which becomes the last purged one; if the log
/// ends there, it stays the last one. A record whose key is no index is refused when
/// the purge comes to it.
pub fn purge(log_id: &StoredLogId, last_present: Option<u64>, keys: &Vec<Vec<u8>>) -> (writes: Result<
    Vec<LogWrite>,
    String,
>)
    ensures
        match writes {
            Ok(list) => exists|stop: int|
                #![trigger purge_stop(keys@, log_id.index, stop)]
                purge_stop(keys@, log_id.index, stop) && writes_purge(
                    list@,
                    *log_id,
                    last_present,
                    keys@,
                    stop,
                ) && forall|log: LogModel| #[trigger]
                    log_after_all(log, list@) == purged(log, *log_id, last_present, keys@, stop),
            Err(message) => message@ == "invalid log index"@ && exists|n: int|
                0 <= n < keys@.len() && index_of_key((#[trigger] keys@[n])@) is None && forall|i: int|
                    0 <= i < n ==> is_before(#[trigger] keys@[i], log_id.index + 1),
        },
{
    let mut writes: Vec<LogWrite> = Vec::new();
    let mut i: usize = 0;
    let mut behind: bool = false;
    assert forall|log: LogModel| (#[trigger] log_after_all(log, writes@)) == (LogModel {
        meta: log.meta,
        entries: without(log.entries, |key: Seq<u8>| listed(keys@, 0, key)),
    }) by {
        assert(log.entries =~= without(log.entries, |key: Seq<u8>| listed(keys@, 0, key)));
    }
    while i < keys.len() && !behind
        invariant
            i <= keys.len(),
            forall|k: int| 0 <= k < i ==> is_before(#[trigger] keys@[k], log_id.index + 1),
            behind ==> i < keys.len() && (index_of_key(keys@[i as int]@) matches Some(found)
                && found > log_id.index),
            forall|log: LogModel|
                (#[trigger] log_after_all(log, writes@)) == (LogModel {
                    meta: log.meta,
                    entries: without(log.entries, |key: Seq<u8>| listed(keys@, i as int, key)),
                }),
        decreases keys.len() - i, if behind { 0int } else { 1int },
    {
        match index_from_log_key(keys[i].as_slice()) {
            Err(message) => {
                assert(index_of_key(keys@[i as int]@) is None);
                return Err(message);
            },
            Ok(index) => {
                if index > log_id.index {
                    behind = true;
                } else {
                    let ghost before = writes@;
                    writes.push(LogWrite::RemoveEntry { key: copy_bytes(keys[i].as_slice()) });
                    proof {
                        assert forall|key: Seq<u8>| #[trigger] listed(keys@, i + 1, key) <==> listed(
                            keys@,
                            i as int,
                            key,
                        ) || keys@[i as int]@ == key by {
                            lemma_listed_step(keys@, i as int, key);
                        }
                        assert forall|log: LogModel|
                            (#[trigger] log_after_all(log, writes@)) == (LogModel {
                                meta: log.meta,
                                entries: without(
                                    log.entries,
                                    |key: Seq<u8>| listed(keys@, i + 1, key),
                                ),
                            }) by {
                            assert(writes@ =~= before.push(writes@.last()));
                            lemma_log_after_push(log, before, writes@.last());
                            assert(log_after_all(log, writes@).entries =~= without(
                                log.entries,
                                |key: Seq<u8>| listed(keys@, i + 1, key),
                            ));
                        }
                    }
                    i = i + 1;
                }
            },
        }
    }
    let ghost removals = writes@;
    writes.push(
        LogWrite::PutMeta { key: meta_key("purged"), value: copy_bytes(log_id.encoded.as_slice()) },
    );
    let ghost marked = writes@;
    if let Some(last) = last_present {
        if last <= log_id.index {
            writes.push(
                LogWrite::PutMeta {
                    key: meta_key("last_log_id"),
                    value: copy_bytes(log_id.encoded.as_slice()),
                },
            );
        }
    }
    proof {
        assert(purge_stop(keys@, log_id.index, i as int));
        assert forall|log: LogModel| (#[trigger] log_after_all(log, writes@)) == purged(
            log,
            *log_id,
            last_present,
            keys@,
            i as int,
        ) by {
            assert(marked =~= removals.push(marked.last()));
            lemma_log_after_push(log, removals, marked.last());
            if writes@ != marked {
                assert(writes@ =~= marked.push(writes@.last()));
                lemma_log_after_push(log, marked, writes@.last());
            }
        }
        assert(writes_purge(writes@, *log_id, last_present, keys@, i as int));
    }
    Ok(writes)
}

} // verus!
