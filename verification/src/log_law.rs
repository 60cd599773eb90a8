//! What holds of the replicated log as a whole.

use vstd::prelude::*;
use vstd::string::*;

use crate::bytes;
use crate::log_store;
use crate::log_store::LogBound;
use crate::log_store::LogModel;
use crate::log_store::LogRecord;
use crate::log_store::LogWrite;
use crate::log_store::StoredLogId;

verus! {

broadcast use group_string_axioms;

/// The records of the log sort by the indexes of their entries, and a record's key
/// gives the index back.
pub proof fn law_log_keys_sort_by_index(left: u64, right: u64)
    ensures
        log_store::index_of_key(bytes::u64_be(left)) == Some(left),
        bytes::lex_less(bytes::u64_be(left), bytes::u64_be(right)) <==> left < right,
        bytes::u64_be(left) == bytes::u64_be(right) ==> left == right,
{
    bytes::lemma_u64_be_round_trip(left);
    bytes::lemma_u64_be_round_trip(right);
    bytes::lemma_be_order(bytes::u64_be(left), bytes::u64_be(right));
}

/// Whether keys are records of entries, in ascending order.
pub open spec fn are_log_keys(keys: Seq<Vec<u8>>) -> bool {
    &&& forall|i: int| 0 <= i < keys.len() ==> (#[trigger] keys[i])@.len() == 8
    &&& forall|i: int, j: int|
        0 <= i < j < keys.len() ==> bytes::lex_less((#[trigger] keys[i])@, (#[trigger] keys[j])@)
}

/// Whether keys are those of the log from an index on, in ascending order.
pub open spec fn is_scan_from(log: LogModel, keys: Seq<Vec<u8>>, start: u64) -> bool {
    &&& are_log_keys(keys)
    &&& forall|index: u64|
        log_store::listed(keys, keys.len() as int, #[trigger] bytes::u64_be(index)) <==> start
            <= index && log.entries.dom().contains(bytes::u64_be(index))
}

proof fn lemma_key_of_index(key: Seq<u8>)
    requires
        key.len() == 8,
    ensures
        log_store::index_of_key(key) matches Some(index) && key == bytes::u64_be(index),
{
    bytes::lemma_be_value_of_eight(key);
    let index = bytes::be_value(key) as u64;
    bytes::lemma_u64_be_round_trip(index);
    bytes::lemma_lex_less_total(key, bytes::u64_be(index));
    bytes::lemma_be_order(key, bytes::u64_be(index));
    bytes::lemma_be_order(bytes::u64_be(index), key);
}

/// In ascending keys, whether an index is among the first so many depends only on
/// whether it comes before the next one.
proof fn lemma_front(keys: Seq<Vec<u8>>, count: int, end: int, index: u64)
    requires
        are_log_keys(keys),
        0 <= count <= keys.len(),
        forall|i: int| 0 <= i < count ==> log_store::is_before(#[trigger] keys[i], end),
        count < keys.len() ==> (log_store::index_of_key(keys[count]@) matches Some(next) && next
            >= end),
    ensures
        log_store::listed(keys, count, bytes::u64_be(index)) <==> log_store::listed(
            keys,
            keys.len() as int,
            bytes::u64_be(index),
        ) && index < end,
{
    let key = bytes::u64_be(index);
    law_log_keys_sort_by_index(index, index);
    if log_store::listed(keys, count, key) {
        let i = choose|i: int| 0 <= i < count && (#[trigger] keys[i])@ == key;
        assert(log_store::is_before(keys[i], end));
        assert(keys[i]@ == key);
    }
    if log_store::listed(keys, keys.len() as int, key) && index < end {
        let i = choose|i: int| 0 <= i < keys.len() && (#[trigger] keys[i])@ == key;
        if i >= count {
            lemma_key_of_index(keys[count]@);
            let next = log_store::index_of_key(keys[count]@)->0;
            if i > count {
                assert(bytes::lex_less(keys[count]@, keys[i]@));
                law_log_keys_sort_by_index(next, index);
            }
        }
    }
}

/// Reading a range gives exactly the entries of the log whose indexes lie in it.
pub proof fn law_range_reads_its_entries(
    log: LogModel,
    keys: Seq<Vec<u8>>,
    start: u64,
    end: u64,
    count: int,
    index: u64,
)
    requires
        is_scan_from(log, keys, start),
        0 <= count <= keys.len(),
        forall|i: int| 0 <= i < count ==> log_store::is_before(#[trigger] keys[i], end as int),
        count < keys.len() ==> (log_store::index_of_key(keys[count]@) matches Some(next) && next
            >= end),
    ensures
        log_store::listed(keys, count, bytes::u64_be(index)) <==> start <= index < end
            && log.entries.dom().contains(bytes::u64_be(index)),
{
    lemma_front(keys, count, end as int, index);
}

/// What is appended is what is read: every entry stands under its index, and other
/// indexes hold what they held.
pub proof fn law_appended_entries_read_back(
    log: LogModel,
    records: Seq<LogRecord>,
    at: int,
    index: u64,
)
    requires
        0 <= at < records.len(),
        forall|i: int, j: int|
            0 <= i < j < records.len() ==> (#[trigger] records[i]).index < (
            #[trigger] records[j]).index,
    ensures
        ({
            let after = log_store::appended(log, records);
            let key = bytes::u64_be(records[at].index);
            let other = bytes::u64_be(index);
            &&& after.entries.dom().contains(key) && after.entries[key] == records[at].entry@
            &&& after.meta.dom().contains(log_store::last_key()) && after.meta[log_store::last_key()]
                == records.last().log_id@
            &&& (forall|i: int| 0 <= i < records.len() ==> (#[trigger] records[i]).index != index)
                ==> after.entries.dom().contains(other) == log.entries.dom().contains(other) && (
            log.entries.dom().contains(other) ==> after.entries[other] == log.entries[other])
        }),
{
    lemma_records_read_back(log.entries, records, at, index);
}

proof fn lemma_records_read_back(
    entries: Map<Seq<u8>, Seq<u8>>,
    records: Seq<LogRecord>,
    at: int,
    index: u64,
)
    requires
        forall|i: int, j: int|
            0 <= i < j < records.len() ==> (#[trigger] records[i]).index < (
            #[trigger] records[j]).index,
    ensures
        ({
            let after = log_store::with_records(entries, records);
            let other = bytes::u64_be(index);
            &&& 0 <= at < records.len() ==> after.dom().contains(bytes::u64_be(records[at].index))
                && after[bytes::u64_be(records[at].index)] == records[at].entry@
            &&& (forall|i: int| 0 <= i < records.len() ==> (#[trigger] records[i]).index != index)
                ==> after.dom().contains(other) == entries.dom().contains(other) && (
            entries.dom().contains(other) ==> after[other] == entries[other])
        }),
    decreases records.len(),
{
    if records.len() > 0 {
        let earlier = records.drop_last();
        lemma_records_read_back(entries, earlier, at, index);
        law_log_keys_sort_by_index(records.last().index, index);
        if 0 <= at < records.len() {
            law_log_keys_sort_by_index(records.last().index, records[at].index);
        }
        if forall|i: int| 0 <= i < records.len() ==> (#[trigger] records[i]).index != index {
            assert forall|i: int| 0 <= i < earlier.len() implies (#[trigger] earlier[i]).index
                != index by {
                assert(records[i].index != index);
            }
            assert(records[records.len() - 1].index != index);
        }
    }
}

/// A truncation removes the entries behind its index and keeps the others.
pub proof fn law_truncation_keeps_the_front(
    log: LogModel,
    last: Option<StoredLogId>,
    keys: Seq<Vec<u8>>,
    index: u64,
)
    requires
        is_scan_from(log, keys, 0),
        log_store::kept_index(last) < u64::MAX,
    ensures
        ({
            let after = log_store::truncated(log, last, keys);
            let key = bytes::u64_be(index);
            &&& index > log_store::kept_index(last) ==> !after.entries.dom().contains(key)
            &&& index <= log_store::kept_index(last) ==> after.entries.dom().contains(key)
                == log.entries.dom().contains(key) && (log.entries.dom().contains(key)
                ==> after.entries[key] == log.entries[key])
        }),
{
    law_log_keys_sort_by_index(index, (log_store::kept_index(last) + 1) as u64);
    assert(log_store::listed(keys, keys.len() as int, bytes::u64_be(index))
        == log.entries.dom().contains(bytes::u64_be(index)));
}

/// A purge removes the entries up to its index and keeps the others.
pub proof fn law_purge_keeps_the_rest(
    log: LogModel,
    log_id: StoredLogId,
    last_present: Option<u64>,
    keys: Seq<Vec<u8>>,
    stop: int,
    index: u64,
)
    requires
        is_scan_from(log, keys, 0),
        log_store::purge_stop(keys, log_id.index, stop),
    ensures
        ({
            let after = log_store::purged(log, log_id, last_present, keys, stop);
            let key = bytes::u64_be(index);
            &&& index <= log_id.index ==> !after.entries.dom().contains(key)
            &&& index > log_id.index ==> after.entries.dom().contains(key)
                == log.entries.dom().contains(key) && (log.entries.dom().contains(key)
                ==> after.entries[key] == log.entries[key])
        }),
{
    lemma_front(keys, stop, log_id.index + 1, index);
    assert(log_store::listed(keys, keys.len() as int, bytes::u64_be(index))
        == log.entries.dom().contains(bytes::u64_be(index)));
}

/// What is known of the log as a whole has a record each.
pub proof fn lemma_meta_keys()
    ensures
        log_store::vote_key() != log_store::committed_key(),
        log_store::vote_key() != log_store::purged_key(),
        log_store::vote_key() != log_store::last_key(),
        log_store::committed_key() != log_store::purged_key(),
        log_store::committed_key() != log_store::last_key(),
        log_store::purged_key() != log_store::last_key(),
{
    reveal_strlit("vote");
    reveal_strlit("committed");
    reveal_strlit("purged");
    reveal_strlit("last_log_id");
    assert(is_ascii("vote"));
    assert(is_ascii("committed"));
    assert(is_ascii("purged"));
    assert(is_ascii("last_log_id"));
    assert(log_store::vote_key().len() == 4);
    assert(log_store::committed_key().len() == 9);
    assert(log_store::purged_key().len() == 6);
    assert(log_store::last_key().len() == 11);
}

/// Whether two logs agree in what they know under a key.
pub open spec fn same_meta(log: LogModel, other: LogModel, key: Seq<u8>) -> bool {
    &&& log.meta.dom().contains(key) == other.meta.dom().contains(key)
    &&& log.meta.dom().contains(key) ==> log.meta[key] == other.meta[key]
}

/// Whether the log knows this under a key.
pub open spec fn knows(log: LogModel, key: Seq<u8>, value: Seq<u8>) -> bool {
    log.meta.dom().contains(key) && log.meta[key] == value
}

/// A purge up to an index below the last entry's leaves the record of the last entry as it
/// was; one that takes the last entry too makes the purged one the last; and where no last
/// entry is known, none is made up. The purged entry is recorded, and neither the vote nor
/// what is committed changes.
pub proof fn law_purge_keeps_what_is_known(
    log: LogModel,
    log_id: StoredLogId,
    last_present: Option<u64>,
    keys: Seq<Vec<u8>>,
    stop: int,
    key: Seq<u8>,
)
    ensures
        ({
            let after = log_store::purged(log, log_id, last_present, keys, stop);
            &&& knows(after, log_store::purged_key(), log_id.encoded@)
            &&& match last_present {
                Some(last) => if last > log_id.index {
                    same_meta(after, log, log_store::last_key())
                } else {
                    knows(after, log_store::last_key(), log_id.encoded@)
                },
                None => same_meta(after, log, log_store::last_key()),
            }
            &&& key != log_store::purged_key() && key != log_store::last_key() ==> same_meta(
                after,
                log,
                key,
            )
        }),
{
    lemma_meta_keys();
}

/// Whether a log ends with an entry: it holds the entry and none behind it, and names it as
/// the last one.
pub open spec fn ends_with(log: LogModel, last: StoredLogId) -> bool {
    &&& log.entries.dom().contains(bytes::u64_be(last.index))
    &&& forall|index: u64| #[trigger]
        log.entries.dom().contains(bytes::u64_be(index)) ==> index <= last.index
    &&& knows(log, log_store::last_key(), last.encoded@)
}

/// After a purge the record of the last entry names the greatest index that the log holds,
/// or the purged one where it holds none.
pub proof fn law_purged_log_names_its_end(
    log: LogModel,
    last: StoredLogId,
    log_id: StoredLogId,
    keys: Seq<Vec<u8>>,
    stop: int,
)
    requires
        is_scan_from(log, keys, 0),
        log_store::purge_stop(keys, log_id.index, stop),
        ends_with(log, last),
    ensures
        ({
            let after = log_store::purged(log, log_id, Some(last.index), keys, stop);
            &&& log_id.index < last.index ==> ends_with(after, last)
            &&& log_id.index >= last.index ==> knows(
                after,
                log_store::last_key(),
                log_id.encoded@,
            ) && forall|index: u64| !#[trigger] after.entries.dom().contains(bytes::u64_be(index))
        }),
{
    lemma_meta_keys();
    let after = log_store::purged(log, log_id, Some(last.index), keys, stop);
    assert forall|index: u64| #[trigger]
        after.entries.dom().contains(bytes::u64_be(index)) implies log_id.index < index
        <= last.index by {
        law_purge_keeps_the_rest(log, log_id, Some(last.index), keys, stop, index);
        assert(log.entries.dom().contains(bytes::u64_be(index)));
    }
    law_purge_keeps_the_rest(log, log_id, Some(last.index), keys, stop, last.index);
}

/// After a truncation the log names what it was cut to as its last entry, or none; nothing
/// else that is known of the log changes.
pub proof fn law_truncated_log_names_its_end(
    log: LogModel,
    last: Option<StoredLogId>,
    keys: Seq<Vec<u8>>,
    key: Seq<u8>,
)
    ensures
        ({
            let after = log_store::truncated(log, last, keys);
            &&& last matches Some(log_id) ==> knows(
                after,
                log_store::last_key(),
                log_id.encoded@,
            )
            &&& last is None ==> !after.meta.dom().contains(log_store::last_key())
            &&& key != log_store::last_key() ==> same_meta(after, log, key)
        }),
{
}

/// A truncated log ends with the entry that it was cut to, where it held it.
pub proof fn law_truncated_log_ends_there(log: LogModel, last: StoredLogId, keys: Seq<Vec<u8>>)
    requires
        is_scan_from(log, keys, 0),
        last.index < u64::MAX,
        log.entries.dom().contains(bytes::u64_be(last.index)),
    ensures
        ends_with(log_store::truncated(log, Some(last), keys), last),
{
    let after = log_store::truncated(log, Some(last), keys);
    assert forall|index: u64| #[trigger]
        after.entries.dom().contains(bytes::u64_be(index)) implies index <= last.index by {
        law_truncation_keeps_the_front(log, Some(last), keys, index);
    }
    law_truncation_keeps_the_front(log, Some(last), keys, last.index);
}

/// Appending names the last of the entries as the last one and changes nothing else that is
/// known of the log; appending nothing changes nothing.
pub proof fn law_appended_log_names_its_end(
    log: LogModel,
    records: Seq<LogRecord>,
    key: Seq<u8>,
)
    ensures
        records.len() == 0 ==> log_store::appended(log, records) == log,
        records.len() > 0 ==> knows(
            log_store::appended(log, records),
            log_store::last_key(),
            records[records.len() - 1].log_id@,
        ),
        key != log_store::last_key() ==> same_meta(log_store::appended(log, records), log, key),
{
}

/// A range holds an index exactly when its two ends say so; a range without an end stops
/// before the greatest index.
pub proof fn law_range_holds_what_its_ends_say(start: LogBound, end: LogBound, index: u64)
    ensures
        log_store::range_start(start) <= index <==> match start {
            LogBound::Included(first) => first <= index,
            LogBound::Excluded(before) => before < index,
            LogBound::Unbounded => true,
        },
        index < log_store::range_end(end) <==> match end {
            LogBound::Included(last) => index <= last,
            LogBound::Excluded(behind) => index < behind,
            LogBound::Unbounded => index != u64::MAX,
        },
{
}

/// A write changes one record, and leaves all others as they are: one that is put is there
/// with its value, one that is removed is not there any more.
pub proof fn law_log_write_changes_one_record(
    log: LogModel,
    key: Vec<u8>,
    value: Vec<u8>,
    other: Seq<u8>,
)
    requires
        other != key@,
    ensures
        ({
            let after = log_store::log_after(log, LogWrite::PutMeta { key, value });
            &&& after.meta.dom().contains(key@) && after.meta[key@] == value@
            &&& after.meta.dom().contains(other) == log.meta.dom().contains(other)
            &&& log.meta.dom().contains(other) ==> after.meta[other] == log.meta[other]
            &&& after.entries == log.entries
        }),
        ({
            let after = log_store::log_after(log, LogWrite::RemoveMeta { key });
            &&& !after.meta.dom().contains(key@)
            &&& after.meta.dom().contains(other) == log.meta.dom().contains(other)
            &&& log.meta.dom().contains(other) ==> after.meta[other] == log.meta[other]
            &&& after.entries == log.entries
        }),
        ({
            let after = log_store::log_after(log, LogWrite::PutEntry { key, value });
            &&& after.entries.dom().contains(key@) && after.entries[key@] == value@
            &&& after.entries.dom().contains(other) == log.entries.dom().contains(other)
            &&& log.entries.dom().contains(other) ==> after.entries[other] == log.entries[other]
            &&& after.meta == log.meta
        }),
        ({
            let after = log_store::log_after(log, LogWrite::RemoveEntry { key });
            &&& !after.entries.dom().contains(key@)
            &&& after.entries.dom().contains(other) == log.entries.dom().contains(other)
            &&& log.entries.dom().contains(other) ==> after.entries[other] == log.entries[other]
            &&& after.meta == log.meta
        }),
{
}

} // verus!
