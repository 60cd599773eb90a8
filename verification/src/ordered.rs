//! Ordered collections of byte strings: records, keys and ranges of pages.

use vstd::prelude::*;

use crate::bytes;
use crate::bytes::bytes_equal;
use crate::bytes::bytes_less;

verus! {

/// A record of a page store.
#[derive(Debug, Clone, PartialEq, Eq)]
pub struct SqliteDatabasePageSyncEntry {
    pub key: Vec<u8>,
    pub value: Vec<u8>,
}

/// The pages of a file from `first_page` on.
#[derive(Debug, Clone, PartialEq, Eq, PartialOrd, Ord)]
pub struct SqliteCurrentPageDeleteRange {
    pub current_pages_prefix: Vec<u8>,
    pub first_page: u64,
}

/// Whether records are in ascending order of their keys, each key once.
pub open spec fn ordered_entries(entries: Seq<SqliteDatabasePageSyncEntry>) -> bool {
    forall|a: int, b: int|
        0 <= a < b < entries.len() ==> bytes::lex_less(entries[a].key@, entries[b].key@)
}

/// Whether a record with this key is there.
pub open spec fn has_key(entries: Seq<SqliteDatabasePageSyncEntry>, key: Seq<u8>) -> bool {
    exists|k: int| 0 <= k < entries.len() && (#[trigger] entries[k]).key@ == key
}

/// The position of the record with this key.
pub open spec fn key_position(entries: Seq<SqliteDatabasePageSyncEntry>, key: Seq<u8>) -> int {
    choose|k: int| 0 <= k < entries.len() && (#[trigger] entries[k]).key@ == key
}

/// The records by key.
pub open spec fn entry_map(entries: Seq<SqliteDatabasePageSyncEntry>) -> Map<Seq<u8>, Seq<u8>> {
    Map::new(
        |key: Seq<u8>| has_key(entries, key),
        |key: Seq<u8>| entries[key_position(entries, key)].value@,
    )
}

/// The record at a position is the one that the map holds.
pub proof fn lemma_entry_map(entries: Seq<SqliteDatabasePageSyncEntry>, k: int)
    requires
        ordered_entries(entries),
        0 <= k < entries.len(),
    ensures
        entry_map(entries).dom().contains(entries[k].key@),
        entry_map(entries)[entries[k].key@] == entries[k].value@,
        key_position(entries, entries[k].key@) == k,
{
    let key = entries[k].key@;
    assert(has_key(entries, key));
    let at = key_position(entries, key);
    if at < k {
        bytes::lemma_lex_less_asymmetric(entries[at].key@, entries[k].key@);
    } else if k < at {
        bytes::lemma_lex_less_asymmetric(entries[k].key@, entries[at].key@);
    }
}

/// Ordered records are determined by what they hold.
pub proof fn law_ordered_entries_are_canonical(
    left: Seq<SqliteDatabasePageSyncEntry>,
    right: Seq<SqliteDatabasePageSyncEntry>,
    at: int,
)
    requires
        ordered_entries(left),
        ordered_entries(right),
        entry_map(left) == entry_map(right),
        0 <= at <= left.len(),
        0 <= at <= right.len(),
    ensures
        at < left.len() <==> at < right.len(),
        at < left.len() ==> left[at].key@ == right[at].key@ && left[at].value@ == right[at].value@,
    decreases at, 0int,
{
    if at > 0 {
        law_ordered_entries_are_canonical(left, right, at - 1);
    }
    if at < left.len() {
        lemma_entry_map(left, at);
        assert(has_key(right, left[at].key@));
        let r = key_position(right, left[at].key@);
        if r < at {
            lemma_matching_position(left, right, r);
            bytes::lemma_lex_less_asymmetric(left[r].key@, left[at].key@);
        }
        lemma_entry_map(right, r);
        if r > at {
            lemma_entry_map(right, at);
            assert(has_key(left, right[at].key@));
            let l = key_position(left, right[at].key@);
            if l < at {
                lemma_matching_position(left, right, l);
                bytes::lemma_lex_less_asymmetric(right[l].key@, right[at].key@);
            }
            if l > at {
                bytes::lemma_lex_less_transitive(
                    left[at].key@,
                    left[l].key@,
                    right[r].key@,
                );
                bytes::lemma_lex_less_asymmetric(left[at].key@, right[r].key@);
            }
        }
    }
    if at < right.len() && at >= left.len() {
        lemma_entry_map(right, at);
        assert(has_key(left, right[at].key@));
        let l = key_position(left, right[at].key@);
        lemma_matching_position(left, right, l);
        bytes::lemma_lex_less_asymmetric(right[l].key@, right[at].key@);
    }
}

proof fn lemma_matching_position(
    left: Seq<SqliteDatabasePageSyncEntry>,
    right: Seq<SqliteDatabasePageSyncEntry>,
    at: int,
)
    requires
        ordered_entries(left),
        ordered_entries(right),
        entry_map(left) == entry_map(right),
        0 <= at < left.len(),
        0 <= at < right.len(),
    ensures
        left[at].key@ == right[at].key@,
    decreases at, 1int,
{
    law_ordered_entries_are_canonical(left, right, at);
}

/// The first position whose key is not below `key`.
pub fn entry_slot(entries: &Vec<SqliteDatabasePageSyncEntry>, key: &[u8]) -> (at: usize)
    requires
        ordered_entries(entries@),
    ensures
        at <= entries.len(),
        forall|k: int| 0 <= k < at ==> bytes::lex_less((#[trigger] entries@[k]).key@, key@),
        forall|k: int| at <= k < entries@.len() ==> !bytes::lex_less((#[trigger] entries@[k]).key@, key@),
{
    let mut low: usize = 0;
    let mut high: usize = entries.len();
    while low < high
        invariant
            low <= high <= entries.len(),
            ordered_entries(entries@),
            forall|k: int| 0 <= k < low ==> bytes::lex_less((#[trigger] entries@[k]).key@, key@),
            forall|k: int|
                high <= k < entries@.len() ==> !bytes::lex_less((#[trigger] entries@[k]).key@, key@),
        decreases high - low,
    {
        let middle: usize = low + (high - low) / 2;
        if bytes_less(entries[middle].key.as_slice(), key) {
            proof {
                assert forall|k: int| 0 <= k <= middle implies bytes::lex_less(
                    (#[trigger] entries@[k]).key@,
                    key@,
                ) by {
                    if k < middle {
                        bytes::lemma_lex_less_transitive(
                            entries@[k].key@,
                            entries@[middle as int].key@,
                            key@,
                        );
                    }
                }
            }
            low = middle + 1;
        } else {
            proof {
                assert forall|k: int| middle <= k < entries@.len() implies !bytes::lex_less(
                    (#[trigger] entries@[k]).key@,
                    key@,
                ) by {
                    if k > middle && bytes::lex_less(entries@[k].key@, key@) {
                        bytes::lemma_lex_less_transitive(
                            entries@[middle as int].key@,
                            entries@[k].key@,
                            key@,
                        );
                    }
                }
            }
            high = middle;
        }
    }
    low
}

/// Looks a key up.
pub fn find_entry(entries: &Vec<SqliteDatabasePageSyncEntry>, key: &[u8]) -> (found: Option<usize>)
    requires
        ordered_entries(entries@),
    ensures
        found is Some <==> entry_map(entries@).dom().contains(key@),
        found matches Some(at) ==> at < entries.len() && entries@[at as int].key@ == key@
            && entries@[at as int].value@ == entry_map(entries@)[key@],
{
    let at: usize = entry_slot(entries, key);
    if at < entries.len() && bytes_equal(entries[at].key.as_slice(), key) {
        proof {
            lemma_entry_map(entries@, at as int);
        }
        Some(at)
    } else {
        proof {
            if has_key(entries@, key@) {
                let k = key_position(entries@, key@);
                lemma_lex_irreflexive(key@);
                if k > at {
                    assert(bytes::lex_less(entries@[at as int].key@, entries@[k].key@));
                }
            }
        }
        None
    }
}

proof fn lemma_lex_irreflexive(key: Seq<u8>)
    ensures
        !bytes::lex_less(key, key),
{
    if bytes::lex_less(key, key) {
        bytes::lemma_lex_less_asymmetric(key, key);
    }
}

/// Sets what a key holds.
pub fn put_entry(entries: &mut Vec<SqliteDatabasePageSyncEntry>, key: Vec<u8>, value: Vec<u8>)
    requires
        ordered_entries(old(entries)@),
    ensures
        ordered_entries(final(entries)@),
        entry_map(final(entries)@) == entry_map(old(entries)@).insert(key@, value@),
{
    let at: usize = entry_slot(entries, key.as_slice());
    let ghost before = entries@;
    let ghost wanted = entry_map(before).insert(key@, value@);
    if at < entries.len() && bytes_equal(entries[at].key.as_slice(), key.as_slice()) {
        proof {
            lemma_entry_map(before, at as int);
        }
        entries.set(at, SqliteDatabasePageSyncEntry { key, value });
        proof {
            let after = entries@;
            assert(ordered_entries(after)) by {
                assert forall|a: int, b: int| 0 <= a < b < after.len() implies bytes::lex_less(
                    after[a].key@,
                    after[b].key@,
                ) by {
                    assert(after[a].key@ == before[a].key@);
                    assert(after[b].key@ == before[b].key@);
                }
            }
            assert forall|k: Seq<u8>| #[trigger]
                entry_map(after).dom().contains(k) == wanted.dom().contains(k) && (
                wanted.dom().contains(k) ==> entry_map(after)[k] == wanted[k]) by {
                if has_key(after, k) {
                    let p = key_position(after, k);
                    assert(before[p].key@ == after[p].key@);
                    lemma_entry_map(after, p);
                    lemma_entry_map(before, p);
                }
                if has_key(before, k) {
                    let p = key_position(before, k);
                    assert(after[p].key@ == before[p].key@);
                }
                if k == key@ {
                    assert(after[at as int].key@ == k);
                }
            }
            assert(entry_map(after) =~= wanted);
        }
    } else {
        entries.insert(at, SqliteDatabasePageSyncEntry { key, value });
        proof {
            let after = entries@;
            assert forall|k: int| at <= k < before.len() implies bytes::lex_less(
                key@,
                (#[trigger] before[k]).key@,
            ) by {
                lemma_not_less(before, key@, at as int, k);
            }
            assert(ordered_entries(after)) by {
                assert forall|a: int, b: int| 0 <= a < b < after.len() implies bytes::lex_less(
                    after[a].key@,
                    after[b].key@,
                ) by {
                    if a < at && b > at {
                        assert(after[a] == before[a] && after[b] == before[b - 1]);
                    } else if a < at && b < at {
                        assert(after[a] == before[a] && after[b] == before[b]);
                    } else if a > at {
                        assert(after[a] == before[a - 1] && after[b] == before[b - 1]);
                    } else if a == at {
                        assert(after[b] == before[b - 1]);
                    } else {
                        assert(after[a] == before[a]);
                    }
                }
            }
            assert forall|k: Seq<u8>| #[trigger]
                entry_map(after).dom().contains(k) == wanted.dom().contains(k) && (
                wanted.dom().contains(k) ==> entry_map(after)[k] == wanted[k]) by {
                if has_key(after, k) {
                    let p = key_position(after, k);
                    lemma_entry_map(after, p);
                    if p < at {
                        assert(before[p] == after[p]);
                        lemma_entry_map(before, p);
                        lemma_lex_irreflexive(key@);
                    } else if p > at {
                        assert(before[p - 1] == after[p]);
                        lemma_entry_map(before, p - 1);
                        lemma_lex_irreflexive(key@);
                    }
                }
                if has_key(before, k) {
                    let p = key_position(before, k);
                    if p < at {
                        assert(after[p] == before[p]);
                    } else {
                        assert(after[p + 1] == before[p]);
                    }
                }
                if k == key@ {
                    assert(after[at as int].key@ == k);
                }
            }
            assert(entry_map(after) =~= wanted);
        }
    }
}

proof fn lemma_not_less(
    entries: Seq<SqliteDatabasePageSyncEntry>,
    key: Seq<u8>,
    at: int,
    k: int,
)
    requires
        ordered_entries(entries),
        0 <= at <= k < entries.len(),
        !bytes::lex_less(entries[at].key@, key),
        entries[at].key@ != key,
    ensures
        bytes::lex_less(key, entries[k].key@),
{
    bytes::lemma_lex_less_total(entries[at].key@, key);
    if at < k {
        bytes::lemma_lex_less_transitive(key, entries[at].key@, entries[k].key@);
    }
}

/// Whether keys are in ascending order, each once.
pub open spec fn ordered_keys(keys: Seq<Vec<u8>>) -> bool {
    forall|a: int, b: int| 0 <= a < b < keys.len() ==> bytes::lex_less(keys[a]@, keys[b]@)
}

/// Whether a key is there.
pub open spec fn lists_key(keys: Seq<Vec<u8>>, key: Seq<u8>) -> bool {
    exists|k: int| 0 <= k < keys.len() && (#[trigger] keys[k])@ == key
}

/// Adds a key.
pub fn put_key(keys: &mut Vec<Vec<u8>>, key: Vec<u8>)
    requires
        ordered_keys(old(keys)@),
    ensures
        ordered_keys(final(keys)@),
        forall|k: Seq<u8>| #[trigger]
            lists_key(final(keys)@, k) <==> lists_key(old(keys)@, k) || k == key@,
{
    let mut at: usize = keys.len();
    while at > 0 && bytes_less(key.as_slice(), keys[at - 1].as_slice())
        invariant
            at <= keys.len(),
            keys@ == old(keys)@,
            ordered_keys(keys@),
            forall|k: int| at <= k < keys@.len() ==> bytes::lex_less(key@, (#[trigger] keys@[k])@),
        decreases at,
    {
        at = at - 1;
    }
    let ghost before = keys@;
    if at > 0 && bytes_equal(keys[at - 1].as_slice(), key.as_slice()) {
        assert(before[at - 1]@ == key@);
        return;
    }
    keys.insert(at, key);
    proof {
        let after = keys@;
        if at > 0 {
            bytes::lemma_lex_less_total(before[at - 1]@, key@);
        }
        assert forall|a: int, b: int| 0 <= a < b < after.len() implies bytes::lex_less(
            after[a]@,
            after[b]@,
        ) by {
            if a < at && b == at {
                assert(after[a] == before[a]);
                if a < at - 1 {
                    bytes::lemma_lex_less_transitive(before[a]@, before[at - 1]@, key@);
                }
            } else if a < at && b < at {
                assert(after[a] == before[a] && after[b] == before[b]);
            } else if a < at {
                assert(after[a] == before[a] && after[b] == before[b - 1]);
            } else if a == at {
                assert(after[b] == before[b - 1]);
            } else {
                assert(after[a] == before[a - 1] && after[b] == before[b - 1]);
            }
        }
        assert forall|k: Seq<u8>| #[trigger] lists_key(after, k) <==> lists_key(before, k) || k
            == key@ by {
            if lists_key(after, k) {
                let p = choose|p: int| 0 <= p < after.len() && (#[trigger] after[p])@ == k;
                if p < at {
                    assert(before[p] == after[p]);
                } else if p > at {
                    assert(before[p - 1] == after[p]);
                }
            }
            if lists_key(before, k) {
                let p = choose|p: int| 0 <= p < before.len() && (#[trigger] before[p])@ == k;
                if p < at {
                    assert(after[p] == before[p]);
                } else {
                    assert(after[p + 1] == before[p]);
                }
            }
            if k == key@ {
                assert(after[at as int]@ == k);
            }
        }
    }
}

/// The order of page ranges: by prefix, then by first page.
pub open spec fn range_less(
    left: SqliteCurrentPageDeleteRange,
    right: SqliteCurrentPageDeleteRange,
) -> bool {
    bytes::lex_less(left.current_pages_prefix@, right.current_pages_prefix@) || (
    left.current_pages_prefix@ == right.current_pages_prefix@ && left.first_page
        < right.first_page)
}

/// Whether ranges are in ascending order, each once.
pub open spec fn ordered_ranges(ranges: Seq<SqliteCurrentPageDeleteRange>) -> bool {
    forall|a: int, b: int| 0 <= a < b < ranges.len() ==> range_less(ranges[a], ranges[b])
}

/// Whether a range is there.
pub open spec fn lists_range(
    ranges: Seq<SqliteCurrentPageDeleteRange>,
    prefix: Seq<u8>,
    first_page: u64,
) -> bool {
    exists|k: int|
        0 <= k < ranges.len() && (#[trigger] ranges[k]).current_pages_prefix@ == prefix
            && ranges[k].first_page == first_page
}

proof fn lemma_range_less_transitive(
    a: SqliteCurrentPageDeleteRange,
    b: SqliteCurrentPageDeleteRange,
    c: SqliteCurrentPageDeleteRange,
)
    requires
        range_less(a, b),
        range_less(b, c),
    ensures
        range_less(a, c),
{
    if bytes::lex_less(a.current_pages_prefix@, b.current_pages_prefix@) && bytes::lex_less(
        b.current_pages_prefix@,
        c.current_pages_prefix@,
    ) {
        bytes::lemma_lex_less_transitive(
            a.current_pages_prefix@,
            b.current_pages_prefix@,
            c.current_pages_prefix@,
        );
    }
}

fn range_before(left: &SqliteCurrentPageDeleteRange, right: &SqliteCurrentPageDeleteRange) -> (less:
    bool)
    ensures
        less == range_less(*left, *right),
{
    if bytes_less(left.current_pages_prefix.as_slice(), right.current_pages_prefix.as_slice()) {
        true
    } else {
        bytes_equal(
            left.current_pages_prefix.as_slice(),
            right.current_pages_prefix.as_slice(),
        ) && left.first_page < right.first_page
    }
}

/// Adds a range.
pub fn put_range(
    ranges: &mut Vec<SqliteCurrentPageDeleteRange>,
    range: SqliteCurrentPageDeleteRange,
)
    requires
        ordered_ranges(old(ranges)@),
    ensures
        ordered_ranges(final(ranges)@),
        forall|prefix: Seq<u8>, first_page: u64| #[trigger]
            lists_range(final(ranges)@, prefix, first_page) <==> lists_range(
                old(ranges)@,
                prefix,
                first_page,
            ) || (prefix == range.current_pages_prefix@ && first_page == range.first_page),
{
    let mut at: usize = ranges.len();
    while at > 0 && range_before(&range, &ranges[at - 1])
        invariant
            at <= ranges.len(),
            ranges@ == old(ranges)@,
            ordered_ranges(ranges@),
            forall|k: int| at <= k < ranges@.len() ==> range_less(range, #[trigger] ranges@[k]),
        decreases at,
    {
        at = at - 1;
    }
    let ghost before = ranges@;
    if at > 0 && !range_before(&ranges[at - 1], &range) {
        proof {
            bytes::lemma_lex_less_total(
                before[at - 1].current_pages_prefix@,
                range.current_pages_prefix@,
            );
            assert(before[at - 1].current_pages_prefix@ == range.current_pages_prefix@
                && before[at - 1].first_page == range.first_page);
        }
        return;
    }
    let ghost prefix_model = range.current_pages_prefix@;
    let ghost page_model = range.first_page;
    let ghost added = range;
    ranges.insert(at, range);
    proof {
        let after = ranges@;
        assert(after[at as int] == added);
        assert forall|a: int, b: int| 0 <= a < b < after.len() implies range_less(
            after[a],
            after[b],
        ) by {
            if a < at && b == at {
                assert(after[a] == before[a]);
                if a < at - 1 {
                    lemma_range_less_transitive(before[a], before[at - 1], added);
                }
            } else if a < at && b < at {
                assert(after[a] == before[a] && after[b] == before[b]);
            } else if a < at {
                assert(after[a] == before[a] && after[b] == before[b - 1]);
            } else if a == at {
                assert(after[b] == before[b - 1]);
            } else {
                assert(after[a] == before[a - 1] && after[b] == before[b - 1]);
            }
        }
        assert forall|prefix: Seq<u8>, first_page: u64| #[trigger]
            lists_range(after, prefix, first_page) <==> lists_range(before, prefix, first_page) || (
            prefix == prefix_model && first_page == page_model) by {
            if lists_range(after, prefix, first_page) {
                let p = choose|p: int|
                    0 <= p < after.len() && (#[trigger] after[p]).current_pages_prefix@ == prefix
                        && after[p].first_page == first_page;
                if p < at {
                    assert(before[p] == after[p]);
                } else if p > at {
                    assert(before[p - 1] == after[p]);
                }
            }
            if lists_range(before, prefix, first_page) {
                let p = choose|p: int|
                    0 <= p < before.len() && (#[trigger] before[p]).current_pages_prefix@ == prefix
                        && before[p].first_page == first_page;
                if p < at {
                    assert(after[p] == before[p]);
                } else {
                    assert(after[p + 1] == before[p]);
                }
            }
        }
    }
}

/// The UTF-8 bytes of a text.
pub open spec fn text_bytes(text: Seq<char>) -> Seq<u8> {
    vstd::utf8::encode_utf8(text)
}

/// Whether texts are in ascending order of their bytes, each once.
pub open spec fn ordered_texts(texts: Seq<String>) -> bool {
    forall|a: int, b: int|
        0 <= a < b < texts.len() ==> bytes::lex_less(text_bytes(texts[a]@), text_bytes(texts[b]@))
}

/// Whether a text is there.
pub open spec fn lists_text(texts: Seq<String>, text: Seq<char>) -> bool {
    exists|k: int| 0 <= k < texts.len() && (#[trigger] texts[k])@ == text
}

/// Adds a text.
pub fn put_text(texts: &mut Vec<String>, text: String)
    requires
        ordered_texts(old(texts)@),
    ensures
        ordered_texts(final(texts)@),
        forall|t: Seq<char>| #[trigger]
            lists_text(final(texts)@, t) <==> lists_text(old(texts)@, t) || t == text@,
{
    let mut at: usize = texts.len();
    while at > 0 && bytes_less(text.as_str().as_bytes(), texts[at - 1].as_str().as_bytes())
        invariant
            at <= texts.len(),
            texts@ == old(texts)@,
            ordered_texts(texts@),
            forall|k: int|
                at <= k < texts@.len() ==> bytes::lex_less(
                    text_bytes(text@),
                    text_bytes((#[trigger] texts@[k])@),
                ),
        decreases at,
    {
        at = at - 1;
    }
    let ghost before = texts@;
    if at > 0 && bytes_equal(texts[at - 1].as_str().as_bytes(), text.as_str().as_bytes()) {
        proof {
            vstd::utf8::encode_utf8_decode_utf8(before[at - 1]@);
            vstd::utf8::encode_utf8_decode_utf8(text@);
            assert(before[at - 1]@ == text@);
        }
        return;
    }
    let ghost added = text@;
    texts.insert(at, text);
    proof {
        let after = texts@;
        if at > 0 {
            bytes::lemma_lex_less_total(text_bytes(before[at - 1]@), text_bytes(added));
        }
        assert forall|a: int, b: int| 0 <= a < b < after.len() implies bytes::lex_less(
            text_bytes(after[a]@),
            text_bytes(after[b]@),
        ) by {
            if a < at && b == at {
                assert(after[a] == before[a]);
                if a < at - 1 {
                    bytes::lemma_lex_less_transitive(
                        text_bytes(before[a]@),
                        text_bytes(before[at - 1]@),
                        text_bytes(added),
                    );
                }
            } else if a < at && b < at {
                assert(after[a] == before[a] && after[b] == before[b]);
            } else if a < at {
                assert(after[a] == before[a] && after[b] == before[b - 1]);
            } else if a == at {
                assert(after[b] == before[b - 1]);
            } else {
                assert(after[a] == before[a - 1] && after[b] == before[b - 1]);
            }
        }
        assert forall|t: Seq<char>| #[trigger] lists_text(after, t) <==> lists_text(before, t) || t
            == added by {
            if lists_text(after, t) {
                let p = choose|p: int| 0 <= p < after.len() && (#[trigger] after[p])@ == t;
                if p < at {
                    assert(before[p] == after[p]);
                } else if p > at {
                    assert(before[p - 1] == after[p]);
                }
            }
            if lists_text(before, t) {
                let p = choose|p: int| 0 <= p < before.len() && (#[trigger] before[p])@ == t;
                if p < at {
                    assert(after[p] == before[p]);
                } else {
                    assert(after[p + 1] == before[p]);
                }
            }
            if t == added {
                assert(after[at as int]@ == t);
            }
        }
    }
}

} // verus!
