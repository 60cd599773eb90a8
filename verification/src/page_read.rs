//! Reading a file out of its stored pages, and setting its size outside a batch.

use vstd::prelude::*;

use crate::bytes;
use crate::bytes::u64_to_be_bytes;
use crate::dirty_page::SQLITE_PAGE_SIZE;
use crate::file_model;
use crate::page_batch;
use crate::page_batch::append_page_deletes;
use crate::page_batch::find_page;
use crate::page_batch::StoreWrite;
use crate::page_batch::StoredPage;
use crate::page_batch::WriteModel;
use crate::page_keys;
use crate::page_keys::current_page_key_from_file_prefix;
use crate::page_keys::size_key_from_file_prefix;
use crate::page_law;

verus! {

/// The number of bytes that a read gives: none at or behind the end of the file.
pub open spec fn readable(size: int, offset: int, wanted: int) -> int {
    if offset >= size {
        0
    } else if wanted < size - offset {
        wanted
    } else {
        size - offset
    }
}

/// One byte of a file among stored pages; what is not there reads as zero.
pub open spec fn stored_byte(pages: Seq<StoredPage>, i: int) -> u8 {
    let page = page_batch::page_bytes(pages, i / SQLITE_PAGE_SIZE as int);
    if i % (SQLITE_PAGE_SIZE as int) < page.len() {
        page[i % SQLITE_PAGE_SIZE as int]
    } else {
        0u8
    }
}

/// The pages that a read touches: the first, and how many.
pub fn pages_spanned(size: u64, offset: u64, wanted: usize) -> (span: (u64, u64))
    ensures
        readable(size as int, offset as int, wanted as int) == 0 ==> span.1 == 0,
        readable(size as int, offset as int, wanted as int) > 0 ==> forall|i: int|
            offset <= i < offset + readable(size as int, offset as int, wanted as int) ==> span.0
                <= #[trigger] (i / SQLITE_PAGE_SIZE as int) < span.0 + span.1,
        readable(size as int, offset as int, wanted as int) > 0 ==> span.0 == offset as int
            / SQLITE_PAGE_SIZE as int && span.0 + span.1 == (offset + readable(
            size as int,
            offset as int,
            wanted as int,
        ) - 1) / SQLITE_PAGE_SIZE as int + 1,
{
    if offset >= size || wanted == 0 {
        return (0, 0);
    }
    let left: u64 = size - offset;
    let len: u64 = if (wanted as u64) < left {
        wanted as u64
    } else {
        left
    };
    let unit: u64 = SQLITE_PAGE_SIZE as u64;
    let first: u64 = offset / unit;
    let last: u64 = (offset + (len - 1)) / unit;
    assert(first <= last) by (nonlinear_arith)
        requires
            unit == 16384,
            len >= 1,
            first == offset as int / unit as int,
            last == (offset + (len - 1)) / unit as int,
    ;
    assert(last < u64::MAX) by (nonlinear_arith)
        requires
            unit == 16384,
            last == (offset + (len - 1)) / unit as int,
            offset + (len - 1) <= u64::MAX,
    ;
    assert forall|i: int| offset <= i < offset + len implies first <= #[trigger] (i / unit as int)
        < first + (last - first + 1) by {
        assert(first <= i / unit as int <= last) by (nonlinear_arith)
            requires
                unit == 16384,
                offset <= i <= offset + (len - 1),
                first == offset as int / unit as int,
                last == (offset + (len - 1)) / unit as int,
        ;
    }
    (first, last - first + 1)
}

/// Reads up to `wanted` bytes at `offset` of a file of the given size.
pub fn read_pages(pages: &Vec<StoredPage>, size: u64, offset: u64, wanted: usize) -> (read: Vec<u8>)
    ensures
        read@ == Seq::new(
            readable(size as int, offset as int, wanted as int) as nat,
            |k: int| stored_byte(pages@, offset + k),
        ),
{
    let mut read: Vec<u8> = Vec::new();
    if offset >= size {
        assert(read@ =~= Seq::new(0, |k: int| stored_byte(pages@, offset + k)));
        return read;
    }
    let left: u64 = size - offset;
    let len: usize = if (wanted as u64) < left {
        wanted
    } else {
        left as usize
    };
    let unit: u64 = SQLITE_PAGE_SIZE as u64;
    while read.len() < len
        invariant
            read.len() <= len,
            unit == SQLITE_PAGE_SIZE,
            offset + len <= size,
            forall|k: int| 0 <= k < read@.len() ==> #[trigger] read@[k] == stored_byte(
                pages@,
                offset + k,
            ),
        decreases len - read.len(),
    {
        let copied: usize = read.len();
        let absolute: u64 = offset + copied as u64;
        let index: u64 = absolute / unit;
        let page_offset: usize = (absolute % unit) as usize;
        let room: usize = SQLITE_PAGE_SIZE - page_offset;
        let count: usize = if len - copied < room {
            len - copied
        } else {
            room
        };
        let found: Option<usize> = find_page(pages, index);
        let ghost page = page_batch::page_bytes(pages@, index as int);
        let available: usize = match found {
            Some(at) => pages[at].bytes.len(),
            None => 0,
        };
        assert(available == page.len());
        let mut k: usize = 0;
        while k < count
            invariant
                k <= count,
                read@.len() == copied + k,
                copied + count <= len,
                page_offset + count <= SQLITE_PAGE_SIZE,
                absolute == offset + copied,
                index == absolute as int / SQLITE_PAGE_SIZE as int,
                page_offset == absolute as int % SQLITE_PAGE_SIZE as int,
                page == page_batch::page_bytes(pages@, index as int),
                available == page.len(),
                found matches Some(at) ==> at < pages.len() && pages@[at as int].bytes@ == page,
                found is None ==> page.len() == 0,
                forall|j: int| 0 <= j < read@.len() ==> #[trigger] read@[j] == stored_byte(
                    pages@,
                    offset + j,
                ),
            decreases count - k,
        {
            let at: usize = page_offset + k;
            let byte: u8 = if at < available {
                match found {
                    Some(position) => pages[position].bytes[at],
                    None => 0,
                }
            } else {
                0
            };
            proof {
                let i = absolute + k;
                assert(i / SQLITE_PAGE_SIZE as int == index && i % SQLITE_PAGE_SIZE as int == at)
                    by (nonlinear_arith)
                    requires
                        SQLITE_PAGE_SIZE == 16384,
                        i == absolute + k,
                        index == absolute as int / SQLITE_PAGE_SIZE as int,
                        page_offset == absolute as int % SQLITE_PAGE_SIZE as int,
                        at == page_offset + k,
                        at < SQLITE_PAGE_SIZE,
                ;
                assert(byte == stored_byte(pages@, offset + (copied + k)));
            }
            read.push(byte);
            k = k + 1;
        }
    }
    assert(read@ =~= Seq::new(len as nat, |k: int| stored_byte(pages@, offset + k)));
    read
}

/// Reading a whole file out of its pages gives the bytes of the file.
pub proof fn law_read_gives_the_file(
    store: Map<Seq<u8>, Seq<u8>>,
    file_prefix: Seq<u8>,
    pages: Seq<StoredPage>,
    offset: int,
    wanted: int,
)
    requires
        page_law::file_is_there(store, file_prefix),
        offset >= 0,
        wanted >= 0,
        forall|page: int| #[trigger]
            page_batch::page_bytes(pages, page) == page_law::page_or_empty(
                page_law::file_pages(store, file_prefix),
                page,
            ),
    ensures
        ({
            let size = page_law::file_size(store, file_prefix);
            let len = readable(size, offset, wanted);
            Seq::new(len as nat, |k: int| stored_byte(pages, offset + k)) == (if len == 0 {
                Seq::empty()
            } else {
                page_law::file_content(store, file_prefix)->0.subrange(offset, offset + len)
            })
        }),
{
    let size = page_law::file_size(store, file_prefix);
    let len = readable(size, offset, wanted);
    let read = Seq::new(len as nat, |k: int| stored_byte(pages, offset + k));
    if len == 0 {
        assert(read =~= Seq::empty());
    } else {
        let content = page_law::file_content(store, file_prefix)->0;
        assert forall|k: int| 0 <= k < len implies read[k] == content.subrange(
            offset,
            offset + len,
        )[k] by {
            let i = offset + k;
            assert(page_batch::page_bytes(pages, i / SQLITE_PAGE_SIZE as int)
                == page_law::page_or_empty(
                page_law::file_pages(store, file_prefix),
                i / SQLITE_PAGE_SIZE as int,
            ));
            assert(content[i] == page_law::byte_at(page_law::file_pages(store, file_prefix), i));
        }
        assert(read =~= content.subrange(offset, offset + len));
    }
}

/// The stored page that setting a size has to see.
pub fn resize_page_needed(old_size: u64, new_size: u64) -> (needed: Option<u64>)
    ensures
        needed == (if new_size < old_size && new_size % SQLITE_PAGE_SIZE as u64 != 0 {
            Some((new_size / SQLITE_PAGE_SIZE as u64) as u64)
        } else {
            None
        }),
        needed matches Some(page) ==> new_size < old_size && page * SQLITE_PAGE_SIZE < new_size < (
        page + 1) * SQLITE_PAGE_SIZE,
        needed is None ==> new_size >= old_size || new_size as int % SQLITE_PAGE_SIZE as int == 0,
{
    proof {
        vstd::arithmetic::div_mod::lemma_fundamental_div_mod(
            new_size as int,
            SQLITE_PAGE_SIZE as int,
        );
    }
    let unit: u64 = SQLITE_PAGE_SIZE as u64;
    if new_size < old_size && new_size % unit != 0 {
        Some(new_size / unit)
    } else {
        None
    }
}

/// The writes that set a file's size; `page` is the stored page that the new end
/// goes through.
pub open spec fn resize_writes(
    file_prefix: Seq<u8>,
    old_size: u64,
    new_size: u64,
    page: Seq<u8>,
    stored_keys: Seq<Seq<u8>>,
) -> Seq<WriteModel> {
    let rest = new_size as int % SQLITE_PAGE_SIZE as int;
    seq![
        WriteModel {
            key: page_keys::size_key_of(file_prefix),
            value: Some(bytes::u64_be(new_size)),
        },
    ] + (if new_size >= old_size {
        Seq::empty()
    } else {
        (if rest == 0 {
            Seq::empty()
        } else {
            seq![
                WriteModel {
                    key: page_keys::current_key_of(
                        file_prefix,
                        (new_size as int / SQLITE_PAGE_SIZE as int) as u64,
                    ),
                    value: Some(
                        if rest < page.len() {
                            page.take(rest)
                        } else {
                            page
                        },
                    ),
                },
            ]
        }) + page_batch::removal_writes(
            stored_keys,
            file_prefix,
            Some(page_batch::page_count(new_size as int)),
        )
    })
}

/// Gives the writes that set a file's size.
pub fn plan_resize(
    file_prefix: &[u8],
    old_size: u64,
    new_size: u64,
    page: Vec<u8>,
    stored_keys: &Vec<Vec<u8>>,
) -> (writes: Vec<StoreWrite>)
    ensures
        page_batch::write_models(writes@) == resize_writes(
            file_prefix@,
            old_size,
            new_size,
            page@,
            page_batch::key_models(stored_keys@),
        ),
{
    let mut writes: Vec<StoreWrite> = Vec::new();
    writes.push(
        StoreWrite::Put {
            key: size_key_from_file_prefix(file_prefix),
            value: u64_to_be_bytes(new_size),
        },
    );
    if new_size < old_size {
        let unit: u64 = SQLITE_PAGE_SIZE as u64;
        let last: u64 = new_size / unit;
        let rest: usize = (new_size % unit) as usize;
        let keep: u64 = if rest == 0 {
            last
        } else {
            last + 1
        };
        proof {
            page_law::lemma_page_count(new_size as int);
        }
        if rest != 0 {
            let mut kept: Vec<u8> = page;
            kept.truncate(rest);
            proof {
                if rest < page@.len() {
                    assert(kept@ =~= page@.take(rest as int));
                } else {
                    assert(kept@ =~= page@);
                }
            }
            writes.push(
                StoreWrite::Put {
                    key: current_page_key_from_file_prefix(file_prefix, last),
                    value: kept,
                },
            );
        }
        append_page_deletes(&mut writes, file_prefix, stored_keys, keep);
    }
    assert(page_batch::write_models(writes@) =~= resize_writes(
        file_prefix@,
        old_size,
        new_size,
        page@,
        page_batch::key_models(stored_keys@),
    ));
    writes
}

/// Gives the writes that remove a file: its size and all its pages.
pub fn plan_delete(file_prefix: &[u8], stored_keys: &Vec<Vec<u8>>) -> (writes: Vec<StoreWrite>)
    ensures
        page_batch::write_models(writes@) == seq![
            WriteModel { key: page_keys::size_key_of(file_prefix@), value: None },
        ] + page_batch::removal_writes(page_batch::key_models(stored_keys@), file_prefix@, Some(0)),
{
    let mut writes: Vec<StoreWrite> = Vec::new();
    writes.push(StoreWrite::Delete { key: size_key_from_file_prefix(file_prefix) });
    append_page_deletes(&mut writes, file_prefix, stored_keys, 0);
    assert(page_batch::write_models(writes@) =~= seq![
        WriteModel { key: page_keys::size_key_of(file_prefix@), value: None },
    ] + page_batch::removal_writes(page_batch::key_models(stored_keys@), file_prefix@, Some(0)));
    writes
}

/// Setting a file's size makes it read as cut or filled with zeros.
pub proof fn law_resize_reads_as_it_says(
    store: Map<Seq<u8>, Seq<u8>>,
    file_prefix: Seq<u8>,
    new_size: u64,
    keys: Seq<Seq<u8>>,
)
    requires
        page_law::file_is_sound(store, file_prefix),
        page_law::lists_page_keys(store, file_prefix, keys),
        page_law::file_size(store, file_prefix) <= u64::MAX,
    ensures
        ({
            let old_size = page_law::file_size(store, file_prefix) as u64;
            let page = page_law::page_or_empty(
                page_law::file_pages(store, file_prefix),
                new_size as int / SQLITE_PAGE_SIZE as int,
            );
            let after = page_batch::store_after_all(
                store,
                resize_writes(file_prefix, old_size, new_size, page, keys),
            );
            &&& page_law::file_content(after, file_prefix) == file_model::content_after(
                page_law::file_content(store, file_prefix),
                file_model::FileOp::Truncate { size: new_size as int },
            )
            &&& page_law::file_is_sound(after, file_prefix)
        }),
{
    let stored = page_law::file_pages(store, file_prefix);
    let old_size = page_law::file_size(store, file_prefix) as u64;
    let last = new_size as int / SQLITE_PAGE_SIZE as int;
    let rest = new_size as int % SQLITE_PAGE_SIZE as int;
    let page = page_law::page_or_empty(stored, last);
    let writes = resize_writes(file_prefix, old_size, new_size, page, keys);
    let after = page_batch::store_after_all(store, writes);
    let size_key = page_keys::size_key_of(file_prefix);
    let keep = page_batch::page_count(new_size as int);
    page_law::lemma_page_count(new_size as int);
    page_keys::law_records_of_a_file_are_apart(file_prefix, 0, 0);
    let removals = page_batch::removal_writes(keys, file_prefix, Some(keep));
    assert forall|i: int| 0 < i < writes.len() implies (#[trigger] writes[i]).key != size_key by {
        let head = if rest == 0 {
            1int
        } else {
            2int
        };
        if i < head {
            page_keys::law_records_of_a_file_are_apart(file_prefix, last as u64, 0);
        } else {
            assert(writes[i] == removals[i - head]);
            page_law::lemma_removal_keys(keys, file_prefix, Some(keep), size_key);
        }
    }
    page_law::lemma_store_after_last(store, writes, 0);
    bytes::lemma_u64_be_round_trip(new_size);
    assert(page_law::file_size(after, file_prefix) == new_size);
    let pages_after = page_law::file_pages(after, file_prefix);
    assert forall|p: int, at: int|
        p >= 0 && 0 <= at < SQLITE_PAGE_SIZE implies #[trigger] page_law::byte_in_page(
        pages_after,
        p,
        at,
    ) == (if p * SQLITE_PAGE_SIZE + at < new_size {
        page_law::byte_in_page(stored, p, at)
    } else {
        0
    }) by {
        page_law::lemma_cut_position(new_size as int, p, at);
        if p <= u64::MAX {
            let key = page_keys::current_key_of(file_prefix, p as u64);
            page_keys::law_records_of_a_file_are_apart(file_prefix, p as u64, 0);
            if new_size >= old_size {
                page_law::lemma_store_after_lookup(store, writes, key);
                if p * SQLITE_PAGE_SIZE + at >= new_size {
                    assert(page_law::byte_in_page(stored, p, at) == 0);
                }
            } else {
                let head = writes.take(writes.len() - removals.len());
                assert(writes =~= head + removals);
                page_law::lemma_store_after_concat(store, head, removals);
                let middle = page_batch::store_after_all(store, head);
                assert(page_law::lists_page_keys_from(middle, file_prefix, keys, keep)) by {
                    assert forall|k: Seq<u8>|
                        middle.dom().contains(k) && page_batch::is_page_from(
                            file_prefix,
                            k,
                            keep,
                        ) implies #[trigger] keys.contains(k) by {
                        assert forall|i: int| 0 <= i < head.len() implies (
                        #[trigger] head[i]).key != k by {
                            if i == 1 {
                                page_keys::law_page_key_names_its_page(
                                    file_prefix,
                                    last as u64,
                                    last as u64,
                                );
                            }
                        }
                        page_law::lemma_store_after_lookup(store, head, k);
                    }
                }
                lemma_page_after_removal_from(middle, file_prefix, keys, keep, p as u64);
                if rest != 0 && p == last {
                    page_law::lemma_store_after_last(store, head, 1);
                } else {
                    assert forall|i: int| 0 <= i < head.len() implies (#[trigger] head[i]).key
                        != key by {
                        if i == 1 {
                            page_keys::law_page_key_names_its_page(
                                file_prefix,
                                last as u64,
                                p as u64,
                            );
                        }
                    }
                    page_law::lemma_store_after_lookup(store, head, key);
                }
            }
        } else {
            assert(p * SQLITE_PAGE_SIZE + at >= new_size);
        }
    }
    let content = match page_law::file_content(store, file_prefix) {
        Some(known) => known,
        None => Seq::empty(),
    };
    let wanted = file_model::resized(content, new_size as int);
    let got = page_law::file_content(after, file_prefix)->0;
    assert forall|i: int| 0 <= i < new_size implies got[i] == wanted[i] by {
        let p = i / SQLITE_PAGE_SIZE as int;
        let at = i % SQLITE_PAGE_SIZE as int;
        assert(p * SQLITE_PAGE_SIZE + at == i);
        assert(page_law::byte_in_page(pages_after, p, at) == page_law::byte_in_page(stored, p, at));
        if i >= content.len() {
            assert(page_law::byte_in_page(stored, p, at) == 0);
        }
    }
    assert(got =~= wanted);
}

/// What a page record holds after the page records from `first` on were removed.
proof fn lemma_page_after_removal_from(
    store: Map<Seq<u8>, Seq<u8>>,
    file_prefix: Seq<u8>,
    keys: Seq<Seq<u8>>,
    first: int,
    page: u64,
)
    requires
        page_law::lists_page_keys_from(store, file_prefix, keys, first),
    ensures
        ({
            let key = page_keys::current_key_of(file_prefix, page);
            let after = page_batch::store_after_all(
                store,
                page_batch::removal_writes(keys, file_prefix, Some(first)),
            );
            &&& after.dom().contains(key) == (store.dom().contains(key) && page < first)
            &&& after.dom().contains(key) ==> after[key] == store[key]
        }),
{
    let key = page_keys::current_key_of(file_prefix, page);
    let removals = page_batch::removal_writes(keys, file_prefix, Some(first));
    page_keys::law_page_key_names_its_page(file_prefix, page, page);
    page_law::lemma_removal_keys(keys, file_prefix, Some(first), key);
    if keys.contains(key) && page >= first {
        page_law::lemma_removed_key(store, removals, key);
    } else {
        page_law::lemma_store_after_lookup(store, removals, key);
    }
}

/// Removing a file leaves no file, and no page of it.
pub proof fn law_delete_leaves_no_file(
    store: Map<Seq<u8>, Seq<u8>>,
    file_prefix: Seq<u8>,
    keys: Seq<Seq<u8>>,
)
    requires
        page_law::lists_page_keys(store, file_prefix, keys),
    ensures
        ({
            let after = page_batch::store_after_all(
                store,
                seq![WriteModel { key: page_keys::size_key_of(file_prefix), value: None }]
                    + page_batch::removal_writes(keys, file_prefix, Some(0)),
            );
            &&& page_law::file_content(after, file_prefix) is None
            &&& page_law::file_pages(after, file_prefix).dom() =~= Set::<int>::empty()
            &&& page_law::file_is_sound(after, file_prefix)
        }),
{
    let first = seq![WriteModel { key: page_keys::size_key_of(file_prefix), value: None }];
    let removals = page_batch::removal_writes(keys, file_prefix, Some(0));
    let after = page_batch::store_after_all(store, first + removals);
    let size_key = page_keys::size_key_of(file_prefix);
    page_law::lemma_store_after_concat(store, first, removals);
    let middle = page_batch::store_after_all(store, first);
    page_keys::law_records_of_a_file_are_apart(file_prefix, 0, 0);
    page_law::lemma_removal_keys(keys, file_prefix, Some(0), size_key);
    page_law::lemma_store_after_lookup(middle, removals, size_key);
    page_law::lemma_store_after_last(store, first, 0);
    assert(page_law::lists_page_keys_from(middle, file_prefix, keys, 0)) by {
        assert forall|k: Seq<u8>|
            middle.dom().contains(k) && page_batch::is_page_from(
                file_prefix,
                k,
                0,
            ) implies #[trigger] keys.contains(k) by {
            page_law::lemma_store_after_lookup(store, first, k);
        }
    }
    assert forall|p: int| !#[trigger] page_law::file_pages(after, file_prefix).dom().contains(p) by {
        if 0 <= p <= u64::MAX {
            lemma_page_after_removal_from(middle, file_prefix, keys, 0, p as u64);
        }
    }
}

} // verus!
