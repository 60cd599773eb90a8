//! A bounded cache of pages that were read, oldest out first.

use vstd::prelude::*;

use crate::bytes::str_equal;

verus! {

/// How many pages the cache holds.
pub const SQLITE_READ_PAGE_CACHE_CAPACITY: usize = 256;

#[derive(Debug)]
struct CachedPage {
    path: String,
    page_index: u64,
    version: Option<u64>,
    bytes: Vec<u8>,
}

/// Which page of a file, as of which version.
#[verifier::ext_equal]
pub struct CacheKey {
    pub path: Seq<char>,
    pub page_index: u64,
    pub version: Option<u64>,
}

/// Pages that were read, in the order in which they came.
#[derive(Debug)]
pub struct ReadPageCache {
    pages: Vec<CachedPage>,
}

/// The position of a page in the order.
pub open spec fn cache_position(cached: Seq<(CacheKey, Seq<u8>)>, key: CacheKey) -> Option<int> {
    if exists|i: int| 0 <= i < cached.len() && (#[trigger] cached[i]).0 == key {
        Some(choose|i: int| 0 <= i < cached.len() && (#[trigger] cached[i]).0 == key)
    } else {
        None
    }
}

/// The cache after a page was added: a page that is there is replaced in its place; a
/// new one comes last and, where there is no room, drives the oldest out.
pub open spec fn cache_after_insert(
    cached: Seq<(CacheKey, Seq<u8>)>,
    key: CacheKey,
    bytes: Seq<u8>,
) -> Seq<(CacheKey, Seq<u8>)> {
    match cache_position(cached, key) {
        Some(at) => cached.update(at, (key, bytes)),
        None => if cached.len() < SQLITE_READ_PAGE_CACHE_CAPACITY {
            cached.push((key, bytes))
        } else {
            cached.push((key, bytes)).skip(1)
        },
    }
}

impl View for ReadPageCache {
    type V = Seq<(CacheKey, Seq<u8>)>;

    closed spec fn view(&self) -> Seq<(CacheKey, Seq<u8>)> {
        Seq::new(self.pages@.len(), |i: int| (page_key(self.pages@[i]), self.pages@[i].bytes@))
    }
}

spec fn page_key(page: CachedPage) -> CacheKey {
    CacheKey { path: page.path@, page_index: page.page_index, version: page.version }
}

impl ReadPageCache {
    /// Whether no page is there twice and the cache is within its bounds.
    pub open spec fn wf(&self) -> bool {
        &&& self@.len() <= SQLITE_READ_PAGE_CACHE_CAPACITY
        &&& forall|a: int, b: int| 0 <= a < b < self@.len() ==> self@[a].0 != self@[b].0
    }

    /// An empty cache.
    pub fn new() -> (cache: ReadPageCache)
        ensures
            cache.wf(),
            cache@ == Seq::<(CacheKey, Seq<u8>)>::empty(),
    {
        let cache = ReadPageCache { pages: Vec::new() };
        assert(cache@ =~= Seq::<(CacheKey, Seq<u8>)>::empty());
        cache
    }

    fn find(&self, path: &str, page_index: u64, version: Option<u64>) -> (found: Option<usize>)
        requires
            self.wf(),
        ensures
            found matches Some(at) ==> at < self.pages@.len() && cache_position(
                self@,
                (CacheKey { path: path@, page_index, version }),
            ) == Some(at as int) && self@[at as int].0 == (CacheKey {
                path: path@,
                page_index,
                version,
            }),
            found is None ==> cache_position(
                self@,
                (CacheKey { path: path@, page_index, version }),
            ) is None,
    {
        let ghost key = CacheKey { path: path@, page_index, version };
        let mut i: usize = 0;
        while i < self.pages.len()
            invariant
                i <= self.pages.len(),
                self.wf(),
                key == (CacheKey { path: path@, page_index, version }),
                forall|k: int| 0 <= k < i ==> (#[trigger] self@[k]).0 != key,
            decreases self.pages.len() - i,
        {
            let page: &CachedPage = &self.pages[i];
            let same_version: bool = match (page.version, version) {
                (Some(a), Some(b)) => a == b,
                (None, None) => true,
                _ => false,
            };
            if page.page_index == page_index && same_version && str_equal(page.path.as_str(), path) {
                assert(self@[i as int].0 == key);
                return Some(i);
            }
            assert(self@[i as int].0 != key);
            i = i + 1;
        }
        None
    }

    /// A cached page.
    pub fn get(&self, path: &str, page_index: u64, version: Option<u64>) -> (bytes: Option<&Vec<u8>>)
        requires
            self.wf(),
        ensures
            bytes is Some <==> cache_position(
                self@,
                (CacheKey { path: path@, page_index, version }),
            ) is Some,
            bytes matches Some(held) ==> held@ == self@[cache_position(
                self@,
                (CacheKey { path: path@, page_index, version }),
            )->0].1,
    {
        match self.find(path, page_index, version) {
            Some(at) => Some(&self.pages[at].bytes),
            None => None,
        }
    }

    /// Adds a page.
    pub fn insert(&mut self, path: &str, page_index: u64, version: Option<u64>, bytes: Vec<u8>)
        requires
            old(self).wf(),
        ensures
            final(self).wf(),
            final(self)@ == cache_after_insert(
                old(self)@,
                (CacheKey { path: path@, page_index, version }),
                bytes@,
            ),
    {
        let ghost before = self@;
        let ghost key = CacheKey { path: path@, page_index, version };
        let ghost held = bytes@;
        match self.find(path, page_index, version) {
            Some(at) => {
                self.pages.set(at, CachedPage { path: path.to_owned(), page_index, version, bytes });
                assert(self@ =~= before.update(at as int, (key, held)));
            },
            None => {
                self.pages.push(CachedPage { path: path.to_owned(), page_index, version, bytes });
                assert(self@ =~= before.push((key, held)));
                proof {
                    assert forall|a: int| 0 <= a < before.len() implies (#[trigger] before[a]).0
                        != key by {}
                }
                if self.pages.len() > SQLITE_READ_PAGE_CACHE_CAPACITY {
                    let ghost full = self@;
                    let _evicted: CachedPage = self.pages.remove(0);
                    assert(self@ =~= full.skip(1));
                }
            },
        }
    }

    /// Empties the cache.
    pub fn clear(&mut self)
        ensures
            final(self).wf(),
            final(self)@ == Seq::<(CacheKey, Seq<u8>)>::empty(),
    {
        self.pages = Vec::new();
        assert(self@ =~= Seq::<(CacheKey, Seq<u8>)>::empty());
    }
}

/// A page that was just added is there, with the bytes that it was added with.
pub proof fn law_inserted_page_is_cached(
    cached: Seq<(CacheKey, Seq<u8>)>,
    key: CacheKey,
    bytes: Seq<u8>,
)
    requires
        cached.len() <= SQLITE_READ_PAGE_CACHE_CAPACITY,
        forall|a: int, b: int| 0 <= a < b < cached.len() ==> cached[a].0 != cached[b].0,
    ensures
        ({
            let after = cache_after_insert(cached, key, bytes);
            &&& after.len() <= SQLITE_READ_PAGE_CACHE_CAPACITY
            &&& cache_position(after, key) is Some
            &&& after[cache_position(after, key)->0].1 == bytes
        }),
{
    let after = cache_after_insert(cached, key, bytes);
    match cache_position(cached, key) {
        Some(at) => {
            assert(after[at].0 == key);
            let found = cache_position(after, key)->0;
            assert(after[found].0 == key);
            if found != at {
                assert(cached[found].0 == key);
            }
        },
        None => {
            let last = after.len() - 1;
            assert(after[last] == (key, bytes));
            let found = cache_position(after, key)->0;
            assert(after[found].0 == key);
            if found != last {
                let shift: int = if cached.len() < SQLITE_READ_PAGE_CACHE_CAPACITY {
                    0
                } else {
                    1
                };
                assert(cached[found + shift].0 == key);
            }
        },
    }
}

} // verus!
