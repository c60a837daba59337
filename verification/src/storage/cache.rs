//! The page cache: a buffer pool between storage and the rest of the engine.
//! It holds pages in memory within a byte budget, evicts the least recently
//! used page to make room, and tracks dirty pages.
use crate::error::Result;
use crate::storage::page::{Page, PageId, PageView, PAGE_SIZE};
use std::collections::HashMap;
use vstd::prelude::*;

verus! {

broadcast use vstd::std_specs::hash::group_hash_axioms;

/// Eviction policy.
#[derive(Debug, Clone, Copy, PartialEq, Eq, Structural)]
pub enum EvictionPolicy {
    /// Least Recently Used
    LRU,
    /// First In First Out
    FIFO,
}

/// Page cache statistics.
#[derive(Debug)]
pub struct CacheStats {
    pub hits: u64,
    pub misses: u64,
    pub evictions: u64,
    pub dirty_pages: u64,
    pub pages_in_cache: usize,
}

/// Statistics with every count at zero.
pub open spec fn zero_stats() -> CacheStats {
    CacheStats { hits: 0, misses: 0, evictions: 0, dirty_pages: 0, pages_in_cache: 0 }
}

impl Clone for CacheStats {
    fn clone(&self) -> (r: Self)
        ensures
            r == *self,
    {
        CacheStats {
            hits: self.hits,
            misses: self.misses,
            evictions: self.evictions,
            dirty_pages: self.dirty_pages,
            pages_in_cache: self.pages_in_cache,
        }
    }
}

impl Default for CacheStats {
    fn default() -> (r: Self)
        ensures
            r == zero_stats(),
    {
        CacheStats { hits: 0, misses: 0, evictions: 0, dirty_pages: 0, pages_in_cache: 0 }
    }
}

/// A cached page with the number of times it was asked for.
struct CachedPage {
    page: Page,
    access_count: u64,
}

/// The content of a cache entry.
pub struct CachedPageView {
    pub page: PageView,
    pub access_count: u64,
}

/// The content of a page cache.
pub struct CacheView {
    /// The cached pages by page number.
    pub pages: Map<u32, CachedPageView>,
    /// The page numbers from least to most recently used.
    pub lru_order: Seq<u32>,
    pub max_bytes: usize,
    pub current_bytes: usize,
    pub stats: CacheStats,
    pub policy: EvictionPolicy,
}

/// What every cache keeps: the order of use lists each cached page once,
/// each page is filed under its own number, a cached page takes a page's
/// size of the budget, and the budget holds unless a single page exceeds it.
pub open spec fn cache_consistent(v: CacheView) -> bool {
    &&& v.lru_order.no_duplicates()
    &&& v.lru_order.to_set() == v.pages.dom()
    &&& v.pages.dom().finite()
    &&& v.lru_order.len() == v.pages.dom().len()
    &&& forall|k: u32| #[trigger] v.pages.contains_key(k) ==> v.pages[k].page.page_id.0 == k
    &&& v.current_bytes == PAGE_SIZE * v.pages.dom().len()
    &&& (v.current_bytes <= v.max_bytes || v.pages.dom().len() <= 1)
}

/// The page with its dirty flag set to `dirty`.
pub open spec fn with_dirty(p: PageView, dirty: bool) -> PageView {
    PageView { page_id: p.page_id, page_type: p.page_type, data: p.data, is_dirty: dirty }
}

/// The entry with its page marked clean.
pub open spec fn cleaned(c: CachedPageView) -> CachedPageView {
    CachedPageView { page: with_dirty(c.page, false), access_count: c.access_count }
}

/// The statistics with no page counted dirty.
pub open spec fn no_dirty(s: CacheStats) -> CacheStats {
    CacheStats { dirty_pages: 0, ..s }
}

/// The page numbers of a list of pages.
pub open spec fn page_numbers(s: Seq<Page>) -> Seq<u32> {
    s.map_values(|p: Page| p.page_id.0)
}

/// The statistics after one more hit.
pub open spec fn add_hit(s: CacheStats) -> CacheStats {
    CacheStats { hits: (s.hits + 1) as u64, ..s }
}

/// The statistics after one more miss.
pub open spec fn add_miss(s: CacheStats) -> CacheStats {
    CacheStats { misses: (s.misses + 1) as u64, ..s }
}

/// The statistics after one more eviction.
pub open spec fn add_eviction(s: CacheStats) -> CacheStats {
    CacheStats { evictions: (s.evictions + 1) as u64, ..s }
}

/// The statistics after one more page was marked dirty.
pub open spec fn add_dirty(s: CacheStats) -> CacheStats {
    CacheStats { dirty_pages: (s.dirty_pages + 1) as u64, ..s }
}

/// What a cache entry holds, as a view.
spec fn entry_view(c: CachedPage) -> CachedPageView {
    CachedPageView { page: c.page@, access_count: c.access_count }
}

/// The views of the entries of a map of cached pages.
spec fn entries(m: Map<u32, CachedPage>) -> Map<u32, CachedPageView> {
    m.map_values(|c: CachedPage| entry_view(c))
}

/// The entries of a map have its keys, each entry seen through its view.
proof fn lemma_entries(m: Map<u32, CachedPage>)
    ensures
        entries(m).dom() == m.dom(),
        forall|k: u32| #[trigger] m.contains_key(k) ==> entries(m)[k] == entry_view(m[k]),
{
    assert(entries(m).dom() =~= m.dom());
}

/// Adding or replacing an entry, and taking one out, commute with viewing.
proof fn lemma_entries_update(m: Map<u32, CachedPage>, k: u32, c: CachedPage)
    ensures
        entries(m.insert(k, c)) == entries(m).insert(k, entry_view(c)),
        entries(m.remove(k)) == entries(m).remove(k),
{
    assert(entries(m.insert(k, c)) =~= entries(m).insert(k, entry_view(c)));
    assert(entries(m.remove(k)) =~= entries(m).remove(k));
}

/// Bounded page cache with least-recently-used eviction.
pub struct PageCache {
    pages: HashMap<u32, CachedPage>,
    lru_order: Vec<u32>,
    max_bytes: usize,
    current_bytes: usize,
    stats: CacheStats,
    policy: EvictionPolicy,
}

impl View for PageCache {
    type V = CacheView;

    closed spec fn view(&self) -> CacheView {
        CacheView {
            pages: entries(self.pages@),
            lru_order: self.lru_order@,
            max_bytes: self.max_bytes,
            current_bytes: self.current_bytes,
            stats: self.stats,
            policy: self.policy,
        }
    }
}

/// Taking an element out of a list without repeats leaves a list without
/// repeats that holds everything else.
proof fn lemma_seq_remove_distinct(s: Seq<u32>, i: int)
    requires
        s.no_duplicates(),
        0 <= i < s.len(),
    ensures
        s.remove(i).no_duplicates(),
        forall|x: u32| #[trigger] s.remove(i).contains(x) <==> (s.contains(x) && x != s[i]),
{
    let t = s.remove(i);
    assert forall|a: int, b: int| 0 <= a < t.len() && 0 <= b < t.len() && a != b implies t[a]
        != t[b] by {
        let a2 = if a < i { a } else { a + 1 };
        let b2 = if b < i { b } else { b + 1 };
        assert(t[a] == s[a2] && t[b] == s[b2]);
    }
    assert forall|x: u32| #[trigger] t.contains(x) <==> (s.contains(x) && x != s[i]) by {
        if t.contains(x) {
            let a = choose|a: int| 0 <= a < t.len() && t[a] == x;
            let a2 = if a < i { a } else { a + 1 };
            assert(s[a2] == x);
        }
        if s.contains(x) && x != s[i] {
            let a = choose|a: int| 0 <= a < s.len() && s[a] == x;
            let a1 = if a < i { a } else { a - 1 };
            assert(t[a1] == x);
        }
    }
}

/// The first occurrence of an element is where `remove_value` takes it out.
proof fn lemma_remove_value_at(s: Seq<u32>, x: u32, i: int)
    requires
        0 <= i < s.len(),
        s[i] == x,
        forall|j: int| 0 <= j < i ==> s[j] != x,
    ensures
        s.remove_value(x) == s.remove(i),
{
    s.index_of_first_ensures(x);
    assert(s.contains(x));
    let k = s.index_of_first(x).unwrap();
    assert(k == i);
}

/// Appending an element that is not there keeps the list free of repeats.
proof fn lemma_seq_push_distinct(s: Seq<u32>, x: u32)
    requires
        s.no_duplicates(),
        !s.contains(x),
    ensures
        s.push(x).no_duplicates(),
        forall|y: u32| #[trigger] s.push(x).contains(y) <==> (s.contains(y) || y == x),
{
    let t = s.push(x);
    assert forall|a: int, b: int| 0 <= a < t.len() && 0 <= b < t.len() && a != b implies t[a]
        != t[b] by {
        if a < s.len() && b < s.len() {
            assert(t[a] == s[a] && t[b] == s[b]);
        } else if a < s.len() {
            assert(t[a] == s[a]);
        } else {
            assert(t[b] == s[b]);
        }
    }
    assert forall|y: u32| #[trigger] t.contains(y) <==> (s.contains(y) || y == x) by {
        if t.contains(y) {
            let a = choose|a: int| 0 <= a < t.len() && t[a] == y;
            if a < s.len() {
                assert(s[a] == y);
            }
        }
        if s.contains(y) {
            let a = choose|a: int| 0 <= a < s.len() && s[a] == y;
            assert(t[a] == y);
        }
        if y == x {
            assert(t[s.len() as int] == y);
        }
    }
}

/// Whether `k` is among the first `i` page numbers of `lru`.
spec fn seen(lru: Seq<u32>, i: int, k: u32) -> bool {
    exists|j: int| 0 <= j < i && #[trigger] lru[j] == k
}

/// One more page number seen.
proof fn lemma_seen_step(lru: Seq<u32>, i: int)
    requires
        0 <= i < lru.len(),
    ensures
        forall|k: u32| #[trigger] seen(lru, i + 1, k) <==> (seen(lru, i, k) || lru[i] == k),
{
    assert forall|k: u32| #[trigger] seen(lru, i + 1, k) <==> (seen(lru, i, k) || lru[i] == k) by {
        if seen(lru, i + 1, k) {
            let j = choose|j: int| 0 <= j < i + 1 && lru[j] == k;
            if j < i {
                assert(seen(lru, i, k));
            }
        }
        if seen(lru, i, k) {
            let j = choose|j: int| 0 <= j < i && lru[j] == k;
            assert(lru[j] == k);
        }
        if lru[i] == k {
            assert(lru[i] == k);
        }
    }
}

impl PageCache {
    /// The private invariant behind `cache_consistent`.
    pub closed spec fn wf(&self) -> bool {
        &&& self.lru_order@.no_duplicates()
        &&& self.lru_order@.len() == self.pages@.len()
        &&& forall|x: u32| #[trigger] self.lru_order@.contains(x) <==> self.pages@.contains_key(x)
        &&& forall|k: u32| #[trigger] self.pages@.contains_key(k) ==> self.pages@[k].page.page_id.0 == k
        &&& self.current_bytes == PAGE_SIZE * self.pages@.len()
        &&& (self.current_bytes <= self.max_bytes || self.pages@.len() <= 1)
    }

    /// Finds where a page number stands in the order of use.
    fn lru_position(&self, id: u32) -> (r: Option<usize>)
        ensures
            match r {
                Some(i) => {
                    &&& i < self.lru_order@.len()
                    &&& self.lru_order@[i as int] == id
                    &&& forall|j: int| 0 <= j < i ==> self.lru_order@[j] != id
                },
                None => !self.lru_order@.contains(id),
            },
    {
        let mut i: usize = 0;
        while i < self.lru_order.len()
            invariant
                i <= self.lru_order@.len(),
                forall|j: int| 0 <= j < i ==> self.lru_order@[j] != id,
            decreases self.lru_order@.len() - i,
        {
            if self.lru_order[i] == id {
                return Some(i);
            }
            i = i + 1;
        }
        None
    }

    /// Create a new page cache with a budget of `max_bytes`.
    pub fn new(max_bytes: usize) -> (r: Self)
        ensures
            r.wf(),
            r@.pages == Map::<u32, CachedPageView>::empty(),
            r@.lru_order == Seq::<u32>::empty(),
            r@.max_bytes == max_bytes,
            r@.current_bytes == 0,
            r@.stats == zero_stats(),
            r@.policy == EvictionPolicy::LRU,
    {
        let r = Self {
            pages: HashMap::new(),
            lru_order: Vec::new(),
            max_bytes,
            current_bytes: 0,
            stats: CacheStats::default(),
            policy: EvictionPolicy::LRU,
        };
        assert(entries(r.pages@) =~= Map::<u32, CachedPageView>::empty());
        r
    }

    /// Get a page from the cache if present; a hit makes the page the most
    /// recently used.
    pub fn get(&mut self, page_id: PageId) -> (r: Option<Page>)
        requires
            old(self).wf(),
            old(self)@.stats.hits < u64::MAX,
            old(self)@.stats.misses < u64::MAX,
            old(self)@.pages.contains_key(page_id.0) ==> old(self)@.pages[page_id.0].access_count
                < u64::MAX,
        ensures
            final(self).wf(),
            final(self)@.max_bytes == old(self)@.max_bytes,
            final(self)@.current_bytes == old(self)@.current_bytes,
            final(self)@.policy == old(self)@.policy,
            match r {
                Some(p) => {
                    &&& old(self)@.pages.contains_key(page_id.0)
                    &&& p@ == old(self)@.pages[page_id.0].page
                    &&& final(self)@.pages == old(self)@.pages.insert(
                        page_id.0,
                        CachedPageView {
                            page: old(self)@.pages[page_id.0].page,
                            access_count: (old(self)@.pages[page_id.0].access_count + 1) as u64,
                        },
                    )
                    &&& final(self)@.lru_order == old(self)@.lru_order.remove_value(page_id.0).push(
                        page_id.0,
                    )
                    &&& final(self)@.stats == add_hit(old(self)@.stats)
                },
                None => {
                    &&& !old(self)@.pages.contains_key(page_id.0)
                    &&& final(self)@.pages == old(self)@.pages
                    &&& final(self)@.lru_order == old(self)@.lru_order
                    &&& final(self)@.stats == add_miss(old(self)@.stats)
                },
            },
    {
        let id = page_id.0;
        let ghost m0 = self.pages@;
        let ghost lru = self.lru_order@;
        match self.pages.remove(&id) {
            Some(cached) => {
                let c = cached.access_count;
                let p = cached.page.clone();
                let ghost next = CachedPage { page: cached.page, access_count: (c + 1) as u64 };
                self.pages.insert(id, CachedPage { page: cached.page, access_count: c + 1 });
                proof {
                    lemma_entries(m0);
                    lemma_entries_update(m0.remove(id), id, next);
                    assert(m0.remove(id).insert(id, next) =~= m0.insert(id, next));
                    lemma_entries_update(m0, id, next);
                    assert(self.pages@ == m0.insert(id, next));
                    assert(m0.insert(id, next).dom() =~= m0.dom());
                }
                self.stats.hits = self.stats.hits + 1;
                assert(lru.contains(id));
                match self.lru_position(id) {
                    Some(pos) => {
                        proof {
                            lemma_remove_value_at(lru, id, pos as int);
                            lemma_seq_remove_distinct(lru, pos as int);
                            lemma_seq_push_distinct(lru.remove(pos as int), id);
                        }
                        self.lru_order.remove(pos);
                        self.lru_order.push(id);
                    },
                    None => {},
                }
                Some(p)
            },
            None => {
                self.stats.misses = self.stats.misses + 1;
                None
            },
        }
    }

    /// Remove a page from the cache, giving it back.
    pub fn remove(&mut self, page_id: PageId) -> (r: Option<Page>)
        requires
            old(self).wf(),
        ensures
            final(self).wf(),
            final(self)@.max_bytes == old(self)@.max_bytes,
            final(self)@.stats == old(self)@.stats,
            final(self)@.policy == old(self)@.policy,
            if old(self)@.pages.contains_key(page_id.0) {
                &&& r matches Some(p) && p@ == old(self)@.pages[page_id.0].page
                &&& final(self)@.pages == old(self)@.pages.remove(page_id.0)
                &&& final(self)@.lru_order == old(self)@.lru_order.remove_value(page_id.0)
                &&& final(self)@.current_bytes == old(self)@.current_bytes - PAGE_SIZE
            } else {
                &&& r is None
                &&& final(self)@ == old(self)@
            },
    {
        let id = page_id.0;
        let ghost m0 = self.pages@;
        let ghost lru = self.lru_order@;
        match self.pages.remove(&id) {
            Some(cached) => {
                proof {
                    lemma_entries(m0);
                    lemma_entries_update(m0, id, cached);
                    assert(m0.remove(id).dom() =~= m0.dom().remove(id));
                }
                self.current_bytes = self.current_bytes.saturating_sub(PAGE_SIZE);
                assert(lru.contains(id));
                match self.lru_position(id) {
                    Some(pos) => {
                        proof {
                            lemma_remove_value_at(lru, id, pos as int);
                            lemma_seq_remove_distinct(lru, pos as int);
                        }
                        self.lru_order.remove(pos);
                    },
                    None => {},
                }
                Some(cached.page)
            },
            None => {
                proof {
                    assert(self.pages@ =~= m0);
                }
                None
            },
        }
    }

    /// Evict one page according to the policy: the least recently used.
    fn evict_one(&mut self) -> (r: Result<()>)
        requires
            old(self).wf(),
            old(self)@.stats.evictions < u64::MAX,
        ensures
            final(self).wf(),
            r is Ok,
            final(self)@.max_bytes == old(self)@.max_bytes,
            final(self)@.policy == old(self)@.policy,
            if old(self)@.lru_order.len() > 0 {
                let victim = old(self)@.lru_order[0];
                &&& final(self)@.pages == old(self)@.pages.remove(victim)
                &&& final(self)@.lru_order == old(self)@.lru_order.drop_first()
                &&& final(self)@.current_bytes == old(self)@.current_bytes - PAGE_SIZE
                &&& final(self)@.stats == add_eviction(old(self)@.stats)
            } else {
                final(self)@ == old(self)@
            },
    {
        let victim = match self.policy {
            EvictionPolicy::LRU => {
                // Least recently used: the front of the order.
                if self.lru_order.len() > 0 {
                    Some(self.lru_order[0])
                } else {
                    None
                }
            },
            EvictionPolicy::FIFO => {
                // The order of use doubles as the order of arrival.
                if self.lru_order.len() > 0 {
                    Some(self.lru_order[0])
                } else {
                    None
                }
            },
        };
        if let Some(v) = victim {
            let ghost lru = self.lru_order@;
            proof {
                assert(lru.contains(v)) by {
                    assert(lru[0] == v);
                }
                lemma_remove_value_at(lru, v, 0);
                assert(lru.remove(0) =~= lru.drop_first());
            }
            self.remove(PageId::new(v));
            self.stats.evictions = self.stats.evictions + 1;
        }
        Ok(())
    }

    /// Whether one more page would go over the budget.
    fn over_budget(&self) -> (r: bool)
        ensures
            r == (self.current_bytes + PAGE_SIZE > self.max_bytes),
    {
        self.max_bytes < PAGE_SIZE || self.current_bytes > self.max_bytes - PAGE_SIZE
    }

    /// Insert a page into the cache. A page already cached is replaced in
    /// place; a new page first makes room by evicting the least recently used
    /// page when the budget would be exceeded.
    pub fn insert(&mut self, page: Page) -> (r: Result<()>)
        requires
            old(self).wf(),
            old(self)@.stats.evictions < u64::MAX,
        ensures
            final(self).wf(),
            r is Ok,
            final(self)@.max_bytes == old(self)@.max_bytes,
            final(self)@.policy == old(self)@.policy,
            final(self)@.pages.contains_key(page.page_id.0),
            final(self)@.pages[page.page_id.0].page == page@,
            if old(self)@.pages.contains_key(page.page_id.0) {
                &&& final(self)@.pages == old(self)@.pages.insert(
                    page.page_id.0,
                    CachedPageView {
                        page: page@,
                        access_count: old(self)@.pages[page.page_id.0].access_count,
                    },
                )
                &&& final(self)@.lru_order == old(self)@.lru_order
                &&& final(self)@.current_bytes == old(self)@.current_bytes
                &&& final(self)@.stats == old(self)@.stats
            } else if old(self)@.lru_order.len() > 0 && old(self)@.current_bytes + PAGE_SIZE > old(
                self,
            )@.max_bytes {
                let victim = old(self)@.lru_order[0];
                &&& final(self)@.pages == old(self)@.pages.remove(victim).insert(
                    page.page_id.0,
                    CachedPageView { page: page@, access_count: 1 },
                )
                &&& final(self)@.lru_order == old(self)@.lru_order.drop_first().push(page.page_id.0)
                &&& final(self)@.current_bytes == old(self)@.current_bytes
                &&& final(self)@.stats == add_eviction(old(self)@.stats)
            } else {
                &&& final(self)@.pages == old(self)@.pages.insert(
                    page.page_id.0,
                    CachedPageView { page: page@, access_count: 1 },
                )
                &&& final(self)@.lru_order == old(self)@.lru_order.push(page.page_id.0)
                &&& final(self)@.current_bytes == old(self)@.current_bytes + PAGE_SIZE
                &&& final(self)@.stats == old(self)@.stats
            },
    {
        let id = page.page_id.0;
        let ghost v0 = self@;
        let ghost m0 = self.pages@;
        proof {
            lemma_cache_consistent(&*self);
            lemma_entries(m0);
        }
        if self.pages.contains_key(&id) {
            let c = match self.pages.get(&id) {
                Some(cached) => cached.access_count,
                None => 0,
            };
            let ghost next = CachedPage { page: page, access_count: c };
            self.pages.insert(id, CachedPage { page, access_count: c });
            proof {
                lemma_entries_update(m0, id, next);
                assert(m0.insert(id, next).dom() =~= m0.dom());
            }
            return Ok(());
        }
        let ghost mut evicted = false;
        while self.over_budget() && self.pages.len() > 0
            invariant
                self.wf(),
                !v0.pages.contains_key(id),
                !evicted ==> self@ == v0,
                !evicted ==> self.stats.evictions < u64::MAX,
                evicted ==> {
                    &&& v0.lru_order.len() > 0
                    &&& v0.current_bytes + PAGE_SIZE > v0.max_bytes
                    &&& self@.pages == v0.pages.remove(v0.lru_order[0])
                    &&& self@.lru_order == v0.lru_order.drop_first()
                    &&& self@.current_bytes == v0.current_bytes - PAGE_SIZE
                    &&& self@.stats == add_eviction(v0.stats)
                    &&& self@.max_bytes == v0.max_bytes
                    &&& self@.policy == v0.policy
                    &&& !(self.current_bytes + PAGE_SIZE > self.max_bytes && self.pages@.len() > 0)
                },
                cache_consistent(v0),
            decreases self.pages@.len(),
        {
            proof {
                if evicted {
                    assert(false);
                }
                lemma_entries(self.pages@);
            }
            let _ = self.evict_one();
            proof {
                evicted = true;
                lemma_entries(self.pages@);
                assert(v0.pages.dom().len() == v0.lru_order.len());
            }
        }
        proof {
            lemma_entries(self.pages@);
            if !evicted && v0.lru_order.len() > 0 {
                assert(!(v0.current_bytes + PAGE_SIZE > v0.max_bytes));
            }
        }
        let ghost m = self.pages@;
        let ghost lru = self.lru_order@;
        let ghost next = CachedPage { page: page, access_count: 1 };
        proof {
            lemma_seq_push_distinct(lru, id);
            lemma_entries_update(m, id, next);
        }
        self.pages.insert(id, CachedPage { page, access_count: 1 });
        self.lru_order.push(id);
        self.current_bytes = self.current_bytes + PAGE_SIZE;
        proof {
            assert(m.insert(id, next).dom() =~= m.dom().insert(id));
        }
        Ok(())
    }

    /// Mark a cached page as dirty; a page the cache does not hold is left
    /// alone.
    pub fn mark_dirty(&mut self, page_id: PageId) -> (r: Result<()>)
        requires
            old(self).wf(),
            old(self)@.pages.contains_key(page_id.0) ==> old(self)@.stats.dirty_pages < u64::MAX,
        ensures
            final(self).wf(),
            r is Ok,
            final(self)@.lru_order == old(self)@.lru_order,
            final(self)@.max_bytes == old(self)@.max_bytes,
            final(self)@.current_bytes == old(self)@.current_bytes,
            final(self)@.policy == old(self)@.policy,
            if old(self)@.pages.contains_key(page_id.0) {
                &&& final(self)@.pages == old(self)@.pages.insert(
                    page_id.0,
                    CachedPageView {
                        page: with_dirty(old(self)@.pages[page_id.0].page, true),
                        access_count: old(self)@.pages[page_id.0].access_count,
                    },
                )
                &&& final(self)@.stats == add_dirty(old(self)@.stats)
            } else {
                final(self)@ == old(self)@
            },
    {
        let id = page_id.0;
        let ghost m0 = self.pages@;
        match self.pages.remove(&id) {
            Some(cached) => {
                let mut cached = cached;
                cached.page.mark_dirty();
                let ghost next = cached;
                self.pages.insert(id, cached);
                proof {
                    lemma_entries(m0);
                    assert(m0.remove(id).insert(id, next) =~= m0.insert(id, next));
                    lemma_entries_update(m0, id, next);
                    assert(m0.insert(id, next).dom() =~= m0.dom());
                }
                self.stats.dirty_pages = self.stats.dirty_pages + 1;
            },
            None => {
                proof {
                    assert(self.pages@ =~= m0);
                }
            },
        }
        Ok(())
    }

    /// The dirty pages, to be persisted, each once.
    pub fn get_dirty_pages(&self) -> (r: Vec<Page>)
        requires
            self.wf(),
        ensures
            page_numbers(r@).no_duplicates(),
            page_numbers(r@).to_set() == Set::new(
                |k: u32| self@.pages.contains_key(k) && self@.pages[k].page.is_dirty,
            ),
            forall|i: int| 0 <= i < r@.len() ==> (#[trigger] r@[i])@ == self@.pages[r@[i].page_id.0].page,
    {
        let ghost lru = self.lru_order@;
        let ghost m = self.pages@;
        proof {
            lemma_entries(m);
        }
        let mut r: Vec<Page> = Vec::new();
        let mut i: usize = 0;
        while i < self.lru_order.len()
            invariant
                i <= lru.len(),
                lru == self.lru_order@,
                m == self.pages@,
                self.wf(),
                page_numbers(r@).no_duplicates(),
                forall|k: u32| #[trigger]
                    page_numbers(r@).contains(k) <==> (seen(lru, i as int, k) && m.contains_key(k)
                        && m[k].page.is_dirty),
                forall|n: int|
                    0 <= n < r@.len() ==> m.contains_key((#[trigger] r@[n]).page_id.0) && r@[n]@
                        == m[r@[n].page_id.0].page@,
            decreases lru.len() - i,
        {
            let id = self.lru_order[i];
            proof {
                assert(lru.contains(id));
                lemma_seen_step(lru, i as int);
            }
            match self.pages.get(&id) {
                Some(cached) => {
                    if cached.page.is_dirty {
                        let p = cached.page.clone();
                        let ghost prev = r@;
                        proof {
                            let ids = page_numbers(prev);
                            if ids.contains(id) {
                                let j = choose|j: int| 0 <= j < i && lru[j] == id;
                                assert(lru[j] == lru[i as int]);
                            }
                            lemma_seq_push_distinct(ids, id);
                        }
                        r.push(p);
                        assert(page_numbers(r@) =~= page_numbers(prev).push(id));
                        proof {
                            assert forall|n: int| 0 <= n < r@.len() implies m.contains_key(
                                (#[trigger] r@[n]).page_id.0,
                            ) && r@[n]@ == m[r@[n].page_id.0].page@ by {
                                if n < prev.len() {
                                    assert(r@[n] == prev[n]);
                                }
                            }
                        }
                    }
                },
                None => {},
            }
            i = i + 1;
        }
        proof {
            let ids = page_numbers(r@);
            let want = Set::new(|k: u32| self@.pages.contains_key(k) && self@.pages[k].page.is_dirty);
            assert forall|k: u32| #[trigger] ids.to_set().contains(k) <==> want.contains(k) by {
                if want.contains(k) {
                    assert(lru.contains(k));
                    let j = choose|j: int| 0 <= j < lru.len() && lru[j] == k;
                    assert(seen(lru, lru.len() as int, k));
                }
            }
            assert(ids.to_set() =~= want);
        }
        r
    }

    /// Mark every cached page as clean.
    pub fn mark_all_clean(&mut self)
        requires
            old(self).wf(),
        ensures
            final(self).wf(),
            final(self)@.pages.dom() == old(self)@.pages.dom(),
            forall|k: u32| #[trigger]
                final(self)@.pages.contains_key(k) ==> final(self)@.pages[k] == cleaned(
                    old(self)@.pages[k],
                ),
            final(self)@.lru_order == old(self)@.lru_order,
            final(self)@.max_bytes == old(self)@.max_bytes,
            final(self)@.current_bytes == old(self)@.current_bytes,
            final(self)@.policy == old(self)@.policy,
            final(self)@.stats == no_dirty(old(self)@.stats),
    {
        let ghost lru = self.lru_order@;
        let ghost m0 = self.pages@;
        let mut i: usize = 0;
        while i < self.lru_order.len()
            invariant
                i <= lru.len(),
                lru == self.lru_order@,
                lru == old(self).lru_order@,
                m0 == old(self).pages@,
                old(self).wf(),
                self.pages@.dom() == m0.dom(),
                self.current_bytes == old(self).current_bytes,
                self.max_bytes == old(self).max_bytes,
                self.stats == old(self).stats,
                self.policy == old(self).policy,
                forall|k: u32| #[trigger]
                    self.pages@.contains_key(k) ==> if seen(lru, i as int, k) {
                        entry_view(self.pages@[k]) == cleaned(entry_view(m0[k]))
                    } else {
                        self.pages@[k] == m0[k]
                    },
            decreases lru.len() - i,
        {
            let id = self.lru_order[i];
            let ghost before = self.pages@;
            proof {
                lemma_seen_step(lru, i as int);
                assert(!seen(lru, i as int, id)) by {
                    if seen(lru, i as int, id) {
                        let j = choose|j: int| 0 <= j < i && lru[j] == id;
                        assert(lru[j] == lru[i as int]);
                    }
                }
            }
            match self.pages.remove(&id) {
                Some(cached) => {
                    let mut cached = cached;
                    cached.page.mark_clean();
                    let ghost next = cached;
                    self.pages.insert(id, cached);
                    proof {
                        assert(before.remove(id).insert(id, next) =~= before.insert(id, next));
                        assert(before.insert(id, next).dom() =~= before.dom());
                    }
                },
                None => {
                    proof {
                        assert(self.pages@ =~= before);
                    }
                },
            }
            i = i + 1;
        }
        self.stats.dirty_pages = 0;
        proof {
            lemma_entries(m0);
            lemma_entries(self.pages@);
            assert forall|k: u32| #[trigger] self.pages@.contains_key(k) implies seen(
                lru,
                lru.len() as int,
                k,
            ) by {
                assert(lru.contains(k));
                let j = choose|j: int| 0 <= j < lru.len() && lru[j] == k;
            }
            assert forall|k: u32| #[trigger] self.pages@.contains_key(k) implies self.pages@[k].page.page_id.0 == k by {
                assert(seen(lru, lru.len() as int, k));
            }
        }
    }

    /// Drop every page from the cache. The statistics are kept.
    pub fn clear(&mut self)
        requires
            old(self).wf(),
        ensures
            final(self).wf(),
            final(self)@.pages == Map::<u32, CachedPageView>::empty(),
            final(self)@.lru_order == Seq::<u32>::empty(),
            final(self)@.current_bytes == 0,
            final(self)@.max_bytes == old(self)@.max_bytes,
            final(self)@.stats == old(self)@.stats,
            final(self)@.policy == old(self)@.policy,
    {
        self.pages.clear();
        self.lru_order.clear();
        self.current_bytes = 0;
        assert(entries(self.pages@) =~= Map::<u32, CachedPageView>::empty());
    }

    /// Cache statistics.
    pub fn stats(&self) -> (r: &CacheStats)
        ensures
            *r == self@.stats,
    {
        &self.stats
    }

    /// The number of cached pages.
    pub fn page_count(&self) -> (r: usize)
        requires
            self.wf(),
        ensures
            r == self@.pages.dom().len(),
    {
        proof {
            lemma_entries(self.pages@);
        }
        self.pages.len()
    }

    /// The bytes the cached pages take.
    pub fn current_bytes(&self) -> (r: usize)
        ensures
            r == self@.current_bytes,
    {
        self.current_bytes
    }

    /// The byte budget.
    pub fn max_bytes(&self) -> (r: usize)
        ensures
            r == self@.max_bytes,
    {
        self.max_bytes
    }
}

impl Default for PageCache {
    /// A cache with a budget of 256 MiB.
    fn default() -> (r: Self)
        ensures
            r.wf(),
            r@.pages == Map::<u32, CachedPageView>::empty(),
            r@.lru_order == Seq::<u32>::empty(),
            r@.max_bytes == 256 * 1024 * 1024,
            r@.current_bytes == 0,
            r@.stats == zero_stats(),
            r@.policy == EvictionPolicy::LRU,
    {
        Self::new(256 * 1024 * 1024)
    }
}

/// Every cache that the operations above produce is consistent: the order of
/// use lists exactly the cached pages, each once, and the bytes in use are a
/// page's size per cached page, within the budget unless one page alone
/// exceeds it, so always within a budget of at least one page. (`new`
/// produces such a cache, and every operation takes and leaves one, so this
/// holds after any sequence of calls.)
pub proof fn lemma_cache_consistent(c: &PageCache)
    requires
        c.wf(),
    ensures
        cache_consistent(c@),
        c@.max_bytes >= PAGE_SIZE ==> c@.current_bytes <= c@.max_bytes,
{
    lemma_entries(c.pages@);
    assert forall|k: u32| #[trigger] c@.lru_order.to_set().contains(k) <==> c@.pages.dom().contains(k) by {}
    assert(c@.lru_order.to_set() =~= c@.pages.dom());
}

} // verus!
