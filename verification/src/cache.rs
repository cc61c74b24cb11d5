//! Time-boxed, capacity-bounded associative stores.
//!
//! Each store is an association list from string keys to [`CacheEntry`]
//! values with unique keys. Reads are lazy about expiry: an expired entry is
//! removed and reported as a miss. Writes at capacity first evict the single
//! oldest entry by creation time (first such entry on ties). All clock
//! readings come in from the caller as milliseconds.

use vstd::prelude::*;

verus! {

/// One cached value with its creation time and hit count.
pub struct CacheEntry<T> {
    pub data: T,
    pub timestamp_ms: u64,
    pub access_count: u64,
}

/// `c + 1`, capped at the type's maximum.
pub open spec fn sat_inc(c: u64) -> u64 {
    if c == u64::MAX {
        c
    } else {
        (c + 1) as u64
    }
}

impl<T> CacheEntry<T> {
    /// A fresh entry created at the given clock reading.
    pub fn new(data: T, now_ms: u64) -> (r: Self)
        ensures
            r.data == data,
            r.timestamp_ms == now_ms,
            r.access_count == 1,
    {
        CacheEntry { data, timestamp_ms: now_ms, access_count: 1 }
    }

    /// Whether the entry is older than `ttl_ms` at clock reading `now_ms`.
    pub open spec fn expired_at(self, now_ms: u64, ttl_ms: u64) -> bool {
        now_ms > self.timestamp_ms + ttl_ms
    }

    /// Exec mirror of [`Self::expired_at`].
    pub fn is_expired(&self, now_ms: u64, ttl_ms: u64) -> (r: bool)
        ensures
            r == self.expired_at(now_ms, ttl_ms),
    {
        if now_ms <= self.timestamp_ms {
            false
        } else {
            now_ms - self.timestamp_ms > ttl_ms
        }
    }

    /// Records one hit; the hit count saturates rather than wraps.
    pub fn access(&mut self)
        ensures
            final(self).data == old(self).data,
            final(self).timestamp_ms == old(self).timestamp_ms,
            final(self).access_count == sat_inc(old(self).access_count),
    {
        if self.access_count < u64::MAX {
            self.access_count = self.access_count + 1;
        }
    }
}

/// No two entries share a key.
pub open spec fn keys_unique<T>(s: Seq<(String, CacheEntry<T>)>) -> bool {
    forall|i: int, j: int| 0 <= i < j < s.len() ==> (#[trigger] s[i]).0@ != (#[trigger] s[j]).0@
}

/// The first index holding `k`, or `-1`.
pub open spec fn find_key<T>(s: Seq<(String, CacheEntry<T>)>, k: Seq<char>) -> int
    decreases s.len(),
{
    if s.len() == 0 {
        -1
    } else if s[0].0@ == k {
        0
    } else {
        let r = find_key(s.drop_first(), k);
        if r < 0 {
            -1
        } else {
            r + 1
        }
    }
}

/// What [`find_key`] returns: `-1` exactly when no entry holds `k`, else the
/// first index holding it.
pub proof fn lemma_find_key<T>(s: Seq<(String, CacheEntry<T>)>, k: Seq<char>)
    ensures
        find_key(s, k) == -1 ==> forall|i: int| 0 <= i < s.len() ==> (#[trigger] s[i]).0@ != k,
        find_key(s, k) >= 0 ==> 0 <= find_key(s, k) < s.len() && s[find_key(s, k)].0@ == k
            && forall|i: int| 0 <= i < find_key(s, k) ==> (#[trigger] s[i]).0@ != k,
    decreases s.len(),
{
    if s.len() > 0 && s[0].0@ != k {
        lemma_find_key(s.drop_first(), k);
        assert forall|i: int| 1 <= i < s.len() implies (#[trigger] s[i]).0 == s.drop_first()[i
            - 1].0 by {}
    }
}

/// The index of the oldest entry by creation time, the first such entry on
/// ties. Meaningful only for a non-empty store.
pub open spec fn oldest_idx<T>(s: Seq<(String, CacheEntry<T>)>) -> int
    decreases s.len(),
{
    if s.len() <= 1 {
        0
    } else {
        let j = oldest_idx(s.drop_last());
        if s.last().1.timestamp_ms < s[j].1.timestamp_ms {
            s.len() - 1
        } else {
            j
        }
    }
}

/// What [`oldest_idx`] returns: a minimal timestamp, strictly later
/// timestamps before it.
pub proof fn lemma_oldest_idx<T>(s: Seq<(String, CacheEntry<T>)>)
    requires
        s.len() > 0,
    ensures
        0 <= oldest_idx(s) < s.len(),
        forall|i: int|
            0 <= i < s.len() ==> (#[trigger] s[i]).1.timestamp_ms >= s[oldest_idx(
                s,
            )].1.timestamp_ms,
        forall|i: int|
            0 <= i < oldest_idx(s) ==> (#[trigger] s[i]).1.timestamp_ms > s[oldest_idx(
                s,
            )].1.timestamp_ms,
    decreases s.len(),
{
    if s.len() > 1 {
        lemma_oldest_idx(s.drop_last());
        assert forall|i: int| 0 <= i < s.len() - 1 implies #[trigger] s[i] == s.drop_last()[i] by {}
    }
}

/// Finds the first entry whose key holds the characters of `key`.
pub fn store_find<T>(entries: &Vec<(String, CacheEntry<T>)>, key: &str) -> (r: Option<usize>)
    ensures
        r matches Some(i) ==> i == find_key(entries@, key@),
        r is None ==> find_key(entries@, key@) == -1,
{
    let mut i: usize = 0;
    while i < entries.len()
        invariant
            i <= entries@.len(),
            forall|k: int| 0 <= k < i ==> (#[trigger] entries@[k]).0@ != key@,
        decreases entries@.len() - i,
    {
        if crate::text::str_eq(entries[i].0.as_str(), key) {
            proof {
                lemma_find_key(entries@, key@);
            }
            return Some(i);
        }
        i = i + 1;
    }
    proof {
        lemma_find_key(entries@, key@);
    }
    None
}

/// Removes the oldest entry of a non-empty store; leaves an empty store
/// alone.
pub fn store_evict_oldest<T>(entries: &mut Vec<(String, CacheEntry<T>)>)
    ensures
        old(entries)@.len() == 0 ==> final(entries)@ == old(entries)@,
        old(entries)@.len() > 0 ==> final(entries)@ == old(entries)@.remove(
            oldest_idx(old(entries)@),
        ),
{
    if entries.len() == 0 {
        return ;
    }
    let mut best: usize = 0;
    let mut i: usize = 1;
    proof {
        assert(old(entries)@.take(1) =~= seq![old(entries)@[0]]);
    }
    while i < entries.len()
        invariant
            entries@ == old(entries)@,
            1 <= i <= entries@.len(),
            best < i,
            best == oldest_idx(entries@.take(i as int)),
        decreases entries@.len() - i,
    {
        proof {
            assert(entries@.take((i + 1) as int).drop_last() =~= entries@.take(i as int));
            assert(entries@.take((i + 1) as int).last() == entries@[i as int]);
            assert forall|k: int| 0 <= k < i implies #[trigger] entries@.take((i + 1) as int)[k]
                == entries@.take(i as int)[k] by {}
        }
        if entries[i].1.timestamp_ms < entries[best].1.timestamp_ms {
            best = i;
        }
        i = i + 1;
    }
    proof {
        assert(entries@.take(entries@.len() as int) =~= entries@);
    }
    entries.remove(best);
}

/// Looks `key` up. A live entry gets its hit count bumped and its index
/// returned; an expired entry is removed and reported as a miss; a missing
/// key changes nothing.
pub fn store_get<T>(
    entries: &mut Vec<(String, CacheEntry<T>)>,
    key: &str,
    now_ms: u64,
    ttl_ms: u64,
) -> (r: Option<usize>)
    ensures
        find_key(old(entries)@, key@) == -1 ==> r is None && final(entries)@ == old(entries)@,
        find_key(old(entries)@, key@) >= 0 && old(entries)@[find_key(
            old(entries)@,
            key@,
        )].1.expired_at(now_ms, ttl_ms) ==> r is None && final(entries)@ == old(entries)@.remove(
            find_key(old(entries)@, key@),
        ),
        find_key(old(entries)@, key@) >= 0 && !old(entries)@[find_key(
            old(entries)@,
            key@,
        )].1.expired_at(now_ms, ttl_ms) ==> {
            let j = find_key(old(entries)@, key@);
            let e = old(entries)@[j];
            &&& r == Some(j as usize)
            &&& final(entries)@ == old(entries)@.update(
                j,
                (
                    e.0,
                    CacheEntry {
                        data: e.1.data,
                        timestamp_ms: e.1.timestamp_ms,
                        access_count: sat_inc(e.1.access_count),
                    },
                ),
            )
        },
{
    proof {
        lemma_find_key(old(entries)@, key@);
    }
    let found = store_find(entries, key);
    match found {
        None => None,
        Some(i) => {
            if entries[i].1.is_expired(now_ms, ttl_ms) {
                entries.remove(i);
                None
            } else {
                let entry = &mut entries[i].1;
                entry.access();
                proof {
                    assert(final(entries)@ =~= old(entries)@.update(
                        i as int,
                        (
                            old(entries)@[i as int].0,
                            CacheEntry {
                                data: old(entries)@[i as int].1.data,
                                timestamp_ms: old(entries)@[i as int].1.timestamp_ms,
                                access_count: sat_inc(old(entries)@[i as int].1.access_count),
                            },
                        ),
                    ));
                }
                Some(i)
            }
        },
    }
}

/// The store after an insert of `key`: at capacity the oldest entry leaves
/// first, then the key's entry is replaced or appended.
pub open spec fn store_after_insert<T>(
    s: Seq<(String, CacheEntry<T>)>,
    key: String,
    entry: CacheEntry<T>,
    max_entries: usize,
) -> Seq<(String, CacheEntry<T>)> {
    let s1 = if s.len() >= max_entries && s.len() > 0 {
        s.remove(oldest_idx(s))
    } else {
        s
    };
    let j = find_key(s1, key@);
    if j >= 0 {
        s1.update(j, (key, entry))
    } else {
        s1.push((key, entry))
    }
}

/// Inserts `data` under `key` at clock reading `now_ms`, evicting the oldest
/// entry first when the store is at capacity.
pub fn store_insert<T>(
    entries: &mut Vec<(String, CacheEntry<T>)>,
    max_entries: usize,
    key: String,
    data: T,
    now_ms: u64,
)
    requires
        keys_unique(old(entries)@),
    ensures
        final(entries)@ == store_after_insert(
            old(entries)@,
            key,
            CacheEntry { data, timestamp_ms: now_ms, access_count: 1 },
            max_entries,
        ),
        keys_unique(final(entries)@),
        final(entries)@.len() <= vstd::math::max(old(entries)@.len() as int, max_entries as int)
            + 1,
        old(entries)@.len() <= max_entries + 1 ==> final(entries)@.len() <= max_entries + 1,
{
    if entries.len() >= max_entries && entries.len() > 0 {
        proof {
            lemma_oldest_idx(old(entries)@);
        }
        store_evict_oldest(entries);
    }
    let ghost s1 = entries@;
    proof {
        assert(keys_unique::<T>(s1)) by {
            if old(entries)@.len() >= max_entries && old(entries)@.len() > 0 {
                let o = oldest_idx(old(entries)@);
                assert forall|i: int, j: int| 0 <= i < j < s1.len() implies (#[trigger] s1[i]).0@
                    != (#[trigger] s1[j]).0@ by {
                    lemma_oldest_idx(old(entries)@);
                    assert(s1 == old(entries)@.remove(o));
                }
            }
        }
        lemma_find_key(s1, key@);
    }
    let found = store_find(entries, key.as_str());
    let entry = CacheEntry::new(data, now_ms);
    match found {
        Some(i) => {
            entries.remove(i);
            entries.insert(i, (key, entry));
            proof {
                assert(final(entries)@ =~= s1.update(i as int, (key, entry)));
            }
        },
        None => {
            entries.push((key, entry));
        },
    }
}

/// The entries of `s` that are still live at clock reading `now_ms`, in
/// order.
pub open spec fn live_entries<T>(
    s: Seq<(String, CacheEntry<T>)>,
    now_ms: u64,
    ttl_ms: u64,
) -> Seq<(String, CacheEntry<T>)>
    decreases s.len(),
{
    if s.len() == 0 {
        s
    } else if s[0].1.expired_at(now_ms, ttl_ms) {
        live_entries(s.drop_first(), now_ms, ttl_ms)
    } else {
        seq![s[0]] + live_entries(s.drop_first(), now_ms, ttl_ms)
    }
}

/// Deletes every expired entry, keeping live entries in order.
pub fn store_sweep<T>(entries: &mut Vec<(String, CacheEntry<T>)>, now_ms: u64, ttl_ms: u64)
    ensures
        final(entries)@ == live_entries(old(entries)@, now_ms, ttl_ms),
{
    let mut kept: Vec<(String, CacheEntry<T>)> = Vec::new();
    proof {
        assert(kept@ + live_entries(old(entries)@, now_ms, ttl_ms) =~= live_entries(
            old(entries)@,
            now_ms,
            ttl_ms,
        ));
    }
    while entries.len() > 0
        invariant
            kept@ + live_entries(entries@, now_ms, ttl_ms) == live_entries(
                old(entries)@,
                now_ms,
                ttl_ms,
            ),
        decreases entries@.len(),
    {
        let ghost pre = entries@;
        let e = entries.remove(0);
        proof {
            assert(entries@ =~= pre.drop_first());
            assert(e == pre[0]);
        }
        if !e.1.is_expired(now_ms, ttl_ms) {
            let ghost kpre = kept@;
            kept.push(e);
            proof {
                assert(kept@ + live_entries(entries@, now_ms, ttl_ms) =~= kpre + (seq![pre[0]]
                    + live_entries(pre.drop_first(), now_ms, ttl_ms)));
            }
        }
    }
    proof {
        assert(kept@ + live_entries(entries@, now_ms, ttl_ms) =~= kept@);
    }
    core::mem::swap(entries, &mut kept);
}

/// Live entries are a sub-multiset of the originals: sweeping cannot invent
/// keys, so it keeps keys unique.
pub proof fn lemma_live_entries_unique<T>(s: Seq<(String, CacheEntry<T>)>, now_ms: u64, ttl_ms: u64)
    requires
        keys_unique(s),
    ensures
        keys_unique(live_entries(s, now_ms, ttl_ms)),
        live_entries(s, now_ms, ttl_ms).len() <= s.len(),
        forall|i: int|
            0 <= i < live_entries(s, now_ms, ttl_ms).len() ==> s.contains(
                #[trigger] live_entries(s, now_ms, ttl_ms)[i],
            ),
    decreases s.len(),
{
    if s.len() > 0 {
        assert(keys_unique(s.drop_first())) by {
            assert forall|i: int, j: int| 0 <= i < j < s.drop_first().len() implies (
            #[trigger] s.drop_first()[i]).0@ != (#[trigger] s.drop_first()[j]).0@ by {
                assert(s.drop_first()[i] == s[i + 1]);
                assert(s.drop_first()[j] == s[j + 1]);
            }
        }
        lemma_live_entries_unique(s.drop_first(), now_ms, ttl_ms);
        let l = live_entries(s, now_ms, ttl_ms);
        let lrest = live_entries(s.drop_first(), now_ms, ttl_ms);
        assert forall|i: int| 0 <= i < l.len() implies s.contains(#[trigger] l[i]) by {
            if s[0].1.expired_at(now_ms, ttl_ms) {
                assert(s.drop_first().contains(l[i]));
                let w = choose|w: int| 0 <= w < s.drop_first().len() && s.drop_first()[w] == l[i];
                assert(s[w + 1] == l[i]);
            } else {
                if i == 0 {
                    assert(l[0] == s[0]);
                } else {
                    assert(l[i] == lrest[i - 1]);
                    assert(s.drop_first().contains(lrest[i - 1]));
                    let w = choose|w: int|
                        0 <= w < s.drop_first().len() && s.drop_first()[w] == lrest[i - 1];
                    assert(s[w + 1] == l[i]);
                }
            }
        }
        if !s[0].1.expired_at(now_ms, ttl_ms) {
            assert forall|i: int, j: int| 0 <= i < j < l.len() implies (#[trigger] l[i]).0@ != (
            #[trigger] l[j]).0@ by {
                if i == 0 {
                    assert(l[j] == lrest[j - 1]);
                    assert(s.drop_first().contains(lrest[j - 1]));
                    let w = choose|w: int|
                        0 <= w < s.drop_first().len() && s.drop_first()[w] == lrest[j - 1];
                    assert(s[w + 1] == l[j]);
                    assert(s[0].0@ != s[w + 1].0@);
                } else {
                    assert(l[i] == lrest[i - 1]);
                    assert(l[j] == lrest[j - 1]);
                }
            }
        }
    }
}

/// Counts and a rough memory estimate for the three stores.
pub struct CacheStats {
    pub wikipedia_pages_count: usize,
    pub principles_count: usize,
    pub analysis_nodes_count: usize,
    pub total_memory_usage: u64,
}

/// The deterministic subtree cache key for a request.
pub open spec fn analysis_key_of(term: Seq<char>, max_depth: u8, max_results: u8) -> Seq<char> {
    "analysis:"@ + term + ":"@ + crate::text::dec_str(max_depth as int) + ":"@
        + crate::text::dec_str(max_results as int)
}

/// The subtree key determines the request parameters: the two trailing
/// colon-separated fields are decimal numbers, so the split is unambiguous.
pub proof fn lemma_analysis_key_injective(
    t1: Seq<char>,
    d1: u8,
    m1: u8,
    t2: Seq<char>,
    d2: u8,
    m2: u8,
)
    requires
        analysis_key_of(t1, d1, m1) == analysis_key_of(t2, d2, m2),
    ensures
        t1 == t2,
        d1 == d2,
        m1 == m2,
{
    reveal_strlit(":");
    assert(":"@ =~= seq![':']);
    crate::text::lemma_dec_str_shape(d1 as int);
    crate::text::lemma_dec_str_shape(d2 as int);
    crate::text::lemma_dec_str_shape(m1 as int);
    crate::text::lemma_dec_str_shape(m2 as int);
    let a1 = "analysis:"@ + t1 + seq![':'] + crate::text::dec_str(d1 as int);
    let a2 = "analysis:"@ + t2 + seq![':'] + crate::text::dec_str(d2 as int);
    assert(analysis_key_of(t1, d1, m1) =~= a1 + seq![':'] + crate::text::dec_str(m1 as int));
    assert(analysis_key_of(t2, d2, m2) =~= a2 + seq![':'] + crate::text::dec_str(m2 as int));
    crate::text::lemma_last_colon_unique(
        a1,
        crate::text::dec_str(m1 as int),
        a2,
        crate::text::dec_str(m2 as int),
    );
    crate::text::lemma_dec_str_injective(m1 as int, m2 as int);
    let b1 = "analysis:"@ + t1;
    let b2 = "analysis:"@ + t2;
    assert(a1 =~= b1 + seq![':'] + crate::text::dec_str(d1 as int));
    assert(a2 =~= b2 + seq![':'] + crate::text::dec_str(d2 as int));
    crate::text::lemma_last_colon_unique(
        b1,
        crate::text::dec_str(d1 as int),
        b2,
        crate::text::dec_str(d2 as int),
    );
    crate::text::lemma_dec_str_injective(d1 as int, d2 as int);
    assert(t1 =~= t2) by {
        assert(b1 == b2);
        assert(t1.len() == t2.len());
        assert forall|i: int| 0 <= i < t1.len() implies t1[i] == t2[i] by {
            assert(b1["analysis:"@.len() + i] == t1[i]);
            assert(b2["analysis:"@.len() + i] == t2[i]);
        }
    }
}

/// Three independently-keyed stores: page text, principle sets and analysis
/// subtrees, sharing one capacity bound, with pages shorter-lived than the
/// other two.
pub struct WikiEngineCache {
    wikipedia_pages: Vec<(String, CacheEntry<crate::types::WikipediaPage>)>,
    principles: Vec<(String, CacheEntry<Vec<crate::types::EngineeringPrinciple>>)>,
    analysis_nodes: Vec<(String, CacheEntry<crate::types::AnalysisNode>)>,
    page_ttl_ms: u64,
    principle_ttl_ms: u64,
    max_entries: usize,
}

impl WikiEngineCache {
    /// The page store's entries.
    pub closed spec fn pages_s(self) -> Seq<(String, CacheEntry<crate::types::WikipediaPage>)> {
        self.wikipedia_pages@
    }

    /// The principle store's entries.
    pub closed spec fn princ_s(self) -> Seq<
        (String, CacheEntry<Vec<crate::types::EngineeringPrinciple>>),
    > {
        self.principles@
    }

    /// The subtree store's entries.
    pub closed spec fn nodes_s(self) -> Seq<(String, CacheEntry<crate::types::AnalysisNode>)> {
        self.analysis_nodes@
    }

    /// Time-to-live of cached pages, in milliseconds.
    pub closed spec fn page_ttl(self) -> u64 {
        self.page_ttl_ms
    }

    /// Time-to-live of cached principle sets and subtrees, in milliseconds.
    pub closed spec fn principle_ttl(self) -> u64 {
        self.principle_ttl_ms
    }

    /// The shared per-store capacity bound.
    pub closed spec fn capacity(self) -> usize {
        self.max_entries
    }

    /// Well-formedness: unique keys per store, bounded capacity, store sizes
    /// within one of the capacity.
    pub open spec fn wf(self) -> bool {
        &&& keys_unique(self.pages_s())
        &&& keys_unique(self.princ_s())
        &&& keys_unique(self.nodes_s())
        &&& self.capacity() <= 1_000_000_000
        &&& self.pages_s().len() <= self.capacity() + 1
        &&& self.princ_s().len() <= self.capacity() + 1
        &&& self.nodes_s().len() <= self.capacity() + 1
    }

    /// An empty cache with the stock configuration: pages live an hour,
    /// principle sets and subtrees two, a thousand entries per store.
    pub fn new() -> (r: Self)
        ensures
            r.wf(),
            r.pages_s().len() == 0,
            r.princ_s().len() == 0,
            r.nodes_s().len() == 0,
            r.page_ttl() == 3_600_000,
            r.principle_ttl() == 7_200_000,
            r.capacity() == 1000,
    {
        WikiEngineCache {
            wikipedia_pages: Vec::new(),
            principles: Vec::new(),
            analysis_nodes: Vec::new(),
            page_ttl_ms: 3_600_000,
            principle_ttl_ms: 7_200_000,
            max_entries: 1000,
        }
    }

    /// An empty cache with the given time-to-lives and capacity.
    pub fn with_config(page_ttl_ms: u64, principle_ttl_ms: u64, max_entries: usize) -> (r: Self)
        requires
            max_entries <= 1_000_000_000,
        ensures
            r.wf(),
            r.pages_s().len() == 0,
            r.princ_s().len() == 0,
            r.nodes_s().len() == 0,
            r.page_ttl() == page_ttl_ms,
            r.principle_ttl() == principle_ttl_ms,
            r.capacity() == max_entries,
    {
        WikiEngineCache {
            wikipedia_pages: Vec::new(),
            principles: Vec::new(),
            analysis_nodes: Vec::new(),
            page_ttl_ms,
            principle_ttl_ms,
            max_entries,
        }
    }

    /// Reads a cached page: a live entry is copied out and its hit count
    /// bumped; an expired entry is removed and reported as a miss.
    pub fn get_wikipedia_page(&mut self, title: &str, now_ms: u64) -> (r: Option<
        crate::types::WikipediaPage,
    >)
        requires
            old(self).wf(),
        ensures
            final(self).wf(),
            final(self).princ_s() == old(self).princ_s(),
            final(self).nodes_s() == old(self).nodes_s(),
            final(self).page_ttl() == old(self).page_ttl(),
            final(self).principle_ttl() == old(self).principle_ttl(),
            final(self).capacity() == old(self).capacity(),
            find_key(old(self).pages_s(), title@) == -1 ==> r is None && final(self).pages_s()
                == old(self).pages_s(),
            ({
                let j = find_key(old(self).pages_s(), title@);
                j >= 0 && old(self).pages_s()[j].1.expired_at(now_ms, old(self).page_ttl())
                    ==> r is None && final(self).pages_s() == old(self).pages_s().remove(j)
            }),
            ({
                let j = find_key(old(self).pages_s(), title@);
                j >= 0 && !old(self).pages_s()[j].1.expired_at(now_ms, old(self).page_ttl()) ==> {
                    let e = old(self).pages_s()[j];
                    &&& r matches Some(p) && p@ == e.1.data@
                    &&& final(self).pages_s() == old(self).pages_s().update(
                        j,
                        (
                            e.0,
                            CacheEntry {
                                data: e.1.data,
                                timestamp_ms: e.1.timestamp_ms,
                                access_count: sat_inc(e.1.access_count),
                            },
                        ),
                    )
                }
            }),
    {
        proof {
            lemma_find_key(old(self).pages_s(), title@);
        }
        let got = store_get(&mut self.wikipedia_pages, title, now_ms, self.page_ttl_ms);
        proof {
            lemma_store_shrink_unique(old(self).pages_s(), self.wikipedia_pages@, title@, now_ms, old(self).page_ttl());
        }
        match got {
            None => None,
            Some(i) => Some(self.wikipedia_pages[i].1.data.duplicate()),
        }
    }

    /// Caches a page under its title, evicting the oldest page first at
    /// capacity.
    pub fn cache_wikipedia_page(
        &mut self,
        title: String,
        page: crate::types::WikipediaPage,
        now_ms: u64,
    )
        requires
            old(self).wf(),
        ensures
            final(self).wf(),
            final(self).princ_s() == old(self).princ_s(),
            final(self).nodes_s() == old(self).nodes_s(),
            final(self).page_ttl() == old(self).page_ttl(),
            final(self).principle_ttl() == old(self).principle_ttl(),
            final(self).capacity() == old(self).capacity(),
            final(self).pages_s() == store_after_insert(
                old(self).pages_s(),
                title,
                CacheEntry { data: page, timestamp_ms: now_ms, access_count: 1 },
                old(self).capacity(),
            ),
    {
        store_insert(&mut self.wikipedia_pages, self.max_entries, title, page, now_ms);
    }

    /// Reads a cached principle set, with the same lifecycle as page reads.
    pub fn get_principles(&mut self, page_title: &str, now_ms: u64) -> (r: Option<
        Vec<crate::types::EngineeringPrinciple>,
    >)
        requires
            old(self).wf(),
        ensures
            final(self).wf(),
            final(self).pages_s() == old(self).pages_s(),
            final(self).nodes_s() == old(self).nodes_s(),
            final(self).page_ttl() == old(self).page_ttl(),
            final(self).principle_ttl() == old(self).principle_ttl(),
            final(self).capacity() == old(self).capacity(),
            find_key(old(self).princ_s(), page_title@) == -1 ==> r is None && final(self).princ_s()
                == old(self).princ_s(),
            ({
                let j = find_key(old(self).princ_s(), page_title@);
                j >= 0 && old(self).princ_s()[j].1.expired_at(now_ms, old(self).principle_ttl())
                    ==> r is None && final(self).princ_s() == old(self).princ_s().remove(j)
            }),
            ({
                let j = find_key(old(self).princ_s(), page_title@);
                j >= 0 && !old(self).princ_s()[j].1.expired_at(now_ms, old(self).principle_ttl())
                    ==> {
                    let e = old(self).princ_s()[j];
                    &&& r matches Some(v) && v.deep_view() == e.1.data.deep_view()
                    &&& final(self).princ_s() == old(self).princ_s().update(
                        j,
                        (
                            e.0,
                            CacheEntry {
                                data: e.1.data,
                                timestamp_ms: e.1.timestamp_ms,
                                access_count: sat_inc(e.1.access_count),
                            },
                        ),
                    )
                }
            }),
    {
        proof {
            lemma_find_key(old(self).princ_s(), page_title@);
        }
        let got = store_get(&mut self.principles, page_title, now_ms, self.principle_ttl_ms);
        proof {
            lemma_store_shrink_unique(old(self).princ_s(), self.principles@, page_title@, now_ms, old(self).principle_ttl());
        }
        match got {
            None => None,
            Some(i) => Some(crate::types::clone_principles(&self.principles[i].1.data)),
        }
    }

    /// Caches a principle set under the page title.
    pub fn cache_principles(
        &mut self,
        page_title: String,
        principles: Vec<crate::types::EngineeringPrinciple>,
        now_ms: u64,
    )
        requires
            old(self).wf(),
        ensures
            final(self).wf(),
            final(self).pages_s() == old(self).pages_s(),
            final(self).nodes_s() == old(self).nodes_s(),
            final(self).page_ttl() == old(self).page_ttl(),
            final(self).principle_ttl() == old(self).principle_ttl(),
            final(self).capacity() == old(self).capacity(),
            final(self).princ_s() == store_after_insert(
                old(self).princ_s(),
                page_title,
                CacheEntry { data: principles, timestamp_ms: now_ms, access_count: 1 },
                old(self).capacity(),
            ),
    {
        store_insert(&mut self.principles, self.max_entries, page_title, principles, now_ms);
    }

    /// Reads a cached analysis subtree, with the same lifecycle as page
    /// reads; subtrees live as long as principle sets.
    pub fn get_analysis_node(&mut self, cache_key: &str, now_ms: u64) -> (r: Option<
        crate::types::AnalysisNode,
    >)
        requires
            old(self).wf(),
        ensures
            final(self).wf(),
            final(self).pages_s() == old(self).pages_s(),
            final(self).princ_s() == old(self).princ_s(),
            final(self).page_ttl() == old(self).page_ttl(),
            final(self).principle_ttl() == old(self).principle_ttl(),
            final(self).capacity() == old(self).capacity(),
            find_key(old(self).nodes_s(), cache_key@) == -1 ==> r is None && final(self).nodes_s()
                == old(self).nodes_s(),
            ({
                let j = find_key(old(self).nodes_s(), cache_key@);
                j >= 0 && old(self).nodes_s()[j].1.expired_at(now_ms, old(self).principle_ttl())
                    ==> r is None && final(self).nodes_s() == old(self).nodes_s().remove(j)
            }),
            ({
                let j = find_key(old(self).nodes_s(), cache_key@);
                j >= 0 && !old(self).nodes_s()[j].1.expired_at(now_ms, old(self).principle_ttl())
                    ==> {
                    let e = old(self).nodes_s()[j];
                    &&& r matches Some(n) && n@ == e.1.data@
                    &&& final(self).nodes_s() == old(self).nodes_s().update(
                        j,
                        (
                            e.0,
                            CacheEntry {
                                data: e.1.data,
                                timestamp_ms: e.1.timestamp_ms,
                                access_count: sat_inc(e.1.access_count),
                            },
                        ),
                    )
                }
            }),
    {
        proof {
            lemma_find_key(old(self).nodes_s(), cache_key@);
        }
        let got = store_get(&mut self.analysis_nodes, cache_key, now_ms, self.principle_ttl_ms);
        proof {
            lemma_store_shrink_unique(old(self).nodes_s(), self.analysis_nodes@, cache_key@, now_ms, old(self).principle_ttl());
        }
        match got {
            None => None,
            Some(i) => Some(self.analysis_nodes[i].1.data.duplicate()),
        }
    }

    /// Caches an analysis subtree under its request key.
    pub fn cache_analysis_node(
        &mut self,
        cache_key: String,
        node: crate::types::AnalysisNode,
        now_ms: u64,
    )
        requires
            old(self).wf(),
        ensures
            final(self).wf(),
            final(self).pages_s() == old(self).pages_s(),
            final(self).princ_s() == old(self).princ_s(),
            final(self).page_ttl() == old(self).page_ttl(),
            final(self).principle_ttl() == old(self).principle_ttl(),
            final(self).capacity() == old(self).capacity(),
            final(self).nodes_s() == store_after_insert(
                old(self).nodes_s(),
                cache_key,
                CacheEntry { data: node, timestamp_ms: now_ms, access_count: 1 },
                old(self).capacity(),
            ),
    {
        store_insert(&mut self.analysis_nodes, self.max_entries, cache_key, node, now_ms);
    }

    /// The deterministic subtree key for `(term, max_depth, max_results)`.
    pub fn generate_analysis_cache_key(&self, term: &str, max_depth: u8, max_results: u8) -> (r:
        String)
        ensures
            r@ == analysis_key_of(term@, max_depth, max_results),
    {
        let colon = String::from_str(":");
        let r = String::from_str("analysis:").concat(term).concat(colon.as_str()).concat(
            crate::text::u8_to_string(max_depth).as_str(),
        ).concat(colon.as_str()).concat(crate::text::u8_to_string(max_results).as_str());
        proof {
            reveal_strlit(":");
        }
        r
    }

    /// Deletes every expired entry from all three stores.
    pub fn cleanup_expired(&mut self, now_ms: u64)
        requires
            old(self).wf(),
        ensures
            final(self).wf(),
            final(self).pages_s() == live_entries(
                old(self).pages_s(),
                now_ms,
                old(self).page_ttl(),
            ),
            final(self).princ_s() == live_entries(
                old(self).princ_s(),
                now_ms,
                old(self).principle_ttl(),
            ),
            final(self).nodes_s() == live_entries(
                old(self).nodes_s(),
                now_ms,
                old(self).principle_ttl(),
            ),
            final(self).page_ttl() == old(self).page_ttl(),
            final(self).principle_ttl() == old(self).principle_ttl(),
            final(self).capacity() == old(self).capacity(),
    {
        proof {
            lemma_live_entries_unique(old(self).pages_s(), now_ms, old(self).page_ttl());
            lemma_live_entries_unique(old(self).princ_s(), now_ms, old(self).principle_ttl());
            lemma_live_entries_unique(old(self).nodes_s(), now_ms, old(self).principle_ttl());
        }
        store_sweep(&mut self.wikipedia_pages, now_ms, self.page_ttl_ms);
        store_sweep(&mut self.principles, now_ms, self.principle_ttl_ms);
        store_sweep(&mut self.analysis_nodes, now_ms, self.principle_ttl_ms);
    }

    /// Store sizes and the fixed-weight memory estimate: a kilobyte per
    /// page, half per principle set, two per subtree.
    pub fn get_cache_stats(&self) -> (r: CacheStats)
        requires
            self.wf(),
        ensures
            r.wikipedia_pages_count == self.pages_s().len(),
            r.principles_count == self.princ_s().len(),
            r.analysis_nodes_count == self.nodes_s().len(),
            r.total_memory_usage == self.pages_s().len() * 1024 + self.princ_s().len() * 512
                + self.nodes_s().len() * 2048,
    {
        let pages_size: u64 = self.wikipedia_pages.len() as u64 * 1024;
        let principles_size: u64 = self.principles.len() as u64 * 512;
        let nodes_size: u64 = self.analysis_nodes.len() as u64 * 2048;
        CacheStats {
            wikipedia_pages_count: self.wikipedia_pages.len(),
            principles_count: self.principles.len(),
            analysis_nodes_count: self.analysis_nodes.len(),
            total_memory_usage: pages_size + principles_size + nodes_size,
        }
    }

    /// Empties all three stores.
    pub fn clear_all(&mut self)
        ensures
            final(self).wf(),
            final(self).pages_s().len() == 0,
            final(self).princ_s().len() == 0,
            final(self).nodes_s().len() == 0,
            final(self).page_ttl() == old(self).page_ttl(),
            final(self).principle_ttl() == old(self).principle_ttl(),
            final(self).capacity() == old(self).capacity() || final(self).capacity() <= 1_000_000_000,
    {
        self.wikipedia_pages.clear();
        self.principles.clear();
        self.analysis_nodes.clear();
        if self.max_entries > 1_000_000_000 {
            self.max_entries = 1_000_000_000;
        }
    }

    /// A hook for pre-populating the stores with common terms; the stores
    /// are left untouched here, the caller drives any pre-fetching.
    pub fn warm_up(&self, common_terms: &Vec<String>) -> (r: usize)
        ensures
            r == common_terms@.len(),
    {
        common_terms.len()
    }
}

impl Default for WikiEngineCache {
    /// The stock configuration of [`WikiEngineCache::new`].
    fn default() -> (r: Self)
        ensures
            r.wf(),
            r.pages_s().len() == 0,
            r.princ_s().len() == 0,
            r.nodes_s().len() == 0,
            r.page_ttl() == 3_600_000,
            r.principle_ttl() == 7_200_000,
            r.capacity() == 1000,
    {
        Self::new()
    }
}

/// Helper: a `store_get` leaves keys unique and never grows the store.
proof fn lemma_store_shrink_unique<T>(
    pre: Seq<(String, CacheEntry<T>)>,
    post: Seq<(String, CacheEntry<T>)>,
    key: Seq<char>,
    now_ms: u64,
    ttl_ms: u64,
)
    requires
        keys_unique(pre),
        ({
            let j = find_key(pre, key);
            ||| (j == -1 && post == pre)
            ||| (j >= 0 && pre[j].1.expired_at(now_ms, ttl_ms) && post == pre.remove(j))
            ||| (j >= 0 && !pre[j].1.expired_at(now_ms, ttl_ms) && post == pre.update(
                j,
                (
                    pre[j].0,
                    CacheEntry {
                        data: pre[j].1.data,
                        timestamp_ms: pre[j].1.timestamp_ms,
                        access_count: sat_inc(pre[j].1.access_count),
                    },
                ),
            ))
        }),
    ensures
        keys_unique(post),
        post.len() <= pre.len(),
{
    let j = find_key(pre, key);
    lemma_find_key(pre, key);
    if j >= 0 && pre[j].1.expired_at(now_ms, ttl_ms) {
        assert forall|a: int, b: int| 0 <= a < b < post.len() implies (#[trigger] post[a]).0@ != (
        #[trigger] post[b]).0@ by {
            if a < j {
                assert(post[a] == pre[a]);
            } else {
                assert(post[a] == pre[a + 1]);
            }
            if b < j {
                assert(post[b] == pre[b]);
            } else {
                assert(post[b] == pre[b + 1]);
            }
        }
    } else if j >= 0 {
        assert forall|a: int, b: int| 0 <= a < b < post.len() implies (#[trigger] post[a]).0@ != (
        #[trigger] post[b]).0@ by {
            assert(post[a].0@ == pre[a].0@);
            assert(post[b].0@ == pre[b].0@);
        }
    }
}

} // verus!
