use vstd::prelude::*;
use vstd::string::StringSliceAdditionalSpecFns;

verus! {

/// The fixed-width key of a source locator: FNV-1a over its UTF-8 bytes.
/// Distinct locators may collide; a collision is not detected, by design.
pub open spec fn fnv_step(h: u64, b: u8) -> u64 {
    (h ^ (b as u64)).wrapping_mul(0x100_0000_01b3u64)
}

/// The FNV-1a hash of a byte string.
pub open spec fn key_of(bs: Seq<u8>) -> u64
    decreases bs.len(),
{
    if bs.len() == 0 {
        0xcbf2_9ce4_8422_2325u64
    } else {
        fnv_step(key_of(bs.drop_last()), bs.last())
    }
}

/// The predicate that keeps every key but `k`.
pub open spec fn ne_key(k: u64) -> spec_fn(u64) -> bool {
    |x: u64| x != k
}

/// A recency list with `k` moved to the front.
pub open spec fn promote(order: Seq<u64>, k: u64) -> Seq<u64> {
    seq![k] + order.filter(ne_key(k))
}

/// How one insertion changes a cache's contents and recency order: an
/// update promotes the key; a new key at capacity evicts the least recently
/// used entry first; a new key under capacity evicts nothing.
pub open spec fn stored(
    map0: Map<u64, Seq<u8>>,
    ord0: Seq<u64>,
    cap: int,
    k: u64,
    v: Seq<u8>,
    map1: Map<u64, Seq<u8>>,
    ord1: Seq<u64>,
) -> bool {
    if map0.contains_key(k) {
        map1 == map0.insert(k, v) && ord1 == promote(ord0, k)
    } else if ord0.len() < cap {
        map1 == map0.insert(k, v) && ord1 == seq![k] + ord0
    } else if ord0.len() > 0 {
        map1 == map0.remove(ord0.last()).insert(k, v) && ord1 == seq![k] + ord0.drop_last()
    } else {
        true
    }
}

/// The store behind the cache: an lru cache from key to payload, hashed by
/// std's default hasher.
pub type LruStore = lru::LruCache<u64, Vec<u8>, std::collections::hash_map::RandomState>;

/// What an lru cache holds: key to stored bytes.
pub uninterp spec fn lru_map(c: LruStore) -> Map<u64, Seq<u8>>;

/// The keys of an lru cache, most recently used first.
pub uninterp spec fn lru_order(c: LruStore) -> Seq<u64>;

/// The capacity an lru cache was created with.
pub uninterp spec fn lru_cap(c: LruStore) -> int;

#[verifier::external_type_specification]
#[verifier::external_body]
#[verifier::reject_recursive_types(K)]
#[verifier::reject_recursive_types(V)]
#[verifier::reject_recursive_types(S)]
pub struct ExLruCache<K, V, S>(lru::LruCache<K, V, S>);

/// Relies on lru's `LruCache::get`: a hit returns the stored value and
/// counts as a use, moving the key to the front of the recency list; a miss
/// changes nothing. The contents never change.
#[verifier::external_body]
fn lru_get(c: &mut LruStore, k: u64) -> (r: Option<Vec<u8>>)
    ensures
        lru_cap(*final(c)) == lru_cap(*old(c)),
        lru_map(*final(c)) == lru_map(*old(c)),
        lru_map(*old(c)).contains_key(k) ==> r is Some && r.unwrap()@ == lru_map(*old(c))[k]
            && lru_order(*final(c)) == promote(lru_order(*old(c)), k),
        !lru_map(*old(c)).contains_key(k) ==> r is None && lru_order(*final(c)) == lru_order(
            *old(c),
        ),
{
    c.get(&k).cloned()
}

/// Relies on lru's `LruCache::put`: the key becomes the most recently used
/// and maps to the new bytes; when a new key arrives at capacity, the least
/// recently used key is dropped first.
#[verifier::external_body]
fn lru_put(c: &mut LruStore, k: u64, v: Vec<u8>)
    ensures
        lru_cap(*final(c)) == lru_cap(*old(c)),
        stored(
            lru_map(*old(c)),
            lru_order(*old(c)),
            lru_cap(*old(c)),
            k,
            v@,
            lru_map(*final(c)),
            lru_order(*final(c)),
        ),
{
    let _ = c.put(k, v);
}


proof fn lemma_filter_ne_mem(ord: Seq<u64>, k: u64, x: u64)
    ensures
        ord.filter(ne_key(k)).contains(x) <==> (ord.contains(x) && x != k),
    decreases ord.len(),
{
    reveal(Seq::filter);
    let f = ord.filter(ne_key(k));
    if ord.len() == 0 {
    } else {
        let prev = ord.drop_last();
        lemma_filter_ne_mem(prev, k, x);
        let fp = prev.filter(ne_key(k));
        assert(prev.contains(x) ==> ord.contains(x)) by {
            if prev.contains(x) {
                let i = choose|i: int| 0 <= i < prev.len() && prev[i] == x;
                assert(ord[i] == x);
            }
        }
        if ord.last() != k {
            assert(f == fp.push(ord.last()));
            if f.contains(x) {
                let i = choose|i: int| 0 <= i < f.len() && f[i] == x;
                if i < f.len() - 1 {
                    assert(fp[i] == x);
                    assert(fp.contains(x));
                } else {
                    assert(x == ord.last());
                    assert(ord.contains(x));
                }
            }
            if ord.contains(x) && x != k {
                let i = choose|i: int| 0 <= i < ord.len() && ord[i] == x;
                if i < ord.len() - 1 {
                    assert(prev[i] == x);
                    assert(prev.contains(x));
                    let j = choose|j: int| 0 <= j < fp.len() && fp[j] == x;
                    assert(f[j] == x);
                } else {
                    assert(f[f.len() - 1] == x);
                }
            }
        } else {
            assert(f == fp);
            if f.contains(x) {
                assert(prev.contains(x));
            }
            if ord.contains(x) && x != k {
                let i = choose|i: int| 0 <= i < ord.len() && ord[i] == x;
                assert(i < ord.len() - 1);
                assert(prev[i] == x);
                assert(prev.contains(x));
            }
        }
    }
}

proof fn lemma_filter_ne_props(ord: Seq<u64>, k: u64)
    ensures
        ord.filter(ne_key(k)).len() <= ord.len(),
        ord.no_duplicates() ==> ord.filter(ne_key(k)).no_duplicates(),
        ord.no_duplicates() && ord.contains(k) ==> ord.filter(ne_key(k)).len() + 1
            <= ord.len(),
    decreases ord.len(),
{
    reveal(Seq::filter);
    let f = ord.filter(ne_key(k));
    if ord.len() == 0 {
    } else {
        let prev = ord.drop_last();
        lemma_filter_ne_props(prev, k);
        let fp = prev.filter(ne_key(k));
        if ord.no_duplicates() {
            assert(prev.no_duplicates()) by {
                assert(forall|i: int, j: int|
                    0 <= i < j < prev.len() ==> prev[i] == ord[i] && prev[j] == ord[j]);
            }
        }
        if ord.last() != k {
            assert(f == fp.push(ord.last()));
            if ord.no_duplicates() {
                assert(!prev.contains(ord.last())) by {
                    if prev.contains(ord.last()) {
                        let i = choose|i: int| 0 <= i < prev.len() && prev[i] == ord.last();
                        assert(ord[i] == ord.last());
                    }
                }
                lemma_filter_ne_mem(prev, k, ord.last());
                assert(!fp.contains(ord.last()));
                assert(f.no_duplicates()) by {
                    assert forall|i: int, j: int| 0 <= i < j < f.len() implies f[i] != f[j] by {
                        if j < f.len() - 1 {
                            assert(f[i] == fp[i] && f[j] == fp[j]);
                        } else {
                            assert(f[i] == fp[i]);
                            assert(fp.contains(fp[i]));
                        }
                    }
                }
                if ord.contains(k) {
                    assert(prev.contains(k)) by {
                        let i = choose|i: int| 0 <= i < ord.len() && ord[i] == k;
                        assert(i < ord.len() - 1);
                        assert(prev[i] == k);
                    }
                }
            }
        } else {
            assert(f == fp);
        }
    }
}

proof fn lemma_promote(ord: Seq<u64>, k: u64)
    requires
        ord.no_duplicates(),
    ensures
        promote(ord, k).no_duplicates(),
        ord.contains(k) ==> promote(ord, k).len() <= ord.len(),
        promote(ord, k).len() <= ord.len() + 1,
{
    lemma_filter_ne_props(ord, k);
    let f = ord.filter(ne_key(k));
    let p = promote(ord, k);
    assert(p.len() == 1 + f.len());
    lemma_filter_ne_mem(ord, k, k);
    assert(!f.contains(k));
    assert forall|i: int, j: int| 0 <= i < j < p.len() implies p[i] != p[j] by {
        if i == 0 {
            assert(p[j] == f[j - 1]);
            assert(f.contains(f[j - 1]));
        } else {
            assert(p[i] == f[i - 1] && p[j] == f[j - 1]);
        }
    }
}

proof fn lemma_promote_mem(ord: Seq<u64>, k: u64, x: u64)
    ensures
        promote(ord, k).contains(x) <==> (x == k || ord.contains(x) && x != k),
{
    lemma_filter_ne_mem(ord, k, x);
    let f = ord.filter(ne_key(k));
    let p = promote(ord, k);
    if p.contains(x) {
        let i = choose|i: int| 0 <= i < p.len() && p[i] == x;
        if i > 0 {
            assert(f[i - 1] == x);
            assert(f.contains(x));
        }
    }
    if x == k {
        assert(p[0] == x);
    } else if ord.contains(x) {
        assert(f.contains(x));
        let i = choose|i: int| 0 <= i < f.len() && f[i] == x;
        assert(p[1 + i] == x);
    }
}

proof fn lemma_drop_last_no_dup(ord: Seq<u64>)
    requires
        ord.no_duplicates(),
        ord.len() > 0,
    ensures
        ord.drop_last().no_duplicates(),
{
    let prev = ord.drop_last();
    assert(forall|i: int, j: int|
        0 <= i < j < prev.len() ==> prev[i] == ord[i] && prev[j] == ord[j]);
}

proof fn lemma_drop_last_mem(ord: Seq<u64>, x: u64)
    requires
        ord.no_duplicates(),
        ord.len() > 0,
    ensures
        ord.drop_last().contains(x) <==> (ord.contains(x) && x != ord.last()),
{
    let prev = ord.drop_last();
    if prev.contains(x) {
        let i = choose|i: int| 0 <= i < prev.len() && prev[i] == x;
        assert(ord[i] == x);
    }
    if ord.contains(x) && x != ord.last() {
        let i = choose|i: int| 0 <= i < ord.len() && ord[i] == x;
        assert(i < ord.len() - 1);
        assert(prev[i] == x);
    }
}

proof fn lemma_cons_mem(k: u64, t: Seq<u64>, x: u64)
    ensures
        (seq![k] + t).contains(x) <==> (x == k || t.contains(x)),
{
    let s = seq![k] + t;
    if s.contains(x) {
        let i = choose|i: int| 0 <= i < s.len() && s[i] == x;
        if i > 0 {
            assert(t[i - 1] == x);
        }
    }
    if x == k {
        assert(s[0] == x);
    }
    if t.contains(x) {
        let i = choose|i: int| 0 <= i < t.len() && t[i] == x;
        assert(s[1 + i] == x);
    }
}

proof fn lemma_cons_no_dup(k: u64, t: Seq<u64>)
    requires
        t.no_duplicates(),
        !t.contains(k),
    ensures
        (seq![k] + t).no_duplicates(),
{
    let s = seq![k] + t;
    assert forall|i: int, j: int| 0 <= i < j < s.len() implies s[i] != s[j] by {
        if i == 0 {
            assert(s[j] == t[j - 1]);
            assert(t.contains(t[j - 1]));
        } else {
            assert(s[i] == t[i - 1] && s[j] == t[j - 1]);
        }
    }
}

/// Hashes a locator to its fixed-width cache key.
pub fn locator_key(s: &str) -> (r: u64)
    ensures
        r == key_of(s.spec_bytes()),
{
    let bs = s.as_bytes();
    let n: usize = bs.len();
    let mut h: u64 = 0xcbf2_9ce4_8422_2325;
    let mut i: usize = 0;
    while i < n
        invariant
            n == bs@.len(),
            0 <= i <= n,
            h == key_of(bs@.take(i as int)),
        decreases n - i,
    {
        h = (h ^ (bs[i] as u64)).wrapping_mul(0x100_0000_01b3u64);
        proof {
            assert(bs@.take(i as int + 1).drop_last() =~= bs@.take(i as int));
            assert(bs@.take(i as int + 1).last() == bs@[i as int]);
        }
        i += 1;
    }
    proof {
        assert(bs@.take(n as int) =~= bs@);
    }
    h
}

/// The bounded source cache: fetched payloads keyed by the hash of their
/// locator, evicted least-recently-used first. The cache owns its bytes and
/// hands out clones.
pub struct SourceCache {
    inner: LruStore,
}

impl SourceCache {
    /// The stored payloads, by key.
    pub closed spec fn entries(&self) -> Map<u64, Seq<u8>> {
        lru_map(self.inner)
    }

    /// The keys, most recently used first.
    pub closed spec fn order(&self) -> Seq<u64> {
        lru_order(self.inner)
    }

    /// The capacity the cache was configured with.
    pub closed spec fn cap(&self) -> int {
        lru_cap(self.inner)
    }

    /// The cache's well-formedness: the recency order lists each stored key
    /// exactly once and nothing else, and never grows past the capacity — so
    /// at most `cap` payloads are ever held.
    pub open spec fn inv(&self) -> bool {
        &&& self.cap() >= 1
        &&& self.order().no_duplicates()
        &&& self.entries().dom() == self.order().to_set()
        &&& self.order().len() <= self.cap()
    }

    /// A cache that can hold at most `capacity` payloads. Relies on lru's
    /// `LruCache::new`: a fresh cache of the given capacity holds nothing.
    #[verifier::external_body]
    pub fn new(capacity: usize) -> (r: SourceCache)
        requires
            capacity >= 1,
        ensures
            r.entries() =~= Map::empty(),
            r.order() =~= Seq::empty(),
            r.cap() == capacity,
    {
        SourceCache {
            inner: lru::LruCache::with_hasher(
                std::num::NonZeroUsize::new(capacity).unwrap(),
                std::collections::hash_map::RandomState::new(),
            ),
        }
    }

    /// Looks the locator up. A hit returns exactly the stored bytes, stores
    /// nothing, fetches nothing, and only moves the key to the front of the
    /// recency order; a miss returns nothing and leaves the cache as it was.
    pub fn lookup(&mut self, locator: &str) -> (r: Option<Vec<u8>>)
        ensures
            final(self).cap() == old(self).cap(),
            final(self).entries() == old(self).entries(),
            old(self).entries().contains_key(key_of(locator.spec_bytes())) ==> r is Some
                && r.unwrap()@ == old(self).entries()[key_of(locator.spec_bytes())]
                && final(self).order() == promote(old(self).order(), key_of(locator.spec_bytes())),
            !old(self).entries().contains_key(key_of(locator.spec_bytes())) ==> r is None
                && final(self).order() == old(self).order(),
            old(self).inv() ==> final(self).inv(),
    {
        let k = locator_key(locator);
        let r = lru_get(&mut self.inner, k);
        proof {
            if old(self).inv() && old(self).entries().contains_key(k) {
                assert(old(self).order().to_set().contains(k));
                lemma_promote(old(self).order(), k);
                assert forall|x: u64|
                    self.order().to_set().contains(x) == self.entries().dom().contains(x) by {
                    lemma_promote_mem(old(self).order(), k, x);
                }
                assert(self.entries().dom() =~= self.order().to_set());
            }
        }
        r
    }

    /// Stores a fetched payload under the locator's key: the key becomes the
    /// most recently used, and when a new key arrives at capacity the least
    /// recently used entry is evicted first.
    pub fn store(&mut self, locator: &str, data: Vec<u8>)
        ensures
            final(self).cap() == old(self).cap(),
            stored(
                old(self).entries(),
                old(self).order(),
                old(self).cap(),
                key_of(locator.spec_bytes()),
                data@,
                final(self).entries(),
                final(self).order(),
            ),
            old(self).inv() ==> final(self).inv(),
    {
        let k = locator_key(locator);
        lru_put(&mut self.inner, k, data);
        proof {
            if old(self).inv() {
                let m0 = old(self).entries();
                let o0 = old(self).order();
                if m0.contains_key(k) {
                    assert(o0.to_set().contains(k));
                    lemma_promote(o0, k);
                    assert forall|x: u64|
                        self.order().to_set().contains(x) == self.entries().dom().contains(x) by {
                        lemma_promote_mem(o0, k, x);
                    }
                    assert(self.entries().dom() =~= self.order().to_set());
                } else if o0.len() < old(self).cap() {
                    assert(!o0.to_set().contains(k));
                    assert(!o0.contains(k));
                    lemma_cons_no_dup(k, o0);
                    assert forall|x: u64|
                        self.order().to_set().contains(x) == self.entries().dom().contains(x) by {
                        lemma_cons_mem(k, o0, x);
                    }
                    assert(self.entries().dom() =~= self.order().to_set());
                } else {
                    assert(o0.len() > 0);
                    let last = o0.last();
                    assert(o0.contains(last));
                    assert(o0.to_set().contains(last));
                    assert(!o0.to_set().contains(k));
                    assert(!o0.contains(k));
                    lemma_drop_last_no_dup(o0);
                    assert(!o0.drop_last().contains(k)) by {
                        lemma_drop_last_mem(o0, k);
                    }
                    lemma_cons_no_dup(k, o0.drop_last());
                    assert forall|x: u64|
                        self.order().to_set().contains(x) == self.entries().dom().contains(x) by {
                        lemma_cons_mem(k, o0.drop_last(), x);
                        lemma_drop_last_mem(o0, x);
                    }
                    assert(self.entries().dom() =~= self.order().to_set());
                }
            }
        }
    }
}


/// A fresh cache satisfies the invariant: nothing is held, and the empty
/// order lists exactly the empty contents.
pub proof fn lemma_fresh_cache_inv(c: &SourceCache)
    requires
        c.entries() == Map::<u64, Seq<u8>>::empty(),
        c.order() == Seq::<u64>::empty(),
        c.cap() >= 1,
    ensures
        c.inv(),
{
    assert(c.entries().dom() =~= c.order().to_set());
}

/// Eviction law: storing a fresh key in a full cache drops exactly the least
/// recently used entry. The evicted key is gone, the new key is present with
/// its bytes, every other entry keeps its bytes, and the new key heads the
/// recency order.
pub proof fn lemma_eviction(
    map0: Map<u64, Seq<u8>>,
    ord0: Seq<u64>,
    cap: int,
    k: u64,
    v: Seq<u8>,
    map1: Map<u64, Seq<u8>>,
    ord1: Seq<u64>,
)
    requires
        stored(map0, ord0, cap, k, v, map1, ord1),
        !map0.contains_key(k),
        ord0.len() == cap,
        cap >= 1,
        map0.dom() == ord0.to_set(),
    ensures
        !map1.contains_key(ord0.last()),
        map1.contains_key(k) && map1[k] == v,
        forall|k2: u64|
            map0.contains_key(k2) && k2 != ord0.last() ==> map1.contains_key(k2) && map1[k2]
                == map0[k2],
        ord1 == seq![k] + ord0.drop_last(),
{
    assert(ord0.contains(ord0.last()));
    assert(ord0.to_set().contains(ord0.last()));
    assert(map0.contains_key(ord0.last()));
    assert(k != ord0.last());
}

} // verus!
