//! The DNS answer cache: a bounded LRU from (domain, query type) to the
//! cached answers. The store itself is lru::LruCache; its behaviour is
//! stated over a most-recently-used-first sequence of entries.

use vstd::prelude::*;

use crate::dns_records::{CacheDNSItem, CacheItemV};

verus! {

#[verifier::external_type_specification]
#[verifier::external_body]
#[verifier::reject_recursive_types(K)]
#[verifier::reject_recursive_types(V)]
#[verifier::reject_recursive_types(S)]
pub struct ExLruCache<K, V, S>(lru::LruCache<K, V, S>);

/// A cache key: the queried domain and the query type code.
pub type CacheKey = (Vec<u8>, u16);

/// Key image: domain bytes and query type code.
pub type CacheKeyV = (Seq<u8>, u16);

/// One cache entry image: its key and its items.
pub type CacheEntryV = (CacheKeyV, Seq<CacheItemV>);

/// What the cache holds, most recently used first.
pub uninterp spec fn lru_entries(
    c: &lru::LruCache<CacheKey, Vec<CacheDNSItem>>,
) -> Seq<CacheEntryV>;

/// The bound the cache was created with.
pub uninterp spec fn lru_cap(c: &lru::LruCache<CacheKey, Vec<CacheDNSItem>>) -> nat;

/// Some entry of `s` has the key `k`.
pub open spec fn seq_has_key(s: Seq<CacheEntryV>, k: CacheKeyV) -> bool {
    exists|i: int| 0 <= i < s.len() && (#[trigger] s[i]).0 == k
}

/// The position of the entry with key `k`.
pub open spec fn key_index(s: Seq<CacheEntryV>, k: CacheKeyV) -> int {
    choose|i: int| 0 <= i < s.len() && (#[trigger] s[i]).0 == k
}

/// Keys of `s` are pairwise distinct.
pub open spec fn unique_keys(s: Seq<CacheEntryV>) -> bool {
    forall|i: int, j: int| 0 <= i < j < s.len() ==> (#[trigger] s[i]).0 != (#[trigger] s[j]).0
}

/// The key image of `k`.
pub open spec fn key_view(k: CacheKey) -> CacheKeyV {
    (k.0@, k.1)
}

/// Relies on lru::LruCache::new: a fresh cache is empty and holds at
/// most `cap` entries.
#[verifier::external_body]
fn lru_new(cap: usize) -> (r: lru::LruCache<CacheKey, Vec<CacheDNSItem>>)
    requires
        cap >= 1,
    ensures
        lru_entries(&r) =~= Seq::<CacheEntryV>::empty(),
        lru_cap(&r) == cap,
{
    lru::LruCache::new(std::num::NonZeroUsize::new(cap).unwrap())
}

/// Relies on lru::LruCache::put: a present key takes the new value and
/// moves to the front, returning the old value; a new key enters at the
/// front, evicting the least recently used entry when the cache is full.
#[verifier::external_body]
fn lru_put(
    c: &mut lru::LruCache<CacheKey, Vec<CacheDNSItem>>,
    k: CacheKey,
    v: Vec<CacheDNSItem>,
) -> (r: Option<Vec<CacheDNSItem>>)
    requires
        unique_keys(lru_entries(old(c))),
    ensures
        lru_cap(final(c)) == lru_cap(old(c)),
        unique_keys(lru_entries(final(c))),
        ({
            let s = lru_entries(old(c));
            let kv = key_view(k);
            let fresh = (kv, v.deep_view());
            if seq_has_key(s, kv) {
                let p = key_index(s, kv);
                &&& lru_entries(final(c)) == seq![fresh] + s.remove(p)
                &&& r matches Some(prev) && prev.deep_view() == s[p].1
            } else if s.len() >= lru_cap(old(c)) {
                &&& lru_entries(final(c)) == seq![fresh] + s.drop_last()
                &&& r is None
            } else {
                &&& lru_entries(final(c)) == seq![fresh] + s
                &&& r is None
            }
        }),
{
    c.put(k, v)
}

/// Relies on lru::LruCache::get: a hit hands the value back and moves
/// the entry to the front; a miss changes nothing.
#[verifier::external_body]
fn lru_get(c: &mut lru::LruCache<CacheKey, Vec<CacheDNSItem>>, k: &CacheKey) -> (r: Option<
    Vec<CacheDNSItem>,
>)
    requires
        unique_keys(lru_entries(old(c))),
    ensures
        lru_cap(final(c)) == lru_cap(old(c)),
        unique_keys(lru_entries(final(c))),
        ({
            let s = lru_entries(old(c));
            let kv = key_view(*k);
            if seq_has_key(s, kv) {
                let p = key_index(s, kv);
                &&& lru_entries(final(c)) == seq![s[p]] + s.remove(p)
                &&& r matches Some(v) && v.deep_view() == s[p].1
            } else {
                &&& lru_entries(final(c)) == s
                &&& r is None
            }
        }),
{
    c.get(k).cloned()
}

/// Relies on lru::LruCache::iter: entries come out most recently used
/// first; the cache is left as it stands.
#[verifier::external_body]
fn lru_entries_vec(c: &lru::LruCache<CacheKey, Vec<CacheDNSItem>>) -> (r: Vec<
    (CacheKey, Vec<CacheDNSItem>),
>)
    ensures
        r@.len() == lru_entries(c).len(),
        forall|i: int|
            0 <= i < r@.len() ==> key_view((#[trigger] r@[i]).0) == lru_entries(c)[i].0
                && r@[i].1.deep_view() == lru_entries(c)[i].1,
{
    c.iter().map(|(k, v)| (k.clone(), v.clone())).collect()
}

/// Relies on lru::LruCache::len: how many entries the cache holds.
#[verifier::external_body]
fn lru_len(c: &lru::LruCache<CacheKey, Vec<CacheDNSItem>>) -> (r: usize)
    ensures
        r == lru_entries(c).len(),
{
    c.len()
}

/// The resolver's answer cache.
pub struct DnsCache {
    inner: lru::LruCache<CacheKey, Vec<CacheDNSItem>>,
}

impl DnsCache {
    /// The entries, most recently used first.
    pub closed spec fn model(&self) -> Seq<CacheEntryV> {
        lru_entries(&self.inner)
    }

    /// The bound of the cache.
    pub closed spec fn cap(&self) -> nat {
        lru_cap(&self.inner)
    }

    /// Keys are pairwise distinct.
    pub open spec fn wf(&self) -> bool {
        unique_keys(self.model())
    }

    /// An empty cache bounded by `cap`.
    pub fn new(cap: usize) -> (r: DnsCache)
        requires
            cap >= 1,
        ensures
            r.wf(),
            r.model() =~= Seq::<CacheEntryV>::empty(),
            r.cap() == cap,
    {
        DnsCache { inner: lru_new(cap) }
    }

    /// Stores `v` under `k`: the entry moves to (or enters at) the
    /// front; a full cache drops its least recently used entry.
    pub fn put(&mut self, k: CacheKey, v: Vec<CacheDNSItem>)
        requires
            old(self).wf(),
        ensures
            final(self).wf(),
            final(self).cap() == old(self).cap(),
            ({
                let s = old(self).model();
                let kv = key_view(k);
                let fresh = (kv, v.deep_view());
                if seq_has_key(s, kv) {
                    final(self).model() == seq![fresh] + s.remove(key_index(s, kv))
                } else if s.len() >= old(self).cap() {
                    final(self).model() == seq![fresh] + s.drop_last()
                } else {
                    final(self).model() == seq![fresh] + s
                }
            }),
    {
        let _ = lru_put(&mut self.inner, k, v);
    }

    /// Looks `k` up: a hit hands the items back and refreshes the
    /// entry's recency; a miss changes nothing.
    pub fn get(&mut self, k: &CacheKey) -> (r: Option<Vec<CacheDNSItem>>)
        requires
            old(self).wf(),
        ensures
            final(self).wf(),
            final(self).cap() == old(self).cap(),
            ({
                let s = old(self).model();
                let kv = key_view(*k);
                if seq_has_key(s, kv) {
                    let p = key_index(s, kv);
                    &&& final(self).model() == seq![s[p]] + s.remove(p)
                    &&& r matches Some(v) && v.deep_view() == s[p].1
                } else {
                    &&& final(self).model() == s
                    &&& r is None
                }
            }),
    {
        lru_get(&mut self.inner, k)
    }

    /// Every entry, most recently used first.
    pub fn entries(&self) -> (r: Vec<(CacheKey, Vec<CacheDNSItem>)>)
        ensures
            r@.len() == self.model().len(),
            forall|i: int|
                0 <= i < r@.len() ==> key_view((#[trigger] r@[i]).0) == self.model()[i].0
                    && r@[i].1.deep_view() == self.model()[i].1,
    {
        lru_entries_vec(&self.inner)
    }

    /// How many entries the cache holds.
    pub fn len(&self) -> (r: usize)
        ensures
            r == self.model().len(),
    {
        lru_len(&self.inner)
    }
}

} // verus!
