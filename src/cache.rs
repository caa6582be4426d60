//! The response cache of the network guard: cache key to response and expiry time,
//! bounded, with the least recently used entry evicted when full. Expired entries are
//! dropped when looked up.
use vstd::prelude::*;
use crate::network::{
    cache_expiry, cache_expiry_of, cache_key, cache_key_of, HttpRequest, HttpResponse, CACHE_CAPACITY,
};
use crate::text::owned;

verus! {

#[verifier::external_type_specification]
#[verifier::external_body]
#[verifier::reject_recursive_types(K)]
#[verifier::reject_recursive_types(V)]
#[verifier::reject_recursive_types(S)]
pub struct ExLruCache<K, V, S>(lru::LruCache<K, V, S>);

#[verifier::external_type_specification]
#[verifier::external_body]
pub struct ExDefaultHasher(lru::DefaultHasher);

/// A cached response: status, headers, body and expiry time in milliseconds.
pub type CachedValue = (u16, Vec<(String, String)>, String, u64);

/// The value of a list of headers.
pub open spec fn header_views(h: Seq<(String, String)>) -> Seq<(Seq<char>, Seq<char>)> {
    h.map_values(|p: (String, String)| (p.0@, p.1@))
}

/// The value of a cached response.
pub open spec fn cached_view(v: CachedValue) -> (u16, Seq<(Seq<char>, Seq<char>)>, Seq<char>, u64) {
    (v.0, header_views(v.1@), v.2@, v.3)
}

/// What an LRU cache of responses holds, by key.
pub uninterp spec fn lru_contents(c: lru::LruCache<String, CachedValue>) -> Map<
    Seq<char>,
    (u16, Seq<(Seq<char>, Seq<char>)>, Seq<char>, u64),
>;

/// The bound an LRU cache of responses was made with.
pub uninterp spec fn lru_capacity(c: lru::LruCache<String, CachedValue>) -> nat;

/// Relies on `LruCache::new`: an empty cache that holds at most `cap` entries.
#[verifier::external_body]
fn lru_new(cap: usize) -> (r: lru::LruCache<String, CachedValue>)
    requires
        cap > 0,
    ensures
        lru_contents(r).dom() == Set::<Seq<char>>::empty(),
        lru_capacity(r) == cap,
{
    lru::LruCache::new(std::num::NonZeroUsize::new(cap).unwrap())
}

/// Relies on `LruCache::get`: the value under `key`, if any; the entry becomes the most
/// recently used, and what the cache holds is unchanged.
#[verifier::external_body]
fn lru_get(c: &mut lru::LruCache<String, CachedValue>, key: &String) -> (r: Option<CachedValue>)
    ensures
        r is Some <==> lru_contents(*old(c)).contains_key(key@),
        r matches Some(v) ==> lru_contents(*old(c))[key@] == cached_view(v),
        lru_contents(*final(c)) == lru_contents(*old(c)),
        lru_capacity(*final(c)) == lru_capacity(*old(c)),
{
    c.get(key).map(|v| (v.0, v.1.clone(), v.2.clone(), v.3))
}

/// Relies on `LruCache::pop`: removes the entry under `key`.
#[verifier::external_body]
fn lru_pop(c: &mut lru::LruCache<String, CachedValue>, key: &String)
    ensures
        lru_contents(*final(c)) == lru_contents(*old(c)).remove(key@),
        lru_capacity(*final(c)) == lru_capacity(*old(c)),
{
    let _ = c.pop(key);
}

/// Relies on `LruCache::put`: stores `value` under `key`. When the key is new and the
/// cache is full, the least recently used entry is evicted first; no other entry changes.
#[verifier::external_body]
fn lru_put(c: &mut lru::LruCache<String, CachedValue>, key: String, value: CachedValue)
    ensures
        lru_contents(*final(c)).contains_key(key@),
        lru_contents(*final(c))[key@] == cached_view(value),
        forall|k: Seq<char>|
            k != key@ && #[trigger] lru_contents(*final(c)).contains_key(k) ==> lru_contents(
                *old(c),
            ).contains_key(k) && lru_contents(*final(c))[k] == lru_contents(*old(c))[k],
        lru_contents(*old(c)).contains_key(key@) || lru_contents(*old(c)).len() < lru_capacity(*old(c))
            ==> lru_contents(*final(c)) == lru_contents(*old(c)).insert(key@, cached_view(value)),
        lru_capacity(*final(c)) == lru_capacity(*old(c)),
{
    let _ = c.put(key, value);
}

/// A copy of a list of headers.
fn copy_headers(h: &Vec<(String, String)>) -> (r: Vec<(String, String)>)
    ensures
        header_views(r@) == header_views(h@),
{
    let mut r: Vec<(String, String)> = Vec::new();
    let mut i: usize = 0;
    while i < h.len()
        invariant
            0 <= i <= h@.len(),
            header_views(r@) == header_views(h@.subrange(0, i as int)),
        decreases h@.len() - i,
    {
        let ghost before = r@;
        r.push((owned(h[i].0.as_str()), owned(h[i].1.as_str())));
        proof {
            assert(header_views(r@) =~= header_views(before).push((h@[i as int].0@, h@[i as int].1@)));
            assert(h@.subrange(0, i + 1) =~= h@.subrange(0, i as int).push(h@[i as int]));
            assert(header_views(h@.subrange(0, i + 1)) =~= header_views(h@.subrange(0, i as int)).push(
                (h@[i as int].0@, h@[i as int].1@),
            ));
        }
        i = i + 1;
    }
    assert(h@.subrange(0, h@.len() as int) =~= h@);
    r
}

/// Responses by cache key.
pub struct ResponseCache {
    entries: lru::LruCache<String, CachedValue>,
}

impl ResponseCache {
    /// What the cache holds, by cache key.
    pub closed spec fn contents(&self) -> Map<Seq<char>, (u16, Seq<(Seq<char>, Seq<char>)>, Seq<char>, u64)> {
        lru_contents(self.entries)
    }

    pub closed spec fn capacity(&self) -> nat {
        lru_capacity(self.entries)
    }

    /// An empty cache of the standard capacity.
    pub fn new() -> (r: Self)
        ensures
            r.contents().dom() == Set::<Seq<char>>::empty(),
            r.capacity() == CACHE_CAPACITY,
    {
        ResponseCache { entries: lru_new(CACHE_CAPACITY) }
    }

    /// The cached response to `req` while it is fresh at `now`; an expired one is
    /// dropped.
    pub fn get_cached(&mut self, req: &HttpRequest, now: u64) -> (r: Option<HttpResponse>)
        ensures
            final(self).capacity() == old(self).capacity(),
            match old(self).contents().get(cache_key_of(*req)) {
                Some(v) => if now < v.3 {
                    final(self).contents() == old(self).contents() && r is Some && r->0.status == v.0
                        && header_views(r->0.headers@) == v.1 && r->0.body@ == v.2
                } else {
                    r is None && final(self).contents() == old(self).contents().remove(cache_key_of(*req))
                },
                None => r is None && final(self).contents() == old(self).contents(),
            },
    {
        let key = cache_key(req);
        match lru_get(&mut self.entries, &key) {
            Some(v) => {
                if now < v.3 {
                    Some(HttpResponse { status: v.0, headers: v.1, body: v.2 })
                } else {
                    lru_pop(&mut self.entries, &key);
                    None
                }
            },
            None => None,
        }
    }

    /// Caches `response` to `req`, fresh until the time to live after `now`.
    pub fn cache_response(&mut self, req: &HttpRequest, response: &HttpResponse, now: u64)
        ensures
            final(self).capacity() == old(self).capacity(),
            final(self).contents().contains_key(cache_key_of(*req)),
            final(self).contents()[cache_key_of(*req)] == (
                response.status,
                header_views(response.headers@),
                response.body@,
                cache_expiry_of(now),
            ),
            forall|k: Seq<char>|
                k != cache_key_of(*req) && #[trigger] final(self).contents().contains_key(k) ==> old(
                    self,
                ).contents().contains_key(k) && final(self).contents()[k] == old(self).contents()[k],
    {
        let key = cache_key(req);
        let value: CachedValue = (
            response.status,
            copy_headers(&response.headers),
            owned(response.body.as_str()),
            cache_expiry(now),
        );
        lru_put(&mut self.entries, key, value);
    }
}

} // verus!
