use vstd::prelude::*;

use crate::store::KeyedStore;

verus! {

/// Cached audio and when it was stored, in milliseconds of a monotonic clock.
pub struct AudioCacheEntry {
    pub data: Vec<u8>,
    pub created_at: u64,
}

/// Synthesised audio by key, kept for `ttl_hours`; at `max_entries` the expired entries
/// are dropped before a new one goes in.
pub struct AudioCache {
    pub cache: KeyedStore<AudioCacheEntry>,
    pub max_entries: usize,
    pub ttl_hours: u64,
}

/// An entry stored at `created_at` is still fresh at `now`.
pub open spec fn is_fresh(created_at: u64, now: u64, ttl_hours: u64) -> bool {
    (if now >= created_at {
        now - created_at
    } else {
        0int
    }) < ttl_hours * 3600000
}

fn fresh(created_at: u64, now: u64, ttl_hours: u64) -> (r: bool)
    ensures
        r == is_fresh(created_at, now, ttl_hours),
{
    let elapsed: u64 = if now >= created_at {
        now - created_at
    } else {
        0
    };
    (elapsed as u128) < (ttl_hours as u128) * 3600000
}

fn copy_bytes(v: &Vec<u8>) -> (r: Vec<u8>)
    ensures
        r@ == v@,
{
    let r = v.clone();
    proof {
        assert(r@ =~= v@);
    }
    r
}

impl AudioCache {
    /// An empty cache.
    pub fn new(max_entries: usize, ttl_hours: u64) -> (r: Self)
        ensures
            r.cache.wf(),
            r.cache@ == Map::<Seq<char>, AudioCacheEntry>::empty(),
            r.max_entries == max_entries,
            r.ttl_hours == ttl_hours,
    {
        AudioCache { cache: KeyedStore::new(), max_entries, ttl_hours }
    }

    /// The audio under `key`, where it is there and still fresh at `now`.
    pub fn get_cached_audio(&self, key: &str, now: u64) -> (r: Option<Vec<u8>>)
        requires
            self.cache.wf(),
        ensures
            r is Some <==> self.cache@.contains_key(key@) && is_fresh(
                self.cache@[key@].created_at,
                now,
                self.ttl_hours,
            ),
            r is Some ==> r->Some_0@ == self.cache@[key@].data@,
    {
        match self.cache.get(key) {
            Some(entry) => {
                if fresh(entry.created_at, now, self.ttl_hours) {
                    Some(copy_bytes(&entry.data))
                } else {
                    None
                }
            },
            None => None,
        }
    }

    /// Stores `data` under `key` at `now`; when the cache is full, the expired entries go
    /// first.
    pub fn cache_audio(&mut self, key: String, data: Vec<u8>, now: u64)
        requires
            old(self).cache.wf(),
        ensures
            final(self).cache.wf(),
            final(self).max_entries == old(self).max_entries,
            final(self).ttl_hours == old(self).ttl_hours,
            final(self).cache@.contains_key(key@),
            final(self).cache@[key@].data == data,
            final(self).cache@[key@].created_at == now,
            forall|k: Seq<char>| k != key@ ==> (#[trigger] final(self).cache@.contains_key(k) <==> (
            old(self).cache@.contains_key(k) && (old(self).cache@.len() < old(self).max_entries
                || is_fresh(old(self).cache@[k].created_at, now, old(self).ttl_hours)))),
            forall|k: Seq<char>| k != key@ && #[trigger] final(self).cache@.contains_key(k)
                ==> final(self).cache@[k] == old(self).cache@[k],
    {
        let full = self.cache.len() >= self.max_entries;
        if full {
            let keys = self.cache.keys();
            let mut i: usize = 0;
            while i < keys.len()
                invariant
                    self.cache.wf(),
                    self.ttl_hours == old(self).ttl_hours,
                    self.max_entries == old(self).max_entries,
                    i <= keys@.len(),
                    forall|q: int| 0 <= q < keys@.len() ==> old(self).cache@.contains_key(#[trigger] keys@[q]@),
                    forall|k: Seq<char>| old(self).cache@.contains_key(k) ==> exists|q: int|
                        0 <= q < keys@.len() && #[trigger] keys@[q]@ == k,
                    forall|a: int, b: int|
                        0 <= a < keys@.len() && 0 <= b < keys@.len() && a != b ==> keys@[a]@ != keys@[b]@,
                    forall|k: Seq<char>| #[trigger] self.cache@.contains_key(k) <==> old(self).cache@.contains_key(k)
                        && !(!is_fresh(old(self).cache@[k].created_at, now, old(self).ttl_hours) && exists|q: int|
                        0 <= q < i && #[trigger] keys@[q]@ == k),
                    forall|k: Seq<char>| #[trigger] self.cache@.contains_key(k) ==> self.cache@[k] == old(self).cache@[k],
                decreases keys.len() - i,
            {
                let key_i = &keys[i];
                let ghost prev = self.cache@;
                let stale = match self.cache.get(key_i.as_str()) {
                    Some(e) => !fresh(e.created_at, now, self.ttl_hours),
                    None => false,
                };
                if stale {
                    let _ = self.cache.remove(key_i.as_str());
                }
                proof {
                    let ki = keys@[i as int]@;
                    assert forall|k: Seq<char>| #[trigger] self.cache@.contains_key(k) implies self.cache@[k] == old(self).cache@[k] by {
                        assert(prev.contains_key(k));
                    }
                    assert forall|k: Seq<char>| #[trigger] self.cache@.contains_key(k) <==> old(self).cache@.contains_key(k)
                        && !(!is_fresh(old(self).cache@[k].created_at, now, old(self).ttl_hours) && exists|q: int|
                        0 <= q < i + 1 && #[trigger] keys@[q]@ == k) by {
                        if k == ki {
                            assert(keys@[i as int]@ == k);
                            if exists|q: int| 0 <= q < i && #[trigger] keys@[q]@ == k {
                                let q = choose|q: int| 0 <= q < i && #[trigger] keys@[q]@ == k;
                                assert(keys@[q]@ != keys@[i as int]@);
                            }
                            if prev.contains_key(k) {
                                assert(prev[k] == old(self).cache@[k]);
                            }
                        } else {
                            if exists|q: int| 0 <= q < i + 1 && #[trigger] keys@[q]@ == k {
                                let q = choose|q: int| 0 <= q < i + 1 && #[trigger] keys@[q]@ == k;
                                assert(q < i);
                            }
                        }
                    }
                }
                i = i + 1;
            }
            proof {
                assert forall|k: Seq<char>| #[trigger] self.cache@.contains_key(k) <==> old(self).cache@.contains_key(k)
                    && is_fresh(old(self).cache@[k].created_at, now, old(self).ttl_hours) by {
                    if old(self).cache@.contains_key(k) {
                        let q = choose|q: int| 0 <= q < keys@.len() && #[trigger] keys@[q]@ == k;
                        assert(keys@[q]@ == k);
                    }
                }
            }
        }
        let _ = self.cache.insert(key, AudioCacheEntry { data, created_at: now });
    }

    /// The number of cached entries.
    pub fn len(&self) -> (r: usize)
        requires
            self.cache.wf(),
        ensures
            r == self.cache@.len(),
    {
        self.cache.len()
    }
}

} // verus!
