//! The dedupe cache: a time-bounded memory of recently evicted identities.
//! A late response for an evicted request is absorbed by this cache instead
//! of being flagged as unsolicited.
use vstd::prelude::*;

verus! {

/// One remembered identity together with the time it entered the cache.
#[derive(Clone, Copy, Debug)]
pub struct CacheEntry {
    pub identity: crate::hash::Hash,
    pub inserted_at: u64,
}

/// Whether the cache remembers the given identity.
pub open spec fn cache_contains(c: Seq<CacheEntry>, id: Seq<u8>) -> bool {
    exists|i: int| 0 <= i < c.len() && c[i].identity@ == id
}

/// The cache after inserting an identity at a given time: any previous entry
/// for the same identity is replaced.
pub open spec fn spec_cache_insert(c: Seq<CacheEntry>, e: CacheEntry) -> Seq<CacheEntry> {
    c.filter(|x: CacheEntry| x.identity@ != e.identity@).push(e)
}

/// Time-bounded memory of identities, keyed by identity.
pub struct ExpirableCache {
    entries: Vec<CacheEntry>,
}

impl View for ExpirableCache {
    type V = Seq<CacheEntry>;

    closed spec fn view(&self) -> Seq<CacheEntry> {
        self.entries@
    }
}

impl ExpirableCache {
    pub fn new() -> (r: ExpirableCache)
        ensures
            r@ =~= Seq::<CacheEntry>::empty(),
    {
        ExpirableCache { entries: Vec::new() }
    }

    pub fn len(&self) -> (r: usize)
        ensures
            r == self@.len(),
    {
        self.entries.len()
    }

    pub fn contains(&self, id: &crate::hash::Hash) -> (r: bool)
        ensures
            r == cache_contains(self@, id@),
    {
        let mut i: usize = 0;
        while i < self.entries.len()
            invariant
                i <= self@.len(),
                forall|k: int| 0 <= k < i ==> self@[k].identity@ != id@,
            decreases self@.len() - i,
        {
            if self.entries[i].identity == *id {
                return true;
            }
            i += 1;
        }
        false
    }

    /// Remembers an identity at the given time, replacing any earlier entry
    /// for the same identity.
    pub fn insert(&mut self, identity: crate::hash::Hash, now: u64)
        ensures
            final(self)@ == spec_cache_insert(old(self)@, CacheEntry { identity, inserted_at: now }),
    {
        let ghost c0 = self@;
        let ghost keep_pred = |x: CacheEntry| x.identity@ != identity@;
        let mut kept: Vec<CacheEntry> = Vec::new();
        let mut i: usize = 0;
        proof {
            assert(c0.subrange(0, 0) =~= Seq::<CacheEntry>::empty());
            assert(Seq::<CacheEntry>::empty().filter(keep_pred) =~= Seq::<CacheEntry>::empty()) by {
                reveal(Seq::filter);
            }
        }
        while i < self.entries.len()
            invariant
                self@ == c0,
                i <= c0.len(),
                kept@ == c0.subrange(0, i as int).filter(keep_pred),
            decreases c0.len() - i,
        {
            let e = self.entries[i];
            proof {
                assert(c0.subrange(0, i + 1) =~= c0.subrange(0, i as int).push(c0[i as int]));
                Seq::lemma_filter_push(c0.subrange(0, i as int), c0[i as int], keep_pred);
            }
            if !(e.identity == identity) {
                kept.push(e);
            }
            i += 1;
        }
        proof {
            assert(c0.subrange(0, c0.len() as int) =~= c0);
        }
        kept.push(CacheEntry { identity, inserted_at: now });
        self.entries = kept;
    }

    /// Forgets the identity; returns whether it was remembered.
    pub fn remove(&mut self, id: &crate::hash::Hash) -> (found: bool)
        ensures
            found == cache_contains(old(self)@, id@),
            final(self)@ == old(self)@.filter(|x: CacheEntry| x.identity@ != id@),
    {
        let ghost c0 = self@;
        let ghost keep_pred = |x: CacheEntry| x.identity@ != id@;
        let mut kept: Vec<CacheEntry> = Vec::new();
        let mut found = false;
        let mut i: usize = 0;
        proof {
            assert(c0.subrange(0, 0) =~= Seq::<CacheEntry>::empty());
            assert(Seq::<CacheEntry>::empty().filter(keep_pred) =~= Seq::<CacheEntry>::empty()) by {
                reveal(Seq::filter);
            }
        }
        while i < self.entries.len()
            invariant
                self@ == c0,
                i <= c0.len(),
                kept@ == c0.subrange(0, i as int).filter(keep_pred),
                found == exists|k: int| 0 <= k < i && c0[k].identity@ == id@,
            decreases c0.len() - i,
        {
            let e = self.entries[i];
            proof {
                assert(c0.subrange(0, i + 1) =~= c0.subrange(0, i as int).push(c0[i as int]));
                Seq::lemma_filter_push(c0.subrange(0, i as int), c0[i as int], keep_pred);
            }
            if e.identity == *id {
                found = true;
                proof {
                    assert(c0[i as int].identity@ == id@);
                }
            } else {
                kept.push(e);
            }
            i += 1;
        }
        proof {
            assert(c0.subrange(0, c0.len() as int) =~= c0);
        }
        self.entries = kept;
        found
    }

    /// Drops every entry older than the retention window: an entry inserted
    /// at time `t` survives a clean at time `now` exactly when
    /// `now < t + retention`.
    pub fn clean(&mut self, retention: u64, now: u64)
        ensures
            final(self)@ == old(self)@.filter(|x: CacheEntry| now < x.inserted_at + retention),
    {
        let ghost c0 = self@;
        let ghost keep_pred = |x: CacheEntry| now < x.inserted_at + retention;
        let mut kept: Vec<CacheEntry> = Vec::new();
        let mut i: usize = 0;
        proof {
            assert(c0.subrange(0, 0) =~= Seq::<CacheEntry>::empty());
            assert(Seq::<CacheEntry>::empty().filter(keep_pred) =~= Seq::<CacheEntry>::empty()) by {
                reveal(Seq::filter);
            }
        }
        while i < self.entries.len()
            invariant
                self@ == c0,
                i <= c0.len(),
                kept@ == c0.subrange(0, i as int).filter(keep_pred),
            decreases c0.len() - i,
        {
            let e = self.entries[i];
            proof {
                assert(c0.subrange(0, i + 1) =~= c0.subrange(0, i as int).push(c0[i as int]));
                Seq::lemma_filter_push(c0.subrange(0, i as int), c0[i as int], keep_pred);
            }
            let fresh = if e.inserted_at > now {
                true
            } else {
                now - e.inserted_at < retention
            };
            if fresh {
                kept.push(e);
            }
            i += 1;
        }
        proof {
            assert(c0.subrange(0, c0.len() as int) =~= c0);
        }
        self.entries = kept;
    }
}

} // verus!
