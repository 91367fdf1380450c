//! Per-tier fetch counters, aggregated on the store and published at flush.

use vstd::prelude::*;

verus! {

pub open spec fn spec_sat_add(a: u64, b: u64) -> u64 {
    if a + b > u64::MAX {
        u64::MAX
    } else {
        (a + b) as u64
    }
}

/// Addition that sticks at the largest value instead of overflowing.
#[verifier::when_used_as_spec(spec_sat_add)]
pub fn sat_add(a: u64, b: u64) -> (r: u64)
    ensures
        r == spec_sat_add(a, b),
{
    if b > u64::MAX - a {
        u64::MAX
    } else {
        a + b
    }
}

pub open spec fn spec_sat_sub(a: u64, b: u64) -> u64 {
    if a >= b {
        (a - b) as u64
    } else {
        0
    }
}

/// Subtraction that stops at zero instead of underflowing.
#[verifier::when_used_as_spec(spec_sat_sub)]
pub fn sat_sub(a: u64, b: u64) -> (r: u64)
    ensures
        r == spec_sat_sub(a, b),
{
    if a >= b {
        a - b
    } else {
        0
    }
}

/// Relies on std::time::SystemTime::now for a wall-clock reading in
/// milliseconds since the Unix epoch, truncated to 64 bits. Used only to
/// measure elapsed time for the timing counters; nothing is promised of the
/// value.
#[verifier::external_body]
pub fn now_millis() -> u64 {
    match std::time::SystemTime::now().duration_since(std::time::UNIX_EPOCH) {
        Ok(d) => d.as_millis() as u64,
        Err(_) => 0,
    }
}

/// The tiers that keep fetch counters.
#[derive(Clone, Copy, Debug, PartialEq, Eq, Structural)]
pub enum TierId {
    IndexedlogCache,
    IndexedlogLocal,
    Edenapi,
    Contentstore,
}

/// The counters kept for each tier.
#[derive(Clone, Copy, Debug, PartialEq, Eq, Structural)]
pub enum CounterKind {
    Fetches,
    Hits,
    Misses,
    TimeMs,
}

/// Counters of one tier: how many keys were asked of it, how many it
/// supplied, how many it missed, and how long its calls took.
#[derive(Clone, Copy, Debug, PartialEq, Eq, Structural)]
pub struct FetchMetrics {
    pub fetches: u64,
    pub hits: u64,
    pub misses: u64,
    pub time_ms: u64,
}

impl FetchMetrics {
    pub open spec fn spec_zero() -> FetchMetrics {
        FetchMetrics { fetches: 0, hits: 0, misses: 0, time_ms: 0 }
    }

    /// All counters at zero.
    #[verifier::when_used_as_spec(spec_zero)]
    pub fn zero() -> (r: FetchMetrics)
        ensures
            r == FetchMetrics::spec_zero(),
    {
        FetchMetrics { fetches: 0, hits: 0, misses: 0, time_ms: 0 }
    }

    /// Records that `n` keys were asked of the tier.
    pub fn fetch(&mut self, n: u64)
        ensures
            *final(self) == (FetchMetrics { fetches: sat_add(old(self).fetches, n), ..*old(self) }),
    {
        self.fetches = sat_add(self.fetches, n);
    }

    /// Records that the tier supplied `n` keys.
    pub fn hit(&mut self, n: u64)
        ensures
            *final(self) == (FetchMetrics { hits: sat_add(old(self).hits, n), ..*old(self) }),
    {
        self.hits = sat_add(self.hits, n);
    }

    /// Records that the tier missed `n` keys.
    pub fn miss(&mut self, n: u64)
        ensures
            *final(self) == (FetchMetrics { misses: sat_add(old(self).misses, n), ..*old(self) }),
    {
        self.misses = sat_add(self.misses, n);
    }

    /// Adds elapsed time to the tier's clock.
    pub fn add_time(&mut self, ms: u64)
        ensures
            *final(self) == (FetchMetrics { time_ms: sat_add(old(self).time_ms, ms), ..*old(self) }),
    {
        self.time_ms = sat_add(self.time_ms, ms);
    }

    pub open spec fn spec_merged(self, other: FetchMetrics) -> FetchMetrics {
        FetchMetrics {
            fetches: spec_sat_add(self.fetches, other.fetches),
            hits: spec_sat_add(self.hits, other.hits),
            misses: spec_sat_add(self.misses, other.misses),
            time_ms: spec_sat_add(self.time_ms, other.time_ms),
        }
    }

    /// Adds another tier reading counter-wise into this one.
    pub fn merge_from(&mut self, other: &FetchMetrics)
        ensures
            *final(self) == old(self).spec_merged(*other),
    {
        self.fetches = sat_add(self.fetches, other.fetches);
        self.hits = sat_add(self.hits, other.hits);
        self.misses = sat_add(self.misses, other.misses);
        self.time_ms = sat_add(self.time_ms, other.time_ms);
    }
}

/// One fetch pass's counters for every tier.
#[derive(Clone, Copy, Debug, PartialEq, Eq, Structural)]
pub struct TreeStoreFetchMetrics {
    pub indexedlog_cache: FetchMetrics,
    pub indexedlog_local: FetchMetrics,
    pub edenapi: FetchMetrics,
    pub contentstore: FetchMetrics,
}

impl TreeStoreFetchMetrics {
    pub open spec fn spec_zero() -> TreeStoreFetchMetrics {
        TreeStoreFetchMetrics {
            indexedlog_cache: FetchMetrics::spec_zero(),
            indexedlog_local: FetchMetrics::spec_zero(),
            edenapi: FetchMetrics::spec_zero(),
            contentstore: FetchMetrics::spec_zero(),
        }
    }

    /// All counters at zero.
    #[verifier::when_used_as_spec(spec_zero)]
    pub fn zero() -> (r: TreeStoreFetchMetrics)
        ensures
            r == TreeStoreFetchMetrics::spec_zero(),
    {
        TreeStoreFetchMetrics {
            indexedlog_cache: FetchMetrics::zero(),
            indexedlog_local: FetchMetrics::zero(),
            edenapi: FetchMetrics::zero(),
            contentstore: FetchMetrics::zero(),
        }
    }

    pub open spec fn spec_merged(self, other: TreeStoreFetchMetrics) -> TreeStoreFetchMetrics {
        TreeStoreFetchMetrics {
            indexedlog_cache: self.indexedlog_cache.spec_merged(other.indexedlog_cache),
            indexedlog_local: self.indexedlog_local.spec_merged(other.indexedlog_local),
            edenapi: self.edenapi.spec_merged(other.edenapi),
            contentstore: self.contentstore.spec_merged(other.contentstore),
        }
    }

    /// Adds another pass's counters tier-wise into this one.
    pub fn merge_from(&mut self, other: &TreeStoreFetchMetrics)
        ensures
            *final(self) == old(self).spec_merged(*other),
    {
        self.indexedlog_cache.merge_from(&other.indexedlog_cache);
        self.indexedlog_local.merge_from(&other.indexedlog_local);
        self.edenapi.merge_from(&other.edenapi);
        self.contentstore.merge_from(&other.contentstore);
    }
}

/// The lifetime counters of a store, published and reset at flush.
#[derive(Clone, Copy, Debug, PartialEq, Eq, Structural)]
pub struct TreeStoreMetrics {
    pub fetch: TreeStoreFetchMetrics,
}

impl TreeStoreMetrics {
    pub open spec fn spec_zero() -> TreeStoreMetrics {
        TreeStoreMetrics { fetch: TreeStoreFetchMetrics::spec_zero() }
    }

    /// All counters at zero.
    #[verifier::when_used_as_spec(spec_zero)]
    pub fn zero() -> (r: TreeStoreMetrics)
        ensures
            r == TreeStoreMetrics::spec_zero(),
    {
        TreeStoreMetrics { fetch: TreeStoreFetchMetrics::zero() }
    }

    /// The counters laid out for a metrics sink, one named value each.
    pub open spec fn spec_counters(self) -> Seq<(TierId, CounterKind, u64)> {
        seq![
            (TierId::IndexedlogCache, CounterKind::Fetches, self.fetch.indexedlog_cache.fetches),
            (TierId::IndexedlogCache, CounterKind::Hits, self.fetch.indexedlog_cache.hits),
            (TierId::IndexedlogCache, CounterKind::Misses, self.fetch.indexedlog_cache.misses),
            (TierId::IndexedlogCache, CounterKind::TimeMs, self.fetch.indexedlog_cache.time_ms),
            (TierId::IndexedlogLocal, CounterKind::Fetches, self.fetch.indexedlog_local.fetches),
            (TierId::IndexedlogLocal, CounterKind::Hits, self.fetch.indexedlog_local.hits),
            (TierId::IndexedlogLocal, CounterKind::Misses, self.fetch.indexedlog_local.misses),
            (TierId::IndexedlogLocal, CounterKind::TimeMs, self.fetch.indexedlog_local.time_ms),
            (TierId::Edenapi, CounterKind::Fetches, self.fetch.edenapi.fetches),
            (TierId::Edenapi, CounterKind::Hits, self.fetch.edenapi.hits),
            (TierId::Edenapi, CounterKind::Misses, self.fetch.edenapi.misses),
            (TierId::Edenapi, CounterKind::TimeMs, self.fetch.edenapi.time_ms),
            (TierId::Contentstore, CounterKind::Fetches, self.fetch.contentstore.fetches),
            (TierId::Contentstore, CounterKind::Hits, self.fetch.contentstore.hits),
            (TierId::Contentstore, CounterKind::Misses, self.fetch.contentstore.misses),
            (TierId::Contentstore, CounterKind::TimeMs, self.fetch.contentstore.time_ms),
        ]
    }

    /// Lays the counters out for a metrics sink, one named value each.
    pub fn counters(&self) -> (r: Vec<(TierId, CounterKind, u64)>)
        ensures
            r@ == self.spec_counters(),
    {
        let mut r: Vec<(TierId, CounterKind, u64)> = Vec::new();
        r.push((TierId::IndexedlogCache, CounterKind::Fetches, self.fetch.indexedlog_cache.fetches));
        r.push((TierId::IndexedlogCache, CounterKind::Hits, self.fetch.indexedlog_cache.hits));
        r.push((TierId::IndexedlogCache, CounterKind::Misses, self.fetch.indexedlog_cache.misses));
        r.push((TierId::IndexedlogCache, CounterKind::TimeMs, self.fetch.indexedlog_cache.time_ms));
        r.push((TierId::IndexedlogLocal, CounterKind::Fetches, self.fetch.indexedlog_local.fetches));
        r.push((TierId::IndexedlogLocal, CounterKind::Hits, self.fetch.indexedlog_local.hits));
        r.push((TierId::IndexedlogLocal, CounterKind::Misses, self.fetch.indexedlog_local.misses));
        r.push((TierId::IndexedlogLocal, CounterKind::TimeMs, self.fetch.indexedlog_local.time_ms));
        r.push((TierId::Edenapi, CounterKind::Fetches, self.fetch.edenapi.fetches));
        r.push((TierId::Edenapi, CounterKind::Hits, self.fetch.edenapi.hits));
        r.push((TierId::Edenapi, CounterKind::Misses, self.fetch.edenapi.misses));
        r.push((TierId::Edenapi, CounterKind::TimeMs, self.fetch.edenapi.time_ms));
        r.push((TierId::Contentstore, CounterKind::Fetches, self.fetch.contentstore.fetches));
        r.push((TierId::Contentstore, CounterKind::Hits, self.fetch.contentstore.hits));
        r.push((TierId::Contentstore, CounterKind::Misses, self.fetch.contentstore.misses));
        r.push((TierId::Contentstore, CounterKind::TimeMs, self.fetch.contentstore.time_ms));
        proof {
            assert(r@ =~= self.spec_counters());
        }
        r
    }
}

} // verus!
