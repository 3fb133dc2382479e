//! The catalog cache: a catalog with the time of its last refresh and a
//! time-to-live, refreshed on read once it is stale.

use vstd::prelude::*;
use crate::catalog::{Catalog, CatalogView};

verus! {

/// The mathematical view of the cache; times are whole seconds.
pub struct CacheView {
    pub catalog: CatalogView,
    pub last_refresh: u64,
    pub ttl: u64,
}

/// The age of a cache at time `now`; a clock that went back counts as no time.
pub open spec fn age(last_refresh: u64, now: u64) -> int {
    if now >= last_refresh {
        now - last_refresh
    } else {
        0
    }
}

/// A cache is stale when its age exceeds its time-to-live.
pub open spec fn is_stale_at(c: CacheView, now: u64) -> bool {
    age(c.last_refresh, now) > c.ttl
}

/// The cache after a read at `now` that was handed the result of a fresh scan
/// (`None` when the scan failed): a stale cache takes a successful scan and
/// restarts its clock; otherwise nothing changes.
pub open spec fn refreshed(c: CacheView, now: u64, scanned: Option<CatalogView>) -> CacheView {
    if is_stale_at(c, now) && scanned is Some {
        CacheView { catalog: scanned->0, last_refresh: now, ttl: c.ttl }
    } else {
        c
    }
}

pub struct CatalogCache {
    catalog: Catalog,
    last_refresh: u64,
    ttl: u64,
}

impl CatalogCache {
    pub closed spec fn view(&self) -> CacheView {
        CacheView { catalog: self.catalog@, last_refresh: self.last_refresh, ttl: self.ttl }
    }

    pub closed spec fn wf(&self) -> bool {
        self.catalog.wf()
    }

    /// A cache holding the catalog of the initial scan, made at `now`.
    pub fn new(catalog: Catalog, now: u64, ttl: u64) -> (r: CatalogCache)
        requires
            catalog.wf(),
        ensures
            r.wf(),
            r@ == (CacheView { catalog: catalog@, last_refresh: now, ttl }),
    {
        CatalogCache { catalog, last_refresh: now, ttl }
    }

    /// Whether a read at `now` must rescan the tree.
    pub fn is_stale(&self, now: u64) -> (r: bool)
        ensures
            r == is_stale_at(self@, now),
    {
        now >= self.last_refresh && now - self.last_refresh > self.ttl
    }

    /// Takes the result of a scan made for a read at `now`. A stale cache
    /// swaps the new catalog in whole; a failed scan leaves the previous
    /// catalog in place.
    pub fn apply_scan(&mut self, now: u64, scanned: Option<Catalog>)
        requires
            old(self).wf(),
            scanned matches Some(c) ==> c.wf(),
        ensures
            final(self).wf(),
            final(self)@ == refreshed(old(self)@, now, match scanned {
                Some(c) => Some(c@),
                None => None,
            }),
    {
        if self.is_stale(now) {
            if let Some(c) = scanned {
                self.catalog = c;
                self.last_refresh = now;
            }
        }
    }

    /// The catalog as of the last refresh.
    pub fn catalog(&self) -> (r: &Catalog)
        requires
            self.wf(),
        ensures
            r.wf(),
            r@ == self@.catalog,
    {
        &self.catalog
    }

    pub fn last_refresh(&self) -> (r: u64)
        ensures
            r == self@.last_refresh,
    {
        self.last_refresh
    }

    pub fn ttl(&self) -> (r: u64)
        ensures
            r == self@.ttl,
    {
        self.ttl
    }
}

/// Staleness: once the time-to-live has passed, a read that scanned takes the
/// new catalog; before that, reads keep the catalog they had whatever the
/// scan found; and right after a refresh a second read at the same time
/// refreshes no more.
pub proof fn lemma_cache_staleness(
    c: CacheView,
    now: u64,
    fresh: CatalogView,
    later: CatalogView,
)
    ensures
        age(c.last_refresh, now) > c.ttl ==> refreshed(c, now, Some(fresh)) == (CacheView {
            catalog: fresh,
            last_refresh: now,
            ttl: c.ttl,
        }),
        age(c.last_refresh, now) <= c.ttl ==> refreshed(c, now, Some(fresh)) == c,
        refreshed(refreshed(c, now, Some(fresh)), now, Some(later)).catalog == refreshed(
            c,
            now,
            Some(fresh),
        ).catalog,
{
}

} // verus!
